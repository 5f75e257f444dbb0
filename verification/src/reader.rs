//! Splitting the URI of an archive into the URI of its directory and the
//! archive's file name, the way the storage layer is addressed.
use vstd::prelude::*;
use vstd::string::{StrSliceExecFns, StringExecFns};

verus! {

/// Bytes per request when a range is read: one request is seconds of
/// transfer rather than hours, and a dropped connection costs at most this
/// much re-reading.
pub const READ_CHUNK: usize = 8 * 1024 * 1024;

/// Whether `url` accepts a string as an absolute URL.
pub uninterp spec fn url_parses(uri: Seq<char>) -> bool;

/// The path, percent-encoded, of the URL that `url` parses from a string.
pub uninterp spec fn url_path_of(uri: Seq<char>) -> Seq<char>;

/// The serialization of the URL that `url` parses from `uri`, once its
/// path is set to `path` (which `url` percent-encodes as needed).
pub uninterp spec fn url_with_path(uri: Seq<char>, path: Seq<char>) -> Seq<char>;

/// `url::Url::parse` followed by `url::Url::path`: the path of the URL the
/// string spells, when it spells one. Which path it is rests on `url`'s
/// parser and is only named; the crate documents it as a percent-encoded
/// ASCII string.
#[verifier::external_body]
fn parsed_url_path(uri: &str) -> (r: Option<String>)
    ensures
        r is Some <==> url_parses(uri@),
        r matches Some(p) ==> p@ == url_path_of(uri@) && vstd::utf8::is_ascii_chars(p@),
{
    url::Url::parse(uri).ok().map(|u| u.path().to_string())
}

/// `url::Url::parse`, then `url::Url::set_path` and `url::Url::as_str`:
/// the URL the string spells with its path replaced, serialized, when the
/// string spells a URL. The serialization is only named.
#[verifier::external_body]
fn url_replacing_path(uri: &str, path: &str) -> (r: Option<String>)
    ensures
        r is Some <==> url_parses(uri@),
        r matches Some(u) ==> u@ == url_with_path(uri@, path@),
{
    match url::Url::parse(uri) {
        Ok(mut u) => {
            u.set_path(path);
            Some(u.as_str().to_string())
        },
        Err(_) => None,
    }
}

/// `s` cut at every `/`: one more piece than there are slashes.
pub open spec fn split_slash(s: Seq<char>) -> Seq<Seq<char>>
    decreases s.len(),
{
    if s.len() == 0 {
        seq![Seq::<char>::empty()]
    } else {
        let p = split_slash(s.drop_last());
        if s.last() == '/' {
            p.push(Seq::<char>::empty())
        } else {
            p.update(p.len() - 1, p.last().push(s.last()))
        }
    }
}

/// Whether a text holds no `/`.
pub open spec fn has_no_slash(t: Seq<char>) -> bool {
    forall|k: int| 0 <= k < t.len() ==> t[k] != '/'
}

/// The segments of a URL path, as `url::Url::path_segments` gives them:
/// the path after its leading `/`, cut at every `/`; none for a path that
/// does not start with `/`.
pub open spec fn path_segments_of(path: Seq<char>) -> Option<Seq<Seq<char>>> {
    if path.len() > 0 && path[0] == '/' {
        Some(split_slash(path.skip(1)))
    } else {
        None
    }
}

/// The text of each string.
pub open spec fn texts(v: Seq<String>) -> Seq<Seq<char>> {
    v.map_values(|s: String| s@)
}

/// Cuts a URL path into its segments.
pub fn path_segments(path: &str) -> (r: Option<Vec<String>>)
    ensures
        match (r, path_segments_of(path@)) {
            (Some(v), Some(segs)) => texts(v@) == segs,
            (None, None) => true,
            _ => false,
        },
{
    let n = path.unicode_len();
    if n == 0 || path.get_char(0) != '/' {
        return None;
    }
    let mut segments: Vec<String> = Vec::new();
    let mut start: usize = 1;
    let mut i: usize = 1;
    assert(path@.subrange(1, 1) =~= Seq::<char>::empty());
    assert(texts(segments@) =~= Seq::<Seq<char>>::empty());
    assert(texts(segments@).push(path@.subrange(1, 1)) =~= split_slash(path@.subrange(1, 1)));
    while i < n
        invariant
            1 <= start <= i <= n,
            n == path@.len(),
            texts(segments@).push(path@.subrange(start as int, i as int)) == split_slash(path@.subrange(1, i as int)),
        decreases n - i,
    {
        let c = path.get_char(i);
        let ghost prev_texts = texts(segments@);
        let ghost cur = path@.subrange(start as int, i as int);
        assert(path@.subrange(1, i + 1).drop_last() =~= path@.subrange(1, i as int));
        assert(path@.subrange(1, i + 1).last() == c);
        if c == '/' {
            let piece = path.substring_char(start, i).to_owned();
            segments.push(piece);
            assert(texts(segments@) =~= prev_texts.push(cur));
            start = i + 1;
            i = i + 1;
            assert(path@.subrange(start as int, i as int) =~= Seq::<char>::empty());
            assert(texts(segments@).push(path@.subrange(start as int, i as int))
                =~= prev_texts.push(cur).push(Seq::<char>::empty()));
        } else {
            i = i + 1;
            assert(path@.subrange(start as int, i as int) =~= cur.push(c));
            assert(texts(segments@).push(path@.subrange(start as int, i as int))
                =~= prev_texts.push(cur).update(prev_texts.len() as int, cur.push(c)));
        }
    }
    let ghost prev_texts = texts(segments@);
    let last = path.substring_char(start, n).to_owned();
    segments.push(last);
    assert(texts(segments@) =~= prev_texts.push(path@.subrange(start as int, n as int)));
    assert(path@.subrange(1, n as int) =~= path@.skip(1));
    Some(segments)
}

/// The directory path and file name of a URL path's segments: the last
/// segment is the file; the directory is `/` followed by the other
/// segments, each after a `/`, or `/` alone when there is no other.
pub open spec fn join_with_slashes(segs: Seq<Seq<char>>) -> Seq<char>
    decreases segs.len(),
{
    if segs.len() == 0 {
        Seq::empty()
    } else {
        join_with_slashes(segs.drop_last()) + seq!['/'] + segs.last()
    }
}

/// The parent path and file name that `split_path_segments` gives.
pub open spec fn spec_split_segments(segs: Seq<Seq<char>>) -> Option<(Seq<char>, Seq<char>)> {
    if segs.len() == 0 {
        None
    } else if segs.len() == 1 {
        Some((seq!['/'], segs.last()))
    } else {
        Some((join_with_slashes(segs.drop_last()), segs.last()))
    }
}

/// Splits path segments into the parent directory's path and the last
/// segment.
pub fn split_path_segments(segments: &Vec<String>) -> (r: Option<(String, String)>)
    ensures
        match (r, spec_split_segments(texts(segments@))) {
            (Some((parent, file)), Some((p, f))) => parent@ == p && file@ == f,
            (None, None) => true,
            _ => false,
        },
{
    let n = segments.len();
    if n == 0 {
        return None;
    }
    let filename = segments[n - 1].clone();
    let slash = "/";
    proof {
        reveal_strlit("/");
    }
    if n == 1 {
        return Some((slash.to_owned(), filename));
    }
    let mut path = String::new();
    let mut i: usize = 0;
    while i < n - 1
        invariant
            i <= n - 1,
            n == segments@.len(),
            slash@ == seq!['/'],
            path@ == join_with_slashes(texts(segments@).take(i as int)),
        decreases n - 1 - i,
    {
        path.append(slash);
        path.append(segments[i].as_str());
        assert(texts(segments@).take(i + 1).drop_last() =~= texts(segments@).take(i as int));
        i = i + 1;
    }
    assert(texts(segments@).take(n - 1) =~= texts(segments@).drop_last());
    Some((path, filename))
}

/// Splits the URI of an archive into the URI of its directory and its
/// file name: `https://host/a/b/c.zip` becomes `https://host/a/b` and
/// `c.zip`. `None` for a string that is not a URL, or a URL whose path has
/// no segments (one that does not start with `/`). The file name is the
/// last segment of the URL's path; the directory URI is the URL with its
/// path set to the other segments, each after a `/`, or to `/` alone.
pub fn split_zip_uri(uri: &str) -> (r: Option<(String, String)>)
    ensures
        r is Some <==> url_parses(uri@) && path_segments_of(url_path_of(uri@)) is Some,
        r matches Some((parent, file)) ==> {
            &&& spec_split_segments(split_slash(url_path_of(uri@).skip(1))) matches Some((pp, ff))
            &&& file@ == ff
            &&& parent@ == url_with_path(uri@, pp)
        },
        r matches Some((_, file)) ==> has_no_slash(file@) && vstd::utf8::is_ascii_chars(file@),
{
    let path = match parsed_url_path(uri) {
        Some(p) => p,
        None => return None,
    };
    let segments = match path_segments(path.as_str()) {
        Some(segs) => segs,
        None => return None,
    };
    let ghost rest = path@.skip(1);
    proof {
        lemma_split_slash_nonempty(rest);
    }
    let (parent, filename) = match split_path_segments(&segments) {
        Some(pair) => pair,
        None => return None,
    };
    proof {
        assert(vstd::utf8::is_ascii_chars(rest)) by {
            assert forall|i: int| 0 <= i < rest.len() implies '\0' <= #[trigger] rest[i] <= '\u{7f}' by {
                assert(rest[i] == path@[i + 1]);
            }
        }
        lemma_split_slash_pieces(rest);
        let segs = texts(segments@);
        assert(segs == split_slash(rest));
        assert(filename@ == segs.last());
        assert(segs.last() == segs[segs.len() - 1]);
    }
    match url_replacing_path(uri, parent.as_str()) {
        Some(directory) => Some((directory, filename)),
        None => None,
    }
}

/// Law: the parent path, a slash and the file name put the segments back
/// together, whenever there is more than one segment.
pub proof fn law_split_segments_rejoin(segs: Seq<Seq<char>>)
    requires
        segs.len() >= 2,
    ensures
        spec_split_segments(segs) matches Some((parent, file))
            && parent + seq!['/'] + file == join_with_slashes(segs),
{
}

/// Law: a lone segment is a file in the root directory.
pub proof fn law_split_single_segment(seg: Seq<char>)
    ensures
        spec_split_segments(seq![seg]) == Some((seq!['/'], seg)),
{
}

/// Law: cutting a path at its slashes loses nothing: the pieces joined
/// with slashes give the path back.
pub proof fn law_split_slash_rejoins(s: Seq<char>)
    ensures
        join_with_slashes(split_slash(s)) == seq!['/'] + s,
    decreases s.len(),
{
    if s.len() > 0 {
        let prev = s.drop_last();
        law_split_slash_rejoins(prev);
        let p = split_slash(prev);
        lemma_split_slash_nonempty(prev);
        if s.last() == '/' {
            let q = split_slash(s);
            assert(q.drop_last() =~= p);
            assert(q.last() =~= Seq::<char>::empty());
            assert(join_with_slashes(q) == join_with_slashes(q.drop_last()) + seq!['/'] + q.last());
            assert(seq!['/'] + s =~= seq!['/'] + prev + seq!['/']);
        } else {
            let q = split_slash(s);
            assert(q.drop_last() =~= p.drop_last());
            assert(q.last() == p.last().push(s.last()));
            assert(join_with_slashes(p) == join_with_slashes(p.drop_last()) + seq!['/'] + p.last());
            assert(seq!['/'] + s =~= (seq!['/'] + prev).push(s.last()));
            assert(seq!['/'] + s =~= join_with_slashes(p.drop_last()) + seq!['/'] + p.last().push(s.last()));
            assert(join_with_slashes(q) == join_with_slashes(q.drop_last()) + seq!['/'] + q.last());
        }
    } else {
        let q = split_slash(s);
        assert(q =~= seq![Seq::<char>::empty()]);
        assert(q.drop_last() =~= Seq::<Seq<char>>::empty());
        assert(join_with_slashes(q.drop_last()) =~= Seq::<char>::empty());
        assert(join_with_slashes(q) == join_with_slashes(q.drop_last()) + seq!['/'] + q.last());
        assert(seq!['/'] + s =~= seq!['/']);
        assert(join_with_slashes(q) =~= seq!['/']);
    }
}

proof fn lemma_split_slash_pieces(s: Seq<char>)
    ensures
        forall|i: int| 0 <= i < split_slash(s).len() ==> has_no_slash(#[trigger] split_slash(s)[i]),
        vstd::utf8::is_ascii_chars(s) ==> forall|i: int| 0 <= i < split_slash(s).len()
            ==> vstd::utf8::is_ascii_chars(#[trigger] split_slash(s)[i]),
    decreases s.len(),
{
    if s.len() > 0 {
        let prev = s.drop_last();
        lemma_split_slash_pieces(prev);
        lemma_split_slash_nonempty(prev);
        let p = split_slash(prev);
        let q = split_slash(s);
        let c = s.last();
        if vstd::utf8::is_ascii_chars(s) {
            assert(vstd::utf8::is_ascii_chars(prev)) by {
                assert forall|k: int| 0 <= k < prev.len() implies '\0' <= #[trigger] prev[k] <= '\u{7f}' by {
                    assert(prev[k] == s[k]);
                }
            }
            assert('\0' <= s[s.len() - 1] <= '\u{7f}');
        }
        if c != '/' {
            let l = p.last().push(c);
            assert(q == p.update(p.len() - 1, l));
            assert(p.last() == p[p.len() - 1]);
            assert(has_no_slash(l)) by {
                assert forall|k: int| 0 <= k < l.len() implies l[k] != '/' by {
                    if k < l.len() - 1 {
                        assert(l[k] == p[p.len() - 1][k]);
                    }
                }
            }
            if vstd::utf8::is_ascii_chars(s) {
                assert(vstd::utf8::is_ascii_chars(l)) by {
                    assert forall|k: int| 0 <= k < l.len() implies '\0' <= #[trigger] l[k] <= '\u{7f}' by {
                        if k < l.len() - 1 {
                            assert(l[k] == p[p.len() - 1][k]);
                        }
                    }
                }
            }
            assert forall|i: int| 0 <= i < q.len() implies has_no_slash(#[trigger] q[i]) by {
                if i < q.len() - 1 {
                    assert(q[i] == p[i]);
                }
            }
            if vstd::utf8::is_ascii_chars(s) {
                assert forall|i: int| 0 <= i < q.len() implies vstd::utf8::is_ascii_chars(#[trigger] q[i]) by {
                    if i < q.len() - 1 {
                        assert(q[i] == p[i]);
                    }
                }
            }
        } else {
            assert(q == p.push(Seq::<char>::empty()));
            assert forall|i: int| 0 <= i < q.len() implies has_no_slash(#[trigger] q[i]) by {
                if i < q.len() - 1 {
                    assert(q[i] == p[i]);
                }
            }
            if vstd::utf8::is_ascii_chars(s) {
                assert forall|i: int| 0 <= i < q.len() implies vstd::utf8::is_ascii_chars(#[trigger] q[i]) by {
                    if i < q.len() - 1 {
                        assert(q[i] == p[i]);
                    }
                }
            }
        }
    } else {
        assert(split_slash(s) == seq![Seq::<char>::empty()]);
    }
}

proof fn lemma_split_slash_nonempty(s: Seq<char>)
    ensures
        split_slash(s).len() >= 1,
    decreases s.len(),
{
    if s.len() > 0 {
        lemma_split_slash_nonempty(s.drop_last());
    }
}

} // verus!
