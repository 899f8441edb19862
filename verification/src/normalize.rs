//! The path normalizer: rewrites an input filesystem path into a valid
//! in-archive member name.  A relative path is used verbatim; an
//! absolute path loses its root and any parent-directory (`..`)
//! segments, and the number of removed components is reported so that
//! the caller can print one informational notice.

use vstd::prelude::*;
use crate::fields::{
    ascii_byte, lemma_ascii_byte, lemma_text_bytes_is_utf8, lemma_valid_text_is_ascii, text_bytes,
    valid_text,
};
use crate::strings::push_char;
use vstd::string::StringExecFns;

verus! {

/// The segments of a path, split at every slash; an empty path is one
/// empty segment, and a leading, trailing or doubled slash contributes
/// an empty segment.
pub open spec fn split_slash(s: Seq<char>) -> Seq<Seq<char>>
    decreases s.len(),
{
    if s.len() == 0 {
        seq![Seq::<char>::empty()]
    } else {
        let parts = split_slash(s.drop_last());
        if s.last() == '/' {
            parts.push(Seq::<char>::empty())
        } else {
            parts.update(parts.len() - 1, parts.last().push(s.last()))
        }
    }
}

/// A split always yields at least one segment.
pub proof fn lemma_split_nonempty(s: Seq<char>)
    ensures
        split_slash(s).len() >= 1,
    decreases s.len(),
{
    if s.len() > 0 {
        lemma_split_nonempty(s.drop_last());
    }
}

/// The parent-directory segment.
pub open spec fn dotdot() -> Seq<char> {
    seq!['.', '.']
}

/// A segment that survives normalization: non-empty and not `..`.
pub open spec fn keep_segment(seg: Seq<char>) -> bool {
    seg.len() > 0 && seg != dotdot()
}

/// The segments that survive normalization, in order.
pub open spec fn kept_segments(parts: Seq<Seq<char>>) -> Seq<Seq<char>>
    decreases parts.len(),
{
    if parts.len() == 0 {
        Seq::empty()
    } else {
        let prefix = kept_segments(parts.drop_last());
        if keep_segment(parts.last()) {
            prefix.push(parts.last())
        } else {
            prefix
        }
    }
}

/// How many parent-directory segments a split holds.
pub open spec fn count_dotdot(parts: Seq<Seq<char>>) -> nat
    decreases parts.len(),
{
    if parts.len() == 0 {
        0nat
    } else {
        count_dotdot(parts.drop_last()) + if parts.last() == dotdot() {
            1nat
        } else {
            0nat
        }
    }
}

/// Segments joined with single slashes.
pub open spec fn join_slash(parts: Seq<Seq<char>>) -> Seq<char>
    decreases parts.len(),
{
    if parts.len() == 0 {
        Seq::empty()
    } else if parts.len() == 1 {
        parts[0]
    } else {
        join_slash(parts.drop_last()) + seq!['/'] + parts.last()
    }
}

/// A path that names its root.
pub open spec fn is_absolute(path: Seq<char>) -> bool {
    path.len() > 0 && path[0] == '/'
}

/// The member name a path normalizes to: a relative path verbatim, an
/// absolute path with its root and `..` segments removed.
pub open spec fn normalize_spec(path: Seq<char>) -> Seq<char> {
    if is_absolute(path) {
        join_slash(kept_segments(split_slash(path)))
    } else {
        path
    }
}

/// How many leading components normalization strips: none from a
/// relative path; the root and every `..` segment from an absolute one.
pub open spec fn stripped_spec(path: Seq<char>) -> nat {
    if is_absolute(path) {
        1 + count_dotdot(split_slash(path))
    } else {
        0nat
    }
}

/// A split has at most one more segment than the path has characters.
pub proof fn lemma_split_len(s: Seq<char>)
    ensures
        split_slash(s).len() <= s.len() + 1,
    decreases s.len(),
{
    if s.len() > 0 {
        lemma_split_len(s.drop_last());
        lemma_split_nonempty(s.drop_last());
        let parts = split_slash(s.drop_last());
        if s.last() == '/' {
            assert(split_slash(s).len() == parts.len() + 1);
        } else {
            assert(split_slash(s).len() == parts.len());
        }
    }
}

/// A split holds at most one parent-directory segment per segment.
pub proof fn lemma_count_dotdot_le(parts: Seq<Seq<char>>)
    ensures
        count_dotdot(parts) <= parts.len(),
    decreases parts.len(),
{
    if parts.len() > 0 {
        lemma_count_dotdot_le(parts.drop_last());
    }
}

/// The views of a list of segment strings.
pub open spec fn str_views(parts: Seq<String>) -> Seq<Seq<char>> {
    parts.map(|i: int, p: String| p@)
}

/// Whether a string holds exactly the parent-directory segment.
fn is_dotdot(s: &String) -> (r: bool)
    ensures
        r == (s@ == dotdot()),
{
    let n = s.as_str().unicode_len();
    if n != 2 {
        assert(s@ != dotdot());
        return false;
    }
    let c0 = s.as_str().get_char(0);
    let c1 = s.as_str().get_char(1);
    if c0 == '.' && c1 == '.' {
        assert(s@ =~= dotdot());
        true
    } else {
        assert(s@ != dotdot());
        false
    }
}

/// Splits a NUL-free ASCII path into its slash-separated segments.
fn split_path(path: &str) -> (r: Vec<String>)
    requires
        valid_text(path@),
    ensures
        str_views(r@) == split_slash(path@),
        r@.len() >= 1,
{
    proof {
        lemma_valid_text_is_ascii(path@);
        lemma_text_bytes_is_utf8(path@);
    }
    let bs = path.as_bytes();
    assert(bs@ == text_bytes(path@));
    let n = bs.len();
    let mut parts: Vec<String> = Vec::new();
    parts.push(String::new());
    assert(str_views(parts@) =~= split_slash(path@.take(0)));
    let mut i: usize = 0;
    while i < n
        invariant
            i <= n,
            n == bs@.len() == path@.len(),
            bs@ == text_bytes(path@),
            valid_text(path@),
            parts@.len() >= 1,
            str_views(parts@) == split_slash(path@.take(i as int)),
        decreases n - i,
    {
        let b = bs[i];
        let ghost c = path@[i as int];
        proof {
            assert(0 < (c as u32) < 128);
            lemma_ascii_byte(c);
            assert(b == ascii_byte(c));
            assert(path@.take(i + 1).drop_last() =~= path@.take(i as int));
            assert(path@.take(i + 1).last() == c);
        }
        let ghost old_parts = parts@;
        if b == 47 {
            assert(c == '/') by {
                assert((c as u32) == 47);
            }
            parts.push(String::new());
            assert(str_views(parts@) =~= split_slash(path@.take(i + 1)));
        } else {
            assert(c != '/') by {
                assert((c as u32) != 47);
            }
            let mut last = match parts.pop() {
                Some(p) => p,
                None => String::new(),
            };
            push_char(&mut last, b as char);
            assert((b as char) == c);
            parts.push(last);
            proof {
                let spec_parts = split_slash(path@.take(i as int));
                assert(parts@ =~= old_parts.update(old_parts.len() - 1, parts@.last()));
                assert(str_views(parts@) =~= spec_parts.update(
                    spec_parts.len() - 1,
                    spec_parts.last().push(c),
                ));
                assert(str_views(parts@) =~= split_slash(path@.take(i + 1)));
            }
        }
        i = i + 1;
    }
    assert(path@.take(n as int) =~= path@);
    parts
}

/// Joins the surviving segments of a split with slashes and counts the
/// parent-directory segments that were dropped.
fn join_kept(parts: &Vec<String>) -> (r: (String, usize))
    ensures
        r.0@ == join_slash(kept_segments(str_views(parts@))),
        r.1 == count_dotdot(str_views(parts@)),
{
    let n = parts.len();
    let mut out = String::new();
    let mut kept: usize = 0;
    let mut dropped: usize = 0;
    let mut j: usize = 0;
    while j < n
        invariant
            j <= n,
            n == parts@.len(),
            kept == kept_segments(str_views(parts@).take(j as int)).len(),
            kept <= j,
            dropped == count_dotdot(str_views(parts@).take(j as int)),
            dropped <= j,
            out@ == join_slash(kept_segments(str_views(parts@).take(j as int))),
        decreases n - j,
    {
        let part = &parts[j];
        let ghost sv = str_views(parts@);
        proof {
            assert(sv.take(j + 1).drop_last() =~= sv.take(j as int));
            assert(sv.take(j + 1).last() == part@);
        }
        let empty_part = part.as_str().is_empty();
        let dd = is_dotdot(part);
        if dd {
            dropped = dropped + 1;
        }
        if !empty_part && !dd {
            let ghost ks = kept_segments(sv.take(j as int));
            assert(kept_segments(sv.take(j + 1)) == ks.push(part@));
            if kept == 0 {
                assert(ks.len() == 0);
                assert(ks.push(part@) =~= seq![part@]);
                out.append(part.as_str());
                assert(out@ =~= join_slash(kept_segments(sv.take(j + 1))));
            } else {
                assert(ks.len() >= 1);
                push_char(&mut out, '/');
                out.append(part.as_str());
                proof {
                    let whole = ks.push(part@);
                    assert(whole.drop_last() =~= ks);
                    assert(whole.last() == part@);
                    assert(join_slash(whole) == join_slash(ks) + seq!['/'] + part@);
                    assert(out@ =~= join_slash(kept_segments(sv.take(j + 1))));
                }
            }
            kept = kept + 1;
        } else {
            assert(kept_segments(sv.take(j + 1)) == kept_segments(sv.take(j as int)));
        }
        j = j + 1;
    }
    assert(str_views(parts@).take(n as int) =~= str_views(parts@));
    (out, dropped)
}

/// Whether the path starts with a slash.
fn starts_with_slash(path: &str) -> (r: bool)
    requires
        valid_text(path@),
    ensures
        r == is_absolute(path@),
{
    proof {
        lemma_valid_text_is_ascii(path@);
        lemma_text_bytes_is_utf8(path@);
    }
    let bs = path.as_bytes();
    assert(bs@ == text_bytes(path@));
    if bs.len() == 0 {
        return false;
    }
    let b = bs[0];
    proof {
        lemma_ascii_byte(path@[0]);
    }
    if b == 47 {
        assert(path@[0] == '/') by {
            assert((path@[0] as u32) == 47);
        }
        true
    } else {
        assert(path@[0] != '/') by {
            assert((path@[0] as u32) != 47);
        }
        false
    }
}

/// Normalizes an absolute path into a member name, dropping the root
/// and every `..` segment; a relative path is left alone and yields
/// nothing.  This never fails and touches nothing outside its inputs.
pub fn normalize_path(path: &str) -> (r: Option<String>)
    requires
        valid_text(path@),
    ensures
        match r {
            Some(s) => is_absolute(path@) && s@ == normalize_spec(path@),
            None => !is_absolute(path@),
        },
{
    if starts_with_slash(path) {
        let parts = split_path(path);
        let (joined, _) = join_kept(&parts);
        Some(joined)
    } else {
        None
    }
}

/// Normalizes a path into its member name and reports how many leading
/// components were stripped: none for a relative path, the root and the
/// `..` segments for an absolute one.
pub fn normalize(path: &str) -> (r: (String, usize))
    requires
        valid_text(path@),
        path@.len() + 2 <= usize::MAX,
    ensures
        r.0@ == normalize_spec(path@),
        r.1 == stripped_spec(path@),
{
    if starts_with_slash(path) {
        let parts = split_path(path);
        let (joined, dropped) = join_kept(&parts);
        proof {
            lemma_split_len(path@);
            lemma_count_dotdot_le(str_views(parts@));
            assert(str_views(parts@).len() == parts@.len());
            assert(dropped + 1 <= usize::MAX);
        }
        (joined, dropped + 1)
    } else {
        (path.to_owned(), 0)
    }
}

} // verus!
