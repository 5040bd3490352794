//! Field paths: dot-separated strings addressing a slot in a document tree.
//! The first segment names the root tree (`data` or `metadata`); the
//! remaining segments walk object nodes.

use vstd::prelude::*;
use vstd::string::StrSliceExecFns;
use vstd::string::StringExecFns;

verus! {

/// The character sequences of a list of segments.
pub open spec fn seg_views(s: Seq<String>) -> Seq<Seq<char>> {
    s.map_values(|x: String| x@)
}

/// Split a character sequence at every `'.'`. The result always has at least
/// one element; an empty input yields one empty segment, and consecutive or
/// trailing dots yield empty segments, exactly as the splitting of strings.
pub open spec fn split_dots(s: Seq<char>) -> Seq<Seq<char>>
    decreases s.len(),
{
    if s.len() == 0 {
        seq![Seq::empty()]
    } else if s.last() == '.' {
        split_dots(s.drop_last()).push(Seq::empty())
    } else {
        let p = split_dots(s.drop_last());
        p.update(p.len() - 1, p.last().push(s.last()))
    }
}

/// A split never comes back empty.
pub proof fn lemma_split_dots_len(s: Seq<char>)
    ensures
        split_dots(s).len() >= 1,
    decreases s.len(),
{
    if s.len() > 0 {
        lemma_split_dots_len(s.drop_last());
    }
}

/// Character-for-character string comparison.
pub fn str_eq(a: &str, b: &str) -> (r: bool)
    ensures
        r == (a@ == b@),
{
    let n = a.unicode_len();
    let m = b.unicode_len();
    if n != m {
        return false;
    }
    let mut i: usize = 0;
    while i < n
        invariant
            i <= n,
            n == a@.len(),
            n == b@.len(),
            forall|k: int| 0 <= k < i ==> a@[k] == b@[k],
        decreases n - i,
    {
        if a.get_char(i) != b.get_char(i) {
            return false;
        }
        i += 1;
    }
    proof {
        assert(a@ =~= b@);
    }
    true
}

/// Parse a field path into its dot-separated segments.
pub fn parse_path(path: &str) -> (segs: Vec<String>)
    ensures
        seg_views(segs@) == split_dots(path@),
        segs@.len() >= 1,
{
    let n = path.unicode_len();
    let mut segs: Vec<String> = Vec::new();
    let mut start: usize = 0;
    let mut i: usize = 0;
    proof {
        assert(split_dots(path@.take(0)) =~~= seg_views(segs@).push(path@.subrange(0, 0)));
    }
    while i < n
        invariant
            start <= i <= n,
            n == path@.len(),
            split_dots(path@.take(i as int)) == seg_views(segs@).push(
                path@.subrange(start as int, i as int),
            ),
        decreases n - i,
    {
        let c = path.get_char(i);
        let ghost pre = path@.take(i as int);
        let ghost segv = seg_views(segs@);
        if c == '.' {
            let seg = path.substring_char(start, i);
            segs.push(String::from_str(seg));
            start = i + 1;
            proof {
                assert(path@.take(i + 1).drop_last() =~= pre);
                assert(path@.take(i + 1).last() == '.');
                assert(seg_views(segs@) =~= segv.push(seg@));
                assert(split_dots(path@.take(i + 1)) =~~= seg_views(segs@).push(
                    path@.subrange(i + 1, i + 1),
                ));
            }
        } else {
            proof {
                assert(path@.take(i + 1).drop_last() =~= pre);
                assert(path@.take(i + 1).last() == path@[i as int]);
                let p = split_dots(pre);
                assert(p.last() == path@.subrange(start as int, i as int));
                assert(path@.subrange(start as int, i as int).push(path@[i as int])
                    =~= path@.subrange(start as int, i + 1));
                assert(split_dots(path@.take(i + 1)) =~~= seg_views(segs@).push(
                    path@.subrange(start as int, i + 1),
                ));
            }
        }
        i += 1;
    }
    let seg = path.substring_char(start, n);
    segs.push(String::from_str(seg));
    proof {
        assert(path@.take(n as int) =~= path@);
        assert(seg_views(segs@) =~~= split_dots(path@));
    }
    segs
}

} // verus!
