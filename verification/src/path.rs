//! Splitting of slash-separated paths.
use vstd::prelude::*;

verus! {

pub const SLASH: u8 = 47;

/// Index of the first slash at or after `i`, or the length of `s`.
pub open spec fn next_slash(s: Seq<u8>, i: int) -> int
    decreases s.len() - i,
{
    if i >= s.len() {
        s.len() as int
    } else if s[i] == SLASH {
        i
    } else {
        next_slash(s, i + 1)
    }
}

/// Index of the last slash before `i`, or -1.
pub open spec fn prev_slash(s: Seq<u8>, i: int) -> int
    decreases i,
{
    if i <= 0 {
        -1
    } else if s[i - 1] == SLASH {
        i - 1
    } else {
        prev_slash(s, i - 1)
    }
}

/// The non-empty runs of bytes between slashes in `s`, from index `i` on.
pub open spec fn components_from(s: Seq<u8>, i: int) -> Seq<Seq<u8>>
    decreases s.len() - i,
{
    if i < 0 || i >= s.len() {
        Seq::empty()
    } else {
        let k = next_slash(s, i);
        proof { lemma_next_slash(s, i); }
        let rest = if k < s.len() { components_from(s, k + 1) } else { Seq::empty() };
        if k > i {
            seq![s.subrange(i, k)] + rest
        } else {
            rest
        }
    }
}

/// The non-empty components of a path.
pub open spec fn path_components(s: Seq<u8>) -> Seq<Seq<u8>> {
    components_from(s, 0)
}

/// The directory part of a path: everything before its last slash (empty
/// if it holds none).
pub open spec fn dir_part(s: Seq<u8>) -> Seq<u8> {
    let k = prev_slash(s, s.len() as int);
    if k < 0 { Seq::empty() } else { s.subrange(0, k) }
}

/// The final name of a path: everything after its last slash.
pub open spec fn name_part(s: Seq<u8>) -> Seq<u8> {
    s.subrange(prev_slash(s, s.len() as int) + 1, s.len() as int)
}

pub proof fn lemma_next_slash(s: Seq<u8>, i: int)
    requires
        0 <= i <= s.len(),
    ensures
        i <= next_slash(s, i) <= s.len(),
        forall|j: int| i <= j < next_slash(s, i) ==> s[j] != SLASH,
        next_slash(s, i) < s.len() ==> s[next_slash(s, i)] == SLASH,
    decreases s.len() - i,
{
    if i < s.len() && s[i] != SLASH {
        lemma_next_slash(s, i + 1);
    }
}

pub proof fn lemma_prev_slash(s: Seq<u8>, i: int)
    requires
        0 <= i <= s.len(),
    ensures
        -1 <= prev_slash(s, i) < i,
        forall|j: int| prev_slash(s, i) < j < i ==> s[j] != SLASH,
        prev_slash(s, i) >= 0 ==> s[prev_slash(s, i)] == SLASH,
    decreases i,
{
    if i > 0 && s[i - 1] != SLASH {
        lemma_prev_slash(s, i - 1);
    }
}

/// Copies `s[start..end]` into a new vector.
fn copy_range(s: &[u8], start: usize, end: usize) -> (v: Vec<u8>)
    requires
        start <= end <= s@.len(),
    ensures
        v@ == s@.subrange(start as int, end as int),
{
    vstd::slice::slice_to_vec(vstd::slice::slice_subrange(s, start, end))
}

/// Splits a path into its non-empty components.
pub fn split_components(s: &[u8]) -> (parts: Vec<Vec<u8>>)
    ensures
        parts@.map_values(|p: Vec<u8>| p@) == path_components(s@),
{
    let mut parts: Vec<Vec<u8>> = Vec::new();
    let mut i: usize = 0;
    while i < s.len()
        invariant
            i <= s@.len(),
            path_components(s@) == parts@.map_values(|p: Vec<u8>| p@) + components_from(
                s@,
                i as int,
            ),
        decreases s.len() - i,
    {
        proof { lemma_next_slash(s@, i as int); }
        let ghost before = parts@;
        let mut k: usize = i;
        while k < s.len() && s[k] != SLASH
            invariant
                i <= k <= next_slash(s@, i as int) <= s@.len(),
                forall|j: int| i <= j < next_slash(s@, i as int) ==> s@[j] != SLASH,
                next_slash(s@, i as int) < s@.len() ==> s@[next_slash(s@, i as int)] == SLASH,
            decreases s.len() - k,
        {
            k = k + 1;
        }
        if k > i {
            parts.push(copy_range(s, i, k));
        }
        proof {
            assert(parts@.map_values(|p: Vec<u8>| p@) =~= before.map_values(|p: Vec<u8>| p@) + (
            if k > i {
                seq![s@.subrange(i as int, k as int)]
            } else {
                Seq::empty()
            }));
        }
        if k == s.len() {
            i = k;
        } else {
            i = k + 1;
        }
        proof {
            assert(path_components(s@) =~= parts@.map_values(|p: Vec<u8>| p@) + components_from(
                s@,
                i as int,
            ));
        }
    }
    parts
}

/// Splits a path at its last slash into the directory part and the final
/// name. A path without a slash has an empty directory part.
pub fn split_last(s: &[u8]) -> (r: (Vec<u8>, Vec<u8>))
    ensures
        r.0@ == dir_part(s@),
        r.1@ == name_part(s@),
{
    proof { lemma_prev_slash(s@, s@.len() as int); }
    let mut i: usize = s.len();
    while i > 0 && s[i - 1] != SLASH
        invariant
            0 <= i <= s@.len(),
            prev_slash(s@, i as int) == prev_slash(s@, s@.len() as int),
        decreases i,
    {
        i = i - 1;
    }
    if i == 0 {
        (Vec::new(), copy_range(s, 0, s.len()))
    } else {
        (copy_range(s, 0, i - 1), copy_range(s, i, s.len()))
    }
}

} // verus!
