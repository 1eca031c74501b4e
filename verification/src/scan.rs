//! Byte-level scanning primitives shared by the subdomain extractor.

use vstd::prelude::*;

verus! {

/// The byte `.`, the label separator in host names.
pub const DOT: u8 = 0x2e;

/// The byte `_`, which replaces the interior dots of an IPv4 literal.
pub const UNDERSCORE: u8 = 0x5f;

/// The byte `:`, which separates a host name from an optional port.
pub const COLON: u8 = 0x3a;

/// True of the ASCII decimal digits `0` through `9`.
pub open spec fn is_digit(b: u8) -> bool {
    0x30 <= b && b <= 0x39
}

/// Runtime check for [`is_digit`].
pub fn is_digit_exec(b: u8) -> (r: bool)
    ensures
        r == is_digit(b),
{
    0x30 <= b && b <= 0x39
}

/// The views of a sequence of byte vectors, element by element.
pub open spec fn seq_views(v: Seq<Vec<u8>>) -> Seq<Seq<u8>> {
    v.map_values(|x: Vec<u8>| x@)
}

/// Appending a vector to a list appends its view to the list of views.
pub proof fn lemma_seq_views_push(v: Seq<Vec<u8>>, x: Vec<u8>)
    ensures
        seq_views(v.push(x)) =~= seq_views(v).push(x@),
{
}

/// The view of an optional byte vector.
pub open spec fn opt_view(o: Option<Vec<u8>>) -> Option<Seq<u8>> {
    match o {
        Some(v) => Some(v@),
        None => None,
    }
}

/// The view of an optional byte slice.
pub open spec fn opt_slice_view(o: Option<&[u8]>) -> Option<Seq<u8>> {
    match o {
        Some(v) => Some(v@),
        None => None,
    }
}

/// The index of the first occurrence of `b` in `s` at or after `i`,
/// or the length of `s` if there is none.
pub open spec fn find_from(s: Seq<u8>, i: int, b: u8) -> int
    decreases s.len() - i,
{
    if 0 <= i && i < s.len() {
        if s[i] == b {
            i
        } else {
            find_from(s, i + 1, b)
        }
    } else {
        s.len() as int
    }
}

/// `find_from` stays within bounds, lands on `b` when it finds one,
/// and skips no earlier occurrence.
pub proof fn lemma_find_from(s: Seq<u8>, i: int, b: u8)
    requires
        0 <= i <= s.len(),
    ensures
        i <= find_from(s, i, b) <= s.len(),
        find_from(s, i, b) < s.len() ==> s[find_from(s, i, b)] == b,
        forall|k: int| i <= k < find_from(s, i, b) ==> s[k] != b,
    decreases s.len() - i,
{
    if i < s.len() && s[i] != b {
        lemma_find_from(s, i + 1, b);
    }
}

/// Finds the first occurrence of `b` in `s` at or after `i`.
pub fn find_byte_from(s: &[u8], i: usize, b: u8) -> (r: usize)
    requires
        i <= s@.len(),
    ensures
        r == find_from(s@, i as int, b),
{
    let n = s.len();
    let mut j = i;
    while j < n
        invariant
            i <= j <= n,
            n == s@.len(),
            find_from(s@, i as int, b) == find_from(s@, j as int, b),
        decreases n - j,
    {
        if s[j] == b {
            return j;
        }
        j += 1;
    }
    j
}

/// Decides equality of two byte strings.
pub fn bytes_eq(a: &[u8], b: &[u8]) -> (r: bool)
    ensures
        r == (a@ == b@),
{
    if a.len() != b.len() {
        return false;
    }
    let n = a.len();
    let mut i: usize = 0;
    while i < n
        invariant
            i <= n,
            n == a@.len(),
            n == b@.len(),
            forall|k: int| 0 <= k < i ==> a@[k] == b@[k],
        decreases n - i,
    {
        if a[i] != b[i] {
            return false;
        }
        i += 1;
    }
    proof {
        assert(a@ =~= b@);
    }
    true
}

/// True when `list` holds a vector whose view is `x`.
pub fn contains_bytes(list: &Vec<Vec<u8>>, x: &[u8]) -> (r: bool)
    ensures
        r == seq_views(list@).contains(x@),
{
    let n = list.len();
    let mut k: usize = 0;
    while k < n
        invariant
            k <= n,
            n == list@.len(),
            forall|m: int| 0 <= m < k ==> seq_views(list@)[m] != x@,
        decreases n - k,
    {
        if bytes_eq(list[k].as_slice(), x) {
            proof {
                assert(seq_views(list@)[k as int] == x@);
            }
            return true;
        }
        k += 1;
    }
    proof {
        if seq_views(list@).contains(x@) {
            let m = choose|m: int| 0 <= m < seq_views(list@).len() && seq_views(list@)[m] == x@;
            assert(seq_views(list@)[m] != x@);
        }
    }
    false
}

} // verus!
