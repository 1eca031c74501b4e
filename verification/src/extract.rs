//! The subdomain extractor: the pure function from a raw host string to an
//! optional subdomain key.
//!
//! Extraction proceeds in two stages. Configured known-host suffixes are
//! tried first, in registration order; the first suffix preceded by a `.`
//! that ends the host wins, and everything before that `.` is the subdomain.
//! Otherwise the host goes through generic extraction: IPv4 literals are
//! collapsed into single labels (their interior dots become underscores),
//! the host is split on `.`, a trailing recognized top-level domain is
//! dropped, and what precedes the last surviving label is the subdomain.

use vstd::prelude::*;

use crate::scan::{
    bytes_eq, contains_bytes, find_byte_from, find_from, is_digit, is_digit_exec,
    lemma_find_from, opt_view, seq_views, COLON, DOT, UNDERSCORE,
};
use vstd::slice::{slice_subrange, slice_to_vec};

verus! {

/// The end of the run of decimal digits that starts at `i`: the first index
/// at or after `i` that holds no digit, or the length of `s`.
pub open spec fn digit_run_end(s: Seq<u8>, i: int) -> int
    decreases s.len() - i,
{
    if 0 <= i && i < s.len() && is_digit(s[i]) {
        digit_run_end(s, i + 1)
    } else {
        i
    }
}

/// A digit run ends within bounds and no earlier than it starts.
pub proof fn lemma_digit_run_end_bounds(s: Seq<u8>, i: int)
    requires
        0 <= i <= s.len(),
    ensures
        i <= digit_run_end(s, i) <= s.len(),
    decreases s.len() - i,
{
    if i < s.len() && is_digit(s[i]) {
        lemma_digit_run_end_bounds(s, i + 1);
    }
}

/// Where a `.` followed by at least one digit stands at `j`, the end of the
/// digit run after that `.`; `None` otherwise.
pub open spec fn dot_digits_end(s: Seq<u8>, j: int) -> Option<int> {
    if 0 <= j && j < s.len() && s[j] == DOT && j + 1 < s.len() && is_digit(s[j + 1]) {
        Some(digit_run_end(s, j + 1))
    } else {
        None
    }
}

/// A successful `dot_digits_end` moves strictly forward and stays in bounds.
pub proof fn lemma_dot_digits_end_bounds(s: Seq<u8>, j: int)
    requires
        dot_digits_end(s, j) is Some,
    ensures
        j < dot_digits_end(s, j)->Some_0 <= s.len(),
{
    lemma_digit_run_end_bounds(s, j + 1);
}

/// Where an IPv4 literal (four dot-separated runs of decimal digits) starts
/// at `i`, the index just past it; `None` otherwise. The digit runs are
/// maximal, so the literal found is the longest one starting at `i`.
pub open spec fn ipv4_run_end(s: Seq<u8>, i: int) -> Option<int> {
    if 0 <= i && i < s.len() && is_digit(s[i]) {
        let e1 = digit_run_end(s, i);
        match dot_digits_end(s, e1) {
            Some(e2) => match dot_digits_end(s, e2) {
                Some(e3) => dot_digits_end(s, e3),
                None => None,
            },
            None => None,
        }
    } else {
        None
    }
}

/// A recognized IPv4 literal moves strictly forward and stays in bounds.
pub proof fn lemma_ipv4_run_end_bounds(s: Seq<u8>, i: int)
    requires
        ipv4_run_end(s, i) is Some,
    ensures
        i < ipv4_run_end(s, i)->Some_0 <= s.len(),
{
    lemma_digit_run_end_bounds(s, i);
    let e1 = digit_run_end(s, i);
    lemma_dot_digits_end_bounds(s, e1);
    let e2 = dot_digits_end(s, e1)->Some_0;
    lemma_dot_digits_end_bounds(s, e2);
    let e3 = dot_digits_end(s, e2)->Some_0;
    lemma_dot_digits_end_bounds(s, e3);
}

/// Replaces a dot by an underscore and keeps every other byte.
pub open spec fn undot(b: u8) -> u8 {
    if b == DOT {
        UNDERSCORE
    } else {
        b
    }
}

/// The byte string with every dot replaced by an underscore.
pub open spec fn undotted(s: Seq<u8>) -> Seq<u8> {
    Seq::new(s.len(), |k: int| undot(s[k]))
}

/// The host string from index `i` on, with the dots interior to each IPv4
/// literal replaced by underscores. Literals are found left to right; the
/// scan resumes just past each one.
pub open spec fn normalize_from(s: Seq<u8>, i: int) -> Seq<u8>
    decreases s.len() - i,
    via normalize_from_decreases
{
    if 0 <= i && i < s.len() {
        match ipv4_run_end(s, i) {
            Some(e) => undotted(s.subrange(i, e)) + normalize_from(s, e),
            None => seq![s[i]] + normalize_from(s, i + 1),
        }
    } else {
        Seq::empty()
    }
}

#[via_fn]
proof fn normalize_from_decreases(s: Seq<u8>, i: int) {
    if 0 <= i && i < s.len() && ipv4_run_end(s, i) is Some {
        lemma_ipv4_run_end_bounds(s, i);
    }
}

/// The normalized host string: [`normalize_from`] over the whole input.
pub open spec fn spec_normalize(s: Seq<u8>) -> Seq<u8> {
    normalize_from(s, 0)
}

/// The tail normalized from `i` is exactly as long as the tail itself.
proof fn lemma_normalize_from_len(s: Seq<u8>, i: int)
    requires
        0 <= i <= s.len(),
    ensures
        normalize_from(s, i).len() == s.len() - i,
    decreases s.len() - i,
{
    if i < s.len() {
        match ipv4_run_end(s, i) {
            Some(e) => {
                lemma_ipv4_run_end_bounds(s, i);
                lemma_normalize_from_len(s, e);
            },
            None => {
                lemma_normalize_from_len(s, i + 1);
            },
        }
    }
}

/// Each normalized byte is the original byte, except that a dot may have
/// become an underscore.
proof fn lemma_normalize_from_only_undots(s: Seq<u8>, i: int, k: int)
    requires
        0 <= i <= s.len(),
        0 <= k < s.len() - i,
    ensures
        normalize_from(s, i)[k] == s[i + k] || (s[i + k] == DOT && normalize_from(s, i)[k]
            == UNDERSCORE),
    decreases s.len() - i,
{
    lemma_normalize_from_len(s, i);
    match ipv4_run_end(s, i) {
        Some(e) => {
            lemma_ipv4_run_end_bounds(s, i);
            lemma_normalize_from_len(s, e);
            if k >= e - i {
                lemma_normalize_from_only_undots(s, e, k - (e - i));
            }
        },
        None => {
            if k > 0 {
                lemma_normalize_from_only_undots(s, i + 1, k - 1);
            }
        },
    }
}

/// IPv4 normalization never changes the length of the host and only ever
/// replaces a dot by an underscore: it can merge labels into one, but it can
/// never split a label in two or disturb any byte outside an IPv4 literal.
pub proof fn lemma_normalize_preserves_shape(s: Seq<u8>)
    ensures
        spec_normalize(s).len() == s.len(),
        forall|k: int|
            0 <= k < s.len() ==> spec_normalize(s)[k] == s[k] || (s[k] == DOT && spec_normalize(
                s,
            )[k] == UNDERSCORE),
{
    lemma_normalize_from_len(s, 0);
    assert forall|k: int| 0 <= k < s.len() implies spec_normalize(s)[k] == s[k] || (s[k] == DOT
        && spec_normalize(s)[k] == UNDERSCORE) by {
        lemma_normalize_from_only_undots(s, 0, k);
    }
}

/// The end of the digit run starting at `i`.
fn digit_run_end_exec(s: &[u8], i: usize) -> (r: usize)
    requires
        i <= s@.len(),
    ensures
        r == digit_run_end(s@, i as int),
        i <= r <= s@.len(),
{
    let n = s.len();
    let mut j = i;
    while j < n
        invariant
            i <= j <= n,
            n == s@.len(),
            digit_run_end(s@, i as int) == digit_run_end(s@, j as int),
        decreases n - j,
    {
        if !is_digit_exec(s[j]) {
            return j;
        }
        j += 1;
    }
    j
}

/// The end of the `.`-plus-digit-run at `j`, if one stands there.
fn dot_digits_end_exec(s: &[u8], j: usize) -> (r: Option<usize>)
    requires
        j <= s@.len(),
    ensures
        match r {
            Some(e) => dot_digits_end(s@, j as int) == Some(e as int) && j < e <= s@.len(),
            None => dot_digits_end(s@, j as int) is None,
        },
{
    let n = s.len();
    if j < n && s[j] == DOT && j + 1 < n && is_digit_exec(s[j + 1]) {
        let e = digit_run_end_exec(s, j + 1);
        Some(e)
    } else {
        None
    }
}

/// The end of the IPv4 literal starting at `i`, if one stands there.
fn ipv4_run_end_exec(s: &[u8], i: usize) -> (r: Option<usize>)
    requires
        i <= s@.len(),
    ensures
        match r {
            Some(e) => ipv4_run_end(s@, i as int) == Some(e as int) && i < e <= s@.len(),
            None => ipv4_run_end(s@, i as int) is None,
        },
{
    let n = s.len();
    if i < n && is_digit_exec(s[i]) {
        let e1 = digit_run_end_exec(s, i);
        match dot_digits_end_exec(s, e1) {
            Some(e2) => match dot_digits_end_exec(s, e2) {
                Some(e3) => dot_digits_end_exec(s, e3),
                None => None,
            },
            None => None,
        }
    } else {
        None
    }
}

/// Collapses every IPv4 literal in `host` into a single label by replacing
/// its three interior dots with underscores, leaving all other bytes alone.
pub fn normalize_ipv4(host: &[u8]) -> (r: Vec<u8>)
    ensures
        r@ == spec_normalize(host@),
{
    let n = host.len();
    let mut out: Vec<u8> = Vec::new();
    let mut i: usize = 0;
    while i < n
        invariant
            i <= n,
            n == host@.len(),
            spec_normalize(host@) == out@ + normalize_from(host@, i as int),
        decreases n - i,
    {
        let ghost prev = out@;
        match ipv4_run_end_exec(host, i) {
            Some(e) => {
                let mut j = i;
                while j < e
                    invariant
                        i <= j <= e <= n,
                        n == host@.len(),
                        out@ == prev + undotted(host@.subrange(i as int, j as int)),
                    decreases e - j,
                {
                    let c = host[j];
                    if c == DOT {
                        out.push(UNDERSCORE);
                    } else {
                        out.push(c);
                    }
                    proof {
                        assert(undotted(host@.subrange(i as int, j + 1 as int)) =~= undotted(
                            host@.subrange(i as int, j as int),
                        ).push(undot(host@[j as int])));
                    }
                    j += 1;
                }
                proof {
                    assert(out@ + normalize_from(host@, e as int) =~= prev + (undotted(
                        host@.subrange(i as int, e as int),
                    ) + normalize_from(host@, e as int)));
                }
                i = e;
            },
            None => {
                out.push(host[i]);
                proof {
                    assert(out@ + normalize_from(host@, i + 1 as int) =~= prev + (seq![
                        host@[i as int],
                    ] + normalize_from(host@, i + 1 as int)));
                }
                i += 1;
            },
        }
    }
    proof {
        assert(out@ =~= out@ + normalize_from(host@, n as int));
    }
    out
}

/// The labels of `s` from index `i` on, split on `.` exactly as a textual
/// split is: adjacent, leading or trailing dots yield empty labels, and an
/// empty input yields one empty label.
pub open spec fn split_labels_from(s: Seq<u8>, i: int) -> Seq<Seq<u8>>
    decreases s.len() - i,
    via split_labels_from_decreases
{
    let d = find_from(s, i, DOT);
    if d < s.len() {
        seq![s.subrange(i, d)] + split_labels_from(s, d + 1)
    } else {
        seq![s.subrange(i, s.len() as int)]
    }
}

#[via_fn]
proof fn split_labels_from_decreases(s: Seq<u8>, i: int) {
    if 0 <= i && i <= s.len() {
        lemma_find_from(s, i, DOT);
    } else {
        lemma_find_from_out_of_range(s, i, DOT);
    }
}

/// Outside `[0, s.len()]` a search finds nothing and reports the length.
proof fn lemma_find_from_out_of_range(s: Seq<u8>, i: int, b: u8)
    requires
        i < 0 || i > s.len(),
    ensures
        find_from(s, i, b) == s.len(),
{
}

/// The split of a byte string into its dot-separated labels.
pub open spec fn spec_split_labels(s: Seq<u8>) -> Seq<Seq<u8>> {
    split_labels_from(s, 0)
}

/// Splits a byte string on `.` into its labels.
pub fn split_labels(s: &[u8]) -> (r: Vec<Vec<u8>>)
    ensures
        seq_views(r@) == spec_split_labels(s@),
{
    let n = s.len();
    let mut out: Vec<Vec<u8>> = Vec::new();
    let mut i: usize = 0;
    loop
        invariant
            i <= n,
            n == s@.len(),
            spec_split_labels(s@) == seq_views(out@) + split_labels_from(s@, i as int),
        decreases n - i,
    {
        let ghost prev = out@;
        let d = find_byte_from(s, i, DOT);
        proof {
            lemma_find_from(s@, i as int, DOT);
        }
        if d < n {
            out.push(slice_to_vec(slice_subrange(s, i, d)));
            proof {
                crate::scan::lemma_seq_views_push(prev, out@[out@.len() - 1]);
                assert(seq_views(out@) + split_labels_from(s@, d + 1 as int) =~= seq_views(prev)
                    + (seq![s@.subrange(i as int, d as int)] + split_labels_from(
                    s@,
                    d + 1 as int,
                )));
            }
            i = d + 1;
        } else {
            out.push(slice_to_vec(slice_subrange(s, i, n)));
            proof {
                crate::scan::lemma_seq_views_push(prev, out@[out@.len() - 1]);
                assert(seq_views(out@) =~= seq_views(prev) + seq![
                    s@.subrange(i as int, n as int),
                ]);
            }
            return out;
        }
    }
}

/// The labels joined by single dots: the inverse of a split when no label
/// holds a dot.
pub open spec fn join_dots(ls: Seq<Seq<u8>>) -> Seq<u8>
    decreases ls.len(),
{
    if ls.len() == 0 {
        Seq::empty()
    } else if ls.len() == 1 {
        ls[0]
    } else {
        ls[0] + seq![DOT] + join_dots(ls.drop_first())
    }
}

/// Appending a label to a nonempty list appends a dot and that label to the
/// joined string.
pub proof fn lemma_join_dots_push(ls: Seq<Seq<u8>>, x: Seq<u8>)
    ensures
        ls.len() == 0 ==> join_dots(ls.push(x)) == x,
        ls.len() > 0 ==> join_dots(ls.push(x)) =~= join_dots(ls) + seq![DOT] + x,
    decreases ls.len(),
{
    let p = ls.push(x);
    if ls.len() == 0 {
        assert(p.len() == 1);
        assert(p[0] == x);
    } else if ls.len() == 1 {
        assert(p.len() == 2);
        assert(p.drop_first() =~= seq![x]);
        assert(join_dots(p.drop_first()) == x);
        assert(join_dots(p) =~= ls[0] + seq![DOT] + x);
        assert(join_dots(ls) == ls[0]);
    } else {
        lemma_join_dots_push(ls.drop_first(), x);
        assert(p.drop_first() =~= ls.drop_first().push(x));
        assert(join_dots(p.drop_first()) =~= join_dots(ls.drop_first()) + seq![DOT] + x);
        assert(join_dots(p) =~= p[0] + seq![DOT] + join_dots(p.drop_first()));
        assert(join_dots(p) =~= (ls[0] + seq![DOT] + join_dots(ls.drop_first())) + seq![DOT] + x);
    }
}

/// Joins the first `k` labels of `ls` with dots.
pub fn join_prefix(ls: &Vec<Vec<u8>>, k: usize) -> (r: Vec<u8>)
    requires
        k <= ls@.len(),
    ensures
        r@ == join_dots(seq_views(ls@).take(k as int)),
{
    let mut out: Vec<u8> = Vec::new();
    let mut m: usize = 0;
    while m < k
        invariant
            m <= k <= ls@.len(),
            out@ == join_dots(seq_views(ls@).take(m as int)),
        decreases k - m,
    {
        let ghost prev = out@;
        if m > 0 {
            out.push(DOT);
        }
        let mut j: usize = 0;
        let label = &ls[m];
        let ghost mid = out@;
        while j < label.len()
            invariant
                j <= label@.len(),
                out@ == mid + label@.take(j as int),
            decreases label@.len() - j,
        {
            out.push(label[j]);
            proof {
                assert(label@.take(j + 1 as int) =~= label@.take(j as int).push(
                    label@[j as int],
                ));
            }
            j += 1;
        }
        proof {
            let views = seq_views(ls@);
            assert(label@.take(label@.len() as int) =~= views[m as int]);
            assert(views.take(m + 1 as int) =~= views.take(m as int).push(views[m as int]));
            lemma_join_dots_push(views.take(m as int), views[m as int]);
            if m == 0 {
                assert(out@ =~= views[0]);
            } else {
                assert(out@ =~= join_dots(views.take(m as int)) + seq![DOT] + views[m as int]);
            }
        }
        m += 1;
    }
    out
}

/// The generic extraction, used when no known-host suffix matches: normalize
/// IPv4 literals, split on dots, drop a trailing recognized top-level domain,
/// and return the labels before the last surviving one, joined by dots; no
/// subdomain when at most one label survives.
pub open spec fn spec_generic_subdomain(host: Seq<u8>, tlds: Seq<Seq<u8>>) -> Option<Seq<u8>> {
    let labels = spec_split_labels(spec_normalize(host));
    let trimmed = if labels.len() > 0 && tlds.contains(labels.last()) {
        labels.drop_last()
    } else {
        labels
    };
    if trimmed.len() > 1 {
        Some(join_dots(trimmed.drop_last()))
    } else {
        None
    }
}

/// Extracts a subdomain by the generic rules, against the given list of
/// recognized top-level domains.
pub fn generic_subdomain(host: &[u8], tlds: &Vec<Vec<u8>>) -> (r: Option<Vec<u8>>)
    ensures
        opt_view(r) == spec_generic_subdomain(host@, seq_views(tlds@)),
{
    let norm = normalize_ipv4(host);
    let mut labels = split_labels(norm.as_slice());
    let ghost full = seq_views(labels@);
    if labels.len() > 0 && contains_bytes(tlds, labels[labels.len() - 1].as_slice()) {
        proof {
            assert(full[full.len() - 1] == full.last());
        }
        labels.pop();
        proof {
            assert(seq_views(labels@) =~= full.drop_last());
        }
    }
    let ghost trimmed = seq_views(labels@);
    if labels.len() > 1 {
        let r = join_prefix(&labels, labels.len() - 1);
        proof {
            assert(trimmed.take(trimmed.len() - 1) =~= trimmed.drop_last());
        }
        Some(r)
    } else {
        None
    }
}

/// True when `host` ends with `.` followed by `suf`, with at least one byte
/// before that dot.
pub open spec fn suffix_matches(host: Seq<u8>, suf: Seq<u8>) -> bool {
    &&& host.len() > suf.len()
    &&& host.subrange(host.len() - suf.len(), host.len() as int) == suf
    &&& host[host.len() - suf.len() - 1] == DOT
}

/// The subdomain according to the known-host suffixes from index `k` on:
/// the part of `host` before the dot that precedes the first matching
/// suffix, in list order.
pub open spec fn known_host_subdomain_from(host: Seq<u8>, khs: Seq<Seq<u8>>, k: int) -> Option<
    Seq<u8>,
>
    decreases khs.len() - k,
{
    if 0 <= k && k < khs.len() {
        if suffix_matches(host, khs[k]) {
            Some(host.take(host.len() - khs[k].len() - 1))
        } else {
            known_host_subdomain_from(host, khs, k + 1)
        }
    } else {
        None
    }
}

/// The subdomain according to the configured known-host suffixes, checked in
/// registration order, first match wins.
pub open spec fn spec_known_host_subdomain(host: Seq<u8>, khs: Seq<Seq<u8>>) -> Option<Seq<u8>> {
    known_host_subdomain_from(host, khs, 0)
}

/// Extracts a subdomain by the known-host suffix rules.
pub fn known_host_subdomain(host: &[u8], known_hosts: &Vec<Vec<u8>>) -> (r: Option<Vec<u8>>)
    ensures
        opt_view(r) == spec_known_host_subdomain(host@, seq_views(known_hosts@)),
{
    let n = known_hosts.len();
    let mut k: usize = 0;
    while k < n
        invariant
            k <= n,
            n == known_hosts@.len(),
            spec_known_host_subdomain(host@, seq_views(known_hosts@))
                == known_host_subdomain_from(host@, seq_views(known_hosts@), k as int),
        decreases n - k,
    {
        let suf = &known_hosts[k];
        if host.len() > suf.len() {
            let start = host.len() - suf.len();
            if bytes_eq(slice_subrange(host, start, host.len()), suf.as_slice())
                && host[start - 1] == DOT {
                return Some(slice_to_vec(slice_subrange(host, 0, start - 1)));
            }
        }
        proof {
            assert(!suffix_matches(host@, seq_views(known_hosts@)[k as int]));
        }
        k += 1;
    }
    None
}

/// The subdomain of a host string: the first matching known-host suffix
/// decides, and only when none matches do the generic rules run.
pub open spec fn spec_subdomain(host: Seq<u8>, khs: Seq<Seq<u8>>, tlds: Seq<Seq<u8>>) -> Option<
    Seq<u8>,
> {
    match spec_known_host_subdomain(host, khs) {
        Some(x) => Some(x),
        None => spec_generic_subdomain(host, tlds),
    }
}

/// Extracts the subdomain of a host string (already freed of any port),
/// against the configured known-host suffixes and recognized top-level
/// domains.
pub fn extract_subdomain(host: &[u8], known_hosts: &Vec<Vec<u8>>, tlds: &Vec<Vec<u8>>) -> (r:
    Option<Vec<u8>>)
    ensures
        opt_view(r) == spec_subdomain(host@, seq_views(known_hosts@), seq_views(tlds@)),
{
    match known_host_subdomain(host, known_hosts) {
        Some(x) => Some(x),
        None => generic_subdomain(host, tlds),
    }
}

/// The host string before the first `:`, which cuts an optional port off.
pub open spec fn spec_strip_port(s: Seq<u8>) -> Seq<u8> {
    s.take(find_from(s, 0, COLON))
}

/// Cuts the optional `:<port>` suffix off a raw host header value.
pub fn strip_port(host: &[u8]) -> (r: Vec<u8>)
    ensures
        r@ == spec_strip_port(host@),
{
    proof {
        lemma_find_from(host@, 0, COLON);
    }
    let c = find_byte_from(host, 0, COLON);
    slice_to_vec(slice_subrange(host, 0, c))
}

/// Known-host matching always takes precedence over generic extraction: as
/// soon as any configured suffix matches the host, the extracted subdomain
/// comes from the known-host rules, and the generic rules never run.
pub proof fn lemma_known_host_match_takes_precedence(
    host: Seq<u8>,
    khs: Seq<Seq<u8>>,
    tlds: Seq<Seq<u8>>,
)
    requires
        exists|k: int| 0 <= k < khs.len() && suffix_matches(host, khs[k]),
    ensures
        spec_known_host_subdomain(host, khs) is Some,
        spec_subdomain(host, khs, tlds) == spec_known_host_subdomain(host, khs),
{
    let k = choose|k: int| 0 <= k < khs.len() && suffix_matches(host, khs[k]);
    lemma_known_host_scan_finds_a_match(host, khs, k, 0);
}

/// Helper for [`lemma_known_host_match_takes_precedence`]: the scan from
/// `start` succeeds whenever some suffix at or after `start` matches.
proof fn lemma_known_host_scan_finds_a_match(host: Seq<u8>, khs: Seq<Seq<u8>>, k: int, start: int)
    requires
        0 <= start <= k < khs.len(),
        suffix_matches(host, khs[k]),
    ensures
        known_host_subdomain_from(host, khs, start) is Some,
    decreases k - start,
{
    if start < k && !suffix_matches(host, khs[start]) {
        lemma_known_host_scan_finds_a_match(host, khs, k, start + 1);
    }
}

/// Within the known-host list the registration order decides between
/// overlapping suffixes: when suffix `k` matches and no earlier one does,
/// the extracted subdomain is exactly the part of the host before the dot
/// that precedes suffix `k`.
pub proof fn lemma_known_host_precedence(
    host: Seq<u8>,
    khs: Seq<Seq<u8>>,
    tlds: Seq<Seq<u8>>,
    k: int,
)
    requires
        0 <= k < khs.len(),
        suffix_matches(host, khs[k]),
        forall|m: int| 0 <= m < k ==> !suffix_matches(host, khs[m]),
    ensures
        spec_subdomain(host, khs, tlds) == Some(host.take(host.len() - khs[k].len() - 1)),
{
    lemma_known_host_from_first_match(host, khs, k, 0);
}

/// Helper for [`lemma_known_host_precedence`]: the scan from `start` lands on
/// the first matching suffix at or after `start`.
proof fn lemma_known_host_from_first_match(host: Seq<u8>, khs: Seq<Seq<u8>>, k: int, start: int)
    requires
        0 <= start <= k < khs.len(),
        suffix_matches(host, khs[k]),
        forall|m: int| start <= m < k ==> !suffix_matches(host, khs[m]),
    ensures
        known_host_subdomain_from(host, khs, start) == Some(
            host.take(host.len() - khs[k].len() - 1),
        ),
    decreases k - start,
{
    if start < k {
        lemma_known_host_from_first_match(host, khs, k, start + 1);
    }
}

/// Every host of the form `X + "." + H` for a configured suffix `H` and
/// nonempty `X` yields subdomain `X`, provided no suffix earlier in the list
/// matches the host.
pub proof fn lemma_known_host_extracts(
    x: Seq<u8>,
    khs: Seq<Seq<u8>>,
    tlds: Seq<Seq<u8>>,
    k: int,
)
    requires
        0 <= k < khs.len(),
        x.len() > 0,
        forall|m: int| 0 <= m < k ==> !suffix_matches(x + seq![DOT] + khs[k], khs[m]),
    ensures
        spec_subdomain(x + seq![DOT] + khs[k], khs, tlds) == Some(x),
{
    let h = khs[k];
    let host = x + seq![DOT] + h;
    assert(host.len() == x.len() + 1 + h.len());
    assert(host.subrange(host.len() - h.len(), host.len() as int) =~= h);
    assert(host[host.len() - h.len() - 1] == DOT);
    assert(suffix_matches(host, h));
    lemma_known_host_precedence(host, khs, tlds, k);
    assert(host.take(host.len() - h.len() - 1) =~= x);
}

} // verus!
