//! In-place replacement of a byte pattern inside a byte region.
use vstd::prelude::*;

verus! {

/// `from` occurs in `s` starting at offset `i`.
pub open spec fn matches_at(s: Seq<u8>, from: Seq<u8>, i: int) -> bool {
    0 <= i && i + from.len() <= s.len() && s.subrange(i, i + from.len()) == from
}

/// `s` after the `from.len()` bytes at `i` are zeroed and `to` is written at `i`;
/// where `to` is the longer, it runs past the zeroed span.
pub open spec fn overwrite_at(s: Seq<u8>, from: Seq<u8>, to: Seq<u8>, i: int) -> Seq<u8> {
    Seq::new(
        s.len(),
        |k: int|
            if i <= k < i + to.len() {
                to[k - i]
            } else if i <= k < i + from.len() {
                0u8
            } else {
                s[k]
            },
    )
}

/// The region and the count after the scan has visited offsets `0 .. n`, in order,
/// each test reading the bytes as earlier replacements left them.
pub open spec fn scan_upto(s: Seq<u8>, from: Seq<u8>, to: Seq<u8>, n: nat) -> (Seq<u8>, nat)
    decreases n,
{
    if n == 0 {
        (s, 0)
    } else {
        let prev = scan_upto(s, from, to, (n - 1) as nat);
        if matches_at(prev.0, from, n - 1) {
            (overwrite_at(prev.0, from, to, n - 1), prev.1 + 1)
        } else {
            prev
        }
    }
}

/// Number of candidate offsets: `0 ..= len - max(from, to)`, none for an empty
/// pattern or a region shorter than both patterns.
pub open spec fn scan_window(len: nat, from_len: nat, to_len: nat) -> nat {
    let reach = if from_len >= to_len { from_len } else { to_len };
    if from_len == 0 || len < reach {
        0
    } else {
        (len - reach + 1) as nat
    }
}

/// The region and the count of replacements that the substitution produces.
pub open spec fn replaced(s: Seq<u8>, from: Seq<u8>, to: Seq<u8>) -> (Seq<u8>, nat) {
    scan_upto(s, from, to, scan_window(s.len(), from.len(), to.len()))
}

pub proof fn lemma_scan_bounds(s: Seq<u8>, from: Seq<u8>, to: Seq<u8>, n: nat)
    ensures
        scan_upto(s, from, to, n).0.len() == s.len(),
        scan_upto(s, from, to, n).1 <= n,
    decreases n,
{
    if n > 0 {
        lemma_scan_bounds(s, from, to, (n - 1) as nat);
    }
}

/// Offsets at which nothing matches leave the scan's state as it was.
pub proof fn lemma_scan_no_match(s: Seq<u8>, from: Seq<u8>, to: Seq<u8>, a: nat, n: nat)
    requires
        a <= n,
        forall|q: int| a <= q < n ==> !matches_at(scan_upto(s, from, to, a).0, from, q),
    ensures
        scan_upto(s, from, to, n) == scan_upto(s, from, to, a),
    decreases n,
{
    if n > a {
        lemma_scan_no_match(s, from, to, a, (n - 1) as nat);
    }
}

/// A non-empty pattern that occurs nowhere in the region: the region stays byte for
/// byte as it was and no replacement is counted.
pub proof fn lemma_absent_pattern_unchanged(s: Seq<u8>, from: Seq<u8>, to: Seq<u8>)
    requires
        from.len() > 0,
        forall|q: int| !matches_at(s, from, q),
    ensures
        replaced(s, from, to) == (s, 0nat),
{
    lemma_scan_no_match(s, from, to, 0, scan_window(s.len(), from.len(), to.len()));
}

/// One occurrence at `p` inside the scan window, none elsewhere, and none that the
/// rewrite at `p` brings about further on: exactly that rewrite happens, once.
pub proof fn lemma_single_occurrence(s: Seq<u8>, from: Seq<u8>, to: Seq<u8>, p: int)
    requires
        from.len() > 0,
        matches_at(s, from, p),
        p + to.len() <= s.len(),
        forall|q: int| q != p ==> !matches_at(s, from, q),
        forall|q: int| q > p ==> !matches_at(overwrite_at(s, from, to, p), from, q),
    ensures
        replaced(s, from, to) == (overwrite_at(s, from, to, p), 1nat),
{
    let w = scan_window(s.len(), from.len(), to.len());
    assert(p < w);
    lemma_scan_no_match(s, from, to, 0, p as nat);
    assert(scan_upto(s, from, to, (p + 1) as nat) == (overwrite_at(s, from, to, p), 1nat));
    lemma_scan_no_match(s, from, to, (p + 1) as nat, w);
}

/// With `to` no longer than `from` and a single occurrence at `p` (and none that the
/// rewrite creates further on), one replacement is made and the region becomes the
/// bytes before the match, then `to`, then zeros up to the end of the match, then
/// the bytes after the match.
pub proof fn lemma_single_replacement_pads_with_zeros(
    s: Seq<u8>,
    from: Seq<u8>,
    to: Seq<u8>,
    p: int,
)
    requires
        from.len() > 0,
        to.len() <= from.len(),
        matches_at(s, from, p),
        forall|q: int| q != p ==> !matches_at(s, from, q),
        forall|q: int| q > p ==> !matches_at(overwrite_at(s, from, to, p), from, q),
    ensures
        replaced(s, from, to).1 == 1,
        replaced(s, from, to).0 == s.subrange(0, p) + to + Seq::new(
            (from.len() - to.len()) as nat,
            |k: int| 0u8,
        ) + s.subrange(p + from.len(), s.len() as int),
{
    lemma_single_occurrence(s, from, to, p);
    assert(overwrite_at(s, from, to, p) =~= s.subrange(0, p) + to + Seq::new(
        (from.len() - to.len()) as nat,
        |k: int| 0u8,
    ) + s.subrange(p + from.len(), s.len() as int));
}

/// With `to` longer than `from` and a single occurrence at `p` (and none that the
/// rewrite creates further on), the write runs `to.len() - from.len()` bytes past
/// the end of the match and no further: those bytes take the tail of `to`, and every
/// byte outside `p .. p + to.len()` is kept.
pub proof fn lemma_growth_spills_past_match(s: Seq<u8>, from: Seq<u8>, to: Seq<u8>, p: int)
    requires
        from.len() > 0,
        to.len() > from.len(),
        matches_at(s, from, p),
        p + to.len() <= s.len(),
        forall|q: int| q != p ==> !matches_at(s, from, q),
        forall|q: int| q > p ==> !matches_at(overwrite_at(s, from, to, p), from, q),
    ensures
        replaced(s, from, to).1 == 1,
        replaced(s, from, to).0.len() == s.len(),
        replaced(s, from, to).0.subrange(p, p + to.len()) == to,
        forall|k: int|
            p + from.len() <= k < p + to.len() ==> #[trigger] replaced(s, from, to).0[k] == to[k
                - p],
        forall|k: int|
            0 <= k < s.len() && (k < p || k >= p + to.len()) ==> #[trigger] replaced(
                s,
                from,
                to,
            ).0[k] == s[k],
{
    lemma_single_occurrence(s, from, to, p);
    assert(replaced(s, from, to).0.subrange(p, p + to.len()) =~= to);
}

fn matches_here(s: &[u8], from: &[u8], i: usize) -> (r: bool)
    requires
        i + from@.len() <= s@.len(),
    ensures
        r == matches_at(s@, from@, i as int),
{
    let n = s.len();
    let mut j: usize = 0;
    while j < from.len()
        invariant
            j <= from@.len(),
            n == s@.len(),
            i + from@.len() <= s@.len(),
            forall|k: int| 0 <= k < j ==> s@[i + k] == from@[k],
        decreases from@.len() - j,
    {
        if s[i + j] != from[j] {
            assert(s@.subrange(i as int, i + from@.len())[j as int] != from@[j as int]);
            return false;
        }
        j = j + 1;
    }
    assert(s@.subrange(i as int, i + from@.len()) =~= from@);
    true
}

fn overwrite(s: &mut [u8], from: &[u8], to: &[u8], i: usize)
    requires
        i + from@.len() <= old(s)@.len(),
        i + to@.len() <= old(s)@.len(),
    ensures
        final(s)@ == overwrite_at(old(s)@, from@, to@, i as int),
{
    let ghost orig = s@;
    let n = s.len();
    let mut j: usize = 0;
    while j < from.len()
        invariant
            j <= from@.len(),
            s@.len() == orig.len(),
            n == orig.len(),
            i + from@.len() <= orig.len(),
            forall|k: int|
                0 <= k < orig.len() ==> #[trigger] s@[k] == if i <= k < i + j {
                    0u8
                } else {
                    orig[k]
                },
        decreases from@.len() - j,
    {
        s[i + j] = 0;
        j = j + 1;
    }
    j = 0;
    while j < to.len()
        invariant
            j <= to@.len(),
            s@.len() == orig.len(),
            n == orig.len(),
            i + to@.len() <= orig.len(),
            forall|k: int|
                0 <= k < orig.len() ==> #[trigger] s@[k] == if i <= k < i + j {
                    to@[k - i]
                } else if i <= k < i + from@.len() {
                    0u8
                } else {
                    orig[k]
                },
        decreases to@.len() - j,
    {
        s[i + j] = to[j];
        j = j + 1;
    }
    assert(s@ =~= overwrite_at(orig, from@, to@, i as int));
}

/// Scans `source` left to right, one offset at a time, and wherever `from` occurs
/// zeroes its bytes and writes `to` over them. Returns the number of replacements.
pub fn replace_slice(source: &mut [u8], from: &[u8], to: &[u8]) -> (r: usize)
    ensures
        final(source)@ == replaced(old(source)@, from@, to@).0,
        r as nat == replaced(old(source)@, from@, to@).1,
{
    let end_offset = if from.len() >= to.len() {
        from.len()
    } else {
        to.len()
    };
    if from.len() == 0 || source.len() < end_offset {
        return 0;
    }
    let ghost orig = source@;
    let len = source.len();
    let last = len - end_offset;
    let mut count: usize = 0;
    let mut i: usize = 0;
    while i <= last
        invariant
            i <= last + 1,
            last + end_offset == orig.len(),
            len == orig.len(),
            end_offset >= from@.len(),
            end_offset >= 1,
            count <= i,
            end_offset >= to@.len(),
            source@.len() == orig.len(),
            scan_upto(orig, from@, to@, i as nat) == (source@, count as nat),
        decreases last + 1 - i,
    {
        proof {
            lemma_scan_bounds(orig, from@, to@, i as nat);
        }
        if matches_here(source, from, i) {
            overwrite(source, from, to, i);
            count = count + 1;
        }
        i = i + 1;
    }
    count
}

} // verus!
