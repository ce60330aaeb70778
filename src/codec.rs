//! Null-terminated UTF-16LE encoding of strings.
use vstd::prelude::*;
use vstd::string::*;

verus! {

/// The UTF-16 code units of one Unicode scalar value.
pub open spec fn char_units(c: char) -> Seq<u16> {
    let v = (c as u32) as int;
    if v < 0x10000 {
        seq![v as u16]
    } else {
        seq![(0xD800 + (v - 0x10000) / 0x400) as u16, (0xDC00 + (v - 0x10000) % 0x400) as u16]
    }
}

/// The UTF-16 code units of a string, without terminator.
pub open spec fn utf16_units(s: Seq<char>) -> Seq<u16>
    decreases s.len(),
{
    if s.len() == 0 {
        seq![]
    } else {
        utf16_units(s.drop_last()) + char_units(s.last())
    }
}

/// Code units laid out as little-endian byte pairs, low byte first.
pub open spec fn le_bytes(units: Seq<u16>) -> Seq<u8> {
    Seq::new(
        2 * units.len(),
        |k: int|
            if k % 2 == 0 {
                (units[k / 2] % 256) as u8
            } else {
                (units[k / 2] / 256) as u8
            },
    )
}

/// The null-terminated UTF-16LE encoding of a string.
pub open spec fn encoded(s: Seq<char>) -> Seq<u8> {
    le_bytes(utf16_units(s).push(0u16))
}

pub proof fn lemma_le_bytes_append(a: Seq<u16>, b: Seq<u16>)
    ensures
        le_bytes(a + b) == le_bytes(a) + le_bytes(b),
{
    assert forall|k: int| 0 <= k < le_bytes(a + b).len() implies #[trigger] le_bytes(a + b)[k] == (
    le_bytes(a) + le_bytes(b))[k] by {
        if k >= 2 * a.len() {
            assert((k - 2 * a.len()) / 2 == k / 2 - a.len()) by (nonlinear_arith)
                requires
                    k >= 2 * a.len(),
            ;
            assert((k - 2 * a.len()) % 2 == k % 2) by (nonlinear_arith)
                requires
                    k >= 2 * a.len(),
            ;
        } else {
            assert(k / 2 < a.len()) by (nonlinear_arith)
                requires
                    0 <= k < 2 * a.len(),
            ;
        }
    }
    assert(le_bytes(a + b) =~= le_bytes(a) + le_bytes(b));
}

/// Every encoding has even length and ends in a two-byte zero terminator.
pub proof fn lemma_encoded_shape(s: Seq<char>)
    ensures
        encoded(s).len() == 2 * utf16_units(s).len() + 2,
        encoded(s).len() >= 2,
        encoded(s).len() % 2 == 0,
        encoded(s)[encoded(s).len() - 2] == 0,
        encoded(s)[encoded(s).len() - 1] == 0,
{
    let n = encoded(s).len();
    assert((n - 2) / 2 == utf16_units(s).len());
    assert((n - 1) / 2 == utf16_units(s).len());
}

/// The code unit stored little-endian at byte offset `i`.
pub open spec fn unit_at(b: Seq<u8>, i: int) -> int {
    b[i] as int + 256 * (b[i + 1] as int)
}

/// Reading code units from byte offset `p` up to the first zero unit yields `units`.
pub open spec fn holds_wide_string(b: Seq<u8>, p: int, units: Seq<u16>) -> bool {
    &&& 0 <= p
    &&& p + 2 * units.len() + 2 <= b.len()
    &&& forall|k: int|
        0 <= k < units.len() ==> units[k] != 0 && #[trigger] unit_at(b, p + 2 * k) == units[k] as int
    &&& unit_at(b, p + 2 * units.len()) == 0
}

/// A string without a NUL character encodes to code units none of which is zero.
pub proof fn lemma_units_nonzero(s: Seq<char>)
    requires
        forall|i: int| 0 <= i < s.len() ==> (s[i] as u32) != 0,
    ensures
        forall|k: int| 0 <= k < utf16_units(s).len() ==> utf16_units(s)[k] != 0,
    decreases s.len(),
{
    if s.len() > 0 {
        lemma_units_nonzero(s.drop_last());
        let c = s.last();
        let v = (c as u32) as int;
        vstd::utf8::char_is_scalar(c);
        assert(v != 0);
        assert(0 <= v <= 0x10FFFF);
        if v >= 0x10000 {
            assert((v - 0x10000) / 0x400 <= 0x3FF);
            assert((v - 0x10000) % 0x400 < 0x400);
        }
        assert(forall|k: int| 0 <= k < char_units(c).len() ==> char_units(c)[k] != 0);
        let a = utf16_units(s.drop_last());
        assert forall|k: int| 0 <= k < utf16_units(s).len() implies utf16_units(s)[k] != 0 by {
            if k >= a.len() {
                assert(utf16_units(s)[k] == char_units(c)[k - a.len()]);
            } else {
                assert(utf16_units(s)[k] == a[k]);
            }
        }
    }
}

/// The bytes of `le_bytes(units)`, read back as little-endian units, give `units`.
pub proof fn lemma_le_bytes_unit(units: Seq<u16>, k: int)
    requires
        0 <= k < units.len(),
    ensures
        unit_at(le_bytes(units), 2 * k) == units[k] as int,
{
    assert((2 * k) % 2 == 0 && (2 * k) / 2 == k) by (nonlinear_arith);
    assert((2 * k + 1) % 2 == 1 && (2 * k + 1) / 2 == k) by (nonlinear_arith);
    assert(2 * k + 1 < 2 * units.len());
}

fn push_unit(out: &mut Vec<u8>, u: u16)
    ensures
        final(out)@ == old(out)@ + le_bytes(seq![u]),
{
    out.push((u % 256) as u8);
    out.push((u / 256) as u8);
    assert(final(out)@ =~= old(out)@ + le_bytes(seq![u]));
}

/// Encodes `original` as UTF-16LE followed by a two-byte zero terminator.
pub fn string_to_utf16_vec(original: &str) -> (r: Vec<u8>)
    ensures
        r@ == encoded(original@),
{
    let n = original.unicode_len();
    let mut out: Vec<u8> = Vec::new();
    let mut i: usize = 0;
    proof {
        assert(original@.subrange(0, 0) =~= Seq::<char>::empty());
        assert(le_bytes(seq![]) =~= Seq::<u8>::empty());
    }
    while i < n
        invariant
            i <= n,
            n == original@.len(),
            out@ == le_bytes(utf16_units(original@.subrange(0, i as int))),
        decreases n - i,
    {
        let c = original.get_char(i);
        let ghost pre = original@.subrange(0, i as int);
        let ghost next = original@.subrange(0, i + 1);
        proof {
            assert(next.drop_last() =~= pre);
            assert(next.last() == c);
            lemma_le_bytes_append(utf16_units(pre), char_units(c));
        }
        let v = c as u32;
        if v < 0x10000 {
            push_unit(&mut out, v as u16);
            proof {
                assert(char_units(c) =~= seq![v as u16]);
            }
        } else {
            let w = v - 0x10000;
            let hi = (0xD800 + w / 0x400) as u16;
            let lo = (0xDC00 + w % 0x400) as u16;
            push_unit(&mut out, hi);
            push_unit(&mut out, lo);
            proof {
                lemma_le_bytes_append(seq![hi], seq![lo]);
                assert(seq![hi] + seq![lo] =~= char_units(c));
            }
        }
        i = i + 1;
    }
    push_unit(&mut out, 0);
    proof {
        assert(original@.subrange(0, n as int) =~= original@);
        lemma_le_bytes_append(utf16_units(original@), seq![0u16]);
        assert(utf16_units(original@) + seq![0u16] =~= utf16_units(original@).push(0u16));
    }
    out
}

} // verus!
