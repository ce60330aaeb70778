//! Applies a table of translations, in order, to one byte region.
use vstd::prelude::*;
use crate::codec::{
    encoded,
    holds_wide_string,
    lemma_encoded_shape,
    lemma_le_bytes_unit,
    lemma_units_nonzero,
    string_to_utf16_vec,
    unit_at,
    utf16_units,
};
use crate::substitute::{
    lemma_single_occurrence,
    matches_at,
    overwrite_at,
    replace_slice,
    replaced,
};

verus! {

/// One rule of the table: text to look for and the text that replaces it.
pub struct Translation {
    pub original: String,
    pub translated: String,
}

/// What happened to one entry of the table, by its position in the table.
#[derive(Debug, Clone, Copy, PartialEq, Eq, Structural)]
pub enum Notice {
    /// The translation encodes longer than the original and growth is not allowed:
    /// the entry was not applied.
    Skipped { entry: usize },
    /// The translation encodes longer than the original and growth is allowed: it is
    /// applied anyway, and may overwrite the bytes that follow each match.
    MayCorrupt { entry: usize },
    /// The entry was applied, with this many replacements.
    Replaced { entry: usize, count: usize },
}

/// Region and notices after applying one entry.
pub open spec fn entry_step(
    s: Seq<u8>,
    original: Seq<char>,
    translated: Seq<char>,
    entry: usize,
    allow_growth: bool,
) -> (Seq<u8>, Seq<Notice>) {
    let from = encoded(original);
    let to = encoded(translated);
    if from.len() < to.len() && !allow_growth {
        (s, seq![Notice::Skipped { entry }])
    } else {
        let res = replaced(s, from, to);
        let done = Notice::Replaced { entry, count: res.1 as usize };
        if from.len() < to.len() {
            (res.0, seq![Notice::MayCorrupt { entry }, done])
        } else {
            (res.0, seq![done])
        }
    }
}

/// Region and notices after applying the first `n` entries of the table, in order.
pub open spec fn apply_upto(
    s: Seq<u8>,
    table: Seq<Translation>,
    allow_growth: bool,
    n: nat,
) -> (Seq<u8>, Seq<Notice>)
    decreases n,
{
    if n == 0 {
        (s, seq![])
    } else {
        let prev = apply_upto(s, table, allow_growth, (n - 1) as nat);
        let e = table[n - 1];
        let step = entry_step(prev.0, e.original@, e.translated@, (n - 1) as usize, allow_growth);
        (step.0, prev.1 + step.1)
    }
}

/// Region and notices after applying the whole table.
pub open spec fn applied(s: Seq<u8>, table: Seq<Translation>, allow_growth: bool) -> (
    Seq<u8>,
    Seq<Notice>,
) {
    apply_upto(s, table, allow_growth, table.len())
}

pub proof fn lemma_apply_len(s: Seq<u8>, table: Seq<Translation>, allow_growth: bool, n: nat)
    ensures
        apply_upto(s, table, allow_growth, n).0.len() == s.len(),
    decreases n,
{
    if n > 0 {
        lemma_apply_len(s, table, allow_growth, (n - 1) as nat);
        let prev = apply_upto(s, table, allow_growth, (n - 1) as nat);
        let e = table[n - 1];
        crate::substitute::lemma_scan_bounds(
            prev.0,
            encoded(e.original@),
            encoded(e.translated@),
            crate::substitute::scan_window(
                prev.0.len(),
                encoded(e.original@).len(),
                encoded(e.translated@).len(),
            ),
        );
    }
}

/// Applies every entry of `translations` to `slice`, in table order, each entry
/// seeing the bytes that earlier entries wrote. An entry whose translation encodes
/// longer than its original is skipped unless `potentially_harmful` is set.
/// Returns what happened to each entry.
pub fn translate(slice: &mut [u8], translations: &Vec<Translation>, potentially_harmful: bool) -> (r:
    Vec<Notice>)
    ensures
        (final(slice)@, r@) == applied(old(slice)@, translations@, potentially_harmful),
{
    let ghost orig = slice@;
    let mut notices: Vec<Notice> = Vec::new();
    let mut i: usize = 0;
    while i < translations.len()
        invariant
            i <= translations@.len(),
            (slice@, notices@) == apply_upto(orig, translations@, potentially_harmful, i as nat),
        decreases translations@.len() - i,
    {
        let t = &translations[i];
        let original = string_to_utf16_vec(t.original.as_str());
        let translated = string_to_utf16_vec(t.translated.as_str());
        let ghost before = notices@;
        if original.len() < translated.len() {
            if potentially_harmful {
                notices.push(Notice::MayCorrupt { entry: i });
            } else {
                notices.push(Notice::Skipped { entry: i });
                proof {
                    assert(notices@ =~= before + seq![Notice::Skipped { entry: i }]);
                }
                i = i + 1;
                continue;
            }
        }
        let count = replace_slice(slice, original.as_slice(), translated.as_slice());
        notices.push(Notice::Replaced { entry: i, count });
        proof {
            let done = Notice::Replaced { entry: i, count };
            if original@.len() < translated@.len() {
                assert(notices@ =~= before + seq![Notice::MayCorrupt { entry: i }, done]);
            } else {
                assert(notices@ =~= before + seq![done]);
            }
        }
        i = i + 1;
    }
    notices
}

/// An entry whose translation encodes longer than its original, with growth not
/// allowed, leaves the region as it was and adds exactly one notice: that it was
/// skipped.
pub proof fn lemma_longer_entry_skipped(
    s: Seq<u8>,
    table: Seq<Translation>,
    n: nat,
)
    requires
        n < table.len(),
        encoded(table[n as int].original@).len() < encoded(table[n as int].translated@).len(),
    ensures
        apply_upto(s, table, false, n + 1).0 == apply_upto(s, table, false, n).0,
        apply_upto(s, table, false, n + 1).1 == apply_upto(s, table, false, n).1.push(
            Notice::Skipped { entry: n as usize },
        ),
{
    assert(apply_upto(s, table, false, n).1 + seq![Notice::Skipped { entry: n as usize }]
        =~= apply_upto(s, table, false, n).1.push(Notice::Skipped { entry: n as usize }));
}

/// Applying a translation that encodes shorter than its original, at a single
/// occurrence `p` of the original (and none that the rewrite creates further on):
/// reading the region from `p` as a null-terminated UTF-16LE string gives the
/// translation, and the rest of the old match is zero bytes.
pub proof fn lemma_shorter_translation_reads_back(
    s: Seq<u8>,
    original: Seq<char>,
    translated: Seq<char>,
    entry: usize,
    allow_growth: bool,
    p: int,
)
    requires
        encoded(translated).len() < encoded(original).len(),
        forall|i: int| 0 <= i < translated.len() ==> (translated[i] as u32) != 0,
        matches_at(s, encoded(original), p),
        forall|q: int| q != p ==> !matches_at(s, encoded(original), q),
        forall|q: int|
            q > p ==> !matches_at(
                overwrite_at(s, encoded(original), encoded(translated), p),
                encoded(original),
                q,
            ),
    ensures
        holds_wide_string(
            entry_step(s, original, translated, entry, allow_growth).0,
            p,
            utf16_units(translated),
        ),
        forall|k: int|
            p + encoded(translated).len() <= k < p + encoded(original).len()
                ==> #[trigger] entry_step(s, original, translated, entry, allow_growth).0[k] == 0,
{
    let from = encoded(original);
    let to = encoded(translated);
    let u = utf16_units(translated);
    lemma_encoded_shape(original);
    lemma_encoded_shape(translated);
    lemma_single_occurrence(s, from, to, p);
    lemma_units_nonzero(translated);
    let r = entry_step(s, original, translated, entry, allow_growth).0;
    assert(r == overwrite_at(s, from, to, p));
    assert forall|k: int| 0 <= k < u.len() implies u[k] != 0 && #[trigger] unit_at(r, p + 2 * k)
        == u[k] as int by {
        lemma_le_bytes_unit(u.push(0u16), k);
        assert(u.push(0u16)[k] == u[k]);
        assert(r[p + 2 * k] == to[2 * k]);
        assert(r[p + 2 * k + 1] == to[2 * k + 1]);
    }
    lemma_le_bytes_unit(u.push(0u16), u.len() as int);
    assert(r[p + 2 * u.len()] == to[2 * u.len() as int]);
    assert(r[p + 2 * u.len() + 1] == to[2 * u.len() as int + 1]);
}

} // verus!
