//! Picks the sections of a PE image to translate and applies the table to each.
use vstd::prelude::*;
use crate::translate::{applied, translate, Notice, Translation};

verus! {

/// A section of the image: its name, where it could be decoded, and where its raw
/// data lies in the image.
pub struct Section {
    pub name: Option<String>,
    pub pointer_to_raw_data: u32,
    pub size_of_raw_data: u32,
}

/// Why an image could not be translated.
#[derive(Debug, Clone, Copy, PartialEq, Eq, Structural)]
pub enum ImageError {
    /// The bytes are not a PE image that the parser accepts.
    NotPe,
    /// A selected section's raw data runs past the end of the image.
    SectionOutOfBounds { section: usize },
}

pub open spec fn section_view(s: Section) -> (Option<Seq<char>>, u32, u32) {
    let name = match s.name {
        Some(n) => Some(n@),
        None => None,
    };
    (name, s.pointer_to_raw_data, s.size_of_raw_data)
}

pub open spec fn sections_view(v: Seq<Section>) -> Seq<(Option<Seq<char>>, u32, u32)> {
    v.map_values(|s: Section| section_view(s))
}

/// The section table that the PE parser reads from `image`, or none where it does
/// not accept the bytes as a PE image.
pub uninterp spec fn pe_sections_of(image: Seq<u8>) -> Option<Seq<(Option<Seq<char>>, u32, u32)>>;

/// Relies on goblin's `Object::parse` and `SectionTable::name`: the section table
/// of a PE image, with each name as goblin decodes it (none where it cannot), and
/// each raw-data extent as the table records it.
#[verifier::external_body]
fn pe_sections(image: &[u8]) -> (r: Option<Vec<Section>>)
    ensures
        match r {
            Some(v) => pe_sections_of(image@) == Some(sections_view(v@)),
            None => pe_sections_of(image@) is None,
        },
{
    match goblin::Object::parse(image) {
        Ok(goblin::Object::PE(pe)) => Some(pe.sections.iter().map(|s| Section {
            name: s.name().ok().map(String::from),
            pointer_to_raw_data: s.pointer_to_raw_data,
            size_of_raw_data: s.size_of_raw_data,
        }).collect()),
        _ => None,
    }
}

/// The section is one to translate: its name decodes and equals `target`.
pub open spec fn is_selected(sec: (Option<Seq<char>>, u32, u32), target: Seq<char>) -> bool {
    sec.0 == Some(target)
}

pub open spec fn in_bounds(sec: (Option<Seq<char>>, u32, u32), len: nat) -> bool {
    sec.1 + sec.2 <= len
}

/// Every selected section lies within an image of `len` bytes.
pub open spec fn selected_in_bounds(
    secs: Seq<(Option<Seq<char>>, u32, u32)>,
    target: Seq<char>,
    len: nat,
) -> bool {
    forall|i: int| 0 <= i < secs.len() && is_selected(secs[i], target) ==> in_bounds(secs[i], len)
}

/// Image and notices after the first `n` sections, each selected one having had the
/// whole table applied to its raw data in place.
pub open spec fn sections_upto(
    image: Seq<u8>,
    secs: Seq<(Option<Seq<char>>, u32, u32)>,
    target: Seq<char>,
    table: Seq<Translation>,
    allow_growth: bool,
    n: nat,
) -> (Seq<u8>, Seq<Notice>)
    decreases n,
{
    if n == 0 {
        (image, seq![])
    } else {
        let prev = sections_upto(image, secs, target, table, allow_growth, (n - 1) as nat);
        let sec = secs[n - 1];
        if is_selected(sec, target) {
            let lo = sec.1 as int;
            let hi = sec.1 + sec.2;
            let res = applied(prev.0.subrange(lo, hi), table, allow_growth);
            (prev.0.subrange(0, lo) + res.0 + prev.0.subrange(hi, prev.0.len() as int), prev.1 + res.1)
        } else {
            prev
        }
    }
}

fn copy_out(image: &Vec<u8>, lo: usize, hi: usize) -> (r: Vec<u8>)
    requires
        lo <= hi <= image@.len(),
    ensures
        r@ == image@.subrange(lo as int, hi as int),
{
    let mut r: Vec<u8> = Vec::new();
    let mut k: usize = lo;
    while k < hi
        invariant
            lo <= k <= hi,
            hi <= image@.len(),
            r@ == image@.subrange(lo as int, k as int),
        decreases hi - k,
    {
        r.push(image[k]);
        proof {
            assert(r@ =~= image@.subrange(lo as int, k + 1));
        }
        k = k + 1;
    }
    r
}

fn copy_in(image: &mut Vec<u8>, lo: usize, region: &Vec<u8>)
    requires
        lo + region@.len() <= old(image)@.len(),
    ensures
        final(image)@ == old(image)@.subrange(0, lo as int) + region@ + old(image)@.subrange(
            lo + region@.len(),
            old(image)@.len() as int,
        ),
{
    let ghost orig = image@;
    let n = image.len();
    let mut k: usize = 0;
    while k < region.len()
        invariant
            k <= region@.len(),
            lo + region@.len() <= orig.len(),
            image@.len() == orig.len(),
            n == orig.len(),
            forall|j: int|
                0 <= j < orig.len() ==> #[trigger] image@[j] == if lo <= j < lo + k {
                    region@[j - lo]
                } else {
                    orig[j]
                },
        decreases region@.len() - k,
    {
        image[lo + k] = region[k];
        k = k + 1;
    }
    assert(image@ =~= orig.subrange(0, lo as int) + region@ + orig.subrange(
        lo + region@.len(),
        orig.len() as int,
    ));
}

fn same_name(name: &Option<String>, target: &String) -> (r: bool)
    ensures
        r == (match name {
            Some(n) => Some(n@),
            None => None,
        } == Some(target@)),
{
    match name {
        Some(n) => *n == *target,
        None => false,
    }
}

/// Applies the whole table, in order, to the raw data of every section whose name
/// is `target`, section by section in table order. Other bytes are left as they are.
pub fn translate_sections(
    image: &mut Vec<u8>,
    sections: &Vec<Section>,
    target: &str,
    translations: &Vec<Translation>,
    potentially_harmful: bool,
) -> (r: Vec<Notice>)
    requires
        selected_in_bounds(sections_view(sections@), target@, old(image)@.len()),
    ensures
        (final(image)@, r@) == sections_upto(
            old(image)@,
            sections_view(sections@),
            target@,
            translations@,
            potentially_harmful,
            sections@.len() as nat,
        ),
{
    let ghost orig = image@;
    let ghost secs = sections_view(sections@);
    let wanted = target.to_owned();
    let len = image.len();
    let mut notices: Vec<Notice> = Vec::new();
    let mut i: usize = 0;
    while i < sections.len()
        invariant
            i <= sections@.len(),
            secs == sections_view(sections@),
            wanted@ == target@,
            selected_in_bounds(secs, target@, orig.len()),
            image@.len() == orig.len(),
            len == orig.len(),
            (image@, notices@) == sections_upto(
                orig,
                secs,
                target@,
                translations@,
                potentially_harmful,
                i as nat,
            ),
        decreases sections@.len() - i,
    {
        let sec = &sections[i];
        proof {
            assert(secs[i as int] == section_view(*sec));
        }
        if same_name(&sec.name, &wanted) {
            proof {
                assert(is_selected(secs[i as int], target@));
            }
            let lo = sec.pointer_to_raw_data as usize;
            let hi = lo + sec.size_of_raw_data as usize;
            let mut region = copy_out(image, lo, hi);
            let mut found = translate(region.as_mut_slice(), translations, potentially_harmful);
            proof {
                crate::translate::lemma_apply_len(
                    image@.subrange(lo as int, hi as int),
                    translations@,
                    potentially_harmful,
                    translations@.len(),
                );
            }
            copy_in(image, lo, &region);
            notices.append(&mut found);
        }
        i = i + 1;
    }
    notices
}

/// Whether every section named `target` lies within an image of `len` bytes; where
/// not, the position of the first that does not.
pub fn check_bounds(sections: &Vec<Section>, target: &str, len: usize) -> (r: Option<usize>)
    ensures
        r is None <==> selected_in_bounds(sections_view(sections@), target@, len as nat),
        r matches Some(i) ==> i < sections@.len() && is_selected(
            sections_view(sections@)[i as int],
            target@,
        ) && !in_bounds(sections_view(sections@)[i as int], len as nat),
{
    let ghost secs = sections_view(sections@);
    let wanted = target.to_owned();
    let mut i: usize = 0;
    while i < sections.len()
        invariant
            i <= sections@.len(),
            secs == sections_view(sections@),
            wanted@ == target@,
            forall|j: int|
                0 <= j < i && is_selected(secs[j], target@) ==> in_bounds(secs[j], len as nat),
        decreases sections@.len() - i,
    {
        let sec = &sections[i];
        proof {
            assert(secs[i as int] == section_view(*sec));
        }
        if same_name(&sec.name, &wanted) {
            let size = sec.size_of_raw_data as usize;
            let ptr = sec.pointer_to_raw_data as usize;
            if size > len || ptr > len - size {
                return Some(i);
            }
        }
        i = i + 1;
    }
    None
}

/// Parses `image` as a PE image and applies the whole table to the raw data of
/// every section named `target`. Fails, leaving the image as it was, where the
/// bytes are not a PE image or a selected section runs past the end of the image.
pub fn translate_pe(
    image: &mut Vec<u8>,
    target: &str,
    translations: &Vec<Translation>,
    potentially_harmful: bool,
) -> (r: Result<Vec<Notice>, ImageError>)
    ensures
        match pe_sections_of(old(image)@) {
            None => r == Err::<Vec<Notice>, ImageError>(ImageError::NotPe) && final(image)@ == old(
                image,
            )@,
            Some(secs) => if selected_in_bounds(secs, target@, old(image)@.len()) {
                r matches Ok(notices) && (final(image)@, notices@) == sections_upto(
                    old(image)@,
                    secs,
                    target@,
                    translations@,
                    potentially_harmful,
                    secs.len(),
                )
            } else {
                &&& final(image)@ == old(image)@
                &&& r matches Err(ImageError::SectionOutOfBounds { section }) && section
                    < secs.len() && is_selected(secs[section as int], target@) && !in_bounds(
                    secs[section as int],
                    old(image)@.len(),
                )
            },
        },
{
    let sections = match pe_sections(image.as_slice()) {
        Some(v) => v,
        None => return Err(ImageError::NotPe),
    };
    match check_bounds(&sections, target, image.len()) {
        Some(section) => Err(ImageError::SectionOutOfBounds { section }),
        None => Ok(translate_sections(image, &sections, target, translations, potentially_harmful)),
    }
}

} // verus!
