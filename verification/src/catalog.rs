//! The slots of the installation cache.

use vstd::prelude::*;
use crate::digest::{hex_text, Sha256Hash};
use crate::fileset::{find_last, last_position};
use crate::pkgid::{is_part_name, PkgPart};
use crate::text::{append_chars, chars_of, hex_value_of, is_hex_digit, slice_chars, string_of};
use crate::version::{version_of, version_text, Version};

verus! {

/// The name of the marker file that holds a slot's checksum.
pub const ORBIT_SUM_FILE: &'static str = ".orbit-checksum";

/// The name of the slot that holds the package `name` at `version` with
/// files of the checksum `checksum`: name, version and the first ten digits
/// of the checksum, with hyphens between.
pub open spec fn slot_name(name: Seq<char>, version: Version, checksum: Seq<u8>) -> Seq<char> {
    name + seq!['-'] + version_text(version) + seq!['-'] + hex_text(checksum).take(10)
}

/// The key of a cache slot.
#[derive(Debug, PartialEq, Eq, Hash)]
pub struct CacheSlot {
    name: PkgPart,
    version: Version,
    checksum: Sha256Hash,
}

/// The mathematical value of a `CacheSlot`.
pub struct CacheSlotView {
    pub name: Seq<char>,
    pub version: Version,
    pub checksum: Seq<u8>,
}

impl CacheSlot {
    /// The mathematical value.
    pub closed spec fn view(&self) -> CacheSlotView {
        CacheSlotView { name: self.name@, version: self.version, checksum: self.checksum@ }
    }

    /// The slot of the package `name` at `version` whose files have the
    /// checksum `checksum`.
    pub fn new(name: &PkgPart, version: &Version, checksum: &Sha256Hash) -> (slot: CacheSlot)
        ensures
            slot@ == (CacheSlotView { name: name@, version: *version, checksum: checksum@ }),
    {
        CacheSlot { name: name.clone(), version: *version, checksum: checksum.clone() }
    }

    /// The name of the slot's directory.
    pub fn to_string(&self) -> (s: String)
        ensures
            s@ == slot_name(self@.name, self@.version, self@.checksum),
    {
        let mut s = self.name.to_chars();
        s.push('-');
        let version = self.version.to_chars();
        append_chars(&mut s, &version);
        s.push('-');
        let digits = self.checksum.to_chars();
        let prefix = slice_chars(&digits, 0, 10);
        append_chars(&mut s, &prefix);
        proof {
            assert(digits@.subrange(0, 10) =~= hex_text(self@.checksum).take(10));
            assert(s@ =~= slot_name(self@.name, self@.version, self@.checksum));
        }
        string_of(&s)
    }
}

/// What the name of a slot tells: the package, its version and the first
/// ten digits of the checksum of its files.
pub struct SlotNameView {
    pub name: Seq<char>,
    pub version: Version,
    pub digits: Seq<char>,
}

/// What the name `s` of a directory in the cache tells, if it is the name
/// of a slot: behind the last hyphen stand ten digits of base sixteen,
/// between the last two hyphens a version, and before them a name.
pub open spec fn slot_name_of(s: Seq<char>) -> Option<SlotNameView> {
    let second = last_position(s, '-', s.len() as int);
    let first = last_position(s, '-', second);
    if second < 0 || first < 0 {
        None
    } else {
        let name = s.subrange(0, first);
        let digits = s.subrange(second + 1, s.len() as int);
        match version_of(s.subrange(first + 1, second)) {
            Some(version) => if is_part_name(name) && digits.len() == 10 && (forall|i: int|
                0 <= i < digits.len() ==> is_hex_digit(#[trigger] digits[i])) {
                Some(SlotNameView { name, version, digits })
            } else {
                None
            },
            None => None,
        }
    }
}

/// Reads the name of a directory in the cache as the name of a slot:
/// the package, its version and the digits of the checksum.
pub fn parse_slot_name(s: &str) -> (r: Option<(PkgPart, Version, String)>)
    ensures
        match r {
            Some((name, version, digits)) => slot_name_of(s@) == Some(
                SlotNameView { name: name@, version, digits: digits@ },
            ),
            None => slot_name_of(s@) is None,
        },
{
    let chars = chars_of(s);
    let second = match find_last(&chars, '-', chars.len()) {
        Some(at) => at,
        None => {
            return None;
        },
    };
    let first = match find_last(&chars, '-', second) {
        Some(at) => at,
        None => {
            return None;
        },
    };
    let version = match Version::from_chars(&slice_chars(&chars, first + 1, second)) {
        Some(version) => version,
        None => {
            return None;
        },
    };
    let name = match PkgPart::from_chars(&slice_chars(&chars, 0, first)) {
        Some(name) => name,
        None => {
            return None;
        },
    };
    let digits = slice_chars(&chars, second + 1, chars.len());
    if digits.len() != 10 {
        return None;
    }
    let mut i: usize = 0;
    while i < digits.len()
        invariant
            i <= digits.len(),
            forall|j: int| 0 <= j < i ==> is_hex_digit(#[trigger] digits[j]),
            (exists|j: int| 0 <= j < digits.len() && !is_hex_digit(#[trigger] digits[j]))
                ==> slot_name_of(s@) is None,
        decreases digits.len() - i,
    {
        if hex_value_of(digits[i]).is_none() {
            assert(!is_hex_digit(digits[i as int]));
            return None;
        }
        i += 1;
    }
    Some((name, version, string_of(&digits)))
}

} // verus!
