//! Names of packages.

use vstd::prelude::*;
use crate::text::{chars_le, chars_of, find_char, lex_le, position_of, slice_chars, string_of};

verus! {

/// Whether `c` may stand in a name: a letter or digit of ASCII, `_` or `-`.
pub open spec fn is_name_char(c: char) -> bool {
    ('a' <= c && c <= 'z') || ('A' <= c && c <= 'Z') || ('0' <= c && c <= '9') || c == '_' || c
        == '-'
}

/// Whether `c` is a letter of ASCII.
pub open spec fn is_letter(c: char) -> bool {
    ('a' <= c && c <= 'z') || ('A' <= c && c <= 'Z')
}

/// Whether `s` is a name: it starts with a letter and goes on with letters,
/// digits, `_` and `-`.
pub open spec fn is_part_name(s: Seq<char>) -> bool {
    &&& s.len() > 0
    &&& is_letter(s[0])
    &&& forall|i: int| 0 <= i < s.len() ==> is_name_char(#[trigger] s[i])
}

/// Whether the characters of `s` are a name.
pub fn check_part_name(s: &Vec<char>) -> (ok: bool)
    ensures
        ok == is_part_name(s@),
{
    if s.len() == 0 {
        return false;
    }
    let first = s[0];
    if !((first >= 'a' && first <= 'z') || (first >= 'A' && first <= 'Z')) {
        return false;
    }
    let mut i: usize = 0;
    while i < s.len()
        invariant
            i <= s.len(),
            forall|j: int| 0 <= j < i ==> is_name_char(#[trigger] s[j]),
        decreases s.len() - i,
    {
        let c = s[i];
        if !((c >= 'a' && c <= 'z') || (c >= 'A' && c <= 'Z') || (c >= '0' && c <= '9') || c == '_'
            || c == '-') {
            assert(!is_name_char(s@[i as int]));
            return false;
        }
        i += 1;
    }
    true
}

/// One part of a package's name.
#[derive(Debug, PartialEq, Eq, Hash)]
pub struct PkgPart {
    name: String,
}

/// The name of a package as a lockfile holds it.
pub type Id = PkgPart;

impl PkgPart {
    /// The characters of the name.
    pub closed spec fn view(&self) -> Seq<char> {
        self.name@
    }

    #[verifier::type_invariant]
    spec fn holds_a_name(&self) -> bool {
        is_part_name(self.name@)
    }

    /// Reads a name; `None` when `s` is none.
    pub fn from_str(s: &str) -> (r: Option<PkgPart>)
        ensures
            r is Some <==> is_part_name(s@),
            r matches Some(p) ==> p@ == s@,
    {
        PkgPart::from_chars(&chars_of(s))
    }

    /// Reads a name from its characters; `None` when they are none.
    pub fn from_chars(s: &Vec<char>) -> (r: Option<PkgPart>)
        ensures
            r is Some <==> is_part_name(s@),
            r matches Some(p) ==> p@ == s@,
    {
        if check_part_name(s) {
            Some(PkgPart { name: string_of(s) })
        } else {
            None
        }
    }

    /// The name as text.
    pub fn as_str(&self) -> (s: &str)
        ensures
            s@ == self@,
            is_part_name(self@),
    {
        proof {
            use_type_invariant(self);
        }
        self.name.as_str()
    }

    /// The name as text.
    pub fn to_string(&self) -> (s: String)
        ensures
            s@ == self@,
    {
        self.name.clone()
    }

    /// The characters of the name.
    pub fn to_chars(&self) -> (s: Vec<char>)
        ensures
            s@ == self@,
            is_part_name(self@),
    {
        proof {
            use_type_invariant(self);
        }
        chars_of(self.name.as_str())
    }

    /// Whether two names are the same, character by character.
    pub fn equals(&self, other: &PkgPart) -> (same: bool)
        ensures
            same == (self@ == other@),
    {
        self.name == other.name
    }

    /// Whether `self` comes before `other` in the dictionary, or is `other`.
    pub fn le(&self, other: &PkgPart) -> (r: bool)
        ensures
            r == lex_le(self@, other@),
    {
        chars_le(&self.to_chars(), &other.to_chars())
    }
}

impl Clone for PkgPart {
    fn clone(&self) -> (r: Self)
        ensures
            r@ == self@,
    {
        proof {
            use_type_invariant(self);
        }
        PkgPart { name: self.name.clone() }
    }
}

/// The full name of a package: vendor, library and name.
#[derive(Debug, PartialEq, Eq, Hash)]
pub struct PkgId {
    vendor: PkgPart,
    library: PkgPart,
    name: PkgPart,
}

/// The three parts of a full name.
pub struct PkgIdView {
    pub vendor: Seq<char>,
    pub library: Seq<char>,
    pub name: Seq<char>,
}

/// The full name that `s` writes: three names with dots between.
pub open spec fn pkgid_of(s: Seq<char>) -> Option<PkgIdView> {
    let first_dot = position_of(s, '.', 0);
    let second_dot = position_of(s, '.', first_dot + 1);
    if first_dot < s.len() && second_dot < s.len() {
        let vendor = s.subrange(0, first_dot);
        let library = s.subrange(first_dot + 1, second_dot);
        let name = s.subrange(second_dot + 1, s.len() as int);
        if is_part_name(vendor) && is_part_name(library) && is_part_name(name) {
            Some(PkgIdView { vendor, library, name })
        } else {
            None
        }
    } else {
        None
    }
}

impl PkgId {
    /// The mathematical value.
    pub closed spec fn view(&self) -> PkgIdView {
        PkgIdView { vendor: self.vendor@, library: self.library@, name: self.name@ }
    }

    /// The full name made of three parts.
    pub fn new(vendor: PkgPart, library: PkgPart, name: PkgPart) -> (id: PkgId)
        ensures
            id@ == (PkgIdView { vendor: vendor@, library: library@, name: name@ }),
    {
        PkgId { vendor, library, name }
    }

    /// Reads a full name `vendor.library.name`; `None` when `s` is none.
    pub fn from_str(s: &str) -> (r: Option<PkgId>)
        ensures
            match r {
                Some(id) => pkgid_of(s@) == Some(id@),
                None => pkgid_of(s@) is None,
            },
    {
        PkgId::from_chars(&chars_of(s))
    }

    /// Reads a full name from its characters; `None` when they are none.
    pub fn from_chars(s: &Vec<char>) -> (r: Option<PkgId>)
        ensures
            match r {
                Some(id) => pkgid_of(s@) == Some(id@),
                None => pkgid_of(s@) is None,
            },
    {
        let first_dot = find_char(s, '.', 0);
        if first_dot >= s.len() {
            return None;
        }
        let second_dot = find_char(s, '.', first_dot + 1);
        if second_dot >= s.len() {
            return None;
        }
        let vendor = PkgPart::from_chars(&slice_chars(s, 0, first_dot));
        let library = PkgPart::from_chars(&slice_chars(s, first_dot + 1, second_dot));
        let name = PkgPart::from_chars(&slice_chars(s, second_dot + 1, s.len()));
        match (vendor, library, name) {
            (Some(vendor), Some(library), Some(name)) => Some(PkgId { vendor, library, name }),
            _ => None,
        }
    }

    /// The vendor's name.
    pub fn get_vendor(&self) -> (p: &PkgPart)
        ensures
            p@ == self@.vendor,
    {
        &self.vendor
    }

    /// The library's name.
    pub fn get_library(&self) -> (p: &PkgPart)
        ensures
            p@ == self@.library,
    {
        &self.library
    }

    /// The package's own name.
    pub fn get_name(&self) -> (p: &PkgPart)
        ensures
            p@ == self@.name,
    {
        &self.name
    }

    /// Whether two full names are the same.
    pub fn equals(&self, other: &PkgId) -> (same: bool)
        ensures
            same == (self@ == other@),
    {
        self.vendor.equals(&other.vendor) && self.library.equals(&other.library)
            && self.name.equals(&other.name)
    }
}

/// The values of `ids`.
pub open spec fn ids_view(ids: Seq<PkgId>) -> Seq<PkgIdView> {
    Seq::new(ids.len(), |i: int| ids[i]@)
}

/// The place of the first of `ids` that is the full name `target`; `None`
/// when `target` is not among them.
pub fn find_ip(target: &PkgId, ids: &Vec<PkgId>) -> (r: Option<usize>)
    ensures
        match r {
            Some(k) => k < ids.len() && ids_view(ids@)[k as int] == target@ && forall|j: int|
                0 <= j < k ==> ids_view(ids@)[j] != target@,
            None => !ids_view(ids@).contains(target@),
        },
{
    let mut k: usize = 0;
    while k < ids.len()
        invariant
            k <= ids.len(),
            forall|j: int| 0 <= j < k ==> ids_view(ids@)[j] != target@,
        decreases ids.len() - k,
    {
        assert(ids_view(ids@)[k as int] == ids[k as int]@);
        if ids[k].equals(target) {
            return Some(k);
        }
        k += 1;
    }
    None
}

impl Clone for PkgId {
    fn clone(&self) -> (r: Self)
        ensures
            r@ == self@,
    {
        PkgId { vendor: self.vendor.clone(), library: self.library.clone(), name: self.name.clone() }
    }
}

} // verus!
