//! What names an installed package, and what a lockfile reads of one.

use vstd::prelude::*;
use crate::digest::{Sha256Hash, Uuid};
use crate::pkgid::{is_name_char, is_part_name, PkgPart};
use crate::text::{
    append_chars, chars_of, find_char, lemma_position_of, position_of, slice_chars, string_of,
};
use crate::version::{lemma_version_round_trip, version_of, version_text, Version};

verus! {

/// Where a package can be fetched from.
#[derive(Debug, PartialEq, Eq, Hash)]
pub struct Source {
    url: String,
}

impl Source {
    /// The address.
    pub closed spec fn view(&self) -> Seq<char> {
        self.url@
    }

    /// The source at the address `url`.
    pub fn from_str(url: &str) -> (s: Source)
        ensures
            s@ == url@,
    {
        Source { url: String::from_str(url) }
    }

    /// The source at the address `url`.
    pub fn new(url: String) -> (s: Source)
        ensures
            s@ == url@,
    {
        Source { url }
    }

    /// The address.
    pub fn get_url(&self) -> (url: &String)
        ensures
            url@ == self@,
    {
        &self.url
    }

    /// Whether two sources have the same address.
    pub fn equals(&self, other: &Source) -> (same: bool)
        ensures
            same == (self@ == other@),
    {
        self.url == other.url
    }
}

impl Clone for Source {
    fn clone(&self) -> (r: Self)
        ensures
            r@ == self@,
    {
        Source { url: self.url.clone() }
    }
}

/// The mathematical value of an `IpSpec`.
pub struct IpSpecView {
    pub name: Seq<char>,
    pub version: Version,
}

/// `spec` written as text: the name, a colon, the version.
pub open spec fn ip_spec_text(spec: IpSpecView) -> Seq<char> {
    spec.name + seq![':'] + version_text(spec.version)
}

/// The package and version that `s` names: a name, a colon, a version.
pub open spec fn ip_spec_of(s: Seq<char>) -> Option<IpSpecView> {
    let at = position_of(s, ':', 0);
    if at < s.len() && is_part_name(s.subrange(0, at)) {
        match version_of(s.subrange(at + 1, s.len() as int)) {
            Some(version) => Some(IpSpecView { name: s.subrange(0, at), version }),
            None => None,
        }
    } else {
        None
    }
}

/// A name and version that were written as text are read back from it.
pub proof fn lemma_ip_spec_round_trip(spec: IpSpecView)
    requires
        is_part_name(spec.name),
    ensures
        ip_spec_of(ip_spec_text(spec)) == Some(spec),
{
    let s = ip_spec_text(spec);
    let at = spec.name.len() as int;
    assert forall|j: int| 0 <= j < at implies s[j] != ':' by {
        assert(s[j] == spec.name[j]);
        assert(is_name_char(spec.name[j]));
    }
    assert(s[at] == ':');
    lemma_position_of(s, ':', 0, at);
    assert(s.subrange(0, at) =~= spec.name);
    assert(s.subrange(at + 1, s.len() as int) =~= version_text(spec.version));
    lemma_version_round_trip(spec.version);
}

/// A package at one exact version.
#[derive(Debug, PartialEq, Eq, Hash)]
pub struct IpSpec {
    name: PkgPart,
    version: Version,
}

impl IpSpec {
    /// The mathematical value.
    pub closed spec fn view(&self) -> IpSpecView {
        IpSpecView { name: self.name@, version: self.version }
    }

    /// The package `name` at `version`.
    pub fn new(name: PkgPart, version: Version) -> (spec: IpSpec)
        ensures
            spec@ == (IpSpecView { name: name@, version }),
    {
        IpSpec { name, version }
    }

    /// The package's name.
    pub fn get_name(&self) -> (name: &PkgPart)
        ensures
            name@ == self@.name,
    {
        &self.name
    }

    /// The version.
    pub fn get_version(&self) -> (version: &Version)
        ensures
            *version == self@.version,
    {
        &self.version
    }

    /// The characters of `name:version`.
    pub fn to_chars(&self) -> (s: Vec<char>)
        ensures
            s@ == ip_spec_text(self@),
            is_part_name(self@.name),
    {
        let mut s = self.name.to_chars();
        s.push(':');
        let version = self.version.to_chars();
        append_chars(&mut s, &version);
        proof {
            assert(s@ =~= ip_spec_text(self@));
        }
        s
    }

    /// The text `name:version`.
    pub fn to_string(&self) -> (s: String)
        ensures
            s@ == ip_spec_text(self@),
    {
        string_of(&self.to_chars())
    }

    /// Reads `name:version` from its characters; `None` when they write
    /// none.
    pub fn from_chars(s: &Vec<char>) -> (r: Option<IpSpec>)
        ensures
            match r {
                Some(spec) => ip_spec_of(s@) == Some(spec@),
                None => ip_spec_of(s@) is None,
            },
    {
        let at = find_char(s, ':', 0);
        if at >= s.len() {
            return None;
        }
        let name = PkgPart::from_chars(&slice_chars(s, 0, at));
        let version = Version::from_chars(&slice_chars(s, at + 1, s.len()));
        match (name, version) {
            (Some(name), Some(version)) => Some(IpSpec { name, version }),
            _ => None,
        }
    }

    /// Reads `name:version`; `None` when `s` writes none.
    pub fn from_str(s: &str) -> (r: Option<IpSpec>)
        ensures
            match r {
                Some(spec) => ip_spec_of(s@) == Some(spec@),
                None => ip_spec_of(s@) is None,
            },
    {
        IpSpec::from_chars(&chars_of(s))
    }

    /// Whether two specs name the same package and version.
    pub fn equals(&self, other: &IpSpec) -> (same: bool)
        ensures
            same == (self@ == other@),
    {
        self.name.equals(&other.name) && self.version == other.version
    }
}

impl Clone for IpSpec {
    fn clone(&self) -> (r: Self)
        ensures
            r@ == self@,
    {
        IpSpec { name: self.name.clone(), version: self.version }
    }
}

/// The values of `specs`.
pub open spec fn specs_view(specs: Seq<IpSpec>) -> Seq<IpSpecView> {
    Seq::new(specs.len(), |i: int| specs[i]@)
}

/// Every spec of `specs` carries a name.
pub open spec fn all_named(specs: Seq<IpSpecView>) -> bool {
    forall|i: int| 0 <= i < specs.len() ==> is_part_name((#[trigger] specs[i]).name)
}

/// Walks through `specs` to learn that each carries a name.
pub fn note_names(specs: &Vec<IpSpec>)
    ensures
        all_named(specs_view(specs@)),
{
    let mut i: usize = 0;
    while i < specs.len()
        invariant
            i <= specs.len(),
            forall|j: int| 0 <= j < i ==> is_part_name((#[trigger] specs_view(specs@)[j]).name),
        decreases specs.len() - i,
    {
        let _ = specs[i].get_name().as_str();
        i += 1;
    }
}

/// A copy of `specs`.
pub fn copy_specs(specs: &Vec<IpSpec>) -> (r: Vec<IpSpec>)
    ensures
        specs_view(r@) == specs_view(specs@),
{
    let mut r: Vec<IpSpec> = Vec::new();
    let mut i: usize = 0;
    while i < specs.len()
        invariant
            i <= specs.len(),
            r.len() == i,
            forall|j: int| 0 <= j < i ==> r[j]@ == specs[j]@,
        decreases specs.len() - i,
    {
        r.push(specs[i].clone());
        i += 1;
    }
    assert(specs_view(r@) =~= specs_view(specs@));
    r
}

/// Whether two lists hold the same specs in the same order.
pub fn specs_eq(a: &Vec<IpSpec>, b: &Vec<IpSpec>) -> (same: bool)
    ensures
        same == (specs_view(a@) == specs_view(b@)),
{
    if a.len() != b.len() {
        assert(specs_view(a@).len() != specs_view(b@).len());
        return false;
    }
    let mut i: usize = 0;
    while i < a.len()
        invariant
            a.len() == b.len(),
            i <= a.len(),
            forall|j: int| 0 <= j < i ==> a[j]@ == b[j]@,
        decreases a.len() - i,
    {
        if !a[i].equals(&b[i]) {
            assert(specs_view(a@)[i as int] != specs_view(b@)[i as int]);
            return false;
        }
        i += 1;
    }
    assert(specs_view(a@) =~= specs_view(b@));
    true
}

/// What a lockfile reads of a package.
pub struct IpView {
    pub name: Seq<char>,
    pub version: Version,
    pub uuid: Seq<u8>,
    pub checksum: Seq<u8>,
    pub source: Option<Seq<char>>,
    pub dependencies: Seq<IpSpecView>,
}

/// A package as the resolver found it: its manifest's entries, the checksum
/// of its files, and its direct dependencies at the versions chosen.
#[derive(Debug, PartialEq, Eq)]
pub struct Ip {
    name: PkgPart,
    version: Version,
    uuid: Uuid,
    checksum: Sha256Hash,
    source: Option<Source>,
    dependencies: Vec<IpSpec>,
}

impl Ip {
    /// The mathematical value.
    pub closed spec fn view(&self) -> IpView {
        IpView {
            name: self.name@,
            version: self.version,
            uuid: self.uuid@,
            checksum: self.checksum@,
            source: match self.source {
                Some(s) => Some(s@),
                None => None,
            },
            dependencies: specs_view(self.dependencies@),
        }
    }

    /// The package with the given entries.
    pub fn new(
        name: PkgPart,
        version: Version,
        uuid: Uuid,
        checksum: Sha256Hash,
        source: Option<Source>,
        dependencies: Vec<IpSpec>,
    ) -> (ip: Ip)
        ensures
            ip@ == (IpView {
                name: name@,
                version,
                uuid: uuid@,
                checksum: checksum@,
                source: match source {
                    Some(s) => Some(s@),
                    None => None,
                },
                dependencies: specs_view(dependencies@),
            }),
    {
        Ip { name, version, uuid, checksum, source, dependencies }
    }

    /// The package's name.
    pub fn get_name(&self) -> (name: &PkgPart)
        ensures
            name@ == self@.name,
    {
        &self.name
    }

    /// The package's version.
    pub fn get_version(&self) -> (version: &Version)
        ensures
            *version == self@.version,
    {
        &self.version
    }

    /// The package's identifier.
    pub fn get_uuid(&self) -> (uuid: &Uuid)
        ensures
            uuid@ == self@.uuid,
    {
        &self.uuid
    }

    /// The checksum of the package's files.
    pub fn get_checksum(&self) -> (checksum: &Sha256Hash)
        ensures
            checksum@ == self@.checksum,
    {
        &self.checksum
    }

    /// Where the package can be fetched from, if anywhere.
    pub fn get_source(&self) -> (source: Option<&Source>)
        ensures
            match source {
                Some(s) => self@.source == Some(s@),
                None => self@.source is None,
            },
    {
        self.source.as_ref()
    }

    /// Whether two packages are the same in every entry.
    pub fn equals(&self, other: &Ip) -> (same: bool)
        ensures
            same == (self@ == other@),
    {
        let same_source = match (&self.source, &other.source) {
            (Some(a), Some(b)) => a.equals(b),
            (None, None) => true,
            _ => false,
        };
        self.name.equals(&other.name) && self.version == other.version && self.uuid.equals(
            &other.uuid,
        ) && self.checksum.equals(&other.checksum) && same_source && specs_eq(
            &self.dependencies,
            &other.dependencies,
        )
    }

    /// The package's direct dependencies.
    pub fn get_deps_list(&self) -> (deps: &Vec<IpSpec>)
        ensures
            specs_view(deps@) == self@.dependencies,
    {
        &self.dependencies
    }
}

} // verus!
