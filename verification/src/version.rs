//! Versions of three numbers, requests for a version, and the choice of the
//! version that answers a request.

use vstd::prelude::*;
use crate::text::{
    chars_eq, chars_of, decimal, find_char, is_digit, lemma_decimal_round_trip, lemma_position_of,
    number_of, parse_number, position_of, push_decimal, string_of,
};

verus! {

/// A version `major.minor.patch`.
#[derive(Debug, Clone, Copy, PartialEq, Eq, Hash, Structural)]
pub struct Version {
    pub major: u32,
    pub minor: u32,
    pub patch: u32,
}

/// A version of which the minor and the patch number may be left open.
#[derive(Debug, Clone, Copy, PartialEq, Eq, Hash, Structural)]
pub struct PartialVersion {
    pub major: u32,
    pub minor: Option<u32>,
    pub patch: Option<u32>,
}

/// A request for a version.
#[derive(Debug, Clone, Copy, PartialEq, Eq, Hash, Structural)]
pub enum AnyVersion {
    /// The highest version there is.
    Latest,
    /// The highest version that agrees with the given numbers.
    Specific(PartialVersion),
    /// The working copy, which is no released version.
    Dev,
}

/// Why no version answers a request.
#[derive(Debug, Clone, Copy, PartialEq, Eq, Hash, Structural)]
pub enum VersionError {
    /// No version on offer agrees with the request.
    UnknownVersion,
    /// The working copy was requested, which is never on offer.
    DevRequested,
}

/// `a` is no higher than `b`: numbers are compared from the left.
pub open spec fn version_le(a: Version, b: Version) -> bool {
    a.major < b.major || (a.major == b.major && (a.minor < b.minor || (a.minor == b.minor
        && a.patch <= b.patch)))
}

/// `v` agrees with every number that `p` gives.
pub open spec fn is_compatible_spec(p: PartialVersion, v: Version) -> bool {
    &&& p.major == v.major
    &&& (p.minor matches Some(m) ==> m == v.minor)
    &&& (p.patch matches Some(n) ==> n == v.patch)
}

/// `v` is a version that the request `any` accepts.
pub open spec fn accepts(any: AnyVersion, v: Version) -> bool {
    match any {
        AnyVersion::Latest => true,
        AnyVersion::Specific(p) => is_compatible_spec(p, v),
        AnyVersion::Dev => false,
    }
}

/// `v` written as text: three numbers in base ten with dots between.
pub open spec fn version_text(v: Version) -> Seq<char> {
    decimal(v.major as nat) + seq!['.'] + decimal(v.minor as nat) + seq!['.'] + decimal(
        v.patch as nat,
    )
}

/// The version that `s` writes: three numbers below 2^32 with dots between.
pub open spec fn version_of(s: Seq<char>) -> Option<Version> {
    let first_dot = position_of(s, '.', 0);
    let second_dot = position_of(s, '.', first_dot + 1);
    if first_dot < s.len() && second_dot < s.len() {
        match (
            number_of(s.subrange(0, first_dot)),
            number_of(s.subrange(first_dot + 1, second_dot)),
            number_of(s.subrange(second_dot + 1, s.len() as int)),
        ) {
            (Some(major), Some(minor), Some(patch)) => Some(Version { major, minor, patch }),
            _ => None,
        }
    } else {
        None
    }
}

/// The partial version that `s` writes: one, two or three numbers below
/// 2^32 with dots between.
pub open spec fn partial_version_of(s: Seq<char>) -> Option<PartialVersion> {
    let first_dot = position_of(s, '.', 0);
    if first_dot >= s.len() {
        match number_of(s) {
            Some(major) => Some(PartialVersion { major, minor: None, patch: None }),
            None => None,
        }
    } else {
        let second_dot = position_of(s, '.', first_dot + 1);
        if second_dot >= s.len() {
            match (number_of(s.subrange(0, first_dot)), number_of(s.subrange(first_dot + 1, s.len() as int))) {
                (Some(major), Some(minor)) => Some(
                    PartialVersion { major, minor: Some(minor), patch: None },
                ),
                _ => None,
            }
        } else {
            match (
                number_of(s.subrange(0, first_dot)),
                number_of(s.subrange(first_dot + 1, second_dot)),
                number_of(s.subrange(second_dot + 1, s.len() as int)),
            ) {
                (Some(major), Some(minor), Some(patch)) => Some(
                    PartialVersion { major, minor: Some(minor), patch: Some(patch) },
                ),
                _ => None,
            }
        }
    }
}

/// The request that `s` writes: `latest`, `dev`, or a partial version.
pub open spec fn any_version_of(s: Seq<char>) -> Option<AnyVersion> {
    if s == seq!['l', 'a', 't', 'e', 's', 't'] {
        Some(AnyVersion::Latest)
    } else if s == seq!['d', 'e', 'v'] {
        Some(AnyVersion::Dev)
    } else {
        match partial_version_of(s) {
            Some(p) => Some(AnyVersion::Specific(p)),
            None => None,
        }
    }
}

/// A version that was written as text is read back from it.
pub proof fn lemma_version_round_trip(v: Version)
    ensures
        version_of(version_text(v)) == Some(v),
{
    let a = decimal(v.major as nat);
    let b = decimal(v.minor as nat);
    let c = decimal(v.patch as nat);
    let s = version_text(v);
    lemma_decimal_round_trip(v.major as nat);
    lemma_decimal_round_trip(v.minor as nat);
    lemma_decimal_round_trip(v.patch as nat);
    let first_dot = a.len() as int;
    let second_dot = first_dot + 1 + b.len();
    assert forall|j: int| 0 <= j < first_dot implies s[j] != '.' by {
        assert(s[j] == a[j]);
        assert(is_digit(a[j]));
    }
    assert(s[first_dot] == '.');
    lemma_position_of(s, '.', 0, first_dot);
    assert forall|j: int| first_dot + 1 <= j < second_dot implies s[j] != '.' by {
        assert(s[j] == b[j - first_dot - 1]);
        assert(is_digit(b[j - first_dot - 1]));
    }
    assert(s[second_dot] == '.');
    lemma_position_of(s, '.', first_dot + 1, second_dot);
    assert(s.subrange(0, first_dot) =~= a);
    assert(s.subrange(first_dot + 1, second_dot) =~= b);
    assert(s.subrange(second_dot + 1, s.len() as int) =~= c);
}

impl Version {
    /// The version `major.minor.patch`.
    pub fn new(major: u32, minor: u32, patch: u32) -> (v: Self)
        ensures
            v == (Version { major, minor, patch }),
    {
        Version { major, minor, patch }
    }

    /// Whether `self` is no higher than `other`.
    pub fn le(&self, other: &Version) -> (r: bool)
        ensures
            r == version_le(*self, *other),
    {
        self.major < other.major || (self.major == other.major && (self.minor < other.minor || (
        self.minor == other.minor && self.patch <= other.patch)))
    }

    /// The characters of `major.minor.patch`.
    pub fn to_chars(&self) -> (s: Vec<char>)
        ensures
            s@ == version_text(*self),
    {
        let mut s: Vec<char> = Vec::new();
        push_decimal(&mut s, self.major);
        s.push('.');
        push_decimal(&mut s, self.minor);
        s.push('.');
        push_decimal(&mut s, self.patch);
        proof {
            let a = decimal(self.major as nat);
            let b = decimal(self.minor as nat);
            let c = decimal(self.patch as nat);
            assert(s@ =~= a + seq!['.'] + b + seq!['.'] + c);
        }
        s
    }

    /// The text `major.minor.patch`.
    pub fn to_string(&self) -> (s: String)
        ensures
            s@ == version_text(*self),
    {
        string_of(&self.to_chars())
    }

    /// Reads a version from the characters of `major.minor.patch`.
    pub fn from_chars(s: &Vec<char>) -> (r: Option<Version>)
        ensures
            r == version_of(s@),
    {
        let first_dot = find_char(s, '.', 0);
        if first_dot >= s.len() {
            return None;
        }
        let second_dot = find_char(s, '.', first_dot + 1);
        if second_dot >= s.len() {
            return None;
        }
        let major = parse_number(s, 0, first_dot);
        let minor = parse_number(s, first_dot + 1, second_dot);
        let patch = parse_number(s, second_dot + 1, s.len());
        match (major, minor, patch) {
            (Some(major), Some(minor), Some(patch)) => Some(Version { major, minor, patch }),
            _ => None,
        }
    }

    /// Reads a version from the text `major.minor.patch`.
    pub fn from_str(s: &str) -> (r: Option<Version>)
        ensures
            r == version_of(s@),
    {
        Version::from_chars(&chars_of(s))
    }
}

impl PartialVersion {
    /// The partial version that gives the major number only.
    pub fn new() -> (p: Self)
        ensures
            p == (PartialVersion { major: 0, minor: None, patch: None }),
    {
        PartialVersion { major: 0, minor: None, patch: None }
    }

    /// `self` with the major number `m`.
    pub fn major(self, m: u32) -> (p: Self)
        ensures
            p == (PartialVersion { major: m, ..self }),
    {
        PartialVersion { major: m, minor: self.minor, patch: self.patch }
    }

    /// `self` with the minor number `m`.
    pub fn minor(self, m: u32) -> (p: Self)
        ensures
            p == (PartialVersion { minor: Some(m), ..self }),
    {
        PartialVersion { major: self.major, minor: Some(m), patch: self.patch }
    }

    /// `self` with the patch number `n`.
    pub fn patch(self, n: u32) -> (p: Self)
        ensures
            p == (PartialVersion { patch: Some(n), ..self }),
    {
        PartialVersion { major: self.major, minor: self.minor, patch: Some(n) }
    }

    /// Reads a partial version from the characters of `major`,
    /// `major.minor` or `major.minor.patch`.
    pub fn from_chars(s: &Vec<char>) -> (r: Option<PartialVersion>)
        ensures
            r == partial_version_of(s@),
    {
        let first_dot = find_char(s, '.', 0);
        if first_dot >= s.len() {
            assert(s@.subrange(0, s.len() as int) =~= s@);
            return match parse_number(s, 0, s.len()) {
                Some(major) => Some(PartialVersion { major, minor: None, patch: None }),
                None => None,
            };
        }
        let second_dot = find_char(s, '.', first_dot + 1);
        if second_dot >= s.len() {
            return match (parse_number(s, 0, first_dot), parse_number(s, first_dot + 1, s.len())) {
                (Some(major), Some(minor)) => Some(
                    PartialVersion { major, minor: Some(minor), patch: None },
                ),
                _ => None,
            };
        }
        match (parse_number(s, 0, first_dot), parse_number(s, first_dot + 1, second_dot), parse_number(s, second_dot + 1, s.len())) {
            (Some(major), Some(minor), Some(patch)) => Some(
                PartialVersion { major, minor: Some(minor), patch: Some(patch) },
            ),
            _ => None,
        }
    }

    /// Reads a partial version from text.
    pub fn from_str(s: &str) -> (r: Option<PartialVersion>)
        ensures
            r == partial_version_of(s@),
    {
        PartialVersion::from_chars(&chars_of(s))
    }
}

impl AnyVersion {
    /// Reads a request from the text `latest`, `dev` or a partial version.
    pub fn from_str(s: &str) -> (r: Option<AnyVersion>)
        ensures
            r == any_version_of(s@),
    {
        let chars = chars_of(s);
        let latest = chars_of("latest");
        let dev = chars_of("dev");
        proof {
            reveal_strlit("latest");
            reveal_strlit("dev");
            assert("latest"@ =~= seq!['l', 'a', 't', 'e', 's', 't']);
            assert("dev"@ =~= seq!['d', 'e', 'v']);
        }
        if chars_eq(&chars, &latest) {
            Some(AnyVersion::Latest)
        } else if chars_eq(&chars, &dev) {
            Some(AnyVersion::Dev)
        } else {
            match PartialVersion::from_chars(&chars) {
                Some(p) => Some(AnyVersion::Specific(p)),
                None => None,
            }
        }
    }
}

/// Whether `version` agrees with every number that `partial` gives.
pub fn is_compatible(partial: &PartialVersion, version: &Version) -> (r: bool)
    ensures
        r == is_compatible_spec(*partial, *version),
{
    if partial.major != version.major {
        return false;
    }
    let minor_fits = match partial.minor {
        Some(m) => m == version.minor,
        None => true,
    };
    let patch_fits = match partial.patch {
        Some(n) => n == version.patch,
        None => true,
    };
    minor_fits && patch_fits
}

/// Whether the request `any` accepts `version`.
pub fn is_accepted(any: &AnyVersion, version: &Version) -> (r: bool)
    ensures
        r == accepts(*any, *version),
{
    match any {
        AnyVersion::Latest => true,
        AnyVersion::Specific(p) => is_compatible(p, version),
        AnyVersion::Dev => false,
    }
}

/// `v` is the highest version in `space` that `any` accepts.
pub open spec fn is_target(any: AnyVersion, space: Seq<Version>, v: Version) -> bool {
    &&& space.contains(v)
    &&& accepts(any, v)
    &&& forall|i: int| 0 <= i < space.len() && accepts(any, #[trigger] space[i]) ==> version_le(space[i], v)
}

/// Chooses from `space` the highest version that the request accepts.
/// Fails with `DevRequested` for the working copy, and with
/// `UnknownVersion` when `space` holds no version that the request accepts.
pub fn get_target_version(any: &AnyVersion, space: &Vec<Version>) -> (r: Result<Version, VersionError>)
    ensures
        match r {
            Ok(v) => is_target(*any, space@, v),
            Err(VersionError::DevRequested) => *any == AnyVersion::Dev,
            Err(VersionError::UnknownVersion) => *any != AnyVersion::Dev && forall|i: int|
                0 <= i < space.len() ==> !accepts(*any, #[trigger] space[i]),
        },
{
    if let AnyVersion::Dev = any {
        return Err(VersionError::DevRequested);
    }
    let mut best: Option<Version> = None;
    let mut i: usize = 0;
    while i < space.len()
        invariant
            i <= space.len(),
            match best {
                Some(v) => is_target(*any, space@.take(i as int), v),
                None => forall|j: int| 0 <= j < i ==> !accepts(*any, #[trigger] space[j]),
            },
        decreases space.len() - i,
    {
        let candidate = space[i];
        let ghost before = space@.take(i as int);
        let ghost after = space@.take(i + 1);
        proof {
            assert(after =~= before.push(candidate));
        }
        if is_accepted(any, &candidate) {
            match best {
                Some(v) => {
                    if v.le(&candidate) {
                        best = Some(candidate);
                        proof {
                            assert(after[i as int] == candidate);
                            assert forall|j: int|
                                0 <= j < after.len() && accepts(*any, #[trigger] after[j]) implies version_le(
                                after[j],
                                candidate,
                            ) by {
                                if j < i {
                                    assert(after[j] == before[j]);
                                    assert(version_le(before[j], v));
                                }
                            }
                        }
                    } else {
                        proof {
                            let k = choose|k: int| 0 <= k < before.len() && before[k] == v;
                            assert(after[k] == v);
                            assert forall|j: int|
                                0 <= j < after.len() && accepts(*any, #[trigger] after[j]) implies version_le(
                                after[j],
                                v,
                            ) by {
                                if j < i {
                                    assert(after[j] == before[j]);
                                }
                            }
                        }
                    }
                },
                None => {
                    best = Some(candidate);
                    proof {
                        assert(after[i as int] == candidate);
                        assert forall|j: int|
                            0 <= j < after.len() && accepts(*any, #[trigger] after[j]) implies version_le(
                            after[j],
                            candidate,
                        ) by {
                            if j < i {
                                assert(after[j] == space[j]);
                            }
                        }
                    }
                },
            }
        } else {
            proof {
                match best {
                    Some(v) => {
                        let k = choose|k: int| 0 <= k < before.len() && before[k] == v;
                        assert(after[k] == v);
                        assert forall|j: int|
                            0 <= j < after.len() && accepts(*any, #[trigger] after[j]) implies version_le(
                            after[j],
                            v,
                        ) by {
                            if j < i {
                                assert(after[j] == before[j]);
                            }
                        }
                    },
                    None => {},
                }
            }
        }
        i += 1;
    }
    proof {
        assert(space@.take(space.len() as int) =~= space@);
    }
    match best {
        Some(v) => Ok(v),
        None => Err(VersionError::UnknownVersion),
    }
}

} // verus!
