//! Installing a package into the cache: what is installed from where, at
//! which version, into which slot, and what becomes of a slot that is
//! already there.

use vstd::prelude::*;
use crate::catalog::{slot_name, CacheSlot};
use crate::checksum::{is_checksum, kept_files, lemma_checksum_unique, FileRecordView};
use crate::digest::{checksum_of, hex_text, lemma_checksum_round_trip, Sha256Hash};
use crate::pkgid::{PkgId, PkgIdView, PkgPart};
use crate::text::{append_chars, append_str, string_of};
use crate::version::{
    accepts, get_target_version, is_target, version_of, version_text, AnyVersion, Version,
    VersionError,
};

verus! {

/// Why nothing is installed.
#[derive(Debug, Clone, Copy, PartialEq, Eq, Structural)]
pub enum InstallError {
    /// The working copy was asked for, which is never installed.
    DevVersion,
    /// Neither a package, nor a repository, nor a path was given.
    NoSource,
    /// No tag of the repository is a version that the request accepts.
    UnknownVersion,
    /// The slot holds the package already, and its files are intact.
    AlreadyInstalled,
    /// The files that were placed in the slot are not what the slot's
    /// checksum says.
    ChecksumMismatch,
}

/// Where the package is installed from.
#[derive(Debug, PartialEq, Eq)]
pub enum InstallSource {
    /// The package of this name, looked up in the catalog.
    Catalog(PkgId),
    /// The repository at this address, which is cloned.
    Git(String),
    /// The directory at this path.
    Path(String),
}

/// The mathematical value of an `InstallSource`.
pub enum InstallSourceView {
    Catalog(PkgIdView),
    Git(Seq<char>),
    Path(Seq<char>),
}

impl InstallSource {
    /// The mathematical value.
    pub open spec fn view(&self) -> InstallSourceView {
        match self {
            InstallSource::Catalog(id) => InstallSourceView::Catalog(id@),
            InstallSource::Git(url) => InstallSourceView::Git(url@),
            InstallSource::Path(path) => InstallSourceView::Path(path@),
        }
    }
}

/// What was asked of the installer.
#[derive(Debug, PartialEq, Eq)]
pub struct Install {
    ip: Option<PkgId>,
    path: Option<String>,
    git: Option<String>,
    version: AnyVersion,
}

/// The mathematical value of an `Install`.
pub struct InstallView {
    pub ip: Option<PkgIdView>,
    pub path: Option<Seq<char>>,
    pub git: Option<Seq<char>>,
    pub version: AnyVersion,
}

/// Where the request `request` installs from: a package named wins over a
/// repository, and a repository over a path. The working copy is refused
/// before anything else.
pub open spec fn source_of(request: InstallView) -> Result<InstallSourceView, InstallError> {
    if request.version == AnyVersion::Dev {
        Err(InstallError::DevVersion)
    } else if request.ip is Some {
        Ok(InstallSourceView::Catalog(request.ip->0))
    } else if request.git is Some {
        Ok(InstallSourceView::Git(request.git->0))
    } else if request.path is Some {
        Ok(InstallSourceView::Path(request.path->0))
    } else {
        Err(InstallError::NoSource)
    }
}

/// The versions that the tags of `tags` write, in order; tags that write no
/// version are passed over.
pub open spec fn versions_in(tags: Seq<Seq<char>>) -> Seq<Version>
    decreases tags.len(),
{
    if tags.len() == 0 {
        Seq::empty()
    } else {
        match version_of(tags.last()) {
            Some(v) => versions_in(tags.drop_last()).push(v),
            None => versions_in(tags.drop_last()),
        }
    }
}

/// The texts of `tags`.
pub open spec fn tags_view(tags: Seq<String>) -> Seq<Seq<char>> {
    Seq::new(tags.len(), |i: int| tags[i]@)
}

/// Collects the versions among the names of a repository's tags.
pub fn gather_version_tags(tags: &Vec<String>) -> (versions: Vec<Version>)
    ensures
        versions@ == versions_in(tags_view(tags@)),
{
    let ghost tv = tags_view(tags@);
    let mut versions: Vec<Version> = Vec::new();
    let mut i: usize = 0;
    assert(tv.take(0) =~= Seq::empty());
    while i < tags.len()
        invariant
            i <= tags.len(),
            tv == tags_view(tags@),
            versions@ == versions_in(tv.take(i as int)),
        decreases tags.len() - i,
    {
        proof {
            let next = tv.take(i + 1);
            assert(next.drop_last() =~= tv.take(i as int));
            assert(next.last() == tags[i as int]@);
        }
        match Version::from_str(tags[i].as_str()) {
            Some(v) => {
                versions.push(v);
            },
            None => {},
        }
        i += 1;
    }
    proof {
        assert(tv.take(tags.len() as int) =~= tv);
    }
    versions
}

/// What is done about the slot that an installation is headed for.
#[derive(Debug, Clone, Copy, PartialEq, Eq, Structural)]
pub enum SlotStep {
    /// The slot is free: it is made and filled.
    Create,
    /// The slot is taken and the installation is forced: it is emptied and
    /// filled anew.
    Replace,
    /// The slot is taken: its files have to be checked against the checksum
    /// it holds before anything is decided.
    Verify,
    /// The slot is taken and its files are not what its checksum says, or
    /// it holds no checksum: it is emptied and filled anew.
    Reinstall,
    /// The slot is taken and intact: nothing is touched.
    Keep,
}

/// The first step about a slot, by whether it exists and whether the
/// installation is forced.
pub open spec fn first_step(exists: bool, force: bool) -> SlotStep {
    if !exists {
        SlotStep::Create
    } else if force {
        SlotStep::Replace
    } else {
        SlotStep::Verify
    }
}

/// A slot is intact when the checksum it holds is the checksum of the files
/// it holds.
pub open spec fn is_intact(stored: Option<Seq<u8>>, actual: Seq<u8>) -> bool {
    stored == Some(actual)
}

/// The step after the slot's files were checked.
pub open spec fn checked_step(stored: Option<Seq<u8>>, actual: Seq<u8>) -> SlotStep {
    if is_intact(stored, actual) {
        SlotStep::Keep
    } else {
        SlotStep::Reinstall
    }
}

/// Whether the step touches the files of the cache.
pub open spec fn touches_cache(step: SlotStep) -> bool {
    step == SlotStep::Create || step == SlotStep::Replace || step == SlotStep::Reinstall
}

/// Whether the request names one version in full.
pub open spec fn is_exact(request: AnyVersion) -> bool {
    request matches AnyVersion::Specific(p) && p.minor is Some && p.patch is Some
}

/// The step that an installation without force ends in when it meets a
/// slot with the checksum `stored` whose files have the checksum `actual`.
pub open spec fn unforced_step(exists: bool, stored: Option<Seq<u8>>, actual: Seq<u8>) -> SlotStep {
    if first_step(exists, false) == SlotStep::Verify {
        checked_step(stored, actual)
    } else {
        first_step(exists, false)
    }
}

/// Installing again what was installed changes nothing: an installation
/// leaves a slot that holds the checksum of its files, and a second
/// installation of the same package, version and files without force is
/// headed for the slot of the same name and touches no file of the cache.
pub proof fn lemma_install_is_idempotent(
    name: Seq<char>,
    version: Version,
    first: Seq<u8>,
    second: Seq<u8>,
)
    requires
        first == second,
    ensures
        slot_name(name, version, first) == slot_name(name, version, second),
        unforced_step(true, Some(first), second) == SlotStep::Keep,
        !touches_cache(unforced_step(true, Some(first), second)),
{
}

/// A slot's files are kept exactly when the checksum that the slot holds
/// is the checksum of its files.
pub proof fn lemma_kept_iff_intact(stored: Option<Seq<u8>>, actual: Seq<u8>)
    ensures
        checked_step(stored, actual) == SlotStep::Keep <==> stored == Some(actual),
        checked_step(stored, actual) == SlotStep::Reinstall <==> stored != Some(actual),
{
}

/// Whether `c` is a digit of base sixteen with a small letter.
pub open spec fn is_small_hex_digit(c: char) -> bool {
    ('0' <= c && c <= '9') || ('a' <= c && c <= 'f')
}

/// The text that a slot holds of its checksum is 64 small-letter digits of
/// base sixteen and nothing else, and it reads back as the checksum.
pub proof fn lemma_marker_text(sum: Seq<u8>)
    requires
        sum.len() == 32,
    ensures
        hex_text(sum).len() == 64,
        forall|i: int| 0 <= i < 64 ==> is_small_hex_digit(#[trigger] hex_text(sum)[i]),
        checksum_of(hex_text(sum)) == Some(sum),
{
    lemma_checksum_round_trip(sum);
    assert forall|i: int| 0 <= i < 64 implies is_small_hex_digit(#[trigger] hex_text(sum)[i]) by {
        let b = sum[i / 2] as int;
        assert(0 <= b / 16 < 16 && 0 <= b % 16 < 16);
    }
}

/// A slot that was filled is valid. Where the checksum `sum` was computed
/// of the files `files`, and the slot holds these files, besides the file
/// with the text of `sum`, then the checksum of the slot's files is the
/// checksum that the slot holds: the slot is intact, and an installation
/// without force that meets it keeps it and touches no file of the cache.
/// So it is after a first installation and after one that filled a slot
/// anew.
pub proof fn lemma_filled_slot_is_valid(
    files: Seq<FileRecordView>,
    p: Seq<int>,
    sum: Seq<u8>,
    slot: Seq<FileRecordView>,
    q: Seq<int>,
    actual: Option<Seq<u8>>,
)
    requires
        sum.len() == 32,
        is_checksum(files, p, Some(sum)),
        kept_files(slot) == files,
        is_checksum(kept_files(slot), q, actual),
    ensures
        actual == Some(sum),
        is_intact(checksum_of(hex_text(sum)), sum),
        checked_step(checksum_of(hex_text(sum)), sum) == SlotStep::Keep,
        unforced_step(true, checksum_of(hex_text(sum)), sum) == SlotStep::Keep,
        !touches_cache(unforced_step(true, checksum_of(hex_text(sum)), sum)),
{
    lemma_checksum_unique(files, p, q, Some(sum), actual);
    lemma_checksum_round_trip(sum);
}

/// The notice that a slot with a bad checksum is filled anew.
pub open spec fn reinstall_notice_text(name: Seq<char>, version: Version) -> Seq<char> {
    "info: reinstalling ip '"@ + name + "' as version '"@ + version_text(version)
        + "' due to bad checksum"@
}

/// The message that a package is installed already.
pub open spec fn installed_notice_text(name: Seq<char>, version: Version) -> Seq<char> {
    "ip '"@ + name + "' as version '"@ + version_text(version) + "' is already installed"@
}

impl Install {
    /// The mathematical value.
    pub closed spec fn view(&self) -> InstallView {
        InstallView {
            ip: match self.ip {
                Some(id) => Some(id@),
                None => None,
            },
            path: match self.path {
                Some(p) => Some(p@),
                None => None,
            },
            git: match self.git {
                Some(g) => Some(g@),
                None => None,
            },
            version: self.version,
        }
    }

    /// The request to install the package `ip`, the repository at `git` or
    /// the directory at `path` at the version `version`.
    pub fn new(ip: Option<PkgId>, path: Option<String>, git: Option<String>, version: AnyVersion) -> (request: Install)
        ensures
            request@ == (InstallView {
                ip: match ip {
                    Some(id) => Some(id@),
                    None => None,
                },
                path: match path {
                    Some(p) => Some(p@),
                    None => None,
                },
                git: match git {
                    Some(g) => Some(g@),
                    None => None,
                },
                version,
            }),
    {
        Install { ip, path, git, version }
    }

    /// The version that was asked for.
    pub fn get_version(&self) -> (version: &AnyVersion)
        ensures
            *version == self@.version,
    {
        &self.version
    }

    /// Where the package is installed from. Fails with `DevVersion` when
    /// the working copy was asked for, and with `NoSource` when nothing
    /// says where to install from.
    pub fn source(&self) -> (r: Result<InstallSource, InstallError>)
        ensures
            match r {
                Ok(source) => source_of(self@) == Ok::<InstallSourceView, InstallError>(source@),
                Err(e) => source_of(self@) == Err::<InstallSourceView, InstallError>(e),
            },
    {
        if let AnyVersion::Dev = self.version {
            return Err(InstallError::DevVersion);
        }
        match &self.ip {
            Some(id) => {
                return Ok(InstallSource::Catalog(id.clone()));
            },
            None => {},
        }
        match &self.git {
            Some(url) => {
                return Ok(InstallSource::Git(url.clone()));
            },
            None => {},
        }
        match &self.path {
            Some(path) => Ok(InstallSource::Path(path.clone())),
            None => Err(InstallError::NoSource),
        }
    }

    /// The version to install: the highest version among the names of the
    /// repository's tags that the request accepts.
    pub fn select_version(&self, tags: &Vec<String>) -> (r: Result<Version, InstallError>)
        ensures
            match r {
                Ok(v) => is_target(self@.version, versions_in(tags_view(tags@)), v),
                Err(e) => if self@.version == AnyVersion::Dev {
                    e == InstallError::DevVersion
                } else {
                    e == InstallError::UnknownVersion && forall|i: int|
                        0 <= i < versions_in(tags_view(tags@)).len() ==> !accepts(
                            self@.version,
                            #[trigger] versions_in(tags_view(tags@))[i],
                        )
                },
            },
    {
        let space = gather_version_tags(tags);
        match get_target_version(&self.version, &space) {
            Ok(v) => Ok(v),
            Err(VersionError::DevRequested) => Err(InstallError::DevVersion),
            Err(VersionError::UnknownVersion) => Err(InstallError::UnknownVersion),
        }
    }

    /// The first step about the slot, by whether it exists and whether the
    /// installation is forced.
    pub fn begin(exists: bool, force: bool) -> (step: SlotStep)
        ensures
            step == first_step(exists, force),
    {
        if !exists {
            SlotStep::Create
        } else if force {
            SlotStep::Replace
        } else {
            SlotStep::Verify
        }
    }

    /// The step after the files of a slot were checked: `stored` is the
    /// checksum that the slot holds, if it holds one that can be read, and
    /// `actual` the checksum of its files.
    pub fn verify(stored: Option<&Sha256Hash>, actual: &Sha256Hash) -> (step: SlotStep)
        ensures
            step == checked_step(
                match stored {
                    Some(s) => Some(s@),
                    None => None,
                },
                actual@,
            ),
    {
        match stored {
            Some(sum) => if sum.equals(actual) {
                SlotStep::Keep
            } else {
                SlotStep::Reinstall
            },
            None => SlotStep::Reinstall,
        }
    }

    /// Whether a slot that was just filled is what it should be: `stored` is
    /// the checksum that the slot holds, if it holds one that can be read,
    /// and `actual` the checksum of its files. Fails with
    /// `ChecksumMismatch` unless the slot is intact.
    pub fn confirm(stored: Option<&Sha256Hash>, actual: &Sha256Hash) -> (r: Result<
        (),
        InstallError,
    >)
        ensures
            r is Ok <==> is_intact(
                match stored {
                    Some(s) => Some(s@),
                    None => None,
                },
                actual@,
            ),
            r matches Err(e) ==> e == InstallError::ChecksumMismatch,
    {
        match Install::verify(stored, actual) {
            SlotStep::Keep => Ok(()),
            _ => Err(InstallError::ChecksumMismatch),
        }
    }

    /// What the caller of an installation gets for a step: a slot that is
    /// kept is an error only where one version was asked for in full.
    pub fn conclude(&self, step: SlotStep) -> (r: Result<(), InstallError>)
        ensures
            r is Err <==> step == SlotStep::Keep && is_exact(self@.version),
            r matches Err(e) ==> e == InstallError::AlreadyInstalled,
    {
        let exact = match self.version {
            AnyVersion::Specific(p) => p.minor.is_some() && p.patch.is_some(),
            _ => false,
        };
        match step {
            SlotStep::Keep => if exact {
                Err(InstallError::AlreadyInstalled)
            } else {
                Ok(())
            },
            _ => Ok(()),
        }
    }
}

/// The name of the slot for the package `name` at `version` whose files
/// have the checksum `checksum`.
pub fn cache_slot_name(name: &PkgPart, version: &Version, checksum: &Sha256Hash) -> (s: String)
    ensures
        s@ == slot_name(name@, *version, checksum@),
{
    CacheSlot::new(name, version, checksum).to_string()
}

/// Whether an entry of the source directory is copied into the slot:
/// everything but the directory `.git`.
pub fn is_copied(name: &str, is_dir: bool) -> (r: bool)
    ensures
        r == !(name@ == ".git"@ && is_dir),
{
    let vcs = String::from_str(".git");
    let given = String::from_str(name);
    !(given == vcs && is_dir)
}

/// The notice that a slot with a bad checksum is filled anew.
pub fn reinstall_notice(name: &PkgPart, version: &Version) -> (s: String)
    ensures
        s@ == reinstall_notice_text(name@, *version),
{
    let mut text: Vec<char> = Vec::new();
    append_str(&mut text, "info: reinstalling ip '");
    append_str(&mut text, name.as_str());
    append_str(&mut text, "' as version '");
    append_chars(&mut text, &version.to_chars());
    append_str(&mut text, "' due to bad checksum");
    assert(text@ =~= reinstall_notice_text(name@, *version));
    string_of(&text)
}

/// The message that a package is installed already.
pub fn installed_notice(name: &PkgPart, version: &Version) -> (s: String)
    ensures
        s@ == installed_notice_text(name@, *version),
{
    let mut text: Vec<char> = Vec::new();
    append_str(&mut text, "ip '");
    append_str(&mut text, name.as_str());
    append_str(&mut text, "' as version '");
    append_chars(&mut text, &version.to_chars());
    append_str(&mut text, "' is already installed");
    assert(text@ =~= installed_notice_text(name@, *version));
    string_of(&text)
}

} // verus!
