//! The manifest of a package: a TOML document that names the package and
//! its dependencies.

use vstd::prelude::*;
use crate::document::{
    entries_view, lookup, parse_document, table_get, toml_document, Node, NodeView,
};
use crate::pkgid::{is_part_name, PkgId, PkgIdView, PkgPart};

use crate::version::{partial_version_of, version_of, PartialVersion, Version};

verus! {

/// The name of a package's manifest file.
pub const IP_MANIFEST_FILE: &'static str = "Orbit.toml";

/// The manifest that a new package starts with.
pub const BARE_MANIFEST: &'static str =
    "[ip]\nname    = \"\"\nlibrary = \"\"\nversion = \"0.1.0\"\nvendor  = \"\"\n\n# To learn more about writing the manifest, see https://github.com/c-rus/orbit\n\n[dependencies]\n";

/// `toml_edit::TomlError`, what the `toml_edit` crate reports of a text it cannot
/// read.
#[verifier::external_type_specification]
#[verifier::external_body]
pub struct ExEditError(toml_edit::TomlError);

/// The text that the `toml_edit` crate makes of the text `text` when the
/// entry `key` of the table `table` is set to the text `value`: `text`
/// with its comments and its spacing, and the entry changed or added.
/// `None` where the crate reads no document from `text`.
pub uninterp spec fn edited_text(
    text: Seq<char>,
    table: Seq<char>,
    key: Seq<char>,
    value: Seq<char>,
) -> Option<Seq<char>>;

/// Whether an entry can be set in the table `table` of `document`: the
/// document is a table in which `table` is missing or a table itself.
pub open spec fn can_hold(document: NodeView, table: Seq<char>) -> bool {
    document matches NodeView::Table(root) && match table_get(root, table) {
        None => true,
        Some(NodeView::Table(_)) => true,
        Some(_) => false,
    }
}

/// The text of a manifest after the entry `key` of the table `table` was
/// set to the text `value`: what the `toml_edit` crate makes of it, where
/// that is a TOML document.
pub open spec fn written_text(
    text: Seq<char>,
    table: Seq<char>,
    key: Seq<char>,
    value: Seq<char>,
) -> Option<Seq<char>> {
    match edited_text(text, table, key, value) {
        Some(edited) => if toml_document(edited) is Some {
            Some(edited)
        } else {
            None
        },
        None => None,
    }
}

/// Index assignment on a `toml_edit::DocumentMut` with `toml_edit::value`:
/// the document is read from `text`, the entry `key` of the table `table`
/// is set to the text `value`, and the document is printed. The crate
/// panics where `table` names something that is no table, which is left
/// out.
#[verifier::external_body]
fn set_entry(text: &str, table: &str, key: &str, value: &str) -> (r: Result<
    String,
    toml_edit::TomlError,
>)
    requires
        toml_document(text@) matches Some(d) && can_hold(d, table@),
    ensures
        match r {
            Ok(edited) => edited_text(text@, table@, key@, value@) == Some(edited@),
            Err(_) => edited_text(text@, table@, key@, value@) is None,
        },
{
    let mut document = text.parse::<toml_edit::DocumentMut>()?;
    document[table][key] = toml_edit::value(value);
    Ok(document.to_string())
}

/// A manifest: where it is stored, its text, and the document that the
/// text writes.
#[derive(Debug, PartialEq, Eq)]
pub struct Manifest {
    path: String,
    text: String,
    document: Node,
}

/// Why a text is no manifest.
#[derive(Debug, Clone, Copy, PartialEq, Eq, Structural)]
pub enum ManifestError {
    /// The text is no TOML document.
    Syntax,
    /// The table `ip` is missing.
    MissingIpTable,
    /// The table `ip` lacks the key `vendor`.
    MissingVendor,
    /// The table `ip` lacks the key `library`.
    MissingLibrary,
    /// The table `ip` lacks the key `name`.
    MissingName,
    /// The table `ip` lacks the key `version`.
    MissingVersion,
    /// An entry of the table `dependencies` names no package or no version.
    BadDependency,
}

/// The text under `key` in the table under `table`, if the document holds
/// one there.
pub open spec fn text_in(document: NodeView, table: Seq<char>, key: Seq<char>) -> Option<Seq<char>> {
    match document {
        NodeView::Table(root) => match table_get(root, table) {
            Some(NodeView::Table(fields)) => match table_get(fields, key) {
                Some(NodeView::Text(s)) => Some(s),
                _ => None,
            },
            _ => None,
        },
        _ => None,
    }
}

/// The entries of the table under `table`, if the document holds a table
/// there.
pub open spec fn table_in(document: NodeView, table: Seq<char>) -> Option<
    Seq<(Seq<char>, NodeView)>,
> {
    match document {
        NodeView::Table(root) => match table_get(root, table) {
            Some(NodeView::Table(fields)) => Some(fields),
            _ => None,
        },
        _ => None,
    }
}

/// The full name of the package that a manifest names in its table `ip`.
pub open spec fn pkgid_in(document: NodeView) -> Option<PkgIdView> {
    match (
        text_in(document, "ip"@, "vendor"@),
        text_in(document, "ip"@, "library"@),
        text_in(document, "ip"@, "name"@),
    ) {
        (Some(vendor), Some(library), Some(name)) => if is_part_name(vendor) && is_part_name(
            library,
        ) && is_part_name(name) {
            Some(PkgIdView { vendor, library, name })
        } else {
            None
        },
        _ => None,
    }
}

/// What a manifest lacks of the least that it has to hold: the table `ip`
/// with the keys `vendor`, `library`, `name` and `version`. The first thing
/// missing in this order is named.
pub open spec fn bare_min_of(document: NodeView) -> Result<(), ManifestError> {
    match table_in(document, "ip"@) {
        None => Err(ManifestError::MissingIpTable),
        Some(ip) => if table_get(ip, "vendor"@) is None {
            Err(ManifestError::MissingVendor)
        } else if table_get(ip, "library"@) is None {
            Err(ManifestError::MissingLibrary)
        } else if table_get(ip, "name"@) is None {
            Err(ManifestError::MissingName)
        } else if table_get(ip, "version"@) is None {
            Err(ManifestError::MissingVersion)
        } else {
            Ok(())
        },
    }
}

/// What the message of an error says after the manifest's path.
pub open spec fn error_text(e: ManifestError) -> Seq<char> {
    match e {
        ManifestError::Syntax => "is no TOML document"@,
        ManifestError::MissingIpTable => "missing 'ip' table"@,
        ManifestError::MissingVendor => "missing required key 'vendor' in table 'ip'"@,
        ManifestError::MissingLibrary => "missing required key 'library' in table 'ip'"@,
        ManifestError::MissingName => "missing required key 'name' in table 'ip'"@,
        ManifestError::MissingVersion => "missing required key 'version' in table 'ip'"@,
        ManifestError::BadDependency => "invalid entry in table 'dependencies'"@,
    }
}

impl ManifestError {
    /// What the message of the error says.
    pub fn to_string(&self) -> (s: String)
        ensures
            s@ == error_text(*self),
    {
        String::from_str(
            match self {
                ManifestError::Syntax => "is no TOML document",
                ManifestError::MissingIpTable => "missing 'ip' table",
                ManifestError::MissingVendor => "missing required key 'vendor' in table 'ip'",
                ManifestError::MissingLibrary => "missing required key 'library' in table 'ip'",
                ManifestError::MissingName => "missing required key 'name' in table 'ip'",
                ManifestError::MissingVersion => "missing required key 'version' in table 'ip'",
                ManifestError::BadDependency => "invalid entry in table 'dependencies'",
            },
        )
    }
}

/// A package that another depends on, and the versions of it that will do.
#[derive(Debug, PartialEq, Eq)]
pub struct Dependency {
    pub pkgid: PkgId,
    pub version: PartialVersion,
}

/// The mathematical value of a `Dependency`.
pub struct DependencyView {
    pub pkgid: PkgIdView,
    pub version: PartialVersion,
}

impl Dependency {
    /// The mathematical value.
    pub open spec fn view(&self) -> DependencyView {
        DependencyView { pkgid: self.pkgid@, version: self.version }
    }
}

/// The values of `deps`.
pub open spec fn dependencies_view(deps: Seq<Dependency>) -> Seq<DependencyView> {
    Seq::new(deps.len(), |i: int| deps[i]@)
}

/// The dependency that the entry `name` with the value `value` names in
/// the table of the library `library` of the vendor `vendor`.
pub open spec fn dependency_of(
    vendor: Seq<char>,
    library: Seq<char>,
    name: Seq<char>,
    value: NodeView,
) -> Option<DependencyView> {
    match value {
        NodeView::Text(s) => if is_part_name(vendor) && is_part_name(library) && is_part_name(name)
            && partial_version_of(s) is Some {
            Some(
                DependencyView {
                    pkgid: PkgIdView { vendor, library, name },
                    version: partial_version_of(s)->0,
                },
            )
        } else {
            None
        },
        _ => None,
    }
}

/// The dependencies that the first `upto` entries of a library's table
/// name, or `None` when one of them names none.
pub open spec fn names_deps(
    vendor: Seq<char>,
    library: Seq<char>,
    names: Seq<(Seq<char>, NodeView)>,
    upto: int,
) -> Option<Seq<DependencyView>>
    decreases upto,
{
    if upto <= 0 {
        Some(Seq::empty())
    } else {
        match (
            names_deps(vendor, library, names, upto - 1),
            dependency_of(vendor, library, names[upto - 1].0, names[upto - 1].1),
        ) {
            (Some(before), Some(d)) => Some(before.push(d)),
            _ => None,
        }
    }
}

/// The dependencies that the first `upto` entries of a vendor's table
/// name: each entry is the table of a library.
pub open spec fn libraries_deps(
    vendor: Seq<char>,
    libraries: Seq<(Seq<char>, NodeView)>,
    upto: int,
) -> Option<Seq<DependencyView>>
    decreases upto,
{
    if upto <= 0 {
        Some(Seq::empty())
    } else {
        match (libraries_deps(vendor, libraries, upto - 1), libraries[upto - 1].1) {
            (Some(before), NodeView::Table(names)) => match names_deps(
                vendor,
                libraries[upto - 1].0,
                names,
                names.len() as int,
            ) {
                Some(d) => Some(before + d),
                None => None,
            },
            _ => None,
        }
    }
}

/// The dependencies that the first `upto` entries of the table
/// `dependencies` name: each entry is the table of a vendor.
pub open spec fn vendors_deps(vendors: Seq<(Seq<char>, NodeView)>, upto: int) -> Option<
    Seq<DependencyView>,
>
    decreases upto,
{
    if upto <= 0 {
        Some(Seq::empty())
    } else {
        match (vendors_deps(vendors, upto - 1), vendors[upto - 1].1) {
            (Some(before), NodeView::Table(libraries)) => match libraries_deps(
                vendors[upto - 1].0,
                libraries,
                libraries.len() as int,
            ) {
                Some(d) => Some(before + d),
                None => None,
            },
            _ => None,
        }
    }
}

/// The direct dependencies that a manifest names: none without the table
/// `dependencies`, else what its tables name, three levels deep.
pub open spec fn dependencies_of(document: NodeView) -> Option<Seq<DependencyView>> {
    match table_in(document, "dependencies"@) {
        None => Some(Seq::empty()),
        Some(vendors) => vendors_deps(vendors, vendors.len() as int),
    }
}

/// What reading the entries of a directory tells the search for a file
/// named `name`: the place of the first entry with that name, or the
/// places of the directories to search next.
#[derive(Debug, PartialEq, Eq)]
pub enum Scan {
    Found(usize),
    Descend(Vec<usize>),
}

/// The names of `entries` with whether each is a directory.
pub open spec fn listing_view(entries: Seq<(String, bool)>) -> Seq<(Seq<char>, bool)> {
    Seq::new(entries.len(), |i: int| (entries[i].0@, entries[i].1))
}

/// The places of the directories among the first `upto` entries, in order.
pub open spec fn directories(entries: Seq<(Seq<char>, bool)>, upto: int) -> Seq<int>
    decreases upto,
{
    if upto <= 0 {
        Seq::empty()
    } else if entries[upto - 1].1 {
        directories(entries, upto - 1).push(upto - 1)
    } else {
        directories(entries, upto - 1)
    }
}

/// Decides from the entries of a directory how the search for the file
/// `name` goes on: with the first entry of that name the search of this
/// directory ends and goes no deeper; without one, its directories are
/// searched next.
pub fn scan_entries(entries: &Vec<(String, bool)>, name: &str) -> (scan: Scan)
    ensures
        match scan {
            Scan::Found(at) => at < entries.len() && entries[at as int].0@ == name@ && forall|j: int|
                0 <= j < at ==> (#[trigger] entries[j]).0@ != name@,
            Scan::Descend(next) => (forall|j: int|
                0 <= j < entries.len() ==> (#[trigger] entries[j]).0@ != name@)
                && crate::graph::ints(next@) == directories(
                listing_view(entries@),
                entries.len() as int,
            ),
        },
{
    let wanted = String::from_str(name);
    let ghost lv = listing_view(entries@);
    let mut next: Vec<usize> = Vec::new();
    let mut i: usize = 0;
    assert(crate::graph::ints(next@) =~= directories(lv, 0));
    while i < entries.len()
        invariant
            i <= entries.len(),
            wanted@ == name@,
            lv == listing_view(entries@),
            forall|j: int| 0 <= j < i ==> (#[trigger] entries[j]).0@ != name@,
            crate::graph::ints(next@) == directories(lv, i as int),
        decreases entries.len() - i,
    {
        if entries[i].0 == wanted {
            return Scan::Found(i);
        }
        if entries[i].1 {
            let ghost before = crate::graph::ints(next@);
            next.push(i);
            assert(crate::graph::ints(next@) =~= before.push(i as int));
        }
        assert(lv[i as int] == (entries[i as int].0@, entries[i as int].1));
        i += 1;
    }
    Scan::Descend(next)
}

impl Manifest {
    /// The document that the manifest's text writes.
    pub closed spec fn view(&self) -> NodeView {
        self.document@
    }

    /// The manifest's text.
    pub closed spec fn spec_text(&self) -> Seq<char> {
        self.text@
    }

    /// Where the manifest is stored.
    pub closed spec fn spec_path(&self) -> Seq<char> {
        self.path@
    }

    #[verifier::type_invariant]
    spec fn text_writes_document(&self) -> bool {
        toml_document(self.text@) == Some(self.document@)
    }

    /// Reads the manifest stored at `path` from its text; `None` when the
    /// text is no TOML document.
    pub fn from_str(path: String, text: &str) -> (r: Option<Manifest>)
        ensures
            match r {
                Some(m) => toml_document(text@) == Some(m@) && m.spec_text() == text@
                    && m.spec_path() == path@,
                None => toml_document(text@) is None,
            },
    {
        match parse_document(text) {
            Some(document) => Some(Manifest { path, text: String::from_str(text), document }),
            None => None,
        }
    }

    /// The manifest without a path and with an empty text; `None` when the
    /// `toml` crate does not read the empty text.
    pub fn new() -> (r: Option<Manifest>)
        ensures
            match r {
                Some(m) => m.spec_text() == Seq::<char>::empty() && m.spec_path()
                    == Seq::<char>::empty() && toml_document(Seq::empty()) == Some(m@),
                None => toml_document(Seq::empty()) is None,
            },
    {
        let empty = String::new();
        Manifest::from_str(String::new(), empty.as_str())
    }

    /// Sets the entry `key` of the table `table` to the text `value` and
    /// keeps the rest of the text as it is. Returns whether that was done:
    /// it is not where `table` names something that is no table, or where
    /// what comes of it is no TOML document.
    pub fn write(&mut self, table: &str, key: &str, value: &str) -> (done: bool)
        ensures
            final(self).spec_path() == old(self).spec_path(),
            done == (can_hold(old(self)@, table@) && written_text(
                old(self).spec_text(),
                table@,
                key@,
                value@,
            ) is Some),
            done ==> Some(final(self).spec_text()) == written_text(
                old(self).spec_text(),
                table@,
                key@,
                value@,
            ) && toml_document(final(self).spec_text()) == Some(final(self)@),
            !done ==> final(self)@ == old(self)@ && final(self).spec_text() == old(self).spec_text(),
    {
        proof {
            use_type_invariant(&*self);
        }
        let holds = match self.document.as_table() {
            Some(root) => match lookup(root, table) {
                None => true,
                Some(found) => found.as_table().is_some(),
            },
            None => false,
        };
        if !holds {
            return false;
        }
        let text = match set_entry(self.text.as_str(), table, key, value) {
            Ok(text) => text,
            Err(_) => {
                return false;
            },
        };
        match parse_document(text.as_str()) {
            Some(document) => {
                let path = self.path.clone();
                *self = Manifest { path, text, document };
                true
            },
            None => false,
        }
    }

    /// The text under `key` in the table `table`; `None` when there is no
    /// such table, no such key, or no text under it.
    pub fn read_as_str(&self, table: &str, key: &str) -> (r: Option<String>)
        ensures
            match r {
                Some(s) => text_in(self@, table@, key@) == Some(s@),
                None => text_in(self@, table@, key@) is None,
            },
    {
        let root = match self.document.as_table() {
            Some(root) => root,
            None => {
                return None;
            },
        };
        let fields = match lookup(root, table) {
            Some(found) => match found.as_table() {
                Some(fields) => fields,
                None => {
                    return None;
                },
            },
            None => {
                return None;
            },
        };
        match lookup(fields, key) {
            Some(found) => match found.as_text() {
                Some(s) => Some(s.clone()),
                None => None,
            },
            None => None,
        }
    }

    /// The manifest's text, as it is saved.
    pub fn get_text(&self) -> (text: &String)
        ensures
            text@ == self.spec_text(),
            toml_document(text@) == Some(self@),
    {
        proof {
            use_type_invariant(self);
        }
        &self.text
    }

    /// The document that the manifest's text writes.
    pub fn get_doc(&self) -> (document: &Node)
        ensures
            document@ == self@,
            toml_document(self.spec_text()) == Some(self@),
    {
        proof {
            use_type_invariant(self);
        }
        &self.document
    }

    /// Where the manifest is stored.
    pub fn get_path(&self) -> (path: &String)
        ensures
            path@ == self.spec_path(),
    {
        &self.path
    }
}

/// The manifest of a package.
#[derive(Debug, PartialEq, Eq)]
pub struct IpManifest(pub Manifest);

impl IpManifest {
    /// The document that the manifest's text writes.
    pub open spec fn view(&self) -> NodeView {
        self.0@
    }

    /// The manifest of a package without a path and with an empty text;
    /// `None` when the `toml` crate does not read the empty text.
    pub fn new() -> (r: Option<IpManifest>)
        ensures
            match r {
                Some(ip) => ip.0.spec_text() == Seq::<char>::empty() && toml_document(
                    Seq::empty(),
                ) == Some(ip@),
                None => toml_document(Seq::empty()) is None,
            },
    {
        match Manifest::new() {
            Some(manifest) => Some(IpManifest(manifest)),
            None => None,
        }
    }

    /// Wraps `manifest` after checking that it holds the least that the
    /// manifest of a package has to hold.
    pub fn from_manifest(manifest: Manifest) -> (r: Result<IpManifest, ManifestError>)
        ensures
            match r {
                Ok(ip) => bare_min_of(manifest@) is Ok && ip.0 == manifest,
                Err(e) => bare_min_of(manifest@) == Err::<(), ManifestError>(e),
            },
    {
        let ip = IpManifest(manifest);
        match ip.has_bare_min() {
            Ok(()) => Ok(ip),
            Err(e) => Err(e),
        }
    }

    /// Reads the manifest of a package stored at `path` from its text.
    /// Fails with `Syntax` when the text is no TOML document.
    pub fn from_str(path: String, text: &str) -> (r: Result<IpManifest, ManifestError>)
        ensures
            match r {
                Ok(ip) => toml_document(text@) == Some(ip@) && ip.0.spec_text() == text@,
                Err(e) => e == ManifestError::Syntax && toml_document(text@) is None,
            },
    {
        match Manifest::from_str(path, text) {
            Some(manifest) => Ok(IpManifest(manifest)),
            None => Err(ManifestError::Syntax),
        }
    }

    /// The manifest that a new package at `path` starts with; `None` when
    /// the `toml` crate does not read the text of it.
    pub fn init(path: String) -> (r: Option<IpManifest>)
        ensures
            match r {
                Some(ip) => ip.0.spec_text() == BARE_MANIFEST@ && ip.0.spec_path() == path@,
                None => toml_document(BARE_MANIFEST@) is None,
            },
    {
        match Manifest::from_str(path, BARE_MANIFEST) {
            Some(manifest) => Some(IpManifest(manifest)),
            None => None,
        }
    }

    /// Checks that the manifest has the table `ip` with the keys `vendor`,
    /// `library`, `name` and `version`, and names the first that is
    /// missing.
    pub fn has_bare_min(&self) -> (r: Result<(), ManifestError>)
        ensures
            r == bare_min_of(self@),
    {
        let ip = match self.table("ip") {
            Some(ip) => ip,
            None => {
                return Err(ManifestError::MissingIpTable);
            },
        };
        if lookup(ip, "vendor").is_none() {
            Err(ManifestError::MissingVendor)
        } else if lookup(ip, "library").is_none() {
            Err(ManifestError::MissingLibrary)
        } else if lookup(ip, "name").is_none() {
            Err(ManifestError::MissingName)
        } else if lookup(ip, "version").is_none() {
            Err(ManifestError::MissingVersion)
        } else {
            Ok(())
        }
    }

    /// The entries of the table `table`, if the manifest holds it.
    fn table(&self, table: &str) -> (r: Option<&Vec<(String, Node)>>)
        ensures
            match r {
                Some(fields) => table_in(self@, table@) == Some(entries_view(fields@)),
                None => table_in(self@, table@) is None,
            },
    {
        let root = match self.0.get_doc().as_table() {
            Some(root) => root,
            None => {
                return None;
            },
        };
        match lookup(root, table) {
            Some(found) => found.as_table(),
            None => None,
        }
    }

    /// The full name of the package from the keys `vendor`, `library` and
    /// `name` of the table `ip`; `None` when one of them is missing or no
    /// name.
    pub fn as_pkgid(&self) -> (r: Option<PkgId>)
        ensures
            match r {
                Some(id) => pkgid_in(self@) == Some(id@),
                None => pkgid_in(self@) is None,
            },
    {
        let vendor = match self.0.read_as_str("ip", "vendor") {
            Some(s) => PkgPart::from_str(s.as_str()),
            None => None,
        };
        let library = match self.0.read_as_str("ip", "library") {
            Some(s) => PkgPart::from_str(s.as_str()),
            None => None,
        };
        let name = match self.0.read_as_str("ip", "name") {
            Some(s) => PkgPart::from_str(s.as_str()),
            None => None,
        };
        match (vendor, library, name) {
            (Some(vendor), Some(library), Some(name)) => Some(PkgId::new(vendor, library, name)),
            _ => None,
        }
    }

    /// The version of the package from the key `version` of the table
    /// `ip`; `None` when it is missing or no version.
    pub fn into_version(&self) -> (r: Option<Version>)
        ensures
            r == match text_in(self@, "ip"@, "version"@) {
                Some(s) => version_of(s),
                None => None,
            },
    {
        match self.0.read_as_str("ip", "version") {
            Some(s) => Version::from_str(s.as_str()),
            None => None,
        }
    }

    /// The summary of the package, if the manifest gives one.
    pub fn get_summary(&self) -> (r: Option<String>)
        ensures
            match r {
                Some(s) => text_in(self@, "ip"@, "summary"@) == Some(s@),
                None => text_in(self@, "ip"@, "summary"@) is None,
            },
    {
        self.0.read_as_str("ip", "summary")
    }

    /// The address of the package's repository, if the manifest gives one.
    pub fn get_repository(&self) -> (r: Option<String>)
        ensures
            match r {
                Some(s) => text_in(self@, "ip"@, "repository"@) == Some(s@),
                None => text_in(self@, "ip"@, "repository"@) is None,
            },
    {
        self.0.read_as_str("ip", "repository")
    }

    /// The direct dependencies from the table `dependencies`: its entries
    /// are tables of vendors, theirs tables of libraries, and theirs name
    /// a package each with the versions of it that will do. Fails with
    /// `BadDependency` when an entry is none of that.
    pub fn get_dependencies(&self) -> (r: Result<Vec<Dependency>, ManifestError>)
        ensures
            match r {
                Ok(deps) => dependencies_of(self@) == Some(dependencies_view(deps@)),
                Err(e) => e == ManifestError::BadDependency && dependencies_of(self@) is None,
            },
            dependencies_in(self.0.spec_text()) == dependencies_of(self@),
    {
        let _ = self.0.get_doc();
        self.read_dependencies()
    }

    /// Walks through the three levels of the table `dependencies`.
    fn read_dependencies(&self) -> (r: Result<Vec<Dependency>, ManifestError>)
        ensures
            match r {
                Ok(deps) => dependencies_of(self@) == Some(dependencies_view(deps@)),
                Err(e) => e == ManifestError::BadDependency && dependencies_of(self@) is None,
            },
    {
        let mut deps: Vec<Dependency> = Vec::new();
        let vendors = match self.table("dependencies") {
            Some(vendors) => vendors,
            None => {
                assert(dependencies_view(deps@) =~= Seq::empty());
                return Ok(deps);
            },
        };
        let ghost vv = entries_view(vendors@);
        let mut v: usize = 0;
        assert(dependencies_view(deps@) =~= Seq::empty());
        while v < vendors.len()
            invariant
                v <= vendors.len(),
                vv == entries_view(vendors@),
                dependencies_of(self@) == vendors_deps(vv, vv.len() as int),
                vendors_deps(vv, v as int) == Some(dependencies_view(deps@)),
            decreases vendors.len() - v,
        {
            let libraries = match vendors[v].1.as_table() {
                Some(libraries) => libraries,
                None => {
                    proof {
                        lemma_vendors_fail(vv, v + 1, vendors.len() as int);
                    }
                    return Err(ManifestError::BadDependency);
                },
            };
            let ghost lv = entries_view(libraries@);
            let ghost at_vendor = dependencies_view(deps@);
            let mut l: usize = 0;
            assert(at_vendor + Seq::empty() =~= at_vendor);
            while l < libraries.len()
                invariant
                    v < vendors.len(),
                    l <= libraries.len(),
                    vv == entries_view(vendors@),
                    lv == entries_view(libraries@),
                    vv[v as int].1 == NodeView::Table(lv),
                    dependencies_of(self@) == vendors_deps(vv, vv.len() as int),
                    vendors_deps(vv, v as int) == Some(at_vendor),
                    libraries_deps(vv[v as int].0, lv, l as int) matches Some(d)
                        && dependencies_view(deps@) == at_vendor + d,
                decreases libraries.len() - l,
            {
                let names = match libraries[l].1.as_table() {
                    Some(names) => names,
                    None => {
                        proof {
                            lemma_libraries_fail(vv[v as int].0, lv, l + 1, libraries.len() as int);
                            lemma_vendors_fail(vv, v + 1, vendors.len() as int);
                        }
                        return Err(ManifestError::BadDependency);
                    },
                };
                let ghost nv = entries_view(names@);
                let ghost at_library = dependencies_view(deps@);
                let ghost so_far = libraries_deps(vv[v as int].0, lv, l as int)->0;
                let mut n: usize = 0;
                assert(at_library + Seq::empty() =~= at_library);
                while n < names.len()
                    invariant
                        v < vendors.len(),
                        l < libraries.len(),
                        n <= names.len(),
                        vv == entries_view(vendors@),
                        lv == entries_view(libraries@),
                        nv == entries_view(names@),
                        vv[v as int].1 == NodeView::Table(lv),
                        lv[l as int].1 == NodeView::Table(nv),
                        dependencies_of(self@) == vendors_deps(vv, vv.len() as int),
                        names_deps(vv[v as int].0, lv[l as int].0, nv, n as int) matches Some(d)
                            && dependencies_view(deps@) == at_library + d,
                    decreases names.len() - n,
                {
                    let found = read_dependency(
                        vendors[v].0.as_str(),
                        libraries[l].0.as_str(),
                        names[n].0.as_str(),
                        &names[n].1,
                    );
                    match found {
                        Some(d) => {
                            let ghost before = dependencies_view(deps@);
                            let ghost sub = names_deps(vv[v as int].0, lv[l as int].0, nv, n as int)->0;
                            deps.push(d);
                            proof {
                                assert(dependencies_view(deps@) =~= before.push(d@));
                                assert(before.push(d@) =~= at_library + sub.push(d@));
                            }
                        },
                        None => {
                            proof {
                                lemma_names_fail(
                                    vv[v as int].0,
                                    lv[l as int].0,
                                    nv,
                                    n + 1,
                                    names.len() as int,
                                );
                                lemma_libraries_fail(
                                    vv[v as int].0,
                                    lv,
                                    l + 1,
                                    libraries.len() as int,
                                );
                                lemma_vendors_fail(vv, v + 1, vendors.len() as int);
                            }
                            return Err(ManifestError::BadDependency);
                        },
                    }
                    n += 1;
                }
                proof {
                    let sub = names_deps(vv[v as int].0, lv[l as int].0, nv, names.len() as int)->0;
                    assert(at_library + sub =~= at_vendor + (so_far + sub));
                }
                l += 1;
            }
            v += 1;
        }
        Ok(deps)
    }
}

/// Once an entry names no dependency, the whole table names none.
proof fn lemma_names_fail(
    vendor: Seq<char>,
    library: Seq<char>,
    names: Seq<(Seq<char>, NodeView)>,
    at: int,
    upto: int,
)
    requires
        0 <= at <= upto,
        names_deps(vendor, library, names, at) is None,
    ensures
        names_deps(vendor, library, names, upto) is None,
    decreases upto - at,
{
    if at < upto {
        lemma_names_fail(vendor, library, names, at, upto - 1);
    }
}

proof fn lemma_libraries_fail(
    vendor: Seq<char>,
    libraries: Seq<(Seq<char>, NodeView)>,
    at: int,
    upto: int,
)
    requires
        0 <= at <= upto,
        libraries_deps(vendor, libraries, at) is None,
    ensures
        libraries_deps(vendor, libraries, upto) is None,
    decreases upto - at,
{
    if at < upto {
        lemma_libraries_fail(vendor, libraries, at, upto - 1);
    }
}

proof fn lemma_vendors_fail(vendors: Seq<(Seq<char>, NodeView)>, at: int, upto: int)
    requires
        0 <= at <= upto,
        vendors_deps(vendors, at) is None,
    ensures
        vendors_deps(vendors, upto) is None,
    decreases upto - at,
{
    if at < upto {
        lemma_vendors_fail(vendors, at, upto - 1);
    }
}

/// Reads the dependency that one entry of a library's table names.
fn read_dependency(vendor: &str, library: &str, name: &str, value: &Node) -> (r: Option<Dependency>)
    ensures
        match r {
            Some(d) => dependency_of(vendor@, library@, name@, value@) == Some(d@),
            None => dependency_of(vendor@, library@, name@, value@) is None,
        },
{
    let text = match value.as_text() {
        Some(text) => text,
        None => {
            return None;
        },
    };
    let version = PartialVersion::from_str(text.as_str());
    let v = PkgPart::from_str(vendor);
    let l = PkgPart::from_str(library);
    let n = PkgPart::from_str(name);
    match (v, l, n, version) {
        (Some(v), Some(l), Some(n), Some(version)) => Some(
            Dependency { pkgid: PkgId::new(v, l, n), version },
        ),
        _ => None,
    }
}

/// The dependencies that the manifest with the text `text` names.
pub open spec fn dependencies_in(text: Seq<char>) -> Option<Seq<DependencyView>> {
    match toml_document(text) {
        Some(document) => dependencies_of(document),
        None => None,
    }
}

/// The dependencies of a manifest are those of the document that its text
/// writes: two texts that write the same document, whatever their comments
/// and their spacing, name the same dependencies.
pub proof fn lemma_dependencies_by_document(a: Seq<char>, b: Seq<char>)
    requires
        toml_document(a) == toml_document(b),
    ensures
        dependencies_in(a) == dependencies_in(b),
{
}

} // verus!
