//! The lockfile: the packages of a resolved build with their versions,
//! checksums and direct dependencies, and its form as a TOML document.

use vstd::prelude::*;
use crate::catalog::{CacheSlot, CacheSlotView};
use crate::digest::{
    checksum_of, hex_text, lemma_checksum_round_trip, lemma_uuid_round_trip, uuid_of, uuid_text,
    Sha256Hash, Uuid,
};
use crate::document::{
    distinct_keys, entries_view, is_renderable, items_view, lemma_first_key, lookup, parse_document,
    render_document, table_get, toml_document, toml_text, Node, NodeView,
};
use crate::graph::ints;
use crate::ip::{
    all_named, copy_specs, ip_spec_of, ip_spec_text, lemma_ip_spec_round_trip, note_names,
    specs_eq, specs_view, Ip, IpSpec, IpSpecView, IpView, Source,
};
use crate::order::{is_stable_sort, keys_view, stable_sort, KeyView, SortKey};
use crate::pkgid::{is_part_name, Id, PkgPart};
use crate::version::{
    accepts, get_target_version, lemma_version_round_trip, version_le, version_of, version_text,
    AnyVersion, Version,
};

verus! {

/// The name of a project's lockfile.
pub const IP_LOCK_FILE: &'static str = "Orbit.lock";

/// The lockfile format that is written.
pub const LOCK_VERSION: u32 = 1;

/// Why a text is no lockfile.
#[derive(Debug, Clone, Copy, PartialEq, Eq, Structural)]
pub enum LockError {
    /// The text is no TOML document.
    Syntax,
    /// The document gives no format number.
    MissingVersion,
    /// The document has a format number that is not known.
    UnsupportedLockVersion,
    /// The document has the known format number and is no lockfile.
    Malformed,
}

/// The mathematical value of a `LockEntry`.
pub struct LockEntryView {
    pub name: Seq<char>,
    pub version: Version,
    pub uuid: Seq<u8>,
    pub checksum: Option<Seq<u8>>,
    pub source: Option<Seq<char>>,
    pub dependencies: Seq<IpSpecView>,
}

/// The mathematical value of a `LockFile`.
pub struct LockFileView {
    pub version: nat,
    pub entries: Seq<LockEntryView>,
}

/// The entry holds a name, an identifier of 16 bytes, a checksum of 32
/// bytes if any, and dependencies with names.
pub open spec fn entry_wf(e: LockEntryView) -> bool {
    &&& is_part_name(e.name)
    &&& e.uuid.len() == 16
    &&& (e.checksum matches Some(c) ==> c.len() == 32)
    &&& all_named(e.dependencies)
}

/// Every entry of the lockfile is well formed.
pub open spec fn file_wf(l: LockFileView) -> bool {
    &&& l.version <= u32::MAX
    &&& forall|i: int| 0 <= i < l.entries.len() ==> entry_wf(#[trigger] l.entries[i])
}

/// The key of an entry's name.
pub open spec fn key_name() -> Seq<char> {
    seq!['n', 'a', 'm', 'e']
}

/// The key of a version, in an entry and at the head of the document.
pub open spec fn key_version() -> Seq<char> {
    seq!['v', 'e', 'r', 's', 'i', 'o', 'n']
}

/// The key of an entry's identifier.
pub open spec fn key_uuid() -> Seq<char> {
    seq!['u', 'u', 'i', 'd']
}

/// The key of an entry's checksum.
pub open spec fn key_checksum() -> Seq<char> {
    seq!['c', 'h', 'e', 'c', 'k', 's', 'u', 'm']
}

/// The key of the address of an entry's source.
pub open spec fn key_url() -> Seq<char> {
    seq!['u', 'r', 'l']
}

/// The key of an entry's dependencies.
pub open spec fn key_dependencies() -> Seq<char> {
    seq!['d', 'e', 'p', 'e', 'n', 'd', 'e', 'n', 'c', 'i', 'e', 's']
}

/// The key of the list of entries.
pub open spec fn key_ip() -> Seq<char> {
    seq!['i', 'p']
}

/// The keys as the program text spells them.
proof fn lemma_keys()
    ensures
        "name"@ == key_name(),
        "version"@ == key_version(),
        "uuid"@ == key_uuid(),
        "checksum"@ == key_checksum(),
        "url"@ == key_url(),
        "dependencies"@ == key_dependencies(),
        "ip"@ == key_ip(),
{
    reveal_strlit("name");
    reveal_strlit("version");
    reveal_strlit("uuid");
    reveal_strlit("checksum");
    reveal_strlit("url");
    reveal_strlit("dependencies");
    reveal_strlit("ip");
    assert("name"@ =~= key_name());
    assert("version"@ =~= key_version());
    assert("uuid"@ =~= key_uuid());
    assert("checksum"@ =~= key_checksum());
    assert("url"@ =~= key_url());
    assert("dependencies"@ =~= key_dependencies());
    assert("ip"@ =~= key_ip());
}

/// The keys differ from each other.
proof fn lemma_keys_differ()
    ensures
        key_name() != key_version(),
        key_name() != key_uuid(),
        key_name() != key_checksum(),
        key_name() != key_url(),
        key_name() != key_dependencies(),
        key_version() != key_uuid(),
        key_version() != key_checksum(),
        key_version() != key_url(),
        key_version() != key_dependencies(),
        key_version() != key_ip(),
        key_uuid() != key_checksum(),
        key_uuid() != key_url(),
        key_uuid() != key_dependencies(),
        key_checksum() != key_url(),
        key_checksum() != key_dependencies(),
        key_url() != key_dependencies(),
{
    assert(key_name()[0] == 'n' && key_version()[0] == 'v' && key_uuid()[0] == 'u'
        && key_checksum()[0] == 'c' && key_url()[0] == 'u' && key_dependencies()[0] == 'd'
        && key_ip()[0] == 'i');
    assert(key_uuid().len() == 4 && key_url().len() == 3);
}

/// The dependencies as a document writes them: one text `name:version`
/// each.
pub open spec fn spec_nodes(specs: Seq<IpSpecView>) -> Seq<NodeView> {
    Seq::new(specs.len(), |i: int| NodeView::Text(ip_spec_text(specs[i])))
}

/// The entry of the checksum, if there is one.
pub open spec fn checksum_field(e: LockEntryView) -> Seq<(Seq<char>, NodeView)> {
    match e.checksum {
        Some(c) => seq![(key_checksum(), NodeView::Text(hex_text(c)))],
        None => seq![],
    }
}

/// The entry of the source, if there is one.
pub open spec fn url_field(e: LockEntryView) -> Seq<(Seq<char>, NodeView)> {
    match e.source {
        Some(u) => seq![(key_url(), NodeView::Text(u))],
        None => seq![],
    }
}

/// The table that a document holds for the entry `e`: name, version, uuid,
/// the checksum and the url if there are any, and the dependencies.
pub open spec fn entry_fields(e: LockEntryView) -> Seq<(Seq<char>, NodeView)> {
    seq![
        (key_name(), NodeView::Text(e.name)),
        (key_version(), NodeView::Text(version_text(e.version))),
        (key_uuid(), NodeView::Text(uuid_text(e.uuid))),
    ] + checksum_field(e) + url_field(e) + seq![
        (key_dependencies(), NodeView::List(spec_nodes(e.dependencies))),
    ]
}

/// The node that a document holds for the entry `e`.
pub open spec fn entry_node(e: LockEntryView) -> NodeView {
    NodeView::Table(entry_fields(e))
}

/// The nodes that a document holds for `entries`.
pub open spec fn entry_nodes(entries: Seq<LockEntryView>) -> Seq<NodeView> {
    Seq::new(entries.len(), |i: int| entry_node(entries[i]))
}

/// The document that holds the lockfile `l`: the format number, and the
/// list `ip` of the entries' tables.
pub open spec fn lockfile_node(l: LockFileView) -> NodeView {
    NodeView::Table(
        seq![
            (key_version(), NodeView::Integer(l.version as int)),
            (key_ip(), NodeView::List(entry_nodes(l.entries))),
        ],
    )
}

/// The text under `key`, if the table holds one.
pub open spec fn text_at(fields: Seq<(Seq<char>, NodeView)>, key: Seq<char>) -> Option<Seq<char>> {
    match table_get(fields, key) {
        Some(NodeView::Text(s)) => Some(s),
        _ => None,
    }
}

/// Every item is a text that names a package and a version.
pub open spec fn are_specs(items: Seq<NodeView>) -> bool {
    forall|i: int|
        0 <= i < items.len() ==> (#[trigger] items[i]) is Text && ip_spec_of(items[i]->Text_0) is Some
}

/// The packages and versions that the items name.
pub open spec fn specs_of(items: Seq<NodeView>) -> Seq<IpSpecView> {
    Seq::new(items.len(), |i: int| ip_spec_of(items[i]->Text_0)->0)
}

/// The checksum that a table gives: none where the key is missing, and an
/// error where what stands under it is no checksum.
pub open spec fn checksum_at(fields: Seq<(Seq<char>, NodeView)>) -> Option<Option<Seq<u8>>> {
    match table_get(fields, key_checksum()) {
        None => Some(None),
        Some(NodeView::Text(s)) => match checksum_of(s) {
            Some(c) => Some(Some(c)),
            None => None,
        },
        Some(_) => None,
    }
}

/// The dependencies that a table gives.
pub open spec fn dependencies_at(fields: Seq<(Seq<char>, NodeView)>) -> Option<Seq<IpSpecView>> {
    match table_get(fields, key_dependencies()) {
        Some(NodeView::List(items)) => if are_specs(items) {
            Some(specs_of(items))
        } else {
            None
        },
        _ => None,
    }
}

/// The entry that the node `n` holds: a table with a name, a version, an
/// identifier and dependencies, and maybe a checksum and a url. Other keys
/// are passed over.
pub open spec fn entry_of(n: NodeView) -> Option<LockEntryView> {
    match n {
        NodeView::Table(fields) => {
            let name = text_at(fields, key_name());
            let version = text_at(fields, key_version());
            let uuid = text_at(fields, key_uuid());
            let checksum = checksum_at(fields);
            let dependencies = dependencies_at(fields);
            if name is Some && is_part_name(name->0) && version is Some && version_of(version->0) is Some
                && uuid is Some && uuid_of(uuid->0) is Some && checksum is Some
                && dependencies is Some {
                Some(
                    LockEntryView {
                        name: name->0,
                        version: version_of(version->0)->0,
                        uuid: uuid_of(uuid->0)->0,
                        checksum: checksum->0,
                        source: text_at(fields, key_url()),
                        dependencies: dependencies->0,
                    },
                )
            } else {
                None
            }
        },
        _ => None,
    }
}

/// Every item holds an entry.
pub open spec fn are_entries(items: Seq<NodeView>) -> bool {
    forall|i: int| 0 <= i < items.len() ==> entry_of(#[trigger] items[i]) is Some
}

/// The entries that the items hold.
pub open spec fn entries_of(items: Seq<NodeView>) -> Seq<LockEntryView> {
    Seq::new(items.len(), |i: int| entry_of(items[i])->0)
}

/// The format number that the document gives: an integer from 0 to 2^32 - 1
/// under `version`.
pub open spec fn lock_number_of(n: NodeView) -> Option<nat> {
    match n {
        NodeView::Table(root) => match table_get(root, key_version()) {
            Some(NodeView::Integer(v)) => if 0 <= v <= u32::MAX {
                Some(v as nat)
            } else {
                None
            },
            _ => None,
        },
        _ => None,
    }
}

/// The lockfile that the document `n` holds: a table with a format number
/// under `version` and a list of entries under `ip`.
pub open spec fn lockfile_of(n: NodeView) -> Option<LockFileView> {
    match n {
        NodeView::Table(root) => match (lock_number_of(n), table_get(root, key_ip())) {
            (Some(version), Some(NodeView::List(items))) => if are_entries(items) {
                Some(LockFileView { version, entries: entries_of(items) })
            } else {
                None
            },
            _ => None,
        },
        _ => None,
    }
}

/// The document of an entry holds that entry.
pub proof fn lemma_entry_round_trip(e: LockEntryView)
    requires
        entry_wf(e),
    ensures
        entry_of(entry_node(e)) == Some(e),
{
    lemma_keys_differ();
    let fields = entry_fields(e);
    let c: int = if e.checksum is Some { 1 } else { 0 };
    let u: int = if e.source is Some { 1 } else { 0 };
    assert(fields.len() == 4 + c + u);
    assert(fields[0] == (key_name(), NodeView::Text(e.name)));
    assert(fields[1] == (key_version(), NodeView::Text(version_text(e.version))));
    assert(fields[2] == (key_uuid(), NodeView::Text(uuid_text(e.uuid))));
    if e.checksum is Some {
        assert(fields[3] == (key_checksum(), NodeView::Text(hex_text(e.checksum->0))));
    }
    if e.source is Some {
        assert(fields[3 + c] == (key_url(), NodeView::Text(e.source->0)));
    }
    assert(fields[3 + c + u] == (key_dependencies(), NodeView::List(spec_nodes(e.dependencies))));
    lemma_first_key(fields, key_name(), 0, 0);
    lemma_first_key(fields, key_version(), 0, 1);
    lemma_first_key(fields, key_uuid(), 0, 2);
    if e.checksum is Some {
        lemma_first_key(fields, key_checksum(), 0, 3);
        lemma_checksum_round_trip(e.checksum->0);
    } else {
        lemma_first_key(fields, key_checksum(), 0, fields.len() as int);
    }
    if e.source is Some {
        lemma_first_key(fields, key_url(), 0, 3 + c);
    } else {
        lemma_first_key(fields, key_url(), 0, fields.len() as int);
    }
    lemma_first_key(fields, key_dependencies(), 0, 3 + c + u);
    lemma_version_round_trip(e.version);
    lemma_uuid_round_trip(e.uuid);
    let items = spec_nodes(e.dependencies);
    assert forall|i: int| 0 <= i < items.len() implies (#[trigger] items[i]) is Text && ip_spec_of(
        items[i]->Text_0,
    ) == Some(e.dependencies[i]) by {
        lemma_ip_spec_round_trip(e.dependencies[i]);
    }
    assert(specs_of(items) =~= e.dependencies);
    assert(text_at(fields, key_url()) == e.source);
}

/// Reading back what was written: the document of a lockfile holds that
/// lockfile.
pub proof fn lemma_lockfile_round_trip(l: LockFileView)
    requires
        file_wf(l),
    ensures
        lockfile_of(lockfile_node(l)) == Some(l),
{
    lemma_keys_differ();
    let root = lockfile_node(l)->Table_0;
    assert(root[0] == (key_version(), NodeView::Integer(l.version as int)));
    assert(root[1] == (key_ip(), NodeView::List(entry_nodes(l.entries))));
    lemma_first_key(root, key_version(), 0, 0);
    lemma_first_key(root, key_ip(), 0, 1);
    let items = entry_nodes(l.entries);
    assert forall|i: int| 0 <= i < items.len() implies entry_of(#[trigger] items[i]) == Some(
        l.entries[i],
    ) by {
        lemma_entry_round_trip(l.entries[i]);
    }
    assert(entries_of(items) =~= l.entries);
}

/// The place of a key in the order in which the table of an entry holds
/// its keys.
pub open spec fn key_rank(key: Seq<char>) -> int {
    if key == key_name() {
        0
    } else if key == key_version() {
        1
    } else if key == key_uuid() {
        2
    } else if key == key_checksum() {
        3
    } else if key == key_url() {
        4
    } else if key == key_dependencies() {
        5
    } else {
        6
    }
}

/// What reading the text `text` as a lockfile gives: the lockfile that the
/// document of the text holds.
pub open spec fn lockfile_in(text: Seq<char>) -> Option<LockFileView> {
    match toml_document(text) {
        Some(document) => lockfile_of(document),
        None => None,
    }
}

/// What writing the lockfile `l` as text gives: the text of its document.
pub open spec fn lockfile_text(l: LockFileView) -> Option<Seq<char>> {
    toml_text(lockfile_node(l))
}

/// Reading back the text that was written: where the `toml` crate reads
/// from the text of a lockfile's document that document again, the text
/// holds the lockfile.
pub proof fn lemma_text_round_trip(l: LockFileView, text: Seq<char>)
    requires
        file_wf(l),
        lockfile_text(l) == Some(text),
        toml_document(text) == Some(lockfile_node(l)),
    ensures
        lockfile_in(text) == Some(l),
{
    lemma_lockfile_round_trip(l);
}

/// The document of a lockfile holds texts, numbers, lists and tables only,
/// and no key twice in a table.
pub proof fn lemma_lockfile_renderable(l: LockFileView)
    ensures
        is_renderable(lockfile_node(l)),
{
    lemma_keys_differ();
    let root = lockfile_node(l)->Table_0;
    assert(root[0].0 == key_version() && root[1].0 == key_ip());
    assert(distinct_keys(root));
    let items = entry_nodes(l.entries);
    assert forall|i: int| 0 <= i < items.len() implies is_renderable(#[trigger] items[i]) by {
        lemma_entry_renderable(l.entries[i]);
    }
    assert(is_renderable(root[1].1));
    assert forall|i: int| 0 <= i < root.len() implies is_renderable((#[trigger] root[i]).1) by {
        if i == 0 {
        } else {
            assert(root[i] == root[1]);
        }
    }
}

proof fn lemma_entry_renderable(e: LockEntryView)
    ensures
        is_renderable(entry_node(e)),
{
    let fields = entry_fields(e);
    let deps = spec_nodes(e.dependencies);
    assert forall|i: int| 0 <= i < deps.len() implies is_renderable(#[trigger] deps[i]) by {}
    assert(is_renderable(NodeView::List(deps)));
    let c: int = if e.checksum is Some { 1 } else { 0 };
    let u: int = if e.source is Some { 1 } else { 0 };
    lemma_keys_differ();
    assert forall|i: int| 0 <= i < fields.len() implies is_renderable((#[trigger] fields[i]).1)
        && key_rank(fields[i].0) >= i && key_rank(fields[i].0) <= 5 && (i + 1 < fields.len()
        ==> key_rank(fields[i].0) < key_rank(fields[i + 1].0)) by {
        assert(fields[0] == (key_name(), NodeView::Text(e.name)));
        assert(fields[1] == (key_version(), NodeView::Text(version_text(e.version))));
        assert(fields[2] == (key_uuid(), NodeView::Text(uuid_text(e.uuid))));
        assert(fields[3 + c + u] == (key_dependencies(), NodeView::List(deps)));
        if c == 1 {
            assert(fields[3] == (key_checksum(), NodeView::Text(hex_text(e.checksum->0))));
        }
        if u == 1 {
            assert(fields[3 + c] == (key_url(), NodeView::Text(e.source->0)));
        }
    }
    assert forall|i: int, j: int|
        0 <= i < fields.len() && 0 <= j < fields.len() && i != j implies (#[trigger] fields[i]).0
        != (#[trigger] fields[j]).0 by {
        if i < j {
            lemma_rank_climbs(fields, i, j);
        } else {
            lemma_rank_climbs(fields, j, i);
        }
    }
}

/// Where the ranks of the keys grow from each entry to the next, they grow
/// from each entry to every later one.
proof fn lemma_rank_climbs(fields: Seq<(Seq<char>, NodeView)>, i: int, j: int)
    requires
        0 <= i < j < fields.len(),
        forall|k: int|
            0 <= k && k + 1 < fields.len() ==> key_rank((#[trigger] fields[k]).0) < key_rank(
                fields[k + 1].0,
            ),
    ensures
        key_rank(fields[i].0) < key_rank(fields[j].0),
    decreases j - i,
{
    if i + 1 < j {
        lemma_rank_climbs(fields, i + 1, j);
    }
}

/// The text under `key`, if `fields` holds one there.
fn text_under<'a>(fields: &'a Vec<(String, Node)>, key: &str) -> (r: Option<&'a String>)
    ensures
        match r {
            Some(s) => text_at(entries_view(fields@), key@) == Some(s@),
            None => text_at(entries_view(fields@), key@) is None,
        },
{
    match lookup(fields, key) {
        Some(node) => node.as_text(),
        None => None,
    }
}

/// One package of a lockfile.
#[derive(Debug, PartialEq, Eq)]
pub struct LockEntry {
    name: Id,
    version: Version,
    uuid: Uuid,
    checksum: Option<Sha256Hash>,
    source: Option<Source>,
    dependencies: Vec<IpSpec>,
}

/// The key that `spec` is sorted by.
pub open spec fn key_of(spec: IpSpecView) -> KeyView {
    KeyView { name: spec.name, version: spec.version }
}

/// The keys that `specs` are sorted by.
pub open spec fn keys_of(specs: Seq<IpSpecView>) -> Seq<KeyView> {
    Seq::new(specs.len(), |i: int| key_of(specs[i]))
}

/// `sorted` holds the items of `specs` in ascending order of name and
/// version; specs that are the same keep their order.
pub open spec fn is_sorted_specs(specs: Seq<IpSpecView>, sorted: Seq<IpSpecView>) -> bool {
    exists|p: Seq<int>| #[trigger]
        is_stable_sort(keys_of(specs), p) && sorted == Seq::new(
            specs.len(),
            |i: int| specs[p[i]],
        )
}

/// The entry that a lockfile holds for the package `ip`: the project's own
/// entry has no checksum, and dependencies are sorted by name and version.
pub open spec fn is_entry_for(ip: IpView, is_root: bool, e: LockEntryView) -> bool {
    &&& e.name == ip.name
    &&& e.version == ip.version
    &&& e.uuid == ip.uuid
    &&& e.checksum == (if is_root {
        None
    } else {
        Some(ip.checksum)
    })
    &&& e.source == ip.source
    &&& is_sorted_specs(ip.dependencies, e.dependencies)
}

/// The specs of `specs` in ascending order of name and version.
pub fn sort_specs(specs: &Vec<IpSpec>) -> (sorted: Vec<IpSpec>)
    ensures
        is_sorted_specs(specs_view(specs@), specs_view(sorted@)),
{
    let mut keys: Vec<SortKey> = Vec::new();
    let mut i: usize = 0;
    while i < specs.len()
        invariant
            i <= specs.len(),
            keys.len() == i,
            forall|j: int| 0 <= j < i ==> keys[j]@ == key_of(specs[j]@),
        decreases specs.len() - i,
    {
        keys.push(SortKey { name: specs[i].get_name().to_chars(), version: *specs[i].get_version() });
        i += 1;
    }
    assert(keys_view(keys@) =~= keys_of(specs_view(specs@)));
    let p = stable_sort(&keys);
    let mut sorted: Vec<IpSpec> = Vec::new();
    let mut k: usize = 0;
    while k < p.len()
        invariant
            k <= p.len(),
            p.len() == specs.len(),
            sorted.len() == k,
            is_stable_sort(keys_of(specs_view(specs@)), ints(p@)),
            forall|j: int| 0 <= j < k ==> sorted[j]@ == specs[p[j] as int]@,
        decreases p.len() - k,
    {
        assert(0 <= ints(p@)[k as int] < specs.len());
        sorted.push(specs[p[k]].clone());
        k += 1;
    }
    proof {
        let q = ints(p@);
        let s = specs_view(specs@);
        assert(specs_view(sorted@) =~= Seq::new(s.len(), |i: int| s[q[i]])) by {
            assert forall|j: int| 0 <= j < sorted.len() implies specs_view(sorted@)[j] == s[q[j]] by {
                assert(0 <= q[j] < specs.len());
            }
        }
        assert(is_stable_sort(keys_of(s), q));
    }
    sorted
}

impl LockEntry {
    /// The mathematical value.
    pub closed spec fn view(&self) -> LockEntryView {
        LockEntryView {
            name: self.name@,
            version: self.version,
            uuid: self.uuid@,
            checksum: match self.checksum {
                Some(c) => Some(c@),
                None => None,
            },
            source: match self.source {
                Some(s) => Some(s@),
                None => None,
            },
            dependencies: specs_view(self.dependencies@),
        }
    }

    #[verifier::type_invariant]
    spec fn well_formed(&self) -> bool {
        entry_wf(self.view())
    }

    /// The entry with the given parts.
    pub fn new(
        name: Id,
        version: Version,
        uuid: Uuid,
        checksum: Option<Sha256Hash>,
        source: Option<Source>,
        dependencies: Vec<IpSpec>,
    ) -> (e: LockEntry)
        ensures
            e@ == (LockEntryView {
                name: name@,
                version,
                uuid: uuid@,
                checksum: match checksum {
                    Some(c) => Some(c@),
                    None => None,
                },
                source: match source {
                    Some(s) => Some(s@),
                    None => None,
                },
                dependencies: specs_view(dependencies@),
            }),
            entry_wf(e@),
    {
        let _ = name.as_str();
        let _ = uuid.as_bytes();
        match &checksum {
            Some(c) => {
                let _ = c.as_bytes();
            },
            None => {},
        }
        note_names(&dependencies);
        LockEntry { name, version, uuid, checksum, source, dependencies }
    }

    /// The entry for the package `ip.0`; `ip.1` says whether it is the
    /// project itself, whose entry has no checksum.
    pub fn from(ip: (&Ip, bool)) -> (e: LockEntry)
        ensures
            is_entry_for(ip.0@, ip.1, e@),
            entry_wf(e@),
    {
        let is_root = ip.1;
        let ip = ip.0;
        let checksum = if is_root {
            None
        } else {
            Some(ip.get_checksum().clone())
        };
        let source = match ip.get_source() {
            Some(s) => Some(s.clone()),
            None => None,
        };
        let dependencies = if ip.get_deps_list().len() == 0 {
            let empty: Vec<IpSpec> = Vec::new();
            proof {
                let s = ip@.dependencies;
                let p = Seq::<int>::empty();
                assert(is_stable_sort(keys_of(s), p));
                assert(specs_view(empty@) =~= Seq::new(s.len(), |i: int| s[p[i]]));
            }
            empty
        } else {
            sort_specs(ip.get_deps_list())
        };
        LockEntry::new(
            ip.get_name().clone(),
            *ip.get_version(),
            ip.get_uuid().clone(),
            checksum,
            source,
            dependencies,
        )
    }

    /// Whether `self` and `other` have the same name, version, source and
    /// dependencies. Checksums are not compared: the project's own entry
    /// has none.
    pub fn matches_target(&self, other: &LockEntry) -> (same: bool)
        ensures
            same == (self@.name == other@.name && self@.version == other@.version && self@.source
                == other@.source && self@.dependencies == other@.dependencies),
    {
        let same_source = match (&self.source, &other.source) {
            (Some(a), Some(b)) => a.equals(b),
            (None, None) => true,
            _ => false,
        };
        self.name.equals(&other.name) && self.version == other.version && same_source && specs_eq(
            &self.dependencies,
            &other.dependencies,
        )
    }

    /// The direct dependencies.
    pub fn get_deps(&self) -> (deps: &Vec<IpSpec>)
        ensures
            specs_view(deps@) == self@.dependencies,
    {
        &self.dependencies
    }

    /// The checksum, which the project's own entry lacks.
    pub fn get_sum(&self) -> (sum: Option<&Sha256Hash>)
        ensures
            match sum {
                Some(c) => self@.checksum == Some(c@),
                None => self@.checksum is None,
            },
    {
        self.checksum.as_ref()
    }

    /// The identifier.
    pub fn get_uuid(&self) -> (uuid: &Uuid)
        ensures
            uuid@ == self@.uuid,
    {
        &self.uuid
    }

    /// Where the package can be fetched from, if anywhere.
    pub fn get_source(&self) -> (source: Option<&Source>)
        ensures
            match source {
                Some(s) => self@.source == Some(s@),
                None => self@.source is None,
            },
    {
        self.source.as_ref()
    }

    /// The name.
    pub fn get_name(&self) -> (name: &Id)
        ensures
            name@ == self@.name,
            entry_wf(self@),
    {
        proof {
            use_type_invariant(self);
        }
        &self.name
    }

    /// The version.
    pub fn get_version(&self) -> (version: &Version)
        ensures
            *version == self@.version,
    {
        &self.version
    }

    /// The key of the cache slot that holds this entry's package.
    pub fn to_cache_slot_key(&self) -> (slot: CacheSlot)
        requires
            self@.checksum is Some,
        ensures
            slot@ == (CacheSlotView {
                name: self@.name,
                version: self@.version,
                checksum: self@.checksum->0,
            }),
    {
        match &self.checksum {
            Some(sum) => CacheSlot::new(&self.name, &self.version, sum),
            None => CacheSlot::new(&self.name, &self.version, &Sha256Hash::new()),
        }
    }

    /// The package and version that this entry pins.
    pub fn to_ip_spec(&self) -> (spec: IpSpec)
        ensures
            spec@ == (IpSpecView { name: self@.name, version: self@.version }),
    {
        IpSpec::new(self.name.clone(), self.version)
    }

    /// The table that a document holds for this entry.
    pub fn to_node(&self) -> (node: Node)
        ensures
            node@ == entry_node(self@),
            entry_wf(self@),
    {
        proof {
            use_type_invariant(self);
            lemma_keys();
        }
        let mut fields: Vec<(String, Node)> = Vec::new();
        fields.push((String::from_str("name"), Node::text(self.name.to_string())));
        fields.push((String::from_str("version"), Node::text(self.version.to_string())));
        fields.push((String::from_str("uuid"), Node::text(self.uuid.to_string())));
        match &self.checksum {
            Some(sum) => {
                fields.push((String::from_str("checksum"), Node::text(sum.to_string())));
            },
            None => {},
        }
        match &self.source {
            Some(source) => {
                fields.push((String::from_str("url"), Node::text(source.get_url().clone())));
            },
            None => {},
        }
        let mut items: Vec<Node> = Vec::new();
        let mut i: usize = 0;
        while i < self.dependencies.len()
            invariant
                i <= self.dependencies.len(),
                items.len() == i,
                forall|j: int|
                    0 <= j < i ==> (#[trigger] items[j])@ == NodeView::Text(
                        ip_spec_text(self.dependencies[j]@),
                    ),
            decreases self.dependencies.len() - i,
        {
            items.push(Node::text(self.dependencies[i].to_string()));
            i += 1;
        }
        proof {
            assert(items_view(items@) =~= spec_nodes(self@.dependencies));
        }
        fields.push((String::from_str("dependencies"), Node::list(items)));
        proof {
            assert(entries_view(fields@) =~= entry_fields(self@));
        }
        Node::table(fields)
    }

    /// Reads the entry that `node` holds; `None` when it holds none.
    pub fn from_node(node: &Node) -> (r: Option<LockEntry>)
        ensures
            match r {
                Some(e) => entry_of(node@) == Some(e@) && entry_wf(e@),
                None => entry_of(node@) is None,
            },
    {
        proof {
            lemma_keys();
        }
        let fields = match node.as_table() {
            Some(fields) => fields,
            None => {
                return None;
            },
        };
        let name = match text_under(fields, "name") {
            Some(s) => match PkgPart::from_str(s.as_str()) {
                Some(name) => name,
                None => {
                    return None;
                },
            },
            None => {
                return None;
            },
        };
        let version = match text_under(fields, "version") {
            Some(s) => match Version::from_str(s.as_str()) {
                Some(version) => version,
                None => {
                    return None;
                },
            },
            None => {
                return None;
            },
        };
        let uuid = match text_under(fields, "uuid") {
            Some(s) => match Uuid::from_str(s.as_str()) {
                Some(uuid) => uuid,
                None => {
                    return None;
                },
            },
            None => {
                return None;
            },
        };
        let checksum = match lookup(fields, "checksum") {
            None => None,
            Some(found) => match found.as_text() {
                Some(s) => match Sha256Hash::from_str(s.as_str()) {
                    Some(sum) => Some(sum),
                    None => {
                        return None;
                    },
                },
                None => {
                    return None;
                },
            },
        };
        let source = match text_under(fields, "url") {
            Some(s) => Some(Source::new(s.clone())),
            None => None,
        };
        let items = match lookup(fields, "dependencies") {
            Some(found) => match found.as_list() {
                Some(items) => items,
                None => {
                    return None;
                },
            },
            None => {
                return None;
            },
        };
        let mut dependencies: Vec<IpSpec> = Vec::new();
        let mut i: usize = 0;
        while i < items.len()
            invariant
                i <= items.len(),
                dependencies.len() == i,
                !are_specs(items_view(items@)) ==> entry_of(node@) is None,
                forall|j: int|
                    0 <= j < i ==> (#[trigger] items_view(items@)[j]) is Text && ip_spec_of(
                        items_view(items@)[j]->Text_0,
                    ) == Some(dependencies[j]@),
            decreases items.len() - i,
        {
            let spec = match items[i].as_text() {
                Some(s) => IpSpec::from_str(s.as_str()),
                None => None,
            };
            match spec {
                Some(spec) => {
                    dependencies.push(spec);
                },
                None => {
                    proof {
                        let it = items_view(items@)[i as int];
                        assert(!(it is Text && ip_spec_of(it->Text_0) is Some));
                        assert(!are_specs(items_view(items@)));
                    }
                    return None;
                },
            }
            i += 1;
        }
        proof {
            assert(are_specs(items_view(items@)));
            assert(specs_view(dependencies@) =~= specs_of(items_view(items@)));
        }
        Some(LockEntry::new(name, version, uuid, checksum, source, dependencies))
    }
}

impl Clone for LockEntry {
    fn clone(&self) -> (r: Self)
        ensures
            r@ == self@,
    {
        proof {
            use_type_invariant(self);
        }
        LockEntry {
            name: self.name.clone(),
            version: self.version,
            uuid: self.uuid.clone(),
            checksum: match &self.checksum {
                Some(c) => Some(c.clone()),
                None => None,
            },
            source: match &self.source {
                Some(s) => Some(s.clone()),
                None => None,
            },
            dependencies: copy_specs(&self.dependencies),
        }
    }
}

/// The values of `entries`.
pub open spec fn lock_entries_view(entries: Seq<LockEntry>) -> Seq<LockEntryView> {
    Seq::new(entries.len(), |i: int| entries[i]@)
}

/// `i` is the first place of `entries` with the name `name` and the version
/// `version`.
pub open spec fn is_first_match(
    entries: Seq<LockEntryView>,
    name: Seq<char>,
    version: Version,
    i: int,
) -> bool {
    &&& 0 <= i < entries.len()
    &&& entries[i].name == name
    &&& entries[i].version == version
    &&& forall|j: int|
        0 <= j < i ==> !((#[trigger] entries[j]).name == name && entries[j].version == version)
}

/// One of the first `upto` entries has the name `name` and the version
/// `version`.
pub open spec fn is_listed(
    entries: Seq<LockEntryView>,
    name: Seq<char>,
    version: Version,
    upto: int,
) -> bool {
    exists|j: int|
        0 <= j < upto && j < entries.len() && (#[trigger] entries[j]).name == name
            && entries[j].version == version
}

/// The lockfile: a format number and the entries.
#[derive(Debug, PartialEq, Eq)]
pub struct LockFile {
    version: u32,
    ip: Vec<LockEntry>,
}

/// The key that the package `ip` is sorted by.
pub open spec fn ip_key(ip: IpView) -> KeyView {
    KeyView { name: ip.name, version: ip.version }
}

/// The values of the packages of a build list.
pub open spec fn ips_view(ips: Seq<&Ip>) -> Seq<IpView> {
    Seq::new(ips.len(), |i: int| ips[i]@)
}

/// The keys that the packages of a build list are sorted by.
pub open spec fn ip_keys(ips: Seq<IpView>) -> Seq<KeyView> {
    Seq::new(ips.len(), |i: int| ip_key(ips[i]))
}

impl LockFile {
    /// The mathematical value.
    pub closed spec fn view(&self) -> LockFileView {
        LockFileView { version: self.version as nat, entries: lock_entries_view(self.ip@) }
    }

    #[verifier::type_invariant]
    spec fn well_formed(&self) -> bool {
        file_wf(self.view())
    }

    /// The lockfile without entries.
    pub fn new() -> (l: LockFile)
        ensures
            l@ == (LockFileView { version: 1, entries: Seq::empty() }),
    {
        let l = LockFile { version: LOCK_VERSION, ip: Vec::new() };
        assert(l@.entries =~= Seq::empty());
        l
    }

    /// The entries.
    pub fn unwrap(self) -> (entries: Vec<LockEntry>)
        ensures
            lock_entries_view(entries@) == self@.entries,
    {
        self.ip
    }

    /// The lockfile of the current format with the entries `reqs`.
    pub fn wrap(reqs: Vec<LockEntry>) -> (l: LockFile)
        ensures
            l@ == (LockFileView { version: 1, entries: lock_entries_view(reqs@) }),
    {
        let mut i: usize = 0;
        while i < reqs.len()
            invariant
                i <= reqs.len(),
                forall|j: int| 0 <= j < i ==> entry_wf(#[trigger] lock_entries_view(reqs@)[j]),
            decreases reqs.len() - i,
        {
            let _ = reqs[i].get_name();
            i += 1;
        }
        LockFile { version: LOCK_VERSION, ip: reqs }
    }

    /// Whether the lockfile has no entries.
    pub fn is_empty(&self) -> (empty: bool)
        ensures
            empty == (self@.entries.len() == 0),
    {
        self.ip.len() == 0
    }

    /// The entries.
    pub fn inner(&self) -> (entries: &Vec<LockEntry>)
        ensures
            lock_entries_view(entries@) == self@.entries,
            file_wf(self@),
    {
        proof {
            use_type_invariant(self);
        }
        &self.ip
    }

    /// The first entry with the name `target` and the version `version`.
    pub fn get(&self, target: &PkgPart, version: &Version) -> (found: Option<&LockEntry>)
        ensures
            match found {
                Some(e) => exists|i: int|
                    #[trigger] is_first_match(self@.entries, target@, *version, i)
                        && self@.entries[i] == e@,
                None => forall|i: int|
                    0 <= i < self@.entries.len() ==> !((#[trigger] self@.entries[i]).name == target@
                        && self@.entries[i].version == *version),
            },
    {
        let mut i: usize = 0;
        while i < self.ip.len()
            invariant
                i <= self.ip.len(),
                forall|j: int|
                    0 <= j < i ==> !((#[trigger] self@.entries[j]).name == target@
                        && self@.entries[j].version == *version),
            decreases self.ip.len() - i,
        {
            let e = &self.ip[i];
            if e.get_name().equals(target) && *e.get_version() == *version {
                assert(is_first_match(self@.entries, target@, *version, i as int));
                return Some(e);
            }
            i += 1;
        }
        None
    }

    /// The entry with the name `target` and the highest version that the
    /// request `version` accepts; of several such entries the first.
    pub fn get_highest(&self, target: &PkgPart, version: &AnyVersion) -> (found: Option<&LockEntry>)
        ensures
            match found {
                Some(e) => accepts(*version, e@.version) && (exists|i: int|
                    #[trigger] is_first_match(self@.entries, target@, e@.version, i)
                        && self@.entries[i] == e@) && (forall|i: int|
                    0 <= i < self@.entries.len() && (#[trigger] self@.entries[i]).name == target@
                        && accepts(*version, self@.entries[i].version) ==> version_le(
                        self@.entries[i].version,
                        e@.version,
                    )),
                None => forall|i: int|
                    0 <= i < self@.entries.len() ==> !((#[trigger] self@.entries[i]).name == target@
                        && accepts(*version, self@.entries[i].version)),
            },
    {
        let mut space: Vec<Version> = Vec::new();
        let mut i: usize = 0;
        while i < self.ip.len()
            invariant
                i <= self.ip.len(),
                forall|j: int|
                    0 <= j < i && (#[trigger] self@.entries[j]).name == target@ ==> space@.contains(
                        self@.entries[j].version,
                    ),
                forall|k: int|
                    0 <= k < space.len() ==> is_listed(
                        self@.entries,
                        target@,
                        #[trigger] space[k],
                        i as int,
                    ),
            decreases self.ip.len() - i,
        {
            let e = &self.ip[i];
            if e.get_name().equals(target) {
                let ghost before = space@;
                space.push(*e.get_version());
                proof {
                    assert forall|j: int|
                        0 <= j < i + 1 && (#[trigger] self@.entries[j]).name
                            == target@ implies space@.contains(self@.entries[j].version) by {
                        if j < i {
                            let k = choose|k: int|
                                0 <= k < before.len() && before[k] == self@.entries[j].version;
                            assert(space@[k] == self@.entries[j].version);
                        } else {
                            assert(space@[space.len() - 1] == self@.entries[j].version);
                        }
                    }
                    assert forall|k: int| 0 <= k < space.len() implies is_listed(
                        self@.entries,
                        target@,
                        #[trigger] space[k],
                        i + 1,
                    ) by {
                        if k < before.len() {
                            assert(is_listed(self@.entries, target@, before[k], i as int));
                            let j = choose|j: int|
                                0 <= j < i && j < self@.entries.len() && (
                                #[trigger] self@.entries[j]).name == target@
                                    && self@.entries[j].version == before[k];
                            assert(self@.entries[j].version == space[k]);
                        } else {
                            assert(self@.entries[i as int].version == space[k]);
                        }
                    }
                }
            }
            i += 1;
        }
        match get_target_version(version, &space) {
            Ok(v) => {
                proof {
                    assert forall|i: int|
                        0 <= i < self@.entries.len() && (#[trigger] self@.entries[i]).name == target@
                            && accepts(*version, self@.entries[i].version) implies version_le(
                        self@.entries[i].version,
                        v,
                    ) by {
                        let k2 = choose|k2: int|
                            0 <= k2 < space.len() && space[k2] == self@.entries[i].version;
                        assert(accepts(*version, space[k2]));
                    }
                }
                let found = self.get(target, &v);
                proof {
                    if found is None {
                        let k = choose|k: int| 0 <= k < space.len() && space[k] == v;
                        assert(is_listed(self@.entries, target@, space[k], self.ip.len() as int));
                        let j = choose|j: int|
                            0 <= j < self.ip.len() && j < self@.entries.len() && (
                            #[trigger] self@.entries[j]).name == target@ && self@.entries[j].version
                                == space[k];
                        assert(self@.entries[j].name == target@);
                    }
                }
                found
            },
            Err(_) => {
                proof {
                    assert forall|i: int| 0 <= i < self@.entries.len() implies !((
                    #[trigger] self@.entries[i]).name == target@ && accepts(
                        *version,
                        self@.entries[i].version,
                    )) by {
                        if self@.entries[i].name == target@ && accepts(
                            *version,
                            self@.entries[i].version,
                        ) {
                            let k = choose|k: int|
                                0 <= k < space.len() && space[k] == self@.entries[i].version;
                            assert(accepts(*version, space[k]));
                        }
                    }
                }
                None
            },
        }
    }

    /// The lockfile for a build: `build_list` is put in ascending order of
    /// name and version, and the lockfile holds one entry for each of its
    /// packages in that order. The entry of a package that is `root` has no
    /// checksum.
    pub fn from_build_list(build_list: &mut Vec<&Ip>, root: &Ip) -> (l: LockFile)
        ensures
            l@.version == 1,
            l@.entries.len() == old(build_list).len(),
            final(build_list).len() == old(build_list).len(),
            exists|p: Seq<int>| #[trigger]
                is_stable_sort(ip_keys(ips_view(old(build_list)@)), p) && (forall|i: int|
                    0 <= i < p.len() ==> final(build_list)[i] == old(build_list)[p[i]]
                        && is_entry_for(
                        old(build_list)[p[i]]@,
                        old(build_list)[p[i]]@ == root@,
                        #[trigger] l@.entries[i],
                    )),
    {
        let ghost given = build_list@;
        let mut keys: Vec<SortKey> = Vec::new();
        let mut i: usize = 0;
        while i < build_list.len()
            invariant
                build_list@ == given,
                i <= build_list.len(),
                keys.len() == i,
                forall|j: int| 0 <= j < i ==> keys[j]@ == ip_key(given[j]@),
            decreases build_list.len() - i,
        {
            let ip = build_list[i];
            keys.push(SortKey { name: ip.get_name().to_chars(), version: *ip.get_version() });
            i += 1;
        }
        assert(keys_view(keys@) =~= ip_keys(ips_view(given)));
        let p = stable_sort(&keys);
        let ghost q = ints(p@);
        let mut sorted: Vec<&Ip> = Vec::new();
        let mut entries: Vec<LockEntry> = Vec::new();
        let mut k: usize = 0;
        while k < p.len()
            invariant
                build_list@ == given,
                q == ints(p@),
                k <= p.len(),
                p.len() == given.len(),
                sorted.len() == k,
                entries.len() == k,
                is_stable_sort(ip_keys(ips_view(given)), q),
                forall|j: int| 0 <= j < k ==> sorted[j] == given[q[j]],
                forall|j: int|
                    0 <= j < k ==> is_entry_for(
                        given[q[j]]@,
                        given[q[j]]@ == root@,
                        #[trigger] lock_entries_view(entries@)[j],
                    ) && entry_wf(lock_entries_view(entries@)[j]),
            decreases p.len() - k,
        {
            assert(0 <= q[k as int] < given.len());
            let ip = build_list[p[k]];
            let is_root = ip.equals(root);
            let entry = LockEntry::from((ip, is_root));
            let ghost before = lock_entries_view(entries@);
            sorted.push(ip);
            entries.push(entry);
            proof {
                assert forall|j: int| 0 <= j < k + 1 implies is_entry_for(
                    given[q[j]]@,
                    given[q[j]]@ == root@,
                    #[trigger] lock_entries_view(entries@)[j],
                ) && entry_wf(lock_entries_view(entries@)[j]) by {
                    if j < k {
                        assert(lock_entries_view(entries@)[j] == before[j]);
                    }
                }
            }
            k += 1;
        }
        *build_list = sorted;
        let l = LockFile { version: LOCK_VERSION, ip: entries };
        proof {
            assert(is_stable_sort(ip_keys(ips_view(given)), q) && (forall|i: int|
                0 <= i < q.len() ==> build_list[i] == given[q[i]] && is_entry_for(
                    given[q[i]]@,
                    given[q[i]]@ == root@,
                    #[trigger] l@.entries[i],
                )));
        }
        l
    }

    /// The document that holds this lockfile.
    pub fn to_document(&self) -> (document: Node)
        ensures
            document@ == lockfile_node(self@),
            file_wf(self@),
    {
        proof {
            use_type_invariant(self);
            lemma_keys();
        }
        let mut items: Vec<Node> = Vec::new();
        let mut i: usize = 0;
        while i < self.ip.len()
            invariant
                i <= self.ip.len(),
                items.len() == i,
                forall|j: int| 0 <= j < i ==> (#[trigger] items[j])@ == entry_node(self.ip[j]@),
            decreases self.ip.len() - i,
        {
            items.push(self.ip[i].to_node());
            i += 1;
        }
        proof {
            assert(items_view(items@) =~= entry_nodes(self@.entries));
        }
        let mut root: Vec<(String, Node)> = Vec::new();
        root.push((String::from_str("version"), Node::Integer(self.version as i64)));
        root.push((String::from_str("ip"), Node::list(items)));
        proof {
            assert(entries_view(root@) =~= lockfile_node(self@)->Table_0);
        }
        Node::table(root)
    }

    /// Reads the lockfile that `document` holds; `None` when it holds
    /// none.
    pub fn from_document(document: &Node) -> (r: Option<LockFile>)
        ensures
            match r {
                Some(l) => lockfile_of(document@) == Some(l@) && file_wf(l@),
                None => lockfile_of(document@) is None,
            },
    {
        proof {
            lemma_keys();
        }
        let version = match lock_number(document) {
            Some(version) => version,
            None => {
                return None;
            },
        };
        let root = match document.as_table() {
            Some(root) => root,
            None => {
                return None;
            },
        };
        let items = match lookup(root, "ip") {
            Some(found) => match found.as_list() {
                Some(items) => items,
                None => {
                    return None;
                },
            },
            None => {
                return None;
            },
        };
        let mut entries: Vec<LockEntry> = Vec::new();
        let mut i: usize = 0;
        while i < items.len()
            invariant
                i <= items.len(),
                entries.len() == i,
                !are_entries(items_view(items@)) ==> lockfile_of(document@) is None,
                forall|j: int|
                    0 <= j < i ==> entry_of(#[trigger] items_view(items@)[j]) == Some(entries[j]@)
                        && entry_wf(entries[j]@),
            decreases items.len() - i,
        {
            match LockEntry::from_node(&items[i]) {
                Some(entry) => {
                    entries.push(entry);
                },
                None => {
                    proof {
                        assert(entry_of(items_view(items@)[i as int]) is None);
                        assert(!are_entries(items_view(items@)));
                    }
                    return None;
                },
            }
            i += 1;
        }
        proof {
            assert(are_entries(items_view(items@)));
            assert(lock_entries_view(entries@) =~= entries_of(items_view(items@)));
        }
        Some(LockFile { version, ip: entries })
    }

    /// The lockfile as the text of a TOML document; `None` when the `toml`
    /// crate writes none for it.
    pub fn to_string(&self) -> (r: Option<String>)
        ensures
            match r {
                Some(text) => lockfile_text(self@) == Some(text@),
                None => lockfile_text(self@) is None,
            },
            file_wf(self@),
    {
        let document = self.to_document();
        proof {
            lemma_lockfile_renderable(self@);
        }
        render_document(&document)
    }

    /// Reads a lockfile from the text of a TOML document, whatever format
    /// number it gives.
    pub fn from_str(s: &str) -> (r: Result<LockFile, LockError>)
        ensures
            match r {
                Ok(l) => lockfile_in(s@) == Some(l@),
                Err(LockError::Syntax) => toml_document(s@) is None,
                Err(LockError::Malformed) => toml_document(s@) is Some && lockfile_in(s@) is None,
                Err(_) => false,
            },
    {
        match parse_document(s) {
            Some(document) => match LockFile::from_document(&document) {
                Some(l) => Ok(l),
                None => Err(LockError::Malformed),
            },
            None => Err(LockError::Syntax),
        }
    }
}

/// A lockfile in the format it was read in.
enum LockVersion {
    V1(LockFile),
}

impl LockVersion {
    /// The lockfile in the current format.
    fn into_latest(self) -> (l: LockFile)
        ensures
            self matches LockVersion::V1(file) && l == file,
    {
        match self {
            LockVersion::V1(file) => file,
        }
    }
}

/// The line that stands above the document in a lockfile on disk.
pub open spec fn lock_header() -> Seq<char> {
    "# This file is auto-generated by Orbit. DO NOT EDIT.\n"@
}

impl LockFile {
    /// The text of the file `Orbit.lock` for this lockfile: a comment line
    /// and the document. `None` when the `toml` crate writes no document.
    pub fn file_text(&self) -> (r: Option<String>)
        ensures
            match r {
                Some(text) => lockfile_text(self@) matches Some(t) && text@ == lock_header() + t,
                None => lockfile_text(self@) is None,
            },
    {
        match self.to_string() {
            Some(document) => {
                let header = String::from_str(
                    "# This file is auto-generated by Orbit. DO NOT EDIT.\n",
                );
                Some(header.concat(document.as_str()))
            },
            None => None,
        }
    }

    /// Reads the text of a file `Orbit.lock`. The format number decides how
    /// the rest is read: a text that is no TOML document, gives no format
    /// number or gives one that is not known is refused. A document with
    /// the known number that is no lockfile gives the empty lockfile and
    /// `true`, so that the caller can warn and the next build writes the
    /// file anew.
    pub fn read(contents: &str) -> (r: Result<(LockFile, bool), LockError>)
        ensures
            match toml_document(contents@) {
                None => r matches Err(LockError::Syntax),
                Some(d) => match lock_number_of(d) {
                    None => r matches Err(LockError::MissingVersion),
                    Some(n) => if n == 1 {
                        match lockfile_of(d) {
                            Some(l) => r matches Ok((file, false)) && file@ == l,
                            None => r matches Ok((file, true)) && file@.version == 1
                                && file@.entries.len() == 0,
                        }
                    } else {
                        r matches Err(LockError::UnsupportedLockVersion)
                    },
                },
            },
    {
        let document = match parse_document(contents) {
            Some(document) => document,
            None => {
                return Err(LockError::Syntax);
            },
        };
        let (data, warned) = match lock_number(&document) {
            None => {
                return Err(LockError::MissingVersion);
            },
            Some(n) => if n == LOCK_VERSION {
                match LockFile::from_document(&document) {
                    Some(file) => (LockVersion::V1(file), false),
                    None => (LockVersion::V1(LockFile::new()), true),
                }
            } else {
                return Err(LockError::UnsupportedLockVersion);
            },
        };
        Ok((data.into_latest(), warned))
    }
}

/// The format number that `document` gives.
pub fn lock_number(document: &Node) -> (r: Option<u32>)
    ensures
        match r {
            Some(v) => lock_number_of(document@) == Some(v as nat),
            None => lock_number_of(document@) is None,
        },
{
    proof {
        lemma_keys();
    }
    let root = match document.as_table() {
        Some(root) => root,
        None => {
            return None;
        },
    };
    match lookup(root, "version") {
        Some(found) => match found.as_integer() {
            Some(v) => if 0 <= v && v <= 0xffff_ffff {
                Some(v as u32)
            } else {
                None
            },
            None => None,
        },
        None => None,
    }
}

} // verus!
