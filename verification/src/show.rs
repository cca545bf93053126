//! What is shown of a package: the table of its design units and the list
//! of its versions.

use vstd::prelude::*;
use crate::graph::ints;
use crate::lang::{DesignUnit};
use crate::order::{is_stable_sort, keys_view, stable_sort, KeyView, SortKey};
use crate::pkgid::PkgPart;
use crate::text::{append_chars, chars_of, string_of};
use crate::version::{accepts, is_accepted, AnyVersion, Version};

verus! {

/// What was asked to be shown.
#[derive(Debug, PartialEq, Eq)]
pub struct Show {
    ip: Option<PkgPart>,
    tags: bool,
    units: bool,
    version: Option<AnyVersion>,
}

/// What is shown.
#[derive(Debug, Clone, Copy, PartialEq, Eq, Structural)]
pub enum ShowMode {
    /// The table of the design units.
    Units,
    /// The list of the versions in the cache.
    Versions,
    /// The manifest.
    Manifest,
}

/// `n` times the character `c`.
pub open spec fn repeated(c: char, n: int) -> Seq<char> {
    Seq::new(
        if n > 0 {
            n as nat
        } else {
            0
        },
        |i: int| c,
    )
}

/// `s` filled up with spaces on the right to `width` characters; a longer
/// `s` stays as it is.
pub open spec fn pad_right(s: Seq<char>, width: int) -> Seq<char> {
    s + repeated(' ', width - s.len())
}

/// `s` filled up with hyphens on the left to `width` characters.
pub open spec fn rule_left(s: Seq<char>, width: int) -> Seq<char> {
    repeated('-', width - s.len()) + s
}

/// The two lines above the rows of the table of units.
pub open spec fn table_header() -> Seq<char> {
    pad_right("Identifier"@, 32) + pad_right("Type"@, 14) + pad_right("Public"@, 9) + seq!['\n']
        + rule_left(" "@, 32) + rule_left(" "@, 14) + rule_left(" "@, 9) + seq!['\n']
}

/// What kind of unit `unit` is, as the table names it.
pub open spec fn kind_text(unit: DesignUnit) -> Seq<char> {
    match unit {
        DesignUnit::Entity { .. } => "entity"@,
        DesignUnit::Architecture { .. } => "architecture"@,
        DesignUnit::Package { .. } => "package"@,
        DesignUnit::Configuration { .. } => "configuration"@,
        DesignUnit::Module { .. } => "module"@,
    }
}

/// Whether the table lists the unit: every unit but an architecture,
/// which is a part of its entity.
pub open spec fn is_listed(unit: DesignUnit) -> bool {
    !(unit is Architecture)
}

/// The units of `units` that the table lists, in their order.
pub open spec fn listed_units(units: Seq<DesignUnit>) -> Seq<DesignUnit>
    decreases units.len(),
{
    if units.len() == 0 {
        Seq::empty()
    } else if is_listed(units.last()) {
        listed_units(units.drop_last()).push(units.last())
    } else {
        listed_units(units.drop_last())
    }
}

/// The units of `units` that the table lists, in their order.
pub fn primary_units(units: Vec<DesignUnit>) -> (kept: Vec<DesignUnit>)
    ensures
        kept@ == listed_units(units@),
{
    let mut kept: Vec<DesignUnit> = Vec::new();
    assert(units@.take(0) =~= Seq::empty());
    for unit in it: units.into_iter()
        invariant
            it.seq() == units@,
            kept@ == listed_units(units@.take(it.index() as int)),
    {
        proof {
            let next = units@.take(it.index() + 1);
            assert(next.drop_last() =~= units@.take(it.index() as int));
            assert(next.last() == unit);
        }
        let listed = match unit {
            DesignUnit::Architecture { .. } => false,
            _ => true,
        };
        if listed {
            kept.push(unit);
        }
    }
    proof {
        assert(units@.take(units@.len() as int) =~= units@);
    }
    kept
}

/// The row of the table for the unit named `name` of the kind `kind`.
pub open spec fn table_row(name: Seq<char>, kind: Seq<char>) -> Seq<char> {
    pad_right(name, 32) + pad_right(kind, 14) + pad_right("y"@, 2) + seq!['\n']
}

/// The rows for the units of `units` at the places `p`, in the order of
/// `p`.
pub open spec fn table_rows(units: Seq<DesignUnit>, p: Seq<int>) -> Seq<char>
    decreases p.len(),
{
    if p.len() == 0 {
        Seq::empty()
    } else {
        table_rows(units, p.drop_last()) + table_row(
            units[p.last()].name_view().name,
            kind_text(units[p.last()]),
        )
    }
}

/// The keys that the units are sorted by: their names.
pub open spec fn unit_keys(units: Seq<DesignUnit>) -> Seq<KeyView> {
    Seq::new(
        units.len(),
        |i: int|
            KeyView {
                name: units[i].name_view().name,
                version: Version { major: 0, minor: 0, patch: 0 },
            },
    )
}

/// Appends `n` times the character `c`.
fn push_repeated(text: &mut Vec<char>, c: char, n: usize)
    ensures
        final(text)@ == old(text)@ + repeated(c, n as int),
{
    let mut i: usize = 0;
    assert(old(text)@ + repeated(c, 0) =~= old(text)@);
    while i < n
        invariant
            i <= n,
            text@ == old(text)@ + repeated(c, i as int),
        decreases n - i,
    {
        text.push(c);
        assert(text@ =~= old(text)@ + repeated(c, i + 1));
        i += 1;
    }
}

/// Appends `s`, filled up with spaces on the right to `width` characters.
fn push_padded(text: &mut Vec<char>, s: &str, width: usize)
    ensures
        final(text)@ == old(text)@ + pad_right(s@, width as int),
{
    let chars = chars_of(s);
    append_chars(text, &chars);
    let fill = if chars.len() < width {
        width - chars.len()
    } else {
        0
    };
    push_repeated(text, ' ', fill);
    assert(repeated(' ', fill as int) =~= repeated(' ', width - s@.len()));
    assert(text@ =~= old(text)@ + pad_right(s@, width as int));
}

/// Appends `s`, filled up with hyphens on the left to `width` characters.
fn push_ruled(text: &mut Vec<char>, s: &str, width: usize)
    ensures
        final(text)@ == old(text)@ + rule_left(s@, width as int),
{
    let chars = chars_of(s);
    let fill = if chars.len() < width {
        width - chars.len()
    } else {
        0
    };
    push_repeated(text, '-', fill);
    append_chars(text, &chars);
    assert(repeated('-', fill as int) =~= repeated('-', width - s@.len()));
    assert(text@ =~= old(text)@ + rule_left(s@, width as int));
}

/// The name of the kind of `unit`.
fn kind_of(unit: &DesignUnit) -> (s: &'static str)
    ensures
        s@ == kind_text(*unit),
{
    match unit {
        DesignUnit::Entity { .. } => "entity",
        DesignUnit::Architecture { .. } => "architecture",
        DesignUnit::Package { .. } => "package",
        DesignUnit::Configuration { .. } => "configuration",
        DesignUnit::Module { .. } => "module",
    }
}

impl Show {
    /// The request to show the package `ip`: its versions if `tags`, its
    /// units if `units`, restricted to the version `version`.
    pub fn new(ip: Option<PkgPart>, tags: bool, units: bool, version: Option<AnyVersion>) -> (show: Show)
        ensures
            show.spec_units() == units,
            show.spec_tags() == tags,
            show.spec_version() == version,
            show.spec_ip() == match ip {
                Some(p) => Some(p@),
                None => None,
            },
    {
        Show { ip, tags, units, version }
    }

    /// Whether the units were asked for.
    pub closed spec fn spec_units(&self) -> bool {
        self.units
    }

    /// Whether the versions were asked for.
    pub closed spec fn spec_tags(&self) -> bool {
        self.tags
    }

    /// The version that was asked for.
    pub closed spec fn spec_version(&self) -> Option<AnyVersion> {
        self.version
    }

    /// The package that was asked about, if one was named.
    pub closed spec fn spec_ip(&self) -> Option<Seq<char>> {
        match self.ip {
            Some(p) => Some(p@),
            None => None,
        }
    }

    /// The package that was asked about, if one was named.
    pub fn get_ip(&self) -> (ip: Option<&PkgPart>)
        ensures
            match ip {
                Some(p) => self.spec_ip() == Some(p@),
                None => self.spec_ip() is None,
            },
    {
        self.ip.as_ref()
    }

    /// The version that the request accepts where the user gave none: the
    /// latest.
    pub fn get_version(&self) -> (any: AnyVersion)
        ensures
            any == match self.spec_version() {
                Some(v) => v,
                None => AnyVersion::Latest,
            },
    {
        match self.version {
            Some(v) => v,
            None => AnyVersion::Latest,
        }
    }

    /// What is shown: the units win over the versions, and without either
    /// the manifest is shown.
    pub fn run(&self) -> (mode: ShowMode)
        ensures
            mode == if self.spec_units() {
                ShowMode::Units
            } else if self.spec_tags() {
                ShowMode::Versions
            } else {
                ShowMode::Manifest
            },
    {
        if self.units {
            ShowMode::Units
        } else if self.tags {
            ShowMode::Versions
        } else {
            ShowMode::Manifest
        }
    }

    /// The versions of `versions` that are listed: all of them where no
    /// version was asked for, else those that the request accepts.
    pub fn list_versions(&self, versions: &Vec<Version>) -> (shown: Vec<Version>)
        ensures
            shown@ == versions@.filter(
                |v: Version|
                    self.spec_version() matches Some(any) ==> accepts(any, v),
            ),
    {
        let ghost keep = |v: Version| self.spec_version() matches Some(any) ==> accepts(any, v);
        let mut shown: Vec<Version> = Vec::new();
        let mut i: usize = 0;
        assert(versions@.take(0) =~= Seq::empty());
        while i < versions.len()
            invariant
                i <= versions.len(),
                keep == |v: Version| self.spec_version() matches Some(any) ==> accepts(any, v),
                shown@ == versions@.take(i as int).filter(keep),
            decreases versions.len() - i,
        {
            let v = versions[i];
            let kept = match &self.version {
                Some(any) => is_accepted(any, &v),
                None => true,
            };
            proof {
                let next = versions@.take(i + 1);
                assert(next.drop_last() =~= versions@.take(i as int));
                assert(next.last() == v);
                reveal(Seq::filter);
            }
            if kept {
                shown.push(v);
            }
            i += 1;
        }
        proof {
            assert(versions@.take(versions.len() as int) =~= versions@);
        }
        shown
    }

    /// The table of the design units of a package: a header and a row for
    /// each unit, in ascending order of the units' names.
    pub fn format_units_table(table: Vec<DesignUnit>) -> (text: String)
        ensures
            exists|p: Seq<int>| #[trigger]
                is_stable_sort(unit_keys(table@), p) && text@ == table_header() + table_rows(
                    table@,
                    p,
                ),
    {
        let mut text: Vec<char> = Vec::new();
        push_padded(&mut text, "Identifier", 32);
        push_padded(&mut text, "Type", 14);
        push_padded(&mut text, "Public", 9);
        text.push('\n');
        push_ruled(&mut text, " ", 32);
        push_ruled(&mut text, " ", 14);
        push_ruled(&mut text, " ", 9);
        text.push('\n');
        assert(text@ =~= table_header());
        let mut keys: Vec<SortKey> = Vec::new();
        let mut i: usize = 0;
        while i < table.len()
            invariant
                i <= table.len(),
                keys.len() == i,
                forall|j: int| 0 <= j < i ==> keys[j]@ == unit_keys(table@)[j],
            decreases table.len() - i,
        {
            keys.push(
                SortKey {
                    name: chars_of(table[i].get_name().as_str()),
                    version: Version::new(0, 0, 0),
                },
            );
            i += 1;
        }
        assert(keys_view(keys@) =~= unit_keys(table@));
        let p = stable_sort(&keys);
        let ghost q = ints(p@);
        let mut k: usize = 0;
        assert(q.take(0) =~= Seq::empty());
        assert(text@ =~= table_header() + table_rows(table@, q.take(0)));
        while k < p.len()
            invariant
                k <= p.len(),
                q == ints(p@),
                p.len() == table.len(),
                is_stable_sort(unit_keys(table@), q),
                text@ == table_header() + table_rows(table@, q.take(k as int)),
            decreases p.len() - k,
        {
            assert(0 <= q[k as int] < table.len());
            let unit = &table[p[k]];
            let ghost before = text@;
            push_padded(&mut text, unit.get_name().as_str(), 32);
            push_padded(&mut text, kind_of(unit), 14);
            push_padded(&mut text, "y", 2);
            text.push('\n');
            proof {
                let next = q.take(k + 1);
                assert(next.drop_last() =~= q.take(k as int));
                assert(next.last() == q[k as int]);
                assert(text@ =~= before + table_row(unit.name_view().name, kind_text(*unit)));
            }
            k += 1;
        }
        proof {
            assert(q.take(p.len() as int) =~= q);
        }
        string_of(&text)
    }
}

} // verus!
