//! What the planner reads of a hardware description: identifiers and the
//! design units that a source file declares.

use vstd::prelude::*;
use crate::text::{chars_eq, chars_eq_ignoring_case, chars_of, same_ignoring_case};

verus! {

/// The language that a name or a file belongs to.
#[derive(Debug, Clone, Copy, PartialEq, Eq, Hash, Structural)]
pub enum Dialect {
    Vhdl,
    Verilog,
    SystemVerilog,
}

/// A place in a source text: line and column, counted from zero.
#[derive(Debug, Clone, Copy, PartialEq, Eq, Hash, Structural)]
pub struct Position {
    pub line: usize,
    pub col: usize,
}

impl Position {
    /// The first place of a text.
    pub fn new() -> (p: Position)
        ensures
            p == (Position { line: 0, col: 0 }),
    {
        Position { line: 0, col: 0 }
    }

    /// The place at `line` and `col`.
    pub fn place(line: usize, col: usize) -> (p: Position)
        ensures
            p == (Position { line, col }),
    {
        Position { line, col }
    }
}

/// The mathematical value of an `Identifier`.
pub struct IdentifierView {
    pub name: Seq<char>,
    pub dialect: Dialect,
}

/// A name as it was read: its characters, its language and the place where
/// it was found.
pub struct NameView {
    pub name: Seq<char>,
    pub dialect: Dialect,
    pub position: Position,
}

/// The characters of each of `names`.
pub open spec fn names_of(names: Seq<NameView>) -> Seq<Seq<char>> {
    Seq::new(names.len(), |i: int| names[i].name)
}

/// The names of `names` without their places.
pub open spec fn unplaced(names: Seq<NameView>) -> Seq<IdentifierView> {
    Seq::new(
        names.len(),
        |i: int| IdentifierView { name: names[i].name, dialect: names[i].dialect },
    )
}

/// Whether `a` and `b` name the same design unit: two names of VHDL may
/// differ in the case of their letters, all others have to be the same
/// character by character.
pub open spec fn same_unit(a: IdentifierView, b: IdentifierView) -> bool {
    if a.dialect == Dialect::Vhdl && b.dialect == Dialect::Vhdl {
        same_ignoring_case(a.name, b.name)
    } else {
        a.name == b.name
    }
}

/// Whether `a` and `b` are the same name: they belong to the same
/// language, and they are the same character by character, or but for the
/// case of their letters where the language is VHDL.
pub open spec fn same_name(a: IdentifierView, b: IdentifierView) -> bool {
    a.dialect == b.dialect && same_unit(a, b)
}

/// The name of a design unit. Two identifiers are equal when they are the
/// same name, wherever they were found.
#[derive(Debug, Eq)]
pub struct Identifier {
    name: String,
    dialect: Dialect,
    position: Position,
}

impl Identifier {
    /// The mathematical value.
    pub closed spec fn view(&self) -> IdentifierView {
        IdentifierView { name: self.name@, dialect: self.dialect }
    }

    /// The name as it was read: with its place.
    pub open spec fn placed(&self) -> NameView {
        NameView { name: self@.name, dialect: self@.dialect, position: self.spec_position() }
    }

    /// The name `name` of the language `dialect`, found at the first place
    /// of its text.
    pub fn new(name: &str, dialect: Dialect) -> (id: Identifier)
        ensures
            id@ == (IdentifierView { name: name@, dialect }),
            id.spec_position() == (Position { line: 0, col: 0 }),
    {
        Identifier { name: String::from_str(name), dialect, position: Position::new() }
    }

    /// The name `name` of the language `dialect`, found at `position`.
    pub fn at(name: String, dialect: Dialect, position: Position) -> (id: Identifier)
        ensures
            id@ == (IdentifierView { name: name@, dialect }),
            id.spec_position() == position,
    {
        Identifier { name, dialect, position }
    }

    /// The name as text.
    pub fn as_str(&self) -> (s: &str)
        ensures
            s@ == self@.name,
    {
        self.name.as_str()
    }

    /// The name as text.
    pub fn to_string(&self) -> (s: String)
        ensures
            s@ == self@.name,
    {
        self.name.clone()
    }

    /// The language of the name.
    pub fn get_dialect(&self) -> (d: Dialect)
        ensures
            d == self@.dialect,
    {
        self.dialect
    }

    /// Where the name was found.
    pub fn get_position(&self) -> (p: &Position)
        ensures
            *p == self.spec_position(),
    {
        &self.position
    }

    /// Where the name was found.
    pub closed spec fn spec_position(&self) -> Position {
        self.position
    }

    /// Whether `self` and `other` name the same design unit.
    pub fn matches(&self, other: &Identifier) -> (same: bool)
        ensures
            same == same_unit(self@, other@),
    {
        let a = chars_of(self.name.as_str());
        let b = chars_of(other.name.as_str());
        let both_vhdl = match (self.dialect, other.dialect) {
            (Dialect::Vhdl, Dialect::Vhdl) => true,
            _ => false,
        };
        if both_vhdl {
            chars_eq_ignoring_case(&a, &b)
        } else {
            chars_eq(&a, &b)
        }
    }
}

impl PartialEq for Identifier {
    fn eq(&self, other: &Identifier) -> (r: bool) {
        let same_dialect = match (self.dialect, other.dialect) {
            (Dialect::Vhdl, Dialect::Vhdl) => true,
            (Dialect::Verilog, Dialect::Verilog) => true,
            (Dialect::SystemVerilog, Dialect::SystemVerilog) => true,
            _ => false,
        };
        same_dialect && self.matches(other)
    }
}

impl vstd::std_specs::cmp::PartialEqSpecImpl for Identifier {
    open spec fn obeys_eq_spec() -> bool {
        true
    }

    open spec fn eq_spec(&self, other: &Identifier) -> bool {
        same_name(self@, other@)
    }
}

impl Clone for Identifier {
    fn clone(&self) -> (r: Self)
        ensures
            r@ == self@,
            r.spec_position() == self.spec_position(),
    {
        Identifier { name: self.name.clone(), dialect: self.dialect, position: self.position }
    }
}

/// The values of `ids`.
pub open spec fn identifiers_view(ids: Seq<Identifier>) -> Seq<IdentifierView> {
    Seq::new(ids.len(), |i: int| ids[i]@)
}

/// The names of `ids`.
pub open spec fn names_view(ids: Seq<Identifier>) -> Seq<Seq<char>> {
    Seq::new(ids.len(), |i: int| ids[i]@.name)
}

/// The names of `ids` as they were read: each with its place.
pub open spec fn placed_names(ids: Seq<Identifier>) -> Seq<NameView> {
    Seq::new(ids.len(), |i: int| ids[i].placed())
}

/// A copy of `ids`.
pub fn copy_identifiers(ids: &Vec<Identifier>) -> (r: Vec<Identifier>)
    ensures
        identifiers_view(r@) == identifiers_view(ids@),
        placed_names(r@) == placed_names(ids@),
{
    let mut r: Vec<Identifier> = Vec::new();
    let mut i: usize = 0;
    while i < ids.len()
        invariant
            i <= ids.len(),
            r.len() == i,
            forall|j: int| 0 <= j < i ==> r[j]@ == ids[j]@,
            forall|j: int| 0 <= j < i ==> r[j].spec_position() == ids[j].spec_position(),
        decreases ids.len() - i,
    {
        r.push(ids[i].clone());
        i += 1;
    }
    assert(identifiers_view(r@) =~= identifiers_view(ids@));
    assert(placed_names(r@) =~= placed_names(ids@));
    r
}

/// A design unit as the planner sees it.
pub enum UnitView {
    /// A unit that others instantiate by `name`; with `ports` it has an
    /// interface to the outside.
    Primary { name: IdentifierView, ports: bool, edges: Seq<IdentifierView> },
    /// An implementation of the primary unit `owner`, which instantiates the
    /// units named in `edges`.
    Body { owner: IdentifierView, edges: Seq<IdentifierView> },
    /// A unit that is neither instantiated nor instantiates.
    Other,
}

/// The unit that `unit` implements and the names of the units that it
/// instantiates: a body implements its owner, and a primary unit that
/// instantiates others implements itself.
pub open spec fn body_of(unit: UnitView) -> Option<(IdentifierView, Seq<IdentifierView>)> {
    match unit {
        UnitView::Primary { name, ports, edges } => if edges.len() > 0 {
            Some((name, edges))
        } else {
            None
        },
        UnitView::Body { owner, edges } => Some((owner, edges)),
        UnitView::Other => None,
    }
}

/// A design unit as it was read: its kind, each of its names with its
/// language and the place where it was read, and the number of its ports.
pub enum UnitRecord {
    Entity { name: NameView, ports: nat },
    Architecture { name: NameView, owner: NameView, edges: Seq<NameView> },
    Package { name: NameView },
    Configuration { name: NameView, owner: NameView },
    Module { name: NameView, ports: nat, edges: Seq<NameView> },
}

/// Every name of `names` belongs to the language `dialect`.
pub open spec fn all_of_language(names: Seq<NameView>, dialect: Dialect) -> bool {
    forall|i: int| 0 <= i < names.len() ==> (#[trigger] names[i]).dialect == dialect
}

/// Every name of the unit belongs to the language `dialect`.
pub open spec fn is_of_language(record: UnitRecord, dialect: Dialect) -> bool {
    match record {
        UnitRecord::Entity { name, ports } => name.dialect == dialect,
        UnitRecord::Architecture { name, owner, edges } => name.dialect == dialect && owner.dialect
            == dialect && all_of_language(edges, dialect),
        UnitRecord::Package { name } => name.dialect == dialect,
        UnitRecord::Configuration { name, owner } => name.dialect == dialect && owner.dialect
            == dialect,
        UnitRecord::Module { name, ports, edges } => name.dialect == dialect && all_of_language(
            edges,
            dialect,
        ),
    }
}

/// A name without its place.
pub open spec fn unplaced_name(name: NameView) -> IdentifierView {
    IdentifierView { name: name.name, dialect: name.dialect }
}

/// What the planner sees of a unit that was read: of an entity or a
/// module its name, whether it has ports and what it instantiates, of an
/// architecture its entity and what it instantiates, and of the others
/// nothing.
pub open spec fn planned(record: UnitRecord) -> UnitView {
    match record {
        UnitRecord::Entity { name, ports } => UnitView::Primary {
            name: unplaced_name(name),
            ports: ports > 0,
            edges: Seq::empty(),
        },
        UnitRecord::Architecture { name, owner, edges } => UnitView::Body {
            owner: unplaced_name(owner),
            edges: unplaced(edges),
        },
        UnitRecord::Module { name, ports, edges } => UnitView::Primary {
            name: unplaced_name(name),
            ports: ports > 0,
            edges: unplaced(edges),
        },
        _ => UnitView::Other,
    }
}

/// A design unit of a source file.
#[derive(Debug, PartialEq, Eq)]
pub enum DesignUnit {
    /// An entity of VHDL with the number of its ports.
    Entity { name: Identifier, ports: usize },
    /// An architecture of VHDL for the entity `owner`, with the names of the
    /// units it instantiates.
    Architecture { name: Identifier, owner: Identifier, edges: Vec<Identifier> },
    /// A package of VHDL.
    Package { name: Identifier },
    /// A configuration of VHDL for the entity `owner`.
    Configuration { name: Identifier, owner: Identifier },
    /// A module of Verilog or SystemVerilog with the number of its ports and
    /// the names of the units it instantiates.
    Module { name: Identifier, ports: usize, edges: Vec<Identifier> },
}

impl Clone for DesignUnit {
    fn clone(&self) -> (r: Self)
        ensures
            r@ == self@,
            r.name_view() == self.name_view(),
            r.record() == self.record(),
    {
        match self {
            DesignUnit::Entity { name, ports } => DesignUnit::Entity {
                name: name.clone(),
                ports: *ports,
            },
            DesignUnit::Architecture { name, owner, edges } => DesignUnit::Architecture {
                name: name.clone(),
                owner: owner.clone(),
                edges: copy_identifiers(edges),
            },
            DesignUnit::Package { name } => DesignUnit::Package { name: name.clone() },
            DesignUnit::Configuration { name, owner } => DesignUnit::Configuration {
                name: name.clone(),
                owner: owner.clone(),
            },
            DesignUnit::Module { name, ports, edges } => DesignUnit::Module {
                name: name.clone(),
                ports: *ports,
                edges: copy_identifiers(edges),
            },
        }
    }
}

impl DesignUnit {
    /// The unit as it was read, in full.
    pub open spec fn record(&self) -> UnitRecord {
        match self {
            DesignUnit::Entity { name, ports } => UnitRecord::Entity {
                name: name.placed(),
                ports: *ports as nat,
            },
            DesignUnit::Architecture { name, owner, edges } => UnitRecord::Architecture {
                name: name.placed(),
                owner: owner.placed(),
                edges: placed_names(edges@),
            },
            DesignUnit::Package { name } => UnitRecord::Package { name: name.placed() },
            DesignUnit::Configuration { name, owner } => UnitRecord::Configuration {
                name: name.placed(),
                owner: owner.placed(),
            },
            DesignUnit::Module { name, ports, edges } => UnitRecord::Module {
                name: name.placed(),
                ports: *ports as nat,
                edges: placed_names(edges@),
            },
        }
    }

    /// What the planner sees of the unit is what it sees of the unit as it
    /// was read.
    pub proof fn lemma_view_of_record(&self)
        ensures
            self@ == planned(self.record()),
    {
        match self {
            DesignUnit::Architecture { name, owner, edges } => {
                assert(identifiers_view(edges@) =~= unplaced(placed_names(edges@)));
            },
            DesignUnit::Module { name, ports, edges } => {
                assert(identifiers_view(edges@) =~= unplaced(placed_names(edges@)));
            },
            _ => {},
        }
    }

    /// The mathematical value as the planner sees it.
    pub open spec fn view(&self) -> UnitView {
        match self {
            DesignUnit::Entity { name, ports } => UnitView::Primary {
                name: name@,
                ports: *ports > 0,
                edges: Seq::empty(),
            },
            DesignUnit::Architecture { name, owner, edges } => UnitView::Body {
                owner: owner@,
                edges: identifiers_view(edges@),
            },
            DesignUnit::Module { name, ports, edges } => UnitView::Primary {
                name: name@,
                ports: *ports > 0,
                edges: identifiers_view(edges@),
            },
            _ => UnitView::Other,
        }
    }

    /// The name that the unit was declared with.
    pub open spec fn name_view(&self) -> IdentifierView {
        match self {
            DesignUnit::Entity { name, .. } => name@,
            DesignUnit::Architecture { name, .. } => name@,
            DesignUnit::Package { name } => name@,
            DesignUnit::Configuration { name, .. } => name@,
            DesignUnit::Module { name, .. } => name@,
        }
    }

    /// The name of the unit.
    pub fn get_name(&self) -> (name: &Identifier)
        ensures
            name@ == self.name_view(),
            self@ matches UnitView::Primary { name: n, .. } ==> name@ == n,
    {
        match self {
            DesignUnit::Entity { name, .. } => name,
            DesignUnit::Architecture { name, .. } => name,
            DesignUnit::Package { name } => name,
            DesignUnit::Configuration { name, .. } => name,
            DesignUnit::Module { name, .. } => name,
        }
    }

    /// Whether others can instantiate the unit: an entity or a module.
    pub fn is_primary(&self) -> (r: bool)
        ensures
            r == (self@ is Primary),
    {
        match self {
            DesignUnit::Entity { .. } => true,
            DesignUnit::Module { .. } => true,
            _ => false,
        }
    }

    /// Whether the unit is an entity or a module without ports, which only
    /// a simulation can use.
    pub fn is_testbench(&self) -> (r: bool)
        ensures
            r == (self@ matches UnitView::Primary { ports, .. } && !ports),
    {
        match self {
            DesignUnit::Entity { ports, .. } => *ports == 0,
            DesignUnit::Module { ports, .. } => *ports == 0,
            _ => false,
        }
    }

    /// The unit that this one implements, for an architecture its entity
    /// and for a module itself, and the names of the units instantiated.
    pub fn as_body(&self) -> (r: Option<(&Identifier, &Vec<Identifier>)>)
        ensures
            match r {
                Some((owner, edges)) => body_of(self@) == Some((owner@, identifiers_view(edges@))),
                None => body_of(self@) is None,
            },
    {
        match self {
            DesignUnit::Architecture { owner, edges, .. } => Some((owner, edges)),
            DesignUnit::Module { name, edges, .. } => if edges.len() > 0 {
                Some((name, edges))
            } else {
                None
            },
            _ => None,
        }
    }
}

} // verus!
