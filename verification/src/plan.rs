//! The planner: design units are indexed into a graph, the top and its
//! testbench are chosen, and the files needed by the testbench are listed
//! in the order in which they have to be compiled.

use vstd::prelude::*;
use crate::blueprint::{instruction_text, source_set_of, InstructionView, IpFileNodeView};
use crate::fileset::{
    are_picks, fileset_records, filesets_view, is_set_major, match_by_file, match_by_set,
    picks_view, strings_view, write_fileset_records, Fileset, FilesetView,
};
use crate::graph::{ints, Graph, GraphError, GraphErrorView, GraphView};
use crate::lang::{
    body_of, identifiers_view, same_unit, DesignUnit, Identifier, IdentifierView, UnitRecord,
    UnitView,
};
use crate::text::{append_chars, append_str, string_of};

verus! {

/// A design unit together with the file that holds it.
#[derive(Debug, PartialEq, Eq)]
pub struct FileUnit {
    pub file: String,
    pub unit: DesignUnit,
}

/// The mathematical value of a `FileUnit`.
pub struct FileUnitView {
    pub file: Seq<char>,
    pub unit: UnitView,
}

impl FileUnit {
    /// The mathematical value.
    pub open spec fn view(&self) -> FileUnitView {
        FileUnitView { file: self.file@, unit: self.unit@ }
    }
}

/// The values of `units`.
pub open spec fn units_view(units: Seq<FileUnit>) -> Seq<FileUnitView> {
    Seq::new(units.len(), |i: int| units[i]@)
}

/// A node of the unit index as the planner sees it: the unit's name,
/// whether it is a testbench, and the files that declare or implement it,
/// the declaring one first.
pub struct UnitNodeView {
    pub name: IdentifierView,
    pub testbench: bool,
    pub files: Seq<Seq<char>>,
}

/// A node of the unit index: a primary design unit, its number in the
/// graph, and the files that contribute to it.
#[derive(Debug, PartialEq, Eq)]
pub struct HashNode {
    index: usize,
    entity: DesignUnit,
    files: Vec<String>,
}

/// Whether the unit is a primary one without ports.
pub open spec fn is_testbench_unit(unit: UnitView) -> bool {
    unit matches UnitView::Primary { ports, .. } && !ports
}

impl HashNode {
    /// The mathematical value.
    pub closed spec fn view(&self) -> UnitNodeView {
        UnitNodeView {
            name: self.entity.name_view(),
            testbench: is_testbench_unit(self.entity@),
            files: strings_view(self.files@),
        }
    }

    /// The node's number in the graph.
    pub closed spec fn spec_index(&self) -> int {
        self.index as int
    }

    /// The unit that the node stands for, as it was read.
    pub closed spec fn spec_unit(&self) -> UnitRecord {
        self.entity.record()
    }

    /// The node's number in the graph.
    pub fn index(&self) -> (i: usize)
        ensures
            i == self.spec_index(),
    {
        self.index
    }

    /// The node number `index` for the unit `entity`, declared in `file`.
    pub fn new(entity: DesignUnit, index: usize, file: String) -> (node: HashNode)
        ensures
            node@ == (UnitNodeView {
                name: entity.name_view(),
                testbench: is_testbench_unit(entity@),
                files: seq![file@],
            }),
            node.spec_index() == index,
            node.spec_unit() == entity.record(),
    {
        let mut set: Vec<String> = Vec::new();
        set.push(file);
        let node = HashNode { entity, index, files: set };
        assert(node@.files =~= seq![file@]);
        node
    }

    /// Adds `file` to the node's files unless it is among them.
    pub fn add_file(&mut self, file: String)
        ensures
            final(self)@ == with_file(old(self)@, file@),
            final(self).spec_index() == old(self).spec_index(),
            final(self).spec_unit() == old(self).spec_unit(),
    {
        let mut i: usize = 0;
        while i < self.files.len()
            invariant
                i <= self.files.len(),
                *self == *old(self),
                forall|j: int| 0 <= j < i ==> strings_view(self.files@)[j] != file@,
            decreases self.files.len() - i,
        {
            if self.files[i] == file {
                assert(strings_view(self.files@)[i as int] == file@);
                assert(strings_view(self.files@).contains(file@));
                return ;
            }
            i += 1;
        }
        self.files.push(file);
        assert(strings_view(self.files@) =~= strings_view(old(self).files@).push(file@));
    }

    /// The unit that the node stands for.
    pub fn get_unit(&self) -> (unit: &DesignUnit)
        ensures
            unit.record() == self.spec_unit(),
    {
        &self.entity
    }

    /// The unit's name.
    pub fn get_name(&self) -> (name: &Identifier)
        ensures
            name@ == self@.name,
    {
        self.entity.get_name()
    }

    /// Whether the unit is a testbench.
    pub fn is_testbench(&self) -> (r: bool)
        ensures
            r == self@.testbench,
    {
        self.entity.is_testbench()
    }

    /// The files that contribute to the unit, the declaring one first.
    pub fn get_files(&self) -> (files: &Vec<String>)
        ensures
            strings_view(files@) == self@.files,
    {
        &self.files
    }
}

/// The node with `file` among its files: added at the end unless it is
/// there already.
pub open spec fn with_file(node: UnitNodeView, file: Seq<char>) -> UnitNodeView {
    if node.files.contains(file) {
        node
    } else {
        UnitNodeView { files: node.files.push(file), ..node }
    }
}

/// The values of `nodes`.
pub open spec fn nodes_view(nodes: Seq<HashNode>) -> Seq<UnitNodeView> {
    Seq::new(nodes.len(), |i: int| nodes[i]@)
}

/// The place of the first node at or after `from` whose name is the name
/// `id`, or the number of nodes when there is none.
pub open spec fn find_unit(nodes: Seq<UnitNodeView>, id: IdentifierView, from: int) -> int
    decreases nodes.len() - from,
{
    if from >= nodes.len() {
        nodes.len() as int
    } else if same_unit(nodes[from].name, id) {
        from
    } else {
        find_unit(nodes, id, from + 1)
    }
}

/// The first node named `id` at or after `from` is at `at` when no such
/// node stands between the two and one stands at `at`, or the nodes end
/// there.
pub proof fn lemma_find_unit(nodes: Seq<UnitNodeView>, id: IdentifierView, from: int, at: int)
    requires
        0 <= from <= at <= nodes.len(),
        forall|j: int| from <= j < at ==> !same_unit(nodes[j].name, id),
        at < nodes.len() ==> same_unit(nodes[at].name, id),
    ensures
        find_unit(nodes, id, from) == at,
    decreases at - from,
{
    if from < at {
        lemma_find_unit(nodes, id, from + 1, at);
    }
}

/// The place that `find_unit` gives is in range, and the name sought stands
/// at it when it is a place of a node.
pub proof fn lemma_find_unit_range(nodes: Seq<UnitNodeView>, id: IdentifierView, from: int)
    requires
        0 <= from <= nodes.len(),
    ensures
        from <= find_unit(nodes, id, from) <= nodes.len(),
        find_unit(nodes, id, from) < nodes.len() ==> same_unit(
            nodes[find_unit(nodes, id, from)].name,
            id,
        ),
    decreases nodes.len() - from,
{
    if from < nodes.len() && !same_unit(nodes[from].name, id) {
        lemma_find_unit_range(nodes, id, from + 1);
    }
}

/// The index after the unit `fu` was declared: a primary unit with a new
/// name gets a node; one whose name is taken is passed over when it stands
/// in the file that declared the name, and is an error, which carries the
/// name, when it stands in another file.
pub open spec fn declare(nodes: Seq<UnitNodeView>, fu: FileUnitView) -> Result<
    Seq<UnitNodeView>,
    Seq<char>,
> {
    match fu.unit {
        UnitView::Primary { name, ports, edges } => {
            let k = find_unit(nodes, name, 0);
            if k < nodes.len() {
                if nodes[k].files[0] == fu.file {
                    Ok(nodes)
                } else {
                    Err(name.name)
                }
            } else {
                Ok(nodes.push(UnitNodeView { name, testbench: !ports, files: seq![fu.file] }))
            }
        },
        _ => Ok(nodes),
    }
}

/// The index after the first pass over `units`: the primary units in the
/// order of their declaration.
pub open spec fn declared(units: Seq<FileUnitView>) -> Result<Seq<UnitNodeView>, Seq<char>>
    decreases units.len(),
{
    if units.len() == 0 {
        Ok(Seq::empty())
    } else {
        match declared(units.drop_last()) {
            Ok(nodes) => declare(nodes, units.last()),
            Err(name) => Err(name),
        }
    }
}

/// The edges `acc` and, for each name of `edges` that the index knows, an
/// edge from its node to `owner`. Names that the index does not know are
/// passed over.
pub open spec fn link_edges(
    nodes: Seq<UnitNodeView>,
    owner: int,
    edges: Seq<IdentifierView>,
    acc: Seq<(int, int)>,
) -> Seq<(int, int)>
    decreases edges.len(),
{
    if edges.len() == 0 {
        acc
    } else {
        let rest = link_edges(nodes, owner, edges.drop_last(), acc);
        let k = find_unit(nodes, edges.last(), 0);
        if k < nodes.len() {
            rest.push((k, owner))
        } else {
            rest
        }
    }
}

/// The index and the edges after the unit `fu` was attached: the file of a
/// body is added to the files of its owner, and the body's edges are
/// linked. A body whose owner the index does not know is passed over.
pub open spec fn attach(
    state: (Seq<UnitNodeView>, Seq<(int, int)>),
    fu: FileUnitView,
) -> (Seq<UnitNodeView>, Seq<(int, int)>) {
    match body_of(fu.unit) {
        Some((owner, edges)) => {
            let k = find_unit(state.0, owner, 0);
            if k < state.0.len() {
                (
                    state.0.update(k, with_file(state.0[k], fu.file)),
                    link_edges(state.0, k, edges, state.1),
                )
            } else {
                state
            }
        },
        None => state,
    }
}

/// The index and the edges after the second pass over `units`.
pub open spec fn attached(nodes: Seq<UnitNodeView>, units: Seq<FileUnitView>) -> (
    Seq<UnitNodeView>,
    Seq<(int, int)>,
)
    decreases units.len(),
{
    if units.len() == 0 {
        (nodes, Seq::empty())
    } else {
        attach(attached(nodes, units.drop_last()), units.last())
    }
}

/// The design that `units` describe: the index of the primary units and the
/// edges between them, or the name that two files declare.
pub open spec fn design_of(units: Seq<FileUnitView>) -> Result<
    (Seq<UnitNodeView>, Seq<(int, int)>),
    Seq<char>,
> {
    match declared(units) {
        Ok(nodes) => Ok(attached(nodes, units)),
        Err(name) => Err(name),
    }
}

/// The place of the first node named `id`, or the number of nodes.
pub fn find_node(nodes: &Vec<HashNode>, id: &Identifier) -> (k: usize)
    ensures
        k == find_unit(nodes_view(nodes@), id@, 0),
        k <= nodes.len(),
        k < nodes.len() ==> same_unit(nodes[k as int]@.name, id@),
{
    let mut k: usize = 0;
    while k < nodes.len()
        invariant
            k <= nodes.len(),
            forall|j: int| 0 <= j < k ==> !same_unit(nodes_view(nodes@)[j].name, id@),
        decreases nodes.len() - k,
    {
        if nodes[k].get_name().matches(id) {
            proof {
                lemma_find_unit(nodes_view(nodes@), id@, 0, k as int);
            }
            return k;
        }
        k += 1;
    }
    proof {
        lemma_find_unit(nodes_view(nodes@), id@, 0, k as int);
    }
    k
}

/// Attaching units changes neither the number of nodes nor their names.
pub proof fn lemma_attached_keeps_names(nodes: Seq<UnitNodeView>, units: Seq<FileUnitView>)
    ensures
        attached(nodes, units).0.len() == nodes.len(),
        forall|k: int|
            0 <= k < nodes.len() ==> (#[trigger] attached(nodes, units).0[k]).name == nodes[k].name
                && attached(nodes, units).0[k].testbench == nodes[k].testbench,
    decreases units.len(),
{
    if units.len() > 0 {
        lemma_attached_keeps_names(nodes, units.drop_last());
        let before = attached(nodes, units.drop_last());
        match body_of(units.last().unit) {
            Some((owner, edges)) => {
                lemma_find_unit_range(before.0, owner, 0);
            },
            None => {},
        }
    }
}

/// Where two indexes have the same names, a name is found at the same
/// place in both.
pub proof fn lemma_find_unit_by_names(
    a: Seq<UnitNodeView>,
    b: Seq<UnitNodeView>,
    id: IdentifierView,
    from: int,
)
    requires
        a.len() == b.len(),
        forall|k: int| 0 <= k < a.len() ==> (#[trigger] a[k]).name == b[k].name,
        0 <= from,
    ensures
        find_unit(a, id, from) == find_unit(b, id, from),
    decreases a.len() - from,
{
    if from < a.len() && !same_unit(a[from].name, id) {
        lemma_find_unit_by_names(a, b, id, from + 1);
    }
}

/// Once a name was declared by two files the first pass fails, whatever
/// follows.
pub proof fn lemma_declared_error(units: Seq<FileUnitView>, upto: int)
    requires
        0 <= upto <= units.len(),
        declared(units.take(upto)) is Err,
    ensures
        declared(units) == declared(units.take(upto)),
    decreases units.len() - upto,
{
    if upto < units.len() {
        let next = units.take(upto + 1);
        assert(next.drop_last() =~= units.take(upto));
        lemma_declared_error(units, upto + 1);
    } else {
        assert(units.take(upto) =~= units);
    }
}

/// No node is without a file.
pub open spec fn all_have_files(nodes: Seq<UnitNodeView>) -> bool {
    forall|k: int| 0 <= k < nodes.len() ==> (#[trigger] nodes[k]).files.len() > 0
}

/// The node was made for the unit `fu`: it holds the unit as it was read,
/// and the unit's file is the first of its files.
pub open spec fn is_made_for(node: HashNode, fu: FileUnit) -> bool {
    node.spec_unit() == fu.unit.record() && node@.files.len() > 0 && node@.files[0] == fu.file@
}

/// Every node holds one of `units`, as it was read, and has the file of
/// that unit as the first of its files.
pub open spec fn hold_units(nodes: Seq<HashNode>, units: Seq<FileUnit>) -> bool {
    forall|k: int|
        0 <= k < nodes.len() ==> exists|i: int|
            0 <= i < units.len() && is_made_for(#[trigger] nodes[k], units[i])
}

/// Every node carries its own place as its number.
pub open spec fn are_numbered(nodes: Seq<HashNode>) -> bool {
    forall|k: int| 0 <= k < nodes.len() ==> (#[trigger] nodes[k]).spec_index() == k
}

/// The first pass: every primary unit of `units` gets a node in the index
/// and in the graph, in the order of declaration. Fails with
/// `DuplicateUnit` when two files declare the same name.
pub fn declare_units(units: &Vec<FileUnit>) -> (r: Result<(Graph, Vec<HashNode>), GraphError>)
    ensures
        match r {
            Ok((graph, nodes)) => declared(units_view(units@)) == Ok::<
                Seq<UnitNodeView>,
                Seq<char>,
            >(nodes_view(nodes@)) && graph.wf() && graph@.nodes == nodes.len() && graph@.edges.len() == 0
                && are_numbered(nodes@) && all_have_files(nodes_view(nodes@)) && hold_units(
                nodes@,
                units@,
            ),
            Err(e) => declared(units_view(units@)) matches Err(name) && e@
                == GraphErrorView::DuplicateUnit(name),
        },
{
    let ghost uv = units_view(units@);
    let mut graph = Graph::new();
    let mut nodes: Vec<HashNode> = Vec::new();
    let mut i: usize = 0;
    assert(nodes_view(nodes@) =~= Seq::empty());
    assert(uv.take(0) =~= Seq::empty());
    while i < units.len()
        invariant
            i <= units.len(),
            uv == units_view(units@),
            declared(uv.take(i as int)) == Ok::<Seq<UnitNodeView>, Seq<char>>(nodes_view(nodes@)),
            nodes.len() <= i,
            graph.wf(),
            graph@.nodes == nodes.len(),
            graph@.edges.len() == 0,
            are_numbered(nodes@),
            all_have_files(nodes_view(nodes@)),
            hold_units(nodes@, units@),
        decreases units.len() - i,
    {
        let fu = &units[i];
        let ghost before = nodes_view(nodes@);
        let ghost held = nodes@;
        proof {
            let next = uv.take(i + 1);
            assert(next.drop_last() =~= uv.take(i as int));
            assert(next.last() == fu@);
        }
        if fu.unit.is_primary() {
            let name = fu.unit.get_name();
            let k = find_node(&nodes, name);
            if k < nodes.len() {
                assert(before[k as int].files.len() > 0);
                let first = &nodes[k].get_files()[0];
                assert(first@ == before[k as int].files[0]);
                if *first == fu.file {
                } else {
                    proof {
                        lemma_declared_error(uv, i + 1);
                    }
                    return Err(GraphError::DuplicateUnit(name.to_string()));
                }
            } else {
                match graph.add_node() {
                    Some(index) => {
                        nodes.push(HashNode::new(fu.unit.clone(), index, fu.file.clone()));
                        proof {
                            let ports = fu.unit@->Primary_ports;
                            assert(nodes_view(nodes@) =~= before.push(
                                UnitNodeView {
                                    name: fu.unit.name_view(),
                                    testbench: !ports,
                                    files: seq![fu.file@],
                                },
                            ));
                            assert forall|k: int| 0 <= k < nodes.len() implies exists|j: int|
                                0 <= j < units.len() && is_made_for(#[trigger] nodes[k], units[j]) by {
                                if k < held.len() {
                                    assert(nodes[k] == held[k]);
                                } else {
                                    assert(is_made_for(nodes[k], units[i as int]));
                                }
                            }
                        }
                    },
                    None => {
                        // the graph holds fewer nodes than there are units
                        assert(false);
                    },
                }
            }
        }
        i += 1;
    }
    proof {
        assert(uv.take(units.len() as int) =~= uv);
    }
    Ok((graph, nodes))
}

/// Links the edges of a body: for each name of `edges` that the index
/// knows, an edge from its node to `owner` is added to the graph.
fn link_body(graph: &mut Graph, nodes: &Vec<HashNode>, owner: usize, edges: &Vec<Identifier>)
    requires
        old(graph).wf(),
        old(graph)@.nodes == nodes.len(),
        owner < nodes.len(),
    ensures
        final(graph).wf(),
        final(graph)@.nodes == old(graph)@.nodes,
        final(graph)@.edges == link_edges(
            nodes_view(nodes@),
            owner as int,
            identifiers_view(edges@),
            old(graph)@.edges,
        ),
{
    let ghost ev = identifiers_view(edges@);
    let ghost nv = nodes_view(nodes@);
    let mut j: usize = 0;
    assert(ev.take(0) =~= Seq::empty());
    while j < edges.len()
        invariant
            j <= edges.len(),
            ev == identifiers_view(edges@),
            nv == nodes_view(nodes@),
            graph.wf(),
            graph@.nodes == nodes.len(),
            owner < nodes.len(),
            graph@.edges == link_edges(nv, owner as int, ev.take(j as int), old(graph)@.edges),
        decreases edges.len() - j,
    {
        proof {
            let next = ev.take(j + 1);
            assert(next.drop_last() =~= ev.take(j as int));
            assert(next.last() == edges[j as int]@);
        }
        let d = find_node(nodes, &edges[j]);
        if d < nodes.len() {
            let added = graph.add_edge(d, owner);
            assert(added);
        }
        j += 1;
    }
    proof {
        assert(ev.take(edges.len() as int) =~= ev);
    }
}

/// The second pass: the file of every body of `units` is added to the files
/// of its owner, and the units that the body instantiates are linked to the
/// owner.
pub fn attach_units(graph: &mut Graph, nodes: &mut Vec<HashNode>, units: &Vec<FileUnit>)
    requires
        old(graph).wf(),
        old(graph)@.nodes == old(nodes).len(),
        old(graph)@.edges.len() == 0,
        are_numbered(old(nodes)@),
        all_have_files(nodes_view(old(nodes)@)),
    ensures
        forall|all: Seq<FileUnit>| hold_units(old(nodes)@, all) ==> hold_units(final(nodes)@, all),
        final(graph).wf(),
        final(graph)@.nodes == final(nodes).len(),
        final(nodes).len() == old(nodes).len(),
        are_numbered(final(nodes)@),
        all_have_files(nodes_view(final(nodes)@)),
        (nodes_view(final(nodes)@), final(graph)@.edges) == attached(
            nodes_view(old(nodes)@),
            units_view(units@),
        ),
{
    let ghost uv = units_view(units@);
    let ghost start = nodes_view(nodes@);
    let mut i: usize = 0;
    assert(uv.take(0) =~= Seq::empty());
    assert(graph@.edges =~= Seq::empty());
    while i < units.len()
        invariant
            i <= units.len(),
            uv == units_view(units@),
            start == nodes_view(old(nodes)@),
            graph.wf(),
            graph@.nodes == nodes.len(),
            nodes.len() == start.len(),
            are_numbered(nodes@),
            all_have_files(nodes_view(nodes@)),
            (nodes_view(nodes@), graph@.edges) == attached(start, uv.take(i as int)),
            forall|all: Seq<FileUnit>| hold_units(old(nodes)@, all) ==> hold_units(nodes@, all),
        decreases units.len() - i,
    {
        let fu = &units[i];
        let ghost before = nodes_view(nodes@);
        proof {
            let next = uv.take(i + 1);
            assert(next.drop_last() =~= uv.take(i as int));
            assert(next.last() == fu@);
        }
        match fu.unit.as_body() {
            Some((owner, edges)) => {
                let k = find_node(nodes, owner);
                if k < nodes.len() {
                    let ghost earlier = nodes@;
                    let mut node = nodes.remove(k);
                    node.add_file(fu.file.clone());
                    nodes.insert(k, node);
                    proof {
                        assert forall|all: Seq<FileUnit>| hold_units(earlier, all) implies hold_units(
                            nodes@,
                            all,
                        ) by {
                            assert forall|j: int| 0 <= j < nodes.len() implies exists|i: int|
                                0 <= i < all.len() && is_made_for(#[trigger] nodes[j], all[i]) by {
                                let w = choose|w: int|
                                    0 <= w < all.len() && is_made_for(earlier[j], all[w]);
                                if j != k {
                                    assert(nodes[j] == earlier[j]);
                                }
                                assert(is_made_for(nodes[j], all[w]));
                            }
                        }
                        assert(nodes_view(nodes@) =~= before.update(
                            k as int,
                            with_file(before[k as int], fu.file@),
                        )) by {
                            assert forall|j: int| 0 <= j < nodes.len() implies nodes_view(nodes@)[j]
                                == before.update(k as int, with_file(before[k as int], fu.file@))[j] by {
                                if j != k {
                                    assert(nodes[j] == earlier[j]);
                                }
                            }
                        }
                        assert forall|j: int| 0 <= j < nodes.len() implies (#[trigger] nodes[j]).spec_index()
                            == j by {
                            if j != k {
                                assert(nodes[j] == earlier[j]);
                            }
                        }
                        assert forall|j: int| 0 <= j < nodes.len() implies (
                        #[trigger] nodes_view(nodes@)[j]).files.len() > 0 by {
                            assert(before[j].files.len() > 0);
                        }
                        assert forall|j: int| 0 <= j < before.len() implies (
                        #[trigger] nodes_view(nodes@)[j]).name == before[j].name by {}
                        lemma_links_by_names(
                            nodes_view(nodes@),
                            before,
                            k as int,
                            identifiers_view(edges@),
                            graph@.edges,
                        );
                    }
                    link_body(graph, nodes, k, edges);
                }
            },
            None => {},
        }
        i += 1;
    }
    proof {
        assert(uv.take(units.len() as int) =~= uv);
    }
}

/// Where two indexes have the same names, the same edges are linked in
/// both.
pub proof fn lemma_links_by_names(
    a: Seq<UnitNodeView>,
    b: Seq<UnitNodeView>,
    owner: int,
    edges: Seq<IdentifierView>,
    acc: Seq<(int, int)>,
)
    requires
        a.len() == b.len(),
        forall|k: int| 0 <= k < a.len() ==> (#[trigger] a[k]).name == b[k].name,
    ensures
        link_edges(a, owner, edges, acc) == link_edges(b, owner, edges, acc),
    decreases edges.len(),
{
    if edges.len() > 0 {
        lemma_links_by_names(a, b, owner, edges.drop_last(), acc);
        lemma_find_unit_by_names(a, b, edges.last(), 0);
    }
}

/// Indexes the design units of a project: a node for each primary unit,
/// the files of each, and an edge for each instantiation of a unit that
/// the index knows. Fails with `DuplicateUnit` when two files declare the
/// same name.
pub fn index_units(units: &Vec<FileUnit>) -> (r: Result<(Graph, Vec<HashNode>), GraphError>)
    ensures
        match r {
            Ok((graph, nodes)) => design_of(units_view(units@)) == Ok::<
                (Seq<UnitNodeView>, Seq<(int, int)>),
                Seq<char>,
            >((nodes_view(nodes@), graph@.edges)) && graph.wf() && graph@.nodes == nodes.len() && are_numbered(nodes@)
                && all_have_files(nodes_view(nodes@)) && hold_units(nodes@, units@),
            Err(e) => design_of(units_view(units@)) matches Err(name) && e@
                == GraphErrorView::DuplicateUnit(name),
        },
{
    match declare_units(units) {
        Ok((graph, nodes)) => {
            let mut graph = graph;
            let mut nodes = nodes;
            attach_units(&mut graph, &mut nodes, units);
            Ok((graph, nodes))
        },
        Err(e) => Err(e),
    }
}

/// `v` can be the testbench of the design: a testbench that no unit
/// instantiates.
pub open spec fn is_bench_candidate(g: GraphView, nodes: Seq<UnitNodeView>, v: int) -> bool {
    0 <= v < nodes.len() && nodes[v].testbench && forall|w: int| !g.has_edge(v, w)
}

/// The units that can be the testbench of the design, in ascending order.
pub open spec fn is_candidate_list(g: GraphView, nodes: Seq<UnitNodeView>, s: Seq<int>) -> bool {
    &&& forall|i: int, j: int| 0 <= i < j < s.len() ==> s[i] < s[j]
    &&& forall|v: int| #[trigger] s.contains(v) <==> is_bench_candidate(g, nodes, v)
}

/// How the top is settled once the testbench is, or is left to the top:
/// a top that was asked for has to exist and to be no testbench, and
/// without a testbench at hand its only successor becomes the testbench;
/// without a request the top is the only unit that the testbench
/// instantiates.
pub open spec fn is_top_outcome(
    g: GraphView,
    nodes: Seq<UnitNodeView>,
    top: Option<IdentifierView>,
    bench: Option<int>,
    r: Result<(int, int), GraphErrorView>,
) -> bool {
    match top {
        Some(tid) => {
            let t = find_unit(nodes, tid, 0);
            if t >= nodes.len() {
                r == Err::<(int, int), GraphErrorView>(GraphErrorView::UnknownUnit(tid.name))
            } else if nodes[t].testbench {
                r == Err::<(int, int), GraphErrorView>(GraphErrorView::IsTestbench(tid.name))
            } else {
                match bench {
                    Some(b) => r == Ok::<(int, int), GraphErrorView>((t, b)),
                    None => exists|s: Seq<int>| #[trigger]
                        g.is_successor_list(t, s) && if s.len() == 1 {
                            r == Ok::<(int, int), GraphErrorView>((t, s[0]))
                        } else {
                            r == Err::<(int, int), GraphErrorView>(GraphErrorView::AmbiguousBench(s))
                        },
                }
            }
        },
        None => match bench {
            Some(b) => exists|s: Seq<int>| #[trigger]
                g.is_predecessor_list(b, s) && if s.len() == 0 {
                    r == Err::<(int, int), GraphErrorView>(GraphErrorView::NoTop)
                } else if s.len() == 1 {
                    r == Ok::<(int, int), GraphErrorView>((s[0], b))
                } else {
                    r == Err::<(int, int), GraphErrorView>(GraphErrorView::AmbiguousTop(s))
                },
            None => false,
        },
    }
}

/// How top and testbench are settled: a testbench that was asked for has
/// to exist and to be one; without any request the testbench is the only
/// testbench that no unit instantiates; then the top is settled.
pub open spec fn is_outcome(
    g: GraphView,
    nodes: Seq<UnitNodeView>,
    top: Option<IdentifierView>,
    bench: Option<IdentifierView>,
    r: Result<(int, int), GraphErrorView>,
) -> bool {
    match bench {
        Some(bid) => {
            let b = find_unit(nodes, bid, 0);
            if b >= nodes.len() {
                r == Err::<(int, int), GraphErrorView>(GraphErrorView::UnknownUnit(bid.name))
            } else if !nodes[b].testbench {
                r == Err::<(int, int), GraphErrorView>(GraphErrorView::NotTestbench(bid.name))
            } else {
                is_top_outcome(g, nodes, top, Some(b), r)
            }
        },
        None => match top {
            Some(_) => is_top_outcome(g, nodes, top, None, r),
            None => exists|c: Seq<int>| #[trigger]
                is_candidate_list(g, nodes, c) && if c.len() == 1 {
                    is_top_outcome(g, nodes, top, Some(c[0]), r)
                } else {
                    r == Err::<(int, int), GraphErrorView>(GraphErrorView::AmbiguousBench(c))
                },
        },
    }
}

/// The value of what `choose_targets` returns.
pub open spec fn outcome_view(r: Result<(usize, usize), GraphError>) -> Result<
    (int, int),
    GraphErrorView,
> {
    match r {
        Ok((t, b)) => Ok((t as int, b as int)),
        Err(e) => Err(e@),
    }
}

/// The value of a name that may be missing.
pub open spec fn name_view(id: Option<Identifier>) -> Option<IdentifierView> {
    match id {
        Some(id) => Some(id@),
        None => None,
    }
}

/// The testbenches that no unit instantiates, in ascending order.
pub fn bench_candidates(graph: &Graph, nodes: &Vec<HashNode>) -> (list: Vec<usize>)
    requires
        graph.wf(),
        graph@.nodes == nodes.len(),
    ensures
        is_candidate_list(graph@, nodes_view(nodes@), ints(list@)),
{
    let ghost nv = nodes_view(nodes@);
    let mut list: Vec<usize> = Vec::new();
    let mut v: usize = 0;
    while v < nodes.len()
        invariant
            v <= nodes.len(),
            graph.wf(),
            graph@.nodes == nodes.len(),
            nv == nodes_view(nodes@),
            forall|i: int, j: int| 0 <= i < j < list.len() ==> list[i] < list[j],
            forall|i: int| 0 <= i < list.len() ==> list[i] < v,
            forall|x: int|
                #[trigger] ints(list@).contains(x) <==> x < v && is_bench_candidate(graph@, nv, x),
        decreases nodes.len() - v,
    {
        let mut is_candidate = false;
        if nodes[v].is_testbench() {
            let successors = graph.successors(v);
            is_candidate = successors.len() == 0;
            proof {
                let s = ints(successors@);
                if successors.len() == 0 {
                    assert forall|w: int| !graph@.has_edge(v as int, w) by {
                        assert(!s.contains(w));
                    }
                } else {
                    assert(s.contains(s[0]));
                    assert(graph@.has_edge(v as int, s[0]));
                }
            }
        }
        if is_candidate {
            let ghost before = ints(list@);
            list.push(v);
            proof {
                let now = ints(list@);
                assert(now =~= before.push(v as int));
                assert forall|x: int| #[trigger] now.contains(x) <==> x < v + 1
                    && is_bench_candidate(graph@, nv, x) by {
                    if now.contains(x) {
                        let i = choose|i: int| 0 <= i < now.len() && now[i] == x;
                        if i < before.len() {
                            assert(before[i] == x);
                            assert(before.contains(x));
                        }
                    }
                    if x < v + 1 && is_bench_candidate(graph@, nv, x) {
                        if x == v {
                            assert(now[now.len() - 1] == x);
                        } else {
                            assert(before.contains(x));
                            let i = choose|i: int| 0 <= i < before.len() && before[i] == x;
                            assert(now[i] == x);
                        }
                    }
                }
            }
        }
        v += 1;
    }
    list
}

/// The one unit that the testbench `bench` instantiates. Fails with `NoTop`
/// when it instantiates none, and with `AmbiguousTop` when it instantiates
/// several.
pub fn detect_top(graph: &Graph, bench: Option<usize>) -> (r: Result<usize, GraphError>)
    requires
        graph.wf(),
        bench is Some,
    ensures
        exists|s: Seq<int>| #[trigger]
            graph@.is_predecessor_list(bench->0 as int, s) && match r {
                Ok(t) => s.len() == 1 && s[0] == t,
                Err(e) => (s.len() == 0 && e@ == GraphErrorView::NoTop) || (s.len() > 1 && e@
                    == GraphErrorView::AmbiguousTop(s)),
            },
{
    let b = match bench {
        Some(b) => b,
        None => 0,
    };
    let list = graph.predecessors(b);
    assert(graph@.is_predecessor_list(b as int, ints(list@)));
    if list.len() == 0 {
        Err(GraphError::NoTop)
    } else if list.len() == 1 {
        Ok(list[0])
    } else {
        Err(GraphError::AmbiguousTop(list))
    }
}

/// Settles the top once the testbench is settled or left to the top.
fn choose_top(
    graph: &Graph,
    nodes: &Vec<HashNode>,
    top: &Option<Identifier>,
    bench: Option<usize>,
) -> (r: Result<(usize, usize), GraphError>)
    requires
        graph.wf(),
        graph@.nodes == nodes.len(),
        bench matches Some(b) ==> b < nodes.len(),
        bench is None ==> *top is Some,
    ensures
        is_top_outcome(
            graph@,
            nodes_view(nodes@),
            name_view(*top),
            match bench {
                Some(b) => Some(b as int),
                None => None,
            },
            outcome_view(r),
        ),
        r matches Ok((t, b)) ==> t < nodes.len() && b < nodes.len(),
{
    match top {
        Some(tid) => {
            let t = find_node(nodes, tid);
            if t >= nodes.len() {
                return Err(GraphError::UnknownUnit(tid.to_string()));
            }
            if nodes[t].is_testbench() {
                return Err(GraphError::IsTestbench(tid.to_string()));
            }
            match bench {
                Some(b) => Ok((t, b)),
                None => {
                    let list = graph.successors(t);
                    let ghost s = ints(list@);
                    assert(graph@.is_successor_list(t as int, s));
                    if list.len() == 1 {
                        proof {
                            assert(s.contains(s[0]));
                            let e = choose|e: int|
                                0 <= e < graph@.edges.len() && graph@.edges[e] == (t as int, s[0]);
                            assert(graph@.valid_edge(graph@.edges[e]));
                        }
                        Ok((t, list[0]))
                    } else {
                        Err(GraphError::AmbiguousBench(list))
                    }
                },
            }
        },
        None => {
            let b = match bench {
                Some(b) => b,
                None => 0,
            };
            let list = graph.predecessors(b);
            let ghost s = ints(list@);
            assert(graph@.is_predecessor_list(b as int, s));
            if list.len() == 0 {
                Err(GraphError::NoTop)
            } else if list.len() == 1 {
                proof {
                    assert(s.contains(s[0]));
                    let e = choose|e: int|
                        0 <= e < graph@.edges.len() && graph@.edges[e] == (s[0], b as int);
                    assert(graph@.valid_edge(graph@.edges[e]));
                }
                Ok((list[0], b))
            } else {
                Err(GraphError::AmbiguousTop(list))
            }
        },
    }
}

/// Settles the top and its testbench from what was asked for and from the
/// graph, and returns their nodes, the top first.
pub fn choose_targets(
    graph: &Graph,
    nodes: &Vec<HashNode>,
    top: &Option<Identifier>,
    bench: &Option<Identifier>,
) -> (r: Result<(usize, usize), GraphError>)
    requires
        graph.wf(),
        graph@.nodes == nodes.len(),
    ensures
        is_outcome(graph@, nodes_view(nodes@), name_view(*top), name_view(*bench), outcome_view(r)),
        r matches Ok((t, b)) ==> t < nodes.len() && b < nodes.len(),
{
    match bench {
        Some(bid) => {
            let b = find_node(nodes, bid);
            if b >= nodes.len() {
                return Err(GraphError::UnknownUnit(bid.to_string()));
            }
            if !nodes[b].is_testbench() {
                return Err(GraphError::NotTestbench(bid.to_string()));
            }
            choose_top(graph, nodes, top, Some(b))
        },
        None => match top {
            Some(_) => choose_top(graph, nodes, top, None),
            None => {
                let candidates = bench_candidates(graph, nodes);
                let ghost c = ints(candidates@);
                assert(is_candidate_list(graph@, nodes_view(nodes@), c));
                if candidates.len() == 1 {
                    proof {
                        assert(c.contains(c[0]));
                    }
                    choose_top(graph, nodes, top, Some(candidates[0]))
                } else {
                    Err(GraphError::AmbiguousBench(candidates))
                }
            },
        },
    }
}

/// The files of the nodes of `order`, node by node and, for each node, in
/// the order in which the files were added.
pub open spec fn files_in_order(nodes: Seq<UnitNodeView>, order: Seq<int>) -> Seq<Seq<char>>
    decreases order.len(),
{
    if order.len() == 0 {
        Seq::empty()
    } else {
        files_in_order(nodes, order.drop_last()) + nodes[order.last()].files
    }
}

/// The line of a blueprint for the source file `file`: the record of the
/// file as a step in the library `work`, and a line feed.
pub open spec fn hdl_record(file: Seq<char>) -> Seq<char> {
    instruction_text(
        InstructionView::Hdl(IpFileNodeView { file: file, library: "work"@ }),
    ) + seq!['\n']
}

/// The records for `files`, one after the other.
pub open spec fn hdl_records(files: Seq<Seq<char>>) -> Seq<char>
    decreases files.len(),
{
    if files.len() == 0 {
        Seq::empty()
    } else {
        hdl_records(files.drop_last()) + hdl_record(files.last())
    }
}

/// The text of the environment file for the top `top` and the testbench
/// `bench`.
pub open spec fn env_text(top: Seq<char>, bench: Seq<char>) -> Seq<char> {
    "ORBIT_TOP="@ + top + seq!['\n'] + "ORBIT_BENCH="@ + bench + seq!['\n']
}

/// Lists the files of the nodes of `order`.
pub fn list_files(nodes: &Vec<HashNode>, order: &Vec<usize>) -> (files: Vec<String>)
    requires
        forall|i: int| 0 <= i < order.len() ==> order[i] < nodes.len(),
    ensures
        strings_view(files@) == files_in_order(nodes_view(nodes@), ints(order@)),
{
    let ghost nv = nodes_view(nodes@);
    let ghost ov = ints(order@);
    let mut files: Vec<String> = Vec::new();
    let mut i: usize = 0;
    assert(ov.take(0) =~= Seq::empty());
    assert(strings_view(files@) =~= Seq::empty());
    while i < order.len()
        invariant
            i <= order.len(),
            nv == nodes_view(nodes@),
            ov == ints(order@),
            forall|i: int| 0 <= i < order.len() ==> order[i] < nodes.len(),
            strings_view(files@) == files_in_order(nv, ov.take(i as int)),
        decreases order.len() - i,
    {
        let node = &nodes[order[i]];
        let theirs = node.get_files();
        let ghost before = strings_view(files@);
        let mut k: usize = 0;
        while k < theirs.len()
            invariant
                k <= theirs.len(),
                strings_view(files@) == before + strings_view(theirs@).take(k as int),
            decreases theirs.len() - k,
        {
            let ghost so_far = strings_view(files@);
            files.push(theirs[k].clone());
            assert(strings_view(files@) =~= so_far.push(theirs[k as int]@));
            assert(so_far.push(theirs[k as int]@) =~= before + strings_view(theirs@).take(k + 1));
            k += 1;
        }
        proof {
            assert(strings_view(theirs@).take(theirs.len() as int) =~= strings_view(theirs@));
            let next = ov.take(i + 1);
            assert(next.drop_last() =~= ov.take(i as int));
            assert(next.last() == order[i as int]);
        }
        i += 1;
    }
    proof {
        assert(ov.take(order.len() as int) =~= ov);
    }
    files
}

/// Writes the record of a blueprint for each of `files`.
pub fn write_hdl_records(files: &Vec<String>) -> (text: Vec<char>)
    ensures
        text@ == hdl_records(strings_view(files@)),
{
    let ghost fv = strings_view(files@);
    let mut text: Vec<char> = Vec::new();
    let mut i: usize = 0;
    assert(fv.take(0) =~= Seq::empty());
    while i < files.len()
        invariant
            i <= files.len(),
            fv == strings_view(files@),
            text@ == hdl_records(fv.take(i as int)),
        decreases files.len() - i,
    {
        let file = files[i].as_str();
        let ghost before = text@;
        append_str(&mut text, source_set_of(file));
        text.push('\t');
        append_str(&mut text, "work");
        text.push('\t');
        append_str(&mut text, file);
        text.push('\n');
        proof {
            let next = fv.take(i + 1);
            assert(next.drop_last() =~= fv.take(i as int));
            assert(next.last() == file@);
            assert(text@ =~= before + hdl_record(file@));
        }
        i += 1;
    }
    proof {
        assert(fv.take(files.len() as int) =~= fv);
    }
    text
}

/// Writes the text of the environment file.
pub fn write_env(top: &Identifier, bench: &Identifier) -> (text: String)
    ensures
        text@ == env_text(top@.name, bench@.name),
{
    let mut text: Vec<char> = Vec::new();
    append_str(&mut text, "ORBIT_TOP=");
    append_str(&mut text, top.as_str());
    text.push('\n');
    append_str(&mut text, "ORBIT_BENCH=");
    append_str(&mut text, bench.as_str());
    text.push('\n');
    assert(text@ =~= env_text(top@.name, bench@.name));
    string_of(&text)
}

/// What was asked of the planner.
#[derive(Debug, PartialEq, Eq)]
pub struct Plan {
    plugin: Option<String>,
    bench: Option<Identifier>,
    top: Option<Identifier>,
    build_dir: Option<String>,
    filesets: Option<Vec<Fileset>>,
}

/// What the planner hands back: the nodes of top and testbench, the nodes
/// in the order of compilation, their files, and the texts of the
/// blueprint and of the environment file.
#[derive(Debug, PartialEq, Eq)]
pub struct Blueprinted {
    pub top: usize,
    pub bench: usize,
    pub order: Vec<usize>,
    pub files: Vec<String>,
    pub blueprint: String,
    pub env: String,
}

/// The sets of `sets`, or none.
pub open spec fn sets_view(sets: Option<Vec<Fileset>>) -> Seq<FilesetView> {
    match sets {
        Some(sets) => filesets_view(sets@),
        None => Seq::empty(),
    }
}

/// The text of a blueprint: the records of the user's sets, set by set;
/// the records of the plugin's sets, file by file; the records of the
/// source files.
pub open spec fn is_blueprint(
    text: Seq<char>,
    user: Seq<FilesetView>,
    plugin: Seq<FilesetView>,
    files: Seq<Seq<char>>,
    sources: Seq<Seq<char>>,
) -> bool {
    exists|by_set: Seq<(int, int)>, by_file: Seq<(int, int)>|
        #![trigger fileset_records(user, files, by_set), fileset_records(plugin, files, by_file)]
        are_picks(by_set, files.len() as int, user.len() as int) && is_set_major(by_set)
            && are_picks(by_file, files.len() as int, plugin.len() as int)
            && crate::fileset::is_file_major(by_file) && text == fileset_records(
            user,
            files,
            by_set,
        ) + fileset_records(plugin, files, by_file) + hdl_records(sources)
}

impl Plan {
    /// The request for the top `top`, the testbench `bench`, the plugin
    /// `plugin`, the build directory `build_dir` and the sets `filesets`.
    pub fn new(
        plugin: Option<String>,
        bench: Option<Identifier>,
        top: Option<Identifier>,
        build_dir: Option<String>,
        filesets: Option<Vec<Fileset>>,
    ) -> (plan: Plan)
        ensures
            plan.spec_top() == name_view(top),
            plan.spec_bench() == name_view(bench),
            plan.spec_sets() == sets_view(filesets),
            plan.spec_plugin() == match plugin {
                Some(p) => Some(p@),
                None => None,
            },
            plan.spec_build_dir() == match build_dir {
                Some(d) => Some(d@),
                None => None,
            },
    {
        Plan { plugin, bench, top, build_dir, filesets }
    }

    /// The top that was asked for.
    pub closed spec fn spec_top(&self) -> Option<IdentifierView> {
        name_view(self.top)
    }

    /// The testbench that was asked for.
    pub closed spec fn spec_bench(&self) -> Option<IdentifierView> {
        name_view(self.bench)
    }

    /// The sets that the user asked for.
    pub closed spec fn spec_sets(&self) -> Seq<FilesetView> {
        sets_view(self.filesets)
    }

    /// The plugin that was asked for.
    pub closed spec fn spec_plugin(&self) -> Option<Seq<char>> {
        match self.plugin {
            Some(p) => Some(p@),
            None => None,
        }
    }

    /// The build directory that was asked for.
    pub closed spec fn spec_build_dir(&self) -> Option<Seq<char>> {
        match self.build_dir {
            Some(d) => Some(d@),
            None => None,
        }
    }

    /// The plugin that was asked for.
    pub fn get_plugin(&self) -> (plugin: Option<&String>)
        ensures
            match plugin {
                Some(p) => self.spec_plugin() == Some(p@),
                None => self.spec_plugin() is None,
            },
    {
        self.plugin.as_ref()
    }

    /// The build directory that was asked for.
    pub fn get_build_dir(&self) -> (dir: Option<&String>)
        ensures
            match dir {
                Some(d) => self.spec_build_dir() == Some(d@),
                None => self.spec_build_dir() is None,
            },
    {
        self.build_dir.as_ref()
    }

    /// The top that was asked for.
    pub fn get_top(&self) -> (top: Option<&Identifier>)
        ensures
            match top {
                Some(id) => self.spec_top() == Some(id@),
                None => self.spec_top() is None,
            },
    {
        self.top.as_ref()
    }

    /// The testbench that was asked for.
    pub fn get_bench(&self) -> (bench: Option<&Identifier>)
        ensures
            match bench {
                Some(id) => self.spec_bench() == Some(id@),
                None => self.spec_bench() is None,
            },
    {
        self.bench.as_ref()
    }

    /// The one unit that the testbench `bench` instantiates.
    pub fn detect_top(graph: &Graph, bench: Option<usize>) -> (r: Result<usize, GraphError>)
        requires
            graph.wf(),
            bench is Some,
        ensures
            exists|s: Seq<int>| #[trigger]
                graph@.is_predecessor_list(bench->0 as int, s) && match r {
                    Ok(t) => s.len() == 1 && s[0] == t,
                    Err(e) => (s.len() == 0 && e@ == GraphErrorView::NoTop) || (s.len() > 1 && e@
                        == GraphErrorView::AmbiguousTop(s)),
                },
    {
        detect_top(graph, bench)
    }

    /// Plans the build of a project from the design units of its source
    /// files `units`, all its files `files` and the sets of the plugin:
    /// the units are indexed, top and testbench are settled, and the units
    /// that the testbench needs are ordered. The blueprint lists the files
    /// of the user's and the plugin's sets and then the source files in the
    /// order of compilation.
    pub fn run(
        &self,
        units: &Vec<FileUnit>,
        files: &Vec<String>,
        plug_filesets: Option<&Vec<Fileset>>,
    ) -> (r: Result<Blueprinted, GraphError>)
        ensures
            match design_of(units_view(units@)) {
                Err(name) => r matches Err(e) && e@ == GraphErrorView::DuplicateUnit(name),
                Ok((nodes, edges)) => {
                    let g = GraphView { nodes: nodes.len(), edges };
                    match r {
                        Ok(out) => is_outcome(
                            g,
                            nodes,
                            self.spec_top(),
                            self.spec_bench(),
                            Ok((out.top as int, out.bench as int)),
                        ) && g.is_minimal_topological_sort(out.bench as int, ints(out.order@))
                            && strings_view(out.files@) == files_in_order(nodes, ints(out.order@))
                            && out.top < nodes.len() && out.bench < nodes.len() && out.env@
                            == env_text(nodes[out.top as int].name.name, nodes[out.bench as int].name.name)
                            && is_blueprint(
                            out.blueprint@,
                            self.spec_sets(),
                            match plug_filesets {
                                Some(sets) => filesets_view(sets@),
                                None => Seq::empty(),
                            },
                            strings_view(files@),
                            strings_view(out.files@),
                        ),
                        Err(e) => is_outcome(g, nodes, self.spec_top(), self.spec_bench(), Err(e@))
                            || (e@ == GraphErrorView::CyclicDesign && exists|t: int, b: int|
                            #[trigger] is_outcome(
                                g,
                                nodes,
                                self.spec_top(),
                                self.spec_bench(),
                                Ok((t, b)),
                            ) && g.is_cyclic_below(b) && g.has_circle_below(b)),
                    }
                },
            },
    {
        let (graph, nodes) = match index_units(units) {
            Ok(design) => design,
            Err(e) => {
                return Err(e);
            },
        };
        let ghost g = graph@;
        let ghost nv = nodes_view(nodes@);
        assert(g == (GraphView { nodes: nv.len(), edges: g.edges }));
        let (top, bench) = match choose_targets(&graph, &nodes, &self.top, &self.bench) {
            Ok(targets) => targets,
            Err(e) => {
                return Err(e);
            },
        };
        let order = match graph.minimal_topological_sort(bench) {
            Ok(order) => order,
            Err(e) => {
                proof {
                    assert(is_outcome(
                        g,
                        nv,
                        self.spec_top(),
                        self.spec_bench(),
                        Ok((top as int, bench as int)),
                    ));
                }
                return Err(e);
            },
        };
        proof {
            let o = ints(order@);
            assert forall|i: int| 0 <= i < order.len() implies order[i] < nodes.len() by {
                assert(o[i] == order[i]);
                assert(o.contains(o[i]));
            }
        }
        let sources = list_files(&nodes, &order);
        let mut text: Vec<char> = Vec::new();
        let no_sets: Vec<Fileset> = Vec::new();
        assert(filesets_view(no_sets@) =~= Seq::empty());
        let user = match &self.filesets {
            Some(sets) => sets,
            None => &no_sets,
        };
        let plugin = match plug_filesets {
            Some(sets) => sets,
            None => &no_sets,
        };
        let by_set = match_by_set(user, files);
        let by_file = match_by_file(plugin, files);
        let first = write_fileset_records(user, files, &by_set);
        let second = write_fileset_records(plugin, files, &by_file);
        let third = write_hdl_records(&sources);
        append_chars(&mut text, &first);
        append_chars(&mut text, &second);
        append_chars(&mut text, &third);
        let env = write_env(nodes[top].get_name(), nodes[bench].get_name());
        let blueprint = string_of(&text);
        proof {
            let uv = filesets_view(user@);
            let pv = filesets_view(plugin@);
            let fv = strings_view(files@);
            assert(text@ =~= fileset_records(uv, fv, picks_view(by_set@)) + fileset_records(
                pv,
                fv,
                picks_view(by_file@),
            ) + hdl_records(strings_view(sources@)));
            assert(is_blueprint(blueprint@, uv, pv, fv, strings_view(sources@)));
        }
        Ok(Blueprinted { top, bench, order, files: sources, blueprint, env })
    }
}

} // verus!
