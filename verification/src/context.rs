//! The builder of a translation unit: the tables, the current region, and the
//! operations that add regions, nodes, ports and edges.

use crate::edge::{Argument, Edge, Input, Origin, Output, User};
use crate::graph::{first_index, fresh_region, only, Graph};
use crate::id;
use crate::nodes::{Apply, GlobalV, Kind, Lambda, NodeKind, Number, Placeholder, RecEnv};
use crate::steps::{
    edge_names, lemma_add_argument, lemma_add_input, lemma_add_output, lemma_add_region,
    lemma_add_result, lemma_add_symbol, lemma_commit_node, lemma_first_index, lemma_leaf,
    lemma_move_node, lemma_raw_connect, lemma_set_kind, lemma_spawn,
};
use crate::tables::{
    node_rows, node_table_get, node_table_get_mut, node_table_len, node_table_new,
    node_table_next_key, node_table_push, region_rows, region_table_get, region_table_get_mut,
    region_table_len, region_table_new, region_table_push, symbol_rows, symbol_table_get,
    symbol_table_new, symbol_table_set, Node, NodeTable, RegionRecord, RegionTable, RegionView,
    SymbolTable,
};
use std::collections::HashMap;
use vstd::prelude::*;
use vstd::std_specs::convert::IntoSpec;

verus! {

/// The child regions of a node that has one.
pub type OneRegion = [id::Region; 1];

/// The child regions of a node that has none.
pub type NoRegion = [id::Region; 0];

/// The context for a whole translation unit.
#[derive(Debug)]
pub struct TranslationUnitContext {
    nodes: NodeTable,
    regions: RegionTable,
    symbols: SymbolTable,
    /// The current region: where nodes, arguments, results and edges are added.
    pub region: id::Region,
}

impl View for TranslationUnitContext {
    type V = Graph;

    closed spec fn view(&self) -> Graph {
        Graph {
            nodes: node_rows(self.nodes),
            regions: region_rows(self.regions),
            symbols: symbol_rows(self.symbols),
        }
    }
}

/// Whether `list` holds `node`.
pub fn holds_node(list: &Vec<id::AnyNode>, node: id::AnyNode) -> (found: bool)
    ensures
        found == list@.contains(node),
{
    let mut i: usize = 0;
    while i < list.len()
        invariant
            i <= list.len(),
            forall|j: int| 0 <= j < i ==> list@[j] != node,
        decreases list.len() - i,
    {
        if list[i] == node {
            return true;
        }
        i += 1;
    }
    false
}

impl TranslationUnitContext {
    /// The current region.
    pub closed spec fn current(&self) -> id::Region {
        self.region
    }

    /// The unit obeys the rules of the model, and the current region is one of
    /// its regions.
    pub open spec fn wf(&self) -> bool {
        &&& self@.wf()
        &&& self@.has_region(self.current())
    }

    /// A translation unit with its root region, which is region 0 and the
    /// current region.
    pub fn new() -> (unit: Self)
        ensures
            unit@ == Graph::root_only(),
            unit.current() == id::Region(0),
            unit.wf(),
            unit@.edges_visible(),
            unit@.rooted(),
    {
        let mut unit = TranslationUnitContext {
            nodes: node_table_new(),
            regions: region_table_new(),
            symbols: symbol_table_new(),
            region: id::Region::from_u32(0),
        };
        unit.add_region(0, 0);
        proof {
            assert(unit@.regions =~= Graph::root_only().regions);
        }
        unit
    }

    /// The current region.
    pub fn current_region(&self) -> (r: id::Region)
        ensures
            r == self.current(),
    {
        self.region
    }

    /// Makes `region` the current region. Nothing is checked.
    pub fn switch_region(&mut self, region: id::Region)
        ensures
            final(self)@ == old(self)@,
            final(self).current() == region,
    {
        self.region = region;
    }

    /// The number of nodes.
    pub fn node_count(&self) -> (n: usize)
        ensures
            n == self@.nodes.len(),
    {
        node_table_len(&self.nodes)
    }

    /// The number of regions.
    pub fn region_count(&self) -> (n: usize)
        ensures
            n == self@.regions.len(),
    {
        region_table_len(&self.regions)
    }

    /// Adds a region with the given numbers of arguments and results, without
    /// owner, nodes or edges, and returns its id.
    pub fn add_region(&mut self, arguments: u32, results: u32) -> (r: id::Region)
        requires
            old(self)@.regions.len() < u32::MAX,
        ensures
            final(self)@ == old(self)@.add_region(arguments, results),
            final(self).current() == old(self).current(),
            r.0 == old(self)@.regions.len(),
            old(self).wf() ==> final(self).wf(),
            old(self).wf() && old(self)@.edges_visible() ==> final(self)@.edges_visible(),
    {
        proof {
            if self.wf() {
                lemma_add_region(self@, arguments, results);
            }
        }
        region_table_push(
            &mut self.regions,
            RegionRecord {
                container_node: None,
                arguments,
                results,
                edges: Vec::new(),
                nodes: Vec::new(),
            },
        )
    }

    /// The inputs of a node, in order.
    pub fn inputs(&self, node: id::AnyNode) -> (ports: Vec<id::Input>)
        requires
            self@.has_node(node),
        ensures
            ports@ == Seq::new(self@.node(node).inputs as nat, |i: int| id::Input(i as u32)),
    {
        let count = node_table_get(&self.nodes, node).inputs;
        let mut ports: Vec<id::Input> = Vec::new();
        let mut i: u32 = 0;
        while i < count
            invariant
                i <= count,
                ports@ == Seq::new(i as nat, |k: int| id::Input(k as u32)),
            decreases count - i,
        {
            ports.push(id::Input::from_u32(i));
            i += 1;
            assert(ports@ =~= Seq::new(i as nat, |k: int| id::Input(k as u32)));
        }
        ports
    }

    /// The outputs of a node, in order.
    pub fn outputs(&self, node: id::AnyNode) -> (ports: Vec<id::Output>)
        requires
            self@.has_node(node),
        ensures
            ports@ == Seq::new(self@.node(node).outputs as nat, |i: int| id::Output(i as u32)),
    {
        let count = node_table_get(&self.nodes, node).outputs;
        let mut ports: Vec<id::Output> = Vec::new();
        let mut i: u32 = 0;
        while i < count
            invariant
                i <= count,
                ports@ == Seq::new(i as nat, |k: int| id::Output(k as u32)),
            decreases count - i,
        {
            ports.push(id::Output::from_u32(i));
            i += 1;
            assert(ports@ =~= Seq::new(i as nat, |k: int| id::Output(k as u32)));
        }
        ports
    }

    /// The arguments of a region, in order.
    pub fn arguments(&self, region: id::Region) -> (ports: Vec<id::Argument>)
        requires
            self@.has_region(region),
        ensures
            ports@ == Seq::new(self@.reg(region).arguments as nat, |i: int| id::Argument(i as u32)),
    {
        let count = region_table_get(&self.regions, region).arguments;
        let mut ports: Vec<id::Argument> = Vec::new();
        let mut i: u32 = 0;
        while i < count
            invariant
                i <= count,
                ports@ == Seq::new(i as nat, |k: int| id::Argument(k as u32)),
            decreases count - i,
        {
            ports.push(id::Argument::from_u32(i));
            i += 1;
            assert(ports@ =~= Seq::new(i as nat, |k: int| id::Argument(k as u32)));
        }
        ports
    }

    /// The results of a region, in order.
    pub fn results(&self, region: id::Region) -> (ports: Vec<id::Result>)
        requires
            self@.has_region(region),
        ensures
            ports@ == Seq::new(self@.reg(region).results as nat, |i: int| id::Result(i as u32)),
    {
        let count = region_table_get(&self.regions, region).results;
        let mut ports: Vec<id::Result> = Vec::new();
        let mut i: u32 = 0;
        while i < count
            invariant
                i <= count,
                ports@ == Seq::new(i as nat, |k: int| id::Result(k as u32)),
            decreases count - i,
        {
            ports.push(id::Result::from_u32(i));
            i += 1;
            assert(ports@ =~= Seq::new(i as nat, |k: int| id::Result(k as u32)));
        }
        ports
    }

    /// The nodes that a region holds, in order.
    pub fn nodes(&self, region: id::Region) -> (list: &[id::AnyNode])
        requires
            self@.has_region(region),
        ensures
            list@ == self@.reg(region).nodes,
    {
        region_table_get(&self.regions, region).nodes.as_slice()
    }

    /// The edges that a region stores, in the order in which they were added.
    pub fn edges(&self, region: id::Region) -> (list: &[Edge])
        requires
            self@.has_region(region),
        ensures
            list@ == self@.reg(region).edges,
    {
        region_table_get(&self.regions, region).edges.as_slice()
    }

    /// The node that owns a region, if it has an owner.
    pub fn container_node(&self, region: id::Region) -> (owner: Option<id::AnyNode>)
        requires
            self@.has_region(region),
        ensures
            owner == self@.reg(region).container_node,
    {
        region_table_get(&self.regions, region).container_node
    }

    /// The region in which a node was made.
    pub fn node_region(&self, node: id::AnyNode) -> (region: id::Region)
        requires
            self@.has_node(node),
        ensures
            region == self@.node(node).region,
    {
        node_table_get(&self.nodes, node).region
    }

    /// The classifier of a node's kind.
    pub fn node_type(&self, node: id::AnyNode) -> (tag: &'static str)
        requires
            self@.has_node(node),
        ensures
            tag@ == self@.node(node).kind.tag(),
    {
        node_table_get(&self.nodes, node).kind.node_type()
    }

    /// The stored name of a node; none if the unit stores none for it.
    pub fn symbol(&self, node: id::AnyNode) -> (name: Option<&String>)
        ensures
            match name {
                Some(s) => self@.symbol(node) == Some(s@),
                None => self@.symbol(node) is None,
            },
    {
        symbol_table_get(&self.symbols, node)
    }

    /// Gives a node a name, in place of the one it had.
    pub fn add_symbol(&mut self, node: id::AnyNode, sym: String)
        requires
            node.0 < u32::MAX,
        ensures
            final(self)@ == old(self)@.add_symbol(node, sym@),
            final(self).current() == old(self).current(),
            old(self).wf() ==> final(self).wf(),
            old(self).wf() && old(self)@.edges_visible() ==> final(self)@.edges_visible(),
            old(self).wf() && old(self)@.rooted() ==> final(self)@.rooted(),
    {
        proof {
            if self.wf() {
                lemma_add_symbol(self@, node, sym@);
            }
        }
        symbol_table_set(&mut self.symbols, node, sym);
    }

    /// The only child region of a node.
    pub fn region(&self, node: id::AnyNode) -> (r: id::Region)
        requires
            self@.has_node(node),
            self@.node(node).regions.len() == 1,
        ensures
            r == self@.node(node).regions[0],
    {
        node_table_get(&self.nodes, node).regions[0]
    }

    /// The child regions of a node, in order.
    pub fn regions(&self, node: id::AnyNode) -> (list: &[id::Region])
        requires
            self@.has_node(node),
        ensures
            list@ == self@.node(node).regions,
    {
        node_table_get(&self.nodes, node).regions.as_slice()
    }

    /// The output of a lambda that stands for the function: its first.
    pub fn lambda_output(&self, _node: id::Node<Lambda>) -> (output: id::Output)
        ensures
            output == id::Output(0),
    {
        id::Output::from_u32(0)
    }

    /// The record of a node of kind `K`.
    pub fn get<K: NodeKind>(&self, id: id::Node<K>) -> (record: &K)
        requires
            self@.has_node(id.id),
            K::of_kind(self@.node(id.id).kind) is Some,
        ensures
            K::of_kind(self@.node(id.id).kind) == Some(*record),
            record.as_kind() == self@.node(id.id).kind,
    {
        let found = K::from_kind(&node_table_get(&self.nodes, id.id).kind);
        match found {
            Some(record) => record,
            None => vstd::pervasive::unreached(),
        }
    }

    /// Adds an output to a node and returns it.
    pub fn add_output<K>(&mut self, node: id::Node<K>) -> (output: Output<K>)
        requires
            old(self).wf(),
            old(self)@.has_node(node.id),
            old(self)@.node(node.id).outputs < u32::MAX,
        ensures
            final(self)@ == old(self)@.add_output(node.id),
            final(self).current() == old(self).current(),
            final(self).wf(),
            output.node == node,
            output.id.0 == old(self)@.node(node.id).outputs,
            old(self)@.edges_visible() ==> final(self)@.edges_visible(),
            old(self)@.rooted() ==> final(self)@.rooted(),
    {
        proof {
            lemma_add_output(self@, node.id);
        }
        let record = node_table_get_mut(&mut self.nodes, node.id);
        let output = id::Output::from_u32(record.outputs);
        record.outputs = record.outputs + 1;
        Output { id: output, node }
    }

    /// Adds an argument to the current region and returns it.
    pub fn add_argument(&mut self) -> (argument: Argument)
        requires
            old(self).wf(),
            old(self)@.reg(old(self).current()).arguments < u32::MAX,
        ensures
            final(self)@ == old(self)@.add_argument(old(self).current()),
            final(self).current() == old(self).current(),
            final(self).wf(),
            argument.region == old(self).current(),
            argument.id.0 == old(self)@.reg(old(self).current()).arguments,
            old(self)@.edges_visible() ==> final(self)@.edges_visible(),
            old(self)@.rooted() ==> final(self)@.rooted(),
    {
        proof {
            lemma_add_argument(self@, self.current());
        }
        let record = region_table_get_mut(&mut self.regions, self.region);
        let argument = id::Argument::from_u32(record.arguments);
        record.arguments = record.arguments + 1;
        Argument { id: argument, region: self.region }
    }

    /// Adds a result to the current region and returns it.
    pub fn add_result(&mut self) -> (result: crate::edge::Result)
        requires
            old(self).wf(),
            old(self)@.reg(old(self).current()).results < u32::MAX,
        ensures
            final(self)@ == old(self)@.add_result(old(self).current()),
            final(self).current() == old(self).current(),
            final(self).wf(),
            result.region == old(self).current(),
            result.id.0 == old(self)@.reg(old(self).current()).results,
            old(self)@.edges_visible() ==> final(self)@.edges_visible(),
            old(self)@.rooted() ==> final(self)@.rooted(),
    {
        proof {
            lemma_add_result(self@, self.current());
        }
        let record = region_table_get_mut(&mut self.regions, self.region);
        let result = id::Result::from_u32(record.results);
        record.results = record.results + 1;
        crate::edge::Result { id: result, region: self.region }
    }

    /// The record of a node of kind `K`, to be changed in place.
    pub fn get_mut<K: NodeKind>(&mut self, id: id::Node<K>) -> (record: &mut K)
        requires
            old(self)@.has_node(id.id),
            K::of_kind(old(self)@.node(id.id).kind) is Some,
        ensures
            K::of_kind(old(self)@.node(id.id).kind) == Some(*record),
            final(self)@ == old(self)@.set_kind(id.id, final(record).as_kind()),
            final(self).current() == old(self).current(),
            old(self).wf() ==> final(self).wf(),
            old(self).wf() && old(self)@.edges_visible() ==> final(self)@.edges_visible(),
            old(self).wf() && old(self)@.rooted() ==> final(self)@.rooted(),
    {
        proof {
            if self.wf() {
                lemma_set_kind(self@, id.id);
            }
        }
        let node = node_table_get_mut(&mut self.nodes, id.id);
        let found = K::from_kind_mut(&mut node.kind);
        match found {
            Some(record) => record,
            None => vstd::pervasive::unreached(),
        }
    }

    /// Adds an input to a node and returns it. Each child region of the node
    /// gets one more argument, its last, which stands for the input.
    pub fn add_input<K>(&mut self, node: id::Node<K>) -> (input: Input<K>)
        requires
            old(self).wf(),
            old(self)@.has_node(node.id),
            old(self)@.input_fits(node.id),
        ensures
            final(self)@ == old(self)@.add_input(node.id),
            final(self).current() == old(self).current(),
            final(self).wf(),
            input.node == node,
            input.id.0 == old(self)@.node(node.id).inputs,
            old(self)@.edges_visible() ==> final(self)@.edges_visible(),
            old(self)@.rooted() ==> final(self)@.rooted(),
    {
        let ghost before = self@;
        proof {
            lemma_add_input(before, node.id);
        }
        let record = node_table_get_mut(&mut self.nodes, node.id);
        let input = id::Input::from_u32(record.inputs);
        record.inputs = record.inputs + 1;
        let record = node_table_get(&self.nodes, node.id);
        let ghost kids = before.node(node.id).regions;
        let ghost current = self.region;
        let count = record.regions.len();
        let mut j: usize = 0;
        while j < count
            invariant
                self.region == current,
                node_rows(self.nodes) == before.add_input(node.id).nodes,
                symbol_rows(self.symbols) == before.symbols,
                before.wf(),
                before.has_node(node.id),
                before.input_fits(node.id),
                kids == before.node(node.id).regions,
                record.regions@ == kids,
                count == kids.len(),
                j <= count,
                region_rows(self.regions).len() == before.regions.len(),
                forall|i: int|
                    0 <= i < before.regions.len() ==> (#[trigger] region_rows(self.regions)[i]) == (if kids.take(
                        j as int,
                    ).contains(id::Region(i as u32)) {
                        RegionView {
                            arguments: (before.regions[i].arguments + 1) as u32,
                            ..before.regions[i]
                        }
                    } else {
                        before.regions[i]
                    }),
            decreases count - j,
        {
            let r = record.regions[j];
            proof {
                assert(before.has_region(before.nodes[node.id.0 as int].regions[j as int]));
                assert(before.reg(before.node(node.id).regions[j as int]).arguments < u32::MAX);
                assert(!kids.take(j as int).contains(r)) by {
                    let done = kids.take(j as int);
                    if done.contains(r) {
                        let k = choose|k: int| 0 <= k < done.len() && done[k] == r;
                        assert(kids[k] == kids[j as int]);
                    }
                }
                assert(id::Region(r.0 as int as u32) == r);
            }
            let ghost rows = region_rows(self.regions);
            let region = region_table_get_mut(&mut self.regions, r);
            region.arguments = region.arguments + 1;
            proof {
                assert forall|i: int| 0 <= i < before.regions.len() implies (#[trigger] region_rows(
                    self.regions,
                )[i]) == (if kids.take(j + 1).contains(id::Region(i as u32)) {
                    RegionView {
                        arguments: (before.regions[i].arguments + 1) as u32,
                        ..before.regions[i]
                    }
                } else {
                    before.regions[i]
                }) by {
                    let x = id::Region(i as u32);
                    let done = kids.take(j as int);
                    let next = kids.take(j + 1);
                    assert(next =~= done.push(r));
                    if done.contains(x) {
                        let k = choose|k: int| 0 <= k < done.len() && done[k] == x;
                        assert(next[k] == x);
                    }
                    if i == r.0 {
                        assert(next[j as int] == x);
                    }
                    if next.contains(x) && i != r.0 {
                        let k = choose|k: int| 0 <= k < next.len() && next[k] == x;
                        assert(done[k] == x);
                    }
                    assert(rows[i] == region_rows(self.regions)[i] || i == r.0);
                }
            }
            j += 1;
        }
        proof {
            assert(kids.take(count as int) =~= kids);
            assert(region_rows(self.regions) =~= before.add_input(node.id).regions);
        }
        Input { id: input, node }
    }

    /// The argument of a node's only child region that stands for an input of
    /// the node: the region's own arguments come first, then one argument for
    /// each input.
    pub fn input_as_argument<K>(&self, input: Input<K>) -> (argument: Argument)
        requires
            self.wf(),
            self@.has_node(input.node.id),
            self@.node(input.node.id).regions.len() == 1,
            self@.custom_arguments(input.node.id, self@.node(input.node.id).regions[0]) + input.id.0
                <= u32::MAX,
        ensures
            argument == self@.input_as_argument(input.node.id, input.id),
    {
        let region = self.region(input.node.id);
        proof {
            assert(self@.has_region(self@.nodes[input.node.id.0 as int].regions[0]));
            assert(self@.regions[region.0 as int].container_node == Some(
                self@.nodes[input.node.id.0 as int].id,
            ));
            assert(self@.nodes[input.node.id.0 as int].id == input.node.id);
        }
        let args = region_table_get(&self.regions, region).arguments;
        let inputs = node_table_get(&self.nodes, input.node.id).inputs;
        let node_custom_args = args - inputs;
        let forwarded_arg = node_custom_args + input.id.as_u32();
        Argument { id: id::Argument::from_u32(forwarded_arg), region }
    }

    /// The input of a region's owner for which an argument of the region
    /// stands; none if the region has no owner or if the argument is one of
    /// the region's own.
    pub fn argument_as_input(&self, region: id::Region, argument: id::Argument) -> (input: Option<
        Input<id::AnyNode>,
    >)
        requires
            self.wf(),
            self@.has_region(region),
        ensures
            match input {
                Some(i) => self@.argument_as_input(region, argument) == Some((i.node.id, i.id)),
                None => self@.argument_as_input(region, argument) is None,
            },
    {
        let record = region_table_get(&self.regions, region);
        let args = record.arguments;
        match record.container_node {
            None => None,
            Some(node) => {
                proof {
                    assert(self@.regions[region.0 as int].container_node == Some(node));
                }
                let inputs = node_table_get(&self.nodes, node).inputs;
                let node_custom_args = args - inputs;
                if argument.as_u32() >= node_custom_args {
                    Some(
                        Input {
                            node: id::Node::new(node),
                            id: id::Input::from_u32(argument.as_u32() - node_custom_args),
                        },
                    )
                } else {
                    None
                }
            },
        }
    }

    /// Whether the current region holds a node.
    pub fn holds(&self, node: id::AnyNode) -> (found: bool)
        requires
            self.wf(),
        ensures
            found == self@.reg(self.current()).nodes.contains(node),
    {
        holds_node(&region_table_get(&self.regions, self.region).nodes, node)
    }

    /// Adds an edge to the current region. Nothing is forwarded: both ends
    /// have to be visible in the current region.
    pub fn raw_connect_asserted<O: Into<Origin>, U: Into<User>>(&mut self, origin: O, user: U)
        requires
            old(self).wf(),
            O::obeys_into_spec(),
            U::obeys_into_spec(),
            old(self)@.origin_visible(old(self).current(), origin.into_spec()),
            old(self)@.user_visible(old(self).current(), user.into_spec()),
        ensures
            final(self)@ == old(self)@.raw_connect(
                old(self).current(),
                origin.into_spec(),
                user.into_spec(),
            ),
            final(self).current() == old(self).current(),
            final(self).wf(),
            old(self)@.edges_visible() ==> final(self)@.edges_visible(),
            old(self)@.rooted() ==> final(self)@.rooted(),
    {
        self.raw_connect_visible(origin.into(), user.into());
    }

    /// Adds an edge between two ports that are visible in the current region.
    pub(crate) fn raw_connect_visible(&mut self, origin: Origin, user: User)
        requires
            old(self).wf(),
            old(self)@.origin_visible(old(self).current(), origin),
            old(self)@.user_visible(old(self).current(), user),
        ensures
            final(self)@ == old(self)@.raw_connect(old(self).current(), origin, user),
            final(self).current() == old(self).current(),
            final(self).wf(),
            old(self)@.edges_visible() ==> final(self)@.edges_visible(),
            old(self)@.rooted() ==> final(self)@.rooted(),
    {
        proof {
            lemma_raw_connect(self@, self.current(), origin, user);
        }
        self.raw_connect(origin, user);
    }

    /// Adds an edge to the current region, whatever its ends are.
    fn raw_connect(&mut self, origin: Origin, user: User)
        requires
            old(self)@.has_region(old(self).current()),
        ensures
            final(self)@ == old(self)@.raw_connect(old(self).current(), origin, user),
            final(self).current() == old(self).current(),
    {
        let record = region_table_get_mut(&mut self.regions, self.region);
        record.edges.push(Edge { origin, user });
    }

    /// Moves a node that the current region holds to the end of the nodes of
    /// region `to`. Edges and owners stay as they are.
    pub fn move_node(&mut self, node: id::AnyNode, to: id::Region)
        requires
            old(self).wf(),
            old(self)@.has_region(to),
            old(self)@.reg(old(self).current()).nodes.contains(node),
        ensures
            final(self)@ == old(self)@.move_node(old(self).current(), node, to),
            final(self).current() == old(self).current(),
            final(self).wf(),
            old(self)@.rooted() ==> final(self)@.rooted(),
            old(self)@.edges_visible() && (old(self).current() == to || forall|j: int|
                0 <= j < old(self)@.reg(old(self).current()).edges.len() ==> !edge_names(
                    #[trigger] old(self)@.reg(old(self).current()).edges[j],
                    node,
                )) ==> final(self)@.edges_visible(),
    {
        let ghost before = self@;
        proof {
            lemma_move_node(before, self.current(), node, to);
            lemma_first_index(before.reg(self.current()).nodes, node, 0);
        }
        let record = region_table_get_mut(&mut self.regions, self.region);
        let ghost list = record.nodes@;
        let mut i: usize = 0;
        while i < record.nodes.len() && record.nodes[i] != node
            invariant
                record.nodes@ == list,
                i <= list.len(),
                first_index(list, node, 0) == first_index(list, node, i as int),
                first_index(list, node, 0) < list.len(),
            decreases list.len() - i,
        {
            i += 1;
        }
        record.nodes.remove(i);
        let target = region_table_get_mut(&mut self.regions, to);
        target.nodes.push(node);
    }

    /// Runs `f` with `region` as the current region and makes the region that
    /// was current before the current region again. Returns what `f` returned.
    pub fn in_region<T, F: FnOnce(&mut Self) -> T>(&mut self, region: id::Region, f: F) -> (v: T)
        requires
            forall|c: &mut Self|
                c@ == old(self)@ && c.current() == region ==> #[trigger] call_requires(f, (c,)),
        ensures
            final(self).current() == old(self).current(),
            exists|c: &mut Self|
                {
                    &&& c@ == old(self)@
                    &&& c.current() == region
                    &&& #[trigger] call_ensures(f, (c,), v)
                    &&& final(self)@ == final(c)@
                },
    {
        let previous = self.region;
        self.switch_region(region);
        let v = f(self);
        self.region = previous;
        v
    }

    /// Adds a node of kind `K` to the current region. `init` is given the
    /// unit and the id that the node will have, and returns the node's record
    /// and the regions that become its children; it may add regions, but no
    /// node. The node has no ports when it is returned.
    pub fn add_node<const N: usize, F, K: NodeKind>(&mut self, init: F) -> (node: id::Node<K>) where
        F: FnOnce(&mut Self, id::Node<K>) -> (K, [id::Region; N]),

        requires
            old(self).wf(),
            old(self)@.nodes.len() < u32::MAX,
            forall|c: &mut Self|
                c@ == old(self)@ && c.current() == old(self).current() ==> #[trigger] call_requires(
                    init,
                    (c, id::Node::<K>::of(old(self)@.next_node())),
                ),
            forall|c: &mut Self, out: (K, [id::Region; N])|
                c@ == old(self)@ && c.current() == old(self).current() && #[trigger] call_ensures(
                    init,
                    (c, id::Node::<K>::of(old(self)@.next_node())),
                    out,
                ) ==> {
                    &&& final(c).wf()
                    &&& final(c)@.nodes.len() == old(self)@.nodes.len()
                    &&& final(c)@.adoptable(final(c).current(), out.1@)
                },
        ensures
            node == id::Node::<K>::of(old(self)@.next_node()),
            final(self).wf(),
            exists|c: &mut Self, out: (K, [id::Region; N])|
                {
                    &&& c@ == old(self)@
                    &&& c.current() == old(self).current()
                    &&& #[trigger] call_ensures(init, (c, node), out)
                    &&& final(self).current() == final(c).current()
                    &&& final(self)@ == final(c)@.commit_node(
                        final(c).current(),
                        out.0.as_kind(),
                        out.1@,
                    )
                },
    {
                let any_node_id = node_table_next_key(&self.nodes);
        let node_id = id::Node::<K>::new(any_node_id);
        let (kind, regions) = init(self, node_id);
        let ghost before = self@;
        let ghost adopted = regions@;
        let ghost current = self.region;
        proof {
            lemma_commit_node(before, current, kind.as_kind(), adopted);
        }
        let mut kids: Vec<id::Region> = Vec::new();
        let mut j: usize = 0;
        while j < N
            invariant
                self.region == current,
                node_rows(self.nodes) == before.nodes,
                symbol_rows(self.symbols) == before.symbols,
                before.adoptable(current, adopted),
                before.regions.len() <= u32::MAX,
                adopted == regions@,
                adopted.len() == N,
                j <= N,
                kids@ == adopted.take(j as int),
                region_rows(self.regions).len() == before.regions.len(),
                forall|i: int|
                    0 <= i < before.regions.len() ==> (#[trigger] region_rows(self.regions)[i]) == (if adopted.take(
                        j as int,
                    ).contains(id::Region(i as u32)) {
                        RegionView { container_node: Some(any_node_id), ..before.regions[i] }
                    } else {
                        before.regions[i]
                    }),
            decreases N - j,
        {
            let r = regions[j];
            proof {
                assert(before.has_region(adopted[j as int]));
                assert(id::Region(r.0 as int as u32) == r);
            }
            let ghost rows = region_rows(self.regions);
            let record = region_table_get_mut(&mut self.regions, r);
            record.container_node = Some(any_node_id);
            kids.push(r);
            proof {
                assert forall|i: int| 0 <= i < before.regions.len() implies (#[trigger] region_rows(
                    self.regions,
                )[i]) == (if adopted.take(j + 1).contains(id::Region(i as u32)) {
                    RegionView { container_node: Some(any_node_id), ..before.regions[i] }
                } else {
                    before.regions[i]
                }) by {
                    let x = id::Region(i as u32);
                    let done = adopted.take(j as int);
                    let next = adopted.take(j + 1);
                    assert(next =~= done.push(r));
                    if done.contains(x) {
                        let k = choose|k: int| 0 <= k < done.len() && done[k] == x;
                        assert(next[k] == x);
                    }
                    if i == r.0 {
                        assert(next[j as int] == x);
                    }
                    if next.contains(x) && i != r.0 {
                        let k = choose|k: int| 0 <= k < next.len() && next[k] == x;
                        assert(done[k] == x);
                    }
                    assert(rows[i] == region_rows(self.regions)[i] || i == r.0);
                }
                assert(adopted.take(j + 1) =~= adopted.take(j as int).push(r));
            }
            j += 1;
        }
        proof {
            assert(adopted.take(N as int) =~= adopted);
        }
        let node = Node {
            kind: kind.into_kind(),
            region: self.region,
            inputs: 0,
            outputs: 0,
            regions: kids,
            id: any_node_id,
        };
        node_table_push(&mut self.nodes, node);
        let record = region_table_get_mut(&mut self.regions, self.region);
        record.nodes.push(any_node_id);
        proof {
            assert(region_rows(self.regions) =~= before.commit_node(
                current,
                kind.as_kind(),
                adopted,
            ).regions);
        }
        node_id
    }

    /// Creates a lambda node.
    ///
    /// A lambda node has one region, which is new, and one output, which
    /// stands for the function and is returned.
    pub fn add_lambda_node(&mut self) -> (output: Output<Lambda>)
        requires
            old(self).wf(),
            old(self)@.nodes.len() < u32::MAX,
            old(self)@.regions.len() < u32::MAX,
        ensures
            final(self)@ == old(self)@.spawn(
                old(self).current(),
                Kind::Lambda(Lambda {  }),
                fresh_region(0, 0),
            ).add_output(old(self)@.next_node()),
            output.node.id == old(self)@.next_node(),
            output.id == id::Output(0),
            final(self).current() == old(self).current(),
            final(self).wf(),
            old(self)@.edges_visible() ==> final(self)@.edges_visible(),
            old(self)@.rooted() ==> final(self)@.rooted(),
    {
        let ghost before = self@;
        let ghost current = self.current();
        proof {
            lemma_spawn(before, current, Kind::Lambda(Lambda {  }), 0, 0);
        }
        let init = |ctx: &mut Self, _id: id::Node<Lambda>| -> (out: (Lambda, OneRegion))
            requires
                old(ctx).wf(),
                old(ctx)@ == before,
                old(ctx).current() == current,
            ensures
                final(ctx)@ == before.add_region(0, 0),
                final(ctx).current() == current,
                final(ctx).wf(),
                out.0 == (Lambda {  }),
                out.1@ == only(before.next_region()),
            {
                let region = ctx.add_region(0, 0);
                let out = (Lambda {  }, [region]);
                assert(out.1@ =~= only(before.next_region()));
                out
            };
        let node_id = self.add_node(init);
        let output = self.add_output(node_id);
        output
    }

    /// Creates a node for the initializer of a global value.
    ///
    /// The node has one region, which is new and has one result, the value,
    /// and one output, which stands for the value. Returns that result of the
    /// region and the output.
    pub fn add_globalv_node(&mut self) -> (output: (id::Result, Output<GlobalV>))
        requires
            old(self).wf(),
            old(self)@.nodes.len() < u32::MAX,
            old(self)@.regions.len() < u32::MAX,
        ensures
            final(self)@ == old(self)@.spawn(
                old(self).current(),
                Kind::GlobalV(GlobalV {  }),
                fresh_region(0, 1),
            ).add_output(old(self)@.next_node()),
            output.1.node.id == old(self)@.next_node(),
            output.1.id == id::Output(0),
            output.0 == id::Result(0),
            final(self).current() == old(self).current(),
            final(self).wf(),
            old(self)@.edges_visible() ==> final(self)@.edges_visible(),
            old(self)@.rooted() ==> final(self)@.rooted(),
    {
        let ghost before = self@;
        let ghost current = self.current();
        proof {
            lemma_spawn(before, current, Kind::GlobalV(GlobalV {  }), 0, 1);
        }
        let init = |ctx: &mut Self, _id: id::Node<GlobalV>| -> (out: (GlobalV, OneRegion))
            requires
                old(ctx).wf(),
                old(ctx)@ == before,
                old(ctx).current() == current,
            ensures
                final(ctx)@ == before.add_region(0, 1),
                final(ctx).current() == current,
                final(ctx).wf(),
                out.0 == (GlobalV {  }),
                out.1@ == only(before.next_region()),
            {
                let region = ctx.add_region(0, 1);
                let out = (GlobalV {  }, [region]);
                assert(out.1@ =~= only(before.next_region()));
                out
            };
        let node_id = self.add_node(init);
        let output = self.add_output(node_id);
        (id::Result::from_u32(0), output)
    }

    /// Creates a recursion environment.
    ///
    /// The node has one region, which is new, for lambdas that may call each
    /// other, and no ports: it gets an output for each lambda that is bound in
    /// it. No lambda is bound yet.
    pub fn add_recenv_node(&mut self) -> (node: id::Node<RecEnv>)
        requires
            old(self).wf(),
            old(self)@.nodes.len() < u32::MAX,
            old(self)@.regions.len() < u32::MAX,
        ensures
            final(self)@ == old(self)@.spawn(
                old(self).current(),
                final(self)@.node(node.id).kind,
                fresh_region(0, 0),
            ),
            final(self)@.node(node.id).kind matches Kind::RecEnv(env) && env.lambdas@ == Map::<
                u32,
                (id::Argument, id::Output),
            >::empty(),
            node.id == old(self)@.next_node(),
            final(self).current() == old(self).current(),
            final(self).wf(),
            old(self)@.edges_visible() ==> final(self)@.edges_visible(),
            old(self)@.rooted() ==> final(self)@.rooted(),
    {
        let ghost before = self@;
        let ghost current = self.current();
        let init = |ctx: &mut Self, _id: id::Node<RecEnv>| -> (out: (RecEnv, OneRegion))
            requires
                old(ctx).wf(),
                old(ctx)@ == before,
                old(ctx).current() == current,
            ensures
                final(ctx)@ == before.add_region(0, 0),
                final(ctx).current() == current,
                final(ctx).wf(),
                out.0.lambdas@ == Map::<u32, (id::Argument, id::Output)>::empty(),
                out.1@ == only(before.next_region()),
            {
                let region = ctx.add_region(0, 0);
                let lambdas = HashMap::new();
                let out = (RecEnv { lambdas }, [region]);
                assert(out.1@ =~= only(before.next_region()));
                out
            };
        let node_id = self.add_node(init);
        proof {
            lemma_spawn(before, current, self@.node(node_id.id).kind, 0, 0);
        }
        node_id
    }

    /// Creates a number node.
    ///
    /// A number node has no regions and one output, the number, which is
    /// returned.
    pub fn add_number_node(&mut self, n: i128) -> (port: Output<Number>)
        requires
            old(self).wf(),
            old(self)@.nodes.len() < u32::MAX,
        ensures
            final(self)@ == old(self)@.commit_node(
                old(self).current(),
                Kind::Number(Number(n)),
                Seq::empty(),
            ).add_output(old(self)@.next_node()),
            port.node.id == old(self)@.next_node(),
            port.id.0 == 0,
            final(self).current() == old(self).current(),
            final(self).wf(),
            old(self)@.edges_visible() ==> final(self)@.edges_visible(),
            old(self)@.rooted() ==> final(self)@.rooted(),
    {
        let ghost before = self@;
        let ghost current = self.current();
        proof {
            lemma_leaf(before, current, Kind::Number(Number(n)));
        }
        let init = |ctx: &mut Self, _id: id::Node<Number>| -> (out: (Number, NoRegion))
            requires
                old(ctx).wf(),
                old(ctx)@ == before,
                old(ctx).current() == current,
            ensures
                final(ctx)@ == before,
                final(ctx).current() == current,
                final(ctx).wf(),
                out.0 == (Number(n)),
                out.1@ == Seq::<id::Region>::empty(),
            {
                let out = (Number(n), []);
                assert(out.1@ =~= Seq::<id::Region>::empty());
                out
            };
        let node_id = self.add_node(init);
        proof {
            assert(self@.node(node_id.id).regions.len() == 0);
            assert(self@.input_fits(node_id.id));
        }
        self.add_output(node_id)
    }

    /// Creates an apply node.
    ///
    /// An apply node has no regions. Its first input, which is returned, takes
    /// the function; the inputs added later take the function's arguments.
    pub fn add_apply_node(&mut self) -> (port: Input<Apply>)
        requires
            old(self).wf(),
            old(self)@.nodes.len() < u32::MAX,
        ensures
            final(self)@ == old(self)@.commit_node(
                old(self).current(),
                Kind::Apply(Apply {  }),
                Seq::empty(),
            ).add_input(old(self)@.next_node()),
            port.node.id == old(self)@.next_node(),
            port.id.0 == 0,
            final(self).current() == old(self).current(),
            final(self).wf(),
            old(self)@.edges_visible() ==> final(self)@.edges_visible(),
            old(self)@.rooted() ==> final(self)@.rooted(),
    {
        let ghost before = self@;
        let ghost current = self.current();
        proof {
            lemma_leaf(before, current, Kind::Apply(Apply {  }));
        }
        let init = |ctx: &mut Self, _id: id::Node<Apply>| -> (out: (Apply, NoRegion))
            requires
                old(ctx).wf(),
                old(ctx)@ == before,
                old(ctx).current() == current,
            ensures
                final(ctx)@ == before,
                final(ctx).current() == current,
                final(ctx).wf(),
                out.0 == (Apply {  }),
                out.1@ == Seq::<id::Region>::empty(),
            {
                let out = (Apply {  }, []);
                assert(out.1@ =~= Seq::<id::Region>::empty());
                out
            };
        let node_id = self.add_node(init);
        proof {
            assert(self@.node(node_id.id).regions.len() == 0);
            assert(self@.input_fits(node_id.id));
        }
        self.add_input(node_id)
    }

    /// Creates a placeholder node: a primitive that is known by its name only.
    ///
    /// A placeholder node has no regions and starts with one output, which is
    /// returned.
    pub fn add_placeholder_node(&mut self, name: &'static str) -> (port: Output<Placeholder>)
        requires
            old(self).wf(),
            old(self)@.nodes.len() < u32::MAX,
        ensures
            final(self)@ == old(self)@.commit_node(
                old(self).current(),
                Kind::Placeholder(Placeholder(name)),
                Seq::empty(),
            ).add_output(old(self)@.next_node()),
            port.node.id == old(self)@.next_node(),
            port.id.0 == 0,
            final(self).current() == old(self).current(),
            final(self).wf(),
            old(self)@.edges_visible() ==> final(self)@.edges_visible(),
            old(self)@.rooted() ==> final(self)@.rooted(),
    {
        let ghost before = self@;
        let ghost current = self.current();
        proof {
            lemma_leaf(before, current, Kind::Placeholder(Placeholder(name)));
        }
        let init = |ctx: &mut Self, _id: id::Node<Placeholder>| -> (out: (Placeholder, NoRegion))
            requires
                old(ctx).wf(),
                old(ctx)@ == before,
                old(ctx).current() == current,
            ensures
                final(ctx)@ == before,
                final(ctx).current() == current,
                final(ctx).wf(),
                out.0 == (Placeholder(name)),
                out.1@ == Seq::<id::Region>::empty(),
            {
                let out = (Placeholder(name), []);
                assert(out.1@ =~= Seq::<id::Region>::empty());
                out
            };
        let node_id = self.add_node(init);
        proof {
            assert(self@.node(node_id.id).regions.len() == 0);
            assert(self@.input_fits(node_id.id));
        }
        self.add_output(node_id)
    }
}

} // verus!
