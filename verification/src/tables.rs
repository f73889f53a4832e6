//! The entity tables: the records of all nodes and regions, and the names of
//! nodes.
//!
//! The tables are dense maps of `cranelift_entity`, keyed by entity id. This
//! file holds them and the calls into that crate; the contracts of those calls
//! are taken from the crate's source and are not proved here.

use crate::edge::Edge;
use crate::id;
use crate::nodes::Kind;
use cranelift_entity::PrimaryMap;
use cranelift_entity::SecondaryMap;
use vstd::prelude::*;

verus! {

/// The record of a node.
#[derive(Debug)]
pub struct Node {
    /// The node's own id.
    pub id: id::AnyNode,
    /// The region in which the node was made.
    pub region: id::Region,
    pub inputs: u32,
    pub outputs: u32,
    /// The child regions, in the order in which the node got them.
    pub regions: Vec<id::Region>,
    pub kind: Kind,
}

/// The record of a region.
#[derive(Debug)]
pub struct RegionRecord {
    /// The node that owns the region; none for the root and for a region that
    /// no node has taken yet.
    pub container_node: Option<id::AnyNode>,
    pub arguments: u32,
    pub results: u32,
    /// The edges, in the order in which they were added.
    pub edges: Vec<Edge>,
    /// The nodes that the region holds, in order.
    pub nodes: Vec<id::AnyNode>,
}

/// What a node's record says.
pub struct NodeView {
    pub id: id::AnyNode,
    pub region: id::Region,
    pub inputs: u32,
    pub outputs: u32,
    pub regions: Seq<id::Region>,
    pub kind: Kind,
}

/// What a region's record says.
pub struct RegionView {
    pub container_node: Option<id::AnyNode>,
    pub arguments: u32,
    pub results: u32,
    pub edges: Seq<Edge>,
    pub nodes: Seq<id::AnyNode>,
}

impl View for Node {
    type V = NodeView;

    open spec fn view(&self) -> NodeView {
        NodeView {
            id: self.id,
            region: self.region,
            inputs: self.inputs,
            outputs: self.outputs,
            regions: self.regions@,
            kind: self.kind,
        }
    }
}

impl View for RegionRecord {
    type V = RegionView;

    open spec fn view(&self) -> RegionView {
        RegionView {
            container_node: self.container_node,
            arguments: self.arguments,
            results: self.results,
            edges: self.edges@,
            nodes: self.nodes@,
        }
    }
}

/// The table of nodes: a `cranelift_entity::PrimaryMap` from node id to record.
#[derive(Debug)]
#[verifier::external_body]
pub struct NodeTable {
    map: PrimaryMap<id::AnyNode, Node>,
}

/// The table of regions: a `cranelift_entity::PrimaryMap` from region id to
/// record.
#[derive(Debug)]
#[verifier::external_body]
pub struct RegionTable {
    map: PrimaryMap<id::Region, RegionRecord>,
}

/// The names of nodes: a `cranelift_entity::SecondaryMap` from node id to
/// `String`.
#[derive(Debug)]
#[verifier::external_body]
pub struct SymbolTable {
    map: SecondaryMap<id::AnyNode, String>,
}

/// The records that a node table holds: row `i` is the record of node `i`.
pub uninterp spec fn node_rows(t: NodeTable) -> Seq<NodeView>;

/// The records that a region table holds: row `i` is the record of region `i`.
pub uninterp spec fn region_rows(t: RegionTable) -> Seq<RegionView>;

/// The names that a symbol table stores: row `i` is the name of node `i`. A
/// node beyond the last row has no stored name.
pub uninterp spec fn symbol_rows(t: SymbolTable) -> Seq<Seq<char>>;

/// The rows of a symbol table after node `k` was given the name `name`: rows
/// that were missing up to `k` hold the empty name.
pub open spec fn named(rows: Seq<Seq<char>>, k: int, name: Seq<char>) -> Seq<Seq<char>> {
    if k < rows.len() {
        rows.update(k, name)
    } else {
        (rows + Seq::new((k - rows.len()) as nat, |i: int| Seq::<char>::empty())).push(name)
    }
}

/// `PrimaryMap::new`: a table without rows.
#[verifier::external_body]
pub(crate) fn node_table_new() -> (t: NodeTable)
    ensures
        node_rows(t) == Seq::<NodeView>::empty(),
{
    NodeTable { map: PrimaryMap::new() }
}

/// `PrimaryMap::len`: the number of rows.
#[verifier::external_body]
pub(crate) fn node_table_len(t: &NodeTable) -> (n: usize)
    ensures
        n == node_rows(*t).len(),
{
    t.map.len()
}

/// `PrimaryMap::next_key`: the id that the next pushed record gets, which is
/// the number of rows.
#[verifier::external_body]
pub(crate) fn node_table_next_key(t: &NodeTable) -> (k: id::AnyNode)
    requires
        node_rows(*t).len() < u32::MAX,
    ensures
        k.0 == node_rows(*t).len(),
{
    t.map.next_key()
}

/// `PrimaryMap::push`: appends the record as the last row and returns its id,
/// the number of rows before.
#[verifier::external_body]
pub(crate) fn node_table_push(t: &mut NodeTable, v: Node) -> (k: id::AnyNode)
    requires
        node_rows(*old(t)).len() < u32::MAX,
    ensures
        node_rows(*final(t)) == node_rows(*old(t)).push(v@),
        k.0 == node_rows(*old(t)).len(),
{
    t.map.push(v)
}

/// `PrimaryMap`'s `Index::index`: the record of an id that the table has.
#[verifier::external_body]
pub(crate) fn node_table_get(t: &NodeTable, k: id::AnyNode) -> (r: &Node)
    requires
        k.0 < node_rows(*t).len(),
    ensures
        r@ == node_rows(*t)[k.0 as int],
{
    &t.map[k]
}

/// `PrimaryMap`'s `IndexMut::index_mut`: the record of an id that the table
/// has, to be changed in place; no other row changes.
#[verifier::external_body]
pub(crate) fn node_table_get_mut(t: &mut NodeTable, k: id::AnyNode) -> (r: &mut Node)
    requires
        k.0 < node_rows(*old(t)).len(),
    ensures
        r@ == node_rows(*old(t))[k.0 as int],
        node_rows(*final(t)) == node_rows(*old(t)).update(k.0 as int, final(r)@),
{
    &mut t.map[k]
}

/// `PrimaryMap::new`: a table without rows.
#[verifier::external_body]
pub(crate) fn region_table_new() -> (t: RegionTable)
    ensures
        region_rows(t) == Seq::<RegionView>::empty(),
{
    RegionTable { map: PrimaryMap::new() }
}

/// `PrimaryMap::len`: the number of rows.
#[verifier::external_body]
pub(crate) fn region_table_len(t: &RegionTable) -> (n: usize)
    ensures
        n == region_rows(*t).len(),
{
    t.map.len()
}

/// `PrimaryMap::push`: appends the record as the last row and returns its id,
/// the number of rows before.
#[verifier::external_body]
pub(crate) fn region_table_push(t: &mut RegionTable, v: RegionRecord) -> (k: id::Region)
    requires
        region_rows(*old(t)).len() < u32::MAX,
    ensures
        region_rows(*final(t)) == region_rows(*old(t)).push(v@),
        k.0 == region_rows(*old(t)).len(),
{
    t.map.push(v)
}

/// `PrimaryMap`'s `Index::index`: the record of an id that the table has.
#[verifier::external_body]
pub(crate) fn region_table_get(t: &RegionTable, k: id::Region) -> (r: &RegionRecord)
    requires
        k.0 < region_rows(*t).len(),
    ensures
        r@ == region_rows(*t)[k.0 as int],
{
    &t.map[k]
}

/// `PrimaryMap`'s `IndexMut::index_mut`: the record of an id that the table
/// has, to be changed in place; no other row changes.
#[verifier::external_body]
pub(crate) fn region_table_get_mut(t: &mut RegionTable, k: id::Region) -> (r: &mut RegionRecord)
    requires
        k.0 < region_rows(*old(t)).len(),
    ensures
        r@ == region_rows(*old(t))[k.0 as int],
        region_rows(*final(t)) == region_rows(*old(t)).update(k.0 as int, final(r)@),
{
    &mut t.map[k]
}

/// `SecondaryMap::new`: a table that stores no name.
#[verifier::external_body]
pub(crate) fn symbol_table_new() -> (t: SymbolTable)
    ensures
        symbol_rows(t) == Seq::<Seq<char>>::empty(),
{
    SymbolTable { map: SecondaryMap::new() }
}

/// `SecondaryMap::get`: the stored name of a node, if the table has a row for
/// it.
#[verifier::external_body]
pub(crate) fn symbol_table_get(t: &SymbolTable, k: id::AnyNode) -> (r: Option<&String>)
    ensures
        r is Some <==> k.0 < symbol_rows(*t).len(),
        r matches Some(s) ==> s@ == symbol_rows(*t)[k.0 as int],
{
    t.map.get(k)
}

/// Assignment through `SecondaryMap`'s `IndexMut::index_mut`: the table grows
/// with empty names up to the node's row, if it has to, and the node's row
/// holds the name.
#[verifier::external_body]
pub(crate) fn symbol_table_set(t: &mut SymbolTable, k: id::AnyNode, name: String)
    requires
        k.0 < u32::MAX,
    ensures
        symbol_rows(*final(t)) == named(symbol_rows(*old(t)), k.0 as int, name@),
{
    t.map[k] = name;
}

} // verus!
