//! Why building keeps the rules: what each step of building preserves, and
//! what a search for an origin leaves behind.

use crate::edge::{Edge, Origin, User};
use crate::graph::{first_index, fresh_region, only, Graph};
use crate::id;
use crate::nodes::Kind;
use crate::tables::{NodeView, RegionView};
use vstd::prelude::*;

verus! {

/// Adding a region keeps the rules and the visibility of edges.
pub proof fn lemma_add_region(g: Graph, arguments: u32, results: u32)
    requires
        g.wf(),
        g.regions.len() < u32::MAX,
    ensures
        g.add_region(arguments, results).wf(),
        g.edges_visible() ==> g.add_region(arguments, results).edges_visible(),
{
    let h = g.add_region(arguments, results);
    assert forall|i: int, j: int|
        0 <= i < h.nodes.len() && 0 <= j < h.nodes[i].regions.len() implies {
        let r = #[trigger] h.nodes[i].regions[j];
        &&& h.has_region(r)
        &&& h.reg(r).container_node == Some(h.nodes[i].id)
        &&& h.nodes[i].region.0 < r.0
    } by {
        let r = g.nodes[i].regions[j];
        assert(g.has_region(r));
    }
    assert forall|r: int| 0 <= r < h.regions.len() implies match (#[trigger] h.regions[r]).container_node {
        Some(n) => {
            &&& h.has_node(n)
            &&& h.node(n).regions.contains(id::Region(r as u32))
            &&& h.node(n).inputs <= h.regions[r].arguments
        },
        None => true,
    } by {
        if r < g.regions.len() {
            assert(h.regions[r] == g.regions[r]);
        }
    }
    assert forall|r: int, j: int|
        0 <= r < h.regions.len() && 0 <= j < h.regions[r].nodes.len() implies h.has_node(
        #[trigger] h.regions[r].nodes[j],
    ) by {
        assert(h.regions[r] == g.regions[r]);
    }
    if g.edges_visible() {
        assert forall|r: int, j: int|
            0 <= r < h.regions.len() && 0 <= j < h.regions[r].edges.len() implies {
            let e = #[trigger] h.regions[r].edges[j];
            &&& h.origin_visible(id::Region(r as u32), e.origin)
            &&& h.user_visible(id::Region(r as u32), e.user)
        } by {
            assert(h.regions[r] == g.regions[r]);
            let e = g.regions[r].edges[j];
            assert(g.origin_visible(id::Region(r as u32), e.origin));
        }
    }
}

/// One more output on a node keeps the rules, the visibility of edges and the
/// owners of regions.
pub proof fn lemma_add_output(g: Graph, n: id::AnyNode)
    requires
        g.wf(),
        g.has_node(n),
    ensures
        g.add_output(n).wf(),
        g.edges_visible() ==> g.add_output(n).edges_visible(),
        g.rooted() ==> g.add_output(n).rooted(),
{
    lemma_same_shape(g, g.add_output(n));
}

/// One more argument on a region keeps the rules, the visibility of edges and
/// the owners of regions.
pub proof fn lemma_add_argument(g: Graph, r: id::Region)
    requires
        g.wf(),
        g.has_region(r),
        g.reg(r).arguments < u32::MAX,
    ensures
        g.add_argument(r).wf(),
        g.edges_visible() ==> g.add_argument(r).edges_visible(),
        g.rooted() ==> g.add_argument(r).rooted(),
{
    lemma_same_shape(g, g.add_argument(r));
}

/// One more result on a region keeps the rules, the visibility of edges and
/// the owners of regions.
pub proof fn lemma_add_result(g: Graph, r: id::Region)
    requires
        g.wf(),
        g.has_region(r),
    ensures
        g.add_result(r).wf(),
        g.edges_visible() ==> g.add_result(r).edges_visible(),
        g.rooted() ==> g.add_result(r).rooted(),
{
    lemma_same_shape(g, g.add_result(r));
}

/// A name for a node keeps the rules, the visibility of edges and the owners
/// of regions.
pub proof fn lemma_add_symbol(g: Graph, n: id::AnyNode, name: Seq<char>)
    requires
        g.wf(),
    ensures
        g.add_symbol(n, name).wf(),
        g.edges_visible() ==> g.add_symbol(n, name).edges_visible(),
        g.rooted() ==> g.add_symbol(n, name).rooted(),
{
    lemma_same_shape(g, g.add_symbol(n, name));
}

/// Replacing the record of a node, by whatever record, keeps the rules, the
/// visibility of edges and the owners of regions.
pub proof fn lemma_set_kind(g: Graph, n: id::AnyNode)
    requires
        g.wf(),
        g.has_node(n),
    ensures
        forall|kind: Kind| #[trigger] g.set_kind(n, kind).wf(),
        g.edges_visible() ==> forall|kind: Kind| #[trigger] g.set_kind(n, kind).edges_visible(),
        g.rooted() ==> forall|kind: Kind| #[trigger] g.set_kind(n, kind).rooted(),
{
    assert forall|kind: Kind| #[trigger] g.set_kind(n, kind).wf() && (g.edges_visible() ==> g.set_kind(
        n,
        kind,
    ).edges_visible()) && (g.rooted() ==> g.set_kind(n, kind).rooted()) by {
        lemma_same_shape(g, g.set_kind(n, kind));
    }
}

/// Two units have the same shape if they differ only in names, in edges, in
/// the records and output counts of nodes, and in the result counts of
/// regions, and if no region of the second has fewer arguments than in the
/// first.
pub open spec fn same_shape(g: Graph, h: Graph) -> bool {
    &&& h.nodes.len() == g.nodes.len()
    &&& h.regions.len() == g.regions.len()
    &&& forall|i: int|
        0 <= i < g.nodes.len() ==> {
            &&& (#[trigger] h.nodes[i]).id == g.nodes[i].id
            &&& h.nodes[i].region == g.nodes[i].region
            &&& h.nodes[i].inputs == g.nodes[i].inputs
            &&& h.nodes[i].regions == g.nodes[i].regions
        }
    &&& forall|r: int|
        0 <= r < g.regions.len() ==> {
            &&& (#[trigger] h.regions[r]).container_node == g.regions[r].container_node
            &&& h.regions[r].arguments >= g.regions[r].arguments
            &&& h.regions[r].nodes == g.regions[r].nodes
        }
}

/// Two units store the same edges.
pub open spec fn same_edges(g: Graph, h: Graph) -> bool {
    &&& h.regions.len() == g.regions.len()
    &&& forall|r: int| 0 <= r < g.regions.len() ==> (#[trigger] h.regions[r]).edges == g.regions[r].edges
}

/// A unit of the same shape as one that obeys the rules obeys them too, with
/// edges as visible and regions as owned.
pub proof fn lemma_same_shape(g: Graph, h: Graph)
    requires
        g.wf(),
        same_shape(g, h),
    ensures
        h.wf(),
        g.edges_visible() && same_edges(g, h) ==> h.edges_visible(),
        g.rooted() ==> h.rooted(),
{
    assert forall|i: int| 0 <= i < h.nodes.len() implies {
        &&& (#[trigger] h.nodes[i]).id.0 == i
        &&& h.has_region(h.nodes[i].region)
        &&& h.nodes[i].regions.no_duplicates()
    } by {
        assert(g.nodes[i].id.0 == i);
    }
    assert forall|i: int, j: int|
        0 <= i < h.nodes.len() && 0 <= j < h.nodes[i].regions.len() implies {
        let r = #[trigger] h.nodes[i].regions[j];
        &&& h.has_region(r)
        &&& h.reg(r).container_node == Some(h.nodes[i].id)
        &&& h.nodes[i].region.0 < r.0
    } by {
        assert(h.nodes[i].regions == g.nodes[i].regions);
        let r = g.nodes[i].regions[j];
        assert(g.has_region(r));
        assert(h.regions[r.0 as int].container_node == g.regions[r.0 as int].container_node);
    }
    assert forall|r: int| 0 <= r < h.regions.len() implies match (#[trigger] h.regions[r]).container_node {
        Some(n) => {
            &&& h.has_node(n)
            &&& h.node(n).regions.contains(id::Region(r as u32))
            &&& h.node(n).inputs <= h.regions[r].arguments
        },
        None => true,
    } by {
        match g.regions[r].container_node {
            Some(n) => {
                assert(h.nodes[n.0 as int].regions == g.nodes[n.0 as int].regions);
            },
            None => {},
        }
    }
    assert forall|r: int, j: int|
        0 <= r < h.regions.len() && 0 <= j < h.regions[r].nodes.len() implies h.has_node(
        #[trigger] h.regions[r].nodes[j],
    ) by {
        assert(h.regions[r].nodes == g.regions[r].nodes);
        assert(g.has_node(g.regions[r].nodes[j]));
    }
    if g.edges_visible() && same_edges(g, h) {
        assert forall|r: int, j: int|
            0 <= r < h.regions.len() && 0 <= j < h.regions[r].edges.len() implies {
            let e = #[trigger] h.regions[r].edges[j];
            &&& h.origin_visible(id::Region(r as u32), e.origin)
            &&& h.user_visible(id::Region(r as u32), e.user)
        } by {
            assert(h.regions[r].edges == g.regions[r].edges);
            assert(h.regions[r].nodes == g.regions[r].nodes);
            let e = g.regions[r].edges[j];
            assert(g.origin_visible(id::Region(r as u32), e.origin));
        }
    }
    if g.rooted() {
        assert forall|r: int| 1 <= r < h.regions.len() implies (#[trigger] h.regions[r]).container_node is Some by {
            assert(g.regions[r].container_node is Some);
        }
    }
}

/// Whether an edge names node `n` as the node of its origin or of its user.
pub open spec fn edge_names(e: Edge, n: id::AnyNode) -> bool {
    ||| e.origin matches Origin::Output(m, _) && m == n
    ||| e.user matches User::Input(m, _) && m == n
}

/// Adding an edge keeps the rules; it keeps edges visible if both ends of the
/// new edge are visible in its region.
pub proof fn lemma_raw_connect(g: Graph, r: id::Region, origin: Origin, user: User)
    requires
        g.wf(),
        g.has_region(r),
    ensures
        g.raw_connect(r, origin, user).wf(),
        g.rooted() ==> g.raw_connect(r, origin, user).rooted(),
        g.edges_visible() && g.origin_visible(r, origin) && g.user_visible(r, user)
            ==> g.raw_connect(r, origin, user).edges_visible(),
{
    let h = g.raw_connect(r, origin, user);
    lemma_same_shape(g, h);
    if g.edges_visible() && g.origin_visible(r, origin) && g.user_visible(r, user) {
        assert forall|q: int, j: int|
            0 <= q < h.regions.len() && 0 <= j < h.regions[q].edges.len() implies {
            let e = #[trigger] h.regions[q].edges[j];
            &&& h.origin_visible(id::Region(q as u32), e.origin)
            &&& h.user_visible(id::Region(q as u32), e.user)
        } by {
            if q == r.0 && j == g.regions[q].edges.len() {
                assert(id::Region(q as u32) == r);
            } else {
                let e = g.regions[q].edges[j];
                assert(g.origin_visible(id::Region(q as u32), e.origin));
            }
        }
    }
}

/// Where the first position of `x` at or after `from` lies.
pub proof fn lemma_first_index(s: Seq<id::AnyNode>, x: id::AnyNode, from: int)
    requires
        0 <= from <= s.len(),
    ensures
        from <= first_index(s, x, from) <= s.len(),
        first_index(s, x, from) < s.len() ==> s[first_index(s, x, from)] == x,
        forall|j: int| from <= j < first_index(s, x, from) ==> s[j] != x,
    decreases s.len() - from,
{
    if from < s.len() && s[from] != x {
        lemma_first_index(s, x, from + 1);
    }
}

/// Moving a node that the region `from` holds keeps the rules; it keeps edges
/// visible if the node stays in its region or no edge of `from` names it.
pub proof fn lemma_move_node(g: Graph, from: id::Region, n: id::AnyNode, to: id::Region)
    requires
        g.wf(),
        g.has_region(from),
        g.has_region(to),
        g.reg(from).nodes.contains(n),
    ensures
        g.move_node(from, n, to).wf(),
        g.rooted() ==> g.move_node(from, n, to).rooted(),
        g.edges_visible() && (from == to || forall|j: int|
            0 <= j < g.reg(from).edges.len() ==> !edge_names(#[trigger] g.reg(from).edges[j], n))
            ==> g.move_node(from, n, to).edges_visible(),
{
    let h = g.move_node(from, n, to);
    let source = g.reg(from).nodes;
    let at = first_index(source, n, 0);
    lemma_first_index(source, n, 0);
    assert(at < source.len()) by {
        let k = choose|k: int| 0 <= k < source.len() && source[k] == n;
        if at >= source.len() {
            assert(source[k] != n);
        }
    }
    let rest = source.remove(at);
    assert(g.has_node(n)) by {
        assert(g.has_node(g.regions[from.0 as int].nodes[at]));
    }
    assert forall|i: int| 0 <= i < h.nodes.len() implies {
        &&& (#[trigger] h.nodes[i]).id.0 == i
        &&& h.has_region(h.nodes[i].region)
        &&& h.nodes[i].regions.no_duplicates()
    } by {
        assert(g.nodes[i].id.0 == i);
    }
    assert forall|i: int, j: int|
        0 <= i < h.nodes.len() && 0 <= j < h.nodes[i].regions.len() implies {
        let r = #[trigger] h.nodes[i].regions[j];
        &&& h.has_region(r)
        &&& h.reg(r).container_node == Some(h.nodes[i].id)
        &&& h.nodes[i].region.0 < r.0
    } by {
        let r = g.nodes[i].regions[j];
        assert(g.has_region(r));
    }
    assert forall|r: int| 0 <= r < h.regions.len() implies match (#[trigger] h.regions[r]).container_node {
        Some(m) => {
            &&& h.has_node(m)
            &&& h.node(m).regions.contains(id::Region(r as u32))
            &&& h.node(m).inputs <= h.regions[r].arguments
        },
        None => true,
    } by {
        assert(h.regions[r].container_node == g.regions[r].container_node);
        assert(h.regions[r].arguments == g.regions[r].arguments);
    }
    assert forall|r: int, j: int|
        0 <= r < h.regions.len() && 0 <= j < h.regions[r].nodes.len() implies h.has_node(
        #[trigger] h.regions[r].nodes[j],
    ) by {
        let m = h.regions[r].nodes[j];
        if m != n {
            if r == to.0 {
                if from == to {
                    assert(m == rest[j]);
                    if j < at {
                        assert(m == g.regions[r].nodes[j]);
                    } else {
                        assert(m == g.regions[r].nodes[j + 1]);
                    }
                } else {
                    assert(m == g.regions[r].nodes[j]);
                }
            } else if r == from.0 {
                if j < at {
                    assert(m == g.regions[r].nodes[j]);
                } else {
                    assert(m == g.regions[r].nodes[j + 1]);
                }
            } else {
                assert(m == g.regions[r].nodes[j]);
            }
        }
    }
    if g.rooted() {
        assert forall|r: int| 1 <= r < h.regions.len() implies (#[trigger] h.regions[r]).container_node is Some by {
            assert(g.regions[r].container_node is Some);
        }
    }
    if g.edges_visible() && (from == to || forall|j: int|
        0 <= j < g.reg(from).edges.len() ==> !edge_names(#[trigger] g.reg(from).edges[j], n)) {
        assert forall|r: int, j: int|
            0 <= r < h.regions.len() && 0 <= j < h.regions[r].edges.len() implies {
            let e = #[trigger] h.regions[r].edges[j];
            &&& h.origin_visible(id::Region(r as u32), e.origin)
            &&& h.user_visible(id::Region(r as u32), e.user)
        } by {
            let e = g.regions[r].edges[j];
            assert(h.regions[r].edges[j] == e);
            assert(g.origin_visible(id::Region(r as u32), e.origin));
            assert(g.user_visible(id::Region(r as u32), e.user));
            lemma_moved_list(g, from, n, to, r);
            if r == from.0 && from != to {
                assert(!edge_names(g.reg(from).edges[j], n));
            }
        }
    }
}

/// After a move of `n` from `from` to `to`, a region holds what it held,
/// except that `from` may have lost `n` and `to` holds `n`.
pub proof fn lemma_moved_list(g: Graph, from: id::Region, n: id::AnyNode, to: id::Region, r: int)
    requires
        g.has_region(from),
        g.has_region(to),
        g.reg(from).nodes.contains(n),
        0 <= r < g.regions.len(),
    ensures
        forall|m: id::AnyNode|
            g.regions[r].nodes.contains(m) && (m != n || r != from.0 || from == to)
                ==> g.move_node(from, n, to).regions[r].nodes.contains(m),
{
    let h = g.move_node(from, n, to);
    let source = g.reg(from).nodes;
    let at = first_index(source, n, 0);
    lemma_first_index(source, n, 0);
    assert(at < source.len()) by {
        let k = choose|k: int| 0 <= k < source.len() && source[k] == n;
        if at >= source.len() {
            assert(source[k] != n);
        }
    }
    let rest = source.remove(at);
    assert forall|m: id::AnyNode|
        g.regions[r].nodes.contains(m) && (m != n || r != from.0 || from == to)
        implies h.regions[r].nodes.contains(m) by {
        let k = choose|k: int| 0 <= k < g.regions[r].nodes.len() && g.regions[r].nodes[k] == m;
        if r == from.0 {
            if m == n {
                // from == to: the node is the last of the list again
                assert(h.regions[r].nodes == rest.push(n));
                assert(rest.push(n)[rest.len() as int] == n);
            } else {
                if k < at {
                    assert(rest[k] == m);
                } else {
                    assert(k != at);
                    assert(rest[k - 1] == m);
                }
                if from == to {
                    assert(h.regions[r].nodes == rest.push(n));
                    if k < at {
                        assert(rest.push(n)[k] == m);
                    } else {
                        assert(rest.push(n)[k - 1] == m);
                    }
                } else {
                    assert(h.regions[r].nodes == rest);
                }
            }
        } else if r == to.0 {
            assert(h.regions[r].nodes == g.regions[r].nodes.push(n));
            assert(g.regions[r].nodes.push(n)[k] == m);
        } else {
            assert(h.regions[r].nodes == g.regions[r].nodes);
        }
    }
}

/// One more input on a node keeps the rules, the visibility of edges and the
/// owners of regions.
pub proof fn lemma_add_input(g: Graph, n: id::AnyNode)
    requires
        g.wf(),
        g.has_node(n),
        g.input_fits(n),
    ensures
        g.add_input(n).wf(),
        g.edges_visible() ==> g.add_input(n).edges_visible(),
        g.rooted() ==> g.add_input(n).rooted(),
{
    let h = g.add_input(n);
    let kids = g.node(n).regions;
    assert(g.nodes[n.0 as int].id.0 == n.0);
    assert forall|i: int| 0 <= i < h.nodes.len() implies {
        &&& (#[trigger] h.nodes[i]).id.0 == i
        &&& h.has_region(h.nodes[i].region)
        &&& h.nodes[i].regions.no_duplicates()
    } by {
        assert(g.nodes[i].id.0 == i);
    }
    assert forall|i: int, j: int|
        0 <= i < h.nodes.len() && 0 <= j < h.nodes[i].regions.len() implies {
        let r = #[trigger] h.nodes[i].regions[j];
        &&& h.has_region(r)
        &&& h.reg(r).container_node == Some(h.nodes[i].id)
        &&& h.nodes[i].region.0 < r.0
    } by {
        let r = g.nodes[i].regions[j];
        assert(g.has_region(r));
    }
    assert forall|r: int| 0 <= r < h.regions.len() implies match (#[trigger] h.regions[r]).container_node {
        Some(m) => {
            &&& h.has_node(m)
            &&& h.node(m).regions.contains(id::Region(r as u32))
            &&& h.node(m).inputs <= h.regions[r].arguments
        },
        None => true,
    } by {
        match g.regions[r].container_node {
            Some(m) => {
                assert(h.regions[r].container_node == Some(m));
                if kids.contains(id::Region(r as u32)) {
                    let j = choose|j: int| 0 <= j < kids.len() && kids[j] == id::Region(r as u32);
                    assert(g.reg(g.nodes[n.0 as int].regions[j]).container_node == Some(n));
                    assert(g.reg(g.node(n).regions[j]).arguments < u32::MAX);
                    assert(m == n);
                } else {
                    assert(m != n);
                }
            },
            None => {},
        }
    }
    assert forall|r: int, j: int|
        0 <= r < h.regions.len() && 0 <= j < h.regions[r].nodes.len() implies h.has_node(
        #[trigger] h.regions[r].nodes[j],
    ) by {
        assert(h.regions[r].nodes == g.regions[r].nodes);
        assert(g.has_node(g.regions[r].nodes[j]));
    }
    if g.edges_visible() {
        assert forall|r: int, j: int|
            0 <= r < h.regions.len() && 0 <= j < h.regions[r].edges.len() implies {
            let e = #[trigger] h.regions[r].edges[j];
            &&& h.origin_visible(id::Region(r as u32), e.origin)
            &&& h.user_visible(id::Region(r as u32), e.user)
        } by {
            assert(h.regions[r].edges == g.regions[r].edges);
            assert(h.regions[r].nodes == g.regions[r].nodes);
            let e = g.regions[r].edges[j];
            assert(g.origin_visible(id::Region(r as u32), e.origin));
        }
    }
    if g.rooted() {
        assert forall|r: int| 1 <= r < h.regions.len() implies (#[trigger] h.regions[r]).container_node is Some by {
            assert(g.regions[r].container_node is Some);
        }
    }
}

/// A new node with regions that it may take keeps the rules and the
/// visibility of edges; if the node takes every region but the root that had
/// no owner, every region but the root has one.
pub proof fn lemma_commit_node(g: Graph, current: id::Region, kind: Kind, adopted: Seq<id::Region>)
    requires
        g.wf(),
        g.has_region(current),
        g.nodes.len() < u32::MAX,
        g.adoptable(current, adopted),
    ensures
        g.commit_node(current, kind, adopted).wf(),
        g.edges_visible() ==> g.commit_node(current, kind, adopted).edges_visible(),
        (forall|r: int|
            1 <= r < g.regions.len() && (#[trigger] g.regions[r]).container_node is None
                ==> adopted.contains(id::Region(r as u32))) ==> g.commit_node(
            current,
            kind,
            adopted,
        ).rooted(),
{
    let h = g.commit_node(current, kind, adopted);
    let n = id::AnyNode(g.nodes.len() as u32);
    assert forall|i: int| 0 <= i < h.nodes.len() implies {
        &&& (#[trigger] h.nodes[i]).id.0 == i
        &&& h.has_region(h.nodes[i].region)
        &&& h.nodes[i].regions.no_duplicates()
    } by {
        if i < g.nodes.len() {
            assert(g.nodes[i].id.0 == i);
        }
    }
    assert forall|i: int, j: int|
        0 <= i < h.nodes.len() && 0 <= j < h.nodes[i].regions.len() implies {
        let r = #[trigger] h.nodes[i].regions[j];
        &&& h.has_region(r)
        &&& h.reg(r).container_node == Some(h.nodes[i].id)
        &&& h.nodes[i].region.0 < r.0
    } by {
        if i < g.nodes.len() {
            let r = g.nodes[i].regions[j];
            assert(g.has_region(r));
            assert(g.reg(r).container_node == Some(g.nodes[i].id));
            if adopted.contains(r) {
                let k = choose|k: int| 0 <= k < adopted.len() && adopted[k] == r;
                assert(g.reg(adopted[k]).container_node is None);
            }
        } else {
            let r = adopted[j];
            assert(g.has_region(r));
            assert(id::Region(r.0 as int as u32) == r);
        }
    }
    assert forall|r: int| 0 <= r < h.regions.len() implies match (#[trigger] h.regions[r]).container_node {
        Some(m) => {
            &&& h.has_node(m)
            &&& h.node(m).regions.contains(id::Region(r as u32))
            &&& h.node(m).inputs <= h.regions[r].arguments
        },
        None => true,
    } by {
        if adopted.contains(id::Region(r as u32)) {
            assert(h.regions[r].container_node == Some(n));
            assert(h.node(n).regions == adopted);
        } else {
            assert(h.regions[r].container_node == g.regions[r].container_node);
            match g.regions[r].container_node {
                Some(m) => {
                    assert(h.nodes[m.0 as int] == g.nodes[m.0 as int]);
                },
                None => {},
            }
        }
    }
    assert forall|r: int, j: int|
        0 <= r < h.regions.len() && 0 <= j < h.regions[r].nodes.len() implies h.has_node(
        #[trigger] h.regions[r].nodes[j],
    ) by {
        if j < g.regions[r].nodes.len() {
            assert(h.regions[r].nodes[j] == g.regions[r].nodes[j]);
            assert(g.has_node(g.regions[r].nodes[j]));
        }
    }
    if g.edges_visible() {
        assert forall|r: int, j: int|
            0 <= r < h.regions.len() && 0 <= j < h.regions[r].edges.len() implies {
            let e = #[trigger] h.regions[r].edges[j];
            &&& h.origin_visible(id::Region(r as u32), e.origin)
            &&& h.user_visible(id::Region(r as u32), e.user)
        } by {
            let e = g.regions[r].edges[j];
            assert(h.regions[r].edges == g.regions[r].edges);
            assert(g.origin_visible(id::Region(r as u32), e.origin));
            assert(g.user_visible(id::Region(r as u32), e.user));
            assert forall|m: id::AnyNode| g.regions[r].nodes.contains(m) implies h.regions[r].nodes.contains(m) by {
                let k = choose|k: int| 0 <= k < g.regions[r].nodes.len() && g.regions[r].nodes[k] == m;
                assert(h.regions[r].nodes[k] == m);
            }
        }
    }
    if forall|r: int|
        1 <= r < g.regions.len() && (#[trigger] g.regions[r]).container_node is None
            ==> adopted.contains(id::Region(r as u32)) {
        assert forall|r: int| 1 <= r < h.regions.len() implies (#[trigger] h.regions[r]).container_node is Some by {
            if g.regions[r].container_node is None {
                assert(adopted.contains(id::Region(r as u32)));
            }
        }
    }
}

/// A new node that owns a new region keeps the rules, the visibility of edges
/// and the owners of regions.
pub proof fn lemma_spawn(g: Graph, current: id::Region, kind: Kind, arguments: u32, results: u32)
    requires
        g.wf(),
        g.has_region(current),
        g.nodes.len() < u32::MAX,
        g.regions.len() < u32::MAX,
    ensures
        g.spawn(current, kind, fresh_region(arguments, results)).wf(),
        g.edges_visible() ==> g.spawn(current, kind, fresh_region(arguments, results)).edges_visible(),
        g.rooted() ==> g.spawn(current, kind, fresh_region(arguments, results)).rooted(),
{
    let h = g.add_region(arguments, results);
    lemma_add_region(g, arguments, results);
    let adopted = only(g.next_region());
    assert(h.adoptable(current, adopted));
    lemma_commit_node(h, current, kind, adopted);
    if g.rooted() {
        assert forall|r: int|
            1 <= r < h.regions.len() && (#[trigger] h.regions[r]).container_node is None implies adopted.contains(
            id::Region(r as u32),
        ) by {
            if r < g.regions.len() {
                assert(g.regions[r].container_node is Some);
            } else {
                assert(adopted[0] == id::Region(r as u32));
            }
        }
    }
}

/// A new node without regions keeps the rules, the visibility of edges and
/// the owners of regions.
pub proof fn lemma_leaf(g: Graph, current: id::Region, kind: Kind)
    requires
        g.wf(),
        g.has_region(current),
        g.nodes.len() < u32::MAX,
    ensures
        g.commit_node(current, kind, Seq::empty()).wf(),
        g.edges_visible() ==> g.commit_node(current, kind, Seq::empty()).edges_visible(),
        g.rooted() ==> g.commit_node(current, kind, Seq::empty()).rooted(),
{
    lemma_commit_node(g, current, kind, Seq::empty());
    if g.rooted() {
        assert forall|r: int|
            1 <= r < g.regions.len() && (#[trigger] g.regions[r]).container_node is None implies Seq::<
            id::Region,
        >::empty().contains(id::Region(r as u32)) by {
            assert(g.regions[r].container_node is Some);
        }
    }
}

/// What forwarding into region `q` from above may change from `g` to `h`:
/// nodes that were made above `q` may have more inputs, regions down to `q`
/// may have more arguments, and regions above `q` may have more edges after
/// those that they had. All else is as it was.
pub open spec fn forwarded(g: Graph, h: Graph, q: id::Region) -> bool {
    &&& h.nodes.len() == g.nodes.len()
    &&& h.regions.len() == g.regions.len()
    &&& h.symbols == g.symbols
    &&& forall|i: int|
        0 <= i < g.nodes.len() ==> {
            let a = g.nodes[i];
            let b = #[trigger] h.nodes[i];
            &&& b == NodeView { inputs: b.inputs, ..a }
            &&& a.inputs <= b.inputs
            &&& a.region.0 >= q.0 ==> b.inputs == a.inputs
        }
    &&& forall|x: int|
        0 <= x < g.regions.len() ==> {
            let a = g.regions[x];
            let b = #[trigger] h.regions[x];
            &&& b == RegionView { arguments: b.arguments, edges: b.edges, ..a }
            &&& a.arguments <= b.arguments
            &&& a.edges.is_prefix_of(b.edges)
            &&& x > q.0 ==> b.arguments == a.arguments
            &&& x >= q.0 ==> b.edges == a.edges
        }
}

/// Forwarding into a region and then into a region below it is forwarding
/// into the lower region.
pub proof fn lemma_forwarded_twice(g: Graph, h: Graph, k: Graph, p: id::Region, q: id::Region)
    requires
        forwarded(g, h, p),
        forwarded(h, k, q),
        p.0 <= q.0,
    ensures
        forwarded(g, k, q),
{
    assert forall|i: int| 0 <= i < g.nodes.len() implies {
        let a = g.nodes[i];
        let b = #[trigger] k.nodes[i];
        &&& b == NodeView { inputs: b.inputs, ..a }
        &&& a.inputs <= b.inputs
        &&& a.region.0 >= q.0 ==> b.inputs == a.inputs
    } by {
        let m = h.nodes[i];
    }
    assert forall|x: int| 0 <= x < g.regions.len() implies {
        let a = g.regions[x];
        let b = #[trigger] k.regions[x];
        &&& b == RegionView { arguments: b.arguments, edges: b.edges, ..a }
        &&& a.arguments <= b.arguments
        &&& a.edges.is_prefix_of(b.edges)
        &&& x > q.0 ==> b.arguments == a.arguments
        &&& x >= q.0 ==> b.edges == a.edges
    } by {
        let m = h.regions[x];
        assert(g.regions[x].edges.is_prefix_of(m.edges));
        assert(m.edges.is_prefix_of(k.regions[x].edges));
        assert(g.regions[x].edges =~= k.regions[x].edges.take(g.regions[x].edges.len() as int)) by {
            assert(g.regions[x].edges =~= m.edges.take(g.regions[x].edges.len() as int));
            assert(m.edges =~= k.regions[x].edges.take(m.edges.len() as int));
        }
    }
}

/// What one step of forwarding does. With `c` the owner of `q`, made in `p`
/// and standing there, and `origin` visible in `p`: the step keeps the rules,
/// forwards into `q`, and hands out the argument of `q` that was added last,
/// which is visible in `q`.
pub proof fn lemma_forward(g: Graph, c: id::AnyNode, p: id::Region, q: id::Region, origin: Origin)
    requires
        g.wf(),
        g.has_region(q),
        g.reg(q).container_node == Some(c),
        g.node(c).region == p,
        g.node(c).regions.len() == 1,
        g.reg(p).nodes.contains(c),
        g.input_fits(c),
        g.origin_visible(p, origin),
    ensures
        g.forward(c, p, origin).0.wf(),
        forwarded(g, g.forward(c, p, origin).0, q),
        g.forward(c, p, origin).1 == Origin::Argument(q, id::Argument(g.reg(q).arguments)),
        g.forward(c, p, origin).0.origin_visible(q, g.forward(c, p, origin).1),
        g.forward(c, p, origin).0.reg(q).arguments == g.reg(q).arguments + 1,
        g.forward(c, p, origin).0.node(c).inputs == g.node(c).inputs + 1,
        g.edges_visible() ==> g.forward(c, p, origin).0.edges_visible(),
        g.rooted() ==> g.forward(c, p, origin).0.rooted(),
        g.node(c).regions[0] == q,
        g.has_region(p),
        p.0 < q.0,
{
    lemma_owner(g, q);
    let input = id::Input(g.node(c).inputs);
    let grown = g.add_input(c);
    lemma_add_input(g, c);
    assert(grown.regions[p.0 as int].nodes == g.regions[p.0 as int].nodes);
    lemma_raw_connect(grown, p, origin, User::Input(c, input));
    let h = grown.raw_connect(p, origin, User::Input(c, input));
    assert(g.node(c).regions.contains(q));
    assert(grown.regions[q.0 as int].arguments == g.regions[q.0 as int].arguments + 1) by {
        assert(id::Region(q.0 as int as u32) == q);
        assert(g.reg(g.node(c).regions[0]).arguments < u32::MAX);
    }
    assert forall|i: int| 0 <= i < g.nodes.len() implies {
        let a = g.nodes[i];
        let b = #[trigger] h.nodes[i];
        &&& b == NodeView { inputs: b.inputs, ..a }
        &&& a.inputs <= b.inputs
        &&& a.region.0 >= q.0 ==> b.inputs == a.inputs
    } by {
    }
    assert forall|x: int| 0 <= x < g.regions.len() implies {
        let a = g.regions[x];
        let b = #[trigger] h.regions[x];
        &&& b == RegionView { arguments: b.arguments, edges: b.edges, ..a }
        &&& a.arguments <= b.arguments
        &&& a.edges.is_prefix_of(b.edges)
        &&& x > q.0 ==> b.arguments == a.arguments
        &&& x >= q.0 ==> b.edges == a.edges
    } by {
        if g.node(c).regions.contains(id::Region(x as u32)) {
            let j = choose|j: int| 0 <= j < g.node(c).regions.len() && g.node(c).regions[j] == id::Region(x as u32);
            assert(x == q.0);
            assert(g.reg(g.node(c).regions[j]).arguments < u32::MAX);
        }
        if x == p.0 {
            assert(g.regions[x].edges =~= h.regions[x].edges.take(g.regions[x].edges.len() as int));
        } else {
            assert(h.regions[x].edges == g.regions[x].edges);
        }
    }
}

/// The owner of a region lists the region as a child and was made in an older
/// region.
pub proof fn lemma_owner(g: Graph, r: id::Region)
    requires
        g.wf(),
        g.has_region(r),
        g.reg(r).container_node is Some,
    ensures
        g.has_node(g.reg(r).container_node->0),
        g.node(g.reg(r).container_node->0).regions.contains(r),
        g.node(g.reg(r).container_node->0).inputs <= g.reg(r).arguments,
        g.parent(r).0 < r.0,
        g.has_region(g.parent(r)),
        g.node(g.reg(r).container_node->0).regions.len() == 1 ==> g.node(
            g.reg(r).container_node->0,
        ).regions[0] == r,
{
    let c = g.reg(r).container_node->0;
    assert(g.regions[r.0 as int].container_node == Some(c));
    assert(id::Region(r.0 as int as u32) == r);
    let kids = g.nodes[c.0 as int].regions;
    let j = choose|j: int| 0 <= j < kids.len() && kids[j] == r;
    assert(g.nodes[c.0 as int].region.0 < g.nodes[c.0 as int].regions[j].0);
    assert(g.has_region(g.nodes[c.0 as int].region));
}

/// What a search that finds its origin leaves behind: a unit that obeys the
/// rules, in which values were forwarded into `q` and nothing else changed,
/// and an origin that is visible in `q`.
pub proof fn lemma_find_origin(g: Graph, q: id::Region, origin: Origin)
    requires
        g.wf(),
        g.has_region(q),
        g.can_forward(q, origin),
    ensures
        match g.find_origin(q, origin) {
            Some((h, o)) => {
                &&& h.wf()
                &&& forwarded(g, h, q)
                &&& h.origin_visible(q, o)
                &&& g.edges_visible() ==> h.edges_visible()
                &&& g.rooted() ==> h.rooted()
            },
            None => true,
        },
    decreases q.0,
{
    if g.origin_visible(q, origin) {
        assert(forwarded(g, g, q));
    } else {
        match g.reg(q).container_node {
            None => {},
            Some(c) => {
                lemma_owner(g, q);
                let p = g.node(c).region;
                lemma_find_origin(g, p, origin);
                match g.find_origin(p, origin) {
                    None => {},
                    Some((found, o)) => {
                        lemma_forward_ready(g, found, c, q);
                        lemma_forward(found, c, p, q, o);
                        lemma_forwarded_twice(g, found, found.forward(c, p, o).0, p, q);
                    },
                }
            },
        }
    }
}

/// After a search from the region in which the owner `c` of `q` was made, the
/// owner and `q` are as they were: the step of forwarding into `q` can be made.
pub proof fn lemma_forward_ready(g: Graph, found: Graph, c: id::AnyNode, q: id::Region)
    requires
        g.wf(),
        g.has_region(q),
        g.reg(q).container_node == Some(c),
        forwarded(g, found, g.node(c).region),
        g.node(c).regions.len() == 1,
        g.reg(g.node(c).region).nodes.contains(c),
        g.input_fits(c),
    ensures
        found.has_region(q),
        found.reg(q).container_node == Some(c),
        found.node(c) == g.node(c),
        found.reg(q).arguments == g.reg(q).arguments,
        found.reg(q).edges == g.reg(q).edges,
        found.reg(g.node(c).region).nodes.contains(c),
        found.input_fits(c),
{
    lemma_owner(g, q);
    let p = g.node(c).region;
    assert(found.nodes[c.0 as int] == g.nodes[c.0 as int]);
    assert(found.regions[q.0 as int].container_node == g.regions[q.0 as int].container_node);
    assert(found.regions[p.0 as int].nodes == g.regions[p.0 as int].nodes);
    assert forall|j: int| 0 <= j < found.node(c).regions.len() implies found.reg(
        #[trigger] found.node(c).regions[j],
    ).arguments < u32::MAX by {
        let x = g.nodes[c.0 as int].regions[j];
        assert(g.has_region(x));
        assert(g.nodes[c.0 as int].region.0 < x.0);
        assert(found.regions[x.0 as int].arguments == g.regions[x.0 as int].arguments);
        assert(g.reg(g.node(c).regions[j]).arguments < u32::MAX);
    }
}

} // verus!
