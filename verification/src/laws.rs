//! Laws of the model: what holds of every translation unit that obeys the
//! rules, whatever was built.

use crate::edge::{Edge, Origin, User};
use crate::graph::Graph;
use crate::id;
use crate::steps::{
    lemma_add_input, lemma_find_origin, lemma_forward, lemma_forward_ready, lemma_owner,
    lemma_raw_connect,
};
use vstd::prelude::*;

verus! {

/// For a node with one child region, the argument that stands for an input of
/// the node stands for that input and no other: going from the input to the
/// argument and back gives the input.
pub proof fn law_forwarding_equality(g: Graph, n: id::AnyNode, k: id::Input)
    requires
        g.wf(),
        g.has_node(n),
        g.node(n).regions.len() == 1,
        k.0 < g.node(n).inputs,
    ensures
        g.argument_as_input(g.input_as_argument(n, k).region, g.input_as_argument(n, k).id) == Some(
            (n, k),
        ),
        g.input_as_argument(n, k).id.0 < g.reg(g.node(n).regions[0]).arguments,
{
    let r = g.nodes[n.0 as int].regions[0];
    assert(g.has_region(r));
    assert(g.reg(r).container_node == Some(g.nodes[n.0 as int].id));
    assert(g.nodes[n.0 as int].id == n);
    lemma_owner(g, r);
}

/// One more input on a node gives each child region of the node exactly one
/// more argument, and no other region any. The new argument is the last and
/// stands for the new input; every argument that was there stands for the
/// input that it stood for, or is still the region's own.
pub proof fn law_port_monotonicity(g: Graph, n: id::AnyNode, r: id::Region, a: id::Argument)
    requires
        g.wf(),
        g.has_node(n),
        g.input_fits(n),
        g.has_region(r),
    ensures
        g.node(n).regions.contains(r) ==> {
            &&& g.add_input(n).reg(r).arguments == g.reg(r).arguments + 1
            &&& g.add_input(n).argument_as_input(r, id::Argument(g.reg(r).arguments)) == Some(
                (n, id::Input(g.node(n).inputs)),
            )
        },
        !g.node(n).regions.contains(r) ==> g.add_input(n).reg(r).arguments == g.reg(r).arguments,
        a.0 < g.reg(r).arguments ==> g.add_input(n).argument_as_input(r, a) == g.argument_as_input(
            r,
            a,
        ),
{
    let h = g.add_input(n);
    lemma_add_input(g, n);
    assert(id::Region(r.0 as int as u32) == r);
    assert(g.nodes[n.0 as int].id.0 == n.0);
    let kids = g.node(n).regions;
    if kids.contains(r) {
        let j = choose|j: int| 0 <= j < kids.len() && kids[j] == r;
        assert(g.reg(g.nodes[n.0 as int].regions[j]).container_node == Some(g.nodes[n.0 as int].id));
        assert(g.reg(g.node(n).regions[j]).arguments < u32::MAX);
        lemma_owner(g, r);
    } else {
        match g.reg(r).container_node {
            Some(m) => {
                lemma_owner(g, r);
                assert(m != n);
            },
            None => {},
        }
    }
}

/// The region at the top of the chain of owners above `r`.
pub open spec fn root_of(g: Graph, r: id::Region) -> id::Region
    decreases r.0,
{
    if g.reg(r).container_node is Some && g.parent(r).0 < r.0 {
        root_of(g, g.parent(r))
    } else {
        r
    }
}

/// The number of owners above `r`.
pub open spec fn depth(g: Graph, r: id::Region) -> nat
    decreases r.0,
{
    if g.reg(r).container_node is Some && g.parent(r).0 < r.0 {
        depth(g, g.parent(r)) + 1
    } else {
        0
    }
}

/// Nodes and regions contain each other as a forest: the owner of a region
/// was made in an older region, so no region lies inside itself, and the
/// chain of owners above a region ends, after at most as many steps as the
/// region's number says, in a region without owner. Where every region but
/// the root has an owner, that region is the root: the forest is one tree.
pub proof fn law_containment_tree(g: Graph, r: id::Region)
    requires
        g.wf(),
        g.has_region(r),
    ensures
        g.reg(r).container_node is Some ==> g.has_region(g.parent(r)) && g.parent(r).0 < r.0,
        g.has_region(root_of(g, r)),
        g.reg(root_of(g, r)).container_node is None,
        depth(g, r) <= r.0,
        g.rooted() ==> root_of(g, r) == id::Region(0),
    decreases r.0,
{
    if g.reg(r).container_node is Some {
        lemma_owner(g, r);
        law_containment_tree(g, g.parent(r));
    } else {
        if g.rooted() && r.0 != 0 {
            assert(g.regions[r.0 as int].container_node is Some);
        }
    }
}

/// Two units say the same of the ports that decide for which input of the
/// owner an argument of region `x` stands: the owner of `x`, the number of
/// arguments of `x`, and the owner's number of inputs and region.
pub open spec fn same_ports(g: Graph, h: Graph, x: id::Region) -> bool {
    &&& h.reg(x).container_node == g.reg(x).container_node
    &&& h.reg(x).arguments == g.reg(x).arguments
    &&& g.reg(x).container_node matches Some(n) ==> {
        &&& h.node(n).inputs == g.node(n).inputs
        &&& h.node(n).region == g.node(n).region
    }
}

/// Two units say the same of region `p` and of every older region: the same
/// edges and the same ports.
pub open spec fn same_above(g: Graph, h: Graph, p: id::Region) -> bool {
    forall|x: id::Region|
        x.0 <= p.0 && g.has_region(x) ==> {
            &&& #[trigger] same_ports(g, h, x)
            &&& h.reg(x).edges == g.reg(x).edges
        }
}

/// Whether an edge of region `p` leads back to an origin is decided by the
/// ports of `p` and by the regions above `p`.
pub proof fn lemma_edge_transfers(g: Graph, h: Graph, p: id::Region, e: Edge, origin: Origin, user: User)
    requires
        g.wf(),
        g.has_region(p),
        same_ports(g, h, p),
        g.reg(p).container_node is Some ==> same_above(g, h, g.parent(p)),
    ensures
        g.edge_connects(p, e, origin, user) == h.edge_connects(p, e, origin, user),
    decreases p.0, 0int,
{
    match e.origin {
        Origin::Output(_, _) => {},
        Origin::Argument(r2, a) => {
            if r2 == p {
                assert(g.argument_as_input(p, a) == h.argument_as_input(p, a));
                match g.argument_as_input(p, a) {
                    None => {},
                    Some((n, i)) => {
                        lemma_owner(g, p);
                        lemma_exists_transfers(g, h, g.parent(p), origin, User::Input(n, i));
                    },
                }
            }
        },
    }
}

/// Whether a connection exists in region `p` is decided by `p` and the
/// regions above it.
pub proof fn lemma_exists_transfers(g: Graph, h: Graph, p: id::Region, origin: Origin, user: User)
    requires
        g.wf(),
        g.has_region(p),
        same_above(g, h, p),
    ensures
        g.connection_exists(p, origin, user) == h.connection_exists(p, origin, user),
    decreases p.0, 1int,
{
    assert(same_ports(g, h, p));
    assert(h.reg(p).edges == g.reg(p).edges);
    if g.reg(p).container_node is Some {
        lemma_owner(g, p);
        let pp = g.parent(p);
        assert forall|x: id::Region| x.0 <= pp.0 && g.has_region(x) implies {
            &&& #[trigger] same_ports(g, h, x)
            &&& h.reg(x).edges == g.reg(x).edges
        } by {
        }
    }
    assert forall|j: int| 0 <= j < g.reg(p).edges.len() implies g.edge_connects(
        p,
        #[trigger] g.reg(p).edges[j],
        origin,
        user,
    ) == h.edge_connects(p, h.reg(p).edges[j], origin, user) by {
        lemma_edge_transfers(g, h, p, g.reg(p).edges[j], origin, user);
    }
    if g.connection_exists(p, origin, user) {
        let j = choose|j: int|
            0 <= j < g.reg(p).edges.len() && g.edge_connects(
                p,
                #[trigger] g.reg(p).edges[j],
                origin,
                user,
            );
        assert(h.edge_connects(p, h.reg(p).edges[j], origin, user));
    }
    if h.connection_exists(p, origin, user) {
        let j = choose|j: int|
            0 <= j < h.reg(p).edges.len() && h.edge_connects(
                p,
                #[trigger] h.reg(p).edges[j],
                origin,
                user,
            );
        assert(g.edge_connects(p, g.reg(p).edges[j], origin, user));
    }
}

/// One step of forwarding through the owner `c` of `q`, which was made in
/// `p`, leaves the ports of `p` and everything above `p` as they were.
pub proof fn lemma_forward_keeps_above(g: Graph, c: id::AnyNode, p: id::Region, q: id::Region, origin: Origin)
    requires
        g.wf(),
        g.has_region(q),
        g.reg(q).container_node == Some(c),
        g.node(c).region == p,
        g.node(c).regions.len() == 1,
        g.input_fits(c),
    ensures
        same_ports(g, g.forward(c, p, origin).0, p),
        g.reg(p).container_node is Some ==> same_above(g, g.forward(c, p, origin).0, g.parent(p)),
{
    lemma_owner(g, q);
    let h = g.forward(c, p, origin).0;
    assert(id::Region(p.0 as int as u32) == p);
    assert forall|x: id::Region| x.0 <= p.0 && g.has_region(x) implies #[trigger] same_ports(g, h, x) && (x != p
        ==> h.reg(x).edges == g.reg(x).edges) by {
        assert(id::Region(x.0 as int as u32) == x);
        assert(!g.node(c).regions.contains(x)) by {
            if g.node(c).regions.contains(x) {
                let j = choose|j: int| 0 <= j < g.node(c).regions.len() && g.node(c).regions[j] == x;
                assert(j == 0);
            }
        }
        match g.reg(x).container_node {
            Some(m) => {
                lemma_owner(g, x);
                assert(m != c);
            },
            None => {},
        }
    }
    if g.reg(p).container_node is Some {
        lemma_owner(g, p);
    }
}

/// The origin that a search hands out in region `q` leads back to the origin
/// that was searched: an edge of `q` that comes from it connects.
pub proof fn lemma_found_leads(g: Graph, q: id::Region, origin: Origin, user: User)
    requires
        g.wf(),
        g.has_region(q),
        g.can_forward(q, origin),
        g.find_origin(q, origin) is Some,
    ensures
        g.find_origin(q, origin).unwrap().0.edge_connects(
            q,
            Edge { origin: g.find_origin(q, origin).unwrap().1, user },
            origin,
            user,
        ),
    decreases q.0,
{
    if g.origin_visible(q, origin) {
    } else {
        let c = g.reg(q).container_node->0;
        lemma_owner(g, q);
        let p = g.node(c).region;
        let (found, o) = g.find_origin(p, origin).unwrap();
        let input = id::Input(found.node(c).inputs);
        let via = User::Input(c, input);
        lemma_found_leads(g, p, origin, via);
        lemma_find_origin(g, p, origin);
        lemma_forward_ready(g, found, c, q);
        lemma_forward(found, c, p, q, o);
        lemma_forward_keeps_above(found, c, p, q, o);
        let (h, local) = found.forward(c, p, o);
        let planted = Edge { origin: o, user: via };
        lemma_edge_transfers(found, h, p, planted, origin, via);
        assert(h.reg(p).edges == found.reg(p).edges.push(planted));
        assert(h.reg(p).edges[found.reg(p).edges.len() as int] == planted);
        assert(h.connection_exists(p, origin, via));
        lemma_owner(found, q);
        assert(h.reg(q).container_node == Some(c));
        assert(h.node(c).region == p);
        assert(h.argument_as_input(q, id::Argument(found.reg(q).arguments)) == Some((c, input)));
    }
}

/// Connecting twice is connecting once: after `origin` was connected to
/// `user`, the two may be connected again, and connecting them again finds
/// the connection and leaves edges and ports as they are.
pub proof fn law_connect_idempotent(g: Graph, r: id::Region, origin: Origin, user: User)
    requires
        g.wf(),
        g.has_region(r),
        g.connectable(r, origin, user),
        g.connect(r, origin, user) is Some,
    ensures
        g.connect(r, origin, user).unwrap().wf(),
        g.connect(r, origin, user).unwrap().connectable(r, origin, user),
        g.connect(r, origin, user).unwrap().connection_exists(r, origin, user),
        g.connect(r, origin, user).unwrap().connect(r, origin, user) == g.connect(r, origin, user),
{
    if !g.connection_exists(r, origin, user) {
        let (found, local) = g.find_origin(r, origin).unwrap();
        let h = found.raw_connect(r, local, user);
        let last = Edge { origin: local, user };
        lemma_found_leads(g, r, origin, user);
        lemma_find_origin(g, r, origin);
        assert(id::Region(r.0 as int as u32) == r);
        assert(same_ports(found, h, r));
        if found.reg(r).container_node is Some {
            lemma_owner(found, r);
            assert forall|x: id::Region| x.0 <= found.parent(r).0 && found.has_region(x) implies {
                &&& #[trigger] same_ports(found, h, x)
                &&& h.reg(x).edges == found.reg(x).edges
            } by {
            }
        }
        lemma_edge_transfers(found, h, r, last, origin, user);
        assert(h.reg(r).edges[found.reg(r).edges.len() as int] == last);
        lemma_raw_connect(found, r, local, user);
        assert(h.reg(r).nodes == g.regions[r.0 as int].nodes);
    }
}

} // verus!
