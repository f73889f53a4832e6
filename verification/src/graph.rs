//! The mathematical model of a translation unit: what its tables say, the
//! rules that every unit obeys, and what each step of building does to it.

use crate::edge::{Argument, Edge, Origin, User};
use crate::id;
use crate::nodes::Kind;
use crate::tables::{named, NodeView, RegionView};
use vstd::prelude::*;

verus! {

/// A translation unit as a value: row `i` of `nodes` is node `i`, row `i` of
/// `regions` is region `i`, row `i` of `symbols` is the stored name of node `i`.
pub struct Graph {
    pub nodes: Seq<NodeView>,
    pub regions: Seq<RegionView>,
    pub symbols: Seq<Seq<char>>,
}

/// A region as it is made: no owner, no nodes, no edges.
pub open spec fn fresh_region(arguments: u32, results: u32) -> RegionView {
    RegionView {
        container_node: None,
        arguments,
        results,
        edges: Seq::empty(),
        nodes: Seq::empty(),
    }
}

/// The list of one region.
pub open spec fn only(r: id::Region) -> Seq<id::Region> {
    Seq::empty().push(r)
}

/// The first position of `x` in `s` at or after `from`; the length of `s` if
/// there is none.
pub open spec fn first_index(s: Seq<id::AnyNode>, x: id::AnyNode, from: int) -> int
    decreases s.len() - from,
{
    if from < 0 || from >= s.len() {
        s.len() as int
    } else if s[from] == x {
        from
    } else {
        first_index(s, x, from + 1)
    }
}

impl Graph {
    /// The unit with which building starts: the root region, which is region 0,
    /// and nothing else.
    pub open spec fn root_only() -> Graph {
        Graph { nodes: Seq::empty(), regions: seq![fresh_region(0, 0)], symbols: Seq::empty() }
    }

    pub open spec fn has_node(self, n: id::AnyNode) -> bool {
        n.0 < self.nodes.len()
    }

    pub open spec fn has_region(self, r: id::Region) -> bool {
        r.0 < self.regions.len()
    }

    pub open spec fn node(self, n: id::AnyNode) -> NodeView {
        self.nodes[n.0 as int]
    }

    pub open spec fn reg(self, r: id::Region) -> RegionView {
        self.regions[r.0 as int]
    }

    /// The rules on the ownership tree and on ports that every unit obeys.
    ///
    /// Ids are positions of the tables. A node's child regions are distinct,
    /// name the node as their owner, and are younger than the region in which
    /// the node was made. A region's owner lists the region as a child and has
    /// at most as many inputs as the region has arguments. A region holds
    /// nodes of the unit only.
    pub open spec fn wf(self) -> bool {
        &&& 1 <= self.regions.len() <= u32::MAX
        &&& self.nodes.len() <= u32::MAX
        &&& forall|i: int|
            0 <= i < self.nodes.len() ==> {
                &&& (#[trigger] self.nodes[i]).id.0 == i
                &&& self.has_region(self.nodes[i].region)
                &&& self.nodes[i].regions.no_duplicates()
            }
        &&& forall|i: int, j: int|
            0 <= i < self.nodes.len() && 0 <= j < self.nodes[i].regions.len() ==> {
                let r = #[trigger] self.nodes[i].regions[j];
                &&& self.has_region(r)
                &&& self.reg(r).container_node == Some(self.nodes[i].id)
                &&& self.nodes[i].region.0 < r.0
            }
        &&& forall|r: int|
            0 <= r < self.regions.len() ==> match (#[trigger] self.regions[r]).container_node {
                Some(n) => {
                    &&& self.has_node(n)
                    &&& self.node(n).regions.contains(id::Region(r as u32))
                    &&& self.node(n).inputs <= self.regions[r].arguments
                },
                None => true,
            }
        &&& forall|r: int, j: int|
            0 <= r < self.regions.len() && 0 <= j < self.regions[r].nodes.len() ==> self.has_node(
                #[trigger] self.regions[r].nodes[j],
            )
    }

    /// An origin is visible in a region if it is an argument of that region or
    /// an output of a node that the region holds.
    pub open spec fn origin_visible(self, r: id::Region, origin: Origin) -> bool {
        match origin {
            Origin::Output(n, _) => self.reg(r).nodes.contains(n),
            Origin::Argument(r2, _) => r2 == r,
        }
    }

    /// A user is visible in a region if it is a result of that region or an
    /// input of a node that the region holds.
    pub open spec fn user_visible(self, r: id::Region, user: User) -> bool {
        match user {
            User::Input(n, _) => self.reg(r).nodes.contains(n),
            User::Result(r2, _) => r2 == r,
        }
    }

    /// Every edge joins two ports that are visible in the region that stores it.
    pub open spec fn edges_visible(self) -> bool {
        forall|r: int, j: int|
            0 <= r < self.regions.len() && 0 <= j < self.regions[r].edges.len() ==> {
                let e = #[trigger] self.regions[r].edges[j];
                &&& self.origin_visible(id::Region(r as u32), e.origin)
                &&& self.user_visible(id::Region(r as u32), e.user)
            }
    }

    /// Every region but the root has an owner.
    pub open spec fn rooted(self) -> bool {
        forall|r: int|
            1 <= r < self.regions.len() ==> (#[trigger] self.regions[r]).container_node is Some
    }

    /// The region in which the owner of `r` was made.
    pub open spec fn parent(self, r: id::Region) -> id::Region {
        self.node(self.reg(r).container_node->0).region
    }

    /// The unit with one more region, which is the last.
    pub open spec fn add_region(self, arguments: u32, results: u32) -> Graph {
        Graph { regions: self.regions.push(fresh_region(arguments, results)), ..self }
    }

    /// Whether a node made in `current` may take `adopted` as its child
    /// regions: they are distinct regions of the unit, none has an owner, and
    /// each is younger than `current`.
    pub open spec fn adoptable(self, current: id::Region, adopted: Seq<id::Region>) -> bool {
        &&& adopted.no_duplicates()
        &&& forall|j: int|
            0 <= j < adopted.len() ==> {
                &&& self.has_region(#[trigger] adopted[j])
                &&& self.reg(adopted[j]).container_node is None
                &&& current.0 < adopted[j].0
            }
    }

    /// The unit with one more node, made in `current` with the record `kind`,
    /// without ports, and with `adopted` as its child regions.
    pub open spec fn commit_node(self, current: id::Region, kind: Kind, adopted: Seq<id::Region>) -> Graph {
        let n = id::AnyNode(self.nodes.len() as u32);
        let node = NodeView { id: n, region: current, inputs: 0, outputs: 0, regions: adopted, kind };
        Graph {
            nodes: self.nodes.push(node),
            regions: Seq::new(
                self.regions.len(),
                |i: int|
                    {
                        let r = self.regions[i];
                        RegionView {
                            container_node: if adopted.contains(id::Region(i as u32)) {
                                Some(n)
                            } else {
                                r.container_node
                            },
                            nodes: if i == current.0 {
                                r.nodes.push(n)
                            } else {
                                r.nodes
                            },
                            ..r
                        }
                    },
            ),
            ..self
        }
    }

    /// The unit with one more region, made as `region` says, and one more node,
    /// made in `current` with the record `kind`, that owns the new region.
    pub open spec fn spawn(self, current: id::Region, kind: Kind, region: RegionView) -> Graph {
        Graph { regions: self.regions.push(region), ..self }.commit_node(
            current,
            kind,
            only(self.next_region()),
        )
    }

    /// The id that the next region gets.
    pub open spec fn next_region(self) -> id::Region {
        id::Region(self.regions.len() as u32)
    }

    /// The id that the next node gets.
    pub open spec fn next_node(self) -> id::AnyNode {
        id::AnyNode(self.nodes.len() as u32)
    }

    /// Whether node `n` can take one more input: the count and the argument
    /// count of each child region are below the largest number.
    pub open spec fn input_fits(self, n: id::AnyNode) -> bool {
        &&& self.node(n).inputs < u32::MAX
        &&& forall|j: int|
            0 <= j < self.node(n).regions.len() ==> self.reg(
                #[trigger] self.node(n).regions[j],
            ).arguments < u32::MAX
    }

    /// The unit after node `n` got one more input: each child region of `n`
    /// has one more argument, which is its last.
    pub open spec fn add_input(self, n: id::AnyNode) -> Graph {
        let node = self.node(n);
        Graph {
            nodes: self.nodes.update(
                n.0 as int,
                NodeView { inputs: (node.inputs + 1) as u32, ..node },
            ),
            regions: Seq::new(
                self.regions.len(),
                |i: int|
                    {
                        let r = self.regions[i];
                        if node.regions.contains(id::Region(i as u32)) {
                            RegionView { arguments: (r.arguments + 1) as u32, ..r }
                        } else {
                            r
                        }
                    },
            ),
            ..self
        }
    }

    /// The unit after node `n` got one more output.
    pub open spec fn add_output(self, n: id::AnyNode) -> Graph {
        let node = self.node(n);
        Graph {
            nodes: self.nodes.update(
                n.0 as int,
                NodeView { outputs: (node.outputs + 1) as u32, ..node },
            ),
            ..self
        }
    }

    /// The unit after region `r` got one more argument.
    pub open spec fn add_argument(self, r: id::Region) -> Graph {
        let region = self.reg(r);
        Graph {
            regions: self.regions.update(
                r.0 as int,
                RegionView { arguments: (region.arguments + 1) as u32, ..region },
            ),
            ..self
        }
    }

    /// The unit after region `r` got one more result.
    pub open spec fn add_result(self, r: id::Region) -> Graph {
        let region = self.reg(r);
        Graph {
            regions: self.regions.update(
                r.0 as int,
                RegionView { results: (region.results + 1) as u32, ..region },
            ),
            ..self
        }
    }

    /// The unit after node `n` was given a name.
    pub open spec fn add_symbol(self, n: id::AnyNode, name: Seq<char>) -> Graph {
        Graph { symbols: named(self.symbols, n.0 as int, name), ..self }
    }

    /// The stored name of node `n`, if the unit stores one.
    pub open spec fn symbol(self, n: id::AnyNode) -> Option<Seq<char>> {
        if n.0 < self.symbols.len() {
            Some(self.symbols[n.0 as int])
        } else {
            None
        }
    }

    /// The unit after the record of node `n` was replaced.
    pub open spec fn set_kind(self, n: id::AnyNode, kind: Kind) -> Graph {
        Graph { nodes: self.nodes.update(n.0 as int, NodeView { kind, ..self.node(n) }), ..self }
    }

    /// The unit after node `n` left the nodes of region `from`, where it stood
    /// first at some position, and became the last node of region `to`.
    pub open spec fn move_node(self, from: id::Region, n: id::AnyNode, to: id::Region) -> Graph {
        let source = self.reg(from);
        let left = Graph {
            regions: self.regions.update(
                from.0 as int,
                RegionView { nodes: source.nodes.remove(first_index(source.nodes, n, 0)), ..source },
            ),
            ..self
        };
        let target = left.reg(to);
        Graph {
            regions: left.regions.update(
                to.0 as int,
                RegionView { nodes: target.nodes.push(n), ..target },
            ),
            ..left
        }
    }

    /// The unit after the edge from `origin` to `user` became the last edge of
    /// region `r`.
    pub open spec fn raw_connect(self, r: id::Region, origin: Origin, user: User) -> Graph {
        let region = self.reg(r);
        Graph {
            regions: self.regions.update(
                r.0 as int,
                RegionView { edges: region.edges.push(Edge { origin, user }), ..region },
            ),
            ..self
        }
    }

    /// Whether the value of `origin` already reaches `user` in region `r`: `r`
    /// stores an edge to `user` that comes from `origin`, or from an argument
    /// of `r` that stands for an input of the owner of `r` which `origin`
    /// reaches in the same way in the region of that owner.
    pub open spec fn connection_exists(self, r: id::Region, origin: Origin, user: User) -> bool
        decreases r.0, 1int,
    {
        exists|j: int|
            0 <= j < self.reg(r).edges.len() && self.edge_connects(
                r,
                #[trigger] self.reg(r).edges[j],
                origin,
                user,
            )
    }

    /// Whether an edge of region `r` ends in `user` and leads back to `origin`.
    pub open spec fn edge_connects(self, r: id::Region, e: Edge, origin: Origin, user: User) -> bool
        decreases r.0, 0int,
    {
        &&& e.user == user
        &&& (e.origin == origin || match e.origin {
            Origin::Output(_, _) => false,
            Origin::Argument(r2, a) => r2 == r && match self.argument_as_input(r, a) {
                None => false,
                Some((n, i)) => self.node(n).region.0 < r.0 && self.connection_exists(
                    self.node(n).region,
                    origin,
                    User::Input(n, i),
                ),
            },
        })
    }

    /// One step of forwarding. The value of `origin`, which is visible in the
    /// region `parent` that holds node `container`, goes into the only child
    /// region of `container`: the node gets one more input, `parent` gets the
    /// edge from `origin` to that input, and the value is the argument of the
    /// child region that stands for the input, which is its last.
    pub open spec fn forward(self, container: id::AnyNode, parent: id::Region, origin: Origin) -> (
        Graph,
        Origin,
    ) {
        let input = id::Input(self.node(container).inputs);
        let grown = self.add_input(container);
        let argument = grown.input_as_argument(container, input);
        (
            grown.raw_connect(parent, origin, User::Input(container, input)),
            Origin::Argument(argument.region, argument.id),
        )
    }

    /// The search for `origin` from region `r` upwards, and what it leaves
    /// behind. Where `origin` is visible in `r`, nothing changes and the
    /// origin to use is `origin` itself. Otherwise the search goes on in the
    /// region of the owner of `r`, and what it finds there is forwarded into
    /// `r`. A search that reaches a region without owner finds nothing.
    pub open spec fn find_origin(self, r: id::Region, origin: Origin) -> Option<(Graph, Origin)>
        decreases r.0,
    {
        if self.origin_visible(r, origin) {
            Some((self, origin))
        } else {
            match self.reg(r).container_node {
                None => None,
                Some(c) => {
                    let p = self.node(c).region;
                    if p.0 < r.0 {
                        match self.find_origin(p, origin) {
                            None => None,
                            Some((found, o)) => Some(found.forward(c, p, o)),
                        }
                    } else {
                        None
                    }
                },
            }
        }
    }

    /// Whether the search for `origin` from region `r` upwards can forward
    /// what it finds: each node through which the value has to go has one
    /// region only, stands in the region in which it was made, and can take
    /// one more input.
    pub open spec fn can_forward(self, r: id::Region, origin: Origin) -> bool
        decreases r.0,
    {
        self.origin_visible(r, origin) || match self.reg(r).container_node {
            None => true,
            Some(c) => {
                let p = self.node(c).region;
                p.0 < r.0 ==> {
                    &&& self.can_forward(p, origin)
                    &&& self.find_origin(p, origin) is Some ==> {
                        &&& self.node(c).regions.len() == 1
                        &&& self.reg(p).nodes.contains(c)
                        &&& self.input_fits(c)
                    }
                }
            },
        }
    }

    /// Whether `origin` and `user` may be handed to a connect in region `r`:
    /// the user is visible in `r`, and the connection exists already or the
    /// search for `origin` can forward what it finds.
    pub open spec fn connectable(self, r: id::Region, origin: Origin, user: User) -> bool {
        &&& self.user_visible(r, user)
        &&& self.connection_exists(r, origin, user) || self.can_forward(r, origin)
    }

    /// The unit after `origin` was connected to `user` in region `r`; none if
    /// no path leads from `origin` to `r`. Nothing changes if the connection
    /// exists already. Otherwise the value is forwarded into `r` as far as it
    /// has to be, and `r` gets the edge to `user`.
    pub open spec fn connect(self, r: id::Region, origin: Origin, user: User) -> Option<Graph> {
        if self.connection_exists(r, origin, user) {
            Some(self)
        } else {
            match self.find_origin(r, origin) {
                None => None,
                Some((found, o)) => Some(found.raw_connect(r, o, user)),
            }
        }
    }

    /// The number of arguments of `r` that are the region's own: those before
    /// the arguments that stand for the inputs of the owner `n`.
    pub open spec fn custom_arguments(self, n: id::AnyNode, r: id::Region) -> int {
        self.reg(r).arguments - self.node(n).inputs
    }

    /// The argument of the only child region of `n` that stands for input `k`
    /// of `n`.
    pub open spec fn input_as_argument(self, n: id::AnyNode, k: id::Input) -> Argument {
        let r = self.node(n).regions[0];
        Argument { region: r, id: id::Argument((self.custom_arguments(n, r) + k.0) as u32) }
    }

    /// The input of the owner of `r` for which argument `a` of `r` stands; none
    /// if `r` has no owner or if `a` is one of the region's own arguments.
    pub open spec fn argument_as_input(self, r: id::Region, a: id::Argument) -> Option<
        (id::AnyNode, id::Input),
    > {
        match self.reg(r).container_node {
            None => None,
            Some(n) => {
                let custom = self.custom_arguments(n, r);
                if a.0 >= custom {
                    Some((n, id::Input((a.0 - custom) as u32)))
                } else {
                    None
                }
            },
        }
    }
}

} // verus!
