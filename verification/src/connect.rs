//! The connect engine: joins an origin of an enclosing region to a user of the
//! current region, and forwards the value through every node in between.

use crate::context::TranslationUnitContext;
use crate::edge::{Argument, Edge, Origin, User};
use crate::id;
use crate::steps::{lemma_find_origin, lemma_forward, lemma_forward_ready, lemma_owner};
use vstd::prelude::*;
use vstd::std_specs::convert::IntoSpec;

verus! {

impl TranslationUnitContext {
    /// Connects `origin` to `user`, which is visible in the current region. A
    /// path from `origin` to the current region has to exist, unless the two
    /// are connected already.
    pub fn connect<O: Into<Origin>, U: Into<User>>(&mut self, origin: O, user: U)
        requires
            old(self).wf(),
            O::obeys_into_spec(),
            U::obeys_into_spec(),
            old(self)@.connectable(old(self).current(), origin.into_spec(), user.into_spec()),
            old(self)@.connect(old(self).current(), origin.into_spec(), user.into_spec()) is Some,
        ensures
            Some(final(self)@) == old(self)@.connect(
                old(self).current(),
                origin.into_spec(),
                user.into_spec(),
            ),
            final(self).current() == old(self).current(),
            final(self).wf(),
            old(self)@.edges_visible() ==> final(self)@.edges_visible(),
            old(self)@.rooted() ==> final(self)@.rooted(),
    {
        let ok = self.try_connect_ports(origin.into(), user.into());
        assert(ok);
    }

    /// Tries to connect `origin` to `user`, which is visible in the current
    /// region. Returns whether the two are connected now: `false` if no path
    /// leads from `origin` to the current region, and then nothing has changed.
    ///
    /// If the connection exists already, nothing changes. Otherwise the value
    /// is forwarded from the nearest enclosing region in which `origin` is
    /// visible down to the current region, one new input and one new edge for
    /// each node on the way, and the current region gets the edge to `user`.
    pub fn try_connect<O: Into<Origin>, U: Into<User>>(&mut self, origin: O, user: U) -> (connected:
        bool)
        requires
            old(self).wf(),
            O::obeys_into_spec(),
            U::obeys_into_spec(),
            old(self)@.connectable(old(self).current(), origin.into_spec(), user.into_spec()),
        ensures
            match old(self)@.connect(old(self).current(), origin.into_spec(), user.into_spec()) {
                Some(g) => connected && final(self)@ == g,
                None => !connected && final(self)@ == old(self)@,
            },
            final(self).current() == old(self).current(),
            final(self).wf(),
            old(self)@.edges_visible() ==> final(self)@.edges_visible(),
            old(self)@.rooted() ==> final(self)@.rooted(),
    {
        self.try_connect_ports(origin.into(), user.into())
    }

    /// Tries to connect an origin to a user that is visible in the current
    /// region, as `try_connect` says.
    fn try_connect_ports(&mut self, origin: Origin, user: User) -> (connected: bool)
        requires
            old(self).wf(),
            old(self)@.connectable(old(self).current(), origin, user),
        ensures
            match old(self)@.connect(old(self).current(), origin, user) {
                Some(g) => connected && final(self)@ == g,
                None => !connected && final(self)@ == old(self)@,
            },
            final(self).current() == old(self).current(),
            final(self).wf(),
            old(self)@.edges_visible() ==> final(self)@.edges_visible(),
            old(self)@.rooted() ==> final(self)@.rooted(),
    {
        let ghost before = self@;
        let current = self.current_region();
        if self.connection_exists(current, origin, user) {
            return true;
        }
        proof {
            lemma_find_origin(before, current, origin);
        }
        let found = match origin {
            Origin::Output(node_id, output) => self.find_and_connect_output(node_id, output),
            Origin::Argument(region, arg) => self.find_and_connect_argument(
                Argument { region, id: arg },
            ),
        };
        match found {
            None => false,
            Some(local) => {
                proof {
                    let (h, _) = before.find_origin(current, origin).unwrap();
                    assert(h.regions[current.0 as int].nodes == before.regions[current.0 as int].nodes);
                }
                self.raw_connect_visible(local, user);
                true
            },
        }
    }

    /// Looks for the node of an output from the current region upwards and
    /// forwards the output down to the current region. Returns the origin that
    /// is the output in the current region; none, and nothing changed, if no
    /// region on the way up holds the node.
    pub fn find_and_connect_output(&mut self, output_node: id::AnyNode, output: id::Output) -> (found:
        Option<Origin>)
        requires
            old(self).wf(),
            old(self)@.can_forward(old(self).current(), Origin::Output(output_node, output)),
        ensures
            match old(self)@.find_origin(old(self).current(), Origin::Output(output_node, output)) {
                Some((g, o)) => found == Some(o) && final(self)@ == g,
                None => found is None && final(self)@ == old(self)@,
            },
            final(self).current() == old(self).current(),
            final(self).wf(),
            found matches Some(o) ==> final(self)@.origin_visible(old(self).current(), o),
            old(self)@.edges_visible() ==> final(self)@.edges_visible(),
            old(self)@.rooted() ==> final(self)@.rooted(),
    {
        self.find_and_connect(Origin::Output(output_node, output))
    }

    /// Looks for the region of an argument from the current region upwards and
    /// forwards the argument down to the current region. Returns the origin
    /// that is the argument in the current region; none, and nothing changed,
    /// if the region is not on the way up.
    pub fn find_and_connect_argument(&mut self, arg: Argument) -> (found: Option<Origin>)
        requires
            old(self).wf(),
            old(self)@.can_forward(old(self).current(), Origin::Argument(arg.region, arg.id)),
        ensures
            match old(self)@.find_origin(old(self).current(), Origin::Argument(arg.region, arg.id)) {
                Some((g, o)) => found == Some(o) && final(self)@ == g,
                None => found is None && final(self)@ == old(self)@,
            },
            final(self).current() == old(self).current(),
            final(self).wf(),
            found matches Some(o) ==> final(self)@.origin_visible(old(self).current(), o),
            old(self)@.edges_visible() ==> final(self)@.edges_visible(),
            old(self)@.rooted() ==> final(self)@.rooted(),
    {
        self.find_and_connect(Origin::Argument(arg.region, arg.id))
    }

    /// The search for an origin from the current region upwards: where the
    /// origin is not visible, it goes on in the region of the current region's
    /// owner, and plants one step of forwarding on the way back.
    fn find_and_connect(&mut self, origin: Origin) -> (found: Option<Origin>)
        requires
            old(self).wf(),
            old(self)@.can_forward(old(self).current(), origin),
        ensures
            match old(self)@.find_origin(old(self).current(), origin) {
                Some((g, o)) => found == Some(o) && final(self)@ == g,
                None => found is None && final(self)@ == old(self)@,
            },
            final(self).current() == old(self).current(),
            final(self).wf(),
            found matches Some(o) ==> final(self)@.origin_visible(old(self).current(), o),
            old(self)@.edges_visible() ==> final(self)@.edges_visible(),
            old(self)@.rooted() ==> final(self)@.rooted(),
        decreases old(self).current().0,
    {
        let ghost before = self@;
        let current = self.current_region();
        proof {
            lemma_find_origin(before, current, origin);
        }
        let visible = match origin {
            Origin::Output(node, _) => self.holds(node),
            Origin::Argument(region, _) => region == current,
        };
        if visible {
            return Some(origin);
        }
        match self.container_node(current) {
            None => None,
            Some(in_node) => {
                proof {
                    lemma_owner(before, current);
                }
                let parent_region = self.node_region(in_node);
                self.switch_region(parent_region);
                let above = self.find_and_connect(origin);
                let found = match above {
                    None => None,
                    Some(seen) => {
                        proof {
                            lemma_find_origin(before, parent_region, origin);
                            lemma_forward_ready(before, self@, in_node, current);
                            lemma_forward(self@, in_node, parent_region, current, seen);
                        }
                        let input = self.add_input::<id::AnyNode>(id::Node::new(in_node));
                        let arg = self.input_as_argument(input);
                        self.raw_connect_visible(seen, User::Input(in_node, input.id));
                        Some(Origin::Argument(arg.region, arg.id))
                    },
                };
                self.switch_region(current);
                found
            },
        }
    }

    /// Whether the value of `origin` already reaches `user` in `region`.
    pub fn connection_exists(&self, region: id::Region, origin: Origin, user: User) -> (found: bool)
        requires
            self.wf(),
            self@.has_region(region),
        ensures
            found == self@.connection_exists(region, origin, user),
        decreases region.0, 1int,
    {
        let edges = self.edges(region);
        let mut j: usize = 0;
        while j < edges.len()
            invariant
                self.wf(),
                self@.has_region(region),
                edges@ == self@.reg(region).edges,
                j <= edges.len(),
                forall|k: int|
                    0 <= k < j ==> !self@.edge_connects(region, #[trigger] edges@[k], origin, user),
            decreases edges.len() - j,
        {
            let edge = edges[j];
            if edge.user == user && self.edge_leads_to_origin(region, &edge, origin) {
                return true;
            }
            j += 1;
        }
        false
    }

    /// Whether an edge of `region` comes from `origin`: directly, or from an
    /// argument that stands for an input of the region's owner which `origin`
    /// reaches in the region of that owner.
    fn edge_leads_to_origin(&self, region: id::Region, edge: &Edge, origin: Origin) -> (leads: bool)
        requires
            self.wf(),
            self@.has_region(region),
        ensures
            leads == self@.edge_connects(region, *edge, origin, edge.user),
        decreases region.0, 0int,
    {
        if edge.origin == origin {
            return true;
        }
        match edge.origin {
            Origin::Output(_, _) => false,
            Origin::Argument(named, argument) => {
                if named != region {
                    return false;
                }
                match self.argument_as_input(region, argument) {
                    None => false,
                    Some(input) => {
                        proof {
                            lemma_owner(self@, region);
                        }
                        let parent = self.node_region(input.node.id);
                        self.connection_exists(parent, origin, User::Input(input.node.id, input.id))
                    },
                }
            },
        }
    }
}

} // verus!
