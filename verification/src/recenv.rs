//! Recursion environments: binding lambdas in an environment, and finding in
//! one lambda the argument through which it refers to another.

use crate::context::TranslationUnitContext;
use crate::edge::{Edge, Input, Origin, Output, User};
use crate::graph::Graph;
use crate::id;
use crate::nodes::{Lambda, RecEnv};
use crate::steps::lemma_owner;
use vstd::prelude::*;

verus! {

broadcast use vstd::std_specs::hash::group_hash_axioms;

/// The input of `node` that the first edge at or after position `from` gives
/// the value of argument `argument` of region `region`; none if no edge at or
/// after `from` does so.
pub open spec fn first_use(
    edges: Seq<Edge>,
    region: id::Region,
    argument: id::Argument,
    node: id::AnyNode,
    from: int,
) -> Option<id::Input>
    decreases edges.len() - from,
{
    if from < 0 || from >= edges.len() {
        None
    } else {
        match edges[from].user {
            User::Input(n, i) if n == node && edges[from].origin == Origin::Argument(
                region,
                argument,
            ) => Some(i),
            _ => first_use(edges, region, argument, node, from + 1),
        }
    }
}

impl Graph {
    /// The environment that node `env` holds.
    pub open spec fn recenv(self, env: id::AnyNode) -> RecEnv {
        self.node(env).kind->RecEnv_0
    }

    /// Whether node `env` is a recursion environment with one region.
    pub open spec fn is_recenv(self, env: id::AnyNode) -> bool {
        &&& self.has_node(env)
        &&& self.node(env).kind is RecEnv
        &&& self.node(env).regions.len() == 1
    }
}

impl TranslationUnitContext {
    /// Binds a lambda in the recursion environment whose region is the
    /// current region, which holds the lambda.
    ///
    /// The lambda becomes the last node of the region. The region gets one
    /// more argument, through which the lambdas of the environment refer to
    /// this one, and the environment gets one more output, through which the
    /// outside does; the environment records both under the lambda's number.
    /// Returns the argument and the output.
    pub fn move_lambda_to_recenv(&mut self, lambda: id::Node<Lambda>) -> (bound: (
        id::Argument,
        Output<Lambda>,
    ))
        requires
            old(self).wf(),
            old(self)@.reg(old(self).current()).container_node is Some,
            old(self)@.node(old(self)@.reg(old(self).current()).container_node->0).kind is RecEnv,
            old(self)@.reg(old(self).current()).nodes.contains(lambda.id),
            old(self)@.reg(old(self).current()).arguments < u32::MAX,
            old(self)@.node(old(self)@.reg(old(self).current()).container_node->0).outputs
                < u32::MAX,
        ensures
            final(self).current() == old(self).current(),
            final(self).wf(),
            bound.0.0 == old(self)@.reg(old(self).current()).arguments,
            bound.1.node.id == old(self)@.reg(old(self).current()).container_node->0,
            bound.1.id.0 == old(self)@.node(bound.1.node.id).outputs,
            final(self)@.node(bound.1.node.id).kind is RecEnv,
            final(self)@.recenv(bound.1.node.id).lambdas@ == old(self)@.recenv(
                bound.1.node.id,
            ).lambdas@.insert(lambda.id.0, (bound.0, bound.1.id)),
            final(self)@ == old(self)@.move_node(
                old(self).current(),
                lambda.id,
                old(self).current(),
            ).add_argument(old(self).current()).add_output(bound.1.node.id).set_kind(
                bound.1.node.id,
                final(self)@.node(bound.1.node.id).kind,
            ),
            old(self)@.edges_visible() ==> final(self)@.edges_visible(),
            old(self)@.rooted() ==> final(self)@.rooted(),
    {
        let to = self.current_region();
        let ghost before = self@;
        proof {
            lemma_owner(before, to);
        }
        self.move_node(lambda.id, to);
        let argument = self.add_argument();
        let env = match self.container_node(to) {
            Some(env) => env,
            None => vstd::pervasive::unreached(),
        };
        let output = self.add_output(id::Node::<RecEnv>::new(env));
        let record = self.get_mut(output.node);
        record.lambdas.insert(lambda.id.as_u32(), (argument.id, output.id));
        (argument.id, Output { node: id::Node::new(env), id: output.id })
    }

    /// Looks in the recursion environment `env` for the way in which the
    /// lambda `in_` refers to the lambda `lambda`, which is bound in `env`.
    ///
    /// If the region of `env` stores an edge from the argument of `lambda` to
    /// an input of `in_`, returns as `Ok` the argument of the region of `in_`
    /// that stands for the first such input. Otherwise returns as `Err` the
    /// argument of `lambda` in the region of `env`, which is not connected to
    /// `in_` yet.
    pub fn get_lambda_in_recenv(
        &self,
        env: id::Node<RecEnv>,
        in_: id::Node<Lambda>,
        lambda: id::Node<Lambda>,
    ) -> (found: Result<id::Argument, id::Argument>)
        requires
            self.wf(),
            self@.is_recenv(env.id),
            self@.recenv(env.id).lambdas@.contains_key(lambda.id.0),
            first_use(
                self@.reg(self@.node(env.id).regions[0]).edges,
                self@.node(env.id).regions[0],
                self@.recenv(env.id).lambdas@[lambda.id.0].0,
                in_.id,
                0,
            ) matches Some(input) ==> {
                &&& self@.has_node(in_.id)
                &&& self@.node(in_.id).regions.len() == 1
                &&& self@.custom_arguments(in_.id, self@.node(in_.id).regions[0]) + input.0
                    <= u32::MAX
            },
        ensures
            found == match first_use(
                self@.reg(self@.node(env.id).regions[0]).edges,
                self@.node(env.id).regions[0],
                self@.recenv(env.id).lambdas@[lambda.id.0].0,
                in_.id,
                0,
            ) {
                Some(input) => Ok::<id::Argument, id::Argument>(
                    self@.input_as_argument(in_.id, input).id,
                ),
                None => Err::<id::Argument, id::Argument>(
                    self@.recenv(env.id).lambdas@[lambda.id.0].0,
                ),
            },
    {
        let env_region = self.region(env.id);
        proof {
            assert(self@.has_region(self@.nodes[env.id.0 as int].regions[0]));
        }
        let record = self.get(env);
        let env_lambda_argument = match record.lambdas.get(&lambda.id.as_u32()) {
            Some(entry) => entry.0,
            None => vstd::pervasive::unreached(),
        };
        let edges = self.edges(env_region);
        let mut j: usize = 0;
        while j < edges.len()
            invariant
                self.wf(),
                j <= edges.len(),
                edges@ == self@.reg(self@.node(env.id).regions[0]).edges,
                env_region == self@.node(env.id).regions[0],
                env_lambda_argument == self@.recenv(env.id).lambdas@[lambda.id.0].0,
                first_use(edges@, env_region, env_lambda_argument, in_.id, 0) matches Some(input)
                    ==> {
                    &&& self@.has_node(in_.id)
                    &&& self@.node(in_.id).regions.len() == 1
                    &&& self@.custom_arguments(in_.id, self@.node(in_.id).regions[0]) + input.0
                        <= u32::MAX
                },
                first_use(edges@, env_region, env_lambda_argument, in_.id, 0) == first_use(
                    edges@,
                    env_region,
                    env_lambda_argument,
                    in_.id,
                    j as int,
                ),
            decreases edges.len() - j,
        {
            let edge = edges[j];
            if let Origin::Argument(region, arg) = edge.origin {
                if region == env_region && arg == env_lambda_argument {
                    if let User::Input(node_id, input) = edge.user {
                        if node_id == in_.id {
                            let arg = self.input_as_argument(Input { node: in_, id: input });
                            return Ok(arg.id);
                        }
                    }
                }
            }
            j += 1;
        }
        Err(env_lambda_argument)
    }
}

} // verus!
