//! Dataflow edges and the ports that they join.

use crate::id;
use vstd::prelude::*;
use vstd::std_specs::convert::FromSpecImpl;

verus! {

/// A dataflow edge: the value of `origin` flows to `user`.
#[derive(Clone, Copy, PartialEq, Eq, Structural, Debug)]
pub struct Edge {
    pub origin: Origin,
    pub user: User,
}

/// Where a value is consumed: an input of a node, or a result of a region.
#[derive(Clone, Copy, PartialEq, Eq, Structural, Debug)]
pub enum User {
    Input(id::AnyNode, id::Input),
    Result(id::Region, id::Result),
}

/// Where a value comes from: an output of a node, or an argument of a region.
#[derive(Clone, Copy, PartialEq, Eq, Structural, Debug)]
pub enum Origin {
    Output(id::AnyNode, id::Output),
    Argument(id::Region, id::Argument),
}

/// An input of a node of kind `K`.
#[derive(Debug)]
pub struct Input<K> {
    pub node: id::Node<K>,
    pub id: id::Input,
}

/// An output of a node of kind `K`.
#[derive(Debug)]
pub struct Output<K> {
    pub node: id::Node<K>,
    pub id: id::Output,
}

/// An argument of a region.
#[derive(Clone, Copy, PartialEq, Eq, Structural, Debug)]
pub struct Argument {
    pub region: id::Region,
    pub id: id::Argument,
}

/// A result of a region.
#[derive(Clone, Copy, PartialEq, Eq, Structural, Debug)]
pub struct Result {
    pub region: id::Region,
    pub id: id::Result,
}

impl<K> Output<K> {
    /// The same output, without the kind of its node.
    pub fn downgrade(self) -> (r: Output<id::AnyNode>)
        ensures
            r.node.id == self.node.id,
            r.id == self.id,
    {
        Output { node: id::Node::new(self.node.id), id: self.id }
    }

    /// The origin that this output is.
    pub open spec fn origin(self) -> Origin {
        Origin::Output(self.node.id, self.id)
    }
}

impl<K> Input<K> {
    /// The same input, without the kind of its node.
    pub fn downgrade(self) -> (r: Input<id::AnyNode>)
        ensures
            r.node.id == self.node.id,
            r.id == self.id,
    {
        Input { node: id::Node::new(self.node.id), id: self.id }
    }

    /// The user that this input is.
    pub open spec fn user(self) -> User {
        User::Input(self.node.id, self.id)
    }
}

impl<K> Clone for Input<K> {
    fn clone(&self) -> (r: Self)
        ensures
            r == *self,
    {
        Input { node: self.node, id: self.id }
    }
}

impl<K> Clone for Output<K> {
    fn clone(&self) -> (r: Self)
        ensures
            r == *self,
    {
        Output { node: self.node, id: self.id }
    }
}

impl<K> Copy for Input<K> {

}

impl<K> Copy for Output<K> {

}

impl<K> From<Input<K>> for User {
    fn from(input: Input<K>) -> (r: Self) {
        User::Input(input.node.id, input.id)
    }
}

impl<K> FromSpecImpl<Input<K>> for User {
    open spec fn obeys_from_spec() -> bool {
        true
    }

    open spec fn from_spec(input: Input<K>) -> Self {
        User::Input(input.node.id, input.id)
    }
}

impl From<Result> for User {
    fn from(result: Result) -> (r: Self) {
        User::Result(result.region, result.id)
    }
}

impl FromSpecImpl<Result> for User {
    open spec fn obeys_from_spec() -> bool {
        true
    }

    open spec fn from_spec(result: Result) -> Self {
        User::Result(result.region, result.id)
    }
}

impl<K> From<Output<K>> for Origin {
    fn from(output: Output<K>) -> (r: Self) {
        Origin::Output(output.node.id, output.id)
    }
}

impl<K> FromSpecImpl<Output<K>> for Origin {
    open spec fn obeys_from_spec() -> bool {
        true
    }

    open spec fn from_spec(output: Output<K>) -> Self {
        Origin::Output(output.node.id, output.id)
    }
}

impl From<Argument> for Origin {
    fn from(argument: Argument) -> (r: Self) {
        Origin::Argument(argument.region, argument.id)
    }
}

impl FromSpecImpl<Argument> for Origin {
    open spec fn obeys_from_spec() -> bool {
        true
    }

    open spec fn from_spec(argument: Argument) -> Self {
        Origin::Argument(argument.region, argument.id)
    }
}

} // verus!
