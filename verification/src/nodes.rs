//! The kinds of node, and the record that each kind keeps in its node.

use crate::id;
use std::collections::HashMap;
use vstd::prelude::*;

verus! {

/// An application: the first input is the callee, the others its arguments.
#[derive(Debug)]
pub struct Apply {}

/// A do-while loop.
#[derive(Debug)]
pub struct DoWhile {}

/// The initializer of a global value: one region with one result, one output.
#[derive(Debug)]
pub struct GlobalV {}

/// A function abstraction: one region, one output that stands for the function.
#[derive(Debug)]
pub struct Lambda {}

/// A number literal.
#[derive(Debug)]
pub struct Number(pub i128);

/// A primitive that is known by its name only.
#[derive(Debug)]
pub struct Placeholder(pub &'static str);

/// A recursion environment: one region whose lambdas may call each other.
///
/// Each bound lambda, keyed by the number of its node, has an argument of the
/// environment's region, through which the lambdas refer to it, and an output
/// of the environment, through which the outside does.
#[derive(Debug)]
pub struct RecEnv {
    pub lambdas: HashMap<u32, (id::Argument, id::Output)>,
}

/// The root of a translation unit.
#[derive(Debug)]
pub struct TranslationUnit {
    pub region: id::Region,
}

/// The record of a node, tagged by its kind.
#[derive(Debug)]
pub enum Kind {
    Apply(Apply),
    DoWhile(DoWhile),
    GlobalV(GlobalV),
    Lambda(Lambda),
    Number(Number),
    Placeholder(Placeholder),
    RecEnv(RecEnv),
    TranslationUnit(TranslationUnit),
}

impl Kind {
    /// The classifier of this kind of node.
    pub open spec fn tag(self) -> Seq<char> {
        match self {
            Kind::Apply(_) => "apply"@,
            Kind::DoWhile(_) => "theta"@,
            Kind::GlobalV(_) => "delta"@,
            Kind::Lambda(_) => "lambda"@,
            Kind::Number(_) => "simple"@,
            Kind::Placeholder(_) => "simple"@,
            Kind::RecEnv(_) => "phi"@,
            Kind::TranslationUnit(_) => "omega"@,
        }
    }

    pub fn node_type(&self) -> (tag: &'static str)
        ensures
            tag@ == self.tag(),
    {
        match self {
            Kind::Apply(_) => "apply",
            Kind::DoWhile(_) => "theta",
            Kind::GlobalV(_) => "delta",
            Kind::Lambda(_) => "lambda",
            Kind::Number(_) => "simple",
            Kind::Placeholder(_) => "simple",
            Kind::RecEnv(_) => "phi",
            Kind::TranslationUnit(_) => "omega",
        }
    }
}

/// A kind of node: a record that a node can hold.
pub trait NodeKind: Sized {
    /// The tagged record that holds `self`.
    spec fn as_kind(self) -> Kind;

    /// The record of this kind that `kind` holds, if it holds one.
    spec fn of_kind(kind: Kind) -> Option<Self>;

    /// The classifier of this kind of node.
    fn node_type(&self) -> (tag: &'static str)
        ensures
            tag@ == self.as_kind().tag(),
    ;

    /// Tags the record with its kind.
    fn into_kind(self) -> (kind: Kind)
        ensures
            kind == self.as_kind(),
            Self::of_kind(kind) == Some(self),
    ;

    /// The record in `kind`, if `kind` is of this kind.
    fn from_kind(kind: &Kind) -> (r: Option<&Self>)
        ensures
            r == match Self::of_kind(*kind) {
                Some(k) => Some(&k),
                None => None,
            },
            r matches Some(k) ==> k.as_kind() == *kind,
    ;

    /// The record in `kind`, to be changed in place, if `kind` is of this kind.
    fn from_kind_mut(kind: &mut Kind) -> (r: Option<&mut Self>)
        ensures
            match r {
                Some(k) => Self::of_kind(*old(kind)) == Some(*k) && *final(kind) == (*final(k)).as_kind(),
                None => Self::of_kind(*old(kind)) is None && *final(kind) == *old(kind),
            },
    ;
}

impl NodeKind for Apply {
    open spec fn as_kind(self) -> Kind {
        Kind::Apply(self)
    }

    open spec fn of_kind(kind: Kind) -> Option<Self> {
        match kind {
            Kind::Apply(k) => Some(k),
            _ => None,
        }
    }

    fn node_type(&self) -> (tag: &'static str) {
        "apply"
    }

    fn into_kind(self) -> (kind: Kind) {
        Kind::Apply(self)
    }

    fn from_kind(kind: &Kind) -> (r: Option<&Self>) {
        match kind {
            Kind::Apply(k) => Some(k),
            _ => None,
        }
    }

    fn from_kind_mut(kind: &mut Kind) -> (r: Option<&mut Self>) {
        match kind {
            Kind::Apply(k) => Some(k),
            _ => None,
        }
    }
}

impl NodeKind for DoWhile {
    open spec fn as_kind(self) -> Kind {
        Kind::DoWhile(self)
    }

    open spec fn of_kind(kind: Kind) -> Option<Self> {
        match kind {
            Kind::DoWhile(k) => Some(k),
            _ => None,
        }
    }

    fn node_type(&self) -> (tag: &'static str) {
        "theta"
    }

    fn into_kind(self) -> (kind: Kind) {
        Kind::DoWhile(self)
    }

    fn from_kind(kind: &Kind) -> (r: Option<&Self>) {
        match kind {
            Kind::DoWhile(k) => Some(k),
            _ => None,
        }
    }

    fn from_kind_mut(kind: &mut Kind) -> (r: Option<&mut Self>) {
        match kind {
            Kind::DoWhile(k) => Some(k),
            _ => None,
        }
    }
}

impl NodeKind for GlobalV {
    open spec fn as_kind(self) -> Kind {
        Kind::GlobalV(self)
    }

    open spec fn of_kind(kind: Kind) -> Option<Self> {
        match kind {
            Kind::GlobalV(k) => Some(k),
            _ => None,
        }
    }

    fn node_type(&self) -> (tag: &'static str) {
        "delta"
    }

    fn into_kind(self) -> (kind: Kind) {
        Kind::GlobalV(self)
    }

    fn from_kind(kind: &Kind) -> (r: Option<&Self>) {
        match kind {
            Kind::GlobalV(k) => Some(k),
            _ => None,
        }
    }

    fn from_kind_mut(kind: &mut Kind) -> (r: Option<&mut Self>) {
        match kind {
            Kind::GlobalV(k) => Some(k),
            _ => None,
        }
    }
}

impl NodeKind for Lambda {
    open spec fn as_kind(self) -> Kind {
        Kind::Lambda(self)
    }

    open spec fn of_kind(kind: Kind) -> Option<Self> {
        match kind {
            Kind::Lambda(k) => Some(k),
            _ => None,
        }
    }

    fn node_type(&self) -> (tag: &'static str) {
        "lambda"
    }

    fn into_kind(self) -> (kind: Kind) {
        Kind::Lambda(self)
    }

    fn from_kind(kind: &Kind) -> (r: Option<&Self>) {
        match kind {
            Kind::Lambda(k) => Some(k),
            _ => None,
        }
    }

    fn from_kind_mut(kind: &mut Kind) -> (r: Option<&mut Self>) {
        match kind {
            Kind::Lambda(k) => Some(k),
            _ => None,
        }
    }
}

impl NodeKind for Number {
    open spec fn as_kind(self) -> Kind {
        Kind::Number(self)
    }

    open spec fn of_kind(kind: Kind) -> Option<Self> {
        match kind {
            Kind::Number(k) => Some(k),
            _ => None,
        }
    }

    fn node_type(&self) -> (tag: &'static str) {
        "simple"
    }

    fn into_kind(self) -> (kind: Kind) {
        Kind::Number(self)
    }

    fn from_kind(kind: &Kind) -> (r: Option<&Self>) {
        match kind {
            Kind::Number(k) => Some(k),
            _ => None,
        }
    }

    fn from_kind_mut(kind: &mut Kind) -> (r: Option<&mut Self>) {
        match kind {
            Kind::Number(k) => Some(k),
            _ => None,
        }
    }
}

impl NodeKind for Placeholder {
    open spec fn as_kind(self) -> Kind {
        Kind::Placeholder(self)
    }

    open spec fn of_kind(kind: Kind) -> Option<Self> {
        match kind {
            Kind::Placeholder(k) => Some(k),
            _ => None,
        }
    }

    fn node_type(&self) -> (tag: &'static str) {
        "simple"
    }

    fn into_kind(self) -> (kind: Kind) {
        Kind::Placeholder(self)
    }

    fn from_kind(kind: &Kind) -> (r: Option<&Self>) {
        match kind {
            Kind::Placeholder(k) => Some(k),
            _ => None,
        }
    }

    fn from_kind_mut(kind: &mut Kind) -> (r: Option<&mut Self>) {
        match kind {
            Kind::Placeholder(k) => Some(k),
            _ => None,
        }
    }
}

impl NodeKind for RecEnv {
    open spec fn as_kind(self) -> Kind {
        Kind::RecEnv(self)
    }

    open spec fn of_kind(kind: Kind) -> Option<Self> {
        match kind {
            Kind::RecEnv(k) => Some(k),
            _ => None,
        }
    }

    fn node_type(&self) -> (tag: &'static str) {
        "phi"
    }

    fn into_kind(self) -> (kind: Kind) {
        Kind::RecEnv(self)
    }

    fn from_kind(kind: &Kind) -> (r: Option<&Self>) {
        match kind {
            Kind::RecEnv(k) => Some(k),
            _ => None,
        }
    }

    fn from_kind_mut(kind: &mut Kind) -> (r: Option<&mut Self>) {
        match kind {
            Kind::RecEnv(k) => Some(k),
            _ => None,
        }
    }
}

impl NodeKind for TranslationUnit {
    open spec fn as_kind(self) -> Kind {
        Kind::TranslationUnit(self)
    }

    open spec fn of_kind(kind: Kind) -> Option<Self> {
        match kind {
            Kind::TranslationUnit(k) => Some(k),
            _ => None,
        }
    }

    fn node_type(&self) -> (tag: &'static str) {
        "omega"
    }

    fn into_kind(self) -> (kind: Kind) {
        Kind::TranslationUnit(self)
    }

    fn from_kind(kind: &Kind) -> (r: Option<&Self>) {
        match kind {
            Kind::TranslationUnit(k) => Some(k),
            _ => None,
        }
    }

    fn from_kind_mut(kind: &mut Kind) -> (r: Option<&mut Self>) {
        match kind {
            Kind::TranslationUnit(k) => Some(k),
            _ => None,
        }
    }
}

} // verus!
