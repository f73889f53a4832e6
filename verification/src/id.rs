//! Dense 32-bit identifiers of the entities of a translation unit.

use core::marker::PhantomData;
use vstd::prelude::*;
use vstd::std_specs::convert::FromSpecImpl;
use vstd::string::StringExecFns;

verus! {

/// A node of any kind.
#[derive(Clone, Copy, PartialEq, Eq, Structural, Hash, Debug)]
pub struct AnyNode(pub u32);

/// A region.
#[derive(Clone, Copy, PartialEq, Eq, Structural, Hash, Debug)]
pub struct Region(pub u32);

/// An argument of a region, counted from the region's first argument.
#[derive(Clone, Copy, PartialEq, Eq, Structural, Hash, Debug)]
pub struct Argument(pub u32);

/// A result of a region, counted from the region's first result.
#[derive(Clone, Copy, PartialEq, Eq, Structural, Hash, Debug)]
pub struct Result(pub u32);

/// An input of a node, counted from the node's first input.
#[derive(Clone, Copy, PartialEq, Eq, Structural, Hash, Debug)]
pub struct Input(pub u32);

/// An output of a node, counted from the node's first output.
#[derive(Clone, Copy, PartialEq, Eq, Structural, Hash, Debug)]
pub struct Output(pub u32);

impl AnyNode {
    pub fn from_u32(x: u32) -> (r: Self)
        ensures
            r == AnyNode(x),
    {
        AnyNode(x)
    }

    pub fn as_u32(self) -> (x: u32)
        ensures
            x == self.0,
    {
        self.0
    }
}

impl Region {
    pub fn from_u32(x: u32) -> (r: Self)
        ensures
            r == Region(x),
    {
        Region(x)
    }

    pub fn as_u32(self) -> (x: u32)
        ensures
            x == self.0,
    {
        self.0
    }
}

impl Argument {
    pub fn from_u32(x: u32) -> (r: Self)
        ensures
            r == Argument(x),
    {
        Argument(x)
    }

    pub fn as_u32(self) -> (x: u32)
        ensures
            x == self.0,
    {
        self.0
    }
}

impl Result {
    pub fn from_u32(x: u32) -> (r: Self)
        ensures
            r == Result(x),
    {
        Result(x)
    }

    pub fn as_u32(self) -> (x: u32)
        ensures
            x == self.0,
    {
        self.0
    }
}

impl Input {
    pub fn from_u32(x: u32) -> (r: Self)
        ensures
            r == Input(x),
    {
        Input(x)
    }

    pub fn as_u32(self) -> (x: u32)
        ensures
            x == self.0,
    {
        self.0
    }
}

impl Output {
    pub fn from_u32(x: u32) -> (r: Self)
        ensures
            r == Output(x),
    {
        Output(x)
    }

    pub fn as_u32(self) -> (x: u32)
        ensures
            x == self.0,
    {
        self.0
    }
}

/// The key of the node table: position `i` of the table is node `i`.
impl cranelift_entity::EntityRef for AnyNode {
    fn new(index: usize) -> (r: Self)
        ensures
            index <= u32::MAX ==> r.0 == index,
    {
        AnyNode(#[verifier::truncate] (index as u32))
    }

    fn index(self) -> (i: usize)
        ensures
            i == self.0,
    {
        self.0 as usize
    }
}

/// The key of the region table: position `i` of the table is region `i`.
impl cranelift_entity::EntityRef for Region {
    fn new(index: usize) -> (r: Self)
        ensures
            index <= u32::MAX ==> r.0 == index,
    {
        Region(#[verifier::truncate] (index as u32))
    }

    fn index(self) -> (i: usize)
        ensures
            i == self.0,
    {
        self.0 as usize
    }
}

/// A node together with the kind `K` that its holder expects it to have.
///
/// The kind is a marker of the type only: the untyped id says which node it is.
#[derive(Debug)]
pub struct Node<K> {
    pub id: AnyNode,
    pub _kind: PhantomData<K>,
}

impl<K> Clone for Node<K> {
    fn clone(&self) -> (r: Self)
        ensures
            r == *self,
    {
        Node { id: self.id, _kind: PhantomData }
    }
}

impl<K> Copy for Node<K> {

}

impl<K> Node<K> {
    pub fn new(id: AnyNode) -> (r: Self)
        ensures
            r == Self::of(id),
    {
        Node { id, _kind: PhantomData }
    }

    /// The handle of node `id`.
    pub open spec fn of(id: AnyNode) -> Self {
        Node { id, _kind: PhantomData }
    }

    /// The text of the node: that of its id.
    pub fn to_string(&self) -> (text: String)
        ensures
            text@ == "node"@ + decimal(self.id.0 as nat),
    {
        self.id.to_string()
    }
}

impl From<AnyNode> for Node<AnyNode> {
    fn from(id: AnyNode) -> (r: Self) {
        Node::new(id)
    }
}

impl FromSpecImpl<AnyNode> for Node<AnyNode> {
    open spec fn obeys_from_spec() -> bool {
        true
    }

    open spec fn from_spec(id: AnyNode) -> Self {
        Node::of(id)
    }
}

/// The character of a decimal digit.
pub open spec fn digit(d: nat) -> char {
    if d == 0 {
        '0'
    } else if d == 1 {
        '1'
    } else if d == 2 {
        '2'
    } else if d == 3 {
        '3'
    } else if d == 4 {
        '4'
    } else if d == 5 {
        '5'
    } else if d == 6 {
        '6'
    } else if d == 7 {
        '7'
    } else if d == 8 {
        '8'
    } else {
        '9'
    }
}

/// A number in decimal digits, without leading zeros.
pub open spec fn decimal(n: nat) -> Seq<char>
    decreases n,
{
    if n < 10 {
        Seq::empty().push(digit(n))
    } else {
        decimal(n / 10).push(digit(n % 10))
    }
}

/// The text of one decimal digit.
fn digit_text(d: u32) -> (text: &'static str)
    requires
        d < 10,
    ensures
        text@ == Seq::<char>::empty().push(digit(d as nat)),
{
    proof {
        reveal_strlit("0");
        reveal_strlit("1");
        reveal_strlit("2");
        reveal_strlit("3");
        reveal_strlit("4");
        reveal_strlit("5");
        reveal_strlit("6");
        reveal_strlit("7");
        reveal_strlit("8");
        reveal_strlit("9");
    }
    let text = if d == 0 {
        "0"
    } else if d == 1 {
        "1"
    } else if d == 2 {
        "2"
    } else if d == 3 {
        "3"
    } else if d == 4 {
        "4"
    } else if d == 5 {
        "5"
    } else if d == 6 {
        "6"
    } else if d == 7 {
        "7"
    } else if d == 8 {
        "8"
    } else {
        "9"
    };
    assert(text@ =~= Seq::<char>::empty().push(digit(d as nat)));
    text
}

/// The text of an entity: a prefix that says what it is, and its number.
pub fn label(prefix: &str, n: u32) -> (text: String)
    ensures
        text@ == prefix@ + decimal(n as nat),
    decreases n,
{
    if n < 10 {
        let mut text = String::from_str(prefix);
        text.append(digit_text(n));
        text
    } else {
        let mut text = label(prefix, n / 10);
        text.append(digit_text(n % 10));
        assert(text@ =~= prefix@ + decimal(n as nat));
        text
    }
}

impl AnyNode {
    /// The text of this node: `node` and its number.
    pub fn to_string(&self) -> (text: String)
        ensures
            text@ == "node"@ + decimal(self.0 as nat),
    {
        label("node", self.0)
    }
}

impl Region {
    /// The text of this region: `region` and its number.
    pub fn to_string(&self) -> (text: String)
        ensures
            text@ == "region"@ + decimal(self.0 as nat),
    {
        label("region", self.0)
    }
}

impl Argument {
    /// The text of this argument: `a` and its number.
    pub fn to_string(&self) -> (text: String)
        ensures
            text@ == "a"@ + decimal(self.0 as nat),
    {
        label("a", self.0)
    }
}

impl Result {
    /// The text of this result: `r` and its number.
    pub fn to_string(&self) -> (text: String)
        ensures
            text@ == "r"@ + decimal(self.0 as nat),
    {
        label("r", self.0)
    }
}

impl Input {
    /// The text of this input: `i` and its number.
    pub fn to_string(&self) -> (text: String)
        ensures
            text@ == "i"@ + decimal(self.0 as nat),
    {
        label("i", self.0)
    }
}

impl Output {
    /// The text of this output: `o` and its number.
    pub fn to_string(&self) -> (text: String)
        ensures
            text@ == "o"@ + decimal(self.0 as nat),
    {
        label("o", self.0)
    }
}

} // verus!
