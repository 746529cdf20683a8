//! The physical schema tree: nested groups of named nodes with leaf columns.

use vstd::prelude::*;

verus! {

/// How often a physical schema node appears under its parent.
#[derive(Clone, Copy, PartialEq, Eq, Structural, Debug)]
pub enum Repetition {
    /// The node is always present.
    Required,
    /// The node may be absent.
    Optional,
    /// The node may occur zero or more times.
    Repeated,
}

/// The storage type carried by a leaf column.
#[derive(Clone, Copy, PartialEq, Eq, Structural, Debug)]
pub enum LeafType {
    Bool,
    Int32,
    Int64,
    Utf8,
}

/// What a physical schema node is: a leaf column holding typed values, or a
/// group holding an ordered list of named child nodes.
pub enum NodeKind {
    Leaf(LeafType),
    Group(Vec<PhysicalNode>),
}

/// One node of the physical schema tree.
///
/// The tree's root is a sentinel that holds the whole schema; it carries
/// `is_root == true` and no record type may bind against it directly.
pub struct PhysicalNode {
    pub name: String,
    pub repetition: Repetition,
    pub is_root: bool,
    pub kind: NodeKind,
}

impl PhysicalNode {
    pub open spec fn is_group(self) -> bool {
        self.kind is Group
    }

    pub open spec fn children(self) -> Seq<PhysicalNode> {
        self.kind->Group_0@
    }

    pub open spec fn is_leaf_of(self, t: LeafType) -> bool {
        self.kind == NodeKind::Leaf(t)
    }
}

/// A record type may bind only against a required group node that is not the
/// tree's root sentinel.
pub open spec fn shape_ok(node: PhysicalNode) -> bool {
    node.is_group() && !node.is_root && node.repetition == Repetition::Required
}

/// The first child of `children` whose name is `name`, if any.
pub open spec fn find_child_spec(children: Seq<PhysicalNode>, name: Seq<char>) -> Option<PhysicalNode>
    decreases children.len(),
{
    if children.len() == 0 {
        None
    } else if children[0].name@ == name {
        Some(children[0])
    } else {
        find_child_spec(children.drop_first(), name)
    }
}

/// Looks a child node up by name, in order, first match wins.
pub fn find_child<'a>(children: &'a Vec<PhysicalNode>, name: &String) -> (r: Option<&'a PhysicalNode>)
    ensures
        match r {
            Some(c) => find_child_spec(children@, name@) == Some(*c),
            None => find_child_spec(children@, name@) is None,
        },
{
    let n = children.len();
    let mut i: usize = 0;
    proof {
        assert(children@.skip(0) =~= children@);
    }
    while i < n
        invariant
            n == children@.len(),
            i <= n,
            find_child_spec(children@, name@) == find_child_spec(children@.skip(i as int), name@),
        decreases n - i,
    {
        proof {
            assert(children@.skip(i as int)[0] == children@[i as int]);
            assert(children@.skip(i as int).drop_first() =~= children@.skip(i + 1));
        }
        if children[i].name == *name {
            return Some(&children[i]);
        }
        i = i + 1;
    }
    proof {
        assert(children@.skip(n as int) =~= Seq::<PhysicalNode>::empty());
    }
    None
}

} // verus!
