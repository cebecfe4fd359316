//! The mathematical model of a rule tree.
//!
//! Both converters read their grammar from a tree of this shape. The order of
//! the roots, and of the children of every node, is the order in which the
//! rules are tried.

use vstd::prelude::*;

verus! {

/// One node of a rule tree: the character it consumes, what it emits when
/// consumed, and the rules that may follow it, in order of precedence.
pub struct RuleNode {
    pub key: char,
    pub emission: Option<Seq<char>>,
    pub children: Seq<RuleNode>,
}

/// The characters a node writes when its key is consumed: its emission, or
/// nothing where it has none.
pub open spec fn emitted(node: RuleNode) -> Seq<char> {
    match node.emission {
        Some(s) => s,
        None => Seq::empty(),
    }
}

} // verus!
