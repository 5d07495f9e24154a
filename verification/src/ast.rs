//! The syntax tree: a tagged node with an ordered sequence of children.

use vstd::prelude::*;

use vstd::string::StringExecFns;

use crate::operatortype::Operator;
use crate::value::{SVal, Value};

verus! {

/// The mathematical model of a node tag.
pub ghost enum SNodeValue {
    Operator(Operator),
    Literal(SVal),
    Identifier(Seq<char>),
    Quote,
    Root,
}

/// The mathematical model of a node: the tag and the children, in operand
/// order.
pub ghost struct SNode {
    pub value: SNodeValue,
    pub children: Seq<SNode>,
}

/// The tag of a syntax-tree node.
#[derive(Debug)]
pub enum AstNodeValue {
    Operator(Operator),
    Literal(Value),
    Identifier(String),
    Quote,
    Root,
}

impl View for AstNodeValue {
    type V = SNodeValue;

    open spec fn view(&self) -> SNodeValue {
        match self {
            AstNodeValue::Operator(op) => SNodeValue::Operator(*op),
            AstNodeValue::Literal(v) => SNodeValue::Literal(v@),
            AstNodeValue::Identifier(s) => SNodeValue::Identifier(s@),
            AstNodeValue::Quote => SNodeValue::Quote,
            AstNodeValue::Root => SNodeValue::Root,
        }
    }
}

impl Clone for AstNodeValue {
    fn clone(&self) -> (r: Self)
        ensures
            r == *self,
    {
        match self {
            AstNodeValue::Operator(op) => AstNodeValue::Operator(*op),
            AstNodeValue::Literal(v) => AstNodeValue::Literal(v.clone()),
            AstNodeValue::Identifier(s) => AstNodeValue::Identifier(s.clone()),
            AstNodeValue::Quote => AstNodeValue::Quote,
            AstNodeValue::Root => AstNodeValue::Root,
        }
    }
}

/// A node of the syntax tree.  The children are appended in encounter order
/// and are read through `children`; the tree is immutable once built.
#[derive(Debug)]
pub struct AstNode {
    pub value: AstNodeValue,
    pub children: Vec<AstNode>,
}

/// The model of a node: its tag's model and its children's models.
pub open spec fn node_view(n: AstNode) -> SNode
    decreases n,
{
    SNode {
        value: n.value@,
        children: Seq::new(
            n.children@.len(),
            |i: int|
                if 0 <= i < n.children@.len() {
                    node_view(n.children@[i])
                } else {
                    SNode { value: SNodeValue::Root, children: Seq::empty() }
                },
        ),
    }
}

impl View for AstNode {
    type V = SNode;

    open spec fn view(&self) -> SNode {
        node_view(*self)
    }
}

impl AstNode {
    /// A fresh node with the given tag and no children.
    pub fn new(value: AstNodeValue) -> (n: AstNode)
        ensures
            n@.value == value@,
            n@.children.len() == 0,
    {
        AstNode { value, children: Vec::new() }
    }

    /// Appends one child after the existing ones.
    pub fn add_child(&mut self, node: AstNode)
        ensures
            final(self)@.value == old(self)@.value,
            final(self)@.children == old(self)@.children.push(node@),
    {
        self.children.push(node);
        proof {
            assert(self.children@ == old(self).children@.push(node));
            assert forall|i: int| 0 <= i < self@.children.len() implies self@.children[i] == old(
                self,
            )@.children.push(node@)[i] by {
                if i < old(self).children@.len() {
                    assert(self.children@[i] == old(self).children@[i]);
                } else {
                    assert(self.children@[i] == node);
                }
            }
            assert(self@.children =~= old(self)@.children.push(node@));
        }
    }

    /// The ordered, read-only view of the children.
    pub fn children(&self) -> (c: &Vec<AstNode>)
        ensures
            c@.len() == self@.children.len(),
            forall|i: int| 0 <= i < c@.len() ==> c@[i]@ == self@.children[i],
    {
        &self.children
    }

    /// Renders the tree as an indented listing for diagnostics; see
    /// `spec_render`.
    pub fn to_display_string(&self) -> (s: String)
        ensures
            s@ == spec_render(self@, 0),
    {
        render_with_indent(self, 0)
    }
}

/// The name of an operator, as the tree listing prints it.
pub open spec fn spec_op_name(op: Operator) -> Seq<char> {
    match op {
        Operator::Plus => "Plus"@,
        Operator::Minus => "Minus"@,
        Operator::Div => "Div"@,
        Operator::IntDiv => "IntDiv"@,
        Operator::Mul => "Mul"@,
        Operator::Modulo => "Modulo"@,
        Operator::Power => "Power"@,
        Operator::Eq => "Eq"@,
        Operator::Neq => "Neq"@,
        Operator::Geq => "Geq"@,
        Operator::Leq => "Leq"@,
        Operator::Lt => "Lt"@,
        Operator::Gt => "Gt"@,
    }
}

/// The rendering of a node tag.
pub open spec fn spec_render_value(v: SNodeValue) -> Seq<char> {
    match v {
        SNodeValue::Operator(op) => "Operator("@ + spec_op_name(op) + ")"@,
        SNodeValue::Literal(sv) => "Literal("@ + crate::value::spec_value_display(sv) + ")"@,
        SNodeValue::Identifier(name) => "Identifier("@ + name + ")"@,
        SNodeValue::Quote => "Quote"@,
        SNodeValue::Root => "Root"@,
    }
}

/// Two spaces per indentation level.
pub open spec fn spec_indent(level: int) -> Seq<char>
    decreases level,
    when level >= 0
{
    if level <= 0 {
        Seq::empty()
    } else {
        spec_indent(level - 1) + "  "@
    }
}

/// The next indentation level, saturating at the machine bound.
pub open spec fn next_level(level: int) -> int {
    if level < 0xFFFF_FFFF_FFFF_FFFF {
        level + 1
    } else {
        level
    }
}

/// The indented listing of a node: its tag, then its children one level
/// deeper, each entry on its own line.
pub open spec fn spec_render(n: SNode, level: int) -> Seq<char>
    decreases n, n.children.len() + 1, 0int,
    when level >= 0
{
    spec_indent(level) + "Node Type: "@ + spec_render_value(n.value) + ", "@ + (if n.children.len()
        == 0 {
        "No children"@
    } else {
        "Children:"@ + "\n"@ + spec_render_children(n, 0, next_level(level))
    }) + "\n"@
}

/// The renderings of the children from index `i` on, concatenated.
pub open spec fn spec_render_children(n: SNode, i: int, level: int) -> Seq<char>
    decreases n, n.children.len() - i, 1int,
    when 0 <= i <= n.children.len() && level >= 0
{
    if i == n.children.len() {
        Seq::empty()
    } else {
        spec_render(n.children[i], level) + spec_render_children(n, i + 1, level)
    }
}

/// Executable indentation; see `spec_indent`.
fn indent_of(level: u64) -> (s: String)
    ensures
        s@ == spec_indent(level as int),
{
    let mut out = String::new();
    let mut k: u64 = 0;
    proof {
        assert(out@ =~= spec_indent(0));
    }
    while k < level
        invariant
            0 <= k <= level,
            out@ == spec_indent(k as int),
        decreases level - k,
    {
        out.append("  ");
        k = k + 1;
    }
    out
}

/// Executable name of an operator; see `spec_op_name`.
fn op_name(op: Operator) -> (s: String)
    ensures
        s@ == spec_op_name(op),
{
    match op {
        Operator::Plus => String::from_str("Plus"),
        Operator::Minus => String::from_str("Minus"),
        Operator::Div => String::from_str("Div"),
        Operator::IntDiv => String::from_str("IntDiv"),
        Operator::Mul => String::from_str("Mul"),
        Operator::Modulo => String::from_str("Modulo"),
        Operator::Power => String::from_str("Power"),
        Operator::Eq => String::from_str("Eq"),
        Operator::Neq => String::from_str("Neq"),
        Operator::Geq => String::from_str("Geq"),
        Operator::Leq => String::from_str("Leq"),
        Operator::Lt => String::from_str("Lt"),
        Operator::Gt => String::from_str("Gt"),
    }
}

/// Executable rendering of a node tag; see `spec_render_value`.
fn render_value(v: &AstNodeValue) -> (s: String)
    ensures
        s@ == spec_render_value(v@),
{
    match v {
        AstNodeValue::Operator(op) => {
            let s = String::from_str("Operator(").concat(op_name(*op).as_str()).concat(")");
            proof {
                assert(s@ =~= spec_render_value(v@));
            }
            s
        },
        AstNodeValue::Literal(val) => {
            let s = String::from_str("Literal(").concat(val.to_display_string().as_str()).concat(
                ")",
            );
            proof {
                assert(s@ =~= spec_render_value(v@));
            }
            s
        },
        AstNodeValue::Identifier(name) => {
            let s = String::from_str("Identifier(").concat(name.as_str()).concat(")");
            proof {
                assert(s@ =~= spec_render_value(v@));
            }
            s
        },
        AstNodeValue::Quote => String::from_str("Quote"),
        AstNodeValue::Root => String::from_str("Root"),
    }
}

/// Executable indented listing; see `spec_render`.
fn render_with_indent(n: &AstNode, level: u64) -> (s: String)
    ensures
        s@ == spec_render(n@, level as int),
    decreases *n, 1int,
{
    let mut out = indent_of(level);
    out.append("Node Type: ");
    out.append(render_value(&n.value).as_str());
    out.append(", ");
    if n.children.len() == 0 {
        out.append("No children");
    } else {
        out.append("Children:");
        out.append("\n");
        let next: u64 = if level < 0xFFFF_FFFF_FFFF_FFFF {
            level + 1
        } else {
            level
        };
        proof {
            assert(next as int == next_level(level as int));
        }
        let ghost base = out@;
        proof {
            assert(out@.take(base.len() as int) =~= base);
            assert(out@.skip(base.len() as int) =~= Seq::<char>::empty());
            assert(Seq::<char>::empty() + spec_render_children(n@, 0, next as int)
                =~= spec_render_children(n@, 0, next as int));
        }
        let mut i: usize = 0;
        while i < n.children.len()
            invariant
                0 <= i <= n.children@.len(),
                next as int == next_level(level as int),
                base.len() <= out@.len(),
                out@.take(base.len() as int) == base,
                spec_render_children(n@, 0, next as int) == out@.skip(base.len() as int)
                    + spec_render_children(n@, i as int, next as int),
            decreases n.children@.len() - i,
        {
            proof {
                assert(n@.children[i as int] == n.children@[i as int]@);
            }
            let child = render_with_indent(&n.children[i], next);
            let ghost before = out@;
            out.append(child.as_str());
            proof {
                assert(out@.take(base.len() as int) =~= before.take(base.len() as int));
                assert(out@.skip(base.len() as int) =~= before.skip(base.len() as int) + child@);
                assert((before.skip(base.len() as int) + child@) + spec_render_children(
                    n@,
                    i + 1,
                    next as int,
                ) =~= before.skip(base.len() as int) + (child@ + spec_render_children(
                    n@,
                    i + 1,
                    next as int,
                )));
            }
            i = i + 1;
        }
        proof {
            assert(out@.skip(base.len() as int) + Seq::<char>::empty() =~= out@.skip(
                base.len() as int,
            ));
            assert(out@ =~= out@.take(base.len() as int) + out@.skip(base.len() as int));
            assert(out@ =~= base + spec_render_children(n@, 0, next as int));
        }
    }
    out.append("\n");
    proof {
        assert(out@ =~= spec_render(n@, level as int));
    }
    out
}

} // verus!
