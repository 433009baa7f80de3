//! The variable names a diagram mentions, offered when a node's fields are edited.
use vstd::prelude::*;

use crate::model::diagram::Diagram;
use crate::model::node::{Node, NodeType, NodeView};
use crate::order::{insert_sorted, strictly_sorted};
use crate::text::{
    alphanumeric, chars_of, is_alphanumeric, is_float_literal, is_float_literal_chars,
    split, split_chars, texts, trim, trim_chars, views,
};

verus! {

/// Whether a trimmed field reads as a variable name: not empty, not quoted, not a number,
/// and made of alphanumeric characters, underscores and dots.
pub open spec fn is_variable_name(t: Seq<char>) -> bool {
    &&& t.len() > 0
    &&& t[0] != '"'
    &&& t[0] != '\''
    &&& !is_float_literal(t)
    &&& forall|i: int| 0 <= i < t.len() ==> alphanumeric(#[trigger] t[i]) || t[i] == '_' || t[i] == '.'
}

/// The fields of a node that may name variables: the comma-separated names of a start
/// node; the defined name of a definition; the variable of an input; the result variable
/// and both expressions of arithmetic, action and function nodes; both expressions of a
/// condition.
pub open spec fn node_fields(n: NodeView) -> Seq<Seq<char>> {
    match n.node_type {
        NodeType::Start => split(n.expr1, ','),
        NodeType::Definition => seq![n.expr1],
        NodeType::Input => seq![n.expr2],
        NodeType::Add | NodeType::Subtract | NodeType::Multiply | NodeType::Divide
        | NodeType::Action | NodeType::Function => seq![n.target_var, n.expr1, n.expr2],
        NodeType::IfEqual | NodeType::IfGreater | NodeType::IfGreaterEqual | NodeType::IfLess
        | NodeType::IfLessEqual => seq![n.expr1, n.expr2],
        _ => Seq::empty(),
    }
}

/// The fields of the nodes `ns` that may name variables, node after node.
pub open spec fn diagram_fields(ns: Seq<NodeView>) -> Seq<Seq<char>>
    decreases ns.len(),
{
    if ns.len() == 0 {
        Seq::empty()
    } else {
        diagram_fields(ns.drop_last()) + node_fields(ns.last())
    }
}

/// Whether `v` is the trimmed text of one of the fields `fs` and reads as a variable name.
pub open spec fn names_among(fs: Seq<Seq<char>>, v: Seq<char>) -> bool {
    is_variable_name(v) && exists|k: int| 0 <= k < fs.len() && trim(#[trigger] fs[k]) == v
}

fn is_variable_name_chars(t: &Vec<char>) -> (r: bool)
    ensures
        r == is_variable_name(t@),
{
    if t.len() == 0 || t[0] == '"' || t[0] == '\'' || is_float_literal_chars(t) {
        return false;
    }
    let mut i: usize = 0;
    while i < t.len()
        invariant
            i <= t.len(),
            forall|j: int| 0 <= j < i ==> alphanumeric(#[trigger] t@[j]) || t@[j] == '_' || t@[j] == '.',
        decreases t.len() - i,
    {
        let c = t[i];
        if !(is_alphanumeric(c) || c == '_' || c == '.') {
            return false;
        }
        i = i + 1;
    }
    true
}

fn node_fields_exec(n: &Node) -> (r: Vec<Vec<char>>)
    ensures
        views(r@) == node_fields(n@),
{
    let r: Vec<Vec<char>> = match n.node_type {
        NodeType::Start => split_chars(&chars_of(n.expr1.as_str()), ','),
        NodeType::Definition => vec![chars_of(n.expr1.as_str())],
        NodeType::Input => vec![chars_of(n.expr2.as_str())],
        NodeType::Add | NodeType::Subtract | NodeType::Multiply | NodeType::Divide
        | NodeType::Action | NodeType::Function => vec![
            chars_of(n.target_var.as_str()),
            chars_of(n.expr1.as_str()),
            chars_of(n.expr2.as_str()),
        ],
        NodeType::IfEqual | NodeType::IfGreater | NodeType::IfGreaterEqual | NodeType::IfLess
        | NodeType::IfLessEqual => vec![chars_of(n.expr1.as_str()), chars_of(n.expr2.as_str())],
        _ => Vec::new(),
    };
    assert(views(r@) =~= node_fields(n@));
    r
}

/// The variable names that the diagram's nodes mention, as `names_among` reads their
/// fields, each once and in sorted order.
pub fn collect_diagram_variables(diagram: &Diagram) -> (r: Vec<String>)
    ensures
        strictly_sorted(texts(r@)),
        forall|v: Seq<char>| texts(r@).contains(v) <==> names_among(diagram_fields(diagram@.nodes), v),
{
    let mut out: Vec<String> = Vec::new();
    let ghost mut seen: Seq<Seq<char>> = Seq::empty();
    let ghost ns = diagram@.nodes;
    assert(texts(out@) =~= Seq::<Seq<char>>::empty());
    let mut i: usize = 0;
    while i < diagram.nodes.len()
        invariant
            i <= diagram.nodes.len(),
            ns == diagram@.nodes,
            seen == diagram_fields(ns.take(i as int)),
            strictly_sorted(texts(out@)),
            forall|v: Seq<char>| texts(out@).contains(v) <==> names_among(seen, v),
        decreases diagram.nodes.len() - i,
    {
        let fields = node_fields_exec(&diagram.nodes[i]);
        let ghost before = seen;
        let mut j: usize = 0;
        while j < fields.len()
            invariant
                j <= fields.len(),
                seen == before + views(fields@).take(j as int),
                strictly_sorted(texts(out@)),
                forall|v: Seq<char>| texts(out@).contains(v) <==> names_among(seen, v),
            decreases fields.len() - j,
        {
            let t = trim_chars(&fields[j]);
            let ghost prev = seen;
            proof {
                seen = seen.push(views(fields@)[j as int]);
                assert(seen =~= before + views(fields@).take(j + 1));
            }
            if is_variable_name_chars(&t) {
                insert_sorted(&mut out, &t);
            }
            assert forall|v: Seq<char>| texts(out@).contains(v) <==> names_among(seen, v) by {
                if names_among(seen, v) {
                    let k = choose|k: int| 0 <= k < seen.len() && trim(#[trigger] seen[k]) == v;
                    if k < prev.len() {
                        assert(prev[k] == seen[k]);
                        assert(names_among(prev, v));
                    }
                }
                if names_among(prev, v) {
                    let k = choose|k: int| 0 <= k < prev.len() && trim(#[trigger] prev[k]) == v;
                    assert(seen[k] == prev[k]);
                }
                if is_variable_name(t@) && v == t@ {
                    assert(trim(seen[prev.len() as int]) == v);
                }
            }
            j = j + 1;
        }
        proof {
            assert(views(fields@).take(fields.len() as int) =~= views(fields@));
            assert(ns.take(i + 1).drop_last() =~= ns.take(i as int));
        }
        i = i + 1;
    }
    assert(ns.take(diagram.nodes.len() as int) =~= ns);
    out
}

} // verus!
