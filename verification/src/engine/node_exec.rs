//! What the assignment-like nodes decide: which variable a result goes to, the names a
//! value is also stored under, and how a definition's statements read.
use vstd::prelude::*;

use super::evaluator::Value;
use super::table::{put, Table};
use crate::model::node::Node;
use crate::text::{
    cat, chars_eq, chars_of, find, find_char, lemma_find_facts, slice_of, split, split_chars,
    string_of, to_upper_chars, trim, trim_chars, upper_text, views,
};

verus! {

/// The variables after `v` is stored under `name` and its aliases: for a dotted name, also
/// under the part before the first dot; otherwise also under `name.Text` and `name.Value`.
pub open spec fn aliased<N>(vars: Seq<(Seq<char>, Value<N>)>, name: Seq<char>, v: Value<N>) -> Seq<
    (Seq<char>, Value<N>),
> {
    let a = put(vars, name, v);
    if find(name, '.') >= 0 {
        put(a, name.subrange(0, find(name, '.')), v)
    } else {
        put(put(a, name + ".Text"@, v), name + ".Value"@, v)
    }
}

/// Stores `v` under `name` and its aliases, as `aliased` describes.
pub fn assign_aliased<N: Copy>(vars: &mut Table<Value<N>>, name: &str, v: Value<N>)
    ensures
        final(vars)@ == aliased(old(vars)@, name@, v),
{
    let k = chars_of(name);
    proof {
        lemma_find_facts(k@, '.');
    }
    vars.insert(name, v.clone());
    match find_char(&k, '.') {
        Some(d) => {
            let base = string_of(&slice_of(&k, 0, d));
            vars.insert(base.as_str(), v);
        },
        None => {
            let text_name = cat(name, ".Text");
            let value_name = cat(name, ".Value");
            vars.insert(text_name.as_str(), v.clone());
            vars.insert(value_name.as_str(), v);
        },
    }
}

/// Stores `v` under a non-empty `name` and its aliases; an empty name stores nothing.
pub fn set_var<N: Copy>(vars: &mut Table<Value<N>>, name: &str, v: Value<N>)
    ensures
        final(vars)@ == if name@.len() > 0 {
            aliased(old(vars)@, name@, v)
        } else {
            old(vars)@
        },
{
    if chars_of(name).len() > 0 {
        assign_aliased(vars, name, v);
    }
}

/// Stores `v` under a non-empty `name` only; an empty name stores nothing.
pub fn assign_named<N: Copy>(vars: &mut Table<Value<N>>, name: &str, v: Value<N>)
    ensures
        final(vars)@ == if name@.len() > 0 {
            put(old(vars)@, name@, v)
        } else {
            old(vars)@
        },
{
    if chars_of(name).len() > 0 {
        vars.insert(name, v);
    }
}

/// Stores the value of one statement `name = expression` of a definition: under a
/// non-empty `name` and under `name.Value`.
pub fn define_statement<N: Copy>(vars: &mut Table<Value<N>>, name: &str, v: Value<N>)
    ensures
        final(vars)@ == if name@.len() > 0 {
            put(put(old(vars)@, name@, v), name@ + ".Value"@, v)
        } else {
            old(vars)@
        },
{
    if chars_of(name).len() > 0 {
        vars.insert(name, v.clone());
        let value_name = cat(name, ".Value");
        vars.insert(value_name.as_str(), v);
    }
}

/// The variable an arithmetic or assignment node writes: its result variable, or its first
/// expression when that is empty.
pub fn result_target(node: &Node) -> (r: &String)
    ensures
        r@ == if node.target_var@.len() > 0 {
            node.target_var@
        } else {
            node.expr1@
        },
{
    if chars_of(node.target_var.as_str()).len() > 0 {
        &node.target_var
    } else {
        &node.expr1
    }
}

/// The variable a built-in function node writes: its result variable, or its argument
/// when that is empty.
pub fn call_target(node: &Node) -> (r: &String)
    ensures
        r@ == if node.target_var@.len() > 0 {
            node.target_var@
        } else {
            node.expr2@
        },
{
    if chars_of(node.target_var.as_str()).len() > 0 {
        &node.target_var
    } else {
        &node.expr2
    }
}

/// The statements `name = expression` among comma-separated pieces: each piece is trimmed,
/// those without `=` are skipped, and each is split at its first `=` into a trimmed name
/// and a trimmed expression.
pub open spec fn statements(pieces: Seq<Seq<char>>) -> Seq<(Seq<char>, Seq<char>)>
    decreases pieces.len(),
{
    if pieces.len() == 0 {
        Seq::empty()
    } else {
        let before = statements(pieces.drop_last());
        let stmt = trim(pieces.last());
        let i = find(stmt, '=');
        if i >= 0 {
            before.push((trim(stmt.subrange(0, i)), trim(stmt.subrange(i + 1, stmt.len() as int))))
        } else {
            before
        }
    }
}

/// How a definition node's first expression reads: when its trimmed text holds `=`, a
/// list of statements separated by commas; otherwise a single definition.
pub open spec fn definition_form(expr1: Seq<char>) -> Option<Seq<(Seq<char>, Seq<char>)>> {
    let t = trim(expr1);
    if find(t, '=') >= 0 {
        Some(statements(split(t, ',')))
    } else {
        None
    }
}

/// The text pairs held by a vector of string pairs.
pub open spec fn pair_texts(v: Seq<(String, String)>) -> Seq<(Seq<char>, Seq<char>)> {
    v.map_values(|p: (String, String)| (p.0@, p.1@))
}

/// The statements of a definition node's first expression, or `None` for a single
/// definition, as `definition_form` describes.
pub fn definition_statements(expr1: &str) -> (r: Option<Vec<(String, String)>>)
    ensures
        match r {
            Some(v) => definition_form(expr1@) == Some(pair_texts(v@)),
            None => definition_form(expr1@) is None,
        },
{
    let t = trim_chars(&chars_of(expr1));
    proof {
        lemma_find_facts(t@, '=');
    }
    if find_char(&t, '=').is_none() {
        return None;
    }
    let pieces = split_chars(&t, ',');
    let mut out: Vec<(String, String)> = Vec::new();
    let mut i: usize = 0;
    while i < pieces.len()
        invariant
            i <= pieces.len(),
            pair_texts(out@) == statements(views(pieces@).take(i as int)),
        decreases pieces.len() - i,
    {
        let stmt = trim_chars(&pieces[i]);
        proof {
            assert(views(pieces@).take(i + 1).drop_last() =~= views(pieces@).take(i as int));
            lemma_find_facts(stmt@, '=');
        }
        match find_char(&stmt, '=') {
            Some(e) => {
                let name = trim_chars(&slice_of(&stmt, 0, e));
                let expr = trim_chars(&slice_of(&stmt, e + 1, stmt.len()));
                let ghost before = pair_texts(out@);
                out.push((string_of(&name), string_of(&expr)));
                assert(pair_texts(out@) =~= before.push((name@, expr@)));
            },
            None => {},
        }
        i = i + 1;
    }
    assert(views(pieces@).take(pieces.len() as int) =~= views(pieces@));
    Some(out)
}

/// The value a single definition stores: the second expression's value unless it is nil,
/// else the first expression's value unless it is nil, else nil.
pub fn pick_defined<N>(second: Value<N>, first: Value<N>) -> (r: Value<N>)
    ensures
        r == if !(second is Nil) {
            second
        } else if !(first is Nil) {
            first
        } else {
            Value::Nil
        },
{
    if !second.is_nil() {
        second
    } else if !first.is_nil() {
        first
    } else {
        Value::Nil
    }
}

/// What an action node does, by its label.
#[derive(Clone, Copy, PartialEq, Eq, Debug, Structural)]
pub enum ActionKind {
    /// Joins the texts of both expressions.
    Join,
    /// Compares both expressions for equality.
    Compare,
    /// Assigns the second expression's value.
    Assign,
}

/// The action an upper-cased label names.
pub open spec fn action_of_upper(u: Seq<char>) -> ActionKind {
    if u == "JOIN"@ {
        ActionKind::Join
    } else if u == "COMP"@ {
        ActionKind::Compare
    } else {
        ActionKind::Assign
    }
}

impl ActionKind {
    /// The action a label names: its trimmed text, upper-cased, is `JOIN` or `COMP`;
    /// anything else assigns.
    pub fn of_label(label: &str) -> (r: ActionKind)
        ensures
            r == action_of_upper(upper_text(trim(label@))),
    {
        let u = to_upper_chars(&trim_chars(&chars_of(label)));
        if chars_eq(&u, &chars_of("JOIN")) {
            ActionKind::Join
        } else if chars_eq(&u, &chars_of("COMP")) {
            ActionKind::Compare
        } else {
            ActionKind::Assign
        }
    }
}

/// What an output node writes.
pub enum OutputForm {
    /// Its first expression as a label, followed by the value of its second.
    Labelled { label: String, expr: String },
    /// The value of one expression.
    Value(String),
    /// Nothing.
    Empty,
}

/// What an output node writes: with both expressions, the first as a label before the
/// value of the second; with one, that one's value; with none, nothing.
pub fn output_form(node: &Node) -> (r: OutputForm)
    ensures
        match r {
            OutputForm::Labelled { label, expr } => node.expr1@.len() > 0 && node.expr2@.len() > 0
                && label@ == node.expr1@ && expr@ == node.expr2@,
            OutputForm::Value(e) => (node.expr1@.len() > 0 && node.expr2@.len() == 0 && e@ == node.expr1@)
                || (node.expr1@.len() == 0 && node.expr2@.len() > 0 && e@ == node.expr2@),
            OutputForm::Empty => node.expr1@.len() == 0 && node.expr2@.len() == 0,
        },
{
    let has1 = chars_of(node.expr1.as_str()).len() > 0;
    let has2 = chars_of(node.expr2.as_str()).len() > 0;
    if has1 && has2 {
        OutputForm::Labelled { label: node.expr1.clone(), expr: node.expr2.clone() }
    } else if has1 {
        OutputForm::Value(node.expr1.clone())
    } else if has2 {
        OutputForm::Value(node.expr2.clone())
    } else {
        OutputForm::Empty
    }
}

/// The files a function node's sub-diagram is looked for in, in order: the function's
/// name with `.fpp` appended, then the same in the directory `example`.
pub fn subdiagram_files(function_name: &str) -> (r: (String, String))
    ensures
        r.0@ == function_name@ + ".fpp"@,
        r.1@ == "example/"@ + function_name@ + ".fpp"@,
{
    let here = cat(function_name, ".fpp");
    let there = cat("example/", here.as_str());
    (here, there)
}

} // verus!
