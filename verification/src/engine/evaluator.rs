//! Values of a running program, and how the text of an expression is read: which literal,
//! operator, function call or name it is.
use vstd::prelude::*;

use super::table::{resolve_name, Table};
use crate::model::node::NodeType;

use crate::text::{
    ascii_lower, ascii_lower_chars, chars_eq, chars_of, eq_ignore_case, eq_ignore_case_chars, find, find_char,
    is_float_literal, is_float_literal_chars, lemma_find_facts, lemma_trim_len, lower_text, owned,
    slice_of, string_of, to_lower_chars, to_upper_chars, trim, trim_chars, upper_text,
};

verus! {

/// A value of a running program. Numbers are of the type `N` that the interpreter computes
/// with; the library only stores and moves them.
#[derive(Debug, PartialEq)]
pub enum Value<N> {
    Number(N),
    String(String),
    Bool(bool),
    Nil,
}

impl<N: Copy> Clone for Value<N> {
    fn clone(&self) -> (r: Self)
        ensures
            r == *self,
    {
        match self {
            Value::Number(n) => Value::Number(*n),
            Value::String(s) => Value::String(s.clone()),
            Value::Bool(b) => Value::Bool(*b),
            Value::Nil => Value::Nil,
        }
    }
}

impl<N> Value<N> {
    pub fn is_nil(&self) -> (r: bool)
        ensures
            r == (*self is Nil),
    {
        match self {
            Value::Nil => true,
            _ => false,
        }
    }
}

/// How the text of an expression reads.
pub enum Expr {
    /// Empty text.
    Nil,
    /// A literal in double or single quotes; the text between them.
    Text(String),
    /// A number literal; its text.
    Number(String),
    /// `true` or `false` in any ASCII case.
    Bool(bool),
    Add(Box<Expr>, Box<Expr>),
    Sub(Box<Expr>, Box<Expr>),
    Mul(Box<Expr>, Box<Expr>),
    Div(Box<Expr>, Box<Expr>),
    /// A call of a one-argument function: its name as written, and its argument.
    Call(String, Box<Expr>),
    /// Anything else: a variable's name, or else literal text.
    Name(String),
}

/// How the text of an expression reads, in characters.
pub enum ExprView {
    Nil,
    Text(Seq<char>),
    Number(Seq<char>),
    Bool(bool),
    Add(Box<ExprView>, Box<ExprView>),
    Sub(Box<ExprView>, Box<ExprView>),
    Mul(Box<ExprView>, Box<ExprView>),
    Div(Box<ExprView>, Box<ExprView>),
    Call(Seq<char>, Box<ExprView>),
    Name(Seq<char>),
}

/// The reading `e` stands for, in characters.
pub open spec fn expr_view(e: Expr) -> ExprView
    decreases e,
{
    match e {
        Expr::Nil => ExprView::Nil,
        Expr::Text(s) => ExprView::Text(s@),
        Expr::Number(s) => ExprView::Number(s@),
        Expr::Bool(b) => ExprView::Bool(b),
        Expr::Add(a, b) => ExprView::Add(Box::new(expr_view(*a)), Box::new(expr_view(*b))),
        Expr::Sub(a, b) => ExprView::Sub(Box::new(expr_view(*a)), Box::new(expr_view(*b))),
        Expr::Mul(a, b) => ExprView::Mul(Box::new(expr_view(*a)), Box::new(expr_view(*b))),
        Expr::Div(a, b) => ExprView::Div(Box::new(expr_view(*a)), Box::new(expr_view(*b))),
        Expr::Call(f, a) => ExprView::Call(f@, Box::new(expr_view(*a))),
        Expr::Name(s) => ExprView::Name(s@),
    }
}

/// Whether `t` is in double quotes or in single quotes.
pub open spec fn is_quoted(t: Seq<char>) -> bool {
    t.len() >= 2 && ((t[0] == '"' && t.last() == '"') || (t[0] == '\'' && t.last() == '\''))
}

/// The functions that an expression may call by name, in lower case.
pub open spec fn is_inline_function(l: Seq<char>) -> bool {
    ||| l == "cos"@
    ||| l == "sin"@
    ||| l == "tan"@
    ||| l == "asin"@
    ||| l == "acos"@
    ||| l == "atan"@
    ||| l == "abs"@
    ||| l == "sqrt"@
    ||| l == "fix"@
    ||| l == "int"@
    ||| l == "exp"@
    ||| l == "log"@
    ||| l == "ln"@
    ||| l == "len"@
}

/// Whether `name`, lower-cased, is one of the functions an expression may call. A name whose
/// ASCII lower case is one of them is one in any case, since Unicode lower-casing of such a
/// name gives the same text.
pub open spec fn names_inline_function(name: Seq<char>) -> bool {
    is_inline_function(ascii_lower(name)) || is_inline_function(lower_text(name))
}

/// How the text `s` reads once trimmed, tried in this order: empty; quoted literal; number
/// literal; `true`/`false`; a sum split at the first `+`; a difference split at the first
/// `-` unless the text starts with one; a product split at the first `*`; a quotient split
/// at the first `/`; a call `name(argument)` of one of the inline functions; otherwise a name.
pub open spec fn expr_of(s: Seq<char>) -> ExprView
    decreases s.len(),
{
    let t = trim(s);
    proof {
        lemma_trim_len(s);
        lemma_find_facts(t, '+');
        lemma_find_facts(t, '-');
        lemma_find_facts(t, '*');
        lemma_find_facts(t, '/');
        lemma_find_facts(t, '(');
    }
    if t.len() == 0 {
        ExprView::Nil
    } else if is_quoted(t) {
        ExprView::Text(t.subrange(1, t.len() - 1))
    } else if is_float_literal(t) {
        ExprView::Number(t)
    } else if eq_ignore_case(t, "true"@) {
        ExprView::Bool(true)
    } else if eq_ignore_case(t, "false"@) {
        ExprView::Bool(false)
    } else if find(t, '+') >= 0 {
        let i = find(t, '+');
        ExprView::Add(
            Box::new(expr_of(t.subrange(0, i))),
            Box::new(expr_of(t.subrange(i + 1, t.len() as int))),
        )
    } else if find(t, '-') >= 0 && t[0] != '-' {
        let i = find(t, '-');
        ExprView::Sub(
            Box::new(expr_of(t.subrange(0, i))),
            Box::new(expr_of(t.subrange(i + 1, t.len() as int))),
        )
    } else if find(t, '*') >= 0 {
        let i = find(t, '*');
        ExprView::Mul(
            Box::new(expr_of(t.subrange(0, i))),
            Box::new(expr_of(t.subrange(i + 1, t.len() as int))),
        )
    } else if find(t, '/') >= 0 {
        let i = find(t, '/');
        ExprView::Div(
            Box::new(expr_of(t.subrange(0, i))),
            Box::new(expr_of(t.subrange(i + 1, t.len() as int))),
        )
    } else if find(t, '(') >= 0 && t.last() == ')' && names_inline_function(
        trim(t.subrange(0, find(t, '('))),
    ) {
        let p = find(t, '(');
        proof {
            lemma_trim_len(t.subrange(p + 1, t.len() - 1));
        }
        ExprView::Call(
            trim(t.subrange(0, p)),
            Box::new(expr_of(trim(t.subrange(p + 1, t.len() - 1)))),
        )
    } else {
        ExprView::Name(t)
    }
}

pub(crate) fn is_quoted_chars(t: &Vec<char>) -> (r: bool)
    ensures
        r == is_quoted(t@),
{
    t.len() >= 2 && ((t[0] == '"' && t[t.len() - 1] == '"') || (t[0] == '\'' && t[t.len() - 1]
        == '\''))
}

fn is_inline_function_chars(l: &Vec<char>) -> (r: bool)
    ensures
        r == is_inline_function(l@),
{
    chars_eq(l, &chars_of("cos")) || chars_eq(l, &chars_of("sin")) || chars_eq(l, &chars_of("tan"))
        || chars_eq(l, &chars_of("asin")) || chars_eq(l, &chars_of("acos")) || chars_eq(
        l,
        &chars_of("atan"),
    ) || chars_eq(l, &chars_of("abs")) || chars_eq(l, &chars_of("sqrt")) || chars_eq(
        l,
        &chars_of("fix"),
    ) || chars_eq(l, &chars_of("int")) || chars_eq(l, &chars_of("exp")) || chars_eq(
        l,
        &chars_of("log"),
    ) || chars_eq(l, &chars_of("ln")) || chars_eq(l, &chars_of("len"))
}

fn binary(t: &Vec<char>, i: usize) -> (r: (Box<Expr>, Box<Expr>))
    requires
        i < t.len(),
    ensures
        expr_view(*r.0) == expr_of(t@.subrange(0, i as int)),
        expr_view(*r.1) == expr_of(t@.subrange(i + 1, t@.len() as int)),
    decreases t.len(), 0nat,
{
    let l = parse_chars(&slice_of(t, 0, i));
    let r = parse_chars(&slice_of(t, i + 1, t.len()));
    (Box::new(l), Box::new(r))
}

fn parse_chars(s: &Vec<char>) -> (r: Expr)
    ensures
        expr_view(r) == expr_of(s@),
    decreases s.len(), 1nat,
{
    let t = trim_chars(s);
    proof {
        lemma_trim_len(s@);
        lemma_find_facts(t@, '+');
        lemma_find_facts(t@, '-');
        lemma_find_facts(t@, '*');
        lemma_find_facts(t@, '/');
        lemma_find_facts(t@, '(');
    }
    if t.len() == 0 {
        return Expr::Nil;
    }
    if is_quoted_chars(&t) {
        return Expr::Text(string_of(&slice_of(&t, 1, t.len() - 1)));
    }
    if is_float_literal_chars(&t) {
        return Expr::Number(string_of(&t));
    }
    if eq_ignore_case_chars(&t, &chars_of("true")) {
        return Expr::Bool(true);
    }
    if eq_ignore_case_chars(&t, &chars_of("false")) {
        return Expr::Bool(false);
    }
    match find_char(&t, '+') {
        Some(i) => {
            let (a, b) = binary(&t, i);
            return Expr::Add(a, b);
        },
        None => {},
    }
    match find_char(&t, '-') {
        Some(i) => {
            if t[0] != '-' {
                let (a, b) = binary(&t, i);
                return Expr::Sub(a, b);
            }
        },
        None => {},
    }
    match find_char(&t, '*') {
        Some(i) => {
            let (a, b) = binary(&t, i);
            return Expr::Mul(a, b);
        },
        None => {},
    }
    match find_char(&t, '/') {
        Some(i) => {
            let (a, b) = binary(&t, i);
            return Expr::Div(a, b);
        },
        None => {},
    }
    match find_char(&t, '(') {
        Some(p) => {
            if t[t.len() - 1] == ')' {
                let name = trim_chars(&slice_of(&t, 0, p));
                if is_inline_function_chars(&ascii_lower_chars(&name)) || is_inline_function_chars(
                    &to_lower_chars(&name),
                ) {
                    let inner = trim_chars(&slice_of(&t, p + 1, t.len() - 1));
                    proof {
                        lemma_trim_len(t@.subrange(p + 1, t.len() - 1));
                    }
                    let arg = parse_chars(&inner);
                    return Expr::Call(string_of(&name), Box::new(arg));
                }
            }
        },
        None => {},
    }
    Expr::Name(string_of(&t))
}

/// The kinds of comparison a condition makes.
#[derive(Clone, Copy, PartialEq, Eq, Debug, Structural)]
pub enum Comparison {
    Equal,
    Greater,
    GreaterEqual,
    Less,
    LessEqual,
}

/// The comparison that an upper-cased operator names; equality when it names none.
pub open spec fn comparison_of_upper(u: Seq<char>) -> Comparison {
    if u == ">"@ || u == "IF_GREATER"@ || u == "GREATER"@ {
        Comparison::Greater
    } else if u == ">="@ || u == "IF_GREATER_EQUAL"@ {
        Comparison::GreaterEqual
    } else if u == "<"@ || u == "IF_LESS"@ || u == "LESS"@ {
        Comparison::Less
    } else if u == "<="@ || u == "IF_LESS_EQUAL"@ {
        Comparison::LessEqual
    } else {
        Comparison::Equal
    }
}

/// Whether `t` is already written as one of the upper-case comparison names or symbols,
/// which upper-casing leaves as they are.
pub open spec fn is_comparison_name(t: Seq<char>) -> bool {
    ||| t == ">"@
    ||| t == "IF_GREATER"@
    ||| t == "GREATER"@
    ||| t == ">="@
    ||| t == "IF_GREATER_EQUAL"@
    ||| t == "<"@
    ||| t == "IF_LESS"@
    ||| t == "LESS"@
    ||| t == "<="@
    ||| t == "IF_LESS_EQUAL"@
    ||| t == "IF_EQUAL"@
}

/// The comparison an operator names: its trimmed text, upper-cased, matched against the
/// symbols and names of the comparisons. A text already written as one of them is matched
/// as it is, since upper-casing leaves it unchanged.
pub open spec fn comparison_named(op: Seq<char>) -> Comparison {
    let t = trim(op);
    if is_comparison_name(t) {
        comparison_of_upper(t)
    } else {
        comparison_of_upper(upper_text(t))
    }
}

/// The functions that an expression or a function node can apply to one value.
#[derive(Clone, Copy, PartialEq, Eq, Debug, Structural)]
pub enum MathFunction {
    Cos,
    Sin,
    Tan,
    Asin,
    Acos,
    Atan,
    Exp,
    Ln,
    Floor,
    Abs,
    Sqrt,
    Length,
    Clear,
    Factorial,
    /// An unknown name: the argument's value is returned as it is.
    Identity,
}

/// The function that a lower-cased name names.
pub open spec fn function_of_lower(l: Seq<char>) -> MathFunction {
    if l == "cos"@ {
        MathFunction::Cos
    } else if l == "sin"@ {
        MathFunction::Sin
    } else if l == "tan"@ {
        MathFunction::Tan
    } else if l == "asin"@ {
        MathFunction::Asin
    } else if l == "acos"@ {
        MathFunction::Acos
    } else if l == "atan"@ {
        MathFunction::Atan
    } else if l == "exp"@ {
        MathFunction::Exp
    } else if l == "log"@ || l == "ln"@ {
        MathFunction::Ln
    } else if l == "fix"@ || l == "int"@ {
        MathFunction::Floor
    } else if l == "abs"@ {
        MathFunction::Abs
    } else if l == "sqrt"@ {
        MathFunction::Sqrt
    } else if l == "len"@ || l == "length"@ {
        MathFunction::Length
    } else if l == "clear"@ {
        MathFunction::Clear
    } else if l == "f"@ || l == "fact"@ || l == "factorial"@ {
        MathFunction::Factorial
    } else {
        MathFunction::Identity
    }
}

/// The function a name names: its trimmed text, lower-cased, matched against the function
/// names. A name whose ASCII lower case is already one of them is matched by it, since
/// Unicode lower-casing of such a name gives the same text.
pub open spec fn function_named(name: Seq<char>) -> MathFunction {
    let t = trim(name);
    if function_of_lower(ascii_lower(t)) != MathFunction::Identity {
        function_of_lower(ascii_lower(t))
    } else {
        function_of_lower(lower_text(t))
    }
}

/// The names, in lower case, that a function node computes itself rather than calling a
/// sub-diagram.
pub open spec fn is_builtin_lower(l: Seq<char>) -> bool {
    ||| l == "fix"@
    ||| l == "int"@
    ||| l == "abs"@
    ||| l == "sqrt"@
    ||| l == "clear"@
    ||| l == "f"@
    ||| l == "fact"@
    ||| l == "factorial"@
}

/// Whether a function node computes the function named `name` itself: the name,
/// lower-cased, is one of the built-in ones. A name whose ASCII lower case is a built-in
/// name is one in any case, since Unicode lower-casing of such a name gives the same text.
pub open spec fn is_builtin_name(name: Seq<char>) -> bool {
    is_builtin_lower(ascii_lower(name)) || is_builtin_lower(lower_text(name))
}

fn is_comparison_name_chars(t: &Vec<char>) -> (r: bool)
    ensures
        r == is_comparison_name(t@),
{
    chars_eq(t, &chars_of(">")) || chars_eq(t, &chars_of("IF_GREATER")) || chars_eq(t, &chars_of("GREATER"))
        || chars_eq(t, &chars_of(">=")) || chars_eq(t, &chars_of("IF_GREATER_EQUAL")) || chars_eq(
        t,
        &chars_of("<"),
    ) || chars_eq(t, &chars_of("IF_LESS")) || chars_eq(t, &chars_of("LESS")) || chars_eq(
        t,
        &chars_of("<="),
    ) || chars_eq(t, &chars_of("IF_LESS_EQUAL")) || chars_eq(t, &chars_of("IF_EQUAL"))
}

fn is_builtin_lower_chars(l: &Vec<char>) -> (r: bool)
    ensures
        r == is_builtin_lower(l@),
{
    chars_eq(l, &chars_of("fix")) || chars_eq(l, &chars_of("int")) || chars_eq(l, &chars_of("abs"))
        || chars_eq(l, &chars_of("sqrt")) || chars_eq(l, &chars_of("clear")) || chars_eq(
        l,
        &chars_of("f"),
    ) || chars_eq(l, &chars_of("fact")) || chars_eq(l, &chars_of("factorial"))
}

/// Reads the text of expressions.
pub struct Evaluator;

impl Evaluator {
    /// How the text of an expression reads, as `expr_of` describes.
    pub fn parse_expr(expr: &str) -> (r: Expr)
        ensures
            expr_view(r) == expr_of(expr@),
    {
        parse_chars(&chars_of(expr))
    }

    /// The value a name in an expression stands for: what it refers to among `vars`, as
    /// `resolve_name` describes, or else the name itself as text.
    pub fn name_value<N: Copy>(name: &str, vars: &Table<Value<N>>) -> (r: Value<N>)
        ensures
            match resolve_name(vars@, name@) {
                Some(v) => r == v,
                None => r matches Value::String(s) && s@ == name@,
            },
    {
        match vars.resolve(name) {
            Some(v) => v.clone(),
            None => Value::String(owned(name)),
        }
    }

    /// The comparison an operator names, as `comparison_named` describes.
    pub fn comparison_of(op: &str) -> (r: Comparison)
        ensures
            r == comparison_named(op@),
    {
        let t = trim_chars(&chars_of(op));
        let u = if is_comparison_name_chars(&t) {
            t
        } else {
            to_upper_chars(&t)
        };
        if chars_eq(&u, &chars_of(">")) || chars_eq(&u, &chars_of("IF_GREATER")) || chars_eq(
            &u,
            &chars_of("GREATER"),
        ) {
            Comparison::Greater
        } else if chars_eq(&u, &chars_of(">=")) || chars_eq(&u, &chars_of("IF_GREATER_EQUAL")) {
            Comparison::GreaterEqual
        } else if chars_eq(&u, &chars_of("<")) || chars_eq(&u, &chars_of("IF_LESS")) || chars_eq(
            &u,
            &chars_of("LESS"),
        ) {
            Comparison::Less
        } else if chars_eq(&u, &chars_of("<=")) || chars_eq(&u, &chars_of("IF_LESS_EQUAL")) {
            Comparison::LessEqual
        } else {
            Comparison::Equal
        }
    }

    /// The function a name names, as `function_named` describes.
    pub fn function_of(name: &str) -> (r: MathFunction)
        ensures
            r == function_named(name@),
    {
        let t = trim_chars(&chars_of(name));
        let a = Self::function_of_lower_chars(&ascii_lower_chars(&t));
        if a != MathFunction::Identity {
            return a;
        }
        Self::function_of_lower_chars(&to_lower_chars(&t))
    }

    fn function_of_lower_chars(l: &Vec<char>) -> (r: MathFunction)
        ensures
            r == function_of_lower(l@),
    {
        if chars_eq(l, &chars_of("cos")) {
            MathFunction::Cos
        } else if chars_eq(l, &chars_of("sin")) {
            MathFunction::Sin
        } else if chars_eq(l, &chars_of("tan")) {
            MathFunction::Tan
        } else if chars_eq(l, &chars_of("asin")) {
            MathFunction::Asin
        } else if chars_eq(l, &chars_of("acos")) {
            MathFunction::Acos
        } else if chars_eq(l, &chars_of("atan")) {
            MathFunction::Atan
        } else if chars_eq(l, &chars_of("exp")) {
            MathFunction::Exp
        } else if chars_eq(l, &chars_of("log")) || chars_eq(l, &chars_of("ln")) {
            MathFunction::Ln
        } else if chars_eq(l, &chars_of("fix")) || chars_eq(l, &chars_of("int")) {
            MathFunction::Floor
        } else if chars_eq(l, &chars_of("abs")) {
            MathFunction::Abs
        } else if chars_eq(l, &chars_of("sqrt")) {
            MathFunction::Sqrt
        } else if chars_eq(l, &chars_of("len")) || chars_eq(l, &chars_of("length")) {
            MathFunction::Length
        } else if chars_eq(l, &chars_of("clear")) {
            MathFunction::Clear
        } else if chars_eq(l, &chars_of("f")) || chars_eq(l, &chars_of("fact")) || chars_eq(
            l,
            &chars_of("factorial"),
        ) {
            MathFunction::Factorial
        } else {
            MathFunction::Identity
        }
    }

    /// Whether a function node computes the function named `name` itself, as
    /// `is_builtin_name` describes.
    pub fn is_builtin_function(name: &str) -> (r: bool)
        ensures
            r == is_builtin_name(name@),
    {
        let v = chars_of(name);
        if is_builtin_lower_chars(&ascii_lower_chars(&v)) {
            true
        } else {
            is_builtin_lower_chars(&to_lower_chars(&v))
        }
    }
}

/// An expression that reads as a sum, difference, product or quotient is split at the first
/// occurrence of its operator in the trimmed text: the left operand is the reading of the
/// text before it, the right operand the reading of the text after it.
pub proof fn law_operands_split_at_first_operator(s: Seq<char>, i: int)
    requires
        0 <= i < trim(s).len(),
        forall|j: int| 0 <= j < i ==> trim(s)[j] != trim(s)[i],
    ensures
        ({
            let t = trim(s);
            let left = Box::new(expr_of(t.subrange(0, i)));
            let right = Box::new(expr_of(t.subrange(i + 1, t.len() as int)));
            &&& (t[i] == '+' && expr_of(s) is Add) ==> expr_of(s) == ExprView::Add(left, right)
            &&& (t[i] == '-' && expr_of(s) is Sub) ==> expr_of(s) == ExprView::Sub(left, right)
            &&& (t[i] == '*' && expr_of(s) is Mul) ==> expr_of(s) == ExprView::Mul(left, right)
            &&& (t[i] == '/' && expr_of(s) is Div) ==> expr_of(s) == ExprView::Div(left, right)
        }),
{
    let t = trim(s);
    lemma_find_facts(t, t[i]);
    let f = find(t, t[i]);
    assert(f >= 0);
    if f < i {
        assert(t[f] == t[i]);
    }
    if f > i {
        assert(t[i] != t[i]);
    }
    assert(f == i);
}

/// The comparison named by the code name of each condition kind is that kind's comparison:
/// a greater-than node tests `>`, a greater-or-equal node `>=`, a less-than node `<`, a
/// less-or-equal node `<=`, and an equality node `=`.
pub proof fn law_condition_kinds_name_their_comparison()
    ensures
        comparison_named(NodeType::IfGreater.code_text()) == Comparison::Greater,
        comparison_named(NodeType::IfGreaterEqual.code_text()) == Comparison::GreaterEqual,
        comparison_named(NodeType::IfLess.code_text()) == Comparison::Less,
        comparison_named(NodeType::IfLessEqual.code_text()) == Comparison::LessEqual,
        comparison_named(NodeType::IfEqual.code_text()) == Comparison::Equal,
{
    reveal_strlit(">");
    reveal_strlit("GREATER");
    reveal_strlit(">=");
    reveal_strlit("<");
    reveal_strlit("LESS");
    reveal_strlit("<=");
    reveal_strlit("IF_GREATER");
    reveal_strlit("IF_GREATER_EQUAL");
    reveal_strlit("IF_LESS");
    reveal_strlit("IF_LESS_EQUAL");
    reveal_strlit("IF_EQUAL");
    crate::text::lemma_trim_fixed("IF_GREATER"@);
    crate::text::lemma_trim_fixed("IF_GREATER_EQUAL"@);
    crate::text::lemma_trim_fixed("IF_LESS"@);
    crate::text::lemma_trim_fixed("IF_LESS_EQUAL"@);
    crate::text::lemma_trim_fixed("IF_EQUAL"@);
}

/// Each of the names `fix`, `int`, `abs`, `sqrt`, `clear`, `f`, `fact` and `factorial`,
/// written in any ASCII case, is computed by a function node itself.
pub proof fn law_builtin_names_in_any_ascii_case(name: Seq<char>)
    requires
        ascii_lower(name) == "fix"@ || ascii_lower(name) == "int"@ || ascii_lower(name) == "abs"@
            || ascii_lower(name) == "sqrt"@ || ascii_lower(name) == "clear"@ || ascii_lower(name)
            == "f"@ || ascii_lower(name) == "fact"@ || ascii_lower(name) == "factorial"@,
    ensures
        is_builtin_name(name),
{
}

/// Each function name, written in any ASCII case and with any surrounding whitespace, names
/// its function: `fix` and `int` the floor, `abs` the absolute value, `sqrt` the square
/// root, `clear` the clearing of a value, `f`, `fact` and `factorial` the factorial, `cos`,
/// `sin`, `tan`, `asin`, `acos`, `atan`, `exp` theirs, `log` and `ln` the natural logarithm,
/// and `len` and `length` the length.
proof fn lemma_function_names()
    ensures
        function_of_lower("cos"@) == MathFunction::Cos,
        function_of_lower("sin"@) == MathFunction::Sin,
        function_of_lower("tan"@) == MathFunction::Tan,
        function_of_lower("asin"@) == MathFunction::Asin,
        function_of_lower("acos"@) == MathFunction::Acos,
        function_of_lower("atan"@) == MathFunction::Atan,
        function_of_lower("exp"@) == MathFunction::Exp,
        function_of_lower("log"@) == MathFunction::Ln,
        function_of_lower("ln"@) == MathFunction::Ln,
        function_of_lower("fix"@) == MathFunction::Floor,
        function_of_lower("int"@) == MathFunction::Floor,
        function_of_lower("abs"@) == MathFunction::Abs,
        function_of_lower("sqrt"@) == MathFunction::Sqrt,
        function_of_lower("len"@) == MathFunction::Length,
        function_of_lower("length"@) == MathFunction::Length,
        function_of_lower("clear"@) == MathFunction::Clear,
        function_of_lower("f"@) == MathFunction::Factorial,
        function_of_lower("fact"@) == MathFunction::Factorial,
        function_of_lower("factorial"@) == MathFunction::Factorial,
{
    reveal_strlit("cos");
    reveal_strlit("sin");
    reveal_strlit("tan");
    reveal_strlit("asin");
    reveal_strlit("acos");
    reveal_strlit("atan");
    reveal_strlit("exp");
    reveal_strlit("log");
    reveal_strlit("ln");
    reveal_strlit("fix");
    reveal_strlit("int");
    reveal_strlit("abs");
    reveal_strlit("sqrt");
    reveal_strlit("len");
    reveal_strlit("length");
    reveal_strlit("clear");
    reveal_strlit("f");
    reveal_strlit("fact");
    reveal_strlit("factorial");
    assert("sin"@[0] != "cos"@[0]);
    assert("tan"@[0] != "cos"@[0]);
    assert("tan"@[0] != "sin"@[0]);
    assert("asin"@.len() != "cos"@.len());
    assert("asin"@.len() != "sin"@.len());
    assert("asin"@.len() != "tan"@.len());
    assert("acos"@.len() != "cos"@.len());
    assert("acos"@.len() != "sin"@.len());
    assert("acos"@.len() != "tan"@.len());
    assert("acos"@[1] != "asin"@[1]);
    assert("atan"@.len() != "cos"@.len());
    assert("atan"@.len() != "sin"@.len());
    assert("atan"@.len() != "tan"@.len());
    assert("atan"@[1] != "asin"@[1]);
    assert("atan"@[1] != "acos"@[1]);
    assert("exp"@[0] != "cos"@[0]);
    assert("exp"@[0] != "sin"@[0]);
    assert("exp"@[0] != "tan"@[0]);
    assert("exp"@.len() != "asin"@.len());
    assert("exp"@.len() != "acos"@.len());
    assert("exp"@.len() != "atan"@.len());
    assert("log"@[0] != "cos"@[0]);
    assert("log"@[0] != "sin"@[0]);
    assert("log"@[0] != "tan"@[0]);
    assert("log"@.len() != "asin"@.len());
    assert("log"@.len() != "acos"@.len());
    assert("log"@.len() != "atan"@.len());
    assert("log"@[0] != "exp"@[0]);
    assert("ln"@.len() != "cos"@.len());
    assert("ln"@.len() != "sin"@.len());
    assert("ln"@.len() != "tan"@.len());
    assert("ln"@.len() != "asin"@.len());
    assert("ln"@.len() != "acos"@.len());
    assert("ln"@.len() != "atan"@.len());
    assert("ln"@.len() != "exp"@.len());
    assert("ln"@.len() != "log"@.len());
    assert("fix"@[0] != "cos"@[0]);
    assert("fix"@[0] != "sin"@[0]);
    assert("fix"@[0] != "tan"@[0]);
    assert("fix"@.len() != "asin"@.len());
    assert("fix"@.len() != "acos"@.len());
    assert("fix"@.len() != "atan"@.len());
    assert("fix"@[0] != "exp"@[0]);
    assert("fix"@[0] != "log"@[0]);
    assert("fix"@.len() != "ln"@.len());
    assert("int"@[0] != "cos"@[0]);
    assert("int"@[0] != "sin"@[0]);
    assert("int"@[0] != "tan"@[0]);
    assert("int"@.len() != "asin"@.len());
    assert("int"@.len() != "acos"@.len());
    assert("int"@.len() != "atan"@.len());
    assert("int"@[0] != "exp"@[0]);
    assert("int"@[0] != "log"@[0]);
    assert("int"@.len() != "ln"@.len());
    assert("int"@[0] != "fix"@[0]);
    assert("abs"@[0] != "cos"@[0]);
    assert("abs"@[0] != "sin"@[0]);
    assert("abs"@[0] != "tan"@[0]);
    assert("abs"@.len() != "asin"@.len());
    assert("abs"@.len() != "acos"@.len());
    assert("abs"@.len() != "atan"@.len());
    assert("abs"@[0] != "exp"@[0]);
    assert("abs"@[0] != "log"@[0]);
    assert("abs"@.len() != "ln"@.len());
    assert("abs"@[0] != "fix"@[0]);
    assert("abs"@[0] != "int"@[0]);
    assert("sqrt"@.len() != "cos"@.len());
    assert("sqrt"@.len() != "sin"@.len());
    assert("sqrt"@.len() != "tan"@.len());
    assert("sqrt"@[0] != "asin"@[0]);
    assert("sqrt"@[0] != "acos"@[0]);
    assert("sqrt"@[0] != "atan"@[0]);
    assert("sqrt"@.len() != "exp"@.len());
    assert("sqrt"@.len() != "log"@.len());
    assert("sqrt"@.len() != "ln"@.len());
    assert("sqrt"@.len() != "fix"@.len());
    assert("sqrt"@.len() != "int"@.len());
    assert("sqrt"@.len() != "abs"@.len());
    assert("len"@[0] != "cos"@[0]);
    assert("len"@[0] != "sin"@[0]);
    assert("len"@[0] != "tan"@[0]);
    assert("len"@.len() != "asin"@.len());
    assert("len"@.len() != "acos"@.len());
    assert("len"@.len() != "atan"@.len());
    assert("len"@[0] != "exp"@[0]);
    assert("len"@[1] != "log"@[1]);
    assert("len"@.len() != "ln"@.len());
    assert("len"@[0] != "fix"@[0]);
    assert("len"@[0] != "int"@[0]);
    assert("len"@[0] != "abs"@[0]);
    assert("len"@.len() != "sqrt"@.len());
    assert("length"@.len() != "cos"@.len());
    assert("length"@.len() != "sin"@.len());
    assert("length"@.len() != "tan"@.len());
    assert("length"@.len() != "asin"@.len());
    assert("length"@.len() != "acos"@.len());
    assert("length"@.len() != "atan"@.len());
    assert("length"@.len() != "exp"@.len());
    assert("length"@.len() != "log"@.len());
    assert("length"@.len() != "ln"@.len());
    assert("length"@.len() != "fix"@.len());
    assert("length"@.len() != "int"@.len());
    assert("length"@.len() != "abs"@.len());
    assert("length"@.len() != "sqrt"@.len());
    assert("length"@.len() != "len"@.len());
    assert("clear"@.len() != "cos"@.len());
    assert("clear"@.len() != "sin"@.len());
    assert("clear"@.len() != "tan"@.len());
    assert("clear"@.len() != "asin"@.len());
    assert("clear"@.len() != "acos"@.len());
    assert("clear"@.len() != "atan"@.len());
    assert("clear"@.len() != "exp"@.len());
    assert("clear"@.len() != "log"@.len());
    assert("clear"@.len() != "ln"@.len());
    assert("clear"@.len() != "fix"@.len());
    assert("clear"@.len() != "int"@.len());
    assert("clear"@.len() != "abs"@.len());
    assert("clear"@.len() != "sqrt"@.len());
    assert("clear"@.len() != "len"@.len());
    assert("clear"@.len() != "length"@.len());
    assert("f"@.len() != "cos"@.len());
    assert("f"@.len() != "sin"@.len());
    assert("f"@.len() != "tan"@.len());
    assert("f"@.len() != "asin"@.len());
    assert("f"@.len() != "acos"@.len());
    assert("f"@.len() != "atan"@.len());
    assert("f"@.len() != "exp"@.len());
    assert("f"@.len() != "log"@.len());
    assert("f"@.len() != "ln"@.len());
    assert("f"@.len() != "fix"@.len());
    assert("f"@.len() != "int"@.len());
    assert("f"@.len() != "abs"@.len());
    assert("f"@.len() != "sqrt"@.len());
    assert("f"@.len() != "len"@.len());
    assert("f"@.len() != "length"@.len());
    assert("f"@.len() != "clear"@.len());
    assert("fact"@.len() != "cos"@.len());
    assert("fact"@.len() != "sin"@.len());
    assert("fact"@.len() != "tan"@.len());
    assert("fact"@[0] != "asin"@[0]);
    assert("fact"@[0] != "acos"@[0]);
    assert("fact"@[0] != "atan"@[0]);
    assert("fact"@.len() != "exp"@.len());
    assert("fact"@.len() != "log"@.len());
    assert("fact"@.len() != "ln"@.len());
    assert("fact"@.len() != "fix"@.len());
    assert("fact"@.len() != "int"@.len());
    assert("fact"@.len() != "abs"@.len());
    assert("fact"@[0] != "sqrt"@[0]);
    assert("fact"@.len() != "len"@.len());
    assert("fact"@.len() != "length"@.len());
    assert("fact"@.len() != "clear"@.len());
    assert("fact"@.len() != "f"@.len());
    assert("factorial"@.len() != "cos"@.len());
    assert("factorial"@.len() != "sin"@.len());
    assert("factorial"@.len() != "tan"@.len());
    assert("factorial"@.len() != "asin"@.len());
    assert("factorial"@.len() != "acos"@.len());
    assert("factorial"@.len() != "atan"@.len());
    assert("factorial"@.len() != "exp"@.len());
    assert("factorial"@.len() != "log"@.len());
    assert("factorial"@.len() != "ln"@.len());
    assert("factorial"@.len() != "fix"@.len());
    assert("factorial"@.len() != "int"@.len());
    assert("factorial"@.len() != "abs"@.len());
    assert("factorial"@.len() != "sqrt"@.len());
    assert("factorial"@.len() != "len"@.len());
    assert("factorial"@.len() != "length"@.len());
    assert("factorial"@.len() != "clear"@.len());
    assert("factorial"@.len() != "f"@.len());
    assert("factorial"@.len() != "fact"@.len());
}


pub proof fn law_function_names_in_any_ascii_case(name: Seq<char>)
    ensures
        (ascii_lower(trim(name)) == "fix"@ || ascii_lower(trim(name)) == "int"@) ==> function_named(name) == MathFunction::Floor,
        ascii_lower(trim(name)) == "abs"@ ==> function_named(name) == MathFunction::Abs,
        ascii_lower(trim(name)) == "sqrt"@ ==> function_named(name) == MathFunction::Sqrt,
        ascii_lower(trim(name)) == "clear"@ ==> function_named(name) == MathFunction::Clear,
        (ascii_lower(trim(name)) == "f"@ || ascii_lower(trim(name)) == "fact"@ || ascii_lower(trim(name))
            == "factorial"@) ==> function_named(name) == MathFunction::Factorial,
        ascii_lower(trim(name)) == "cos"@ ==> function_named(name) == MathFunction::Cos,
        ascii_lower(trim(name)) == "sin"@ ==> function_named(name) == MathFunction::Sin,
        ascii_lower(trim(name)) == "tan"@ ==> function_named(name) == MathFunction::Tan,
        ascii_lower(trim(name)) == "asin"@ ==> function_named(name) == MathFunction::Asin,
        ascii_lower(trim(name)) == "acos"@ ==> function_named(name) == MathFunction::Acos,
        ascii_lower(trim(name)) == "atan"@ ==> function_named(name) == MathFunction::Atan,
        ascii_lower(trim(name)) == "exp"@ ==> function_named(name) == MathFunction::Exp,
        (ascii_lower(trim(name)) == "log"@ || ascii_lower(trim(name)) == "ln"@) ==> function_named(name)
            == MathFunction::Ln,
        (ascii_lower(trim(name)) == "len"@ || ascii_lower(trim(name)) == "length"@) ==> function_named(name)
            == MathFunction::Length,
{
    lemma_function_names();
}

/// Each function an expression may call by name, written in any ASCII case, is callable:
/// `cos`, `sin`, `tan`, `asin`, `acos`, `atan`, `abs`, `sqrt`, `fix`, `int`, `exp`, `log`,
/// `ln` and `len`.
pub proof fn law_inline_functions_in_any_ascii_case(name: Seq<char>)
    requires
        ascii_lower(name) == "cos"@ || ascii_lower(name) == "sin"@ || ascii_lower(name) == "tan"@
            || ascii_lower(name) == "asin"@ || ascii_lower(name) == "acos"@ || ascii_lower(name)
            == "atan"@ || ascii_lower(name) == "abs"@ || ascii_lower(name) == "sqrt"@ || ascii_lower(
            name,
        ) == "fix"@ || ascii_lower(name) == "int"@ || ascii_lower(name) == "exp"@ || ascii_lower(name)
            == "log"@ || ascii_lower(name) == "ln"@ || ascii_lower(name) == "len"@,
    ensures
        names_inline_function(name),
{
}

} // verus!
