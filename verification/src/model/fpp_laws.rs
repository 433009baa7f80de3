//! What survives writing a diagram in the FPP format and reading it back.
use vstd::prelude::*;

use super::connector::ConnectorView;
use super::diagram::DiagramView;
use super::fpp::{
    all_shape_lines, fpp_divider, fpp_head, fpp_lines, fpp_shapes, is_header_text, joined,
    lines_mark, param_end, parse_fpp_view, scan_shapes, shape_at, shape_lines, skip_blank,
    skip_preamble, tagged_text, all_link_lines, opt_lines, fpp_type_number,
};
use super::node::{LayoutView, NodeType, NodeView};
use crate::text::{
    all_digits, breakless, contains_seq, decimal, digits_value, is_digit, is_ws,
    lemma_contains_suffix, lemma_decimal_digits, lemma_find_at, lemma_first_word_prefix,
    lemma_not_contains, lemma_trim_blank, lemma_trim_blank_when_wordstart, lemma_trim_wordlike,
    line_safe, lines, newline_free, parse_unsigned, strip_cr, trim, wordlike, without_plus,
};

verus! {

/// Whether an identifier reads back as a shape header: `id` followed by decimal digits.
pub open spec fn header_id(id: Seq<char>) -> bool {
    &&& id.len() > 2
    &&& id[0] == 'i'
    &&& id[1] == 'd'
    &&& all_digits(id.subrange(2, id.len() as int))
}

/// Whether an identifier is `id` followed by decimal digits that denote a number below
/// `usize::MAX`.
pub open spec fn fpp_id(id: Seq<char>) -> bool {
    &&& header_id(id)
    &&& digits_value(id.subrange(2, id.len() as int)) < usize::MAX
}

/// Whether a node parameter, written on a line of its own, reads back as a parameter: it
/// comes back as a line unchanged and is not where a shape's parameters stop.
pub open spec fn fpp_param(e: Seq<char>) -> bool {
    &&& line_safe(e)
    &&& !param_stop(e)
}

/// Whether the layout texts of a node hold no line break.
pub open spec fn layout_breakless(l: LayoutView) -> bool {
    &&& breakless(l.left)
    &&& breakless(l.top)
    &&& breakless(l.width)
    &&& breakless(l.height)
}

/// Whether the identifier and the parameters of a node read back from its FPP block.
pub open spec fn fpp_carried(n: NodeView) -> bool {
    &&& header_id(n.id)
    &&& fpp_param(n.expr1)
    &&& fpp_param(n.expr2)
    &&& fpp_param(n.target_var)
}

/// Whether the FPP format carries a node: a numbered identifier, layout texts without line
/// breaks, and parameters that read back as parameters.
pub open spec fn fpp_writable(n: NodeView) -> bool {
    &&& fpp_id(n.id)
    &&& layout_breakless(n.layout)
    &&& fpp_carried(n)
}

/// Whether a line is where the parameters of a shape stop.
pub open spec fn param_stop(l: Seq<char>) -> bool {
    is_header_text(trim(l)) || contains_seq(trim(l), lines_mark())
}

proof fn lemma_literals()
    ensures
        "       \t <--"@.len() > 0,
        is_ws("       \t <--"@[0]),
        breakless("       \t <--"@),
        breakless("SHAPES"@),
        breakless("LINES"@),
        breakless("TYPE"@),
        breakless("LEFT"@),
        breakless("TOP"@),
        breakless("WIDTH"@),
        breakless("HEIGHT"@),
        breakless("16777215       \t <--BACKCOLOR"@),
        breakless("0       \t <--BORDERCOLOR"@),
        breakless("-reserved 1-"@),
        breakless("-reserved 2-"@),
        breakless(""@),
        breakless("  "@),
        breakless("---- LINES ---- from,to ----"@),
        ""@.len() == 0,
        "  "@ == seq![' ', ' '],
        lines_mark().len() > 0,
        lines_mark()[0] == '-',
        "LINES"@.len() > 0,
        "LINES"@[0] == 'L',
        "---- LINES ---- from,to ----"@ == lines_mark() + " ---- from,to ----"@,
{
    reveal_strlit("       \t <--");
    reveal_strlit("SHAPES");
    reveal_strlit("LINES");
    reveal_strlit("TYPE");
    reveal_strlit("LEFT");
    reveal_strlit("TOP");
    reveal_strlit("WIDTH");
    reveal_strlit("HEIGHT");
    reveal_strlit("16777215       \t <--BACKCOLOR");
    reveal_strlit("0       \t <--BORDERCOLOR");
    reveal_strlit("-reserved 1-");
    reveal_strlit("-reserved 2-");
    reveal_strlit("");
    reveal_strlit("  ");
    reveal_strlit("---- LINES ---- from,to ----");
    reveal_strlit("---- LINES");
    reveal_strlit(" ---- from,to ----");
    assert("---- LINES ---- from,to ----"@ =~= "---- LINES"@ + " ---- from,to ----"@);
}

proof fn lemma_code_breakless(t: NodeType)
    ensures
        breakless(t.code_text()),
{
    reveal_strlit("START");
    reveal_strlit("ACTION");
    reveal_strlit("DEFINITION");
    reveal_strlit("ADD");
    reveal_strlit("SUBTRACT");
    reveal_strlit("MULTIPLY");
    reveal_strlit("DIVIDE");
    reveal_strlit("INPUT");
    reveal_strlit("OUTPUT");
    reveal_strlit("IF_EQUAL");
    reveal_strlit("IF_GREATER");
    reveal_strlit("IF_GREATER_EQUAL");
    reveal_strlit("IF_LESS");
    reveal_strlit("IF_LESS_EQUAL");
    reveal_strlit("INTERSECTION");
    reveal_strlit("FUNCTION");
    reveal_strlit("STOP");
}

proof fn lemma_breakless_concat(a: Seq<char>, b: Seq<char>)
    requires
        breakless(a),
        breakless(b),
    ensures
        breakless(a + b),
{
    assert forall|i: int| 0 <= i < (a + b).len() implies #[trigger] (a + b)[i] != '\n' && (a
        + b)[i] != '\r' by {
        if i < a.len() {
            assert((a + b)[i] == a[i]);
        } else {
            assert((a + b)[i] == b[i - a.len()]);
        }
    }
}

proof fn lemma_digits_breakless(s: Seq<char>)
    requires
        all_digits(s),
    ensures
        breakless(s),
        wordlike(s),
{
    assert forall|i: int| 0 <= i < s.len() implies #[trigger] s[i] != '\n' && s[i] != '\r' by {
        assert(is_digit(s[i]));
    }
    assert forall|i: int| 0 <= i < s.len() implies !is_ws(#[trigger] s[i]) by {
        assert(is_digit(s[i]));
    }
}

proof fn lemma_tagged_breakless(v: Seq<char>, tag: Seq<char>)
    requires
        breakless(v),
        breakless(tag),
    ensures
        breakless(tagged_text(v, tag)),
{
    lemma_literals();
    lemma_breakless_concat(v, "       \t <--"@);
    lemma_breakless_concat(v + "       \t <--"@, tag);
}

pub proof fn lemma_id_facts(id: Seq<char>)
    requires
        header_id(id),
    ensures
        breakless(id),
        wordlike(id),
        trim(id) == id,
        trim(id).len() > 0,
        is_header_text(id),
        !contains_seq(id, lines_mark()),
        !contains_seq(id, "LINES"@),
{
    let d = id.subrange(2, id.len() as int);
    assert forall|i: int| 0 <= i < id.len() implies #[trigger] id[i] != '\n' && id[i] != '\r' && !is_ws(id[i])
        && id[i] != '-' && id[i] != 'L' by {
        if i >= 2 {
            assert(id[i] == d[i - 2]);
            assert(is_digit(d[i - 2]));
        }
    }
    lemma_trim_wordlike(id);
    lemma_literals();
    lemma_not_contains(id, lines_mark(), 0);
    lemma_not_contains(id, "LINES"@, 0);
}

proof fn lemma_breakless_line_safe(s: Seq<char>)
    requires
        breakless(s),
    ensures
        line_safe(s),
{
    if s.len() > 0 {
        assert(s[s.len() - 1] != '\r');
    }
}

proof fn lemma_shape_lines_breakless(n: NodeView)
    requires
        fpp_carried(n),
        layout_breakless(n.layout),
    ensures
        forall|j: int| 0 <= j < shape_lines(n).len() ==> line_safe(#[trigger] shape_lines(n)[j]),
        shape_lines(n).len() >= 13,
        shape_lines(n)[0] == n.id,
        shape_lines(n)[1] == tagged_text(decimal(fpp_type_number(n.node_type)), "TYPE"@),
        shape_lines(n)[2] == tagged_text(n.layout.left, "LEFT"@),
        shape_lines(n)[3] == tagged_text(n.layout.top, "TOP"@),
        shape_lines(n)[4] == tagged_text(n.layout.width, "WIDTH"@),
        shape_lines(n)[5] == tagged_text(n.layout.height, "HEIGHT"@),
        shape_lines(n)[11] == n.node_type.code_text(),
        forall|j: int|
            12 <= j < shape_lines(n).len() ==> #[trigger] shape_lines(n)[j] == n.expr1
                || shape_lines(n)[j] == n.expr2 || shape_lines(n)[j] == n.target_var
                || shape_lines(n)[j] == ""@,
{
    lemma_literals();
    lemma_id_facts(n.id);
    lemma_decimal_digits(fpp_type_number(n.node_type));
    lemma_digits_breakless(decimal(fpp_type_number(n.node_type)));
    lemma_tagged_breakless(decimal(fpp_type_number(n.node_type)), "TYPE"@);
    lemma_tagged_breakless(n.layout.left, "LEFT"@);
    lemma_tagged_breakless(n.layout.top, "TOP"@);
    lemma_tagged_breakless(n.layout.width, "WIDTH"@);
    lemma_tagged_breakless(n.layout.height, "HEIGHT"@);
    lemma_code_breakless(n.node_type);
    let fixed = seq![
        n.id,
        tagged_text(decimal(fpp_type_number(n.node_type)), "TYPE"@),
        tagged_text(n.layout.left, "LEFT"@),
        tagged_text(n.layout.top, "TOP"@),
        tagged_text(n.layout.width, "WIDTH"@),
        tagged_text(n.layout.height, "HEIGHT"@),
        "16777215       \t <--BACKCOLOR"@,
        "0       \t <--BORDERCOLOR"@,
        "0       \t <--BORDERCOLOR"@,
        "-reserved 1-"@,
        "-reserved 2-"@,
        n.node_type.code_text(),
    ];
    let tail = opt_lines(n.expr1) + opt_lines(n.expr2) + opt_lines(n.target_var) + seq![""@];
    assert(shape_lines(n) =~= fixed + tail);
    assert forall|k: int| 0 <= k < tail.len() implies #[trigger] tail[k] == n.expr1 || tail[k]
        == n.expr2 || tail[k] == n.target_var || tail[k] == ""@ by {
        let a = opt_lines(n.expr1);
        let b = opt_lines(n.expr2);
        let c = opt_lines(n.target_var);
        if k < a.len() {
            assert(tail[k] == a[k]);
        } else if k < a.len() + b.len() {
            assert(tail[k] == b[k - a.len()]);
        } else if k < a.len() + b.len() + c.len() {
            assert(tail[k] == c[k - a.len() - b.len()]);
        } else {
            assert(tail[k] == ""@);
        }
    }
    assert forall|j: int| 0 <= j < shape_lines(n).len() implies line_safe(
        #[trigger] shape_lines(n)[j],
    ) by {
        if j < 12 {
            assert(shape_lines(n)[j] == fixed[j]);
            lemma_breakless_line_safe(fixed[j]);
        } else {
            assert(shape_lines(n)[j] == tail[j - 12]);
            lemma_breakless_line_safe(""@);
        }
    }
    assert forall|j: int| 12 <= j < shape_lines(n).len() implies #[trigger] shape_lines(n)[j]
        == n.expr1 || shape_lines(n)[j] == n.expr2 || shape_lines(n)[j] == n.target_var
        || shape_lines(n)[j] == ""@ by {
        assert(shape_lines(n)[j] == tail[j - 12]);
    }
}

proof fn lemma_all_shape_lines_append(a: Seq<NodeView>, b: Seq<NodeView>)
    ensures
        all_shape_lines(a + b) == all_shape_lines(a) + all_shape_lines(b),
    decreases b.len(),
{
    if b.len() == 0 {
        assert(a + b =~= a);
        assert(all_shape_lines(a) + all_shape_lines(b) =~= all_shape_lines(a));
    } else {
        lemma_all_shape_lines_append(a, b.drop_last());
        assert((a + b).drop_last() =~= a + b.drop_last());
        assert((a + b).last() == b.last());
        assert(all_shape_lines(a + b) =~= all_shape_lines(a) + all_shape_lines(b));
    }
}

proof fn lemma_all_shape_lines_front(ns: Seq<NodeView>)
    requires
        ns.len() > 0,
    ensures
        all_shape_lines(ns) == shape_lines(ns[0]) + all_shape_lines(ns.drop_first()),
{
    lemma_all_shape_lines_append(seq![ns[0]], ns.drop_first());
    assert(seq![ns[0]] + ns.drop_first() =~= ns);
    assert(seq![ns[0]].drop_last() =~= Seq::<NodeView>::empty());
    assert(all_shape_lines(Seq::<NodeView>::empty()) =~= Seq::<Seq<char>>::empty());
    assert(seq![ns[0]].last() == ns[0]);
    assert(all_shape_lines(seq![ns[0]]) =~= shape_lines(ns[0]));
}

/// Whether every node of `ns` is carried by the format, with a layout without line breaks.
spec fn blocks_carried(ns: Seq<NodeView>) -> bool {
    forall|i: int| 0 <= i < ns.len() ==> fpp_carried(#[trigger] ns[i]) && layout_breakless(ns[i].layout)
}

proof fn lemma_all_shape_lines_breakless(ns: Seq<NodeView>)
    requires
        blocks_carried(ns),
    ensures
        forall|j: int| 0 <= j < all_shape_lines(ns).len() ==> line_safe(#[trigger] all_shape_lines(ns)[j]),
    decreases ns.len(),
{
    if ns.len() > 0 {
        let pre = ns.drop_last();
        assert forall|i: int| 0 <= i < pre.len() implies fpp_carried(#[trigger] pre[i]) && layout_breakless(pre[i].layout) by {
            assert(pre[i] == ns[i]);
        }
        lemma_all_shape_lines_breakless(pre);
        assert(fpp_carried(ns[ns.len() - 1]));
        lemma_shape_lines_breakless(ns.last());
        let a = all_shape_lines(pre);
        let b = shape_lines(ns.last());
        assert forall|j: int| 0 <= j < all_shape_lines(ns).len() implies line_safe(
            #[trigger] all_shape_lines(ns)[j],
        ) by {
            if j < a.len() {
                assert(all_shape_lines(ns)[j] == a[j]);
            } else {
                assert(all_shape_lines(ns)[j] == b[j - a.len()]);
            }
        }
    }
}

pub proof fn lemma_joined_append(a: Seq<Seq<char>>, b: Seq<Seq<char>>)
    ensures
        joined(a + b) == joined(a) + joined(b),
    decreases a.len(),
{
    if a.len() == 0 {
        assert(a + b =~= b);
        assert(joined(a) + joined(b) =~= joined(b));
    } else {
        lemma_joined_append(a.drop_first(), b);
        assert((a + b).drop_first() =~= a.drop_first() + b);
        assert((a + b)[0] == a[0]);
        assert(joined(a + b) =~= joined(a) + joined(b));
    }
}

pub proof fn lemma_lines_of_joined(a: Seq<Seq<char>>, rest: Seq<char>)
    requires
        forall|i: int| 0 <= i < a.len() ==> line_safe(#[trigger] a[i]),
    ensures
        lines(joined(a) + rest) == a + lines(rest),
    decreases a.len(),
{
    if a.len() == 0 {
        assert(joined(a) + rest =~= rest);
        assert(a + lines(rest) =~= lines(rest));
    } else {
        let a0 = a[0];
        let t = a.drop_first();
        assert forall|i: int| 0 <= i < t.len() implies line_safe(#[trigger] t[i]) by {
            assert(t[i] == a[i + 1]);
        }
        lemma_lines_of_joined(t, rest);
        let s = joined(a) + rest;
        assert(s =~= a0 + seq!['\n'] + (joined(t) + rest));
        assert(line_safe(a[0]));
        assert forall|j: int| 0 <= j < a0.len() implies #[trigger] s[j] != '\n' by {
            assert(s[j] == a0[j]);
        }
        assert(s[a0.len() as int] == '\n');
        lemma_find_at(s, '\n', a0.len() as int);
        assert(s.subrange(0, a0.len() as int) =~= a0);
        assert(s.subrange(a0.len() as int + 1, s.len() as int) =~= joined(t) + rest);
        if a0.len() > 0 {
            assert(a0.last() == a0[a0.len() - 1]);
        }
        assert(strip_cr(a0) == a0);
        assert(lines(s) == seq![a0] + lines(joined(t) + rest));
        assert(seq![a0] + (t + lines(rest)) =~= a + lines(rest));
    }
}

proof fn lemma_param_end_at(ls: Seq<Seq<char>>, i: int, e: int)
    requires
        0 <= i <= e <= ls.len(),
        forall|j: int| i <= j < e ==> !param_stop(#[trigger] ls[j]),
        e < ls.len() ==> param_stop(ls[e]),
    ensures
        param_end(ls, i) == e,
    decreases e - i,
{
    if i < e {
        lemma_param_end_at(ls, i + 1, e);
    }
}

/// Whether a node's parameters read back from its FPP block as they are: each is its own
/// trim, the empty ones come last, and the node's kind takes each non-empty one: a start
/// node its first; input, output and comparison nodes their first two; definition,
/// arithmetic, action and function nodes all three; stop and junction nodes none.
pub open spec fn params_read_back(n: NodeView) -> bool {
    &&& trim(n.expr1) == n.expr1
    &&& trim(n.expr2) == n.expr2
    &&& trim(n.target_var) == n.target_var
    &&& (n.expr1.len() == 0 ==> n.expr2.len() == 0)
    &&& (n.expr2.len() == 0 ==> n.target_var.len() == 0)
    &&& match n.node_type {
        NodeType::Start => n.expr2.len() == 0 && n.target_var.len() == 0,
        NodeType::Input | NodeType::Output | NodeType::IfEqual | NodeType::IfGreater
        | NodeType::IfGreaterEqual | NodeType::IfLess | NodeType::IfLessEqual => n.target_var.len() == 0,
        NodeType::Stop | NodeType::Intersection => n.expr1.len() == 0,
        _ => true,
    }
}

proof fn lemma_param_at(ls: Seq<Seq<char>>, p0: int, e: int, k: int, x: Seq<char>)
    requires
        0 <= p0,
        0 <= k,
        trim(x) == x,
        x.len() > 0 ==> p0 + k < e && p0 + k < ls.len() && ls[p0 + k] == x,
        x.len() == 0 ==> p0 + k >= e || (p0 + k < ls.len() && trim(ls[p0 + k]).len() == 0),
    ensures
        super::fpp::param(ls, p0, e, k) == x,
{
    reveal_strlit("");
    if x.len() == 0 {
        assert(x =~= ""@);
        if p0 + k < e {
            assert(trim(ls[p0 + k]) =~= ""@);
        }
    }
}

/// The parameters read from a shape block written for `n`, followed up to `e` by blank
/// lines, are `n`'s own parameters when they read back.
#[verifier::rlimit(40)]
proof fn lemma_block_params(ls: Seq<Seq<char>>, p: int, e: int, n: NodeView)
    requires
        params_read_back(n),
        0 <= p,
        p + shape_lines(n).len() <= ls.len(),
        forall|j: int| 0 <= j < shape_lines(n).len() ==> ls[p + j] == #[trigger] shape_lines(n)[j],
        p + shape_lines(n).len() - 1 <= e,
        forall|j: int| p + shape_lines(n).len() <= j < e ==> j < ls.len() && trim(#[trigger] ls[j]).len() == 0,
    ensures
        super::fpp::params_for(
            n.node_type,
            super::fpp::param(ls, p + 12, e, 0),
            super::fpp::param(ls, p + 12, e, 1),
            super::fpp::param(ls, p + 12, e, 2),
        ) == (n.expr1, n.expr2, n.target_var),
{
    reveal_strlit("");
    lemma_trim_blank(""@);
    let b = shape_lines(n);
    let fixed = b.subrange(0, 12);
    let e1 = n.expr1;
    let e2 = n.expr2;
    let e3 = n.target_var;
    let q = p + 12;
    if p + b.len() <= q + 1 < e {
        assert(trim(ls[q + 1]).len() == 0);
    }
    if p + b.len() <= q + 2 < e {
        assert(trim(ls[q + 2]).len() == 0);
    }
    assert(b =~= fixed + (opt_lines(e1) + opt_lines(e2) + opt_lines(e3) + seq![""@])) by {
        assert(b.subrange(0, 12) =~= fixed);
    }
    if e1.len() == 0 {
        assert(b.len() == 13);
        assert(b[12] == ""@);
        assert(ls[q] == b[12]);
        lemma_param_at(ls, q, e, 0, e1);
        lemma_param_at(ls, q, e, 1, e2);
        lemma_param_at(ls, q, e, 2, e3);
    } else if e2.len() == 0 {
        assert(b.len() == 14);
        assert(b[12] == e1 && b[13] == ""@);
        assert(ls[q] == b[12] && ls[q + 1] == b[13]);
        lemma_param_at(ls, q, e, 0, e1);
        lemma_param_at(ls, q, e, 1, e2);
        lemma_param_at(ls, q, e, 2, e3);
    } else if e3.len() == 0 {
        assert(b.len() == 15);
        assert(b[12] == e1 && b[13] == e2 && b[14] == ""@);
        assert(ls[q] == b[12] && ls[q + 1] == b[13] && ls[q + 2] == b[14]);
        lemma_param_at(ls, q, e, 0, e1);
        lemma_param_at(ls, q, e, 1, e2);
        lemma_param_at(ls, q, e, 2, e3);
    } else {
        assert(b.len() == 16);
        assert(b[12] == e1 && b[13] == e2 && b[14] == e3);
        assert(ls[q] == b[12] && ls[q + 1] == b[13] && ls[q + 2] == b[14]);
        lemma_param_at(ls, q, e, 0, e1);
        lemma_param_at(ls, q, e, 1, e2);
        lemma_param_at(ls, q, e, 2, e3);
    }
    if e2.len() == 0 {
        assert(e2 =~= ""@);
    }
    if e3.len() == 0 {
        assert(e3 =~= ""@);
    }
    if e1.len() == 0 {
        assert(e1 =~= ""@);
    }
}

/// Whether a layout text reads back unchanged from its FPP line: one word that reads as a
/// number.
spec fn coord_carried(t: Seq<char>) -> bool {
    &&& t.len() > 0
    &&& wordlike(t)
    &&& crate::text::is_float_literal(t)
}

/// Whether all four coordinates of a layout read back unchanged.
spec fn layout_read_back(l: LayoutView) -> bool {
    &&& coord_carried(l.left)
    &&& coord_carried(l.top)
    &&& coord_carried(l.width)
    &&& coord_carried(l.height)
}

proof fn lemma_coord_read(t: Seq<char>, tag: Seq<char>, default: Seq<char>)
    requires
        coord_carried(t),
    ensures
        super::fpp::coord_or(Some(tagged_text(t, tag)), default) == t,
{
    lemma_literals();
    let rest = "       \t <--"@ + tag;
    assert(rest[0] == "       \t <--"@[0]);
    lemma_first_word_prefix(t, rest);
    assert(tagged_text(t, tag) =~= t + rest);
}

proof fn lemma_int_text_coord(v: int)
    ensures
        coord_carried(super::fpp::int_text(v)),
{
    let n: nat = if v < 0 {
        (-v) as nat
    } else {
        v as nat
    };
    let dec = decimal(n);
    lemma_decimal_digits(n);
    lemma_digits_breakless(dec);
    reveal_strlit("-");
    let t = super::fpp::int_text(v);
    if v < 0 {
        assert(t =~= seq!['-'] + dec);
        assert(t.drop_first() =~= dec);
        assert forall|i: int| 0 <= i < t.len() implies !is_ws(#[trigger] t[i]) by {
            if i > 0 {
                assert(t[i] == dec[i - 1]);
            }
        }
    } else {
        assert(is_digit(dec[0]));
    }
    assert(crate::text::without_sign(t) == dec);
    assert(crate::text::ascii_lower(dec) =~= dec) by {
        assert forall|i: int| 0 <= i < dec.len() implies #[trigger] crate::text::ascii_lower(dec)[i] == dec[i] by {
            assert(is_digit(dec[i]));
        }
    }
    crate::text::lemma_find_facts(dec, 'e');
    crate::text::lemma_find_facts(dec, '.');
    if crate::text::find(dec, 'e') >= 0 {
        assert(is_digit(dec[crate::text::find(dec, 'e')]));
    }
    if crate::text::find(dec, '.') >= 0 {
        assert(is_digit(dec[crate::text::find(dec, '.')]));
    }
    assert(crate::text::is_decimal(dec));
}

/// The number in an identifier `id…`, when it fits a `usize`.
spec fn id_number(id: Seq<char>) -> Option<int> {
    parse_unsigned(id.subrange(2, id.len() as int), usize::MAX as int)
}

/// `m`, raised to `num` when that is larger.
spec fn raise(m: int, num: Option<int>) -> int {
    match num {
        Some(v) => if v > m {
            v
        } else {
            m
        },
        None => m,
    }
}

/// The largest identifier number of the nodes `ns`, starting from `m`.
spec fn id_max(ns: Seq<NodeView>, m: int) -> int
    decreases ns.len(),
{
    if ns.len() == 0 {
        m
    } else {
        id_max(ns.drop_first(), raise(m, id_number(ns[0].id)))
    }
}

proof fn lemma_type_lines(t: NodeType)
    ensures
        super::fpp::shape_number(Some(tagged_text(decimal(fpp_type_number(t)), "TYPE"@))) == fpp_type_number(t) as u32,
        super::fpp::kind_line(Some(t.code_text())) == t.code_text(),
        NodeType::of_kind_line(t.code_text(), fpp_type_number(t) as u32) == t,
{
    let n = fpp_type_number(t);
    lemma_literals();
    lemma_decimal_digits(n);
    lemma_digits_breakless(decimal(n));
    reveal_strlit("TYPE");
    lemma_first_word_prefix(decimal(n), "       \t <--"@ + "TYPE"@);
    assert(tagged_text(decimal(n), "TYPE"@) =~= decimal(n) + ("       \t <--"@ + "TYPE"@));
    assert(without_plus(decimal(n)) == decimal(n));
    assert(parse_unsigned(decimal(n), u32::MAX as int) == Some(n as int));
    lemma_code_wordlike(t);
    lemma_trim_wordlike(t.code_text());
    reveal_strlit("START");
    reveal_strlit("STOP");
    reveal_strlit("END");
    reveal_strlit("INPUT");
    reveal_strlit("IN");
    reveal_strlit("OUTPUT");
    reveal_strlit("OUT");
    reveal_strlit("IF_EQUAL");
    reveal_strlit("IF");
    reveal_strlit("IF_GREATER");
    reveal_strlit("IF_GREATER_EQUAL");
    reveal_strlit("IF_LESS");
    reveal_strlit("IF_LESS_EQUAL");
    reveal_strlit("DEFINITION");
    reveal_strlit("ADD");
    reveal_strlit("SUBTRACT");
    reveal_strlit("MULTIPLY");
    reveal_strlit("DIVIDE");
    reveal_strlit("INTERSECTION");
    reveal_strlit("JOIN_NODE");
    reveal_strlit("FUNCTION");
    reveal_strlit("FUNC");
    reveal_strlit("COMP");
    reveal_strlit("JOIN");
    reveal_strlit("ACTION");
    reveal_strlit("ACT");
}

proof fn lemma_upper_wordlike(s: Seq<char>)
    requires
        forall|i: int| 0 <= i < s.len() ==> 65 <= #[trigger] (s[i] as int) <= 95,
    ensures
        wordlike(s),
{
    assert forall|i: int| 0 <= i < s.len() implies !is_ws(#[trigger] s[i]) by {
        assert(65 <= (s[i] as int) <= 95);
    }
}

proof fn lemma_code_wordlike(t: NodeType)
    ensures
        wordlike(t.code_text()),
{
    match t {
        NodeType::Start => { reveal_strlit("START"); },
        NodeType::Action => { reveal_strlit("ACTION"); },
        NodeType::Definition => { reveal_strlit("DEFINITION"); },
        NodeType::Add => { reveal_strlit("ADD"); },
        NodeType::Subtract => { reveal_strlit("SUBTRACT"); },
        NodeType::Multiply => { reveal_strlit("MULTIPLY"); },
        NodeType::Divide => { reveal_strlit("DIVIDE"); },
        NodeType::Input => { reveal_strlit("INPUT"); },
        NodeType::Output => { reveal_strlit("OUTPUT"); },
        NodeType::IfEqual => { reveal_strlit("IF_EQUAL"); },
        NodeType::IfGreater => { reveal_strlit("IF_GREATER"); },
        NodeType::IfGreaterEqual => { reveal_strlit("IF_GREATER_EQUAL"); },
        NodeType::IfLess => { reveal_strlit("IF_LESS"); },
        NodeType::IfLessEqual => { reveal_strlit("IF_LESS_EQUAL"); },
        NodeType::Intersection => { reveal_strlit("INTERSECTION"); },
        NodeType::Function => { reveal_strlit("FUNCTION"); },
        NodeType::Stop => { reveal_strlit("STOP"); },
    }
    lemma_upper_wordlike(t.code_text());
}

#[verifier::spinoff_prover]
#[verifier::rlimit(80)]
proof fn lemma_scan_blocks(
    ls: Seq<Seq<char>>,
    pre: Seq<Seq<char>>,
    ns: Seq<NodeView>,
    post: Seq<Seq<char>>,
    acc: Seq<NodeView>,
    m: int,
)
    requires
        ls == pre + all_shape_lines(ns) + post,
        post.len() >= 3,
        !param_stop(post[0]),
        !param_stop(post[1]),
        param_stop(post[2]),
        trim(post[0]).len() == 0,
        trim(post[1]).len() == 0,
        contains_seq(post[2], lines_mark()),
        blocks_carried(ns),
    ensures
        scan_shapes(ls, pre.len() as int, ns.len(), acc, m).0.len() == acc.len() + ns.len(),
        forall|i: int|
            0 <= i < acc.len() ==> #[trigger] scan_shapes(ls, pre.len() as int, ns.len(), acc, m).0[i]
                == acc[i],
        forall|i: int|
            0 <= i < ns.len() ==> (#[trigger] scan_shapes(ls, pre.len() as int, ns.len(), acc, m).0[acc.len()
                + i]).id == ns[i].id,
        forall|i: int|
            0 <= i < ns.len() ==> (#[trigger] scan_shapes(ls, pre.len() as int, ns.len(), acc, m).0[acc.len()
                + i]).node_type == ns[i].node_type,
        forall|i: int|
            0 <= i < ns.len() && layout_read_back(ns[i].layout) ==> (#[trigger] scan_shapes(
                ls,
                pre.len() as int,
                ns.len(),
                acc,
                m,
            ).0[acc.len() + i]).layout == ns[i].layout,
        forall|i: int|
            0 <= i < ns.len() && params_read_back(ns[i]) ==> {
                let x = #[trigger] scan_shapes(ls, pre.len() as int, ns.len(), acc, m).0[acc.len() + i];
                x.expr1 == ns[i].expr1 && x.expr2 == ns[i].expr2 && x.target_var == ns[i].target_var
            },
        scan_shapes(ls, pre.len() as int, ns.len(), acc, m).2 == id_max(ns, m),
        ns.len() > 0 ==> scan_shapes(ls, pre.len() as int, ns.len(), acc, m).1 == pre.len()
            + all_shape_lines(ns).len() + 2,
    decreases ns.len(),
{
    if ns.len() > 0 {
        let n0 = ns[0];
        let rest = ns.drop_first();
        assert(fpp_carried(n0) && layout_breakless(n0.layout));
        lemma_all_shape_lines_front(ns);
        lemma_shape_lines_breakless(n0);
        lemma_id_facts(n0.id);
        lemma_type_lines(n0.node_type);
        let block = shape_lines(n0);
        let p = pre.len() as int;
        let pre2 = pre + block;
        assert(ls =~= pre2 + all_shape_lines(rest) + post);
        assert(ls[p] == n0.id);
        assert(next_shape_is(ls, p));
        let sh = shape_at(ls, p);
        assert(sh.0.id == n0.id);
        assert(ls[p + 1] == block[1]);
        assert(ls[p + 11] == block[11]);
        assert(sh.0.node_type == n0.node_type);
        if layout_read_back(n0.layout) {
            assert(ls[p + 2] == block[2]);
            assert(ls[p + 3] == block[3]);
            assert(ls[p + 4] == block[4]);
            assert(ls[p + 5] == block[5]);
            lemma_coord_read(n0.layout.left, "LEFT"@, "100"@);
            lemma_coord_read(n0.layout.top, "TOP"@, "100"@);
            lemma_coord_read(n0.layout.width, "WIDTH"@, "100"@);
            lemma_coord_read(n0.layout.height, "HEIGHT"@, "40"@);
            assert(sh.0.layout == n0.layout);
        }
        assert(ls[p + 12] == block[12]);
        assert(p + 12 < ls.len());
        assert(sh.2 == id_number(n0.id));
        let m2 = raise(m, sh.2);
        assert(rest =~= ns.drop_first());
        assert(id_max(ns, m) == id_max(rest, m2));
        assert forall|i: int| 0 <= i < rest.len() implies fpp_carried(#[trigger] rest[i]) && layout_breakless(rest[i].layout) by {
            assert(rest[i] == ns[i + 1]);
        }
        let e = pre2.len() as int;
        assert forall|j: int| p + 12 <= j < e implies !param_stop(#[trigger] ls[j]) by {
            assert(ls[j] == block[j - p]);
            let l = block[j - p];
            if l == ""@ {
                lemma_literals();
                lemma_trim_blank(l);
                assert(trim(l).len() == 0);
                lemma_not_contains(trim(l), lines_mark(), 0);
            }
        }
        if rest.len() > 0 {
            lemma_all_shape_lines_front(rest);
            let n1 = rest[0];
            lemma_shape_lines_breakless(n1);
            lemma_id_facts(n1.id);
            assert(ls[e] == n1.id);
            lemma_param_end_at(ls, p + 12, e);
            assert(sh.1 == e);
        } else {
            assert(all_shape_lines(rest) =~= Seq::<Seq<char>>::empty());
            assert(ls[e] == post[0]);
            assert(ls[e + 1] == post[1]);
            assert(ls[e + 2] == post[2]);
            assert forall|j: int| p + 12 <= j < e + 2 implies !param_stop(#[trigger] ls[j]) by {
                if j >= e {
                    assert(ls[j] == post[j - e]);
                }
            }
            lemma_param_end_at(ls, p + 12, e + 2);
            assert(sh.1 == e + 2);
        }
        if params_read_back(n0) {
            assert forall|j: int| 0 <= j < block.len() implies ls[p + j] == #[trigger] block[j] by {
                assert(ls[p + j] == pre2[p + j]);
            }
            if rest.len() == 0 {
                assert forall|j: int| e <= j < sh.1 implies j < ls.len() && trim(#[trigger] ls[j]).len() == 0 by {
                    assert(ls[j] == post[j - e]);
                }
            }
            lemma_block_params(ls, p, sh.1, n0);
        }
        let acc2 = acc.push(sh.0);
        lemma_scan_blocks(ls, pre2, rest, post, acc2, m2);
        assert(scan_shapes(ls, p, ns.len(), acc, m) == scan_shapes(ls, sh.1, rest.len(), acc2, m2));
        if rest.len() == 0 {
            assert(scan_shapes(ls, sh.1, rest.len(), acc2, m2) == (acc2, sh.1, m2));
        }
        let r = scan_shapes(ls, p, ns.len(), acc, m);
        assert forall|i: int| 0 <= i < ns.len() implies (#[trigger] r.0[acc.len() + i]).id == ns[i].id
            && r.0[acc.len() + i].node_type == ns[i].node_type by {
            if i > 0 {
                assert(r.0[acc2.len() + (i - 1)].id == rest[i - 1].id);
                assert(r.0[acc2.len() + (i - 1)].node_type == rest[i - 1].node_type);
                assert(rest[i - 1] == ns[i]);
                assert(acc2.len() + (i - 1) == acc.len() + i);
            } else {
                assert(r.0[acc.len() as int] == acc2[acc.len() as int]);
            }
        }
        assert forall|i: int| 0 <= i < ns.len() && params_read_back(ns[i]) implies {
            let x = #[trigger] r.0[acc.len() + i];
            x.expr1 == ns[i].expr1 && x.expr2 == ns[i].expr2 && x.target_var == ns[i].target_var
        } by {
            if i > 0 {
                assert(rest[i - 1] == ns[i]);
                assert(acc2.len() + (i - 1) == acc.len() + i);
                let y = r.0[acc2.len() + (i - 1)];
                assert(y.expr1 == rest[i - 1].expr1);
            } else {
                assert(r.0[acc.len() as int] == acc2[acc.len() as int]);
            }
        }
        assert forall|i: int| 0 <= i < ns.len() && layout_read_back(ns[i].layout) implies (#[trigger] r.0[acc.len()
            + i]).layout == ns[i].layout by {
            if i > 0 {
                assert(rest[i - 1] == ns[i]);
                assert(r.0[acc2.len() + (i - 1)].layout == rest[i - 1].layout);
                assert(acc2.len() + (i - 1) == acc.len() + i);
            } else {
                assert(r.0[acc.len() as int] == acc2[acc.len() as int]);
            }
        }
        assert forall|i: int| 0 <= i < acc.len() implies #[trigger] r.0[i] == acc[i] by {
            assert(r.0[i] == acc2[i]);
        }
    }
}

spec fn next_shape_is(ls: Seq<Seq<char>>, p: int) -> bool {
    super::fpp::next_shape(ls, p) == p && p < ls.len() && !contains_seq(ls[p], lines_mark())
}


proof fn lemma_export_lines(d: DiagramView)
    requires
        blocks_carried(d.nodes),
    ensures
        lines(joined(fpp_lines(d))) == fpp_head(d) + all_shape_lines(d.nodes) + (fpp_divider()
            + lines(joined(all_link_lines(d.connectors)))),
{
    lemma_literals();
    let head = fpp_head(d);
    let shapes = all_shape_lines(d.nodes);
    let div = fpp_divider();
    let links = all_link_lines(d.connectors);
    let p = head + shapes + div;
    assert(fpp_lines(d) =~= p + links);
    lemma_joined_append(p, links);
    let n = d.nodes.len();
    lemma_decimal_digits(n);
    lemma_digits_breakless(decimal(n));
    lemma_decimal_digits(d.connectors.len());
    lemma_digits_breakless(decimal(d.connectors.len()));
    lemma_tagged_breakless(decimal(n), "SHAPES"@);
    lemma_tagged_breakless(decimal(d.connectors.len()), "LINES"@);
    lemma_all_shape_lines_breakless(d.nodes);
    assert forall|i: int| 0 <= i < p.len() implies line_safe(#[trigger] p[i]) by {
        if i < 2 {
            assert(p[i] == head[i]);
            lemma_breakless_line_safe(head[i]);
        } else if i < 2 + shapes.len() {
            assert(p[i] == shapes[i - 2]);
        } else {
            assert(p[i] == div[i - 2 - shapes.len()]);
            lemma_breakless_line_safe(div[i - 2 - shapes.len()]);
        }
    }
    lemma_lines_of_joined(p, joined(links));
    assert(p + lines(joined(links)) =~= head + shapes + (div + lines(joined(links))));
}

proof fn lemma_export_opening(d: DiagramView, ls: Seq<Seq<char>>, post: Seq<Seq<char>>)
    requires
        d.nodes.len() <= usize::MAX,
        blocks_carried(d.nodes),
        ls == fpp_head(d) + all_shape_lines(d.nodes) + post,
    ensures
        ls.len() > 0,
        skip_blank(ls, 0) == 0,
        super::fpp::shape_count(ls[0]) == d.nodes.len(),
        d.nodes.len() > 0 ==> skip_preamble(ls, 1) == 2,
{
    lemma_literals();
    let n = d.nodes.len();
    lemma_decimal_digits(n);
    lemma_digits_breakless(decimal(n));
    let l0 = tagged_text(decimal(n), "SHAPES"@);
    assert(ls[0] == l0);
    assert(l0 =~= decimal(n) + ("       \t <--"@ + "SHAPES"@));
    assert(l0[0] == decimal(n)[0]);
    assert(is_digit(decimal(n)[0]));
    lemma_trim_blank_when_wordstart(l0);
    assert(skip_blank(ls, 0) == 0);
    lemma_first_word_prefix(decimal(n), "       \t <--"@ + "SHAPES"@);
    assert(without_plus(decimal(n)) == decimal(n));
    assert(parse_unsigned(decimal(n), usize::MAX as int) == Some(n as int));
    let l1 = tagged_text(decimal(d.connectors.len()), "LINES"@);
    assert(ls[1] == l1);
    lemma_contains_suffix(decimal(d.connectors.len()) + "       \t <--"@, "LINES"@);
    if n > 0 {
        lemma_all_shape_lines_front(d.nodes);
        assert(fpp_carried(d.nodes[0]) && layout_breakless(d.nodes[0].layout));
        lemma_shape_lines_breakless(d.nodes[0]);
        lemma_id_facts(d.nodes[0].id);
        assert(ls[2] == d.nodes[0].id);
        assert(skip_preamble(ls, 2) == 2);
        assert(skip_preamble(ls, 1) == 2);
    }
}

proof fn lemma_divider_post(post: Seq<Seq<char>>, tail: Seq<Seq<char>>)
    requires
        post == fpp_divider() + tail,
    ensures
        post.len() >= 3,
        post[0] == ""@,
        post[1] == "  "@,
        contains_seq(post[2], lines_mark()),
        !param_stop(post[0]),
        !param_stop(post[1]),
        param_stop(post[2]),
        trim(post[0]).len() == 0,
        trim(post[1]).len() == 0,
{
    lemma_literals();
    assert(post[2] == "---- LINES ---- from,to ----"@);
    let p = lines_mark();
    let s = p + " ---- from,to ----"@;
    assert(s.subrange(0, 0 + p.len() as int) =~= p);
    assert(contains_seq(s, p));
    reveal_strlit(" ---- from,to ----");
    assert(s.last() == '-');
    crate::text::lemma_trim_fixed(s);
    lemma_trim_blank(""@);
    lemma_trim_blank("  "@);
    lemma_not_contains(trim(""@), lines_mark(), 0);
    lemma_not_contains(trim("  "@), lines_mark(), 0);
}

proof fn lemma_id_max_bound(ns: Seq<NodeView>, m: int)
    requires
        0 <= m < usize::MAX,
        forall|i: int| 0 <= i < ns.len() ==> fpp_id(#[trigger] ns[i].id),
    ensures
        0 <= id_max(ns, m) < usize::MAX,
    decreases ns.len(),
{
    if ns.len() > 0 {
        let id = ns[0].id;
        assert(fpp_id(id));
        let d = id.subrange(2, id.len() as int);
        assert(is_digit(d[0]));
        assert(without_plus(d) == d);
        let rest = ns.drop_first();
        assert forall|i: int| 0 <= i < rest.len() implies fpp_id(#[trigger] rest[i].id) by {
            assert(rest[i] == ns[i + 1]);
        }
        lemma_id_max_bound(rest, raise(m, id_number(id)));
    }
}

/// Writing a diagram in the FPP format and reading the text back gives as many nodes, with
/// the same identifiers and kinds in the same order, each with its expressions and target
/// variable when they read back (`params_read_back`), and the text meets what `parse_fpp`
/// asks of it; for diagrams whose nodes the format carries (`fpp_writable`).
pub proof fn law_fpp_roundtrip_keeps_nodes(d: DiagramView)
    requires
        d.nodes.len() <= usize::MAX,
        forall|i: int| 0 <= i < d.nodes.len() ==> fpp_writable(#[trigger] d.nodes[i]),
    ensures
        fpp_shapes(lines(joined(fpp_lines(d)))).2 < usize::MAX,
        parse_fpp_view(joined(fpp_lines(d))).nodes.len() == d.nodes.len(),
        forall|i: int|
            0 <= i < d.nodes.len() ==> #[trigger] parse_fpp_view(joined(fpp_lines(d))).nodes[i].id
                == d.nodes[i].id,
        forall|i: int|
            0 <= i < d.nodes.len() ==> (#[trigger] parse_fpp_view(joined(fpp_lines(d))).nodes[i]).node_type
                == d.nodes[i].node_type,
        forall|i: int|
            0 <= i < d.nodes.len() && params_read_back(d.nodes[i]) ==> {
                let x = #[trigger] parse_fpp_view(joined(fpp_lines(d))).nodes[i];
                x.expr1 == d.nodes[i].expr1 && x.expr2 == d.nodes[i].expr2 && x.target_var
                    == d.nodes[i].target_var
            },
{
    assert(blocks_carried(d.nodes));
    lemma_id_max_bound(d.nodes, 0);
    lemma_export_lines(d);
    let ls = lines(joined(fpp_lines(d)));
    let post = fpp_divider() + lines(joined(all_link_lines(d.connectors)));
    lemma_export_opening(d, ls, post);
    lemma_divider_post(post, lines(joined(all_link_lines(d.connectors))));
    lemma_scan_blocks(ls, fpp_head(d), d.nodes, post, Seq::empty(), 0);
    assert(fpp_head(d).len() == 2);
    let sh = fpp_shapes(ls);
    if d.nodes.len() > 0 {
        assert(sh == scan_shapes(ls, 2, d.nodes.len(), Seq::empty(), 0));
    } else {
        assert(sh.0 == Seq::<NodeView>::empty());
        assert(sh.2 == 0);
    }
    let d1 = DiagramView { nodes: sh.0, next_node_id: (sh.2 + 1) as nat, ..super::fpp::empty_fpp() };
    let m = super::fpp::find_mark(ls, sh.1);
    lemma_scan_links_keeps_nodes(ls, m + 1, d1);
    assert(parse_fpp_view(joined(fpp_lines(d))).nodes == sh.0);
    assert forall|i: int| 0 <= i < d.nodes.len() implies (#[trigger] sh.0[i]).id == d.nodes[i].id
        && sh.0[i].node_type == d.nodes[i].node_type && (params_read_back(d.nodes[i]) ==> sh.0[i].expr1
        == d.nodes[i].expr1 && sh.0[i].expr2 == d.nodes[i].expr2 && sh.0[i].target_var
        == d.nodes[i].target_var) by {
        if d.nodes.len() > 0 {
            assert(sh.0[0 + i] == sh.0[i]);
        }
    }
}


proof fn lemma_scan_links_simple(ls: Seq<Seq<char>>, i: int, d: DiagramView)
    requires
        super::diagram::links_are_simple(d.connectors),
    ensures
        super::diagram::links_are_simple(super::fpp::scan_links(ls, i, d).connectors),
    decreases ls.len() - i,
{
    if 0 <= i < ls.len() {
        let line = trim(ls[i]);
        if line.len() == 0 || !line.contains(',') {
            lemma_scan_links_simple(ls, i + 1, d);
        } else {
            let j = i + 1;
            let j2 = if j < ls.len() && (trim(ls[j]).len() == 0 || crate::text::starts_with(
                trim(ls[j]),
                "reserved"@,
            )) {
                j + 1
            } else {
                j
            };
            let tagged = j2 < ls.len() && super::fpp::is_tag_line(trim(ls[j2]));
            let j3 = if tagged {
                j2 + 1
            } else {
                j2
            };
            let parts = crate::text::split(line, ',');
            let cond = if tagged {
                super::connector::BranchCondition::of_upper_tag(trim(ls[j2]))
            } else {
                super::connector::BranchCondition::Default
            };
            super::diagram::law_connect_keeps_links_simple(d, trim(parts[0]), trim(parts[1]), cond);
            let d2 = super::diagram::connect(d, trim(parts[0]), trim(parts[1]), cond).0;
            lemma_scan_links_simple(ls, j3, d2);
        }
    }
}

/// The connectors read from any FPP text have no self-loops and no repeated link in the
/// same direction.
pub proof fn law_parsed_links_are_simple(content: Seq<char>)
    ensures
        super::diagram::links_are_simple(parse_fpp_view(content).connectors),
{
    let ls = lines(content);
    let i = skip_blank(ls, 0);
    if ls.len() > 0 && i < ls.len() {
        let sh = fpp_shapes(ls);
        let d1 = DiagramView { nodes: sh.0, next_node_id: (sh.2 + 1) as nat, ..super::fpp::empty_fpp() };
        let m = super::fpp::find_mark(ls, sh.1);
        lemma_scan_links_simple(ls, m + 1, d1);
    }
}

proof fn lemma_scan_links_numbered(ls: Seq<Seq<char>>, i: int, d: DiagramView)
    requires
        super::diagram::links_numbered(d),
    ensures
        super::diagram::links_numbered(super::fpp::scan_links(ls, i, d)),
    decreases ls.len() - i,
{
    if 0 <= i < ls.len() {
        let line = trim(ls[i]);
        if line.len() == 0 || !line.contains(',') {
            lemma_scan_links_numbered(ls, i + 1, d);
        } else {
            let j = i + 1;
            let j2 = if j < ls.len() && (trim(ls[j]).len() == 0 || crate::text::starts_with(
                trim(ls[j]),
                "reserved"@,
            )) {
                j + 1
            } else {
                j
            };
            let tagged = j2 < ls.len() && super::fpp::is_tag_line(trim(ls[j2]));
            let j3 = if tagged {
                j2 + 1
            } else {
                j2
            };
            let parts = crate::text::split(line, ',');
            let cond = if tagged {
                super::connector::BranchCondition::of_upper_tag(trim(ls[j2]))
            } else {
                super::connector::BranchCondition::Default
            };
            super::diagram::law_connect_keeps_links_numbered(d, trim(parts[0]), trim(parts[1]), cond);
            let d2 = super::diagram::connect(d, trim(parts[0]), trim(parts[1]), cond).0;
            lemma_scan_links_numbered(ls, j3, d2);
        }
    }
}

/// The connectors read from any FPP text are named `line1`, `line2`, ... in the order they
/// were read, and the line counter is one past their number.
pub proof fn law_parsed_links_numbered(content: Seq<char>)
    ensures
        super::diagram::links_numbered(parse_fpp_view(content)),
{
    let ls = lines(content);
    let i = skip_blank(ls, 0);
    if ls.len() > 0 && i < ls.len() {
        let sh = fpp_shapes(ls);
        let d1 = DiagramView { nodes: sh.0, next_node_id: (sh.2 + 1) as nat, ..super::fpp::empty_fpp() };
        let m = super::fpp::find_mark(ls, sh.1);
        lemma_scan_links_numbered(ls, m + 1, d1);
    }
}

/// Every node of `ns` has an identifier `id` followed by digits, whose value, when it fits
/// a `usize`, is at most `max`.
spec fn ids_at_most(ns: Seq<NodeView>, max: int) -> bool {
    forall|k: int|
        0 <= k < ns.len() ==> {
            let id = #[trigger] ns[k].id;
            &&& id.len() > 2
            &&& id[0] == 'i'
            &&& id[1] == 'd'
            &&& (parse_unsigned(id.subrange(2, id.len() as int), usize::MAX as int) matches Some(v) ==> v <= max)
        }
}

proof fn lemma_next_shape_is_header(ls: Seq<Seq<char>>, i: int)
    ensures
        ({
            let h = super::fpp::next_shape(ls, i);
            h >= i && (0 <= h < ls.len() && !contains_seq(ls[h], lines_mark()) ==> is_header_text(ls[h]))
        }),
    decreases ls.len() - i,
{
    if i < ls.len() && !is_header_text(ls[i]) && !contains_seq(ls[i], lines_mark()) {
        lemma_next_shape_is_header(ls, i + 1);
    }
}

proof fn lemma_param_end_after(ls: Seq<Seq<char>>, i: int)
    ensures
        param_end(ls, i) >= i,
    decreases ls.len() - i,
{
    if i < ls.len() && !is_header_text(trim(ls[i])) && !contains_seq(trim(ls[i]), lines_mark()) {
        lemma_param_end_after(ls, i + 1);
    }
}

proof fn lemma_skips_go_forward(ls: Seq<Seq<char>>, i: int)
    ensures
        skip_preamble(ls, i) >= i,
        skip_blank(ls, i) >= i,
    decreases ls.len() - i,
{
    if i < ls.len() {
        lemma_skips_go_forward(ls, i + 1);
    }
}

proof fn lemma_scan_ids(ls: Seq<Seq<char>>, i: int, remaining: nat, acc: Seq<NodeView>, max: int)
    requires
        i >= 0,
        ids_at_most(acc, max),
    ensures
        ({
            let r = scan_shapes(ls, i, remaining, acc, max);
            ids_at_most(r.0, r.2) && r.2 >= max
        }),
    decreases remaining,
{
    if remaining > 0 {
        let h = super::fpp::next_shape(ls, i);
        lemma_next_shape_is_header(ls, i);
        if !(h >= ls.len() || contains_seq(ls[h], lines_mark())) {
            let (node, next, num) = shape_at(ls, h);
            let p0 = if h + 12 < ls.len() {
                h + 12
            } else {
                ls.len() as int
            };
            lemma_param_end_after(ls, p0);
            let m = match num {
                Some(v) => if v > max {
                    v
                } else {
                    max
                },
                None => max,
            };
            let acc2 = acc.push(node);
            assert(node.id == trim(ls[h]));
            assert(num == parse_unsigned(node.id.subrange(2, node.id.len() as int), usize::MAX as int));
            assert(ids_at_most(acc2, m)) by {
                assert forall|k: int| 0 <= k < acc2.len() implies {
                    let id = #[trigger] acc2[k].id;
                    &&& id.len() > 2
                    &&& id[0] == 'i'
                    &&& id[1] == 'd'
                    &&& (parse_unsigned(id.subrange(2, id.len() as int), usize::MAX as int) matches Some(v) ==> v <= m)
                } by {
                    if k < acc.len() {
                        assert(acc2[k] == acc[k]);
                    } else {
                        assert(acc2[k] == node);
                    }
                }
            }
            lemma_scan_ids(ls, next, (remaining - 1) as nat, acc2, m);
        }
    }
}

proof fn lemma_scan_links_keeps_nodes(ls: Seq<Seq<char>>, i: int, d: DiagramView)
    ensures
        super::fpp::scan_links(ls, i, d).nodes == d.nodes,
        super::fpp::scan_links(ls, i, d).next_node_id == d.next_node_id,
    decreases ls.len() - i,
{
    if 0 <= i < ls.len() {
        let line = trim(ls[i]);
        if line.len() == 0 || !line.contains(',') {
            lemma_scan_links_keeps_nodes(ls, i + 1, d);
        } else {
            let j = i + 1;
            let j2 = if j < ls.len() && (trim(ls[j]).len() == 0 || crate::text::starts_with(
                trim(ls[j]),
                "reserved"@,
            )) {
                j + 1
            } else {
                j
            };
            let tagged = j2 < ls.len() && super::fpp::is_tag_line(trim(ls[j2]));
            let j3 = if tagged {
                j2 + 1
            } else {
                j2
            };
            let parts = crate::text::split(line, ',');
            let cond = if tagged {
                super::connector::BranchCondition::of_upper_tag(trim(ls[j2]))
            } else {
                super::connector::BranchCondition::Default
            };
            let d2 = super::diagram::connect(d, trim(parts[0]), trim(parts[1]), cond).0;
            lemma_scan_links_keeps_nodes(ls, j3, d2);
        }
    }
}

/// A node added to a diagram read from FPP text gets an identifier that no node read has:
/// the node counter continues after the largest identifier number read, and `add_node`
/// names the new node `id` followed by the counter.
pub proof fn law_parsed_diagram_adds_fresh_ids(content: Seq<char>)
    requires
        fpp_shapes(lines(content)).2 < usize::MAX,
    ensures
        forall|k: int|
            0 <= k < parse_fpp_view(content).nodes.len() ==> #[trigger] parse_fpp_view(content).nodes[k].id
                != super::diagram::node_id(parse_fpp_view(content).next_node_id),
{
    let ls = lines(content);
    let i = skip_blank(ls, 0);
    if ls.len() > 0 && i < ls.len() {
        let sh = fpp_shapes(ls);
        lemma_skips_go_forward(ls, 0);
        lemma_skips_go_forward(ls, i + 1);
        lemma_scan_ids(ls, skip_preamble(ls, i + 1), super::fpp::shape_count(ls[i]) as nat, Seq::empty(), 0);
        let d1 = DiagramView { nodes: sh.0, next_node_id: (sh.2 + 1) as nat, ..super::fpp::empty_fpp() };
        let m = super::fpp::find_mark(ls, sh.1);
        if m < ls.len() {
            lemma_scan_links_keeps_nodes(ls, m + 1, d1);
        }
        let d = parse_fpp_view(content);
        assert(d.nodes == sh.0 && d.next_node_id == sh.2 + 1);
        let n: nat = (sh.2 + 1) as nat;
        lemma_decimal_digits(n);
        reveal_strlit("id");
        assert forall|k: int| 0 <= k < d.nodes.len() implies #[trigger] d.nodes[k].id != super::diagram::node_id(d.next_node_id) by {
            let id = d.nodes[k].id;
            if id == super::diagram::node_id(n) {
                assert(id.subrange(2, id.len() as int) =~= decimal(n));
                assert(parse_unsigned(decimal(n), usize::MAX as int) == Some(n as int));
            }
        }
    }
}

/// Whether every line of `ls` is free of line feeds, as the lines of a text are.
spec fn lines_newline_free(ls: Seq<Seq<char>>) -> bool {
    forall|k: int| 0 <= k < ls.len() ==> newline_free(#[trigger] ls[k])
}

proof fn lemma_param_end_lines(ls: Seq<Seq<char>>, i: int)
    requires
        0 <= i <= ls.len(),
    ensures
        i <= param_end(ls, i) <= ls.len(),
        forall|j: int| i <= j < param_end(ls, i) ==> !param_stop(#[trigger] ls[j]),
    decreases ls.len() - i,
{
    if i < ls.len() && !is_header_text(trim(ls[i])) && !contains_seq(trim(ls[i]), lines_mark()) {
        lemma_param_end_lines(ls, i + 1);
        assert(!param_stop(ls[i]));
        assert forall|j: int| i <= j < param_end(ls, i) implies !param_stop(#[trigger] ls[j]) by {
            if j > i {
                assert(i + 1 <= j < param_end(ls, i + 1));
            }
        }
    }
}

proof fn lemma_empty_param()
    ensures
        fpp_param(""@),
{
    lemma_literals();
    lemma_trim_blank(""@);
    lemma_not_contains(trim(""@), lines_mark(), 0);
}

proof fn lemma_param_read(ls: Seq<Seq<char>>, p0: int, k: int)
    requires
        lines_newline_free(ls),
        0 <= p0 <= ls.len(),
        0 <= k,
    ensures
        fpp_param(super::fpp::param(ls, p0, param_end(ls, p0), k)),
{
    lemma_empty_param();
    let e = param_end(ls, p0);
    if p0 + k < e {
        lemma_param_end_lines(ls, p0);
        assert(p0 + k < ls.len());
        let l = ls[p0 + k];
        assert(!param_stop(l));
        crate::text::lemma_trim_trim(l);
        crate::text::lemma_trim_keeps_absent(l, ',');
    }
}

/// What reading shapes gives: nodes whose identifiers and parameters the format carries,
/// no more than asked for, after the nodes already read, and the largest identifier
/// number of the nodes read.
proof fn lemma_scan_shapes_facts(ls: Seq<Seq<char>>, i: int, remaining: nat, acc: Seq<NodeView>, m: int)
    requires
        i >= 0,
        lines_newline_free(ls),
        forall|k: int| 0 <= k < acc.len() ==> fpp_carried(#[trigger] acc[k]),
    ensures
        ({
            let r = scan_shapes(ls, i, remaining, acc, m);
            &&& forall|k: int| 0 <= k < r.0.len() ==> fpp_carried(#[trigger] r.0[k])
            &&& acc.len() <= r.0.len() <= acc.len() + remaining
            &&& r.0.subrange(0, acc.len() as int) == acc
            &&& r.2 == id_max(r.0.subrange(acc.len() as int, r.0.len() as int), m)
        }),
    decreases remaining,
{
    let r = scan_shapes(ls, i, remaining, acc, m);
    if remaining == 0 {
        assert(r.0.subrange(0, acc.len() as int) =~= acc);
        assert(r.0.subrange(acc.len() as int, r.0.len() as int) =~= Seq::<NodeView>::empty());
    } else {
        let h = super::fpp::next_shape(ls, i);
        lemma_next_shape_is_header(ls, i);
        if h >= ls.len() || contains_seq(ls[h], lines_mark()) {
            assert(r.0.subrange(0, acc.len() as int) =~= acc);
            assert(r.0.subrange(acc.len() as int, r.0.len() as int) =~= Seq::<NodeView>::empty());
        } else {
            let (node, next, num) = shape_at(ls, h);
            let p0 = if h + 12 < ls.len() {
                h + 12
            } else {
                ls.len() as int
            };
            let e = param_end(ls, p0);
            lemma_param_end_after(ls, p0);
            lemma_param_read(ls, p0, 0);
            lemma_param_read(ls, p0, 1);
            lemma_param_read(ls, p0, 2);
            lemma_empty_param();
            assert(header_id(node.id));
            assert(fpp_carried(node));
            let acc2 = acc.push(node);
            assert forall|k: int| 0 <= k < acc2.len() implies fpp_carried(#[trigger] acc2[k]) by {
                if k < acc.len() {
                    assert(acc2[k] == acc[k]);
                }
            }
            let m2 = raise(m, num);
            lemma_scan_shapes_facts(ls, next, (remaining - 1) as nat, acc2, m2);
            assert(r == scan_shapes(ls, next, (remaining - 1) as nat, acc2, m2));
            let tail = r.0.subrange(acc.len() as int, r.0.len() as int);
            assert(r.0.subrange(0, acc.len() as int) =~= r.0.subrange(0, acc2.len() as int).subrange(0, acc.len() as int));
            assert(r.0.subrange(0, acc.len() as int) =~= acc);
            assert(tail[0] == r.0.subrange(0, acc2.len() as int)[acc.len() as int]);
            assert(tail[0] == node);
            assert(tail.drop_first() =~= r.0.subrange(acc2.len() as int, r.0.len() as int));
            assert(num == id_number(node.id));
        }
    }
}

proof fn lemma_id_max_at_least(ns: Seq<NodeView>, m: int)
    ensures
        id_max(ns, m) >= m,
    decreases ns.len(),
{
    if ns.len() > 0 {
        lemma_id_max_at_least(ns.drop_first(), raise(m, id_number(ns[0].id)));
    }
}

/// The largest identifier number depends on the identifiers alone.
proof fn lemma_id_max_ids(a: Seq<NodeView>, b: Seq<NodeView>, m: int)
    requires
        a.len() == b.len(),
        forall|i: int| 0 <= i < a.len() ==> (#[trigger] a[i]).id == b[i].id,
    ensures
        id_max(a, m) == id_max(b, m),
    decreases a.len(),
{
    if a.len() > 0 {
        let a1 = a.drop_first();
        let b1 = b.drop_first();
        assert forall|i: int| 0 <= i < a1.len() implies (#[trigger] a1[i]).id == b1[i].id by {
            assert(a1[i] == a[i + 1]);
            assert(b1[i] == b[i + 1]);
        }
        assert(a[0].id == b[0].id);
        lemma_id_max_ids(a1, b1, raise(m, id_number(a[0].id)));
    }
}

/// Whether a connector's line `from,to` reads back as the same two fields: both are their
/// own trim, hold no line feed and no comma.
spec fn link_carried(c: ConnectorView) -> bool {
    &&& trim(c.from_id) == c.from_id
    &&& trim(c.to_id) == c.to_id
    &&& newline_free(c.from_id)
    &&& newline_free(c.to_id)
    &&& !c.from_id.contains(',')
    &&& !c.to_id.contains(',')
}

proof fn lemma_field_carried(piece: Seq<char>)
    requires
        newline_free(piece),
        !piece.contains(','),
    ensures
        trim(trim(piece)) == trim(piece),
        newline_free(trim(piece)),
        !trim(piece).contains(','),
{
    crate::text::lemma_trim_trim(piece);
    crate::text::lemma_trim_keeps_absent(piece, ',');
}

proof fn lemma_scan_links_carried(ls: Seq<Seq<char>>, i: int, d: DiagramView)
    requires
        lines_newline_free(ls),
        forall|k: int| 0 <= k < d.connectors.len() ==> link_carried(#[trigger] d.connectors[k]),
    ensures
        forall|k: int|
            0 <= k < super::fpp::scan_links(ls, i, d).connectors.len() ==> link_carried(
                #[trigger] super::fpp::scan_links(ls, i, d).connectors[k],
            ),
    decreases ls.len() - i,
{
    if 0 <= i < ls.len() {
        let line = trim(ls[i]);
        if line.len() == 0 || !line.contains(',') {
            lemma_scan_links_carried(ls, i + 1, d);
            let r = super::fpp::scan_links(ls, i + 1, d);
            assert(super::fpp::scan_links(ls, i, d) == r);
            assert forall|k: int| 0 <= k < r.connectors.len() implies link_carried(#[trigger] r.connectors[k]) by {}
        } else {
            let j = i + 1;
            let j2 = if j < ls.len() && (trim(ls[j]).len() == 0 || crate::text::starts_with(
                trim(ls[j]),
                "reserved"@,
            )) {
                j + 1
            } else {
                j
            };
            let tagged = j2 < ls.len() && super::fpp::is_tag_line(trim(ls[j2]));
            let j3 = if tagged {
                j2 + 1
            } else {
                j2
            };
            let parts = crate::text::split(line, ',');
            crate::text::lemma_trim_trim(ls[i]);
            crate::text::lemma_find_facts(line, ',');
            if crate::text::find(line, ',') < 0 {
                let w = choose|w: int| 0 <= w < line.len() && line[w] == ',';
                assert(line[w] != ',');
            }
            crate::text::lemma_split_len(line, ',');
            crate::text::lemma_split_pieces(line, ',');
            assert(!parts[0].contains(',') && newline_free(parts[0]));
            assert(!parts[1].contains(',') && newline_free(parts[1]));
            lemma_field_carried(parts[0]);
            lemma_field_carried(parts[1]);
            let cond = if tagged {
                super::connector::BranchCondition::of_upper_tag(trim(ls[j2]))
            } else {
                super::connector::BranchCondition::Default
            };
            let d2 = super::diagram::connect(d, trim(parts[0]), trim(parts[1]), cond).0;
            assert forall|k: int| 0 <= k < d2.connectors.len() implies link_carried(#[trigger] d2.connectors[k]) by {
                if k < d.connectors.len() {
                    assert(d2.connectors[k] == d.connectors[k]);
                }
            }
            lemma_scan_links_carried(ls, j3, d2);
            let r = super::fpp::scan_links(ls, j3, d2);
            assert(super::fpp::scan_links(ls, i, d) == r);
            assert forall|k: int| 0 <= k < r.connectors.len() implies link_carried(#[trigger] r.connectors[k]) by {}
        }
    } else {
        assert(super::fpp::scan_links(ls, i, d) == d);
    }
}

proof fn lemma_all_link_lines_append(a: Seq<ConnectorView>, b: Seq<ConnectorView>)
    ensures
        all_link_lines(a + b) == all_link_lines(a) + all_link_lines(b),
    decreases b.len(),
{
    if b.len() == 0 {
        assert(a + b =~= a);
        assert(all_link_lines(a) + all_link_lines(b) =~= all_link_lines(a));
    } else {
        lemma_all_link_lines_append(a, b.drop_last());
        assert((a + b).drop_last() =~= a + b.drop_last());
        assert((a + b).last() == b.last());
        assert(all_link_lines(a + b) =~= all_link_lines(a) + all_link_lines(b));
    }
}

proof fn lemma_all_link_lines_front(cs: Seq<ConnectorView>)
    requires
        cs.len() > 0,
    ensures
        all_link_lines(cs) == super::fpp::link_lines(cs[0]) + all_link_lines(cs.drop_first()),
{
    lemma_all_link_lines_append(seq![cs[0]], cs.drop_first());
    assert(seq![cs[0]] + cs.drop_first() =~= cs);
    assert(seq![cs[0]].drop_last() =~= Seq::<ConnectorView>::empty());
    assert(all_link_lines(Seq::<ConnectorView>::empty()) =~= Seq::<Seq<char>>::empty());
    assert(seq![cs[0]].last() == cs[0]);
    assert(all_link_lines(seq![cs[0]]) =~= super::fpp::link_lines(cs[0]));
}

proof fn lemma_edge_not_ws(s: Seq<char>)
    requires
        trim(s) == s,
    ensures
        s.len() == 0 || (!is_ws(s[0]) && !is_ws(s[s.len() - 1])),
{
    crate::text::lemma_trim_shape(s);
    if s.len() > 0 {
        assert(s.last() == s[s.len() - 1]);
    }
}

proof fn lemma_tag_lines()
    ensures
        line_safe("reserved 1"@),
        trim("reserved 1"@) == "reserved 1"@,
        crate::text::starts_with("reserved 1"@, "reserved"@),
        trim(""@) == ""@,
        !super::fpp::is_tag_line(""@),
        forall|c: super::connector::BranchCondition| c != super::connector::BranchCondition::Default ==> {
            &&& line_safe(#[trigger] c.tag_text())
            &&& trim(c.tag_text()) == c.tag_text()
            &&& super::fpp::is_tag_line(c.tag_text())
            &&& super::connector::BranchCondition::of_upper_tag(c.tag_text()) == c
        },
{
    reveal_strlit("reserved 1");
    reveal_strlit("reserved");
    reveal_strlit("");
    reveal_strlit("YES");
    reveal_strlit("NO");
    reveal_strlit("EVET");
    reveal_strlit("HAYIR");
    assert("reserved 1"@.subrange(0, 8) =~= "reserved"@);
    crate::text::lemma_trim_fixed("reserved 1"@);
    crate::text::lemma_trim_fixed("YES"@);
    crate::text::lemma_trim_fixed("NO"@);
    lemma_trim_blank(""@);
}

proof fn lemma_link_lines_safe(c: ConnectorView)
    requires
        link_carried(c),
    ensures
        forall|j: int| 0 <= j < super::fpp::link_lines(c).len() ==> line_safe(#[trigger] super::fpp::link_lines(c)[j]),
        trim(c.from_id + ","@ + c.to_id) == c.from_id + ","@ + c.to_id,
{
    reveal_strlit(",");
    reveal_strlit("");
    lemma_tag_lines();
    lemma_edge_not_ws(c.from_id);
    lemma_edge_not_ws(c.to_id);
    let l = c.from_id + ","@ + c.to_id;
    assert forall|k: int| 0 <= k < l.len() implies #[trigger] l[k] != '\n' by {
        if k < c.from_id.len() {
            assert(l[k] == c.from_id[k]);
        } else if k > c.from_id.len() {
            assert(l[k] == c.to_id[k - c.from_id.len() - 1]);
        }
    }
    if c.to_id.len() > 0 {
        assert(l[l.len() - 1] == c.to_id[c.to_id.len() - 1]);
    }
    if c.from_id.len() > 0 {
        assert(l[0] == c.from_id[0]);
    }
    crate::text::lemma_trim_fixed(l);
    assert(line_safe(l));
    let ll = super::fpp::link_lines(c);
    if c.condition != super::connector::BranchCondition::Default {
        assert(ll =~= seq![l, "reserved 1"@, c.condition.tag_text(), ""@]);
        assert(line_safe(c.condition.tag_text()));
    } else {
        assert(ll =~= seq![l, "reserved 1"@, ""@]);
    }
    assert forall|j: int| 0 <= j < ll.len() implies line_safe(#[trigger] ll[j]) by {
        if j == 0 {
            assert(ll[0] == l);
        } else if j == 1 {
            assert(ll[1] == "reserved 1"@);
        } else if j == ll.len() - 1 {
            assert(ll[j] == ""@);
        } else {
            assert(ll[j] == c.condition.tag_text());
        }
    }
}

proof fn lemma_all_link_lines_safe(cs: Seq<ConnectorView>)
    requires
        forall|k: int| 0 <= k < cs.len() ==> link_carried(#[trigger] cs[k]),
    ensures
        forall|j: int| 0 <= j < all_link_lines(cs).len() ==> line_safe(#[trigger] all_link_lines(cs)[j]),
    decreases cs.len(),
{
    if cs.len() > 0 {
        let pre = cs.drop_last();
        assert forall|k: int| 0 <= k < pre.len() implies link_carried(#[trigger] pre[k]) by {
            assert(pre[k] == cs[k]);
        }
        lemma_all_link_lines_safe(pre);
        assert(link_carried(cs[cs.len() - 1]));
        lemma_link_lines_safe(cs.last());
        let a = all_link_lines(pre);
        let b = super::fpp::link_lines(cs.last());
        assert forall|j: int| 0 <= j < all_link_lines(cs).len() implies line_safe(
            #[trigger] all_link_lines(cs)[j],
        ) by {
            if j < a.len() {
                assert(all_link_lines(cs)[j] == a[j]);
            } else {
                assert(all_link_lines(cs)[j] == b[j - a.len()]);
            }
        }
    }
}

proof fn lemma_link_line_fields(c: ConnectorView)
    requires
        link_carried(c),
    ensures
        crate::text::split(c.from_id + ","@ + c.to_id, ',') == seq![c.from_id, c.to_id],
        (c.from_id + ","@ + c.to_id).contains(','),
        (c.from_id + ","@ + c.to_id).len() > 0,
{
    reveal_strlit(",");
    let l = c.from_id + ","@ + c.to_id;
    let f = c.from_id.len() as int;
    assert(l[f] == ',');
    crate::text::lemma_find_facts(l, ',');
    let i = crate::text::find(l, ',');
    if i < 0 {
        assert(l[f] != ',');
    }
    if i < f {
        assert(l[i] == c.from_id[i]);
    }
    if i > f {
        assert(l[f] != ',');
    }
    assert(i == f);
    assert(l.subrange(0, f) =~= c.from_id);
    assert(l.subrange(f + 1, l.len() as int) =~= c.to_id);
    crate::text::lemma_find_facts(c.to_id, ',');
    if crate::text::find(c.to_id, ',') >= 0 {
        assert(c.to_id.contains(','));
    }
    assert(crate::text::split(c.to_id, ',') == seq![c.to_id]);
    assert(crate::text::split(l, ',') =~= seq![c.from_id] + seq![c.to_id]);
}

/// Reading the lines of connectors `cs` into `d` appends them to its connectors, as they
/// are, when each links two fields that read back, no pair repeats and their names follow
/// the line counter.
#[verifier::spinoff_prover]
#[verifier::rlimit(80)]
proof fn lemma_scan_link_blocks(ls: Seq<Seq<char>>, pre: Seq<Seq<char>>, cs: Seq<ConnectorView>, d: DiagramView)
    requires
        ls == pre + all_link_lines(cs),
        forall|k: int| 0 <= k < cs.len() ==> link_carried(#[trigger] cs[k]),
        super::diagram::links_are_simple(d.connectors + cs),
        forall|k: int| 0 <= k < cs.len() ==> (#[trigger] cs[k]).id == super::diagram::line_id(
            (d.next_line_id + k) as nat,
        ),
    ensures
        super::fpp::scan_links(ls, pre.len() as int, d) == (DiagramView {
            connectors: d.connectors + cs,
            next_line_id: d.next_line_id + cs.len(),
            ..d
        }),
    decreases cs.len(),
{
    let want = DiagramView { connectors: d.connectors + cs, next_line_id: d.next_line_id + cs.len(), ..d };
    if cs.len() == 0 {
        assert(all_link_lines(cs) =~= Seq::<Seq<char>>::empty());
        assert(ls =~= pre);
        assert(d.connectors + cs =~= d.connectors);
        assert(want =~= d);
    } else {
        let c = cs[0];
        let rest = cs.drop_first();
        lemma_all_link_lines_front(cs);
        let block = super::fpp::link_lines(c);
        let pre2 = pre + block;
        assert(ls =~= pre2 + all_link_lines(rest));
        let p = pre.len() as int;
        lemma_link_lines_safe(c);
        lemma_link_line_fields(c);
        lemma_tag_lines();
        reveal_strlit("");
        let l = c.from_id + ","@ + c.to_id;
        let tagged = c.condition != super::connector::BranchCondition::Default;
        if tagged {
            assert(block =~= seq![l, "reserved 1"@, c.condition.tag_text(), ""@]);
        } else {
            assert(block =~= seq![l, "reserved 1"@, ""@]);
        }
        assert(ls[p] == l);
        assert(ls[p + 1] == "reserved 1"@);
        let j3 = if tagged {
            p + 3
        } else {
            p + 2
        };
        assert(ls[p + 2] == block[2]);
        assert(ls[j3] == ""@);
        assert(j3 + 1 == pre2.len());
        // the connector is new: no self-loop, and no earlier link of the same pair
        let all = d.connectors + cs;
        let n = d.connectors.len() as int;
        assert(all[n] == c);
        crate::search::lemma_first_index_facts(d.connectors, super::diagram::links(c.from_id, c.to_id));
        if crate::search::first_index(d.connectors, super::diagram::links(c.from_id, c.to_id)) >= 0 {
            let f = crate::search::first_index(d.connectors, super::diagram::links(c.from_id, c.to_id));
            assert(all[f] == d.connectors[f]);
            assert(all[f].from_id == all[n].from_id && all[f].to_id == all[n].to_id);
        }
        let res = super::diagram::connect(d, c.from_id, c.to_id, c.condition);
        let d2 = res.0;
        assert(c.id == super::diagram::line_id(d.next_line_id));
        assert(d2.connectors =~= d.connectors.push(c));
        assert(d2.next_line_id == d.next_line_id + 1);
        assert(super::fpp::scan_links(ls, j3, d2) == super::fpp::scan_links(ls, j3 + 1, d2));
        assert(super::fpp::scan_links(ls, p, d) == super::fpp::scan_links(ls, j3, d2));
        assert(d2.connectors + rest =~= all);
        assert forall|k: int| 0 <= k < rest.len() implies link_carried(#[trigger] rest[k]) by {
            assert(rest[k] == cs[k + 1]);
        }
        assert forall|k: int| 0 <= k < rest.len() implies (#[trigger] rest[k]).id == super::diagram::line_id(
            (d2.next_line_id + k) as nat,
        ) by {
            assert(rest[k] == cs[k + 1]);
        }
        lemma_scan_link_blocks(ls, pre2, rest, d2);
        assert(DiagramView { connectors: d2.connectors + rest, next_line_id: d2.next_line_id + rest.len(), ..d2 } =~= want);
    }
}

proof fn lemma_int_text_breakless(v: int)
    ensures
        breakless(super::fpp::int_text(v)),
{
    reveal_strlit("-");
    if v < 0 {
        lemma_decimal_digits((-v) as nat);
        lemma_digits_breakless(decimal((-v) as nat));
        lemma_breakless_concat("-"@, decimal((-v) as nat));
    } else {
        lemma_decimal_digits(v as nat);
        lemma_digits_breakless(decimal(v as nat));
    }
}

proof fn lemma_shape_count_bound(l: Seq<char>)
    ensures
        0 <= super::fpp::shape_count(l) <= usize::MAX,
{
    if let Some(wd) = crate::text::first_word(l) {
        let dg = without_plus(wd);
        if dg.len() > 0 && all_digits(dg) {
            crate::text::lemma_digits_value_prefix(dg, dg.len() as int);
            assert(dg.take(dg.len() as int) =~= dg);
        }
    }
}

/// What a diagram read from FPP text is made of: nodes and connectors whose fields read
/// back, connectors without repeats and numbered in order, and a node counter one past
/// the largest identifier number.
proof fn lemma_parsed_facts(content: Seq<char>)
    requires
        fpp_shapes(lines(content)).2 < usize::MAX,
    ensures
        ({
            let d = parse_fpp_view(content);
            &&& forall|k: int| 0 <= k < d.nodes.len() ==> fpp_carried(#[trigger] d.nodes[k])
            &&& forall|k: int| 0 <= k < d.connectors.len() ==> link_carried(#[trigger] d.connectors[k])
            &&& super::diagram::links_are_simple(d.connectors)
            &&& super::diagram::links_numbered(d)
            &&& d.nodes.len() <= usize::MAX
            &&& 0 <= id_max(d.nodes, 0) < usize::MAX
            &&& d.next_node_id == id_max(d.nodes, 0) + 1
        }),
{
    let d = parse_fpp_view(content);
    let ls0 = lines(content);
    crate::text::lemma_lines_newline_free(content);
    assert(lines_newline_free(ls0));
    law_parsed_links_are_simple(content);
    law_parsed_links_numbered(content);
    let i0 = skip_blank(ls0, 0);
    if ls0.len() > 0 && i0 < ls0.len() {
        let sh = fpp_shapes(ls0);
        lemma_skips_go_forward(ls0, 0);
        lemma_skips_go_forward(ls0, i0 + 1);
        let sp = skip_preamble(ls0, i0 + 1);
        let count = super::fpp::shape_count(ls0[i0]);
        lemma_shape_count_bound(ls0[i0]);
        lemma_scan_shapes_facts(ls0, sp, count as nat, Seq::empty(), 0);
        assert(sh == scan_shapes(ls0, sp, count as nat, Seq::empty(), 0));
        assert(sh.0.subrange(0, sh.0.len() as int) =~= sh.0);
        assert(sh.2 == id_max(sh.0, 0));
        lemma_id_max_at_least(sh.0, 0);
        let d1 = DiagramView { nodes: sh.0, next_node_id: (sh.2 + 1) as nat, ..super::fpp::empty_fpp() };
        let m = super::fpp::find_mark(ls0, sh.1);
        if m < ls0.len() {
            lemma_scan_links_keeps_nodes(ls0, m + 1, d1);
            lemma_scan_links_carried(ls0, m + 1, d1);
        }
        assert(d.nodes == sh.0);
    } else {
        assert(d.nodes.len() == 0);
        assert(id_max(d.nodes, 0) == 0);
    }
}

/// What reading back the FPP text of `w` gives, for a diagram whose nodes and connectors
/// the format carries.
#[verifier::spinoff_prover]
proof fn lemma_read_back(w: DiagramView)
    requires
        blocks_carried(w.nodes),
        w.nodes.len() <= usize::MAX,
        forall|k: int| 0 <= k < w.connectors.len() ==> link_carried(#[trigger] w.connectors[k]),
    ensures
        ({
            let text = joined(fpp_lines(w));
            let e = parse_fpp_view(text);
            &&& fpp_shapes(lines(text)).2 == id_max(w.nodes, 0)
            &&& e.nodes.len() == w.nodes.len()
            &&& forall|i: int| 0 <= i < w.nodes.len() ==> (#[trigger] e.nodes[i]).id == w.nodes[i].id
                && e.nodes[i].node_type == w.nodes[i].node_type
            &&& forall|i: int| 0 <= i < w.nodes.len() && layout_read_back(w.nodes[i].layout) ==> (
                #[trigger] e.nodes[i]).layout == w.nodes[i].layout
            &&& forall|i: int| 0 <= i < w.nodes.len() && params_read_back(w.nodes[i]) ==> {
                let x = #[trigger] e.nodes[i];
                x.expr1 == w.nodes[i].expr1 && x.expr2 == w.nodes[i].expr2 && x.target_var
                    == w.nodes[i].target_var
            }
            &&& e.next_node_id == id_max(w.nodes, 0) + 1
            &&& (w.nodes.len() > 0 && super::diagram::links_are_simple(w.connectors)
                && super::diagram::links_numbered(w)) ==> e.connectors == w.connectors
                && e.next_line_id == w.next_line_id
        }),
{
    lemma_export_lines(w);
    let text = joined(fpp_lines(w));
    let ls = lines(text);
    let links = all_link_lines(w.connectors);
    lemma_all_link_lines_safe(w.connectors);
    lemma_lines_of_joined(links, Seq::empty());
    assert(joined(links) + Seq::<char>::empty() =~= joined(links));
    assert(lines(Seq::<char>::empty()) =~= Seq::<Seq<char>>::empty());
    assert(lines(joined(links)) =~= links);
    let post = fpp_divider() + links;
    assert(ls =~= fpp_head(w) + all_shape_lines(w.nodes) + post);
    lemma_export_opening(w, ls, post);
    lemma_divider_post(post, links);
    lemma_scan_blocks(ls, fpp_head(w), w.nodes, post, Seq::empty(), 0);
    assert(fpp_head(w).len() == 2);
    let sh = fpp_shapes(ls);
    if w.nodes.len() > 0 {
        assert(sh == scan_shapes(ls, 2, w.nodes.len(), Seq::empty(), 0));
    } else {
        assert(sh.0 == Seq::<NodeView>::empty());
        assert(sh.2 == 0);
    }
    assert(sh.0.len() == w.nodes.len());
    assert forall|k: int| 0 <= k < w.nodes.len() implies (#[trigger] sh.0[k]).id == w.nodes[k].id
        && sh.0[k].node_type == w.nodes[k].node_type && (layout_read_back(w.nodes[k].layout)
        ==> sh.0[k].layout == w.nodes[k].layout) && (params_read_back(w.nodes[k]) ==> sh.0[k].expr1
        == w.nodes[k].expr1 && sh.0[k].expr2 == w.nodes[k].expr2 && sh.0[k].target_var
        == w.nodes[k].target_var) by {
        assert(sh.0[0 + k] == sh.0[k]);
    }
    lemma_id_max_at_least(w.nodes, 0);
    let e1 = DiagramView { nodes: sh.0, next_node_id: (sh.2 + 1) as nat, ..super::fpp::empty_fpp() };
    let mk = super::fpp::find_mark(ls, sh.1);
    lemma_scan_links_keeps_nodes(ls, mk + 1, e1);
    let e = parse_fpp_view(text);
    assert(e.nodes == sh.0);
    if w.nodes.len() > 0 && super::diagram::links_are_simple(w.connectors) && super::diagram::links_numbered(w) {
        let front = fpp_head(w) + all_shape_lines(w.nodes) + fpp_divider();
        let mpos = front.len() - 1;
        assert(sh.1 == mpos);
        assert(ls =~= front + links);
        assert(ls[mpos] == post[2]);
        assert(mk == mpos);
        assert(e1.connectors + w.connectors =~= w.connectors);
        lemma_scan_link_blocks(ls, front, w.connectors, e1);
        assert(e == super::fpp::scan_links(ls, mk + 1, e1));
    }
}

/// Writing a diagram read from FPP text back in the FPP format, with any whole-number
/// coordinates, and reading that text gives as many nodes, with the same identifiers and
/// kinds in the same order, the written coordinates, and their own expressions and target
/// variables where these read back (`params_read_back`), and the same node counter; when the diagram has a node, also
/// the same connectors and the same line counter. The written text meets what `parse_fpp`
/// asks of it.
pub proof fn law_fpp_roundtrip_parsed(content: Seq<char>, coords: Seq<(i32, i32, i32, i32)>)
    requires
        fpp_shapes(lines(content)).2 < usize::MAX,
        coords.len() == parse_fpp_view(content).nodes.len(),
    ensures
        ({
            let d = parse_fpp_view(content);
            let text = joined(fpp_lines(super::fpp::with_coords(d, coords)));
            let e = parse_fpp_view(text);
            &&& fpp_shapes(lines(text)).2 < usize::MAX
            &&& e.nodes.len() == d.nodes.len()
            &&& forall|i: int| 0 <= i < d.nodes.len() ==> (#[trigger] e.nodes[i]).id == d.nodes[i].id
            &&& forall|i: int| 0 <= i < d.nodes.len() ==> (#[trigger] e.nodes[i]).node_type == d.nodes[i].node_type
            &&& forall|i: int| 0 <= i < d.nodes.len() ==> (#[trigger] e.nodes[i]).layout == super::fpp::whole_layout(coords[i])
            &&& forall|i: int| 0 <= i < d.nodes.len() && params_read_back(d.nodes[i]) ==> {
                let x = #[trigger] e.nodes[i];
                x.expr1 == d.nodes[i].expr1 && x.expr2 == d.nodes[i].expr2 && x.target_var
                    == d.nodes[i].target_var
            }
            &&& e.next_node_id == d.next_node_id
            &&& d.nodes.len() > 0 ==> e.connectors == d.connectors
            &&& d.nodes.len() > 0 ==> e.next_line_id == d.next_line_id
        }),
{
    let d = parse_fpp_view(content);
    lemma_parsed_facts(content);
    let w = super::fpp::with_coords(d, coords);
    assert forall|k: int| 0 <= k < w.nodes.len() implies fpp_carried(#[trigger] w.nodes[k]) && layout_breakless(w.nodes[k].layout)
        && layout_read_back(w.nodes[k].layout) by {
        assert(fpp_carried(d.nodes[k]));
        lemma_int_text_breakless(coords[k].0 as int);
        lemma_int_text_breakless(coords[k].1 as int);
        lemma_int_text_breakless(coords[k].2 as int);
        lemma_int_text_breakless(coords[k].3 as int);
        lemma_int_text_coord(coords[k].0 as int);
        lemma_int_text_coord(coords[k].1 as int);
        lemma_int_text_coord(coords[k].2 as int);
        lemma_int_text_coord(coords[k].3 as int);
    }
    assert(w.connectors == d.connectors);
    lemma_read_back(w);
    assert forall|k: int| 0 <= k < w.nodes.len() implies (#[trigger] w.nodes[k]).id == d.nodes[k].id by {}
    lemma_id_max_ids(w.nodes, d.nodes, 0);
    let e = parse_fpp_view(joined(fpp_lines(w)));
    assert forall|i: int| 0 <= i < d.nodes.len() implies (#[trigger] e.nodes[i]).id == d.nodes[i].id
        && e.nodes[i].node_type == d.nodes[i].node_type && e.nodes[i].layout == super::fpp::whole_layout(coords[i])
        && (params_read_back(d.nodes[i]) ==> e.nodes[i].expr1 == d.nodes[i].expr1 && e.nodes[i].expr2
        == d.nodes[i].expr2 && e.nodes[i].target_var == d.nodes[i].target_var) by {
        assert(w.nodes[i].id == d.nodes[i].id);
        assert(params_read_back(d.nodes[i]) ==> params_read_back(w.nodes[i]));
        assert(layout_read_back(w.nodes[i].layout));
    }
}

} // verus!
