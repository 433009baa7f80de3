//! The legacy FPP text format of a diagram: a count of shapes, one block of lines per
//! shape, then a `---- LINES` section listing connectors as `from,to` lines.
use vstd::prelude::*;

use super::connector::{BranchCondition, Connector, ConnectorView};
use super::diagram::{connect, Diagram, DiagramView, links, node_views};
use super::node::{is_kind_name_chars, default_fill, default_border, default_fill_color, default_border_color, Layout, LayoutView, Node, NodeType, NodeView};
use crate::search::first_index;
use crate::text::{
    decimal, decimal_chars, extend_chars, is_float_literal, is_float_literal_chars, all_digits, chars_eq, chars_of, contains_chars, contains_seq, first_word, first_word_chars, has_char, is_digit_exec, lines, lines_of, parse_unsigned, parse_unsigned_chars, slice_of, split, split_chars, starts_with, starts_with_chars, string_of, to_upper_chars, trim, trim_chars, upper_text, views,
};

verus! {

/// The marker line that opens the connector section.
pub open spec fn lines_mark() -> Seq<char> {
    "---- LINES"@
}

/// Whether a line is a shape header: after trimming, `id` followed by at least one digit
/// and nothing else.
pub open spec fn is_header_text(s: Seq<char>) -> bool {
    let t = trim(s);
    t.len() > 2 && t[0] == 'i' && t[1] == 'd' && all_digits(t.subrange(2, t.len() as int))
}

/// The line at position `j`, if there is one.
pub open spec fn opt_line(ls: Seq<Seq<char>>, j: int) -> Option<Seq<char>> {
    if 0 <= j < ls.len() {
        Some(ls[j])
    } else {
        None
    }
}

/// The first word of an optional line, or `default` when there is no line or no word.
pub open spec fn word_or(l: Option<Seq<char>>, default: Seq<char>) -> Seq<char> {
    match l {
        Some(l) => match first_word(l) {
            Some(w) => w,
            None => default,
        },
        None => default,
    }
}

/// A layout coordinate read from an optional line: its first word when that reads as a
/// number, or `default` when there is no line, no word, or a word that is no number.
pub open spec fn coord_or(l: Option<Seq<char>>, default: Seq<char>) -> Seq<char> {
    let w = word_or(l, default);
    if is_float_literal(w) {
        w
    } else {
        default
    }
}

/// The first position at or after `i` that holds a non-blank line.
pub open spec fn skip_blank(ls: Seq<Seq<char>>, i: int) -> int
    decreases ls.len() - i,
{
    if i < ls.len() && trim(ls[i]).len() == 0 {
        skip_blank(ls, i + 1)
    } else {
        i
    }
}

/// The first position at or after `i` that holds a line that is neither blank nor
/// mentions `LINES`.
pub open spec fn skip_preamble(ls: Seq<Seq<char>>, i: int) -> int
    decreases ls.len() - i,
{
    if i < ls.len() && (trim(ls[i]).len() == 0 || contains_seq(ls[i], "LINES"@)) {
        skip_preamble(ls, i + 1)
    } else {
        i
    }
}

/// The first position at or after `i` that holds a shape header or the connector marker.
pub open spec fn next_shape(ls: Seq<Seq<char>>, i: int) -> int
    decreases ls.len() - i,
{
    if i < ls.len() && !is_header_text(ls[i]) && !contains_seq(ls[i], lines_mark()) {
        next_shape(ls, i + 1)
    } else {
        i
    }
}

/// The first position at or after `i` whose trimmed line is a shape header or holds the
/// connector marker: where a shape's parameter lines end.
pub open spec fn param_end(ls: Seq<Seq<char>>, i: int) -> int
    decreases ls.len() - i,
{
    if i < ls.len() && !is_header_text(trim(ls[i])) && !contains_seq(trim(ls[i]), lines_mark()) {
        param_end(ls, i + 1)
    } else {
        i
    }
}

/// The first position at or after `i` whose line holds the connector marker.
pub open spec fn find_mark(ls: Seq<Seq<char>>, i: int) -> int
    decreases ls.len() - i,
{
    if i < ls.len() && !contains_seq(ls[i], lines_mark()) {
        find_mark(ls, i + 1)
    } else {
        i
    }
}

/// The expressions a node of kind `t` takes from its first three parameter lines.
pub open spec fn params_for(t: NodeType, p1: Seq<char>, p2: Seq<char>, p3: Seq<char>) -> (
    Seq<char>,
    Seq<char>,
    Seq<char>,
) {
    match t {
        NodeType::Start => (p1, ""@, ""@),
        NodeType::Input | NodeType::Output | NodeType::IfEqual | NodeType::IfGreater
        | NodeType::IfGreaterEqual | NodeType::IfLess | NodeType::IfLessEqual => (p1, p2, ""@),
        NodeType::Definition | NodeType::Add | NodeType::Subtract | NodeType::Multiply
        | NodeType::Divide | NodeType::Action | NodeType::Function => (p1, p2, p3),
        NodeType::Stop | NodeType::Intersection => (""@, ""@, ""@),
    }
}

/// The `k`-th parameter line of a shape whose parameters run from `p0` up to `e`, trimmed,
/// or empty when there are fewer.
pub open spec fn param(ls: Seq<Seq<char>>, p0: int, e: int, k: int) -> Seq<char> {
    if p0 + k < e {
        trim(ls[p0 + k])
    } else {
        ""@
    }
}

/// The shape number on the line after a header: the first word read as a `u32`, or 0.
pub open spec fn shape_number(l: Option<Seq<char>>) -> u32 {
    match l {
        Some(l) => match first_word(l) {
            Some(w) => match parse_unsigned(w, u32::MAX as int) {
                Some(v) => v as u32,
                None => 0u32,
            },
            None => 0u32,
        },
        None => 0u32,
    }
}

/// The kind line of a shape, trimmed, or `ACTION` when the text ends before it.
pub open spec fn kind_line(l: Option<Seq<char>>) -> Seq<char> {
    match l {
        Some(l) => trim(l),
        None => "ACTION"@,
    }
}

/// The shape whose header is at `i`: the node it describes, the position after its
/// parameter lines, and the number in its identifier when that fits a `usize`.
///
/// After the header come the shape number, left, top, width and height (first word of
/// each line), five lines that are skipped, the kind line, and then parameter lines up to
/// the next header or marker.
pub open spec fn shape_at(ls: Seq<Seq<char>>, i: int) -> (NodeView, int, Option<int>) {
    let id = trim(ls[i]);
    let type_num = shape_number(opt_line(ls, i + 1));
    let layout = LayoutView {
        left: coord_or(opt_line(ls, i + 2), "100"@),
        top: coord_or(opt_line(ls, i + 3), "100"@),
        width: coord_or(opt_line(ls, i + 4), "100"@),
        height: coord_or(opt_line(ls, i + 5), "40"@),
    };
    let kind = kind_line(opt_line(ls, i + 11));
    let t = NodeType::of_kind_line(kind, type_num);
    let p0 = if i + 12 < ls.len() {
        i + 12
    } else {
        ls.len() as int
    };
    let e = param_end(ls, p0);
    let exprs = params_for(t, param(ls, p0, e, 0), param(ls, p0, e, 1), param(ls, p0, e, 2));
    (
        NodeView {
            id,
            node_type: t,
            layout,
            fill_color: default_fill(),
            border_color: default_border(),
            label: kind,
            expr1: exprs.0,
            expr2: exprs.1,
            target_var: exprs.2,
        },
        e,
        parse_unsigned(id.subrange(2, id.len() as int), usize::MAX as int),
    )
}

/// Reads up to `remaining` more shapes from position `i`, after `acc` and with `max_id` the
/// largest identifier number so far: the shapes, where reading stopped, and the largest
/// identifier number.
pub open spec fn scan_shapes(
    ls: Seq<Seq<char>>,
    i: int,
    remaining: nat,
    acc: Seq<NodeView>,
    max_id: int,
) -> (Seq<NodeView>, int, int)
    decreases remaining,
{
    if remaining == 0 {
        (acc, i, max_id)
    } else {
        let h = next_shape(ls, i);
        if h >= ls.len() || contains_seq(ls[h], lines_mark()) {
            (acc, h, max_id)
        } else {
            let (node, next, num) = shape_at(ls, h);
            let m = match num {
                Some(v) => if v > max_id {
                    v
                } else {
                    max_id
                },
                None => max_id,
            };
            scan_shapes(ls, next, (remaining - 1) as nat, acc.push(node), m)
        }
    }
}

/// Whether a trimmed line is a branch tag.
pub open spec fn is_tag_line(s: Seq<char>) -> bool {
    s == "YES"@ || s == "NO"@ || s == "EVET"@ || s == "HAYIR"@
}

/// Reads the connector lines from position `i` into `d`: each non-blank line with a comma
/// links the first two comma-separated fields; a following blank or `reserved` line is
/// skipped, and a following tag line gives the branch.
pub open spec fn scan_links(ls: Seq<Seq<char>>, i: int, d: DiagramView) -> DiagramView
    decreases ls.len() - i,
{
    if i < 0 || i >= ls.len() {
        d
    } else {
        let line = trim(ls[i]);
        let j = i + 1;
        if line.len() == 0 || !line.contains(',') {
            scan_links(ls, j, d)
        } else {
            let parts = split(line, ',');
            let from = trim(parts[0]);
            let to = trim(parts[1]);
            let j2 = if j < ls.len() && (trim(ls[j]).len() == 0 || starts_with(
                trim(ls[j]),
                "reserved"@,
            )) {
                j + 1
            } else {
                j
            };
            let tagged = j2 < ls.len() && is_tag_line(trim(ls[j2]));
            let cond = if tagged {
                BranchCondition::of_upper_tag(trim(ls[j2]))
            } else {
                BranchCondition::Default
            };
            let j3 = if tagged {
                j2 + 1
            } else {
                j2
            };
            scan_links(ls, j3, connect(d, from, to, cond).0)
        }
    }
}

/// The diagram that an empty FPP text gives.
pub open spec fn empty_fpp() -> DiagramView {
    DiagramView {
        title: "FPP Diagram"@,
        nodes: Seq::empty(),
        connectors: Seq::empty(),
        next_node_id: 1,
        next_line_id: 1,
    }
}

/// The number of shapes an FPP text announces on its first non-blank line.
pub open spec fn shape_count(l: Seq<char>) -> int {
    match first_word(l) {
        Some(w) => match parse_unsigned(w, usize::MAX as int) {
            Some(v) => v,
            None => 0,
        },
        None => 0,
    }
}

/// The shapes of an FPP text, where reading them stopped, and the largest identifier number.
pub open spec fn fpp_shapes(ls: Seq<Seq<char>>) -> (Seq<NodeView>, int, int) {
    let i = skip_blank(ls, 0);
    if i >= ls.len() {
        (Seq::empty(), i, 0)
    } else {
        scan_shapes(ls, skip_preamble(ls, i + 1), shape_count(ls[i]) as nat, Seq::empty(), 0)
    }
}

/// The diagram an FPP text describes.
pub open spec fn parse_fpp_view(content: Seq<char>) -> DiagramView {
    let ls = lines(content);
    let i = skip_blank(ls, 0);
    if ls.len() == 0 || i >= ls.len() {
        empty_fpp()
    } else {
        let (nodes, k, max_id) = fpp_shapes(ls);
        let d1 = DiagramView { nodes, next_node_id: (max_id + 1) as nat, ..empty_fpp() };
        let m = find_mark(ls, k);
        if m < ls.len() {
            scan_links(ls, m + 1, d1)
        } else {
            d1
        }
    }
}


/// Whether a line is a shape header: after trimming, `id` followed by at least one digit
/// and nothing else.
pub fn is_id_header(line: &str) -> (r: bool)
    ensures
        r == is_header_text(line@),
{
    is_header_chars(&chars_of(line))
}

fn is_header_chars(s: &Vec<char>) -> (r: bool)
    ensures
        r == is_header_text(s@),
{
    let t = trim_chars(s);
    if t.len() <= 2 || t[0] != 'i' || t[1] != 'd' {
        return false;
    }
    let mut k: usize = 2;
    while k < t.len()
        invariant
            2 <= k <= t.len(),
            t@ == trim(s@),
            t@.len() > 2,
            t@[0] == 'i',
            t@[1] == 'd',
            forall|j: int| 2 <= j < k ==> crate::text::is_digit(#[trigger] t@[j]),
        decreases t.len() - k,
    {
        if !is_digit_exec(t[k]) {
            assert(t@.subrange(2, t@.len() as int)[k - 2] == t@[k as int]);
            assert(!crate::text::is_digit(t@.subrange(2, t@.len() as int)[k - 2]));
            return false;
        }
        k = k + 1;
    }
    assert(all_digits(t@.subrange(2, t@.len() as int))) by {
        assert forall|j: int| 0 <= j < t@.len() - 2 implies crate::text::is_digit(
            #[trigger] t@.subrange(2, t@.len() as int)[j],
        ) by {
            assert(t@.subrange(2, t@.len() as int)[j] == t@[j + 2]);
        }
    }
    true
}

fn is_tag_chars(s: &Vec<char>) -> (r: bool)
    ensures
        r == is_tag_line(s@),
{
    chars_eq(s, &chars_of("YES")) || chars_eq(s, &chars_of("NO")) || chars_eq(s, &chars_of("EVET"))
        || chars_eq(s, &chars_of("HAYIR"))
}

fn skip_blank_exec(ls: &Vec<Vec<char>>, start: usize) -> (r: usize)
    requires
        start <= ls.len(),
    ensures
        r as int == skip_blank(views(ls@), start as int),
        start <= r <= ls.len(),
{
    let ghost l = views(ls@);
    let mut i: usize = start;
    while i < ls.len() && trim_chars(&ls[i]).len() == 0
        invariant
            start <= i <= ls.len(),
            l == views(ls@),
            skip_blank(l, i as int) == skip_blank(l, start as int),
        decreases ls.len() - i,
    {
        i = i + 1;
    }
    i
}

fn skip_preamble_exec(ls: &Vec<Vec<char>>, start: usize) -> (r: usize)
    requires
        start <= ls.len(),
    ensures
        r as int == skip_preamble(views(ls@), start as int),
        start <= r <= ls.len(),
{
    let ghost l = views(ls@);
    let lines_word = chars_of("LINES");
    let mut i: usize = start;
    while i < ls.len() && (trim_chars(&ls[i]).len() == 0 || contains_chars(&ls[i], &lines_word))
        invariant
            start <= i <= ls.len(),
            l == views(ls@),
            lines_word@ == "LINES"@,
            skip_preamble(l, i as int) == skip_preamble(l, start as int),
        decreases ls.len() - i,
    {
        i = i + 1;
    }
    i
}

fn next_shape_exec(ls: &Vec<Vec<char>>, start: usize) -> (r: usize)
    requires
        start <= ls.len(),
    ensures
        r as int == next_shape(views(ls@), start as int),
        start <= r <= ls.len(),
        r < ls.len() ==> is_header_text(views(ls@)[r as int]) || contains_seq(views(ls@)[r as int], lines_mark()),
{
    let ghost l = views(ls@);
    let mark = chars_of("---- LINES");
    let mut i: usize = start;
    while i < ls.len() && !is_header_chars(&ls[i]) && !contains_chars(&ls[i], &mark)
        invariant
            start <= i <= ls.len(),
            l == views(ls@),
            mark@ == lines_mark(),
            next_shape(l, i as int) == next_shape(l, start as int),
        decreases ls.len() - i,
    {
        i = i + 1;
    }
    i
}

fn param_end_exec(ls: &Vec<Vec<char>>, start: usize) -> (r: usize)
    requires
        start <= ls.len(),
    ensures
        r as int == param_end(views(ls@), start as int),
        start <= r <= ls.len(),
{
    let ghost l = views(ls@);
    let mark = chars_of("---- LINES");
    let mut i: usize = start;
    while i < ls.len() && !is_header_chars(&trim_chars(&ls[i])) && !contains_chars(&trim_chars(&ls[i]), &mark)
        invariant
            start <= i <= ls.len(),
            l == views(ls@),
            mark@ == lines_mark(),
            param_end(l, i as int) == param_end(l, start as int),
        decreases ls.len() - i,
    {
        i = i + 1;
    }
    i
}

fn find_mark_exec(ls: &Vec<Vec<char>>, start: usize) -> (r: usize)
    requires
        start <= ls.len(),
    ensures
        r as int == find_mark(views(ls@), start as int),
        start <= r <= ls.len(),
{
    let ghost l = views(ls@);
    let mark = chars_of("---- LINES");
    let mut i: usize = start;
    while i < ls.len() && !contains_chars(&ls[i], &mark)
        invariant
            start <= i <= ls.len(),
            l == views(ls@),
            mark@ == lines_mark(),
            find_mark(l, i as int) == find_mark(l, start as int),
        decreases ls.len() - i,
    {
        i = i + 1;
    }
    i
}

fn word_at(ls: &Vec<Vec<char>>, j: usize, default: &str) -> (r: Vec<char>)
    ensures
        r@ == word_or(opt_line(views(ls@), j as int), default@),
{
    if j < ls.len() {
        match first_word_chars(&ls[j]) {
            Some(w) => w,
            None => chars_of(default),
        }
    } else {
        chars_of(default)
    }
}

fn shape_number_at(ls: &Vec<Vec<char>>, j: usize) -> (r: u32)
    ensures
        r == shape_number(opt_line(views(ls@), j as int)),
{
    if j < ls.len() {
        match first_word_chars(&ls[j]) {
            Some(w) => match parse_unsigned_chars(&w, 0xffff_ffff) {
                Some(v) => {
                    assert(parse_unsigned(w@, u32::MAX as int) == Some(v as int));
                    v as u32
                },
                None => {
                    assert(parse_unsigned(w@, u32::MAX as int) is None);
                    0
                },
            },
            None => 0,
        }
    } else {
        0
    }
}

fn param_at(ls: &Vec<Vec<char>>, p0: usize, e: usize, k: usize) -> (r: Vec<char>)
    requires
        e <= ls.len(),
        k <= 2,
    ensures
        r@ == param(views(ls@), p0 as int, e as int, k as int),
{
    if p0 < e && k < e - p0 {
        trim_chars(&ls[p0 + k])
    } else {
        chars_of("")
    }
}

fn params_for_exec(t: NodeType, p1: Vec<char>, p2: Vec<char>, p3: Vec<char>) -> (r: (Vec<char>, Vec<char>, Vec<char>))
    ensures
        (r.0@, r.1@, r.2@) == params_for(t, p1@, p2@, p3@),
{
    match t {
        NodeType::Start => (p1, chars_of(""), chars_of("")),
        NodeType::Input | NodeType::Output | NodeType::IfEqual | NodeType::IfGreater
        | NodeType::IfGreaterEqual | NodeType::IfLess | NodeType::IfLessEqual => (p1, p2, chars_of("")),
        NodeType::Definition | NodeType::Add | NodeType::Subtract | NodeType::Multiply
        | NodeType::Divide | NodeType::Action | NodeType::Function => (p1, p2, p3),
        NodeType::Stop | NodeType::Intersection => (chars_of(""), chars_of(""), chars_of("")),
    }
}

/// Position `i + k`, or the number of lines when that is past the end.
fn line_after(ls: &Vec<Vec<char>>, i: usize, k: usize) -> (r: usize)
    requires
        i < ls.len(),
    ensures
        r as int == (if i + k < ls.len() { i + k } else { ls.len() as int }),
        opt_line(views(ls@), r as int) == opt_line(views(ls@), i + k),
{
    if k < ls.len() - i {
        i + k
    } else {
        ls.len()
    }
}

fn coord_at(ls: &Vec<Vec<char>>, j: usize, default: &str) -> (r: Vec<char>)
    ensures
        r@ == coord_or(opt_line(views(ls@), j as int), default@),
{
    let w = word_at(ls, j, default);
    if is_float_literal_chars(&w) {
        w
    } else {
        chars_of(default)
    }
}

fn read_shape(ls: &Vec<Vec<char>>, i: usize) -> (r: (Node, usize, Option<u64>))
    requires
        i < ls.len(),
        is_header_text(ls@[i as int]@),
    ensures
        r.0@ == shape_at(views(ls@), i as int).0,
        r.1 as int == shape_at(views(ls@), i as int).1,
        r.1 <= ls.len(),
        match r.2 {
            Some(v) => shape_at(views(ls@), i as int).2 == Some(v as int),
            None => shape_at(views(ls@), i as int).2 is None,
        },
{
    let ghost l = views(ls@);
    let id = trim_chars(&ls[i]);
    let type_num = shape_number_at(ls, line_after(ls, i, 1));
    let left = coord_at(ls, line_after(ls, i, 2), "100");
    let top = coord_at(ls, line_after(ls, i, 3), "100");
    let width = coord_at(ls, line_after(ls, i, 4), "100");
    let height = coord_at(ls, line_after(ls, i, 5), "40");
    let kind_pos = line_after(ls, i, 11);
    let kind = if kind_pos < ls.len() {
        trim_chars(&ls[kind_pos])
    } else {
        chars_of("ACTION")
    };
    assert(kind@ == kind_line(opt_line(l, i + 11)));
    let t = if is_kind_name_chars(&kind) {
        NodeType::from_upper_kind(&kind, type_num)
    } else {
        NodeType::from_upper_kind(&to_upper_chars(&trim_chars(&kind)), type_num)
    };
    let p0: usize = line_after(ls, i, 12);
    let e = param_end_exec(ls, p0);
    let (e1, e2, e3) = params_for_exec(t, param_at(ls, p0, e, 0), param_at(ls, p0, e, 1), param_at(ls, p0, e, 2));
    let digits = slice_of(&id, 2, id.len());
    let num = parse_unsigned_chars(&digits, usize::MAX as u64);
    assert(digits@ == id@.subrange(2, id@.len() as int));
    match num {
        Some(v) => {
            assert(parse_unsigned(digits@, usize::MAX as int) == Some(v as int));
        },
        None => {
            assert(parse_unsigned(digits@, usize::MAX as int) is None);
        },
    }
    let node = Node {
        id: string_of(&id),
        node_type: t,
        layout: Layout {
            left: string_of(&left),
            top: string_of(&top),
            width: string_of(&width),
            height: string_of(&height),
        },
        fill_color: default_fill_color(),
        border_color: default_border_color(),
        label: string_of(&kind),
        expr1: string_of(&e1),
        expr2: string_of(&e2),
        target_var: string_of(&e3),
    };
    (node, e, num)
}

impl Diagram {
    /// Reads a diagram in the legacy FPP format.
    ///
    /// The first non-blank line gives the number of shapes; lines after it that are blank
    /// or mention `LINES` are skipped. Each shape starts at a header line (`id` and a
    /// number) and is read as `shape_at` describes, until that many shapes are read or the
    /// `---- LINES` marker comes. After the marker, each line `from,to` adds a connector as
    /// `add_connector` does, with the branch from a `YES`/`NO` line that may follow. The
    /// node counter continues after the largest identifier number read. The text is never
    /// refused.
    pub fn parse_fpp(content: &str) -> (r: Result<Diagram, String>)
        requires
            fpp_shapes(lines(content@)).2 < usize::MAX,
        ensures
            r is Ok,
            r matches Ok(d) ==> d@ == parse_fpp_view(content@),
    {
        match Diagram::read_fpp(content) {
            Some(d) => Ok(d),
            None => Ok(Diagram::new("FPP Diagram")),
        }
    }

    /// Reads a diagram in the legacy FPP format as `parse_fpp` does, or gives `None` when
    /// the largest identifier number read is the largest `usize`, so that the node counter
    /// cannot continue after it.
    pub fn read_fpp(content: &str) -> (r: Option<Diagram>)
        ensures
            match r {
                Some(d) => fpp_shapes(lines(content@)).2 < usize::MAX && d@ == parse_fpp_view(content@),
                None => fpp_shapes(lines(content@)).2 >= usize::MAX,
            },
    {
        let mut diagram = Diagram::new("FPP Diagram");
        let ls = lines_of(&chars_of(content));
        let ghost l = views(ls@);
        assert(l == lines(content@));
        if ls.len() == 0 {
            return Some(diagram);
        }
        let start = skip_blank_exec(&ls, 0);
        if start >= ls.len() {
            return Some(diagram);
        }
        let num_shapes: usize = match first_word_chars(&ls[start]) {
            Some(w) => match parse_unsigned_chars(&w, usize::MAX as u64) {
                Some(v) => {
                    assert(parse_unsigned(w@, usize::MAX as int) == Some(v as int));
                    v as usize
                },
                None => {
                    assert(parse_unsigned(w@, usize::MAX as int) is None);
                    0
                },
            },
            None => 0,
        };
        assert(num_shapes as int == shape_count(l[start as int]));
        let mut idx = skip_preamble_exec(&ls, start + 1);
        let mut max_id: u64 = 0;
        let mut k: usize = 0;
        let mut done: bool = false;
        assert(node_views(diagram.nodes@) =~= Seq::<NodeView>::empty());
        while k < num_shapes && !done
            invariant
                done ==> k < num_shapes,
                done ==> idx >= ls.len() || contains_seq(l[idx as int], lines_mark()),
                l == views(ls@),
                k <= num_shapes,
                idx <= ls.len(),
                max_id <= usize::MAX,
                diagram.title@ == "FPP Diagram"@,
                diagram@.connectors == Seq::<ConnectorView>::empty(),
                diagram.next_node_id == 1,
                diagram.next_line_id == 1,
                scan_shapes(l, idx as int, (num_shapes - k) as nat, node_views(diagram.nodes@), max_id as int)
                    == fpp_shapes(l),
            decreases num_shapes - k + (if done { 0int } else { 1int }),
        {
            let h = next_shape_exec(&ls, idx);
            if h >= ls.len() || contains_chars(&ls[h], &chars_of("---- LINES")) {
                idx = h;
                done = true;
                continue;
            }
            let (node, next, num) = read_shape(&ls, h);
            match num {
                Some(v) => {
                    if v > max_id {
                        max_id = v;
                    }
                },
                None => {},
            }
            let ghost before = diagram.nodes@;
            diagram.nodes.push(node);
            assert(node_views(diagram.nodes@) =~= node_views(before).push(shape_at(l, h as int).0));
            idx = next;
            k = k + 1;
        }
        assert(scan_shapes(l, idx as int, (num_shapes - k) as nat, node_views(diagram.nodes@), max_id as int)
            == (node_views(diagram.nodes@), idx as int, max_id as int));
        if max_id >= usize::MAX as u64 {
            return None;
        }
        diagram.next_node_id = (max_id + 1) as usize;
        let m = find_mark_exec(&ls, idx);
        if m >= ls.len() {
            return Some(diagram);
        }
        let mut i: usize = m + 1;
        let reserved = chars_of("reserved");
        while i < ls.len()
            invariant
                l == views(ls@),
                m < i <= ls.len(),
                reserved@ == "reserved"@,
                diagram.next_line_id <= i,
                scan_links(l, i as int, diagram@) == parse_fpp_view(content@),
            decreases ls.len() - i,
        {
            let line = trim_chars(&ls[i]);
            let j: usize = i + 1;
            if line.len() == 0 || !has_char(&line, ',') {
                i = j;
                continue;
            }
            let parts = split_chars(&line, ',');
            proof {
                crate::text::lemma_split_len(line@, ',');
            }
            let from = trim_chars(&parts[0]);
            let to = trim_chars(&parts[1]);
            let mut j2: usize = j;
            if j < ls.len() {
                let nl = trim_chars(&ls[j]);
                if nl.len() == 0 || starts_with_chars(&nl, &reserved) {
                    j2 = j + 1;
                }
            }
            let mut cond = BranchCondition::Default;
            let mut j3: usize = j2;
            if j2 < ls.len() {
                let nl = trim_chars(&ls[j2]);
                if is_tag_chars(&nl) {
                    cond = BranchCondition::from_upper_tag(&nl);
                    j3 = j2 + 1;
                }
            }
            let from_s = string_of(&from);
            let to_s = string_of(&to);
            diagram.add_connector(from_s.as_str(), to_s.as_str(), cond);
            i = j3;
        }
        Some(diagram)
    }

    /// Writes the diagram in the legacy FPP format, line by line as `fpp_lines` lists them,
    /// with the `i`-th node drawn at the whole-number coordinates `coords[i]` (left, top,
    /// width, height): the editor's coordinates, truncated.
    pub fn export_fpp(&self, coords: &Vec<(i32, i32, i32, i32)>) -> (r: String)
        requires
            coords.len() == self.nodes.len(),
        ensures
            r@ == joined(fpp_lines(with_coords(self@, coords@))),
    {
        let ghost d = with_coords(self@, coords@);
        let mut out: Vec<char> = Vec::new();
        let ghost mut acc: Seq<Seq<char>> = Seq::empty();
        push_line(&mut out, Ghost(acc), &tagged(&decimal_chars(self.nodes.len() as u64), "SHAPES"));
        proof { acc = acc.push(tagged_text(decimal(self.nodes.len() as nat), "SHAPES"@)); }
        push_line(&mut out, Ghost(acc), &tagged(&decimal_chars(self.connectors.len() as u64), "LINES"));
        proof { acc = acc.push(tagged_text(decimal(self.connectors.len() as nat), "LINES"@)); }
        assert(acc =~= fpp_head(d));
        let mut i: usize = 0;
        while i < self.nodes.len()
            invariant
                d == with_coords(self@, coords@),
                coords.len() == self.nodes.len(),
                i <= self.nodes.len(),
                acc == fpp_head(d) + all_shape_lines(d.nodes.take(i as int)),
                out@ == joined(acc),
            decreases self.nodes.len() - i,
        {
            let n = &self.nodes[i];
            let ghost nv = d.nodes[i as int];
            assert(nv == NodeView { layout: whole_layout(coords@[i as int]), ..n@ });
            let ghost before = acc;
            let block = shape_lines_exec(n, coords[i]);
            let mut j: usize = 0;
            while j < block.len()
                invariant
                    j <= block.len(),
                    views(block@) == shape_lines(nv),
                    acc == before + shape_lines(nv).take(j as int),
                    out@ == joined(acc),
                decreases block.len() - j,
            {
                push_line(&mut out, Ghost(acc), &block[j]);
                proof {
                    assert(before + shape_lines(nv).take(j + 1) =~= (before + shape_lines(nv).take(j as int)).push(shape_lines(nv)[j as int]));
                    acc = acc.push(shape_lines(nv)[j as int]);
                }
                j = j + 1;
            }
            assert(shape_lines(nv).take(block.len() as int) =~= shape_lines(nv));
            assert(d.nodes.take(i + 1).drop_last() =~= d.nodes.take(i as int));
            assert(all_shape_lines(d.nodes.take(i + 1)) == all_shape_lines(d.nodes.take(i as int)) + shape_lines(nv));
            assert(acc =~= fpp_head(d) + all_shape_lines(d.nodes.take(i + 1)));
            i = i + 1;
        }
        assert(d.nodes.take(self.nodes.len() as int) =~= d.nodes);
        push_line(&mut out, Ghost(acc), &chars_of(""));
        proof { acc = acc.push(""@); }
        push_line(&mut out, Ghost(acc), &chars_of("  "));
        proof { acc = acc.push("  "@); }
        push_line(&mut out, Ghost(acc), &chars_of("---- LINES ---- from,to ----"));
        proof { acc = acc.push("---- LINES ---- from,to ----"@); }
        let ghost mid = acc;
        assert(mid =~= fpp_head(d) + all_shape_lines(d.nodes) + fpp_divider());
        let mut i: usize = 0;
        while i < self.connectors.len()
            invariant
                d == with_coords(self@, coords@),
                i <= self.connectors.len(),
                acc == mid + all_link_lines(d.connectors.take(i as int)),
                out@ == joined(acc),
            decreases self.connectors.len() - i,
        {
            let c = &self.connectors[i];
            let ghost cv = d.connectors[i as int];
            assert(cv == c@);
            let ghost before = acc;
            let block = link_lines_exec(c);
            let mut j: usize = 0;
            while j < block.len()
                invariant
                    j <= block.len(),
                    views(block@) == link_lines(cv),
                    acc == before + link_lines(cv).take(j as int),
                    out@ == joined(acc),
                decreases block.len() - j,
            {
                push_line(&mut out, Ghost(acc), &block[j]);
                proof {
                    assert(before + link_lines(cv).take(j + 1) =~= (before + link_lines(cv).take(j as int)).push(link_lines(cv)[j as int]));
                    acc = acc.push(link_lines(cv)[j as int]);
                }
                j = j + 1;
            }
            assert(link_lines(cv).take(block.len() as int) =~= link_lines(cv));
            assert(d.connectors.take(i + 1).drop_last() =~= d.connectors.take(i as int));
            assert(all_link_lines(d.connectors.take(i + 1)) == all_link_lines(d.connectors.take(i as int)) + link_lines(cv));
            assert(acc =~= mid + all_link_lines(d.connectors.take(i + 1)));
            i = i + 1;
        }
        assert(d.connectors.take(self.connectors.len() as int) =~= d.connectors);
        assert(acc =~= fpp_lines(d));
        string_of(&out)
    }
}

/// The text of a list of lines, each followed by a newline.
pub open spec fn joined(ls: Seq<Seq<char>>) -> Seq<char>
    decreases ls.len(),
{
    if ls.len() == 0 {
        Seq::empty()
    } else {
        ls[0] + seq!['\n'] + joined(ls.drop_first())
    }
}

pub proof fn lemma_joined_push(ls: Seq<Seq<char>>, x: Seq<char>)
    ensures
        joined(ls.push(x)) == joined(ls) + x + seq!['\n'],
    decreases ls.len(),
{
    if ls.len() == 0 {
        assert(ls.push(x).drop_first() =~= Seq::<Seq<char>>::empty());
        assert(joined(Seq::<Seq<char>>::empty()) =~= Seq::<char>::empty());
        assert(ls.push(x)[0] == x);
        assert(joined(ls) =~= Seq::<char>::empty());
        assert(joined(ls.push(x)) =~= x + seq!['\n']);
    } else {
        lemma_joined_push(ls.drop_first(), x);
        assert(ls.push(x).drop_first() =~= ls.drop_first().push(x));
        assert(joined(ls.push(x)) =~= joined(ls) + x + seq!['\n']);
    }
}

fn push_line(out: &mut Vec<char>, Ghost(acc): Ghost<Seq<Seq<char>>>, line: &Vec<char>)
    requires
        old(out)@ == joined(acc),
    ensures
        final(out)@ == joined(acc.push(line@)),
{
    proof {
        lemma_joined_push(acc, line@);
    }
    extend_chars(out, line);
    out.push('\n');
    assert(final(out)@ =~= joined(acc) + line@ + seq!['\n']);
}

/// A value line of a shape block: the value, padding, and an arrow with the field's name.
pub open spec fn tagged_text(value: Seq<char>, tag: Seq<char>) -> Seq<char> {
    value + "       \t <--"@ + tag
}

fn tagged(value: &Vec<char>, tag: &str) -> (r: Vec<char>)
    ensures
        r@ == tagged_text(value@, tag@),
{
    let mut r = slice_of(value, 0, value.len());
    extend_chars(&mut r, &chars_of("       \t <--"));
    extend_chars(&mut r, &chars_of(tag));
    assert(r@ =~= tagged_text(value@, tag@));
    r
}

/// The shape number written for a node kind.
pub open spec fn fpp_type_number(t: NodeType) -> nat {
    match t {
        NodeType::Start | NodeType::Stop => 2,
        NodeType::Intersection => 3,
        NodeType::Output => 91,
        NodeType::IfEqual | NodeType::IfGreater | NodeType::IfGreaterEqual | NodeType::IfLess
        | NodeType::IfLessEqual => 92,
        NodeType::Function => 93,
        _ => 0,
    }
}

/// The decimal text of an integer, with a minus sign when it is negative.
pub open spec fn int_text(v: int) -> Seq<char> {
    if v < 0 {
        "-"@ + decimal((-v) as nat)
    } else {
        decimal(v as nat)
    }
}

/// The layout of the whole-number coordinates `c`: left, top, width and height.
pub open spec fn whole_layout(c: (i32, i32, i32, i32)) -> LayoutView {
    LayoutView {
        left: int_text(c.0 as int),
        top: int_text(c.1 as int),
        width: int_text(c.2 as int),
        height: int_text(c.3 as int),
    }
}

/// `d` with the layout of its `i`-th node set to the whole-number coordinates `cs[i]`.
pub open spec fn with_coords(d: DiagramView, cs: Seq<(i32, i32, i32, i32)>) -> DiagramView {
    DiagramView {
        nodes: Seq::new(d.nodes.len(), |i: int| NodeView { layout: whole_layout(cs[i]), ..d.nodes[i] }),
        ..d
    }
}

fn int_text_chars(v: i32) -> (r: Vec<char>)
    ensures
        r@ == int_text(v as int),
{
    if v < 0 {
        let w: i64 = v as i64;
        let u: u64 = (-w) as u64;
        let mut r = chars_of("-");
        extend_chars(&mut r, &decimal_chars(u));
        r
    } else {
        decimal_chars(v as u64)
    }
}

/// A line for a text that is written only when it is not empty.
pub open spec fn opt_lines(e: Seq<char>) -> Seq<Seq<char>> {
    if e.len() == 0 {
        Seq::empty()
    } else {
        seq![e]
    }
}

/// The lines of one shape block.
pub open spec fn shape_lines(n: NodeView) -> Seq<Seq<char>> {
    seq![
        n.id,
        tagged_text(decimal(fpp_type_number(n.node_type)), "TYPE"@),
        tagged_text(n.layout.left, "LEFT"@),
        tagged_text(n.layout.top, "TOP"@),
        tagged_text(n.layout.width, "WIDTH"@),
        tagged_text(n.layout.height, "HEIGHT"@),
        "16777215       \t <--BACKCOLOR"@,
        "0       \t <--BORDERCOLOR"@,
        "0       \t <--BORDERCOLOR"@,
        "-reserved 1-"@,
        "-reserved 2-"@,
        n.node_type.code_text(),
    ] + opt_lines(n.expr1) + opt_lines(n.expr2) + opt_lines(n.target_var) + seq![""@]
}

/// The lines of the shape blocks of `ns`, in order.
pub open spec fn all_shape_lines(ns: Seq<NodeView>) -> Seq<Seq<char>>
    decreases ns.len(),
{
    if ns.len() == 0 {
        Seq::empty()
    } else {
        all_shape_lines(ns.drop_last()) + shape_lines(ns.last())
    }
}

/// The lines of one connector: `from,to`, a reserved line, the branch tag unless it is the
/// default branch, and a blank line.
pub open spec fn link_lines(c: ConnectorView) -> Seq<Seq<char>> {
    seq![c.from_id + ","@ + c.to_id, "reserved 1"@] + (if c.condition != BranchCondition::Default {
        seq![c.condition.tag_text()]
    } else {
        Seq::empty()
    }) + seq![""@]
}

/// The lines of the connectors `cs`, in order.
pub open spec fn all_link_lines(cs: Seq<ConnectorView>) -> Seq<Seq<char>>
    decreases cs.len(),
{
    if cs.len() == 0 {
        Seq::empty()
    } else {
        all_link_lines(cs.drop_last()) + link_lines(cs.last())
    }
}

/// The two count lines that open an FPP text.
pub open spec fn fpp_head(d: DiagramView) -> Seq<Seq<char>> {
    seq![
        tagged_text(decimal(d.nodes.len()), "SHAPES"@),
        tagged_text(decimal(d.connectors.len()), "LINES"@),
    ]
}

/// The lines between the shapes and the connectors.
pub open spec fn fpp_divider() -> Seq<Seq<char>> {
    seq![""@, "  "@, "---- LINES ---- from,to ----"@]
}

/// The lines of the FPP text of a diagram.
pub open spec fn fpp_lines(d: DiagramView) -> Seq<Seq<char>> {
    fpp_head(d) + all_shape_lines(d.nodes) + fpp_divider() + all_link_lines(d.connectors)
}

fn shape_lines_exec(n: &Node, c: (i32, i32, i32, i32)) -> (r: Vec<Vec<char>>)
    ensures
        views(r@) == shape_lines(NodeView { layout: whole_layout(c), ..n@ }),
{
    let mut r: Vec<Vec<char>> = Vec::new();
    r.push(chars_of(n.id.as_str()));
    let type_num: u64 = match n.node_type {
        NodeType::Start | NodeType::Stop => 2,
        NodeType::Intersection => 3,
        NodeType::Output => 91,
        NodeType::IfEqual | NodeType::IfGreater | NodeType::IfGreaterEqual | NodeType::IfLess
        | NodeType::IfLessEqual => 92,
        NodeType::Function => 93,
        _ => 0,
    };
    r.push(tagged(&decimal_chars(type_num), "TYPE"));
    r.push(tagged(&int_text_chars(c.0), "LEFT"));
    r.push(tagged(&int_text_chars(c.1), "TOP"));
    r.push(tagged(&int_text_chars(c.2), "WIDTH"));
    r.push(tagged(&int_text_chars(c.3), "HEIGHT"));
    r.push(chars_of("16777215       \t <--BACKCOLOR"));
    r.push(chars_of("0       \t <--BORDERCOLOR"));
    r.push(chars_of("0       \t <--BORDERCOLOR"));
    r.push(chars_of("-reserved 1-"));
    r.push(chars_of("-reserved 2-"));
    r.push(chars_of(n.node_type.code_name()));
    let ghost base = views(r@);
    assert(base =~= seq![
        n@.id,
        tagged_text(decimal(fpp_type_number(n@.node_type)), "TYPE"@),
        tagged_text(int_text(c.0 as int), "LEFT"@),
        tagged_text(int_text(c.1 as int), "TOP"@),
        tagged_text(int_text(c.2 as int), "WIDTH"@),
        tagged_text(int_text(c.3 as int), "HEIGHT"@),
        "16777215       \t <--BACKCOLOR"@,
        "0       \t <--BORDERCOLOR"@,
        "0       \t <--BORDERCOLOR"@,
        "-reserved 1-"@,
        "-reserved 2-"@,
        n@.node_type.code_text(),
    ]);
    let ghost before = views(r@);
    if !n.expr1.as_str().is_empty() {
        r.push(chars_of(n.expr1.as_str()));
    }
    assert(views(r@) =~= before + opt_lines(n@.expr1));
    let ghost before = views(r@);
    if !n.expr2.as_str().is_empty() {
        r.push(chars_of(n.expr2.as_str()));
    }
    assert(views(r@) =~= before + opt_lines(n@.expr2));
    let ghost before = views(r@);
    if !n.target_var.as_str().is_empty() {
        r.push(chars_of(n.target_var.as_str()));
    }
    assert(views(r@) =~= before + opt_lines(n@.target_var));
    let ghost before = views(r@);
    r.push(chars_of(""));
    assert(views(r@) =~= before + seq![""@]);
    r
}

fn link_lines_exec(c: &Connector) -> (r: Vec<Vec<char>>)
    ensures
        views(r@) == link_lines(c@),
{
    let mut r: Vec<Vec<char>> = Vec::new();
    let mut first = chars_of(c.from_id.as_str());
    first.push(',');
    extend_chars(&mut first, &chars_of(c.to_id.as_str()));
    assert(first@ =~= c@.from_id + ","@ + c@.to_id) by {
        reveal_strlit(",");
    }
    r.push(first);
    r.push(chars_of("reserved 1"));
    let ghost before = views(r@);
    if c.condition != BranchCondition::Default {
        r.push(chars_of(c.condition.tag()));
    }
    assert(views(r@) =~= before + (if c@.condition != BranchCondition::Default {
        seq![c@.condition.tag_text()]
    } else {
        Seq::<Seq<char>>::empty()
    }));
    let ghost before = views(r@);
    r.push(chars_of(""));
    assert(views(r@) =~= before + seq![""@]);
    r
}

} // verus!
