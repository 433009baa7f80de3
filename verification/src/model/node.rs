//! Flowchart node kinds and nodes.
use vstd::prelude::*;

use crate::text::{
    chars_eq, chars_of, contains_chars, contains_seq, owned, to_upper_chars, trim, trim_chars,
    upper_text,
};

verus! {

/// The kind of a flowchart node.
#[derive(Clone, Copy, PartialEq, Eq, Debug, Structural)]
pub enum NodeType {
    Start,
    Action,
    Definition,
    Add,
    Subtract,
    Multiply,
    Divide,
    Input,
    Output,
    IfEqual,
    IfGreater,
    IfGreaterEqual,
    IfLess,
    IfLessEqual,
    Intersection,
    Function,
    Stop,
}

impl NodeType {
    pub open spec fn display_text(self) -> Seq<char> {
        match self {
            NodeType::Start => "START (başla)"@,
            NodeType::Action => "ACTION (işlem)"@,
            NodeType::Definition => "DEFINITION (tanım)"@,
            NodeType::Add => "ADD (+ toplama)"@,
            NodeType::Subtract => "SUBTRACT (- çıkarma)"@,
            NodeType::Multiply => "MULTIPLY (* çarpma)"@,
            NodeType::Divide => "DIVIDE (/ bölme)"@,
            NodeType::Input => "INPUT (giriş)"@,
            NodeType::Output => "OUTPUT (çıkış)"@,
            NodeType::IfEqual => "IF_EQUAL (eşittir ==)"@,
            NodeType::IfGreater => "IF_GREATER (büyüktür >)"@,
            NodeType::IfGreaterEqual => "IF_GREATER_EQUAL (büyük-eşit >=)"@,
            NodeType::IfLess => "IF_LESS (küçüktür <)"@,
            NodeType::IfLessEqual => "IF_LESS_EQUAL (küçük-eşit <=)"@,
            NodeType::Intersection => "JOIN (kesişim)"@,
            NodeType::Function => "FUNCTION (fonksiyon)"@,
            NodeType::Stop => "STOP (dur)"@,
        }
    }

    pub open spec fn code_text(self) -> Seq<char> {
        match self {
            NodeType::Start => "START"@,
            NodeType::Action => "ACTION"@,
            NodeType::Definition => "DEFINITION"@,
            NodeType::Add => "ADD"@,
            NodeType::Subtract => "SUBTRACT"@,
            NodeType::Multiply => "MULTIPLY"@,
            NodeType::Divide => "DIVIDE"@,
            NodeType::Input => "INPUT"@,
            NodeType::Output => "OUTPUT"@,
            NodeType::IfEqual => "IF_EQUAL"@,
            NodeType::IfGreater => "IF_GREATER"@,
            NodeType::IfGreaterEqual => "IF_GREATER_EQUAL"@,
            NodeType::IfLess => "IF_LESS"@,
            NodeType::IfLessEqual => "IF_LESS_EQUAL"@,
            NodeType::Intersection => "INTERSECTION"@,
            NodeType::Function => "FUNCTION"@,
            NodeType::Stop => "STOP"@,
        }
    }

    /// The five comparison kinds, whose outgoing connectors are chosen by branch.
    pub open spec fn is_condition_kind(self) -> bool {
        ||| self == NodeType::IfEqual
        ||| self == NodeType::IfGreater
        ||| self == NodeType::IfGreaterEqual
        ||| self == NodeType::IfLess
        ||| self == NodeType::IfLessEqual
    }

    /// The kind that an FPP kind line names, given upper-cased, with the shape number
    /// deciding when the name is unknown.
    pub open spec fn of_upper_kind(u: Seq<char>, type_num: u32) -> NodeType {
        if u == "START"@ {
            NodeType::Start
        } else if u == "STOP"@ || u == "END"@ {
            NodeType::Stop
        } else if u == "INPUT"@ || u == "IN"@ {
            NodeType::Input
        } else if u == "OUTPUT"@ || u == "OUT"@ {
            NodeType::Output
        } else if u == "IF_EQUAL"@ || u == "IF"@ {
            NodeType::IfEqual
        } else if u == "IF_GREATER"@ {
            NodeType::IfGreater
        } else if u == "IF_GREATER_EQUAL"@ {
            NodeType::IfGreaterEqual
        } else if u == "IF_LESS"@ {
            NodeType::IfLess
        } else if u == "IF_LESS_EQUAL"@ {
            NodeType::IfLessEqual
        } else if u == "DEFINITION"@ {
            NodeType::Definition
        } else if u == "ADD"@ {
            NodeType::Add
        } else if u == "SUBTRACT"@ {
            NodeType::Subtract
        } else if u == "MULTIPLY"@ {
            NodeType::Multiply
        } else if u == "DIVIDE"@ {
            NodeType::Divide
        } else if u == "INTERSECTION"@ || u == "JOIN_NODE"@ {
            NodeType::Intersection
        } else if u == "FUNCTION"@ || u == "FUNC"@ {
            NodeType::Function
        } else if u == "COMP"@ || u == "JOIN"@ || u == "ACTION"@ || u == "ACT"@ {
            NodeType::Action
        } else if type_num == 2 {
            if contains_seq(u, "STOP"@) || contains_seq(u, "DUR"@) {
                NodeType::Stop
            } else {
                NodeType::Start
            }
        } else if type_num == 3 {
            NodeType::Intersection
        } else if type_num == 91 {
            NodeType::Output
        } else if type_num == 92 {
            NodeType::IfEqual
        } else if type_num == 93 {
            NodeType::Function
        } else {
            NodeType::Action
        }
    }

    pub fn display_name(&self) -> (r: &'static str)
        ensures
            r@ == self.display_text(),
    {
        match self {
            NodeType::Start => "START (başla)",
            NodeType::Action => "ACTION (işlem)",
            NodeType::Definition => "DEFINITION (tanım)",
            NodeType::Add => "ADD (+ toplama)",
            NodeType::Subtract => "SUBTRACT (- çıkarma)",
            NodeType::Multiply => "MULTIPLY (* çarpma)",
            NodeType::Divide => "DIVIDE (/ bölme)",
            NodeType::Input => "INPUT (giriş)",
            NodeType::Output => "OUTPUT (çıkış)",
            NodeType::IfEqual => "IF_EQUAL (eşittir ==)",
            NodeType::IfGreater => "IF_GREATER (büyüktür >)",
            NodeType::IfGreaterEqual => "IF_GREATER_EQUAL (büyük-eşit >=)",
            NodeType::IfLess => "IF_LESS (küçüktür <)",
            NodeType::IfLessEqual => "IF_LESS_EQUAL (küçük-eşit <=)",
            NodeType::Intersection => "JOIN (kesişim)",
            NodeType::Function => "FUNCTION (fonksiyon)",
            NodeType::Stop => "STOP (dur)",
        }
    }

    pub fn is_condition(&self) -> (r: bool)
        ensures
            r == self.is_condition_kind(),
    {
        match self {
            NodeType::IfEqual | NodeType::IfGreater | NodeType::IfGreaterEqual | NodeType::IfLess
            | NodeType::IfLessEqual => true,
            _ => false,
        }
    }

    pub fn code_name(&self) -> (r: &'static str)
        ensures
            r@ == self.code_text(),
    {
        match self {
            NodeType::Start => "START",
            NodeType::Action => "ACTION",
            NodeType::Definition => "DEFINITION",
            NodeType::Add => "ADD",
            NodeType::Subtract => "SUBTRACT",
            NodeType::Multiply => "MULTIPLY",
            NodeType::Divide => "DIVIDE",
            NodeType::Input => "INPUT",
            NodeType::Output => "OUTPUT",
            NodeType::IfEqual => "IF_EQUAL",
            NodeType::IfGreater => "IF_GREATER",
            NodeType::IfGreaterEqual => "IF_GREATER_EQUAL",
            NodeType::IfLess => "IF_LESS",
            NodeType::IfLessEqual => "IF_LESS_EQUAL",
            NodeType::Intersection => "INTERSECTION",
            NodeType::Function => "FUNCTION",
            NodeType::Stop => "STOP",
        }
    }

    /// The kind for an FPP kind line that is already trimmed and upper-cased.
    pub fn from_upper_kind(u: &Vec<char>, type_num: u32) -> (r: NodeType)
        ensures
            r == NodeType::of_upper_kind(u@, type_num),
    {
        if chars_eq(u, &chars_of("START")) {
            NodeType::Start
        } else if chars_eq(u, &chars_of("STOP")) || chars_eq(u, &chars_of("END")) {
            NodeType::Stop
        } else if chars_eq(u, &chars_of("INPUT")) || chars_eq(u, &chars_of("IN")) {
            NodeType::Input
        } else if chars_eq(u, &chars_of("OUTPUT")) || chars_eq(u, &chars_of("OUT")) {
            NodeType::Output
        } else if chars_eq(u, &chars_of("IF_EQUAL")) || chars_eq(u, &chars_of("IF")) {
            NodeType::IfEqual
        } else if chars_eq(u, &chars_of("IF_GREATER")) {
            NodeType::IfGreater
        } else if chars_eq(u, &chars_of("IF_GREATER_EQUAL")) {
            NodeType::IfGreaterEqual
        } else if chars_eq(u, &chars_of("IF_LESS")) {
            NodeType::IfLess
        } else if chars_eq(u, &chars_of("IF_LESS_EQUAL")) {
            NodeType::IfLessEqual
        } else if chars_eq(u, &chars_of("DEFINITION")) {
            NodeType::Definition
        } else if chars_eq(u, &chars_of("ADD")) {
            NodeType::Add
        } else if chars_eq(u, &chars_of("SUBTRACT")) {
            NodeType::Subtract
        } else if chars_eq(u, &chars_of("MULTIPLY")) {
            NodeType::Multiply
        } else if chars_eq(u, &chars_of("DIVIDE")) {
            NodeType::Divide
        } else if chars_eq(u, &chars_of("INTERSECTION")) || chars_eq(u, &chars_of("JOIN_NODE")) {
            NodeType::Intersection
        } else if chars_eq(u, &chars_of("FUNCTION")) || chars_eq(u, &chars_of("FUNC")) {
            NodeType::Function
        } else if chars_eq(u, &chars_of("COMP")) || chars_eq(u, &chars_of("JOIN")) || chars_eq(
            u,
            &chars_of("ACTION"),
        ) || chars_eq(u, &chars_of("ACT")) {
            NodeType::Action
        } else if type_num == 2 {
            if contains_chars(u, &chars_of("STOP")) || contains_chars(u, &chars_of("DUR")) {
                NodeType::Stop
            } else {
                NodeType::Start
            }
        } else if type_num == 3 {
            NodeType::Intersection
        } else if type_num == 91 {
            NodeType::Output
        } else if type_num == 92 {
            NodeType::IfEqual
        } else if type_num == 93 {
            NodeType::Function
        } else {
            NodeType::Action
        }
    }

    /// The kind named by an FPP kind line: a line written exactly as one of the upper-case
    /// kind names is that kind, as upper-casing leaves such a name as it is; any other line
    /// is trimmed and upper-cased, and the shape number decides when the name is not one of
    /// the known kinds.
    pub fn from_fpp_kind_or_type(kind: &str, type_num: u32) -> (r: NodeType)
        ensures
            r == NodeType::of_kind_line(kind@, type_num),
    {
        let k = chars_of(kind);
        if is_kind_name_chars(&k) {
            return NodeType::from_upper_kind(&k, type_num);
        }
        let t = trim_chars(&k);
        let u = to_upper_chars(&t);
        NodeType::from_upper_kind(&u, type_num)
    }

    /// The kind an FPP kind line names, as `from_fpp_kind_or_type` reads it.
    pub open spec fn of_kind_line(k: Seq<char>, type_num: u32) -> NodeType {
        if is_kind_name(k) {
            NodeType::of_upper_kind(k, type_num)
        } else {
            NodeType::of_upper_kind(upper_text(trim(k)), type_num)
        }
    }
}

/// Whether `k` is written exactly as one of the upper-case kind names.
pub open spec fn is_kind_name(k: Seq<char>) -> bool {
    ||| k == "START"@
    ||| k == "STOP"@
    ||| k == "END"@
    ||| k == "INPUT"@
    ||| k == "IN"@
    ||| k == "OUTPUT"@
    ||| k == "OUT"@
    ||| k == "IF_EQUAL"@
    ||| k == "IF"@
    ||| k == "IF_GREATER"@
    ||| k == "IF_GREATER_EQUAL"@
    ||| k == "IF_LESS"@
    ||| k == "IF_LESS_EQUAL"@
    ||| k == "DEFINITION"@
    ||| k == "ADD"@
    ||| k == "SUBTRACT"@
    ||| k == "MULTIPLY"@
    ||| k == "DIVIDE"@
    ||| k == "INTERSECTION"@
    ||| k == "JOIN_NODE"@
    ||| k == "FUNCTION"@
    ||| k == "FUNC"@
    ||| k == "COMP"@
    ||| k == "JOIN"@
    ||| k == "ACTION"@
    ||| k == "ACT"@
}

/// Whether `k` is written exactly as one of the upper-case kind names.
pub(crate) fn is_kind_name_chars(k: &Vec<char>) -> (r: bool)
    ensures
        r == is_kind_name(k@),
{
    chars_eq(k, &chars_of("START")) || chars_eq(k, &chars_of("STOP")) || chars_eq(k, &chars_of("END")) || chars_eq(k, &chars_of("INPUT")) || chars_eq(k, &chars_of("IN")) || chars_eq(k, &chars_of("OUTPUT")) || chars_eq(k, &chars_of("OUT")) || chars_eq(k, &chars_of("IF_EQUAL")) || chars_eq(k, &chars_of("IF")) || chars_eq(k, &chars_of("IF_GREATER")) || chars_eq(k, &chars_of("IF_GREATER_EQUAL")) || chars_eq(k, &chars_of("IF_LESS")) || chars_eq(k, &chars_of("IF_LESS_EQUAL")) || chars_eq(k, &chars_of("DEFINITION")) || chars_eq(k, &chars_of("ADD")) || chars_eq(k, &chars_of("SUBTRACT")) || chars_eq(k, &chars_of("MULTIPLY")) || chars_eq(k, &chars_of("DIVIDE")) || chars_eq(k, &chars_of("INTERSECTION")) || chars_eq(k, &chars_of("JOIN_NODE")) || chars_eq(k, &chars_of("FUNCTION")) || chars_eq(k, &chars_of("FUNC")) || chars_eq(k, &chars_of("COMP")) || chars_eq(k, &chars_of("JOIN")) || chars_eq(k, &chars_of("ACTION")) || chars_eq(k, &chars_of("ACT"))
}

/// The RGB fill colour of a new node.
pub open spec fn default_fill() -> [u8; 3] {
    [255u8, 255u8, 255u8]
}

/// The RGB border colour of a new node.
pub open spec fn default_border() -> [u8; 3] {
    [40u8, 40u8, 40u8]
}

pub fn default_fill_color() -> (r: [u8; 3])
    ensures
        r == default_fill(),
{
    [255, 255, 255]
}

pub fn default_border_color() -> (r: [u8; 3])
    ensures
        r == default_border(),
{
    [40, 40, 40]
}

/// Where a node stands and how large it is drawn, each coordinate kept as the decimal text
/// it is read from and written to.
pub struct Layout {
    pub left: String,
    pub top: String,
    pub width: String,
    pub height: String,
}

/// The content of a layout.
pub struct LayoutView {
    pub left: Seq<char>,
    pub top: Seq<char>,
    pub width: Seq<char>,
    pub height: Seq<char>,
}

impl View for Layout {
    type V = LayoutView;

    open spec fn view(&self) -> LayoutView {
        LayoutView { left: self.left@, top: self.top@, width: self.width@, height: self.height@ }
    }
}

impl Clone for Layout {
    fn clone(&self) -> (r: Self)
        ensures
            r == *self,
    {
        Layout {
            left: self.left.clone(),
            top: self.top.clone(),
            width: self.width.clone(),
            height: self.height.clone(),
        }
    }
}

impl Layout {
    pub fn new(left: &str, top: &str, width: &str, height: &str) -> (r: Layout)
        ensures
            r.left@ == left@,
            r.top@ == top@,
            r.width@ == width@,
            r.height@ == height@,
    {
        Layout { left: owned(left), top: owned(top), width: owned(width), height: owned(height) }
    }
}

/// A flowchart node: its identifier, kind, layout, colours, label, and the two expressions
/// and result variable that its kind reads.
pub struct Node {
    pub id: String,
    pub node_type: NodeType,
    pub layout: Layout,
    pub fill_color: [u8; 3],
    pub border_color: [u8; 3],
    pub label: String,
    pub expr1: String,
    pub expr2: String,
    pub target_var: String,
}

/// The content of a node.
pub struct NodeView {
    pub id: Seq<char>,
    pub node_type: NodeType,
    pub layout: LayoutView,
    pub fill_color: [u8; 3],
    pub border_color: [u8; 3],
    pub label: Seq<char>,
    pub expr1: Seq<char>,
    pub expr2: Seq<char>,
    pub target_var: Seq<char>,
}

impl View for Node {
    type V = NodeView;

    open spec fn view(&self) -> NodeView {
        NodeView {
            id: self.id@,
            node_type: self.node_type,
            layout: self.layout@,
            fill_color: self.fill_color,
            border_color: self.border_color,
            label: self.label@,
            expr1: self.expr1@,
            expr2: self.expr2@,
            target_var: self.target_var@,
        }
    }
}

impl Clone for Node {
    fn clone(&self) -> (r: Self)
        ensures
            r == *self,
    {
        Node {
            id: self.id.clone(),
            node_type: self.node_type,
            layout: self.layout.clone(),
            fill_color: self.fill_color,
            border_color: self.border_color,
            label: self.label.clone(),
            expr1: self.expr1.clone(),
            expr2: self.expr2.clone(),
            target_var: self.target_var.clone(),
        }
    }
}

/// The first expression, second expression and result variable that a new node of kind
/// `t` starts with.
pub open spec fn default_exprs(t: NodeType) -> (Seq<char>, Seq<char>, Seq<char>) {
    match t {
        NodeType::Start => (""@, ""@, ""@),
        NodeType::Stop => (""@, ""@, ""@),
        NodeType::Input => ("Enter value"@, "x"@, ""@),
        NodeType::Output => ("Value is: "@, "x"@, ""@),
        NodeType::IfEqual => ("x"@, "0"@, ""@),
        NodeType::IfGreater => ("x"@, "0"@, ""@),
        NodeType::IfGreaterEqual => ("x"@, "0"@, ""@),
        NodeType::IfLess => ("x"@, "0"@, ""@),
        NodeType::IfLessEqual => ("x"@, "0"@, ""@),
        NodeType::Definition => ("x"@, "0"@, ""@),
        NodeType::Add => ("x"@, "1"@, "x"@),
        NodeType::Subtract => ("x"@, "1"@, "x"@),
        NodeType::Multiply => ("x"@, "2"@, "x"@),
        NodeType::Divide => ("x"@, "2"@, "x"@),
        NodeType::Action => ("x"@, "x + 1"@, "x"@),
        NodeType::Intersection => (""@, ""@, ""@),
        NodeType::Function => ("Fix"@, "x"@, "x"@),
    }
}

/// The content of a new node of kind `t`.
pub open spec fn new_node_view(id: Seq<char>, t: NodeType, layout: LayoutView) -> NodeView {
    NodeView {
        id,
        node_type: t,
        layout,
        fill_color: default_fill(),
        border_color: default_border(),
        label: t.code_text(),
        expr1: default_exprs(t).0,
        expr2: default_exprs(t).1,
        target_var: default_exprs(t).2,
    }
}

impl Node {
    /// A new node of kind `node_type`: labelled with the kind's code name, in the default
    /// colours, with the kind's default expressions.
    pub fn new(id: &str, node_type: NodeType, layout: Layout) -> (r: Node)
        ensures
            r@ == new_node_view(id@, node_type, layout@),
    {
        let (e1, e2, tv): (&str, &str, &str) = match node_type {
            NodeType::Start => ("", "", ""),
            NodeType::Stop => ("", "", ""),
            NodeType::Input => ("Enter value", "x", ""),
            NodeType::Output => ("Value is: ", "x", ""),
            NodeType::IfEqual => ("x", "0", ""),
            NodeType::IfGreater => ("x", "0", ""),
            NodeType::IfGreaterEqual => ("x", "0", ""),
            NodeType::IfLess => ("x", "0", ""),
            NodeType::IfLessEqual => ("x", "0", ""),
            NodeType::Definition => ("x", "0", ""),
            NodeType::Add => ("x", "1", "x"),
            NodeType::Subtract => ("x", "1", "x"),
            NodeType::Multiply => ("x", "2", "x"),
            NodeType::Divide => ("x", "2", "x"),
            NodeType::Action => ("x", "x + 1", "x"),
            NodeType::Intersection => ("", "", ""),
            NodeType::Function => ("Fix", "x", "x"),
        };
        Node {
            id: owned(id),
            node_type,
            layout,
            fill_color: default_fill_color(),
            border_color: default_border_color(),
            label: owned(node_type.code_name()),
            expr1: owned(e1),
            expr2: owned(e2),
            target_var: owned(tv),
        }
    }
}

} // verus!
