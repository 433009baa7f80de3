//! A flowchart: its nodes, its connectors, and the counters that name new ones.
use vstd::prelude::*;

use super::connector::{BranchCondition, Connector, ConnectorView};
use super::node::{new_node_view, Layout, Node, NodeType, NodeView};
use crate::search::{first_index, lemma_first_index_at, lemma_first_index_none};
use crate::text::{chars_eq, chars_of, decimal, numbered, owned, string_of, trim_start, trim_start_chars};

verus! {

broadcast use vstd::seq_lib::group_seq_properties;

/// A flowchart diagram.
pub struct Diagram {
    pub title: String,
    pub nodes: Vec<Node>,
    pub connectors: Vec<Connector>,
    pub next_node_id: usize,
    pub next_line_id: usize,
}

/// The content of a diagram.
pub struct DiagramView {
    pub title: Seq<char>,
    pub nodes: Seq<NodeView>,
    pub connectors: Seq<ConnectorView>,
    pub next_node_id: nat,
    pub next_line_id: nat,
}

/// The contents of a sequence of nodes.
pub open spec fn node_views(ns: Seq<Node>) -> Seq<NodeView> {
    ns.map_values(|n: Node| n@)
}

/// The contents of a sequence of connectors.
pub open spec fn connector_views(cs: Seq<Connector>) -> Seq<ConnectorView> {
    cs.map_values(|c: Connector| c@)
}

impl View for Diagram {
    type V = DiagramView;

    open spec fn view(&self) -> DiagramView {
        DiagramView {
            title: self.title@,
            nodes: node_views(self.nodes@),
            connectors: connector_views(self.connectors@),
            next_node_id: self.next_node_id as nat,
            next_line_id: self.next_line_id as nat,
        }
    }
}

/// Whether a node has the identifier `id`.
pub open spec fn has_id(id: Seq<char>) -> spec_fn(NodeView) -> bool {
    |n: NodeView| n.id == id
}

/// Whether a connector leaves `from` and enters `to`.
pub open spec fn links(from: Seq<char>, to: Seq<char>) -> spec_fn(ConnectorView) -> bool {
    |c: ConnectorView| c.from_id == from && c.to_id == to
}

/// The identifier that the `n`-th connector of a diagram gets: `line` and the decimal number.
pub open spec fn line_id(n: nat) -> Seq<char> {
    "line"@ + decimal(n)
}

/// The identifier that the `n`-th node of a diagram gets: `id` and the decimal number.
pub open spec fn node_id(n: nat) -> Seq<char> {
    "id"@ + decimal(n)
}

/// What adding a connector from `from` to `to` makes of `d`, and the identifier it
/// returns: nothing changes for a self-loop or for a pair of nodes already linked in that
/// direction; otherwise a connector named after the line counter is appended.
pub open spec fn connect(
    d: DiagramView,
    from: Seq<char>,
    to: Seq<char>,
    condition: BranchCondition,
) -> (DiagramView, Option<Seq<char>>) {
    if from == to || first_index(d.connectors, links(from, to)) >= 0 {
        (d, None)
    } else {
        let id = line_id(d.next_line_id);
        (
            DiagramView {
                connectors: d.connectors.push(ConnectorView { id, from_id: from, to_id: to, condition }),
                next_line_id: d.next_line_id + 1,
                ..d
            },
            Some(id),
        )
    }
}

/// The connectors of a diagram have no self-loops and at most one connector per ordered pair
/// of nodes.
pub open spec fn links_are_simple(cs: Seq<ConnectorView>) -> bool {
    &&& forall|i: int| 0 <= i < cs.len() ==> #[trigger] cs[i].from_id != cs[i].to_id
    &&& forall|i: int, j: int|
        0 <= i < j < cs.len() ==> !(#[trigger] cs[i].from_id == #[trigger] cs[j].from_id
            && cs[i].to_id == cs[j].to_id)
}

impl Clone for Diagram {
    fn clone(&self) -> (r: Self)
        ensures
            r@ == self@,
    {
        let mut nodes: Vec<Node> = Vec::new();
        let mut i: usize = 0;
        while i < self.nodes.len()
            invariant
                i <= self.nodes.len(),
                nodes@ =~= self.nodes@.take(i as int),
            decreases self.nodes.len() - i,
        {
            nodes.push(self.nodes[i].clone());
            i = i + 1;
            assert(self.nodes@.take(i as int) =~= self.nodes@.take(i - 1).push(self.nodes@[i - 1]));
        }
        assert(self.nodes@.take(self.nodes.len() as int) =~= self.nodes@);
        let mut connectors: Vec<Connector> = Vec::new();
        let mut i: usize = 0;
        while i < self.connectors.len()
            invariant
                i <= self.connectors.len(),
                connectors@ =~= self.connectors@.take(i as int),
            decreases self.connectors.len() - i,
        {
            connectors.push(self.connectors[i].clone());
            i = i + 1;
            assert(self.connectors@.take(i as int) =~= self.connectors@.take(i - 1).push(
                self.connectors@[i - 1],
            ));
        }
        assert(self.connectors@.take(self.connectors.len() as int) =~= self.connectors@);
        Diagram {
            title: self.title.clone(),
            nodes,
            connectors,
            next_node_id: self.next_node_id,
            next_line_id: self.next_line_id,
        }
    }
}

/// The content of a diagram with no title, nodes or connectors and both counters at 0.
pub open spec fn empty_diagram() -> DiagramView {
    DiagramView {
        title: Seq::empty(),
        nodes: Seq::empty(),
        connectors: Seq::empty(),
        next_node_id: 0,
        next_line_id: 0,
    }
}

impl Default for Diagram {
    fn default() -> (r: Diagram)
        ensures
            r@ == empty_diagram(),
    {
        let r = Diagram {
            title: String::new(),
            nodes: Vec::new(),
            connectors: Vec::new(),
            next_node_id: 0,
            next_line_id: 0,
        };
        assert(node_views(r.nodes@) =~= Seq::empty());
        assert(connector_views(r.connectors@) =~= Seq::empty());
        r
    }
}

/// Whether a diagram file's text is in the JSON format rather than the FPP one: its first
/// character after leading whitespace opens an object or an array.
pub open spec fn is_json_text(content: Seq<char>) -> bool {
    let t = trim_start(content);
    t.len() > 0 && (t[0] == '{' || t[0] == '[')
}

impl Diagram {
    /// Whether `content` is in the JSON format, as `is_json_text` describes; otherwise it
    /// is read as FPP.
    pub fn is_json(content: &str) -> (r: bool)
        ensures
            r == is_json_text(content@),
    {
        let t = trim_start_chars(&chars_of(content));
        t.len() > 0 && (t[0] == '{' || t[0] == '[')
    }

    /// An empty diagram whose node and line counters start at 1.
    pub fn new(title: &str) -> (r: Diagram)
        ensures
            r@ == (DiagramView {
                title: title@,
                nodes: Seq::empty(),
                connectors: Seq::empty(),
                next_node_id: 1,
                next_line_id: 1,
            }),
    {
        let r = Diagram {
            title: owned(title),
            nodes: Vec::new(),
            connectors: Vec::new(),
            next_node_id: 1,
            next_line_id: 1,
        };
        assert(node_views(r.nodes@) =~= Seq::empty());
        assert(connector_views(r.connectors@) =~= Seq::empty());
        r
    }

    /// The position of the first node with identifier `id`.
    pub fn node_index(&self, id: &str) -> (r: Option<usize>)
        ensures
            match r {
                Some(i) => i < self.nodes.len() && i as int == first_index(self@.nodes, has_id(id@)),
                None => first_index(self@.nodes, has_id(id@)) == -1,
            },
    {
        let key = chars_of(id);
        let mut i: usize = 0;
        while i < self.nodes.len()
            invariant
                i <= self.nodes.len(),
                key@ == id@,
                forall|j: int| 0 <= j < i ==> !has_id(id@)(#[trigger] self@.nodes[j]),
            decreases self.nodes.len() - i,
        {
            if chars_eq(&chars_of(self.nodes[i].id.as_str()), &key) {
                proof {
                    lemma_first_index_at(self@.nodes, has_id(id@), i as int);
                }
                return Some(i);
            }
            i = i + 1;
        }
        proof {
            lemma_first_index_none(self@.nodes, has_id(id@));
        }
        None
    }

    /// The first node with identifier `id`.
    pub fn get_node(&self, id: &str) -> (r: Option<&Node>)
        ensures
            match r {
                Some(n) => {
                    let i = first_index(self@.nodes, has_id(id@));
                    0 <= i < self.nodes.len() && *n == self.nodes@[i]
                },
                None => first_index(self@.nodes, has_id(id@)) == -1,
            },
    {
        match self.node_index(id) {
            Some(i) => Some(&self.nodes[i]),
            None => None,
        }
    }

    /// Gives the node with identifier `id` to be edited in place.
    pub fn get_node_mut(&mut self, id: &str) -> (r: Option<&mut Node>)
        ensures
            match r {
                Some(n) => {
                    let i = first_index(old(self)@.nodes, has_id(id@));
                    &&& 0 <= i < old(self).nodes.len()
                    &&& *n == old(self).nodes@[i]
                    &&& final(self).nodes@ == old(self).nodes@.update(i, *final(n))
                    &&& final(self).title == old(self).title
                    &&& final(self).connectors == old(self).connectors
                    &&& final(self).next_node_id == old(self).next_node_id
                    &&& final(self).next_line_id == old(self).next_line_id
                },
                None => {
                    &&& first_index(old(self)@.nodes, has_id(id@)) == -1
                    &&& *final(self) == *old(self)
                },
            },
    {
        match self.node_index(id) {
            Some(i) => Some(&mut self.nodes[i]),
            None => None,
        }
    }

    /// Appends a new node of kind `node_type`, named after the node counter, which then
    /// moves on; returns the new node's identifier.
    pub fn add_node(&mut self, node_type: NodeType, layout: Layout) -> (r: String)
        requires
            old(self).next_node_id < usize::MAX,
        ensures
            r@ == node_id(old(self).next_node_id as nat),
            final(self)@ == (DiagramView {
                nodes: old(self)@.nodes.push(new_node_view(r@, node_type, layout@)),
                next_node_id: old(self)@.next_node_id + 1,
                ..old(self)@
            }),
    {
        let id = string_of(&numbered("id", self.next_node_id as u64));
        self.next_node_id = self.next_node_id + 1;
        let ghost before = self.nodes@;
        let node = Node::new(id.as_str(), node_type, layout);
        self.nodes.push(node);
        assert(node_views(self.nodes@) =~= node_views(before).push(new_node_view(id@, node_type, layout@)));
        id
    }

    /// Removes every node with identifier `id` and every connector that leaves or enters it.
    pub fn delete_node(&mut self, id: &str)
        ensures
            final(self)@ == (DiagramView {
                nodes: old(self)@.nodes.filter(|n: NodeView| n.id != id@),
                connectors: old(self)@.connectors.filter(
                    |c: ConnectorView| c.from_id != id@ && c.to_id != id@,
                ),
                ..old(self)@
            }),
    {
        let key = chars_of(id);
        let ghost np = |n: NodeView| n.id != id@;
        let ghost cp = |c: ConnectorView| c.from_id != id@ && c.to_id != id@;
        let mut nodes: Vec<Node> = Vec::new();
        let mut i: usize = 0;
        while i < self.nodes.len()
            invariant
                i <= self.nodes.len(),
                key@ == id@,
                np == (|n: NodeView| n.id != id@),
                node_views(nodes@) == node_views(self.nodes@.take(i as int)).filter(np),
            decreases self.nodes.len() - i,
        {
            let ghost pre = node_views(self.nodes@.take(i as int));
            assert(node_views(self.nodes@.take(i + 1)) =~= pre.push(self.nodes@[i as int]@));
            proof {
                pre.lemma_filter_push(self.nodes@[i as int]@, np);
            }
            if !chars_eq(&chars_of(self.nodes[i].id.as_str()), &key) {
                let ghost kept = nodes@;
                nodes.push(self.nodes[i].clone());
                assert(node_views(nodes@) =~= node_views(kept).push(self.nodes@[i as int]@));
            }
            i = i + 1;
        }
        assert(self.nodes@.take(self.nodes.len() as int) =~= self.nodes@);
        let mut connectors: Vec<Connector> = Vec::new();
        let mut i: usize = 0;
        while i < self.connectors.len()
            invariant
                i <= self.connectors.len(),
                key@ == id@,
                cp == (|c: ConnectorView| c.from_id != id@ && c.to_id != id@),
                connector_views(connectors@) == connector_views(self.connectors@.take(i as int)).filter(cp),
            decreases self.connectors.len() - i,
        {
            let ghost pre = connector_views(self.connectors@.take(i as int));
            assert(connector_views(self.connectors@.take(i + 1)) =~= pre.push(self.connectors@[i as int]@));
            proof {
                pre.lemma_filter_push(self.connectors@[i as int]@, cp);
            }
            let c = &self.connectors[i];
            if !chars_eq(&chars_of(c.from_id.as_str()), &key) && !chars_eq(&chars_of(c.to_id.as_str()), &key) {
                let ghost kept = connectors@;
                connectors.push(c.clone());
                assert(connector_views(connectors@) =~= connector_views(kept).push(self.connectors@[i as int]@));
            }
            i = i + 1;
        }
        assert(self.connectors@.take(self.connectors.len() as int) =~= self.connectors@);
        self.nodes = nodes;
        self.connectors = connectors;
    }

    /// Whether `add_connector` would add a connector from `from_id` to `to_id`: it is no
    /// self-loop and no connector links them in that direction yet.
    pub fn is_new_link(&self, from_id: &str, to_id: &str) -> (r: bool)
        ensures
            r == (from_id@ != to_id@ && first_index(self@.connectors, links(from_id@, to_id@)) < 0),
    {
        let from = chars_of(from_id);
        let to = chars_of(to_id);
        if chars_eq(&from, &to) {
            return false;
        }
        let mut i: usize = 0;
        while i < self.connectors.len()
            invariant
                i <= self.connectors.len(),
                from@ == from_id@,
                to@ == to_id@,
                forall|j: int| 0 <= j < i ==> !links(from_id@, to_id@)(#[trigger] self@.connectors[j]),
            decreases self.connectors.len() - i,
        {
            let c = &self.connectors[i];
            if chars_eq(&chars_of(c.from_id.as_str()), &from) && chars_eq(&chars_of(c.to_id.as_str()), &to) {
                proof {
                    lemma_first_index_at(self@.connectors, links(from_id@, to_id@), i as int);
                }
                return false;
            }
            i = i + 1;
        }
        proof {
            lemma_first_index_none(self@.connectors, links(from_id@, to_id@));
        }
        true
    }

    /// Links `from_id` to `to_id` unless that would be a self-loop or repeat an existing link
    /// in the same direction; returns the new connector's identifier.
    pub fn add_connector(&mut self, from_id: &str, to_id: &str, condition: BranchCondition) -> (r: Option<String>)
        requires
            old(self).next_line_id < usize::MAX || from_id@ == to_id@ || first_index(
                old(self)@.connectors,
                links(from_id@, to_id@),
            ) >= 0,
        ensures
            connect(old(self)@, from_id@, to_id@, condition) == (final(self)@, match r {
                Some(s) => Some(s@),
                None => None::<Seq<char>>,
            }),
    {
        if !self.is_new_link(from_id, to_id) {
            return None;
        }
        let line = string_of(&numbered("line", self.next_line_id as u64));
        self.next_line_id = self.next_line_id + 1;
        let ghost before = self.connectors@;
        self.connectors.push(Connector::new(line.as_str(), from_id, to_id, condition));
        assert(connector_views(self.connectors@) =~= connector_views(before).push(
            ConnectorView { id: line@, from_id: from_id@, to_id: to_id@, condition },
        ));
        Some(line)
    }

    /// Removes every connector with identifier `id`.
    pub fn delete_connector(&mut self, id: &str)
        ensures
            final(self)@ == (DiagramView {
                connectors: old(self)@.connectors.filter(|c: ConnectorView| c.id != id@),
                ..old(self)@
            }),
    {
        let key = chars_of(id);
        let ghost cp = |c: ConnectorView| c.id != id@;
        let mut connectors: Vec<Connector> = Vec::new();
        let mut i: usize = 0;
        while i < self.connectors.len()
            invariant
                i <= self.connectors.len(),
                key@ == id@,
                cp == (|c: ConnectorView| c.id != id@),
                connector_views(connectors@) == connector_views(self.connectors@.take(i as int)).filter(cp),
            decreases self.connectors.len() - i,
        {
            let ghost pre = connector_views(self.connectors@.take(i as int));
            assert(connector_views(self.connectors@.take(i + 1)) =~= pre.push(self.connectors@[i as int]@));
            proof {
                pre.lemma_filter_push(self.connectors@[i as int]@, cp);
            }
            let c = &self.connectors[i];
            if !chars_eq(&chars_of(c.id.as_str()), &key) {
                let ghost kept = connectors@;
                connectors.push(c.clone());
                assert(connector_views(connectors@) =~= connector_views(kept).push(self.connectors@[i as int]@));
            }
            i = i + 1;
        }
        assert(self.connectors@.take(self.connectors.len() as int) =~= self.connectors@);
        self.connectors = connectors;
    }
}


pub proof fn lemma_simple_push(cs: Seq<ConnectorView>, x: ConnectorView)
    ensures
        links_are_simple(cs.push(x)) == (links_are_simple(cs) && x.from_id != x.to_id && forall|
            i: int,
        |
            0 <= i < cs.len() ==> !(#[trigger] cs[i].from_id == x.from_id && cs[i].to_id == x.to_id)),
{
    let t = cs.push(x);
    if links_are_simple(t) {
        assert forall|i: int| 0 <= i < cs.len() implies #[trigger] cs[i].from_id != cs[i].to_id by {
            assert(t[i] == cs[i]);
        }
        assert forall|i: int, j: int| 0 <= i < j < cs.len() implies !(#[trigger] cs[i].from_id
            == #[trigger] cs[j].from_id && cs[i].to_id == cs[j].to_id) by {
            assert(t[i] == cs[i] && t[j] == cs[j]);
        }
        assert(t[cs.len() as int] == x);
        assert forall|i: int| 0 <= i < cs.len() implies !(#[trigger] cs[i].from_id == x.from_id
            && cs[i].to_id == x.to_id) by {
            assert(t[i] == cs[i]);
            assert(t[i].from_id == t[cs.len() as int].from_id ==> t[i].to_id != t[cs.len() as int].to_id);
        }
    }
    if links_are_simple(cs) && x.from_id != x.to_id && forall|i: int|
        0 <= i < cs.len() ==> !(#[trigger] cs[i].from_id == x.from_id && cs[i].to_id == x.to_id) {
        assert forall|i: int| 0 <= i < t.len() implies #[trigger] t[i].from_id != t[i].to_id by {
            if i < cs.len() {
                assert(t[i] == cs[i]);
            }
        }
        assert forall|i: int, j: int| 0 <= i < j < t.len() implies !(#[trigger] t[i].from_id
            == #[trigger] t[j].from_id && t[i].to_id == t[j].to_id) by {
            assert(t[i] == cs[i]);
            if j < cs.len() {
                assert(t[j] == cs[j]);
            } else {
                assert(t[j] == x);
            }
        }
    }
}

/// Adding a connector keeps the connectors of a diagram free of self-loops and of repeated
/// links in the same direction.
pub proof fn law_connect_keeps_links_simple(
    d: DiagramView,
    from: Seq<char>,
    to: Seq<char>,
    condition: BranchCondition,
)
    requires
        links_are_simple(d.connectors),
    ensures
        links_are_simple(connect(d, from, to, condition).0.connectors),
{
    crate::search::lemma_first_index_facts(d.connectors, links(from, to));
    if !(from == to || first_index(d.connectors, links(from, to)) >= 0) {
        let x = ConnectorView { id: line_id(d.next_line_id), from_id: from, to_id: to, condition };
        assert forall|i: int| 0 <= i < d.connectors.len() implies !(#[trigger] d.connectors[i].from_id
            == x.from_id && d.connectors[i].to_id == x.to_id) by {
            assert(!links(from, to)(d.connectors[i]));
        }
        lemma_simple_push(d.connectors, x);
    }
}

/// The connectors of a diagram are named `line1`, `line2`, ... in order, and the line
/// counter is one past their number.
pub open spec fn links_numbered(d: DiagramView) -> bool {
    &&& forall|k: int| 0 <= k < d.connectors.len() ==> #[trigger] d.connectors[k].id == line_id((k + 1) as nat)
    &&& d.next_line_id == d.connectors.len() + 1
}

/// Adding a connector to a diagram whose connectors are numbered in order keeps them so:
/// a new connector takes the next number and the counter moves one on.
pub proof fn law_connect_keeps_links_numbered(
    d: DiagramView,
    from: Seq<char>,
    to: Seq<char>,
    condition: BranchCondition,
)
    requires
        links_numbered(d),
    ensures
        links_numbered(connect(d, from, to, condition).0),
{
    let r = connect(d, from, to, condition).0;
    if r.connectors.len() > d.connectors.len() {
        assert forall|k: int| 0 <= k < r.connectors.len() implies #[trigger] r.connectors[k].id == line_id((k + 1) as nat) by {
            if k < d.connectors.len() {
                assert(r.connectors[k] == d.connectors[k]);
            }
        }
    }
}

/// Keeping some of the connectors keeps them free of self-loops and of repeated links.
pub proof fn lemma_filter_keeps_links_simple(cs: Seq<ConnectorView>, p: spec_fn(ConnectorView) -> bool)
    requires
        links_are_simple(cs),
    ensures
        links_are_simple(cs.filter(p)),
    decreases cs.len(),
{
    if cs.len() == 0 {
        reveal(Seq::filter);
    } else {
        let pre = cs.drop_last();
        let x = cs.last();
        assert(pre.push(x) =~= cs);
        lemma_simple_push(pre, x);
        lemma_filter_keeps_links_simple(pre, p);
        pre.lemma_filter_push(x, p);
        if p(x) {
            let f = pre.filter(p);
            assert forall|i: int| 0 <= i < f.len() implies !(#[trigger] f[i].from_id == x.from_id
                && f[i].to_id == x.to_id) by {
                assert(f.contains(f[i]));
                pre.lemma_filter_contains_rev(p, f[i]);
                let k = choose|k: int| 0 <= k < pre.len() && pre[k] == f[i];
                assert(!(pre[k].from_id == x.from_id && pre[k].to_id == x.to_id));
            }
            lemma_simple_push(f, x);
        }
    }
}

/// Removing a node or a connector keeps the connectors of a diagram free of self-loops and of
/// repeated links in the same direction.
pub proof fn law_deletions_keep_links_simple(d: DiagramView, id: Seq<char>)
    requires
        links_are_simple(d.connectors),
    ensures
        links_are_simple(d.connectors.filter(|c: ConnectorView| c.from_id != id && c.to_id != id)),
        links_are_simple(d.connectors.filter(|c: ConnectorView| c.id != id)),
{
    lemma_filter_keeps_links_simple(d.connectors, |c: ConnectorView| c.from_id != id && c.to_id != id);
    lemma_filter_keeps_links_simple(d.connectors, |c: ConnectorView| c.id != id);
}

} // verus!
