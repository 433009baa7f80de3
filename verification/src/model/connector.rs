//! Directed connectors between flowchart nodes.
use vstd::prelude::*;

use crate::text::{chars_eq, chars_of, owned, to_upper_chars, trim, trim_chars, upper_text};

verus! {

/// The label of an outgoing branch of a condition node.
#[derive(Clone, Copy, PartialEq, Eq, Debug, Structural)]
pub enum BranchCondition {
    Default,
    Yes,
    No,
}

impl BranchCondition {
    /// The tag written after a connector in an FPP file.
    pub open spec fn tag_text(self) -> Seq<char> {
        match self {
            BranchCondition::Default => ""@,
            BranchCondition::Yes => "YES"@,
            BranchCondition::No => "NO"@,
        }
    }

    /// The branch that an upper-cased FPP tag names.
    pub open spec fn of_upper_tag(u: Seq<char>) -> BranchCondition {
        if u == "YES"@ || u == "EVET"@ {
            BranchCondition::Yes
        } else if u == "NO"@ || u == "HAYIR"@ {
            BranchCondition::No
        } else {
            BranchCondition::Default
        }
    }

    pub fn tag(&self) -> (r: &'static str)
        ensures
            r@ == self.tag_text(),
    {
        match self {
            BranchCondition::Default => "",
            BranchCondition::Yes => "YES",
            BranchCondition::No => "NO",
        }
    }

    /// The branch for a tag that is already trimmed and upper-cased.
    pub fn from_upper_tag(u: &Vec<char>) -> (r: BranchCondition)
        ensures
            r == BranchCondition::of_upper_tag(u@),
    {
        if chars_eq(u, &chars_of("YES")) || chars_eq(u, &chars_of("EVET")) {
            BranchCondition::Yes
        } else if chars_eq(u, &chars_of("NO")) || chars_eq(u, &chars_of("HAYIR")) {
            BranchCondition::No
        } else {
            BranchCondition::Default
        }
    }

    /// Reads a branch tag: `YES`/`EVET` and `NO`/`HAYIR` in any case, surrounded by any
    /// whitespace; anything else is the default branch.
    pub fn from_fpp_str(s: &str) -> (r: BranchCondition)
        ensures
            r == BranchCondition::of_upper_tag(upper_text(trim(s@))),
    {
        let t = trim_chars(&chars_of(s));
        let u = to_upper_chars(&t);
        BranchCondition::from_upper_tag(&u)
    }
}

/// A directed edge from one node to another, with the branch it stands for.
pub struct Connector {
    pub id: String,
    pub from_id: String,
    pub to_id: String,
    pub condition: BranchCondition,
}

/// The content of a connector.
pub struct ConnectorView {
    pub id: Seq<char>,
    pub from_id: Seq<char>,
    pub to_id: Seq<char>,
    pub condition: BranchCondition,
}

impl View for Connector {
    type V = ConnectorView;

    open spec fn view(&self) -> ConnectorView {
        ConnectorView {
            id: self.id@,
            from_id: self.from_id@,
            to_id: self.to_id@,
            condition: self.condition,
        }
    }
}

impl Clone for Connector {
    fn clone(&self) -> (r: Self)
        ensures
            r == *self,
    {
        Connector {
            id: self.id.clone(),
            from_id: self.from_id.clone(),
            to_id: self.to_id.clone(),
            condition: self.condition,
        }
    }
}

impl Connector {
    pub fn new(id: &str, from_id: &str, to_id: &str, condition: BranchCondition) -> (r: Connector)
        ensures
            r.id@ == id@,
            r.from_id@ == from_id@,
            r.to_id@ == to_id@,
            r.condition == condition,
    {
        Connector { id: owned(id), from_id: owned(from_id), to_id: owned(to_id), condition }
    }
}

} // verus!
