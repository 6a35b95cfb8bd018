//! Who drives a session's input: the agent, or a human who claimed it from
//! the viewer.

use crate::text::str_eq;
use vstd::prelude::*;

verus! {

/// Who currently owns the input path.
#[derive(Debug, Clone, Copy, PartialEq, Eq, Structural)]
pub enum Control {
    Agent,
    Human,
}

/// The owner a viewer's control action asks for: `claim` hands input to the
/// human, `release` gives it back to the agent.
pub open spec fn control_for(action: Seq<char>) -> Option<Control> {
    if action == "claim"@ {
        Some(Control::Human)
    } else if action == "release"@ {
        Some(Control::Agent)
    } else {
        None
    }
}

/// The owner a control action names, or `None` for an unknown action.
pub fn control_owner(action: &str) -> (res: Option<Control>)
    ensures
        res == control_for(action@),
{
    if str_eq(action, "claim") {
        Some(Control::Human)
    } else if str_eq(action, "release") {
        Some(Control::Agent)
    } else {
        None
    }
}

/// The name the viewer protocol gives an owner.
pub open spec fn control_name(owner: Control) -> Seq<char> {
    match owner {
        Control::Agent => "agent"@,
        Control::Human => "human"@,
    }
}

pub fn control_label(owner: Control) -> (res: &'static str)
    ensures
        res@ == control_name(owner),
{
    match owner {
        Control::Agent => "agent",
        Control::Human => "human",
    }
}

} // verus!
