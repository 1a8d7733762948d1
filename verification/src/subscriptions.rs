//! The events-list tool's argument shape, its timeout default, and the
//! preset names it accepts.
use vstd::prelude::*;

use crate::chars::{lower_spec, str_eq, str_to_ascii_lower};

verus! {

/// Arguments of the events-list tool.
pub struct EventsListArgs {
    pub preset: String,
    pub limit: Option<u64>,
    pub timeout_secs: Option<u64>,
    pub author_npub: Option<String>,
    pub kind: Option<u16>,
    pub since: Option<u64>,
    pub until: Option<u64>,
}

impl EventsListArgs {
    /// The fetch timeout in seconds: the given value, or ten.
    pub fn timeout(&self) -> (r: u64)
        ensures
            r == (match self.timeout_secs {
                Option::Some(t) => t,
                Option::None => 10u64,
            }),
    {
        match self.timeout_secs {
            Option::Some(t) => t,
            Option::None => 10,
        }
    }
}

/// The event-list presets.
#[derive(Debug, Clone, Copy, PartialEq, Eq, Structural)]
pub enum EventPreset {
    MyNotes,
    MentionsMe,
    MyMetadata,
    ByAuthor,
}

/// `my_notes`
pub open spec fn lit_my_notes() -> Seq<char> {
    seq!['m', 'y', '_', 'n', 'o', 't', 'e', 's']
}

/// `mentions_me`
pub open spec fn lit_mentions_me() -> Seq<char> {
    seq!['m', 'e', 'n', 't', 'i', 'o', 'n', 's', '_', 'm', 'e']
}

/// `my_metadata`
pub open spec fn lit_my_metadata() -> Seq<char> {
    seq!['m', 'y', '_', 'm', 'e', 't', 'a', 'd', 'a', 't', 'a']
}

/// `by_author`
pub open spec fn lit_by_author() -> Seq<char> {
    seq!['b', 'y', '_', 'a', 'u', 't', 'h', 'o', 'r']
}

/// The preset a name denotes, case-insensitively; an unknown name is
/// rejected.
pub open spec fn preset_spec(s: Seq<char>) -> Option<EventPreset> {
    let l = lower_spec(s);
    if l == lit_my_notes() {
        Some(EventPreset::MyNotes)
    } else if l == lit_mentions_me() {
        Some(EventPreset::MentionsMe)
    } else if l == lit_my_metadata() {
        Some(EventPreset::MyMetadata)
    } else if l == lit_by_author() {
        Some(EventPreset::ByAuthor)
    } else {
        None
    }
}

/// Parse a preset name.
pub fn parse_preset(s: &str) -> (r: Option<EventPreset>)
    ensures
        r == preset_spec(s@),
{
    proof {
        reveal_strlit("my_notes");
        reveal_strlit("mentions_me");
        reveal_strlit("my_metadata");
        reveal_strlit("by_author");
    }
    let l1 = "my_notes";
    let l2 = "mentions_me";
    let l3 = "my_metadata";
    let l4 = "by_author";
    assert(l1@ =~= lit_my_notes());
    assert(l2@ =~= lit_mentions_me());
    assert(l3@ =~= lit_my_metadata());
    assert(l4@ =~= lit_by_author());
    let l = str_to_ascii_lower(s);
    if str_eq(l.as_str(), l1) {
        Some(EventPreset::MyNotes)
    } else if str_eq(l.as_str(), l2) {
        Some(EventPreset::MentionsMe)
    } else if str_eq(l.as_str(), l3) {
        Some(EventPreset::MyMetadata)
    } else if str_eq(l.as_str(), l4) {
        Some(EventPreset::ByAuthor)
    } else {
        None
    }
}

} // verus!
