//! The state of one client of the relay: the lines it has received.

use crate::frame::{FrameKind, Inbound};
use vstd::prelude::*;

verus! {

/// The number of lines above which the history is emptied before the next
/// line is added.
pub const HISTORY_LIMIT: usize = 1000;

/// The lines a client shows, oldest first.
pub struct State {
    messages: Vec<String>,
}

impl View for State {
    type V = Seq<String>;

    closed spec fn view(&self) -> Seq<String> {
        self.messages@
    }
}

/// The history after one more line has been received.
pub open spec fn history_after(lines: Seq<String>, message: String) -> Seq<String> {
    if lines.len() > HISTORY_LIMIT {
        seq![message]
    } else {
        lines.push(message)
    }
}

/// Whether a client goes on after this inbound result: it does so on a text
/// frame, whose payload becomes a new line, and on nothing else.
pub fn is_incoming_text(inbound: &Inbound) -> (yes: bool)
    ensures
        yes == (*inbound == Inbound::Frame(FrameKind::Text)),
{
    match inbound {
        Inbound::Frame(FrameKind::Text) => true,
        _ => false,
    }
}

impl State {
    /// A state without lines.
    pub fn new() -> (state: State)
        ensures
            state@ == Seq::<String>::empty(),
    {
        State { messages: Vec::new() }
    }

    /// The lines, oldest first.
    pub fn messages(&self) -> (lines: &Vec<String>)
        ensures
            lines@ == self@,
    {
        &self.messages
    }

    /// Adds a received line at the end. A history that has grown beyond
    /// `HISTORY_LIMIT` lines is emptied first.
    pub fn receive(&mut self, message: String)
        ensures
            final(self)@ == history_after(old(self)@, message),
    {
        if self.messages.len() > HISTORY_LIMIT {
            self.messages.clear();
        }
        self.messages.push(message);
        proof {
            if old(self)@.len() > HISTORY_LIMIT {
                assert(self.messages@ =~= seq![message]);
            }
        }
    }
}

/// The history keeps the order of arrival: after two lines were received
/// one after the other, the later one is the last line, and if the earlier
/// one is still held it stands directly before it.
pub proof fn lemma_history_keeps_arrival_order(lines: Seq<String>, earlier: String, later: String)
    ensures
        ({
            let both = history_after(history_after(lines, earlier), later);
            &&& both.len() >= 1
            &&& both.last() == later
            &&& both.len() >= 2 ==> both[both.len() - 2] == earlier
        }),
{
}

} // verus!
