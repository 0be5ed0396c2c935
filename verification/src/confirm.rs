//! The question that stands before a tab or window is closed.
use vstd::prelude::*;

verus! {

/// What a yes closes.
#[derive(Clone, Copy, Debug, PartialEq, Eq, Structural)]
pub enum PendingClose {
    /// A certain tab.
    Tab(usize),
    /// The current split or tab.
    Current,
    /// The window, its last tab being closed.
    Window,
}

/// The question, while it is asked.
#[derive(Debug)]
pub struct ConfirmClose {
    pending: Option<PendingClose>,
}

impl View for ConfirmClose {
    type V = Option<PendingClose>;

    closed spec fn view(&self) -> Option<PendingClose> {
        self.pending
    }
}

impl Default for ConfirmClose {
    fn default() -> (confirm: ConfirmClose)
        ensures
            confirm@ is None,
    {
        ConfirmClose { pending: None }
    }
}

/// What the question says.
pub open spec fn question_of(pending: PendingClose) -> Seq<char> {
    match pending {
        PendingClose::Window => "close this window?"@,
        _ => "close this tab?"@,
    }
}

impl ConfirmClose {
    pub fn is_active(&self) -> (active: bool)
        ensures
            active == (self@ is Some),
    {
        self.pending.is_some()
    }

    pub fn pending(&self) -> (pending: Option<PendingClose>)
        ensures
            pending == self@,
    {
        self.pending
    }

    pub fn set_pending(&mut self, pending: Option<PendingClose>)
        ensures
            final(self)@ == pending,
    {
        self.pending = pending;
    }

    /// The question and the answers beside it, while it is asked.
    pub fn text(&self) -> (text: Option<(String, String)>)
        ensures
            match self@ {
                Some(pending) => text matches Some(t) && t.0@ == question_of(pending) && t.1@
                    == "  yes (y)  /  no (n)"@,
                None => text is None,
            },
    {
        match self.pending {
            Some(PendingClose::Window) => Some(
                ("close this window?".to_owned(), "  yes (y)  /  no (n)".to_owned()),
            ),
            Some(_) => Some(("close this tab?".to_owned(), "  yes (y)  /  no (n)".to_owned())),
            None => None,
        }
    }
}

} // verus!
