//! Following the clipboard's text, to share it when it changes. Reading and
//! writing the system clipboard is the caller's part; here it is decided
//! what counts as a change.

use vstd::prelude::*;

verus! {

/// The clipboard text last seen or set.
#[derive(Debug)]
pub struct ClipboardTracker {
    last_content: String,
}

/// What polling yields, given the text last seen and the clipboard's text
/// now (`None` where it could not be read): the text, when it was read and
/// differs from the last.
pub open spec fn spec_change(last: Seq<char>, current: Option<String>) -> Option<Seq<char>> {
    match current {
        Some(c) => if c@ != last {
            Some(c@)
        } else {
            None
        },
        None => None,
    }
}

impl ClipboardTracker {
    /// The clipboard text last seen or set.
    pub closed spec fn last(&self) -> Seq<char> {
        self.last_content@
    }

    /// A tracker that has seen nothing yet: the empty text.
    pub fn new() -> (t: Self)
        ensures
            t.last() == Seq::<char>::empty(),
    {
        ClipboardTracker { last_content: String::new() }
    }

    /// The clipboard text last seen or set.
    pub fn last_content(&self) -> (s: &String)
        ensures
            s@ == self.last(),
    {
        &self.last_content
    }

    /// Record that the clipboard was set to `text`, so that finding it
    /// there is no change.
    pub fn record_set(&mut self, text: &str)
        ensures
            final(self).last() == text@,
    {
        self.last_content = text.to_owned();
    }

    /// Whether the clipboard changed: given its text now (`None` where it
    /// could not be read), the new text when it was read and differs from
    /// the last; that text is then the last.
    pub fn poll_changes(&mut self, current: Option<String>) -> (r: Option<String>)
        ensures
            match spec_change(old(self).last(), current) {
                Some(t) => r matches Some(s) && s@ == t && final(self).last() == t,
                None => r is None && final(self).last() == old(self).last(),
            },
    {
        match current {
            Some(c) => {
                if !(c == self.last_content) {
                    self.last_content = c.clone();
                    Some(c)
                } else {
                    None
                }
            },
            None => None,
        }
    }
}

/// Text the program itself put on the clipboard is no change when it is
/// read back, and a text that was reported once is not reported again.
pub proof fn law_no_echo(last: Seq<char>, current: String)
    requires
        current@ == last,
    ensures
        spec_change(last, Some(current)) is None,
{
}

/// A text read from the clipboard that differs from the last one is
/// reported, and is the last one afterwards.
pub proof fn law_new_text_reported(last: Seq<char>, current: String)
    requires
        current@ != last,
    ensures
        spec_change(last, Some(current)) == Some(current@),
{
}

} // verus!
