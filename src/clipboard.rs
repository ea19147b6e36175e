//! The decisions of the clipboard watcher: when clipboard text counts as new, and
//! when washed text may be written back.
use vstd::prelude::*;

verus! {

/// Remembers the clipboard text seen last, to notice when it changes.
pub struct ClipboardPoller {
    last_text: String,
}

impl ClipboardPoller {
    pub closed spec fn last(&self) -> Seq<char> {
        self.last_text@
    }

    /// A poller that has seen only the empty text.
    pub fn new() -> (r: ClipboardPoller)
        ensures
            r.last() == Seq::<char>::empty(),
    {
        ClipboardPoller { last_text: String::new() }
    }

    /// Takes the text just read from the clipboard; it is new when it differs from the
    /// last text seen, and then it becomes the last text seen.
    pub fn poll(&mut self, text: String) -> (r: bool)
        ensures
            r == (text@ != old(self).last()),
            final(self).last() == text@,
    {
        if self.last_text == text {
            false
        } else {
            self.last_text = text;
            true
        }
    }

    pub fn last_text(&self) -> (r: &String)
        ensures
            r@ == self.last(),
    {
        &self.last_text
    }

    /// Records text written to the clipboard, so that it is not taken for new text.
    pub fn set_text(&mut self, text: String)
        ensures
            final(self).last() == text@,
    {
        self.last_text = text;
    }
}

/// Whether washed text may replace the clipboard: it must differ from what was read,
/// and the clipboard must still hold what was read.
pub fn should_write_back(dirty: &String, clean: &String, current: &Option<String>) -> (r: bool)
    ensures
        r == (clean@ != dirty@ && current is Some && current->Some_0@ == dirty@),
{
    if *clean == *dirty {
        return false;
    }
    match current {
        Some(c) => *c == *dirty,
        None => false,
    }
}

} // verus!
