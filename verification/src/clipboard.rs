//! The history of copied texts: the last few, oldest first, without a text
//! twice in a row; and the rules by which a reading of the clipboard enters
//! it.

use vstd::prelude::*;
use crate::strings::{copied, texts};
use crate::text::{blank, is_blank};

verus! {

/// How many texts the history holds.
pub const HISTORY_LIMIT: usize = 10;

/// The history after a text is added: a text equal to the newest one
/// changes nothing; any other goes to the end, and the oldest leaves when
/// there are more than `HISTORY_LIMIT`.
pub open spec fn with_text(history: Seq<Seq<char>>, text: Seq<char>) -> Seq<Seq<char>> {
    if history.len() > 0 && history.last() == text {
        history
    } else if history.len() >= HISTORY_LIMIT {
        history.push(text).drop_first()
    } else {
        history.push(text)
    }
}

/// Whether a history is one that adding texts to an empty history can
/// give: within the limit, and no text next to an equal one.
pub open spec fn is_history(history: Seq<Seq<char>>) -> bool {
    &&& history.len() <= HISTORY_LIMIT
    &&& forall|i: int| 0 < i < history.len() ==> history[i - 1] != #[trigger] history[i]
}

/// Adding a text keeps a history a history.
pub proof fn lemma_with_text_is_history(history: Seq<Seq<char>>, text: Seq<char>)
    requires
        is_history(history),
    ensures
        is_history(with_text(history, text)),
{
    let after = with_text(history, text);
    assert forall|i: int| 0 < i < after.len() implies after[i - 1] != #[trigger] after[i] by {
        if history.len() > 0 && history.last() == text {
        } else if history.len() >= HISTORY_LIMIT {
            if i < after.len() - 1 {
                assert(after[i] == history[i + 1]);
                assert(after[i - 1] == history[i]);
            } else {
                assert(after[i] == text);
                assert(after[i - 1] == history.last());
            }
        } else {
            if i < after.len() - 1 {
                assert(after[i] == history[i]);
            }
        }
    }
}

/// Why a reading of the clipboard was not recorded.
#[derive(Clone, Copy, Debug)]
pub enum ClipboardError {
    /// The clipboard gave no text, or a blank one.
    NothingToRecord,
}

impl ClipboardError {
    /// The error as a message for the user.
    pub fn message(&self) -> (text: String)
        ensures
            text@ == "Clipboard empty or unsupported format"@,
    {
        "Clipboard empty or unsupported format".to_owned()
    }
}

/// Whether a reading of the clipboard is a text worth recording.
pub open spec fn is_recordable(reading: Option<String>) -> bool {
    match reading {
        Some(text) => !is_blank(text@),
        None => false,
    }
}

/// The texts copied lately, oldest first.
#[derive(Debug)]
pub struct ClipboardHistory {
    items: Vec<String>,
}

impl View for ClipboardHistory {
    type V = Seq<Seq<char>>;

    closed spec fn view(&self) -> Seq<Seq<char>> {
        texts(self.items@)
    }
}

impl ClipboardHistory {
    /// An empty history.
    pub fn new() -> (history: ClipboardHistory)
        ensures
            history@ == Seq::<Seq<char>>::empty(),
            is_history(history@),
    {
        let history = ClipboardHistory { items: Vec::new() };
        assert(history@ =~= Seq::<Seq<char>>::empty());
        history
    }

    /// Adds a text, unless it equals the newest one. The oldest text leaves
    /// when the history would grow beyond `HISTORY_LIMIT`.
    pub fn add_text(&mut self, text: String)
        ensures
            final(self)@ == with_text(old(self)@, text@),
            is_history(old(self)@) ==> is_history(final(self)@),
    {
        let ghost before = self@;
        let ghost added = text@;
        let n = self.items.len();
        if n == 0 || !(self.items[n - 1] == text) {
            self.items.push(text);
            assert(self@ =~= before.push(added));
            if self.items.len() > HISTORY_LIMIT {
                self.items.remove(0);
                assert(self@ =~= before.push(added).drop_first());
            }
        }
        proof {
            if is_history(before) {
                lemma_with_text_is_history(before, added);
            }
        }
    }

    /// Records what was read from the clipboard on request: a text that is
    /// not blank is added; a blank one, or none, is an error and changes
    /// nothing.
    pub fn record(&mut self, reading: Option<String>) -> (done: Result<(), ClipboardError>)
        ensures
            (done is Ok) == is_recordable(reading),
            done is Ok ==> final(self)@ == with_text(old(self)@, reading->0@),
            done is Err ==> final(self)@ == old(self)@,
            done is Err ==> done->Err_0 == ClipboardError::NothingToRecord,
            is_history(old(self)@) ==> is_history(final(self)@),
    {
        match reading {
            Some(text) => {
                if blank(text.as_str()) {
                    Err(ClipboardError::NothingToRecord)
                } else {
                    self.add_text(text);
                    Ok(())
                }
            },
            None => Err(ClipboardError::NothingToRecord),
        }
    }

    /// Forgets every text.
    pub fn clear(&mut self)
        ensures
            final(self)@ == Seq::<Seq<char>>::empty(),
    {
        self.items.clear();
        assert(self@ =~= Seq::<Seq<char>>::empty());
    }

    /// How many texts the history holds.
    pub fn len(&self) -> (n: usize)
        ensures
            n == self@.len(),
    {
        self.items.len()
    }

    /// A copy of the texts, oldest first.
    pub fn items(&self) -> (copy: Vec<String>)
        ensures
            texts(copy@) == self@,
    {
        copied(&self.items)
    }
}

/// Follows the clipboard while it is polled, so that a text that stays on
/// it is recorded once.
#[derive(Debug)]
pub struct ClipboardWatcher {
    last_text: String,
}

impl View for ClipboardWatcher {
    type V = Seq<char>;

    /// The text that was recorded last; empty at the start.
    closed spec fn view(&self) -> Seq<char> {
        self.last_text@
    }
}

impl ClipboardWatcher {
    /// A watcher that has recorded nothing yet.
    pub fn new() -> (watcher: ClipboardWatcher)
        ensures
            watcher@ == Seq::<char>::empty(),
    {
        ClipboardWatcher { last_text: String::new() }
    }

    /// Takes one reading of a poll. A text that is not blank and differs
    /// from the one recorded last is added to the history and remembered.
    /// Any other reading, a failed one too, changes nothing.
    pub fn observe(&mut self, history: &mut ClipboardHistory, reading: Option<String>) -> (recorded:
        bool)
        ensures
            recorded == (is_recordable(reading) && reading->0@ != old(self)@),
            recorded ==> final(self)@ == reading->0@ && final(history)@ == with_text(
                old(history)@,
                reading->0@,
            ),
            !recorded ==> final(self)@ == old(self)@ && final(history)@ == old(history)@,
            is_history(old(history)@) ==> is_history(final(history)@),
    {
        match reading {
            Some(text) => {
                if blank(text.as_str()) || text == self.last_text {
                    false
                } else {
                    history.add_text(text.clone());
                    self.last_text = text;
                    true
                }
            },
            None => false,
        }
    }
}

} // verus!
