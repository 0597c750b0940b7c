//! The decisions of the interactive prompt: a line editor with a history,
//! driven by key presses. The terminal itself is handled by the caller,
//! which performs the returned action.

use vstd::prelude::*;
use crate::text::{chars_of, push_char, text_from_chars};

verus! {

/// The prompt printed before each line.
pub const PROMPT_LEN: usize = 2;

/// A key press, as the prompt tells them apart.
#[derive(Debug, Clone, Copy, PartialEq, Eq, Structural)]
pub enum ReplKey {
    Up,
    Down,
    Backspace,
    /// Ctrl-U.
    ClearLine,
    /// Ctrl-C.
    Interrupt,
    Char(char),
    Enter,
    Other,
}

/// What the terminal should do after a key press.
#[derive(Debug)]
pub enum ReplAction {
    Nothing,
    /// Clear the line after the prompt and show this history entry.
    Recall(String),
    /// Erase the last character shown.
    EraseChar,
    /// Clear the line after the prompt.
    ClearLine,
    /// Show one more typed character.
    Echo(char),
    /// Run this line.
    Submit(String),
    /// Leave the prompt, as interrupted.
    Exit,
}

/// The line being edited, the lines entered so far, and the position in
/// them that the arrow keys move.
pub struct ReplState {
    history: Vec<String>,
    history_pos: usize,
    source: String,
}

impl ReplState {
    pub closed spec fn history(&self) -> Seq<Seq<char>> {
        self.history@.map_values(|s: String| s@)
    }

    pub closed spec fn position(&self) -> nat {
        self.history_pos as nat
    }

    pub closed spec fn line(&self) -> Seq<char> {
        self.source@
    }

    /// The history position is at most one past the last entry.
    pub closed spec fn wf(&self) -> bool {
        self.history_pos <= self.history@.len()
    }

    /// An empty line and an empty history.
    pub fn new() -> (r: ReplState)
        ensures
            r.wf(),
            r.history() == Seq::<Seq<char>>::empty(),
            r.position() == 0,
            r.line() == Seq::<char>::empty(),
    {
        let r = ReplState { history: Vec::new(), history_pos: 0, source: String::new() };
        assert(r.history() =~= Seq::<Seq<char>>::empty());
        r
    }

    /// The line being edited.
    pub fn source(&self) -> (r: &String)
        ensures
            r@ == self.line(),
    {
        &self.source
    }

    /// Handles one key press; `column` is the cursor's column on screen.
    pub fn handle_key(&mut self, key: ReplKey, column: usize) -> (a: ReplAction)
        requires
            old(self).wf(),
        ensures
            final(self).wf(),
            match key {
                ReplKey::Up => if old(self).position() == 0 {
                    a is Nothing && *final(self) == *old(self)
                } else {
                    final(self).position() == old(self).position() - 1
                        && final(self).history() == old(self).history()
                        && final(self).line() == old(self).history()[final(self).position() as int]
                        && (a matches ReplAction::Recall(s) && s@ == final(self).line())
                },
                ReplKey::Down => if old(self).position() + 1 >= old(self).history().len() {
                    a is Nothing && *final(self) == *old(self)
                } else {
                    final(self).position() == old(self).position() + 1
                        && final(self).history() == old(self).history()
                        && final(self).line() == old(self).history()[final(self).position() as int]
                        && (a matches ReplAction::Recall(s) && s@ == final(self).line())
                },
                ReplKey::Backspace => if column > PROMPT_LEN {
                    a is EraseChar && final(self).history() == old(self).history()
                        && final(self).position() == old(self).position()
                        && final(self).line() == (if old(self).line().len() > 0 { old(self).line().drop_last() } else { old(self).line() })
                } else {
                    a is Nothing && *final(self) == *old(self)
                },
                ReplKey::ClearLine => a is ClearLine && final(self).line() == Seq::<char>::empty()
                    && final(self).history() == old(self).history() && final(self).position() == old(self).position(),
                ReplKey::Interrupt => a is Exit && *final(self) == *old(self),
                ReplKey::Char(c) => (a matches ReplAction::Echo(x) && x == c) && final(self).line() == old(self).line().push(c)
                    && final(self).history() == old(self).history() && final(self).position() == old(self).position(),
                ReplKey::Enter => (a matches ReplAction::Submit(s) && s@ == old(self).line())
                    && final(self).history() == old(self).history().push(old(self).line())
                    && final(self).position() == final(self).history().len()
                    && final(self).line() == Seq::<char>::empty(),
                ReplKey::Other => a is Nothing && *final(self) == *old(self),
            },
    {
        match key {
            ReplKey::Up => {
                if self.history_pos == 0 {
                    return ReplAction::Nothing;
                }
                self.history_pos = self.history_pos - 1;
                self.source = self.history[self.history_pos].clone();
                ReplAction::Recall(self.source.clone())
            },
            ReplKey::Down => {
                if self.history_pos >= self.history.len() || self.history_pos + 1 >= self.history.len() {
                    return ReplAction::Nothing;
                }
                self.history_pos = self.history_pos + 1;
                self.source = self.history[self.history_pos].clone();
                ReplAction::Recall(self.source.clone())
            },
            ReplKey::Backspace => {
                if column > PROMPT_LEN {
                    let cs = chars_of(self.source.as_str());
                    if cs.len() > 0 {
                        self.source = text_from_chars(&cs, 0, cs.len() - 1);
                        assert(self.source@ =~= old(self).line().drop_last());
                    }
                    ReplAction::EraseChar
                } else {
                    ReplAction::Nothing
                }
            },
            ReplKey::ClearLine => {
                self.source = String::new();
                ReplAction::ClearLine
            },
            ReplKey::Interrupt => ReplAction::Exit,
            ReplKey::Char(c) => {
                push_char(&mut self.source, c);
                ReplAction::Echo(c)
            },
            ReplKey::Enter => {
                let line = self.source.clone();
                self.history.push(self.source.clone());
                self.history_pos = self.history.len();
                self.source = String::new();
                proof {
                    assert(self.history() =~= old(self).history().push(old(self).line()));
                }
                ReplAction::Submit(line)
            },
            ReplKey::Other => ReplAction::Nothing,
        }
    }
}

} // verus!
