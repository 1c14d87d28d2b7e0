//! The editor's view-model: screen origin, prompt, input buffer, validated
//! keywords, the current suggestion and the two selection cursors.

use vstd::prelude::*;
use std::rc::Rc;
use crate::command::Command;
use crate::text::chars_to_string;

pub use crate::suggestion::Suggestion;

verus! {

/// A keyword the user committed with the space key: `Valid` when it was a
/// catalog keyword at that moment, `Invalid` otherwise.
#[derive(Clone, Debug)]
pub enum ValidatedKeyword {
    Valid(String),
    Invalid(String),
}

/// The texts of the `Valid` keywords, in order: the ones that narrow the
/// command list.
pub open spec fn valid_texts(s: Seq<ValidatedKeyword>) -> Seq<Seq<char>>
    decreases s.len(),
{
    if s.len() == 0 {
        Seq::empty()
    } else {
        valid_texts(s.drop_last()) + (match s.last() {
            ValidatedKeyword::Valid(k) => seq![k@],
            ValidatedKeyword::Invalid(_) => Seq::<Seq<char>>::empty(),
        })
    }
}

/// The editor state. Rendering reads these fields; every mutation keeps the
/// selection cursors consistent with their lists.
pub struct Screen {
    pub x: u16,
    pub y: u16,
    pub prompt: String,
    pub current_line: Vec<char>,
    pub validated_keywords: Vec<ValidatedKeyword>,
    pub auto_complete: Vec<String>,
    pub selected_auto_complete_index: Option<usize>,
    pub commands: Vec<Rc<Command>>,
    pub selected_command_index: Option<usize>,
    pub term_size: (u16, u16),
}

impl Screen {
    /// The keyword cursor is `Some` exactly when there are keyword
    /// suggestions, and then in range.
    pub open spec fn wf_auto_complete(self) -> bool {
        match self.selected_auto_complete_index {
            Some(i) => i < self.auto_complete@.len(),
            None => self.auto_complete@.len() == 0,
        }
    }

    /// The command cursor is `Some` exactly when there are listed commands,
    /// and then in range.
    pub open spec fn wf_commands(self) -> bool {
        match self.selected_command_index {
            Some(i) => i < self.commands@.len(),
            None => self.commands@.len() == 0,
        }
    }

    /// Both selection cursors are consistent with their lists.
    pub open spec fn wf(self) -> bool {
        self.wf_auto_complete() && self.wf_commands()
    }

    /// The fields no editing operation changes.
    pub open spec fn eq_static(self, o: Screen) -> bool {
        self.x == o.x && self.y == o.y && self.prompt == o.prompt && self.term_size == o.term_size
    }

    /// The two suggestion lists and their cursors are unchanged.
    pub open spec fn eq_suggestion(self, o: Screen) -> bool {
        self.auto_complete == o.auto_complete && self.selected_auto_complete_index
            == o.selected_auto_complete_index && self.commands == o.commands
            && self.selected_command_index == o.selected_command_index
    }

    /// A fresh editor for the given terminal size: empty input, no
    /// validated keywords, empty suggestion, no selections.
    pub fn new(term_size: (u16, u16)) -> (r: Screen)
        ensures
            r.x == 1u16,
            r.y == 1u16,
            r.prompt@ == "> "@,
            r.current_line@ == Seq::<char>::empty(),
            r.validated_keywords@ == Seq::<ValidatedKeyword>::empty(),
            r.auto_complete@ == Seq::<String>::empty(),
            r.selected_auto_complete_index is None,
            r.commands@ == Seq::<Rc<Command>>::empty(),
            r.selected_command_index is None,
            r.term_size == term_size,
            r.wf(),
    {
        Screen {
            prompt: "> ".to_owned(),
            x: 1,
            y: 1,
            current_line: Vec::new(),
            validated_keywords: Vec::new(),
            auto_complete: Vec::new(),
            selected_auto_complete_index: None,
            selected_command_index: None,
            commands: Vec::new(),
            term_size,
        }
    }

    /// Pushes the selected keyword suggestion as a `Valid` keyword and
    /// clears the input; without a selection, does nothing.
    pub fn complete(self: &mut Screen)
        requires
            old(self).wf(),
        ensures
            final(self).wf(),
            final(self).eq_static(*old(self)),
            final(self).eq_suggestion(*old(self)),
            match old(self).selected_auto_complete_index {
                Some(i) => {
                    &&& final(self).validated_keywords@.len() == old(self).validated_keywords@.len()
                        + 1
                    &&& final(self).validated_keywords@.drop_last() == old(self).validated_keywords@
                    &&& (final(self).validated_keywords@.last() matches ValidatedKeyword::Valid(k)
                        && k@ == old(self).auto_complete@[i as int]@)
                    &&& final(self).current_line@ == Seq::<char>::empty()
                },
                None => *final(self) == *old(self),
            },
    {
        if let Some(idx) = self.selected_auto_complete_index {
            let kw = self.auto_complete[idx].clone();
            self.validated_keywords.push(ValidatedKeyword::Valid(kw));
            self.current_line = Vec::new();
            proof {
                assert(self.validated_keywords@.drop_last() =~= old(self).validated_keywords@);
            }
        }
    }

    /// Appends a committed keyword.
    pub fn add_validated_keyword(self: &mut Screen, vkw: ValidatedKeyword)
        requires
            old(self).wf(),
        ensures
            final(self).wf(),
            final(self).eq_static(*old(self)),
            final(self).eq_suggestion(*old(self)),
            final(self).current_line == old(self).current_line,
            final(self).validated_keywords@ == old(self).validated_keywords@.push(vkw),
    {
        self.validated_keywords.push(vkw);
    }

    /// The command under the cursor, if any.
    pub fn selected_command(self: &Screen) -> (r: Option<Rc<Command>>)
        requires
            self.wf(),
        ensures
            match self.selected_command_index {
                Some(i) => r == Some(self.commands@[i as int]),
                None => r is None,
            },
    {
        match self.selected_command_index {
            Some(idx) => Some(self.commands[idx].clone()),
            None => None,
        }
    }

    /// Moves the keyword cursor right, wrapping around; without a
    /// selection, does nothing.
    pub fn next_suggestion(self: &mut Screen)
        requires
            old(self).wf(),
        ensures
            final(self).wf(),
            match old(self).selected_auto_complete_index {
                Some(i) => *final(self) == (Screen {
                    selected_auto_complete_index: Some(
                        ((i + 1) % (old(self).auto_complete@.len() as int)) as usize,
                    ),
                    ..*old(self)
                }),
                None => *final(self) == *old(self),
            },
    {
        if let Some(s) = self.selected_auto_complete_index {
            let n = self.auto_complete.len();
            self.selected_auto_complete_index = Some((s + 1) % n);
        }
    }

    /// Moves the keyword cursor left, wrapping around; without a selection,
    /// does nothing.
    pub fn previous_suggestion(self: &mut Screen)
        requires
            old(self).wf(),
        ensures
            final(self).wf(),
            match old(self).selected_auto_complete_index {
                Some(i) => *final(self) == (Screen {
                    selected_auto_complete_index: Some(
                        if i == 0 {
                            (old(self).auto_complete@.len() - 1) as usize
                        } else {
                            (i - 1) as usize
                        },
                    ),
                    ..*old(self)
                }),
                None => *final(self) == *old(self),
            },
    {
        if let Some(s) = self.selected_auto_complete_index {
            self.selected_auto_complete_index = Some(
                if s == 0 {
                    self.auto_complete.len() - 1
                } else {
                    s - 1
                },
            );
        }
    }

    /// Moves the command cursor down, wrapping around; without a selection,
    /// does nothing.
    pub fn next_command(self: &mut Screen)
        requires
            old(self).wf(),
        ensures
            final(self).wf(),
            match old(self).selected_command_index {
                Some(i) => *final(self) == (Screen {
                    selected_command_index: Some(
                        ((i + 1) % (old(self).commands@.len() as int)) as usize,
                    ),
                    ..*old(self)
                }),
                None => *final(self) == *old(self),
            },
    {
        if let Some(s) = self.selected_command_index {
            let n = self.commands.len();
            self.selected_command_index = Some((s + 1) % n);
        }
    }

    /// Moves the command cursor up, wrapping around; without a selection,
    /// does nothing.
    pub fn previous_command(self: &mut Screen)
        requires
            old(self).wf(),
        ensures
            final(self).wf(),
            match old(self).selected_command_index {
                Some(i) => *final(self) == (Screen {
                    selected_command_index: Some(
                        if i == 0 {
                            (old(self).commands@.len() - 1) as usize
                        } else {
                            (i - 1) as usize
                        },
                    ),
                    ..*old(self)
                }),
                None => *final(self) == *old(self),
            },
    {
        if let Some(s) = self.selected_command_index {
            self.selected_command_index = Some(
                if s == 0 {
                    self.commands.len() - 1
                } else {
                    s - 1
                },
            );
        }
    }

    /// Replaces both suggestion lists; each cursor is reset to the first
    /// entry exactly when its new list is non-empty.
    pub fn set_suggestion(self: &mut Screen, suggestion: Suggestion)
        ensures
            final(self).wf(),
            final(self).eq_static(*old(self)),
            final(self).current_line == old(self).current_line,
            final(self).validated_keywords == old(self).validated_keywords,
            final(self).auto_complete == suggestion.keywords,
            final(self).commands == suggestion.commands,
            final(self).selected_auto_complete_index == (if suggestion.keywords@.len() > 0 {
                Some(0usize)
            } else {
                None::<usize>
            }),
            final(self).selected_command_index == (if suggestion.commands@.len() > 0 {
                Some(0usize)
            } else {
                None::<usize>
            }),
    {
        let Suggestion { keywords, commands } = suggestion;
        self.set_commands(commands);
        self.set_auto_complete(keywords);
    }

    /// Replaces the keyword suggestions; the cursor is reset to the first
    /// entry exactly when the new list is non-empty.
    pub fn set_auto_complete(self: &mut Screen, keywords: Vec<String>)
        ensures
            final(self).wf_auto_complete(),
            final(self).eq_static(*old(self)),
            final(self).current_line == old(self).current_line,
            final(self).validated_keywords == old(self).validated_keywords,
            final(self).commands == old(self).commands,
            final(self).selected_command_index == old(self).selected_command_index,
            final(self).auto_complete == keywords,
            final(self).selected_auto_complete_index == (if keywords@.len() > 0 {
                Some(0usize)
            } else {
                None::<usize>
            }),
    {
        self.auto_complete = keywords;
        if self.auto_complete.is_empty() {
            self.selected_auto_complete_index = None;
        } else {
            self.selected_auto_complete_index = Some(0);
        }
    }

    /// Replaces the listed commands; the cursor is reset to the first entry
    /// exactly when the new list is non-empty.
    pub fn set_commands(self: &mut Screen, commands: Vec<Rc<Command>>)
        ensures
            final(self).wf_commands(),
            final(self).eq_static(*old(self)),
            final(self).current_line == old(self).current_line,
            final(self).validated_keywords == old(self).validated_keywords,
            final(self).auto_complete == old(self).auto_complete,
            final(self).selected_auto_complete_index == old(self).selected_auto_complete_index,
            final(self).commands == commands,
            final(self).selected_command_index == (if commands@.len() > 0 {
                Some(0usize)
            } else {
                None::<usize>
            }),
    {
        self.commands = commands;
        if self.commands.is_empty() {
            self.selected_command_index = None;
        } else {
            self.selected_command_index = Some(0);
        }
    }

    /// The current input buffer as a string.
    pub fn input(self: &Screen) -> (r: String)
        ensures
            r@ == self.current_line@,
    {
        chars_to_string(&self.current_line)
    }

    /// Takes the input buffer, leaving it empty, and returns what it held.
    pub fn reset_input(self: &mut Screen) -> (r: String)
        requires
            old(self).wf(),
        ensures
            final(self).wf(),
            r@ == old(self).current_line@,
            final(self).current_line@ == Seq::<char>::empty(),
            final(self).eq_static(*old(self)),
            final(self).eq_suggestion(*old(self)),
            final(self).validated_keywords == old(self).validated_keywords,
    {
        let r = chars_to_string(&self.current_line);
        self.current_line = Vec::new();
        r
    }

    /// Appends one character to the input buffer.
    pub fn add(self: &mut Screen, key: char)
        requires
            old(self).wf(),
        ensures
            final(self).wf(),
            final(self).current_line@ == old(self).current_line@.push(key),
            final(self).eq_static(*old(self)),
            final(self).eq_suggestion(*old(self)),
            final(self).validated_keywords == old(self).validated_keywords,
    {
        self.current_line.push(key);
    }

    /// Drops the last input character; with an empty input buffer, drops
    /// the last validated keyword instead; with both empty, does nothing.
    pub fn remove_last_char(self: &mut Screen)
        requires
            old(self).wf(),
        ensures
            final(self).wf(),
            final(self).eq_static(*old(self)),
            final(self).eq_suggestion(*old(self)),
            old(self).current_line@.len() > 0 ==> {
                &&& final(self).current_line@ == old(self).current_line@.drop_last()
                &&& final(self).validated_keywords == old(self).validated_keywords
            },
            old(self).current_line@.len() == 0 && old(self).validated_keywords@.len() > 0 ==> {
                &&& final(self).current_line == old(self).current_line
                &&& final(self).validated_keywords@ == old(self).validated_keywords@.drop_last()
            },
            old(self).current_line@.len() == 0 && old(self).validated_keywords@.len() == 0
                ==> *final(self) == *old(self),
    {
        if self.current_line.is_empty() {
            if !self.validated_keywords.is_empty() {
                self.validated_keywords.pop();
            }
        } else {
            self.current_line.pop();
        }
    }
}

} // verus!
