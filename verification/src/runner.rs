//! The keystroke state machine: each key event mutates the editor state,
//! re-runs the suggestion engine where the view changed, and decides whether
//! the session goes on, is cancelled, or ends with a chosen command.

use vstd::prelude::*;
use crate::command::{Command, Commands};
use crate::screen::{valid_texts, Screen, ValidatedKeyword};
use crate::suggestion::{suggestion_ok, Suggestion};

verus! {

/// One key event, as the terminal layer hands it over.
#[derive(Clone, Copy, Debug)]
pub enum Key {
    Char(char),
    Backspace,
    Left,
    Right,
    Up,
    Down,
    Other,
}

/// What one keystroke decides: keep going, cancel the session, or emit the
/// chosen command text.
#[derive(Debug)]
pub enum InputLoopAction {
    Continue,
    Cancel,
    Success(String),
}

/// The engine: the immutable catalog and the editor state it drives.
pub struct Runner {
    pub commands: Commands,
    pub screen: Screen,
}

/// The screen's suggestion lists are the engine's answer for the screen's
/// current input state, with both cursors reset.
pub open spec fn refreshed(cat: Commands, s: Screen) -> bool {
    &&& suggestion_ok(
        cat,
        s.current_line@,
        valid_texts(s.validated_keywords@),
        s.auto_complete.deep_view(),
        s.commands@,
    )
    &&& s.selected_auto_complete_index == (if s.auto_complete@.len() > 0 {
        Some(0usize)
    } else {
        None::<usize>
    })
    &&& s.selected_command_index == (if s.commands@.len() > 0 {
        Some(0usize)
    } else {
        None::<usize>
    })
}

/// After the space key: the input is committed as a keyword, tagged by
/// whether the catalog knows it; the suggestion lists are untouched.
pub open spec fn space_post(o: Runner, n: Runner) -> bool {
    &&& n.commands == o.commands
    &&& n.screen.eq_static(o.screen)
    &&& n.screen.eq_suggestion(o.screen)
    &&& n.screen.current_line@ == Seq::<char>::empty()
    &&& n.screen.validated_keywords@.len() == o.screen.validated_keywords@.len() + 1
    &&& n.screen.validated_keywords@.drop_last() == o.screen.validated_keywords@
    &&& match n.screen.validated_keywords@.last() {
        ValidatedKeyword::Valid(s) => s@ == o.screen.current_line@ && o.commands.has_key(s@),
        ValidatedKeyword::Invalid(s) => s@ == o.screen.current_line@ && !o.commands.has_key(s@),
    }
}

/// After the tab key: the selected keyword suggestion, if any, is committed
/// as `Valid` and the input cleared; then the suggestion is recomputed.
pub open spec fn tab_post(o: Runner, n: Runner) -> bool {
    &&& n.commands == o.commands
    &&& n.screen.eq_static(o.screen)
    &&& (match o.screen.selected_auto_complete_index {
        Some(i) => {
            &&& n.screen.current_line@ == Seq::<char>::empty()
            &&& n.screen.validated_keywords@.len() == o.screen.validated_keywords@.len() + 1
            &&& n.screen.validated_keywords@.drop_last() == o.screen.validated_keywords@
            &&& (n.screen.validated_keywords@.last() matches ValidatedKeyword::Valid(k) && k@
                == o.screen.auto_complete@[i as int]@)
        },
        None => {
            &&& n.screen.current_line == o.screen.current_line
            &&& n.screen.validated_keywords == o.screen.validated_keywords
        },
    })
    &&& refreshed(n.commands, n.screen)
}

/// After a printable character: it is appended to the input and the
/// suggestion is recomputed.
pub open spec fn add_post(o: Runner, n: Runner, c: char) -> bool {
    &&& n.commands == o.commands
    &&& n.screen.eq_static(o.screen)
    &&& n.screen.current_line@ == o.screen.current_line@.push(c)
    &&& n.screen.validated_keywords == o.screen.validated_keywords
    &&& refreshed(n.commands, n.screen)
}

/// After backspace: the last input character is dropped, or with an empty
/// input the last validated keyword; then the suggestion is recomputed.
pub open spec fn backspace_post(o: Runner, n: Runner) -> bool {
    &&& n.commands == o.commands
    &&& n.screen.eq_static(o.screen)
    &&& (if o.screen.current_line@.len() > 0 {
        n.screen.current_line@ == o.screen.current_line@.drop_last()
            && n.screen.validated_keywords == o.screen.validated_keywords
    } else if o.screen.validated_keywords@.len() > 0 {
        n.screen.current_line == o.screen.current_line && n.screen.validated_keywords@
            == o.screen.validated_keywords@.drop_last()
    } else {
        n.screen.current_line == o.screen.current_line && n.screen.validated_keywords
            == o.screen.validated_keywords
    })
    &&& refreshed(n.commands, n.screen)
}

/// After the right arrow: the keyword cursor moves one step, wrapping.
pub open spec fn next_suggestion_post(o: Runner, n: Runner) -> bool {
    &&& n.commands == o.commands
    &&& match o.screen.selected_auto_complete_index {
        Some(i) => n.screen == (Screen {
            selected_auto_complete_index: Some(
                ((i + 1) % (o.screen.auto_complete@.len() as int)) as usize,
            ),
            ..o.screen
        }),
        None => n.screen == o.screen,
    }
}

/// After the left arrow: the keyword cursor moves one step back, wrapping.
pub open spec fn previous_suggestion_post(o: Runner, n: Runner) -> bool {
    &&& n.commands == o.commands
    &&& match o.screen.selected_auto_complete_index {
        Some(i) => n.screen == (Screen {
            selected_auto_complete_index: Some(
                if i == 0 {
                    (o.screen.auto_complete@.len() - 1) as usize
                } else {
                    (i - 1) as usize
                },
            ),
            ..o.screen
        }),
        None => n.screen == o.screen,
    }
}

/// After the down arrow: the command cursor moves one step, wrapping.
pub open spec fn next_command_post(o: Runner, n: Runner) -> bool {
    &&& n.commands == o.commands
    &&& match o.screen.selected_command_index {
        Some(i) => n.screen == (Screen {
            selected_command_index: Some(((i + 1) % (o.screen.commands@.len() as int)) as usize),
            ..o.screen
        }),
        None => n.screen == o.screen,
    }
}

/// After the up arrow: the command cursor moves one step back, wrapping.
pub open spec fn previous_command_post(o: Runner, n: Runner) -> bool {
    &&& n.commands == o.commands
    &&& match o.screen.selected_command_index {
        Some(i) => n.screen == (Screen {
            selected_command_index: Some(
                if i == 0 {
                    (o.screen.commands@.len() - 1) as usize
                } else {
                    (i - 1) as usize
                },
            ),
            ..o.screen
        }),
        None => n.screen == o.screen,
    }
}

/// The texts of the `Valid` keywords, for the engine.
fn collect_valid(v: &Vec<ValidatedKeyword>) -> (r: Vec<String>)
    ensures
        r.deep_view() == valid_texts(v@),
{
    let mut r: Vec<String> = Vec::new();
    let mut i: usize = 0;
    while i < v.len()
        invariant
            i <= v@.len(),
            r.deep_view() == valid_texts(v@.take(i as int)),
        decreases v@.len() - i,
    {
        let ghost pre = r.deep_view();
        match &v[i] {
            ValidatedKeyword::Valid(k) => {
                r.push(k.clone());
                proof {
                    assert(r.deep_view() =~= pre.push(k@));
                }
            },
            ValidatedKeyword::Invalid(_) => {},
        }
        proof {
            assert(v@.take(i + 1).drop_last() =~= v@.take(i as int));
            assert(v@.take(i + 1).last() == v@[i as int]);
            match v@[i as int] {
                ValidatedKeyword::Valid(k) => {
                    assert(r.deep_view() =~= valid_texts(v@.take(i as int)) + seq![k@]);
                },
                ValidatedKeyword::Invalid(_) => {
                    assert(r.deep_view() =~= valid_texts(v@.take(i as int))
                        + Seq::<Seq<char>>::empty());
                },
            }
        }
        i += 1;
    }
    proof {
        assert(v@.take(v@.len() as int) =~= v@);
    }
    r
}

impl Runner {
    /// The catalog's index invariant and the screen's cursor invariant.
    pub open spec fn wf(self) -> bool {
        self.commands.wf() && self.screen.wf()
    }

    /// A fresh engine: the catalog built from the given commands, the
    /// editor empty.
    pub fn new(vec_commands: Vec<Command>, term_size: (u16, u16)) -> (r: Runner)
        ensures
            r.wf(),
            r.commands.commands@.len() == vec_commands@.len(),
            forall|i: int|
                0 <= i < vec_commands@.len() ==> *r.commands.commands@[i] == vec_commands@[i],
            r.screen.current_line@ == Seq::<char>::empty(),
            r.screen.validated_keywords@ == Seq::<ValidatedKeyword>::empty(),
            r.screen.auto_complete@.len() == 0,
            r.screen.commands@.len() == 0,
            r.screen.term_size == term_size,
    {
        let commands = Commands::new(vec_commands);
        let screen = Screen::new(term_size);
        Runner { commands, screen }
    }

    /// Recomputes the suggestion from the current input state and installs
    /// it, resetting both cursors.
    pub fn filter_commands(self: &mut Runner)
        requires
            old(self).wf(),
        ensures
            final(self).wf(),
            final(self).commands == old(self).commands,
            final(self).screen.eq_static(old(self).screen),
            final(self).screen.current_line == old(self).screen.current_line,
            final(self).screen.validated_keywords == old(self).screen.validated_keywords,
            refreshed(final(self).commands, final(self).screen),
    {
        let validated_keywords = collect_valid(&self.screen.validated_keywords);
        let input = self.screen.input();
        let suggestion = Suggestion::from_input(
            &self.commands,
            input.as_str(),
            &validated_keywords,
        );
        self.screen.set_suggestion(suggestion);
    }

    /// Commits the selected keyword suggestion, if any, then recomputes the
    /// suggestion.
    pub fn auto_complete(self: &mut Runner)
        requires
            old(self).wf(),
        ensures
            final(self).wf(),
            tab_post(*old(self), *final(self)),
    {
        self.screen.complete();
        self.filter_commands();
    }

    /// Appends the typed character, then recomputes the suggestion.
    pub fn add_key(self: &mut Runner, c: char)
        requires
            old(self).wf(),
        ensures
            final(self).wf(),
            add_post(*old(self), *final(self), c),
    {
        self.screen.add(c);
        self.filter_commands();
    }

    /// Drops the last input character or validated keyword, then recomputes
    /// the suggestion.
    pub fn remove_last_char(self: &mut Runner)
        requires
            old(self).wf(),
        ensures
            final(self).wf(),
            backspace_post(*old(self), *final(self)),
    {
        self.screen.remove_last_char();
        self.filter_commands();
    }

    /// Commits the current input as a validated keyword: `Valid` when the
    /// catalog knows it, `Invalid` otherwise.
    pub fn validate_keyword(self: &mut Runner)
        requires
            old(self).wf(),
        ensures
            final(self).wf(),
            space_post(*old(self), *final(self)),
    {
        let input = self.screen.reset_input();
        let validated_kw = if self.commands.has_keyword(input.as_str()) {
            ValidatedKeyword::Valid(input)
        } else {
            ValidatedKeyword::Invalid(input)
        };
        self.screen.add_validated_keyword(validated_kw);
        proof {
            assert(self.screen.validated_keywords@.drop_last() =~= old(
                self,
            ).screen.validated_keywords@);
        }
    }

    /// One keystroke: mutates the editor state and decides the outcome.
    /// Every key is interpreted the same way regardless of prior keys.
    pub fn process_key(self: &mut Runner, key: Key) -> (r: InputLoopAction)
        requires
            old(self).wf(),
        ensures
            final(self).wf(),
            final(self).commands == old(self).commands,
            match key {
                Key::Char(c) => {
                    if c == 'q' {
                        r is Cancel && *final(self) == *old(self)
                    } else if c == '\n' {
                        match old(self).screen.selected_command_index {
                            Some(i) => r matches InputLoopAction::Success(t) && t@ == old(
                                self,
                            ).screen.commands@[i as int].cmd.original@ && *final(self) == *old(
                                self,
                            ),
                            None => r is Continue && *final(self) == *old(self),
                        }
                    } else if c == '\t' {
                        r is Continue && tab_post(*old(self), *final(self))
                    } else if c == ' ' {
                        r is Continue && space_post(*old(self), *final(self))
                    } else {
                        r is Continue && add_post(*old(self), *final(self), c)
                    }
                },
                Key::Backspace => r is Continue && backspace_post(*old(self), *final(self)),
                Key::Right => r is Continue && next_suggestion_post(*old(self), *final(self)),
                Key::Left => r is Continue && previous_suggestion_post(*old(self), *final(self)),
                Key::Up => r is Continue && previous_command_post(*old(self), *final(self)),
                Key::Down => r is Continue && next_command_post(*old(self), *final(self)),
                Key::Other => r is Continue && *final(self) == *old(self),
            },
    {
        match key {
            Key::Char(c) => {
                if c == 'q' {
                    InputLoopAction::Cancel
                } else if c == '\n' {
                    match self.screen.selected_command() {
                        Some(cmd) => InputLoopAction::Success(cmd.cmd.original.clone()),
                        None => InputLoopAction::Continue,
                    }
                } else if c == '\t' {
                    self.auto_complete();
                    InputLoopAction::Continue
                } else if c == ' ' {
                    self.validate_keyword();
                    InputLoopAction::Continue
                } else {
                    self.add_key(c);
                    InputLoopAction::Continue
                }
            },
            Key::Backspace => {
                self.remove_last_char();
                InputLoopAction::Continue
            },
            Key::Right => {
                self.screen.next_suggestion();
                InputLoopAction::Continue
            },
            Key::Left => {
                self.screen.previous_suggestion();
                InputLoopAction::Continue
            },
            Key::Up => {
                self.screen.previous_command();
                InputLoopAction::Continue
            },
            Key::Down => {
                self.screen.next_command();
                InputLoopAction::Continue
            },
            Key::Other => InputLoopAction::Continue,
        }
    }
}

} // verus!
