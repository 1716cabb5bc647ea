//! Decisions of the interaction surface: cursor movement, confirmation,
//! applying client requests, and the re-ranking that follows a change of the
//! input text. Everything here is a pure function of the picker's state;
//! drawing and key decoding stay outside.

use vstd::prelude::*;

use crate::choices::{has_key, keys_sorted, ChoiceKey, ChoiceSet, ClientRequest};
use crate::fuzzy::rescored_key;
use crate::types::{Event, Matcher};

verus! {

/// The picker's private state: the matcher it was seeded with, the current
/// input text, and the choices with the selected position.
pub struct PickerState {
    pub matcher: Matcher,
    pub input: String,
    pub elems: ChoiceSet,
}

/// Where the cursor goes on a step up.
pub open spec fn spec_move_up(selected: Option<usize>, len: nat) -> Option<usize> {
    match selected {
        Option::None => if len == 0 {
            Option::None
        } else {
            Option::Some((len - 1) as usize)
        },
        Option::Some(s) => if s == 0 {
            Option::None
        } else {
            Option::Some((s - 1) as usize)
        },
    }
}

/// Where the cursor goes on a step down.
pub open spec fn spec_move_down(selected: Option<usize>, len: nat) -> Option<usize> {
    match selected {
        Option::None => if len == 0 {
            Option::None
        } else {
            Option::Some(0usize)
        },
        Option::Some(s) => if (s as nat) + 1 < len {
            Option::Some((s + 1) as usize)
        } else {
            Option::Some(s)
        },
    }
}

impl PickerState {
    /// A fresh picker as the worker seeds it for one session.
    pub fn new(matcher: Matcher) -> (r: PickerState)
        ensures
            r.matcher == matcher,
            r.input@.len() == 0,
            r.elems.options@.len() == 0,
            r.elems.selected is None,
            r.elems.wf(),
    {
        PickerState { matcher, input: String::new(), elems: ChoiceSet::new() }
    }

    /// Move the cursor one row up; from no selection it wraps to the last
    /// row, and from the first row it clears.
    pub fn move_up(&mut self)
        ensures
            final(self).elems.selected == spec_move_up(
                old(self).elems.selected,
                old(self).elems.options@.len(),
            ),
            final(self).elems.options == old(self).elems.options,
            final(self).input == old(self).input,
            final(self).matcher == old(self).matcher,
    {
        match self.elems.selected {
            None => {
                let n: usize = self.elems.options.len();
                if n == 0 {
                    self.elems.selected = None;
                } else {
                    self.elems.selected = Some(n - 1);
                }
            },
            Some(s) => {
                if s == 0 {
                    self.elems.selected = None;
                } else {
                    self.elems.selected = Some(s - 1);
                }
            },
        }
    }

    /// Move the cursor one row down; from no selection it starts at the top,
    /// and it never runs past the last row.
    pub fn move_down(&mut self)
        ensures
            final(self).elems.selected == spec_move_down(
                old(self).elems.selected,
                old(self).elems.options@.len(),
            ),
            final(self).elems.options == old(self).elems.options,
            final(self).input == old(self).input,
            final(self).matcher == old(self).matcher,
    {
        let n: usize = self.elems.options.len();
        match self.elems.selected {
            None => {
                if n > 0 {
                    self.elems.selected = Some(0);
                }
            },
            Some(s) => {
                if n > 0 && s < n - 1 {
                    self.elems.selected = Some(s + 1);
                }
            },
        }
    }

    /// Confirm the current selection: the id of the selected choice, or a
    /// bare confirmation when nothing is highlighted. A selected position
    /// past the end is a defect; it is cleared and nothing is emitted.
    pub fn confirm(&mut self) -> (r: Option<Event>)
        ensures
            final(self).input == old(self).input,
            final(self).matcher == old(self).matcher,
            final(self).elems.options == old(self).elems.options,
            match old(self).elems.selected {
                Option::Some(s) => if s < old(self).elems.options@.len() {
                    &&& final(self).elems.selected == old(self).elems.selected
                    &&& r == Some(
                        Event::Select(Some(old(self).elems.options@[s as int].id)),
                    )
                } else {
                    &&& final(self).elems.selected is None
                    &&& r is None
                },
                Option::None => {
                    &&& final(self).elems.selected is None
                    &&& r == Some(Event::Select(None::<usize>))
                },
            },
    {
        match self.elems.selected {
            Some(s) => {
                if s < self.elems.options.len() {
                    Some(Event::Select(Some(self.elems.options[s].id)))
                } else {
                    self.elems.selected = None;
                    None
                }
            },
            None => Some(Event::Select(None)),
        }
    }

    /// Replace the input text, and re-rank under a fuzzy matcher when it
    /// actually changed: priorities are recomputed against the new text and
    /// the selection defaults to the top match, or clears when nothing is
    /// left.
    pub fn set_input(&mut self, text: String)
        requires
            keys_sorted(old(self).elems.keys()),
        ensures
            final(self).matcher == old(self).matcher,
            final(self).input == text,
            keys_sorted(final(self).elems.keys()),
            final(self).elems.selected_in_range(),
            if old(self).matcher == Matcher::Fuzzy && old(self).input@ != text@ {
                &&& forall|k: ChoiceKey|
                    has_key(final(self).elems.keys(), k) == exists|j: ChoiceKey|
                        has_key(old(self).elems.keys(), j) && k == #[trigger] rescored_key(
                            j,
                            text@,
                        )
                &&& final(self).elems.selected == (
                if final(self).elems.options@.len() == 0 {
                    Option::<usize>::None
                } else {
                    Option::Some(0usize)
                })
            } else {
                &&& final(self).elems.options == old(self).elems.options
                &&& final(self).elems.selected == ChoiceSet::spec_clamp(
                    old(self).elems.selected,
                    old(self).elems.options@.len(),
                )
            },
    {
        let changed: bool = !self.input.eq(&text);
        self.input = text;
        if matches!(self.matcher, Matcher::Fuzzy) && changed {
            self.elems.fuzzy_sort(self.input.as_str());
            if self.elems.options.len() == 0 {
                self.elems.selected = None;
            } else {
                self.elems.selected = Some(0);
            }
        } else {
            self.elems.clamp_selected();
        }
    }

    /// Install a freshly sent choice collection: the selected position is
    /// re-clamped against the new membership — to the last row when it
    /// points past the end, cleared when the collection is empty — and a
    /// fuzzy matcher then re-ranks against the current input, selection
    /// staying on the top match.
    pub fn set_choices(&mut self, choices: ChoiceSet)
        requires
            keys_sorted(choices.keys()),
        ensures
            final(self).matcher == old(self).matcher,
            final(self).input == old(self).input,
            keys_sorted(final(self).elems.keys()),
            final(self).elems.selected_in_range(),
            if old(self).matcher == Matcher::Fuzzy {
                &&& forall|k: ChoiceKey|
                    has_key(final(self).elems.keys(), k) == exists|j: ChoiceKey|
                        has_key(choices.keys(), j) && k == #[trigger] rescored_key(
                            j,
                            old(self).input@,
                        )
                &&& final(self).elems.selected == ChoiceSet::spec_clamp(
                    ChoiceSet::spec_clamp(choices.selected, choices.options@.len()),
                    final(self).elems.options@.len(),
                )
            } else {
                &&& final(self).elems.options == choices.options
                &&& final(self).elems.selected == ChoiceSet::spec_clamp(
                    choices.selected,
                    choices.options@.len(),
                )
            },
    {
        self.elems = choices;
        self.elems.clamp_selected();
        if matches!(self.matcher, Matcher::Fuzzy) {
            self.elems.fuzzy_sort(self.input.as_str());
            self.elems.clamp_selected();
        }
    }
}

/// Whether an event announces this input text.
pub open spec fn is_input_change_of(e: Event, text: Seq<char>) -> bool {
    match e {
        Event::InputChange(t) => t@ == text,
        _ => false,
    }
}

/// The events one settled state change publishes: the new input text when it
/// differs from the old one, then the new cursor position when the selection
/// moved somewhere. A cleared selection announces nothing.
pub fn diff_events(old_input: &String, old_selected: Option<usize>, new: &PickerState) -> (r: Vec<
    Event,
>)
    ensures
        ({
            let want_input = old_input@ != new.input@;
            let want_cursor = old_selected != new.elems.selected && new.elems.selected is Some;
            &&& r@.len() == (if want_input {
                1int
            } else {
                0int
            }) + (if want_cursor {
                1int
            } else {
                0int
            })
            &&& want_input ==> is_input_change_of(r@[0], new.input@)
            &&& want_cursor ==> r@[r@.len() - 1] == Event::CursorMove(
                new.elems.selected.unwrap(),
            )
        }),
{
    let mut r: Vec<Event> = Vec::new();
    if !old_input.eq(&new.input) {
        r.push(Event::InputChange(new.input.clone()));
    }
    match new.elems.selected {
        Some(s) => {
            let moved: bool = match old_selected {
                Some(t) => t != s,
                None => true,
            };
            if moved {
                r.push(Event::CursorMove(s));
            }
        },
        None => {},
    }
    r
}

} // verus!
