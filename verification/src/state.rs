//! The session state and the per-keystroke dispatcher.
//!
//! [`step`] is the transition function of the whole interaction machine:
//! from a state and one key event to the next state and a flag saying
//! whether a snapshot write is requested.  [`AppState::handle_key`] is its
//! executable form and is proved to follow it exactly.

use vstd::prelude::*;
use crate::mode::{
    empty_buf_v, lemma_edits_keep_digits, EditBuffer, EditBufferV, InputMode, ModeV,
};
use crate::num::{
    digits_val, digits_val_saturating, is_digit_char, lemma_digits_val_nonneg, sat_u64,
};
use crate::store::{
    lemma_sat_magnitude_same_clamp, signed_of, views_of, Counter, CounterStore, CounterV,
    Direction, Sign, StoreV,
};

verus! {

/// A keyboard key as the dispatcher sees it; `Other` stands for every key
/// the application ignores.
#[derive(Clone, Copy, PartialEq, Eq)]
pub enum Key {
    Up,
    Down,
    Left,
    Right,
    Enter,
    Esc,
    Backspace,
    Char(char),
    Other,
}

/// The whole session state: counters, input mode, exit flag, and whether
/// a persistence target exists.
pub struct AppState {
    pub store: CounterStore,
    pub mode: InputMode,
    pub should_exit: bool,
    pub has_save_target: bool,
}

/// The mathematical value of an [`AppState`].
#[verifier::ext_equal]
pub struct AppV {
    pub store: StoreV,
    pub mode: ModeV,
    pub should_exit: bool,
    pub has_save_target: bool,
}

impl View for AppState {
    type V = AppV;

    open spec fn view(&self) -> AppV {
        AppV {
            store: self.store@,
            mode: self.mode@,
            should_exit: self.should_exit,
            has_save_target: self.has_save_target,
        }
    }
}

impl AppV {
    /// The store and the active mode are both well formed.
    pub open spec fn wf(self) -> bool {
        self.store.wf() && self.mode.wf()
    }

    /// The same state with another store.
    pub open spec fn with_store(self, st: StoreV) -> AppV {
        AppV {
            store: st,
            mode: self.mode,
            should_exit: self.should_exit,
            has_save_target: self.has_save_target,
        }
    }

    /// The same state with another mode.
    pub open spec fn with_mode(self, m: ModeV) -> AppV {
        AppV {
            store: self.store,
            mode: m,
            should_exit: self.should_exit,
            has_save_target: self.has_save_target,
        }
    }

    /// The same state with the exit flag raised.
    pub open spec fn with_exit(self) -> AppV {
        AppV {
            store: self.store,
            mode: self.mode,
            should_exit: true,
            has_save_target: self.has_save_target,
        }
    }
}

/// One Normal-mode keystroke.
pub open spec fn step_normal(s: AppV, key: Key) -> (AppV, bool) {
    match key {
        Key::Up => (s.with_store(s.store.move_v(Direction::Previous)), false),
        Key::Down => (s.with_store(s.store.move_v(Direction::Next)), false),
        Key::Right => (s.with_store(s.store.adjust_sel_v(1)), s.has_save_target),
        Key::Left => (s.with_store(s.store.adjust_sel_v(-1)), s.has_save_target),
        Key::Esc => (s.with_store(s.store.clear_v()), false),
        Key::Char(c) => if c == 'k' {
            (s.with_store(s.store.move_v(Direction::Previous)), false)
        } else if c == 'j' {
            (s.with_store(s.store.move_v(Direction::Next)), false)
        } else if c == 'l' {
            (s.with_store(s.store.adjust_sel_v(1)), s.has_save_target)
        } else if c == ';' {
            (s.with_store(s.store.adjust_sel_v(-1)), s.has_save_target)
        } else if c == 'q' {
            (s.with_exit(), false)
        } else if c == 'n' {
            (s.with_mode(ModeV::Creating { buf: empty_buf_v() }), false)
        } else if c == 'd' {
            (s.with_store(s.store.remove_sel_v()), s.has_save_target)
        } else if c == 'a' {
            (s.with_mode(ModeV::Adjusting { buf: empty_buf_v(), sign: Sign::Positive }), false)
        } else if c == 's' {
            (s.with_mode(ModeV::Adjusting { buf: empty_buf_v(), sign: Sign::Negative }), false)
        } else {
            (s, false)
        },
        _ => (s, false),
    }
}

/// One keystroke while a counter name is being typed.
pub open spec fn step_creating(s: AppV, buf: EditBufferV, key: Key) -> (AppV, bool) {
    match key {
        Key::Esc => (s.with_mode(ModeV::Normal), false),
        Key::Enter => (
            s.with_store(s.store.append_v(buf.text)).with_mode(ModeV::Normal),
            s.has_save_target,
        ),
        Key::Char(c) => (s.with_mode(ModeV::Creating { buf: buf.insert_v(c) }), false),
        Key::Backspace => (s.with_mode(ModeV::Creating { buf: buf.backspace_v() }), false),
        Key::Left => (s.with_mode(ModeV::Creating { buf: buf.left_v() }), false),
        Key::Right => (s.with_mode(ModeV::Creating { buf: buf.right_v() }), false),
        _ => (s, false),
    }
}

/// One keystroke while an amount is being typed.
pub open spec fn step_adjusting(s: AppV, buf: EditBufferV, sign: Sign, key: Key) -> (AppV, bool) {
    match key {
        Key::Up => (s.with_store(s.store.move_v(Direction::Previous)), false),
        Key::Down => (s.with_store(s.store.move_v(Direction::Next)), false),
        Key::Left => (s.with_mode(ModeV::Adjusting { buf: buf.left_v(), sign }), false),
        Key::Right => (s.with_mode(ModeV::Adjusting { buf: buf.right_v(), sign }), false),
        Key::Backspace => (s.with_mode(ModeV::Adjusting { buf: buf.backspace_v(), sign }), false),
        Key::Esc => (s.with_mode(ModeV::Normal), false),
        Key::Enter => (
            s.with_store(s.store.adjust_sel_v(signed_of(sign, digits_val(buf.text)))).with_mode(
                ModeV::Normal,
            ),
            s.has_save_target,
        ),
        Key::Char(c) => if c == 'k' {
            (s.with_store(s.store.move_v(Direction::Previous)), false)
        } else if c == 'j' {
            (s.with_store(s.store.move_v(Direction::Next)), false)
        } else if is_digit_char(c) {
            (s.with_mode(ModeV::Adjusting { buf: buf.insert_v(c), sign }), false)
        } else if c == 'a' {
            (s.with_mode(ModeV::Adjusting { buf, sign: Sign::Positive }), false)
        } else if c == 's' {
            (s.with_mode(ModeV::Adjusting { buf, sign: Sign::Negative }), false)
        } else {
            (s, false)
        },
        Key::Other => (s, false),
    }
}

/// One event of the dispatcher: the next state and whether a snapshot
/// write is requested.  Events other than key presses change nothing.
pub open spec fn step(s: AppV, key: Key, is_press: bool) -> (AppV, bool) {
    if !is_press {
        (s, false)
    } else {
        match s.mode {
            ModeV::Normal => step_normal(s, key),
            ModeV::Creating { buf } => step_creating(s, buf, key),
            ModeV::Adjusting { buf, sign } => step_adjusting(s, buf, sign, key),
        }
    }
}

/// Law: `q` in Normal mode only raises the exit flag — counters, selection
/// and mode are untouched, and no persistence is requested.
pub proof fn lemma_quit_sets_exit(s: AppV)
    requires
        s.mode is Normal,
    ensures
        step(s, Key::Char('q'), true).0.should_exit,
        step(s, Key::Char('q'), true).0.store == s.store,
        step(s, Key::Char('q'), true).0.mode == s.mode,
        !step(s, Key::Char('q'), true).1,
{
}

impl AppState {
    /// An ephemeral session: empty store, Normal mode, no save target.
    pub fn make_temporary() -> (a: Self)
        ensures
            a@.store.counters =~= Seq::<CounterV>::empty(),
            a@.store.selection is None,
            a@.mode is Normal,
            !a@.should_exit,
            !a@.has_save_target,
            a@.wf(),
    {
        AppState {
            store: CounterStore::new(),
            mode: InputMode::Normal,
            should_exit: false,
            has_save_target: false,
        }
    }

    /// A session with a save target, starting from the given counters
    /// (empty when no snapshot existed yet).
    pub fn make_saved(counters: Vec<Counter>) -> (a: Self)
        ensures
            a@.store.counters =~= views_of(counters@),
            a@.store.selection is None,
            a@.mode is Normal,
            !a@.should_exit,
            a@.has_save_target,
            a@.wf(),
    {
        AppState {
            store: CounterStore::from_counters(counters),
            mode: InputMode::Normal,
            should_exit: false,
            has_save_target: true,
        }
    }

    /// Dispatches one key event, following [`step`] exactly, and returns
    /// whether the caller should write a snapshot now.
    pub fn handle_key(&mut self, key: Key, is_press: bool) -> (persist: bool)
        requires
            old(self)@.wf(),
        ensures
            final(self)@ =~~= step(old(self)@, key, is_press).0,
            persist == step(old(self)@, key, is_press).1,
            final(self)@.wf(),
    {
        if !is_press {
            return false;
        }
        let mut m = InputMode::Normal;
        core::mem::swap(&mut self.mode, &mut m);
        match m {
            InputMode::Normal => match key {
                Key::Up => {
                    self.store.move_selection(Direction::Previous);
                    false
                },
                Key::Down => {
                    self.store.move_selection(Direction::Next);
                    false
                },
                Key::Right => {
                    self.store.adjust_selected(1);
                    self.has_save_target
                },
                Key::Left => {
                    self.store.adjust_selected(-1);
                    self.has_save_target
                },
                Key::Esc => {
                    self.store.clear_selection();
                    false
                },
                Key::Char(c) => {
                    if c == 'k' {
                        self.store.move_selection(Direction::Previous);
                        false
                    } else if c == 'j' {
                        self.store.move_selection(Direction::Next);
                        false
                    } else if c == 'l' {
                        self.store.adjust_selected(1);
                        self.has_save_target
                    } else if c == ';' {
                        self.store.adjust_selected(-1);
                        self.has_save_target
                    } else if c == 'q' {
                        self.should_exit = true;
                        false
                    } else if c == 'n' {
                        self.mode = InputMode::CreatingCounter { buf: EditBuffer::new_empty() };
                        false
                    } else if c == 'd' {
                        self.store.remove_selected();
                        self.has_save_target
                    } else if c == 'a' {
                        self.mode = InputMode::AdjustingCounter {
                            buf: EditBuffer::new_empty(),
                            sign: Sign::Positive,
                        };
                        false
                    } else if c == 's' {
                        self.mode = InputMode::AdjustingCounter {
                            buf: EditBuffer::new_empty(),
                            sign: Sign::Negative,
                        };
                        false
                    } else {
                        false
                    }
                },
                _ => false,
            },
            InputMode::CreatingCounter { mut buf } => match key {
                Key::Esc => false,
                Key::Enter => {
                    self.store.append(buf.chars);
                    self.has_save_target
                },
                Key::Char(c) => {
                    buf.insert_char(c);
                    self.mode = InputMode::CreatingCounter { buf };
                    false
                },
                Key::Backspace => {
                    buf.backspace();
                    self.mode = InputMode::CreatingCounter { buf };
                    false
                },
                Key::Left => {
                    buf.move_left();
                    self.mode = InputMode::CreatingCounter { buf };
                    false
                },
                Key::Right => {
                    buf.move_right();
                    self.mode = InputMode::CreatingCounter { buf };
                    false
                },
                _ => {
                    self.mode = InputMode::CreatingCounter { buf };
                    false
                },
            },
            InputMode::AdjustingCounter { mut buf, sign } => match key {
                Key::Up => {
                    self.store.move_selection(Direction::Previous);
                    self.mode = InputMode::AdjustingCounter { buf, sign };
                    false
                },
                Key::Down => {
                    self.store.move_selection(Direction::Next);
                    self.mode = InputMode::AdjustingCounter { buf, sign };
                    false
                },
                Key::Left => {
                    buf.move_left();
                    self.mode = InputMode::AdjustingCounter { buf, sign };
                    false
                },
                Key::Right => {
                    buf.move_right();
                    self.mode = InputMode::AdjustingCounter { buf, sign };
                    false
                },
                Key::Backspace => {
                    proof {
                        lemma_edits_keep_digits(buf@, ' ');
                    }
                    buf.backspace();
                    self.mode = InputMode::AdjustingCounter { buf, sign };
                    false
                },
                Key::Esc => false,
                Key::Enter => {
                    let ghost bt = buf@.text;
                    let ghost sv = self.store@;
                    let mag = digits_val_saturating(&buf.chars);
                    proof {
                        lemma_digits_val_nonneg(bt);
                        match sv.selection {
                            Some(i) => {
                                lemma_sat_magnitude_same_clamp(
                                    sv.counters[i].count,
                                    sign,
                                    digits_val(bt),
                                );
                                assert(sv.adjust_sel_v(signed_of(sign, sat_u64(digits_val(bt))))
                                    =~~= sv.adjust_sel_v(signed_of(sign, digits_val(bt))));
                            },
                            None => {},
                        }
                    }
                    self.store.adjust_selected_signed(sign, mag);
                    self.has_save_target
                },
                Key::Char(c) => {
                    if c == 'k' {
                        self.store.move_selection(Direction::Previous);
                        self.mode = InputMode::AdjustingCounter { buf, sign };
                        false
                    } else if c == 'j' {
                        self.store.move_selection(Direction::Next);
                        self.mode = InputMode::AdjustingCounter { buf, sign };
                        false
                    } else if crate::num::digit_check(c) {
                        proof {
                            lemma_edits_keep_digits(buf@, c);
                        }
                        buf.insert_char(c);
                        self.mode = InputMode::AdjustingCounter { buf, sign };
                        false
                    } else if c == 'a' {
                        self.mode = InputMode::AdjustingCounter { buf, sign: Sign::Positive };
                        false
                    } else if c == 's' {
                        self.mode = InputMode::AdjustingCounter { buf, sign: Sign::Negative };
                        false
                    } else {
                        self.mode = InputMode::AdjustingCounter { buf, sign };
                        false
                    }
                },
                Key::Other => {
                    self.mode = InputMode::AdjustingCounter { buf, sign };
                    false
                },
            },
        }
    }
}

} // verus!
