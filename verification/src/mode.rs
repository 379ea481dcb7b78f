//! The input modes and the editable text buffer each one carries.
//!
//! Exactly one mode is active at a time.  A mode that takes text owns its
//! buffer, so cancelling the mode discards the text with it.  The buffer
//! of the adjusting mode only ever holds decimal digits, which keeps it
//! parseable whenever it is committed.

use vstd::prelude::*;
use crate::num::{digits_only, is_digit_char};
use crate::store::Sign;

verus! {

/// An editable line of text: its characters and a cursor position.
pub struct EditBuffer {
    pub chars: Vec<char>,
    pub cursor: usize,
}

/// The mathematical value of an [`EditBuffer`].
#[verifier::ext_equal]
pub struct EditBufferV {
    pub text: Seq<char>,
    pub cursor: int,
}

impl View for EditBuffer {
    type V = EditBufferV;

    open spec fn view(&self) -> EditBufferV {
        EditBufferV { text: self.chars@, cursor: self.cursor as int }
    }
}

/// An empty buffer with the cursor at the start.
pub open spec fn empty_buf_v() -> EditBufferV {
    EditBufferV { text: Seq::<char>::empty(), cursor: 0 }
}

impl EditBufferV {
    /// The cursor sits inside or just past the text.
    pub open spec fn wf(self) -> bool {
        0 <= self.cursor <= self.text.len()
    }

    /// Inserting a character at the cursor; the cursor moves past it.
    pub open spec fn insert_v(self, c: char) -> EditBufferV {
        EditBufferV { text: self.text.insert(self.cursor, c), cursor: self.cursor + 1 }
    }

    /// Deleting the character before the cursor; nothing happens at the
    /// start of the line.
    pub open spec fn backspace_v(self) -> EditBufferV {
        if self.cursor > 0 {
            EditBufferV { text: self.text.remove(self.cursor - 1), cursor: self.cursor - 1 }
        } else {
            self
        }
    }

    /// Moving the cursor one place left, stopping at the start.
    pub open spec fn left_v(self) -> EditBufferV {
        EditBufferV { text: self.text, cursor: if self.cursor > 0 { self.cursor - 1 } else { 0 } }
    }

    /// Moving the cursor one place right, stopping at the end.
    pub open spec fn right_v(self) -> EditBufferV {
        EditBufferV {
            text: self.text,
            cursor: if self.cursor < self.text.len() { self.cursor + 1 } else { self.cursor },
        }
    }
}

impl EditBuffer {
    /// An empty buffer.
    pub fn new_empty() -> (b: Self)
        ensures
            b@ =~= empty_buf_v(),
            b@.wf(),
    {
        EditBuffer { chars: Vec::new(), cursor: 0 }
    }

    /// Inserts `c` at the cursor and moves the cursor past it.
    pub fn insert_char(&mut self, c: char)
        requires
            old(self)@.wf(),
        ensures
            final(self)@ =~= old(self)@.insert_v(c),
            final(self)@.wf(),
    {
        self.chars.insert(self.cursor, c);
        let n = self.chars.len();
        assert(self.cursor < n);
        self.cursor = self.cursor + 1;
    }

    /// Deletes the character before the cursor, if any.
    pub fn backspace(&mut self)
        requires
            old(self)@.wf(),
        ensures
            final(self)@ =~= old(self)@.backspace_v(),
            final(self)@.wf(),
    {
        if self.cursor > 0 {
            self.chars.remove(self.cursor - 1);
            self.cursor = self.cursor - 1;
        }
    }

    /// Moves the cursor one place left, stopping at the start.
    pub fn move_left(&mut self)
        requires
            old(self)@.wf(),
        ensures
            final(self)@ =~= old(self)@.left_v(),
            final(self)@.wf(),
    {
        if self.cursor > 0 {
            self.cursor = self.cursor - 1;
        }
    }

    /// Moves the cursor one place right, stopping at the end.
    pub fn move_right(&mut self)
        requires
            old(self)@.wf(),
        ensures
            final(self)@ =~= old(self)@.right_v(),
            final(self)@.wf(),
    {
        if self.cursor < self.chars.len() {
            self.cursor = self.cursor + 1;
        }
    }
}

/// The active input mode, each text-taking mode owning its buffer.
pub enum InputMode {
    Normal,
    CreatingCounter { buf: EditBuffer },
    AdjustingCounter { buf: EditBuffer, sign: Sign },
}

/// The mathematical value of an [`InputMode`].
#[verifier::ext_equal]
pub enum ModeV {
    Normal,
    Creating { buf: EditBufferV },
    Adjusting { buf: EditBufferV, sign: Sign },
}

impl View for InputMode {
    type V = ModeV;

    open spec fn view(&self) -> ModeV {
        match self {
            InputMode::Normal => ModeV::Normal,
            InputMode::CreatingCounter { buf } => ModeV::Creating { buf: buf@ },
            InputMode::AdjustingCounter { buf, sign } => ModeV::Adjusting {
                buf: buf@,
                sign: *sign,
            },
        }
    }
}

impl ModeV {
    /// Buffers are well formed, and the adjusting buffer holds digits only.
    pub open spec fn wf(self) -> bool {
        match self {
            ModeV::Normal => true,
            ModeV::Creating { buf } => buf.wf(),
            ModeV::Adjusting { buf, sign } => buf.wf() && digits_only(buf.text),
        }
    }
}

/// Law: editing keeps the adjusting buffer all digits — inserting a digit,
/// deleting, and cursor movement never put a non-digit into the text.
pub proof fn lemma_edits_keep_digits(b: EditBufferV, c: char)
    requires
        b.wf(),
        digits_only(b.text),
    ensures
        is_digit_char(c) ==> digits_only(b.insert_v(c).text),
        digits_only(b.backspace_v().text),
        digits_only(b.left_v().text),
        digits_only(b.right_v().text),
{
    if is_digit_char(c) {
        assert forall|i: int| 0 <= i < b.insert_v(c).text.len() implies is_digit_char(
            #[trigger] b.insert_v(c).text[i],
        ) by {
            if i < b.cursor {
                assert(b.insert_v(c).text[i] == b.text[i]);
            } else if i == b.cursor {
                assert(b.insert_v(c).text[i] == c);
            } else {
                assert(b.insert_v(c).text[i] == b.text[i - 1]);
            }
        }
    }
    if b.cursor > 0 {
        assert forall|i: int| 0 <= i < b.backspace_v().text.len() implies is_digit_char(
            #[trigger] b.backspace_v().text[i],
        ) by {
            if i < b.cursor - 1 {
                assert(b.backspace_v().text[i] == b.text[i]);
            } else {
                assert(b.backspace_v().text[i] == b.text[i + 1]);
            }
        }
    }
}

} // verus!
