//! What each screen region shows, decided from the session state.
//!
//! The drawing itself happens outside the library; these functions fix
//! the layout decisions and the exact text of every region: the footer
//! hint, the input box (its visibility, height, title and content), and
//! each counter's list line.

use vstd::prelude::*;
use crate::mode::ModeV;
use crate::num::{dec_int, i64_dec_chars};
use crate::state::AppState;
use crate::store::{Counter, Sign};

verus! {

/// The context-sensitive footer hint for the current state.
pub fn footer_text(a: &AppState) -> (r: &'static str)
    ensures
        (a@.mode is Normal && a@.store.counters.len() == 0) ==> r@ == "Use n to make a new counter, and q to exit."@,
        (a@.mode is Normal && a@.store.counters.len() > 0) ==> r@ == "Use ↓↑/jk to move, d to delete, ←→/l; to increment the counter, n to make a new counter, a/s to add/subtract, and q to exit."@,
        (a@.mode is Creating) ==> r@ == "Type a new counter name. Use enter to add and esc to return."@,
        (a@.mode matches ModeV::Adjusting { sign: Sign::Positive, .. }) ==> r@ == "Use ↓↑/jk to move, type numbers, and press enter to add or esc to return."@,
        (a@.mode matches ModeV::Adjusting { sign: Sign::Negative, .. }) ==> r@ == "Use ↓↑/jk to move, type numbers, and press enter to subtract or esc to return."@,
{
    match &a.mode {
        crate::mode::InputMode::Normal => {
            if a.store.counters.len() == 0 {
                "Use n to make a new counter, and q to exit."
            } else {
                "Use ↓↑/jk to move, d to delete, ←→/l; to increment the counter, n to make a new counter, a/s to add/subtract, and q to exit."
            }
        },
        crate::mode::InputMode::CreatingCounter { .. } => {
            "Type a new counter name. Use enter to add and esc to return."
        },
        crate::mode::InputMode::AdjustingCounter { sign, .. } => {
            match sign {
                Sign::Positive => "Use ↓↑/jk to move, type numbers, and press enter to add or esc to return.",
                Sign::Negative => "Use ↓↑/jk to move, type numbers, and press enter to subtract or esc to return.",
            }
        },
    }
}

/// Whether the input box is stacked above the list: only outside Normal
/// mode.
pub fn input_box_visible(a: &AppState) -> (r: bool)
    ensures
        r == !(a@.mode is Normal),
{
    match &a.mode {
        crate::mode::InputMode::Normal => false,
        _ => true,
    }
}

/// The fixed height of the input box region: three rows when shown.
pub fn input_box_height(a: &AppState) -> (r: u16)
    ensures
        a@.mode is Normal ==> r == 0,
        !(a@.mode is Normal) ==> r == 3,
{
    if input_box_visible(a) {
        3
    } else {
        0
    }
}

/// The title of the input box.
pub fn input_title(a: &AppState) -> (r: &'static str)
    ensures
        (a@.mode is Normal) ==> r@ == ""@,
        (a@.mode is Creating) ==> r@ == "New Counter"@,
        (a@.mode matches ModeV::Adjusting { sign: Sign::Positive, .. }) ==> r@ == "Adding"@,
        (a@.mode matches ModeV::Adjusting { sign: Sign::Negative, .. }) ==> r@ == "Subtracting"@,
{
    match &a.mode {
        crate::mode::InputMode::Normal => "",
        crate::mode::InputMode::CreatingCounter { .. } => "New Counter",
        crate::mode::InputMode::AdjustingCounter { sign, .. } => match sign {
            Sign::Positive => "Adding",
            Sign::Negative => "Subtracting",
        },
    }
}

/// A copy of the characters of `v`.
fn copy_chars(v: &Vec<char>) -> (r: Vec<char>)
    ensures
        r@ =~= v@,
{
    let mut out: Vec<char> = Vec::new();
    let mut k: usize = 0;
    while k < v.len()
        invariant
            k <= v.len(),
            out@ =~= v@.take(k as int),
        decreases v.len() - k,
    {
        out.push(v[k]);
        proof {
            assert(v@.take(k as int).push(v@[k as int]) =~= v@.take(k as int + 1));
        }
        k = k + 1;
    }
    proof {
        assert(v@.take(v@.len() as int) =~= v@);
    }
    out
}

/// The text shown inside the input box: the active buffer's characters,
/// empty in Normal mode.
pub fn input_text(a: &AppState) -> (r: Vec<char>)
    ensures
        a@.mode is Normal ==> r@ =~= Seq::<char>::empty(),
        a@.mode matches ModeV::Creating { buf } ==> r@ =~= buf.text,
        a@.mode matches ModeV::Adjusting { buf, .. } ==> r@ =~= buf.text,
{
    match &a.mode {
        crate::mode::InputMode::Normal => Vec::new(),
        crate::mode::InputMode::CreatingCounter { buf } => copy_chars(&buf.chars),
        crate::mode::InputMode::AdjustingCounter { buf, .. } => copy_chars(&buf.chars),
    }
}

/// One list line for a counter: its count in decimal, a colon and a
/// space, and its name.
pub fn line_text(c: &Counter) -> (r: Vec<char>)
    ensures
        r@ =~= dec_int(c@.count) + seq![':', ' '] + c@.name,
{
    let mut out = i64_dec_chars(c.count);
    out.push(':');
    out.push(' ');
    let ghost head = out@;
    let mut k: usize = 0;
    while k < c.name.len()
        invariant
            k <= c.name.len(),
            out@ =~= head + c.name@.take(k as int),
        decreases c.name.len() - k,
    {
        out.push(c.name[k]);
        proof {
            assert(c.name@.take(k as int).push(c.name@[k as int]) =~= c.name@.take(k as int + 1));
        }
        k = k + 1;
    }
    proof {
        assert(c.name@.take(c.name@.len() as int) =~= c.name@);
        assert(head =~= dec_int(c@.count) + seq![':', ' ']);
    }
    out
}

} // verus!
