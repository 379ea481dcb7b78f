//! The ordered list of counters and the currently selected index.
//!
//! Counters keep insertion order; no operation reorders them.  The
//! selection, when present, always points inside the list, and every
//! structural mutation re-validates it.  Out-of-range or absent targets
//! make the mutating operations silent no-ops rather than errors.

use vstd::prelude::*;
use crate::num::sat_u64;

verus! {

/// One named counter.
pub struct Counter {
    pub name: Vec<char>,
    pub count: i64,
}

/// The mathematical value of a counter: its name's characters and its count.
#[verifier::ext_equal]
pub struct CounterV {
    pub name: Seq<char>,
    pub count: int,
}

impl View for Counter {
    type V = CounterV;

    open spec fn view(&self) -> CounterV {
        CounterV { name: self.name@, count: self.count as int }
    }
}

/// The counter values held by a sequence of counters, in order.
pub open spec fn views_of(s: Seq<Counter>) -> Seq<CounterV> {
    s.map_values(|c: Counter| c@)
}

/// Clamping of an unbounded integer into the `i64` range.  Counter
/// arithmetic saturates at the ends of that range instead of wrapping
/// or failing.
pub open spec fn clamp_i64(x: int) -> int {
    if x < i64::MIN {
        i64::MIN as int
    } else if x > i64::MAX {
        i64::MAX as int
    } else {
        x
    }
}

/// A direction for moving the selection by one step.
#[derive(Clone, Copy, PartialEq, Eq)]
pub enum Direction {
    Previous,
    Next,
}

/// Whether an entered amount is added or subtracted.
#[derive(Clone, Copy, PartialEq, Eq)]
pub enum Sign {
    Positive,
    Negative,
}

/// A magnitude turned into a signed delta.
pub open spec fn signed_of(sign: Sign, mag: int) -> int {
    match sign {
        Sign::Positive => mag,
        Sign::Negative => -mag,
    }
}

/// The mathematical value of a [`CounterStore`].
#[verifier::ext_equal]
pub struct StoreV {
    pub counters: Seq<CounterV>,
    pub selection: Option<int>,
}

impl StoreV {
    /// The selection, when present, is a valid index, and every count is
    /// a machine value in the `i64` range.
    pub open spec fn wf(self) -> bool {
        &&& self.selection matches Some(i) ==> 0 <= i < self.counters.len()
        &&& forall|i: int|
            0 <= i < self.counters.len() ==> i64::MIN <= #[trigger] self.counters[i].count
                <= i64::MAX
    }

    /// Appending a counter: a fresh zero counter at the end, selection kept.
    pub open spec fn append_v(self, name: Seq<char>) -> StoreV {
        StoreV {
            counters: self.counters.push(CounterV { name, count: 0 }),
            selection: self.selection,
        }
    }

    /// Adding `delta` (clamped to the `i64` range) to the counter at `i`;
    /// unchanged when `i` is out of range.
    pub open spec fn adjust_v(self, i: int, delta: int) -> StoreV {
        if 0 <= i < self.counters.len() {
            StoreV {
                counters: self.counters.update(
                    i,
                    CounterV {
                        name: self.counters[i].name,
                        count: clamp_i64(self.counters[i].count + delta),
                    },
                ),
                selection: self.selection,
            }
        } else {
            self
        }
    }

    /// Adding `delta` to the selected counter; unchanged when nothing is
    /// selected.
    pub open spec fn adjust_sel_v(self, delta: int) -> StoreV {
        match self.selection {
            Some(i) => self.adjust_v(i, delta),
            None => self,
        }
    }

    /// Removing the selected counter.  Removing at the last position clears
    /// the selection; otherwise the selection index is kept and now names
    /// the removed counter's successor.  Unchanged when nothing is selected.
    pub open spec fn remove_sel_v(self) -> StoreV {
        match self.selection {
            Some(i) => StoreV {
                counters: self.counters.remove(i),
                selection: if i + 1 == self.counters.len() {
                    None
                } else {
                    Some(i)
                },
            },
            None => self,
        }
    }

    /// Moving the selection one step without wrapping.  With nothing
    /// selected, `Previous` selects the last element and `Next` the first;
    /// on an empty list the selection stays absent.
    pub open spec fn move_v(self, dir: Direction) -> StoreV {
        let n = self.counters.len() as int;
        let sel = match dir {
            Direction::Previous => match self.selection {
                Some(i) => Some(if i == 0 { 0 } else { i - 1 }),
                None => if n == 0 { None } else { Some(n - 1) },
            },
            Direction::Next => match self.selection {
                Some(i) => Some(if i + 1 < n { i + 1 } else { i }),
                None => if n == 0 { None } else { Some(0int) },
            },
        };
        StoreV { counters: self.counters, selection: sel }
    }

    /// Clearing the selection.
    pub open spec fn clear_v(self) -> StoreV {
        StoreV { counters: self.counters, selection: None }
    }
}

/// The ordered counter list plus the selected index.
pub struct CounterStore {
    pub counters: Vec<Counter>,
    pub selection: Option<usize>,
}

impl View for CounterStore {
    type V = StoreV;

    open spec fn view(&self) -> StoreV {
        StoreV {
            counters: views_of(self.counters@),
            selection: match self.selection {
                Some(i) => Some(i as int),
                None => None,
            },
        }
    }
}

impl CounterStore {
    /// An empty store with nothing selected.
    pub fn new() -> (s: Self)
        ensures
            s@.counters =~= Seq::<CounterV>::empty(),
            s@.selection is None,
            s@.wf(),
    {
        CounterStore { counters: Vec::new(), selection: None }
    }

    /// A store loaded from an existing counter list; nothing selected.
    pub fn from_counters(counters: Vec<Counter>) -> (s: Self)
        ensures
            s@.counters =~= views_of(counters@),
            s@.selection is None,
            s@.wf(),
    {
        CounterStore { counters, selection: None }
    }

    /// Adds a new counter with the given name and count 0 at the end and
    /// returns its index.  Never fails.
    pub fn append(&mut self, name: Vec<char>) -> (idx: usize)
        ensures
            final(self)@ =~= old(self)@.append_v(name@),
            idx == old(self)@.counters.len(),
            old(self)@.wf() ==> final(self)@.wf(),
    {
        let ghost nm = name@;
        let idx = self.counters.len();
        self.counters.push(Counter { name, count: 0 });
        proof {
            assert(views_of(self.counters@) =~= old(self)@.append_v(nm).counters);
        }
        idx
    }

    /// Adds `delta` to the counter at `i`, clamped to the `i64` range;
    /// a silent no-op when `i` is out of range.
    pub fn adjust(&mut self, i: usize, delta: i64)
        ensures
            final(self)@ =~= old(self)@.adjust_v(i as int, delta as int),
            old(self)@.wf() ==> final(self)@.wf(),
    {
        if i < self.counters.len() {
            let c = self.counters[i].count;
            let nc = match c.checked_add(delta) {
                Some(v) => v,
                None => if delta > 0 {
                    i64::MAX
                } else {
                    i64::MIN
                },
            };
            let entry = &mut self.counters[i];
            entry.count = nc;
            proof {
                assert(views_of(self.counters@) =~= old(self)@.adjust_v(i as int, delta as int).counters);
            }
        }
    }

    /// Adds `delta` to the selected counter, clamped to the `i64` range;
    /// a silent no-op when nothing is selected.
    pub fn adjust_selected(&mut self, delta: i64)
        requires
            old(self)@.wf(),
        ensures
            final(self)@ =~= old(self)@.adjust_sel_v(delta as int),
            final(self)@.wf(),
    {
        match self.selection {
            Some(i) => self.adjust(i, delta),
            None => {},
        }
    }

    /// Removes the selected counter and re-validates the selection: gone
    /// when the last position was removed, kept (now naming the successor)
    /// otherwise.  A silent no-op when nothing is selected.
    pub fn remove_selected(&mut self)
        requires
            old(self)@.wf(),
        ensures
            final(self)@ =~= old(self)@.remove_sel_v(),
            final(self)@.wf(),
    {
        match self.selection {
            Some(i) => {
                let n = self.counters.len();
                self.counters.remove(i);
                self.selection = if i + 1 == n {
                    None
                } else {
                    Some(i)
                };
                proof {
                    assert(views_of(self.counters@) =~= old(self)@.remove_sel_v().counters);
                }
            },
            None => {},
        }
    }

    /// Moves the selection one step, clamped at the ends of the list; with
    /// nothing selected, selects the last (`Previous`) or first (`Next`)
    /// element when the list is not empty.
    pub fn move_selection(&mut self, dir: Direction)
        requires
            old(self)@.wf(),
        ensures
            final(self)@ =~= old(self)@.move_v(dir),
            final(self)@.wf(),
    {
        let n = self.counters.len();
        self.selection = match dir {
            Direction::Previous => match self.selection {
                Some(i) => Some(if i == 0 { 0 } else { i - 1 }),
                None => if n == 0 {
                    None
                } else {
                    Some(n - 1)
                },
            },
            Direction::Next => match self.selection {
                Some(i) => Some(if i + 1 < n { i + 1 } else { i }),
                None => if n == 0 {
                    None
                } else {
                    Some(0)
                },
            },
        };
    }

    /// Adds (or subtracts, by `sign`) a magnitude to the selected counter,
    /// clamped to the `i64` range; a silent no-op when nothing is selected.
    pub fn adjust_selected_signed(&mut self, sign: Sign, mag: u64)
        requires
            old(self)@.wf(),
        ensures
            final(self)@ =~= old(self)@.adjust_sel_v(signed_of(sign, mag as int)),
            final(self)@.wf(),
    {
        match self.selection {
            Some(i) => {
                let c = self.counters[i].count;
                let big: i128 = match sign {
                    Sign::Positive => c as i128 + mag as i128,
                    Sign::Negative => c as i128 - mag as i128,
                };
                let nc: i64 = if big > i64::MAX as i128 {
                    i64::MAX
                } else if big < i64::MIN as i128 {
                    i64::MIN
                } else {
                    big as i64
                };
                let entry = &mut self.counters[i];
                entry.count = nc;
                proof {
                    assert(views_of(self.counters@) =~= old(self)@.adjust_sel_v(
                        signed_of(sign, mag as int),
                    ).counters);
                }
            },
            None => {},
        }
    }

    /// Clears the selection.
    pub fn clear_selection(&mut self)
        ensures
            final(self)@ =~= old(self)@.clear_v(),
            final(self)@.wf(),
    {
        self.selection = None;
    }
}

/// The store after a whole sequence of `append` calls, one per name.
pub open spec fn append_all(s: StoreV, names: Seq<Seq<char>>) -> StoreV
    decreases names.len(),
{
    if names.len() == 0 {
        s
    } else {
        append_all(s.append_v(names[0]), names.drop_first())
    }
}

/// Law: a sequence of `append` calls grows the list by exactly one counter
/// per call, keeps every earlier counter unchanged, and adds the new
/// counters in call order, each with count 0.
pub proof fn lemma_append_preserves_order(s: StoreV, names: Seq<Seq<char>>)
    ensures
        append_all(s, names).counters.len() == s.counters.len() + names.len(),
        forall|i: int|
            0 <= i < s.counters.len() ==> append_all(s, names).counters[i] == s.counters[i],
        forall|i: int|
            0 <= i < names.len() ==> append_all(s, names).counters[s.counters.len() + i]
                == (CounterV { name: names[i], count: 0 }),
        append_all(s, names).selection == s.selection,
    decreases names.len(),
{
    if names.len() > 0 {
        let s1 = s.append_v(names[0]);
        lemma_append_preserves_order(s1, names.drop_first());
        assert(append_all(s, names) == append_all(s1, names.drop_first()));
        assert forall|i: int| 0 <= i < s.counters.len() implies append_all(s, names).counters[i]
            == s.counters[i] by {
            assert(append_all(s, names).counters[i] == s1.counters[i]);
        }
        assert forall|i: int| 0 <= i < names.len() implies append_all(s, names).counters[s.counters.len() + i]
            == (CounterV { name: names[i], count: 0 }) by {
            if i == 0 {
                assert(append_all(s, names).counters[s.counters.len() as int]
                    == s1.counters[s.counters.len() as int]);
            } else {
                assert(names.drop_first()[i - 1] == names[i]);
                assert(append_all(s, names).counters[s1.counters.len() + (i - 1)]
                    == (CounterV { name: names.drop_first()[i - 1], count: 0 }));
            }
        }
    }
}

/// Law: removing the selected counter re-validates the selection.  When the
/// selected index was the last one the selection becomes absent; otherwise
/// it is kept unchanged, which is within bounds of the shrunk list.
pub proof fn lemma_remove_revalidates_selection(s: StoreV)
    requires
        s.wf(),
        s.selection is Some,
    ensures
        s.remove_sel_v().counters.len() == s.counters.len() - 1,
        s.selection == Some((s.counters.len() - 1) as int) ==> s.remove_sel_v().selection is None,
        (s.selection matches Some(i) && i < s.counters.len() - 1) ==> s.remove_sel_v().selection
            == s.selection,
        s.remove_sel_v().wf(),
{
}

/// Law: cutting a magnitude off at the largest `u64` value never changes
/// the clamped result of applying it, signed, to an `i64` count.
pub proof fn lemma_sat_magnitude_same_clamp(count: int, sign: Sign, mag: int)
    requires
        i64::MIN <= count <= i64::MAX,
        mag >= 0,
    ensures
        clamp_i64(count + signed_of(sign, sat_u64(mag))) == clamp_i64(
            count + signed_of(sign, mag),
        ),
{
}

/// Law: adjusting through an out-of-range index, or with no selection at
/// all, changes nothing and raises no error.
pub proof fn lemma_adjust_invalid_is_noop(s: StoreV, i: int, delta: int)
    ensures
        !(0 <= i < s.counters.len()) ==> s.adjust_v(i, delta) == s,
        s.selection is None ==> s.adjust_sel_v(delta) == s,
{
}

} // verus!
