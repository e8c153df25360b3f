//! The tape: a growable row of bounded cells and a pointer into it.
use vstd::arithmetic::div_mod::{
    lemma_add_mod_noop_right, lemma_mod_add_multiples_vanish, lemma_small_mod,
    lemma_sub_mod_noop_right,
};
use vstd::prelude::*;

use crate::errors::MyError;

verus! {

/// The value of a cell after adding `n` to `v` on the ring `[0, max]`.
pub open spec fn wrap_add(v: int, n: int, max: int) -> int {
    (v + n) % (max + 1)
}

/// The value of a cell after subtracting `n` from `v` on the ring `[0, max]`.
pub open spec fn wrap_sub(v: int, n: int, max: int) -> int {
    (v - n) % (max + 1)
}

/// The tape's cells, with the pointer and the ceiling of each cell.
pub struct Memory {
    view: Vec<u32>,
    ptr: usize,
    cell_max: u32,
}

/// The tape as values: its cells, the pointer, and the ceiling of a cell.
pub struct MemoryView {
    pub cells: Seq<u32>,
    pub ptr: int,
    pub cell_max: u32,
}

impl View for Memory {
    type V = MemoryView;

    closed spec fn view(&self) -> MemoryView {
        MemoryView { cells: self.view@, ptr: self.ptr as int, cell_max: self.cell_max }
    }
}

impl MemoryView {
    /// The pointer addresses a cell and every cell lies in `[0, cell_max]`.
    pub open spec fn wf(self) -> bool {
        &&& 0 <= self.ptr < self.cells.len()
        &&& forall|i: int| 0 <= i < self.cells.len() ==> self.cells[i] <= self.cell_max
    }

    /// The value under the pointer.
    pub open spec fn current(self) -> u32 {
        self.cells[self.ptr]
    }

    /// The initial tape: one cell holding zero.
    pub open spec fn initial(cell_max: u32) -> MemoryView {
        MemoryView { cells: seq![0u32], ptr: 0, cell_max }
    }

    /// The tape after moving the pointer `n` cells right: cells are added,
    /// holding zero, up to the new pointer.
    pub open spec fn moved_right(self, n: int) -> MemoryView {
        let p = self.ptr + n;
        MemoryView {
            cells: if p < self.cells.len() {
                self.cells
            } else {
                self.cells + Seq::new((p + 1 - self.cells.len()) as nat, |i: int| 0u32)
            },
            ptr: p,
            cell_max: self.cell_max,
        }
    }

    /// The tape with `v` in the current cell.
    pub open spec fn with_current(self, v: u32) -> MemoryView {
        MemoryView { cells: self.cells.update(self.ptr, v), ..self }
    }
}

impl Memory {
    pub open spec fn wf(&self) -> bool {
        self@.wf()
    }

    /// A tape of one zero cell whose cells range over `[0, cell_max]`.
    pub fn new(cell_max: u32) -> (r: Memory)
        ensures
            r@ == MemoryView::initial(cell_max),
            r.wf(),
    {
        let r = Memory { view: vec![0], ptr: 0, cell_max };
        assert(r.view@ =~= seq![0u32]);
        r
    }

    pub fn cells(&self) -> (r: &Vec<u32>)
        ensures
            r@ == self@.cells,
    {
        &self.view
    }

    pub fn ptr(&self) -> (r: usize)
        ensures
            r == self@.ptr,
    {
        self.ptr
    }

    pub fn cell_max(&self) -> (r: u32)
        ensures
            r == self@.cell_max,
    {
        self.cell_max
    }

    /// Moves the pointer `n` cells right, growing the tape with zero cells
    /// when it passes the last one.
    pub fn ptr_increase(&mut self, n: u32)
        requires
            old(self).wf(),
            old(self)@.ptr + n < usize::MAX,
        ensures
            final(self)@ == old(self)@.moved_right(n as int),
            final(self).wf(),
    {
        let p = self.ptr + n as usize;
        if self.view.len() <= p {
            self.view.resize(p + 1, 0);
            assert(self.view@ =~= old(self)@.moved_right(n as int).cells);
        }
        self.ptr = p;
    }

    /// Moves the pointer `n` cells left; fails, leaving the tape as it was,
    /// when fewer than `n` cells lie left of the pointer.
    pub fn ptr_decrease(&mut self, n: u32) -> (r: Result<(), MyError>)
        requires
            old(self).wf(),
        ensures
            final(self).wf(),
            n > old(self)@.ptr ==> r == Err::<(), MyError>(
                MyError::PointerUnderflow { ptr: old(self)@.ptr as usize, n },
            ) && final(self)@ == old(self)@,
            n <= old(self)@.ptr ==> r is Ok && final(self)@ == (MemoryView {
                ptr: old(self)@.ptr - n,
                ..old(self)@
            }),
    {
        if n as usize > self.ptr {
            return Err(MyError::PointerUnderflow { ptr: self.ptr, n });
        }
        self.ptr = self.ptr - n as usize;
        Ok(())
    }

    /// Adds `n` to the current cell, wrapping past the ceiling to zero.
    pub fn data_increase(&mut self, n: u32)
        requires
            old(self).wf(),
        ensures
            final(self)@ == old(self)@.with_current(
                wrap_add(old(self)@.current() as int, n as int, old(self)@.cell_max as int) as u32,
            ),
            final(self).wf(),
    {
        let max = self.cell_max;
        let v = self.view[self.ptr];
        let m: u32 = if max == u32::MAX { n } else { n % (max + 1) };
        let r: u32 = if max - v >= m { v + m } else { m - (max - v + 1) };
        proof {
            let k = max as int + 1;
            if max < u32::MAX {
                lemma_add_mod_noop_right(v as int, n as int, k);
                vstd::arithmetic::div_mod::lemma_mod_bound(n as int, k);
            }
            lemma_small_mod(m as nat, k as nat);
            assert(m as int % k == m as int);
            assert((v + m) % k == (v + n) % k);
            if v + m <= max {
                lemma_small_mod((v + m) as nat, k as nat);
            } else {
                lemma_mod_add_multiples_vanish((v + m - k) as int, k);
                lemma_small_mod((v + m - k) as nat, k as nat);
            }
        }
        self.view.set(self.ptr, r);
    }

    /// Subtracts `n` from the current cell, wrapping below zero to the ceiling.
    pub fn data_decrease(&mut self, n: u32)
        requires
            old(self).wf(),
        ensures
            final(self)@ == old(self)@.with_current(
                wrap_sub(old(self)@.current() as int, n as int, old(self)@.cell_max as int) as u32,
            ),
            final(self).wf(),
    {
        let max = self.cell_max;
        let v = self.view[self.ptr];
        let m: u32 = if max == u32::MAX { n } else { n % (max + 1) };
        let r: u32 = if v >= m { v - m } else { max - (m - v - 1) };
        proof {
            let k = max as int + 1;
            if max < u32::MAX {
                lemma_sub_mod_noop_right(v as int, n as int, k);
                vstd::arithmetic::div_mod::lemma_mod_bound(n as int, k);
            }
            lemma_small_mod(m as nat, k as nat);
            assert(m as int % k == m as int);
            assert((v - m) % k == (v - n) % k);
            if v >= m {
                lemma_small_mod((v - m) as nat, k as nat);
            } else {
                lemma_mod_add_multiples_vanish((v - m) as int, k);
                lemma_small_mod((v - m + k) as nat, k as nat);
            }
        }
        self.view.set(self.ptr, r);
    }

    /// The value of the current cell.
    pub fn output(&self) -> (r: u32)
        requires
            self.wf(),
        ensures
            r == self@.current(),
    {
        self.view[self.ptr]
    }

    /// Stores `n` in the current cell.
    pub fn input(&mut self, n: u32)
        requires
            old(self).wf(),
            n <= old(self)@.cell_max,
        ensures
            final(self)@ == old(self)@.with_current(n),
            final(self).wf(),
    {
        self.view.set(self.ptr, n);
    }

    /// Puts the tape back to one zero cell, keeping the ceiling.
    pub fn clear(&mut self)
        ensures
            final(self)@ == MemoryView::initial(old(self)@.cell_max),
            final(self).wf(),
    {
        self.view = vec![0];
        self.ptr = 0;
        assert(self.view@ =~= seq![0u32]);
    }
}

/// Moving right keeps every cell's value, and any cells it adds hold zero.
pub proof fn lemma_move_right_keeps_cells(m: MemoryView, n: int)
    requires
        m.wf(),
        n >= 0,
    ensures
        m.moved_right(n).wf(),
        m.moved_right(n).ptr == m.ptr + n,
        m.moved_right(n).cells.len() >= m.cells.len(),
        forall|i: int| 0 <= i < m.cells.len() ==> #[trigger] m.moved_right(n).cells[i] == m.cells[i],
        forall|i: int|
            m.cells.len() <= i < m.moved_right(n).cells.len() ==> #[trigger] m.moved_right(n).cells[i]
                == 0,
{
    let r = m.moved_right(n);
    assert forall|i: int| 0 <= i < r.cells.len() implies r.cells[i] <= r.cell_max by {
        if i < m.cells.len() {
            assert(r.cells[i] == m.cells[i]);
        }
    }
}

/// `times` increments of `n` each, starting from `v`.
pub open spec fn wrap_add_times(v: int, n: int, max: int, times: nat) -> int
    decreases times,
{
    if times == 0 {
        v
    } else {
        wrap_add(wrap_add_times(v, n, max, (times - 1) as nat), n, max)
    }
}

/// Incrementing a cell by one more than the ceiling, any number of times,
/// leaves its value as it was.
pub proof fn lemma_full_turn(v: int, max: int, times: nat)
    requires
        0 <= v <= max,
    ensures
        wrap_add_times(v, max + 1, max, times) == v,
    decreases times,
{
    if times > 0 {
        lemma_full_turn(v, max, (times - 1) as nat);
        lemma_mod_add_multiples_vanish(v, max + 1);
        lemma_small_mod(v as nat, (max + 1) as nat);
    }
}

/// A decrement by `n` undoes an increment by `n`.
pub proof fn lemma_decrement_undoes_increment(v: int, n: int, max: int)
    requires
        0 <= v <= max,
        0 <= n,
    ensures
        wrap_sub(wrap_add(v, n, max), n, max) == v,
{
    let k = max + 1;
    lemma_small_mod(v as nat, k as nat);
    assert((((v + n) % k) - n) % k == (v + n - n) % k) by {
        vstd::arithmetic::div_mod::lemma_sub_mod_noop(v + n, n, k);
        vstd::arithmetic::div_mod::lemma_mod_twice(v + n, k);
        vstd::arithmetic::div_mod::lemma_sub_mod_noop((v + n) % k, n, k);
    }
}

/// An increment by `n` undoes a decrement by `n`.
pub proof fn lemma_increment_undoes_decrement(v: int, n: int, max: int)
    requires
        0 <= v <= max,
        0 <= n,
    ensures
        wrap_add(wrap_sub(v, n, max), n, max) == v,
{
    let k = max + 1;
    assert(((v - n) % k + n) % k == (v - n + n) % k) by {
        vstd::arithmetic::div_mod::lemma_add_mod_noop(v - n, n, k);
        vstd::arithmetic::div_mod::lemma_mod_twice(v - n, k);
        vstd::arithmetic::div_mod::lemma_add_mod_noop((v - n) % k, n, k);
    }
    lemma_small_mod(v as nat, k as nat);
}

} // verus!
