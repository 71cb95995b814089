use vstd::prelude::*;

verus! {

/// A single-owner holder of one value. Reads hand out copies and writes
/// replace the whole value: no reference into the slot ever escapes.
pub struct Cell<T> {
    value: T,
}

impl<T> View for Cell<T> {
    type V = T;

    closed spec fn view(&self) -> T {
        self.value
    }
}

impl<T> Cell<T> {
    /// Takes ownership of `value`.
    pub fn new(value: T) -> (cell: Cell<T>)
        ensures
            cell@ == value,
    {
        Cell { value }
    }

    /// Replaces the stored value; the previous one is dropped.
    pub fn set(&mut self, value: T)
        ensures
            final(self)@ == value,
    {
        self.value = value;
    }

    /// Returns a copy of the stored value.
    pub fn get(&self) -> (value: T)
        where
            T: Copy,
        ensures
            value == self@,
    {
        self.value
    }
}

/// One operation on a cell.
pub enum CellOp<T> {
    /// `set` with the given value.
    Write(T),
    /// `get`, which returns the current value and changes nothing.
    Read,
}

/// The value of a cell created with `init` after `ops`: what a `get` at that
/// point returns.
pub open spec fn value_after<T>(init: T, ops: Seq<CellOp<T>>) -> T
    decreases ops.len(),
{
    if ops.len() == 0 {
        init
    } else {
        match ops.last() {
            CellOp::Write(v) => v,
            CellOp::Read => value_after(init, ops.drop_last()),
        }
    }
}

/// A `get` returns the value of the most recent `set`: whatever the sequence
/// of operations, after `set(v)` and any number of `get`s the value is `v`,
/// never one from before that `set`.
pub proof fn lemma_get_returns_latest_set<T>(init: T, ops: Seq<CellOp<T>>, i: int, j: int)
    requires
        0 <= i < j <= ops.len(),
        ops[i] is Write,
        forall|k: int| i < k < j ==> #[trigger] ops[k] is Read,
    ensures
        value_after(init, ops.take(j)) == ops[i]->Write_0,
    decreases j - i,
{
    let prefix = ops.take(j);
    assert(prefix.drop_last() =~= ops.take(j - 1));
    if j - 1 > i {
        lemma_get_returns_latest_set(init, ops, i, j - 1);
    }
}

} // verus!
