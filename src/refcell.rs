use crate::cell::Cell;
use core::marker::PhantomData;
use vstd::prelude::*;

verus! {

/// The state tag of a [`RefCell`]: what is currently borrowed from it.
#[derive(Clone, Copy, PartialEq, Eq, Structural, Debug)]
pub enum ReferenceState {
    /// No guard is live.
    Unshared,
    /// One exclusive guard is live.
    Exclusive,
    /// The given number (at least one) of shared guards are live.
    Shared(usize),
}

/// The state after a shared borrow from `s`, or `None` when the borrow is
/// refused: while an exclusive guard is live, or when the count of shared
/// guards has reached the largest `usize`.
pub open spec fn borrowed(s: ReferenceState) -> Option<ReferenceState> {
    match s {
        ReferenceState::Unshared => Some(ReferenceState::Shared(1)),
        ReferenceState::Shared(n) => if n < usize::MAX {
            Some(ReferenceState::Shared((n + 1) as usize))
        } else {
            None
        },
        ReferenceState::Exclusive => None,
    }
}

/// The state after an exclusive borrow from `s`, or `None` when the borrow
/// is refused: while any guard is live.
pub open spec fn mut_borrowed(s: ReferenceState) -> Option<ReferenceState> {
    match s {
        ReferenceState::Unshared => Some(ReferenceState::Exclusive),
        _ => None,
    }
}

/// The state after one shared guard of a cell in state `Shared(n)` is released.
pub open spec fn released(s: ReferenceState) -> ReferenceState {
    match s {
        ReferenceState::Shared(n) => if n <= 1 {
            ReferenceState::Unshared
        } else {
            ReferenceState::Shared((n - 1) as usize)
        },
        _ => s,
    }
}

/// The state after the exclusive guard of a cell is released.
pub open spec fn mut_released(s: ReferenceState) -> ReferenceState {
    match s {
        ReferenceState::Exclusive => ReferenceState::Unshared,
        _ => s,
    }
}

/// A state tag that can occur: a shared state counts at least one guard.
pub open spec fn valid_state(s: ReferenceState) -> bool {
    s matches ReferenceState::Shared(n) ==> n >= 1
}

/// A cell whose shared-xor-exclusive borrowing discipline is checked at run
/// time. A successful borrow hands out a guard token; releasing the guard
/// restores the state tag.
pub struct RefCell<T> {
    value: T,
    state: Cell<ReferenceState>,
}

/// A shared guard: a live shared borrow of a [`RefCell`].
pub struct Ref<T> {
    marker: PhantomData<T>,
}

/// An exclusive guard: the live exclusive borrow of a [`RefCell`].
pub struct RefMut<T> {
    marker: PhantomData<T>,
}

impl<T> RefCell<T> {
    /// The current state tag.
    pub closed spec fn state(&self) -> ReferenceState {
        self.state@
    }

    /// The wrapped value.
    pub closed spec fn value(&self) -> T {
        self.value
    }

    /// A new cell holding `value`, with nothing borrowed.
    pub fn new(value: T) -> (cell: RefCell<T>)
        ensures
            cell.state() == ReferenceState::Unshared,
            cell.value() == value,
    {
        RefCell { value, state: Cell::new(ReferenceState::Unshared) }
    }

    /// Reports the current state tag.
    pub fn state_tag(&self) -> (state: ReferenceState)
        ensures
            state == self.state(),
    {
        self.state.get()
    }

    /// Takes a shared borrow: on success the state moves as [`borrowed`] says
    /// and a shared guard comes back; on refusal nothing changes.
    pub fn borrow(&mut self) -> (guard: Option<Ref<T>>)
        ensures
            guard is Some <==> borrowed(old(self).state()) is Some,
            guard is Some ==> final(self).state() == borrowed(old(self).state())->Some_0,
            guard is None ==> final(self).state() == old(self).state(),
            final(self).value() == old(self).value(),
    {
        match self.state.get() {
            ReferenceState::Unshared => {
                self.state.set(ReferenceState::Shared(1));
                Some(Ref { marker: PhantomData })
            },
            ReferenceState::Shared(n) => {
                if n < usize::MAX {
                    self.state.set(ReferenceState::Shared(n + 1));
                    Some(Ref { marker: PhantomData })
                } else {
                    None
                }
            },
            ReferenceState::Exclusive => None,
        }
    }

    /// Takes the exclusive borrow: on success the state becomes `Exclusive`
    /// and an exclusive guard comes back; on refusal nothing changes.
    pub fn borrow_mut(&mut self) -> (guard: Option<RefMut<T>>)
        ensures
            guard is Some <==> mut_borrowed(old(self).state()) is Some,
            guard is Some ==> final(self).state() == mut_borrowed(old(self).state())->Some_0,
            guard is None ==> final(self).state() == old(self).state(),
            final(self).value() == old(self).value(),
    {
        match self.state.get() {
            ReferenceState::Unshared => {
                self.state.set(ReferenceState::Exclusive);
                Some(RefMut { marker: PhantomData })
            },
            _ => None,
        }
    }
}

impl<T> Ref<T> {
    /// Releases this shared guard of `cell`: the last one returns the cell to
    /// `Unshared`, any other lowers the count by one. A shared guard can only
    /// be live while its cell is shared.
    pub fn release(self, cell: &mut RefCell<T>)
        requires
            old(cell).state() is Shared,
        ensures
            final(cell).state() == released(old(cell).state()),
            final(cell).value() == old(cell).value(),
    {
        match cell.state.get() {
            ReferenceState::Shared(n) => {
                if n <= 1 {
                    cell.state.set(ReferenceState::Unshared);
                } else {
                    cell.state.set(ReferenceState::Shared(n - 1));
                }
            },
            ReferenceState::Unshared | ReferenceState::Exclusive => {
                proof {
                    assert(false);
                }
            },
        }
    }

    /// A read view of the value of `cell`, which this guard borrows.
    pub fn deref<'a>(&self, cell: &'a RefCell<T>) -> (value: &'a T)
        requires
            cell.state() is Shared,
        ensures
            *value == cell.value(),
    {
        &cell.value
    }
}

impl<T> RefMut<T> {
    /// Releases this exclusive guard of `cell`, which returns to `Unshared`.
    /// An exclusive guard can only be live while its cell is exclusive.
    pub fn release(self, cell: &mut RefCell<T>)
        requires
            old(cell).state() is Exclusive,
        ensures
            final(cell).state() == mut_released(old(cell).state()),
            final(cell).state() == ReferenceState::Unshared,
            final(cell).value() == old(cell).value(),
    {
        match cell.state.get() {
            ReferenceState::Exclusive => {
                cell.state.set(ReferenceState::Unshared);
            },
            ReferenceState::Unshared | ReferenceState::Shared(_) => {
                proof {
                    assert(false);
                }
            },
        }
    }

    /// A read view of the value of `cell`, which this guard borrows.
    pub fn deref<'a>(&self, cell: &'a RefCell<T>) -> (value: &'a T)
        requires
            cell.state() is Exclusive,
        ensures
            *value == cell.value(),
    {
        &cell.value
    }

    /// A read/write view of the value of `cell`, which this guard borrows:
    /// what is written through it becomes the cell's value.
    pub fn deref_mut<'a>(&self, cell: &'a mut RefCell<T>) -> (value: &'a mut T)
        requires
            old(cell).state() is Exclusive,
        ensures
            *value == old(cell).value(),
            final(cell).value() == *final(value),
            final(cell).state() == old(cell).state(),
    {
        &mut cell.value
    }
}

/// On a fresh cell an exclusive borrow succeeds; a second one, made while the
/// first guard is live, is refused; once that guard is released, an exclusive
/// borrow succeeds again.
pub proof fn lemma_exclusive_borrow_excludes()
    ensures
        mut_borrowed(ReferenceState::Unshared) == Some(ReferenceState::Exclusive),
        mut_borrowed(ReferenceState::Exclusive) is None,
        mut_borrowed(mut_released(ReferenceState::Exclusive)) == Some(ReferenceState::Exclusive),
{
}

/// The state after `k` shared borrows from a fresh cell with no release in
/// between, or `None` when one of them is refused.
pub open spec fn after_borrows(k: nat) -> Option<ReferenceState>
    decreases k,
{
    if k == 0 {
        Some(ReferenceState::Unshared)
    } else {
        match after_borrows((k - 1) as nat) {
            Some(s) => borrowed(s),
            None => None,
        }
    }
}

/// On a fresh cell any number of shared borrows without a release succeed
/// together, as far as a `usize` can count them, and while they are live an
/// exclusive borrow is refused.
pub proof fn lemma_shared_borrows_coexist(k: nat)
    requires
        1 <= k <= usize::MAX,
    ensures
        after_borrows(k) == Some(ReferenceState::Shared(k as usize)),
        mut_borrowed(after_borrows(k)->Some_0) is None,
    decreases k,
{
    assert(after_borrows(0) == Some(ReferenceState::Unshared));
    if k > 1 {
        lemma_shared_borrows_coexist((k - 1) as nat);
        assert(((k - 1) as usize) < usize::MAX);
    }
}

/// What a caller does with one cell.
pub enum BorrowEvent {
    /// Asks for a shared borrow.
    Borrow,
    /// Asks for the exclusive borrow.
    BorrowMut,
    /// Releases a live shared guard.
    Release,
    /// Releases the live exclusive guard.
    ReleaseMut,
}

/// A cell as its caller sees it: the state tag, and how many shared and
/// exclusive guards of it are live.
pub struct BorrowModel {
    pub state: ReferenceState,
    pub readers: nat,
    pub writers: nat,
}

/// The cell after one event: a borrow that succeeds adds a guard, a refused
/// one changes nothing, and a release removes a guard.
pub open spec fn borrow_step(m: BorrowModel, e: BorrowEvent) -> BorrowModel {
    match e {
        BorrowEvent::Borrow => match borrowed(m.state) {
            Some(s) => BorrowModel { state: s, readers: m.readers + 1, writers: m.writers },
            None => m,
        },
        BorrowEvent::BorrowMut => match mut_borrowed(m.state) {
            Some(s) => BorrowModel { state: s, readers: m.readers, writers: m.writers + 1 },
            None => m,
        },
        BorrowEvent::Release => BorrowModel {
            state: released(m.state),
            readers: (m.readers - 1) as nat,
            writers: m.writers,
        },
        BorrowEvent::ReleaseMut => BorrowModel {
            state: mut_released(m.state),
            readers: m.readers,
            writers: (m.writers - 1) as nat,
        },
    }
}

/// The cell after `events`, starting fresh.
pub open spec fn borrow_run(events: Seq<BorrowEvent>) -> BorrowModel
    decreases events.len(),
{
    if events.len() == 0 {
        BorrowModel { state: ReferenceState::Unshared, readers: 0, writers: 0 }
    } else {
        borrow_step(borrow_run(events.drop_last()), events.last())
    }
}

/// Each release gives back a guard of its kind that is live at that point.
pub open spec fn releases_live_guards(events: Seq<BorrowEvent>) -> bool {
    forall|i: int|
        0 <= i < events.len() ==> {
            &&& events[i] is Release ==> (#[trigger] borrow_run(events.take(i))).readers >= 1
            &&& events[i] is ReleaseMut ==> borrow_run(events.take(i)).writers >= 1
        }
}

/// The state tag says exactly which guards are live.
pub open spec fn tag_matches_guards(m: BorrowModel) -> bool {
    match m.state {
        ReferenceState::Unshared => m.readers == 0 && m.writers == 0,
        ReferenceState::Exclusive => m.readers == 0 && m.writers == 1,
        ReferenceState::Shared(n) => n >= 1 && m.readers == n && m.writers == 0,
    }
}

/// Whatever the order in which guards are taken and released, the state tag
/// says exactly which guards are live: the cell is `Unshared` when and only
/// when no guard is live, an exclusive borrow is refused while a shared guard
/// is live, and every release finds the state its guard left.
pub proof fn lemma_tag_matches_guards(events: Seq<BorrowEvent>)
    requires
        releases_live_guards(events),
    ensures
        tag_matches_guards(borrow_run(events)),
        borrow_run(events).state == ReferenceState::Unshared <==> borrow_run(events).readers == 0
            && borrow_run(events).writers == 0,
        borrow_run(events).readers >= 1 ==> mut_borrowed(borrow_run(events).state) is None,
        valid_state(borrow_run(events).state),
    decreases events.len(),
{
    if events.len() > 0 {
        let prefix = events.drop_last();
        assert forall|i: int| 0 <= i < prefix.len() implies {
            &&& prefix[i] is Release ==> (#[trigger] borrow_run(prefix.take(i))).readers >= 1
            &&& prefix[i] is ReleaseMut ==> borrow_run(prefix.take(i)).writers >= 1
        } by {
            assert(prefix.take(i) =~= events.take(i));
            assert(prefix[i] == events[i]);
        }
        lemma_tag_matches_guards(prefix);
        assert(events.take(prefix.len() as int) =~= prefix);
        assert(borrow_run(events.take(prefix.len() as int)) == borrow_run(prefix));
    }
}

} // verus!
