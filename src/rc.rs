use crate::cell::Cell;
use vstd::prelude::*;

verus! {

/// The heap block that all handles of one shared pointer refer to: the value
/// and the count of live handles.
pub struct RcInner<T> {
    pub value: T,
    pub ref_count: Cell<usize>,
}

impl<T> RcInner<T> {
    /// The block of a first handle: it holds `value` and counts one handle.
    pub fn new(value: T) -> (inner: RcInner<T>)
        ensures
            inner.value == value,
            inner.ref_count@ == 1,
    {
        RcInner { value, ref_count: Cell::new(1) }
    }
}

/// Counts one more handle of a block: a handle was cloned.
pub fn retain_handle(ref_count: &mut Cell<usize>)
    requires
        1 <= old(ref_count)@ < usize::MAX,
    ensures
        final(ref_count)@ == old(ref_count)@ + 1,
{
    let count = ref_count.get();
    ref_count.set(count + 1);
}

/// Counts one handle of a block less: a handle was dropped. Returns whether it
/// was the last one, in which case the count is left alone and the caller
/// frees the block; otherwise the count drops by one and the block stays.
pub fn release_handle(ref_count: &mut Cell<usize>) -> (last: bool)
    requires
        old(ref_count)@ >= 1,
    ensures
        last == (old(ref_count)@ == 1),
        last ==> final(ref_count)@ == old(ref_count)@,
        !last ==> final(ref_count)@ == old(ref_count)@ - 1,
{
    let count = ref_count.get();
    if count == 1 {
        true
    } else {
        ref_count.set(count - 1);
        false
    }
}

/// What happens to the handles of one block.
pub enum HandleEvent {
    /// A live handle is cloned.
    Cloned,
    /// A live handle is dropped.
    Dropped,
}

/// A block as its handles leave it: its count, and how many times it was freed.
pub struct BlockModel {
    pub count: nat,
    pub frees: nat,
}

/// The block after one event, as [`retain_handle`] and [`release_handle`]
/// change it; a release of the last handle frees the block.
pub open spec fn block_step(b: BlockModel, e: HandleEvent) -> BlockModel {
    match e {
        HandleEvent::Cloned => BlockModel { count: b.count + 1, frees: b.frees },
        HandleEvent::Dropped => if b.count == 1 {
            BlockModel { count: b.count, frees: b.frees + 1 }
        } else {
            BlockModel { count: (b.count - 1) as nat, frees: b.frees }
        },
    }
}

/// The block after `events`, starting from the one handle that created it.
pub open spec fn block_after(events: Seq<HandleEvent>) -> BlockModel
    decreases events.len(),
{
    if events.len() == 0 {
        BlockModel { count: 1, frees: 0 }
    } else {
        block_step(block_after(events.drop_last()), events.last())
    }
}

/// The number of live handles after `events`, starting from one.
pub open spec fn live_handles(events: Seq<HandleEvent>) -> int
    decreases events.len(),
{
    if events.len() == 0 {
        1
    } else {
        live_handles(events.drop_last()) + match events.last() {
            HandleEvent::Cloned => 1int,
            HandleEvent::Dropped => -1int,
        }
    }
}

/// Each event is made by a handle that is still live.
pub open spec fn made_by_live_handles(events: Seq<HandleEvent>) -> bool {
    forall|i: int| 0 <= i < events.len() ==> live_handles(#[trigger] events.take(i)) >= 1
}

/// Over any sequence of clones and drops made by live handles, the count of
/// the block equals the number of live handles; the block is freed exactly
/// once, when the last handle is dropped, and never while a handle is live,
/// so no event ever meets a freed block.
pub proof fn lemma_count_tracks_handles(events: Seq<HandleEvent>)
    requires
        made_by_live_handles(events),
    ensures
        live_handles(events) >= 0,
        live_handles(events) >= 1 ==> block_after(events).count == live_handles(events)
            && block_after(events).frees == 0,
        live_handles(events) == 0 ==> block_after(events).frees == 1,
        forall|i: int| 0 <= i < events.len() ==> (#[trigger] block_after(events.take(i))).frees == 0,
    decreases events.len(),
{
    if events.len() > 0 {
        let prefix = events.drop_last();
        assert forall|i: int| 0 <= i < prefix.len() implies live_handles(
            #[trigger] prefix.take(i),
        ) >= 1 by {
            assert(prefix.take(i) =~= events.take(i));
        }
        lemma_count_tracks_handles(prefix);
        assert(events.take(prefix.len() as int) =~= prefix);
        assert forall|i: int| 0 <= i < events.len() implies (#[trigger] block_after(
            events.take(i),
        )).frees == 0 by {
            if i < prefix.len() {
                assert(prefix.take(i) =~= events.take(i));
            }
        }
    }
}

} // verus!
