//! Collects tool calls as they stream in and says when a batch is ready.
use vstd::prelude::*;
use crate::models::ResponseItem;

verus! {

#[verifier::external_type_specification]
#[verifier::external_body]
pub struct ExInstant(std::time::Instant);

/// Relies on `std::time::Instant::now`: the current monotonic time.
#[verifier::external_body]
fn instant_now() -> (r: std::time::Instant) {
    std::time::Instant::now()
}

/// Relies on `std::time::Instant::elapsed`: whole milliseconds since `t`,
/// saturating at `u64::MAX`.
#[verifier::external_body]
fn elapsed_ms(t: &std::time::Instant) -> (r: u64) {
    u64::try_from(t.elapsed().as_millis()).unwrap_or(u64::MAX)
}

/// Milliseconds to wait for more items after the last one.
pub const BATCH_TIMEOUT_MS: u64 = 100;

/// Most items processed together.
pub const MAX_BATCH_SIZE: usize = 10;

/// Items waiting to be dispatched together.
pub struct ParallelBatcher {
    items: Vec<ResponseItem>,
    batch_timeout_ms: u64,
    last_item_time: Option<std::time::Instant>,
    max_batch_size: usize,
}

/// A batch is ready when it is not empty and is full, or when the timeout
/// has passed since its last item.
pub open spec fn batch_ready(len: nat, max: nat, since_last_ms: Option<u64>, timeout_ms: u64) -> bool {
    len > 0 && (len >= max || match since_last_ms {
        Some(e) => e >= timeout_ms,
        None => false,
    })
}

/// Whether a batch of `len` items is ready, given the time since its last
/// item.
pub fn should_process(len: usize, max: usize, since_last_ms: Option<u64>, timeout_ms: u64) -> (r: bool)
    ensures
        r == batch_ready(len as nat, max as nat, since_last_ms, timeout_ms),
{
    if len == 0 {
        return false;
    }
    if len >= max {
        return true;
    }
    match since_last_ms {
        Some(e) => e >= timeout_ms,
        None => false,
    }
}

impl ParallelBatcher {
    pub closed spec fn items(&self) -> Seq<ResponseItem> {
        self.items@
    }

    pub closed spec fn max_size(&self) -> nat {
        self.max_batch_size as nat
    }

    pub closed spec fn timeout_ms(&self) -> u64 {
        self.batch_timeout_ms
    }

    /// Whether an item arrived since the batch was last taken.
    pub closed spec fn has_last_item_time(&self) -> bool {
        self.last_item_time is Some
    }

    /// An empty batcher that waits 100 ms for more items and takes at most 10.
    pub fn new() -> (r: Self)
        ensures
            r.items() == Seq::<ResponseItem>::empty(),
            r.max_size() == MAX_BATCH_SIZE,
            r.timeout_ms() == BATCH_TIMEOUT_MS,
            !r.has_last_item_time(),
    {
        ParallelBatcher {
            items: Vec::new(),
            batch_timeout_ms: BATCH_TIMEOUT_MS,
            last_item_time: None,
            max_batch_size: MAX_BATCH_SIZE,
        }
    }

    /// Adds an item and records when it came.
    pub fn add_item(&mut self, item: ResponseItem)
        ensures
            final(self).items() == old(self).items().push(item),
            final(self).max_size() == old(self).max_size(),
            final(self).timeout_ms() == old(self).timeout_ms(),
            final(self).has_last_item_time(),
    {
        self.items.push(item);
        self.last_item_time = Some(instant_now());
    }

    /// Whether the batch should be dispatched now: never when empty, always
    /// when full, otherwise once the timeout has passed since the last item.
    pub fn should_process_batch(&self) -> (r: bool)
        ensures
            self.items().len() == 0 ==> !r,
            self.items().len() >= self.max_size() && self.items().len() > 0 ==> r,
            !self.has_last_item_time() ==> r == batch_ready(
                self.items().len(),
                self.max_size(),
                None,
                self.timeout_ms(),
            ),
    {
        let since = match &self.last_item_time {
            Some(t) => Some(elapsed_ms(t)),
            None => None,
        };
        should_process(self.items.len(), self.max_batch_size, since, self.batch_timeout_ms)
    }

    /// Whether the batch holds at least two items, all of them tool calls.
    pub fn is_parallelizable(&self) -> (r: bool)
        ensures
            r == (self.items().len() > 1 && forall|i: int|
                0 <= i < self.items().len() ==> (#[trigger] self.items()[i]) is FunctionCall),
    {
        if self.items.len() <= 1 {
            return false;
        }
        let mut i: usize = 0;
        while i < self.items.len()
            invariant
                i <= self.items@.len(),
                forall|j: int| 0 <= j < i ==> (#[trigger] self.items@[j]) is FunctionCall,
            decreases self.items.len() - i,
        {
            let call = match &self.items[i] {
                ResponseItem::FunctionCall { .. } => true,
                _ => false,
            };
            if !call {
                return false;
            }
            i = i + 1;
        }
        true
    }

    /// Takes all items out, leaving the batch empty.
    pub fn take_items(&mut self) -> (r: Vec<ResponseItem>)
        ensures
            r@ == old(self).items(),
            final(self).items() == Seq::<ResponseItem>::empty(),
            !final(self).has_last_item_time(),
            final(self).max_size() == old(self).max_size(),
            final(self).timeout_ms() == old(self).timeout_ms(),
    {
        self.last_item_time = None;
        let mut taken: Vec<ResponseItem> = Vec::new();
        std::mem::swap(&mut self.items, &mut taken);
        taken
    }

    pub fn len(&self) -> (r: usize)
        ensures
            r == self.items().len(),
    {
        self.items.len()
    }

    pub fn is_empty(&self) -> (r: bool)
        ensures
            r == (self.items().len() == 0),
    {
        self.items.len() == 0
    }
}

} // verus!
