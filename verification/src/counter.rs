use vstd::prelude::*;

verus! {

/// How many ledgers may pass before the counter entry's time to live is
/// extended again.
pub const COUNTER_TTL_THRESHOLD: u32 = 50;

/// The time to live, in ledgers, that each write of the counter extends its
/// entry to.
pub const COUNTER_TTL_EXTEND_TO: u32 = 100;

/// `c + 1`, or `c` itself when `c` is already `i32::MAX`.
pub open spec fn saturating_inc(c: i32) -> i32 {
    if c == i32::MAX {
        c
    } else {
        (c + 1) as i32
    }
}

/// `c - 1`, or `c` itself when `c` is already `i32::MIN`.
pub open spec fn saturating_dec(c: i32) -> i32 {
    if c == i32::MIN {
        c
    } else {
        (c - 1) as i32
    }
}

/// The demonstration counter.
///
/// Its only state is the counter's storage entry, which lives in temporary
/// storage: it may be absent (never written, or dropped when its time to live
/// lapsed), and an absent entry counts as zero.
pub struct CounterContract {
    stored: Option<i32>,
}

impl CounterContract {
    /// The value the counter reads as.
    pub open spec fn count(self) -> i32 {
        match self.stored_spec() {
            Some(c) => c,
            None => 0,
        }
    }

    /// The counter's storage entry.
    pub closed spec fn stored_spec(self) -> Option<i32> {
        self.stored
    }

    /// A counter whose storage holds no entry yet.
    pub fn new() -> (c: CounterContract)
        ensures
            c.stored_spec() == None::<i32>,
            c.count() == 0,
    {
        CounterContract { stored: None }
    }

    /// The counter over the storage entry `stored`, as read from storage.
    pub fn from_stored(stored: Option<i32>) -> (c: CounterContract)
        ensures
            c.stored_spec() == stored,
    {
        CounterContract { stored }
    }

    /// The counter's storage entry, to be written back to storage.
    pub fn stored(&self) -> (s: Option<i32>)
        ensures
            s == self.stored_spec(),
    {
        self.stored
    }

    /// The current count: the stored value, or zero when nothing is stored.
    pub fn get_count(&self) -> (c: i32)
        ensures
            c == self.count(),
    {
        match self.stored {
            Some(c) => c,
            None => 0,
        }
    }

    /// Adds one to the count, saturating at `i32::MAX`, stores the result
    /// and returns it.
    pub fn increment(&mut self) -> (c: i32)
        ensures
            c == saturating_inc(old(self).count()),
            final(self).stored_spec() == Some(c),
            final(self).count() == c,
    {
        let current = self.get_count();
        let c = if current == i32::MAX { current } else { current + 1 };
        self.stored = Some(c);
        c
    }

    /// Subtracts one from the count, saturating at `i32::MIN`, stores the
    /// result and returns it.
    pub fn decrement(&mut self) -> (c: i32)
        ensures
            c == saturating_dec(old(self).count()),
            final(self).stored_spec() == Some(c),
            final(self).count() == c,
    {
        let current = self.get_count();
        let c = if current == i32::MIN { current } else { current - 1 };
        self.stored = Some(c);
        c
    }
}

/// A decrement undoes an increment, unless the increment saturated.
pub proof fn lemma_decrement_undoes_increment(c: i32)
    requires
        c < i32::MAX,
    ensures
        saturating_dec(saturating_inc(c)) == c,
{
}

/// An increment undoes a decrement, unless the decrement saturated.
pub proof fn lemma_increment_undoes_decrement(c: i32)
    requires
        c > i32::MIN,
    ensures
        saturating_inc(saturating_dec(c)) == c,
{
}

/// An increment never lowers the count and a decrement never raises it.
pub proof fn lemma_counter_moves_by_at_most_one(c: i32)
    ensures
        c <= saturating_inc(c) <= c + 1,
        c - 1 <= saturating_dec(c) <= c,
{
}

} // verus!
