//! The stream engine's cursor: the state of one unbounded, lazy, forward
//! sequence of entries, and the decisions that drive it.  The loop that
//! performs the fetches lives outside the crate; it asks this state what to
//! do next, hands each fetch outcome back, and yields what it is given.
//!
//! A failed or empty refill ends the stream rather than surfacing an
//! error; only the initial fetch, at construction, surfaces its failure.

use vstd::prelude::*;
use crate::model::{Query, Entry, EntryV, Error};

verus! {

/// One stream's cursor: the caller's query, the height its batch was
/// fetched at, the batch, and how far it has been consumed.
pub struct StreamState {
    pub query: Query,
    pub height: u64,
    pub current_batch: Vec<Entry>,
    pub current_index: usize,
}

impl StreamState {
    /// The cursor never runs past its batch.
    pub open spec fn wf(self) -> bool {
        self.current_index <= self.current_batch@.len()
    }

    /// The number of the last entry of the held batch; 0 when it is empty.
    pub open spec fn last_number(self) -> u64 {
        if self.current_batch@.len() == 0 {
            0u64
        } else {
            self.current_batch@.last().header.number
        }
    }

    /// Where the next fetch starts: one past both the height already
    /// fetched and the last entry received, so the cursor can neither
    /// stall nor regress on a stale batch.
    pub open spec fn spec_refill_height(self) -> int {
        if self.height >= self.last_number() {
            self.height + 1
        } else {
            self.last_number() + 1
        }
    }

    /// The outcome of stream construction: the initial fetch's failure is
    /// surfaced as the stream's own; any fetched batch, even an empty one,
    /// starts the stream with nothing consumed.
    pub fn start(query: Query, height: u64, fetched: Result<Vec<Entry>, Error>) -> (r: Result<
        StreamState,
        Error,
    >)
        ensures
            match fetched {
                Ok(b) => (r matches Ok(st) && st.query == query && st.height == height
                    && st.current_batch == b && st.current_index == 0 && st.wf()),
                Err(e) => (r matches Err(e2) && e2 == e),
            },
    {
        match fetched {
            Ok(b) => Ok(
                StreamState { query, height, current_batch: b, current_index: 0 },
            ),
            Err(e) => Err(e),
        }
    }

    /// True when the batch is exhausted and only a refill can go on.
    pub fn needs_refill(&self) -> (r: bool)
        ensures
            r == (self.current_index == self.current_batch@.len()),
    {
        self.current_index == self.current_batch.len()
    }

    /// Yields the entry under the cursor and advances the cursor by one.
    pub fn advance(&mut self) -> (r: Entry)
        requires
            old(self).current_index < old(self).current_batch@.len(),
        ensures
            r@ == old(self).current_batch@[old(self).current_index as int]@,
            final(self).query == old(self).query,
            final(self).height == old(self).height,
            final(self).current_batch == old(self).current_batch,
            final(self).current_index == old(self).current_index + 1,
            final(self).wf(),
    {
        let n = self.current_batch.len();
        let e = self.current_batch[self.current_index].clone();
        proof {
            assert(self.current_index < n);
        }
        self.current_index = self.current_index + 1;
        e
    }

    /// The height of the next fetch: `max(height, last entry's number) + 1`.
    pub fn refill_height(&self) -> (r: u64)
        requires
            self.spec_refill_height() <= u64::MAX,
        ensures
            r == self.spec_refill_height(),
            r > self.height,
            self.current_batch@.len() > 0 ==> r > self.current_batch@.last().header.number,
    {
        let last: u64 = if self.current_batch.len() == 0 {
            0
        } else {
            self.current_batch[self.current_batch.len() - 1].header.number
        };
        let m: u64 = if self.height >= last {
            self.height
        } else {
            last
        };
        m + 1
    }

    /// Applies one refill outcome.  A failed or empty refill ends the
    /// stream (`None`) and leaves the state untouched; otherwise the state
    /// takes the new batch at its height with the first entry already
    /// consumed, and that entry is returned.
    pub fn apply_refill(&mut self, height: u64, fetched: Result<Vec<Entry>, Error>) -> (r:
        Option<Entry>)
        ensures
            match fetched {
                Err(_) => r is None && *final(self) == *old(self),
                Ok(b) => if b@.len() == 0 {
                    r is None && *final(self) == *old(self)
                } else {
                    (r matches Some(e) && e@ == b@[0]@ && final(self).query == old(self).query
                        && final(self).height == height && final(self).current_batch == b
                        && final(self).current_index == 1 && final(self).wf())
                },
            },
    {
        match fetched {
            Err(_) => None,
            Ok(b) => {
                if b.len() == 0 {
                    return None;
                }
                let e = b[0].clone();
                self.height = height;
                self.current_batch = b;
                self.current_index = 1;
                Some(e)
            },
        }
    }
}

/// Cursor monotonicity: after a batch ending at entry number `N`, every
/// nonempty batch a range-respecting worker returns for the refill height
/// starts at `N + 1` or later.
pub proof fn lemma_cursor_monotonic(st: StreamState, b2: Seq<EntryV>, h: int)
    requires
        st.current_batch@.len() > 0,
        h == st.spec_refill_height(),
        b2.len() > 0,
        forall|i: int| 0 <= i < b2.len() ==> b2[i].header.number >= h,
    ensures
        b2[0].header.number >= st.current_batch@.last().header.number + 1,
{
    assert(b2[0].header.number >= h);
}

} // verus!
