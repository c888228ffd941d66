//! The cursor that bounds one page of a history.
//!
//! A page holds the events that are strictly older than the cursor's
//! timestamp, at most `limit` of them, from the newest to the oldest. The
//! cursor of the next page is taken from the oldest item of the page before.
//! The block height of a cursor filters nothing: it names the block at which
//! the balance that anchors a backward walk is asked for.
use crate::errors::ErrorKind;
use vstd::prelude::*;

verus! {

/// Where a page of a history begins, and how long it may be.
#[derive(Clone, Copy, Debug, PartialEq, Eq, Structural)]
pub struct HistoryPagination {
    /// The height of the block at which the anchor balance is known.
    pub block_height: u64,
    /// The timestamp, in nanoseconds, that every event of the page is older
    /// than.
    pub block_timestamp: u64,
    /// The most events that the page may hold; positive.
    pub limit: u32,
}

impl HistoryPagination {
    /// Whether the cursor asks for at least one event.
    pub open spec fn wf(&self) -> bool {
        self.limit > 0
    }

    /// Whether an event with this timestamp belongs behind the cursor: it is
    /// strictly older.
    pub open spec fn admits_spec(&self, block_timestamp_nanos: u64) -> bool {
        block_timestamp_nanos < self.block_timestamp
    }

    /// The cursor that follows this one, behind an event of the given height
    /// and timestamp.
    pub open spec fn after_spec(&self, block_height: u64, block_timestamp_nanos: u64) -> Self {
        HistoryPagination {
            block_height,
            block_timestamp: block_timestamp_nanos,
            limit: self.limit,
        }
    }

    /// Whether events with these timestamps, in this order, can be the page
    /// of this cursor: no more than `limit`, each strictly older than the
    /// cursor, none younger than one that stands before it.
    pub open spec fn is_page(&self, timestamps: Seq<u64>) -> bool {
        &&& timestamps.len() <= self.limit
        &&& forall|i: int| 0 <= i < timestamps.len() ==> self.admits_spec(#[trigger] timestamps[i])
        &&& forall|i: int, j: int|
            0 <= i <= j < timestamps.len() ==> #[trigger] timestamps[i] >= #[trigger] timestamps[j]
    }

    /// Makes a cursor. The limit must be positive; no upper bound is set on
    /// it here.
    ///
    /// Fails with `InvalidInput` where the limit is zero.
    pub fn new(block_height: u64, block_timestamp: u64, limit: u32) -> (r: Result<Self, ErrorKind>)
        ensures
            limit > 0 ==> r == Ok::<Self, ErrorKind>(
                (HistoryPagination { block_height, block_timestamp, limit }),
            ),
            limit == 0 ==> r == Err::<Self, ErrorKind>(ErrorKind::InvalidInput),
            r is Ok ==> r->Ok_0.wf(),
    {
        if limit == 0 {
            Err(ErrorKind::InvalidInput)
        } else {
            Ok(HistoryPagination { block_height, block_timestamp, limit })
        }
    }

    /// Tells whether an event with this timestamp belongs behind the cursor.
    pub fn admits(&self, block_timestamp_nanos: u64) -> (admitted: bool)
        ensures
            admitted == self.admits_spec(block_timestamp_nanos),
    {
        block_timestamp_nanos < self.block_timestamp
    }

    /// Derives the cursor of the next page from the oldest item of this one.
    pub fn after(&self, block_height: u64, block_timestamp_nanos: u64) -> (next: Self)
        ensures
            next == self.after_spec(block_height, block_timestamp_nanos),
            self.wf() ==> next.wf(),
    {
        HistoryPagination { block_height, block_timestamp: block_timestamp_nanos, limit: self.limit }
    }

    /// Tells whether events with these timestamps, in this order, can be the
    /// page of this cursor.
    pub fn accepts_page(&self, timestamps: &Vec<u64>) -> (accepted: bool)
        ensures
            accepted == self.is_page(timestamps@),
    {
        if timestamps.len() > self.limit as usize {
            return false;
        }
        let mut at: usize = 0;
        while at < timestamps.len()
            invariant
                at <= timestamps@.len() <= self.limit,
                forall|i: int| 0 <= i < at ==> self.admits_spec(#[trigger] timestamps@[i]),
                forall|i: int| 0 < i < at ==> timestamps@[i - 1] >= #[trigger] timestamps@[i],
            decreases timestamps@.len() - at,
        {
            if timestamps[at] >= self.block_timestamp {
                return false;
            }
            if at > 0 && timestamps[at - 1] < timestamps[at] {
                return false;
            }
            at = at + 1;
        }
        proof {
            lemma_descending(timestamps@);
        }
        true
    }
}

/// A sequence in which no element is greater than the one before it has no
/// element greater than any that stands before it.
pub proof fn lemma_descending(timestamps: Seq<u64>)
    requires
        forall|i: int| 0 < i < timestamps.len() ==> timestamps[i - 1] >= #[trigger] timestamps[i],
    ensures
        forall|i: int, j: int|
            0 <= i <= j < timestamps.len() ==> #[trigger] timestamps[i] >= #[trigger] timestamps[j],
    decreases timestamps.len(),
{
    if timestamps.len() > 0 {
        let earlier = timestamps.drop_last();
        assert forall|i: int| 0 < i < earlier.len() implies earlier[i - 1] >= #[trigger] earlier[i] by {
            assert(earlier[i] == timestamps[i]);
            assert(earlier[i - 1] == timestamps[i - 1]);
        }
        lemma_descending(earlier);
        assert forall|i: int, j: int| 0 <= i <= j < timestamps.len() implies #[trigger] timestamps[i]
            >= #[trigger] timestamps[j] by {
            if j < earlier.len() {
                assert(earlier[i] == timestamps[i]);
                assert(earlier[j] == timestamps[j]);
            } else if i < j {
                let k = j - 1;
                assert(earlier[i] == timestamps[i]);
                assert(earlier[k] == timestamps[k]);
                assert(earlier[i] >= earlier[k]);
                assert(timestamps[j - 1] >= timestamps[j]);
            }
        }
    }
}

/// Paging never hands out an event twice: every event of the page that
/// follows a page is strictly older than every event of that page, and the
/// cursor that follows a page admits none of its events.
pub proof fn lemma_next_page_disjoint(
    cursor: HistoryPagination,
    page: Seq<u64>,
    block_height: u64,
    next_page: Seq<u64>,
)
    requires
        cursor.is_page(page),
        page.len() > 0,
        cursor.after_spec(block_height, page.last()).is_page(next_page),
    ensures
        forall|i: int|
            0 <= i < page.len() ==> !cursor.after_spec(block_height, page.last()).admits_spec(
                #[trigger] page[i],
            ),
        forall|i: int, j: int|
            0 <= i < page.len() && 0 <= j < next_page.len() ==> #[trigger] next_page[j]
                < #[trigger] page[i],
        forall|j: int| 0 <= j < next_page.len() ==> cursor.admits_spec(#[trigger] next_page[j]),
{
    let next = cursor.after_spec(block_height, page.last());
    assert forall|i: int| 0 <= i < page.len() implies page[i] >= page.last() by {
        assert(page[i] >= page[page.len() - 1]);
    }
    assert forall|i: int, j: int|
        0 <= i < page.len() && 0 <= j < next_page.len() implies #[trigger] next_page[j]
        < #[trigger] page[i] by {
        assert(next.admits_spec(next_page[j]));
        assert(page[i] >= page.last());
    }
    assert forall|j: int| 0 <= j < next_page.len() implies cursor.admits_spec(
        #[trigger] next_page[j],
    ) by {
        assert(next.admits_spec(next_page[j]));
        assert(cursor.admits_spec(page[page.len() - 1]));
    }
}

} // verus!
