//! Bulk migration between instances: the paging of the source listing, the
//! total size of what it found, and the tally of the copies made.
use vstd::prelude::*;

verus! {

/// The page to ask for after page `page`, which returned `got` artifacts
/// when asked for `page_size`: a short page is the last one.
pub fn next_page(page: u32, page_size: u32, got: usize) -> (r: Option<u32>)
    requires
        page < u32::MAX,
    ensures
        r == (if got < page_size { None::<u32> } else { Some((page + 1) as u32) }),
{
    if got < page_size as usize {
        None
    } else {
        Some(page + 1)
    }
}

/// The sum of some sizes in bytes.
pub open spec fn size_total(sizes: Seq<i64>) -> int
    decreases sizes.len(),
{
    if sizes.len() == 0 {
        0
    } else {
        size_total(sizes.drop_last()) + sizes.last()
    }
}

/// Every running total of `sizes`, from the first size on, fits in an `i64`.
pub open spec fn totals_fit(sizes: Seq<i64>) -> bool {
    forall|k: int| 0 <= k <= sizes.len() ==> i64::MIN <= #[trigger] size_total(sizes.take(k)) <= i64::MAX
}

/// The total size of the artifacts found, in bytes.
pub fn total_size(sizes: &Vec<i64>) -> (r: i64)
    requires
        totals_fit(sizes@),
    ensures
        r == size_total(sizes@),
{
    let mut total: i64 = 0;
    let mut i: usize = 0;
    assert(sizes@.take(0) =~= Seq::<i64>::empty());
    while i < sizes.len()
        invariant
            i <= sizes.len(),
            totals_fit(sizes@),
            total == size_total(sizes@.take(i as int)),
        decreases sizes.len() - i,
    {
        assert(sizes@.take(i + 1).drop_last() =~= sizes@.take(i as int));
        assert(i64::MIN <= size_total(sizes@.take(i + 1)) <= i64::MAX);
        total = total + sizes[i];
        i = i + 1;
    }
    assert(sizes@.take(sizes.len() as int) =~= sizes@);
    total
}

/// What a migration has done so far: the artifacts copied, those that
/// failed, and the bytes copied.
pub struct MigrationTally {
    pub succeeded: u64,
    pub failed: u64,
    pub bytes: i64,
}

impl MigrationTally {
    /// Nothing done yet.
    pub fn new() -> (t: Self)
        ensures
            t.succeeded == 0 && t.failed == 0 && t.bytes == 0,
    {
        MigrationTally { succeeded: 0, failed: 0, bytes: 0 }
    }

    /// Counts the outcome of one artifact: its size when it was copied,
    /// `None` when it failed.
    pub fn record(&mut self, outcome: Option<i64>)
        requires
            old(self).succeeded < u64::MAX,
            old(self).failed < u64::MAX,
            outcome matches Some(n) ==> i64::MIN <= old(self).bytes + n <= i64::MAX,
        ensures
            match outcome {
                Some(n) => final(self).succeeded == old(self).succeeded + 1 && final(self).failed == old(
                    self,
                ).failed && final(self).bytes == old(self).bytes + n,
                None => final(self).succeeded == old(self).succeeded && final(self).failed == old(self).failed + 1
                    && final(self).bytes == old(self).bytes,
            },
    {
        match outcome {
            Some(n) => {
                self.succeeded = self.succeeded + 1;
                self.bytes = self.bytes + n;
            },
            None => {
                self.failed = self.failed + 1;
            },
        }
    }

    /// Whether the migration ends in failure: some artifact was not copied.
    pub fn any_failed(&self) -> (r: bool)
        ensures
            r == (self.failed > 0),
    {
        self.failed > 0
    }
}

} // verus!
