//! Snapshot freshness metadata: the total size of the backing dataset
//! files and when the primary dataset file last changed. Reported
//! independently of the aggregation path; the caller reads the file
//! metadata and hands the plain values in.

use vstd::prelude::*;

verus! {

use crate::meta::{ResponseMeta, ResponseMetaBuilder};

/// Freshness metadata of the backing snapshot.
#[derive(Debug)]
pub struct SnapshotStats {
    /// Metadata of the response.
    pub meta: ResponseMeta,
    /// The total size of the backing dataset files, in bytes.
    pub directory_size: u64,
    /// When the primary dataset file last changed, in milliseconds since
    /// the Unix epoch.
    pub date_modified: u64,
}

impl Default for SnapshotStats {
    fn default() -> (r: Self)
        ensures
            r.meta.status is Success,
            r.directory_size == 0,
            r.date_modified == 0,
    {
        SnapshotStats { meta: ResponseMeta::default(), directory_size: 0, date_modified: 0 }
    }
}

/// The exact sum of the file sizes.
pub open spec fn spec_size_sum(sizes: Seq<u64>) -> int
    decreases sizes.len(),
{
    if sizes.len() == 0 {
        0
    } else {
        spec_size_sum(sizes.drop_last()) + sizes.last()
    }
}

/// The sum of the file sizes, saturating at the largest representable
/// value.
pub open spec fn spec_size_sum_sat(sizes: Seq<u64>) -> u64
    decreases sizes.len(),
{
    if sizes.len() == 0 {
        0u64
    } else {
        let p = spec_size_sum_sat(sizes.drop_last());
        if p + sizes.last() > u64::MAX {
            u64::MAX
        } else {
            (p + sizes.last()) as u64
        }
    }
}

/// When the exact sum fits, the saturating sum equals it: for any real
/// directory listing the reported size is the exact total.
pub proof fn lemma_size_sum_exact(sizes: Seq<u64>)
    requires
        spec_size_sum(sizes) <= u64::MAX,
    ensures
        spec_size_sum_sat(sizes) == spec_size_sum(sizes),
    decreases sizes.len(),
{
    if sizes.len() > 0 {
        lemma_size_sum_exact_helper(sizes.drop_last());
        lemma_size_sum_exact(sizes.drop_last());
    }
}

/// The saturating sum never undershoots a partial exact sum.
proof fn lemma_size_sum_exact_helper(sizes: Seq<u64>)
    ensures
        spec_size_sum(sizes) >= 0,
        spec_size_sum_sat(sizes) <= spec_size_sum(sizes),
    decreases sizes.len(),
{
    if sizes.len() > 0 {
        lemma_size_sum_exact_helper(sizes.drop_last());
    }
}

/// Builds the freshness metadata from the backing files' sizes and the
/// primary file's modification time: the reported size is the saturating
/// sum of the sizes — exact whenever the total fits — and the
/// modification time is passed through.
pub fn get_metadata(file_sizes: &Vec<u64>, date_modified: u64) -> (r: SnapshotStats)
    ensures
        r.directory_size == spec_size_sum_sat(file_sizes@),
        r.date_modified == date_modified,
        r.meta.status is Success,
        r.meta.total == 0,
{
    let meta = ResponseMetaBuilder::new();
    let n = file_sizes.len();
    let mut acc: u64 = 0;
    let mut i: usize = 0;
    proof {
        assert(file_sizes@.take(0) =~= Seq::<u64>::empty());
    }
    while i < n
        invariant
            n == file_sizes@.len(),
            i <= n,
            acc == spec_size_sum_sat(file_sizes@.take(i as int)),
        decreases n - i,
    {
        proof {
            assert(file_sizes@.take(i + 1) =~= file_sizes@.take(i as int).push(
                file_sizes@[i as int],
            ));
            assert(file_sizes@.take(i + 1).drop_last() =~= file_sizes@.take(i as int));
        }
        let sz = file_sizes[i];
        if u64::MAX - acc < sz {
            acc = u64::MAX;
        } else {
            acc = acc + sz;
        }
        i = i + 1;
    }
    proof {
        assert(file_sizes@.take(n as int) =~= file_sizes@);
    }
    SnapshotStats { meta: meta.build(), directory_size: acc, date_modified }
}

} // verus!
