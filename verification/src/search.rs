//! Locating a bracketing interval in a monotonic table.
//!
//! The piecewise cut lookup and both reparameterization tables need
//! the same primitive: given a non-decreasing table and a rational
//! target `num / den`, find the interval the target falls in.  The
//! convention, well defined even for duplicate entries, is the
//! largest index `i <= len - 2` with `table[i] <= num / den`; when the
//! target lies beyond the last entry this clamps to the final
//! interval.

use vstd::prelude::*;

verus! {

/// Why a bracketing interval could not be produced.
#[derive(Clone, Copy, Debug, PartialEq, Eq, Structural)]
pub enum SearchError {
    /// The table has fewer than two entries, so it has no interval.
    EmptyTable,
    /// The target lies strictly before the first entry.
    BeforeRange,
}

/// The table is non-decreasing.
pub open spec fn table_sorted(s: Seq<i64>) -> bool {
    forall|i: int, j: int| 0 <= i <= j < s.len() ==> s[i] <= s[j]
}

/// Every entry times `den` stays well inside the `i64` range.
pub open spec fn table_scale_ok(s: Seq<i64>, den: int) -> bool {
    forall|i: int| 0 <= i < s.len()
        ==> -0x4000_0000_0000_0000 <= #[trigger] (s[i] * den) <= 0x4000_0000_0000_0000
}

/// The largest index `j <= s.len() - 2` with `s[j] * den <= num`,
/// assuming `s[0] * den <= num` and `s.len() >= 2`.
pub open spec fn floor_index(s: Seq<i64>, num: int, den: int) -> int
    decreases s.len(),
{
    if s.len() <= 2 {
        0
    } else if s[s.len() - 2] * den <= num {
        s.len() - 2
    } else {
        floor_index(s.drop_last(), num, den)
    }
}

/// The defining properties of `floor_index`: it is a valid interval
/// start, its entry is at or below the target, and every later
/// interval start is strictly above the target.
pub proof fn lemma_floor_index_props(s: Seq<i64>, num: int, den: int)
    requires
        s.len() >= 2,
        s[0] * den <= num,
    ensures
        0 <= floor_index(s, num, den) <= s.len() - 2,
        s[floor_index(s, num, den)] * den <= num,
        forall|j: int| floor_index(s, num, den) < j <= s.len() - 2 ==> #[trigger] (s[j] * den)
            > num,
    decreases s.len(),
{
    if s.len() <= 2 {
    } else if s[s.len() - 2] * den <= num {
    } else {
        let t = s.drop_last();
        assert(t[0] == s[0]);
        lemma_floor_index_props(t, num, den);
        assert(forall|j: int| 0 <= j < t.len() ==> t[j] == s[j]);
    }
}

/// Multiplying both sides of `<=` by a positive factor keeps it.
proof fn lemma_mul_mono(x: int, y: int, d: int)
    by (nonlinear_arith)
    requires
        x <= y,
        1 <= d,
    ensures
        x * d <= y * d,
{
}

/// Finds the bracketing interval of the rational target `num / den`
/// in a non-decreasing table by binary search.  Returns the index
/// characterized by `floor_index`; `EmptyTable` when the table has no
/// interval at all, `BeforeRange` when the target lies strictly
/// before the first entry.
pub fn find_interval(table: &Vec<i64>, num: i64, den: i64) -> (r: Result<usize, SearchError>)
    requires
        1 <= den,
        table_sorted(table@),
        table_scale_ok(table@, den as int),
    ensures
        r is Ok <==> (table@.len() >= 2 && table@[0] * den <= num),
        r == Err::<usize, SearchError>(SearchError::EmptyTable) <==> table@.len() < 2,
        r is Ok ==> r.unwrap() == floor_index(table@, num as int, den as int)
            && r.unwrap() + 1 < table@.len()
            && table@[r.unwrap() as int] * den <= num
            && (r.unwrap() + 2 < table@.len() ==> num < table@[r.unwrap() + 1] * den),
{
    if table.len() < 2 {
        return Err(SearchError::EmptyTable);
    }
    if table[0] * den > num {
        return Err(SearchError::BeforeRange);
    }
    let ghost gnum = num as int;
    let ghost gden = den as int;
    let mut lo: usize = 0;
    let mut hi: usize = table.len() - 1;
    while lo + 1 < hi
        invariant
            0 <= lo < hi <= table@.len() - 1,
            1 <= den,
            table_sorted(table@),
            table_scale_ok(table@, den as int),
            table@[lo as int] * den <= num,
            hi == table@.len() - 1 || table@[hi as int] * den > num,
        decreases hi - lo,
    {
        let mid: usize = lo + (hi - lo) / 2;
        assert(lo < mid < hi);
        if table[mid] * den <= num {
            lo = mid;
        } else {
            hi = mid;
        }
    }
    proof {
        lemma_floor_index_props(table@, gnum, gden);
        let f = floor_index(table@, gnum, gden);
        assert(lo <= table@.len() - 2);
        if f < lo {
            assert(table@[lo as int] * gden > gnum);
            assert(false);
        }
        if lo < f {
            assert(hi == lo + 1);
            if (hi as int) == table@.len() - 1 {
                assert(f <= table@.len() - 2);
                assert(false);
            } else {
                assert(table@[hi as int] * gden > gnum);
                assert(hi <= f);
                assert(table@[hi as int] <= table@[f]);
                lemma_mul_mono(table@[hi as int] as int, table@[f] as int, gden);
                assert(table@[f] * gden <= gnum);
                assert(false);
            }
        }
        assert(lo == f);
    }
    Ok(lo)
}

} // verus!
