//! Execution profile: summary statistics over a per-address hit-count array.

use vstd::prelude::*;

verus! {

/// Largest count in `counts`, or 0 when it is empty.
pub open spec fn max_of(counts: Seq<u32>) -> int
    decreases counts.len(),
{
    if counts.len() == 0 {
        0
    } else if counts.last() > max_of(counts.drop_last()) {
        counts.last() as int
    } else {
        max_of(counts.drop_last())
    }
}

/// Sum of all counts.
pub open spec fn total_of(counts: Seq<u32>) -> int
    decreases counts.len(),
{
    if counts.len() == 0 {
        0
    } else {
        total_of(counts.drop_last()) + counts.last()
    }
}

/// Number of addresses whose count is not zero.
pub open spec fn hit_count(counts: Seq<u32>) -> int
    decreases counts.len(),
{
    if counts.len() == 0 {
        0
    } else if counts.last() > 0 {
        hit_count(counts.drop_last()) + 1
    } else {
        hit_count(counts.drop_last())
    }
}

/// Lowest address with a non-zero count, or 0 when there is none.
pub open spec fn first_hit(counts: Seq<u32>) -> int
    decreases counts.len(),
{
    if counts.len() == 0 {
        0
    } else if hit_count(counts.drop_last()) > 0 {
        first_hit(counts.drop_last())
    } else if counts.last() > 0 {
        counts.len() - 1
    } else {
        0
    }
}

/// Highest address with a non-zero count, or 0 when there is none.
pub open spec fn last_hit(counts: Seq<u32>) -> int
    decreases counts.len(),
{
    if counts.len() == 0 {
        0
    } else if counts.last() > 0 {
        counts.len() - 1
    } else {
        last_hit(counts.drop_last())
    }
}

/// Summary of one interpreter run's per-address execution counts.
#[derive(Clone, Copy, Debug, PartialEq, Eq, Structural)]
pub struct ProfileReport {
    /// Number of addresses in the program.
    pub program_len: usize,
    /// Largest count of any single address.
    pub max_count: u32,
    /// Sum of all counts.
    pub total_instructions: u128,
    /// Number of addresses that were executed at least once.
    pub data_points: usize,
    /// First executed address (0 when nothing ran).
    pub pc_start: usize,
    /// Last executed address (0 when nothing ran).
    pub pc_end: usize,
}

impl ProfileReport {
    /// The report that belongs to `counts`.
    pub open spec fn describes(self, counts: Seq<u32>) -> bool {
        &&& self.program_len == counts.len()
        &&& self.max_count == max_of(counts)
        &&& self.total_instructions == total_of(counts)
        &&& self.data_points == hit_count(counts)
        &&& self.pc_start == first_hit(counts)
        &&& self.pc_end == last_hit(counts)
    }

    /// The inclusive address range of executed addresses, `(0, 0)` when
    /// nothing ran.
    pub fn pc_range(&self) -> (range: (usize, usize))
        ensures
            range == (self.pc_start, self.pc_end),
    {
        (self.pc_start, self.pc_end)
    }
}

/// Bounds that keep the running sums of `summarize` inside their types.
proof fn lemma_prefix_bounds(counts: Seq<u32>)
    ensures
        0 <= hit_count(counts) <= counts.len(),
        0 <= total_of(counts) <= counts.len() * 0xFFFF_FFFF,
        0 <= max_of(counts) <= 0xFFFF_FFFF,
        0 <= first_hit(counts) <= counts.len(),
        0 <= last_hit(counts) <= counts.len(),
        hit_count(counts) == 0 ==> first_hit(counts) == 0 && last_hit(counts) == 0,
    decreases counts.len(),
{
    if counts.len() > 0 {
        lemma_prefix_bounds(counts.drop_last());
        assert((counts.len() - 1) * 0xFFFF_FFFF + 0xFFFF_FFFF == counts.len() * 0xFFFF_FFFF)
            by (nonlinear_arith);
    }
}

/// Computes the profile of `counts` in one pass.
pub fn summarize(counts: &Vec<u32>) -> (report: ProfileReport)
    ensures
        report.describes(counts@),
{
    let mut max_count: u32 = 0;
    let mut total: u128 = 0;
    let mut points: usize = 0;
    let mut start: usize = 0;
    let mut end: usize = 0;
    let mut pc: usize = 0;
    while pc < counts.len()
        invariant
            pc <= counts.len(),
            max_count == max_of(counts@.take(pc as int)),
            total == total_of(counts@.take(pc as int)),
            points == hit_count(counts@.take(pc as int)),
            start == first_hit(counts@.take(pc as int)),
            end == last_hit(counts@.take(pc as int)),
        decreases counts.len() - pc,
    {
        let count: u32 = counts[pc];
        proof {
            let before = counts@.take(pc as int);
            let after = counts@.take(pc + 1);
            assert(after.drop_last() =~= before);
            assert(after.last() == count);
            lemma_prefix_bounds(before);
            lemma_prefix_bounds(after);
            assert(counts@.len() * 0xFFFF_FFFF <= 0xFFFF_FFFF_FFFF_FFFF * 0xFFFF_FFFF)
                by (nonlinear_arith)
                requires
                    counts@.len() <= 0xFFFF_FFFF_FFFF_FFFF,
            ;
            assert(after.len() * 0xFFFF_FFFF <= counts@.len() * 0xFFFF_FFFF) by (nonlinear_arith)
                requires
                    after.len() <= counts@.len(),
            ;
        }
        if count > 0 {
            if points == 0 {
                start = pc;
            }
            end = pc;
            points = points + 1;
        }
        if count > max_count {
            max_count = count;
        }
        total = total + count as u128;
        pc = pc + 1;
    }
    assert(counts@.take(pc as int) =~= counts@);
    ProfileReport {
        program_len: counts.len(),
        max_count,
        total_instructions: total,
        data_points: points,
        pc_start: start,
        pc_end: end,
    }
}

/// `max_of` is an upper bound of every count, and some count attains it.
pub proof fn lemma_max_is_greatest(counts: Seq<u32>)
    ensures
        forall|pc: int| 0 <= pc < counts.len() ==> #[trigger] counts[pc] <= max_of(counts),
        counts.len() > 0 ==> exists|pc: int|
            0 <= pc < counts.len() && #[trigger] counts[pc] == max_of(counts),
        counts.len() == 0 ==> max_of(counts) == 0,
    decreases counts.len(),
{
    if counts.len() > 0 {
        let rest = counts.drop_last();
        lemma_max_is_greatest(rest);
        assert forall|pc: int| 0 <= pc < counts.len() implies #[trigger] counts[pc] <= max_of(
            counts,
        ) by {
            if pc < rest.len() {
                assert(rest[pc] == counts[pc]);
            }
        }
        if counts.last() > max_of(rest) || rest.len() == 0 {
            assert(counts[counts.len() - 1] == max_of(counts));
        } else {
            let pc = choose|pc: int| 0 <= pc < rest.len() && #[trigger] rest[pc] == max_of(rest);
            assert(counts[pc] == max_of(counts));
        }
    }
}

/// Where some address was executed, `first_hit` and `last_hit` are the lowest
/// and the highest executed address: both have a non-zero count, and every
/// address below the first or above the last has count zero.
pub proof fn lemma_hit_range(counts: Seq<u32>)
    requires
        hit_count(counts) > 0,
    ensures
        0 <= first_hit(counts) <= last_hit(counts) < counts.len(),
        counts[first_hit(counts)] > 0,
        counts[last_hit(counts)] > 0,
        forall|pc: int|
            0 <= pc < counts.len() && (pc < first_hit(counts) || last_hit(counts) < pc)
                ==> #[trigger] counts[pc] == 0,
    decreases counts.len(),
{
    let rest = counts.drop_last();
    if hit_count(rest) > 0 {
        lemma_hit_range(rest);
        assert forall|pc: int|
            0 <= pc < counts.len() && (pc < first_hit(counts) || last_hit(counts) < pc)
            implies #[trigger] counts[pc] == 0 by {
            if pc < rest.len() {
                assert(rest[pc] == counts[pc]);
            }
        }
    } else {
        lemma_no_hits(rest);
        assert forall|pc: int| 0 <= pc < rest.len() implies #[trigger] counts[pc] == 0 by {
            assert(rest[pc] == counts[pc]);
        }
    }
}

/// No address was executed exactly when every count is zero.
pub proof fn lemma_no_hits(counts: Seq<u32>)
    ensures
        hit_count(counts) == 0 <==> forall|pc: int|
            0 <= pc < counts.len() ==> #[trigger] counts[pc] == 0,
        hit_count(counts) >= 0,
    decreases counts.len(),
{
    if counts.len() > 0 {
        let rest = counts.drop_last();
        lemma_no_hits(rest);
        if hit_count(counts) == 0 {
            assert forall|pc: int| 0 <= pc < counts.len() implies #[trigger] counts[pc] == 0 by {
                if pc < rest.len() {
                    assert(rest[pc] == counts[pc]);
                }
            }
        }
        if forall|pc: int| 0 <= pc < counts.len() ==> #[trigger] counts[pc] == 0 {
            assert forall|pc: int| 0 <= pc < rest.len() implies #[trigger] rest[pc] == 0 by {
                assert(rest[pc] == counts[pc]);
            }
            assert(counts[counts.len() - 1] == 0);
        }
    }
}

/// `hit_count` counts the entries that are not zero.
pub proof fn lemma_hit_count_is_filter(counts: Seq<u32>)
    ensures
        hit_count(counts) == counts.filter(|count: u32| count > 0).len(),
    decreases counts.len(),
{
    reveal(Seq::filter);
    if counts.len() > 0 {
        lemma_hit_count_is_filter(counts.drop_last());
    }
}

/// A run that executed nothing: the maximum, the total, the number of data
/// points and both ends of the range are all zero, whatever the length of
/// the program.
pub proof fn lemma_idle_profile(counts: Seq<u32>, report: ProfileReport)
    requires
        forall|pc: int| 0 <= pc < counts.len() ==> #[trigger] counts[pc] == 0,
        report.describes(counts),
    ensures
        report.max_count == 0,
        report.total_instructions == 0,
        report.data_points == 0,
        report.pc_start == 0,
        report.pc_end == 0,
        report.program_len == counts.len(),
{
    lemma_idle_counts(counts);
}

/// The measures of a count array that holds only zeros.
proof fn lemma_idle_counts(counts: Seq<u32>)
    requires
        forall|pc: int| 0 <= pc < counts.len() ==> #[trigger] counts[pc] == 0,
    ensures
        max_of(counts) == 0,
        total_of(counts) == 0,
        hit_count(counts) == 0,
        first_hit(counts) == 0,
        last_hit(counts) == 0,
    decreases counts.len(),
{
    if counts.len() > 0 {
        let rest = counts.drop_last();
        assert forall|pc: int| 0 <= pc < rest.len() implies #[trigger] rest[pc] == 0 by {
            assert(rest[pc] == counts[pc]);
        }
        lemma_idle_counts(rest);
        assert(counts[counts.len() - 1] == 0);
    }
}

} // verus!
