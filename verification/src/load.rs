//! Aggregate CPU utilization: the sum over all tasks of execution time over
//! period, kept as an exact fraction. No bound is enforced: a value above 1
//! signals an unschedulable set and is reported as-is.

use vstd::prelude::*;

use crate::model::Task;
use crate::model::Tasks;
use crate::model::tasks_valid;

verus! {

/// The numerator of the utilization sum of `s`, over the common denominator
/// `spec_load_den(s)`: folding in a task turns n/d into (n·p + e·d)/(d·p).
pub open spec fn spec_load_num(s: Seq<Task>) -> int
    decreases s.len(),
{
    if s.len() == 0 {
        0
    } else {
        spec_load_num(s.drop_last()) * s.last().inter_arrival + (s.last().trace.end
            - s.last().trace.start) * spec_load_den(s.drop_last())
    }
}

/// The denominator of the utilization sum of `s`: the product of the
/// periods.
pub open spec fn spec_load_den(s: Seq<Task>) -> int
    decreases s.len(),
{
    if s.len() == 0 {
        1
    } else {
        spec_load_den(s.drop_last()) * s.last().inter_arrival
    }
}

/// Whether numerator and denominator of every prefix of the fold stay
/// within the machine word that carries them.
pub open spec fn spec_load_fits(s: Seq<Task>) -> bool
    decreases s.len(),
{
    s.len() == 0 || (spec_load_fits(s.drop_last()) && spec_load_num(s) <= u64::MAX
        && spec_load_den(s) <= u64::MAX)
}

/// Numerator and denominator are nonnegative on a valid task set, the
/// denominator positive.
pub proof fn lemma_load_parts_nonneg(s: Seq<Task>)
    requires
        tasks_valid(s),
    ensures
        spec_load_num(s) >= 0,
        spec_load_den(s) >= 1,
    decreases s.len(),
{
    if s.len() > 0 {
        assert(tasks_valid(s.drop_last())) by {
            assert(forall|i: int|
                0 <= i < s.drop_last().len() ==> s.drop_last()[i] == s[i]);
        }
        lemma_load_parts_nonneg(s.drop_last());
        let t = s.last();
        vstd::arithmetic::mul::lemma_mul_nonnegative(
            spec_load_num(s.drop_last()),
            t.inter_arrival as int,
        );
        vstd::arithmetic::mul::lemma_mul_nonnegative(
            t.trace.end - t.trace.start,
            spec_load_den(s.drop_last()),
        );
        vstd::arithmetic::mul::lemma_mul_strictly_positive(
            spec_load_den(s.drop_last()),
            t.inter_arrival as int,
        );
    }
}

/// The total CPU load of the task set as an exact fraction (numerator,
/// denominator over the product of all periods), or `None` where the exact
/// fold leaves the 64-bit range.
pub fn cpu_load_fraction(tasks: &Tasks) -> (r: Option<(u64, u64)>)
    requires
        tasks_valid(tasks@),
    ensures
        r matches Some(f) ==> f.0 == spec_load_num(tasks@) && f.1 == spec_load_den(tasks@),
        r is Some <==> spec_load_fits(tasks@),
{
    let mut num: u64 = 0;
    let mut den: u64 = 1;
    for i in 0..tasks.len()
        invariant
            tasks_valid(tasks@),
            num == spec_load_num(tasks@.take(i as int)),
            den == spec_load_den(tasks@.take(i as int)),
            spec_load_fits(tasks@.take(i as int)),
    {
        let t = &tasks[i];
        proof {
            assert(tasks@.take(i + 1).drop_last() =~= tasks@.take(i as int));
            assert(tasks@.take(i + 1).last() == tasks@[i as int]);
            assert(tasks_valid(tasks@.take(i + 1))) by {
                assert(forall|j: int|
                    0 <= j < i + 1 ==> tasks@.take(i + 1)[j] == tasks@[j]);
            }
            lemma_load_parts_nonneg(tasks@.take(i + 1));
        }
        let e = (t.trace.end - t.trace.start) as u64;
        let p = t.inter_arrival as u64;
        proof {
            vstd::arithmetic::mul::lemma_mul_nonnegative(num as int, p as int);
            vstd::arithmetic::mul::lemma_mul_nonnegative(e as int, den as int);
            assert(spec_load_num(tasks@.take(i + 1)) == num * p + e * den);
            assert(spec_load_den(tasks@.take(i + 1)) == den * p);
        }
        let n1 = match num.checked_mul(p) {
            Some(x) => x,
            None => {
                proof {
                    lemma_not_fits(tasks@, i as int);
                }
                return None;
            },
        };
        let n2 = match e.checked_mul(den) {
            Some(x) => x,
            None => {
                proof {
                    lemma_not_fits(tasks@, i as int);
                }
                return None;
            },
        };
        let n3 = match n1.checked_add(n2) {
            Some(x) => x,
            None => {
                proof {
                    lemma_not_fits(tasks@, i as int);
                }
                return None;
            },
        };
        let d1 = match den.checked_mul(p) {
            Some(x) => x,
            None => {
                proof {
                    lemma_not_fits(tasks@, i as int);
                }
                return None;
            },
        };
        num = n3;
        den = d1;
        proof {
            lemma_load_fits_extends(tasks@, i as int);
        }
    }
    proof {
        assert(tasks@.take(tasks@.len() as int) =~= tasks@);
    }
    Some((num, den))
}

/// Staying within the word at every step means staying within it at every
/// prefix.
proof fn lemma_fits_prefix(s: Seq<Task>, k: int)
    requires
        0 <= k <= s.len(),
        spec_load_fits(s),
    ensures
        spec_load_fits(s.take(k)),
    decreases s.len() - k,
{
    if k == s.len() {
        assert(s.take(k) =~= s);
    } else {
        lemma_fits_prefix(s, k + 1);
        assert(s.take(k + 1).drop_last() =~= s.take(k));
        assert(s.take(k + 1).len() > 0);
    }
}

/// A fold step that leaves the word refutes the fits predicate for the
/// whole set.
proof fn lemma_not_fits(s: Seq<Task>, i: int)
    requires
        0 <= i < s.len(),
        spec_load_num(s.take(i + 1)) > u64::MAX || spec_load_den(s.take(i + 1)) > u64::MAX,
    ensures
        !spec_load_fits(s),
{
    if spec_load_fits(s) {
        lemma_fits_prefix(s, i + 1);
        assert(s.take(i + 1).len() > 0);
        assert(false);
    }
}

/// A fold step that stays within the word keeps the fits predicate.
proof fn lemma_load_fits_extends(s: Seq<Task>, i: int)
    requires
        0 <= i < s.len(),
        spec_load_fits(s.take(i)),
        spec_load_num(s.take(i + 1)) <= u64::MAX,
        spec_load_den(s.take(i + 1)) <= u64::MAX,
    ensures
        spec_load_fits(s.take(i + 1)),
{
    assert(s.take(i + 1).drop_last() =~= s.take(i));
}

} // verus!
