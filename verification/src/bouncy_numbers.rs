//! Finding the values that take the most steps to reach 1: the maximum of
//! a range, and the sequence of running-maximum record holders ("bouncy"
//! numbers).

use vstd::prelude::*;

verus! {

use crate::model::{converges, lemma_step_count, step_count};
use crate::nonzero::NonZero;

/// The largest step count among the values of `[start, stop)`, or -1 for
/// an empty range.
pub open spec fn max_steps(start: int, stop: int) -> int
    decreases stop - start,
{
    if stop <= start {
        -1
    } else {
        let prev = max_steps(start, stop - 1);
        let s = step_count((stop - 1) as nat) as int;
        if s > prev {
            s
        } else {
            prev
        }
    }
}

/// `v` sets a record in the scan from `start`: its step count strictly
/// exceeds the step count of every value scanned before it.
pub open spec fn is_record(start: int, v: int) -> bool {
    step_count(v as nat) as int > max_steps(start, v)
}

/// The record pairs of the scan of `[start, stop)`: every value that beats
/// all its predecessors, paired with its step count, in scan order.
pub open spec fn record_seq(start: int, stop: int) -> Seq<(int, int)>
    decreases stop - start,
{
    if stop <= start {
        Seq::empty()
    } else {
        let prev = record_seq(start, stop - 1);
        if is_record(start, stop - 1) {
            prev.push((stop - 1, step_count((stop - 1) as nat) as int))
        } else {
            prev
        }
    }
}

/// What the maximum search reports: `v` lies in the range and carries step
/// count `s`, no value of the range beats `s`, and every value before `v`
/// stays strictly below it (ties keep the earliest value).
pub open spec fn max_record(start: int, stop: int, v: int, s: int) -> bool {
    start <= v < stop && s == step_count(v as nat) as int && s == max_steps(start, stop) && (forall|i: int|
        start <= i < v ==> (#[trigger] step_count(i as nat)) < s)
}

/// No step count in `[start, stop)` exceeds the range's maximum.
pub proof fn lemma_max_steps_ge(start: int, stop: int)
    ensures
        forall|i: int|
            start <= i < stop ==> (#[trigger] step_count(i as nat)) <= max_steps(start, stop),
    decreases stop - start,
{
    if start < stop {
        lemma_max_steps_ge(start, stop - 1);
    }
}

/// The record sequence holds exactly record-setting values of the range in
/// scan order, each with its step count, and its last entry attains the
/// range's maximum.
pub proof fn lemma_record_seq_props(start: int, stop: int)
    requires
        start <= stop,
    ensures
        forall|a: int|
            0 <= a < record_seq(start, stop).len() ==> {
                let e = #[trigger] record_seq(start, stop)[a];
                start <= e.0 < stop && e.1 == step_count(e.0 as nat) as int && is_record(
                    start,
                    e.0,
                )
            },
        forall|a: int, b: int|
            0 <= a < b < record_seq(start, stop).len() ==> (#[trigger] record_seq(start, stop)[a]).0
                < (#[trigger] record_seq(start, stop)[b]).0,
        start < stop ==> record_seq(start, stop).len() >= 1,
        start < stop ==> record_seq(start, stop).last().1 == max_steps(start, stop),
    decreases stop - start,
{
    if start < stop {
        lemma_record_seq_props(start, stop - 1);
        let prev = record_seq(start, stop - 1);
        if is_record(start, stop - 1) {
            assert(record_seq(start, stop) == prev.push(
                (stop - 1, step_count((stop - 1) as nat) as int),
            ));
        } else {
            assert(start < stop - 1) by {
                if start == stop - 1 {
                    assert(max_steps(start, stop - 1) == -1);
                }
            }
            assert(record_seq(start, stop) == prev);
            assert(step_count((stop - 1) as nat) as int <= max_steps(start, stop - 1));
        }
    }
}

/// Record monotonicity: within one scan, later record entries carry both
/// larger values and strictly larger step counts.
pub proof fn lemma_records_strictly_increase(start: int, stop: int, a: int, b: int)
    requires
        start <= stop,
        0 <= a < b < record_seq(start, stop).len(),
    ensures
        record_seq(start, stop)[a].0 < record_seq(start, stop)[b].0,
        record_seq(start, stop)[a].1 < record_seq(start, stop)[b].1,
{
    lemma_record_seq_props(start, stop);
    let ea = record_seq(start, stop)[a];
    let eb = record_seq(start, stop)[b];
    lemma_max_steps_ge(start, eb.0);
    assert(step_count(ea.0 as nat) as int <= max_steps(start, eb.0));
}

/// Record/max consistency: the last record entry of a scan is exactly the
/// pair the maximum search reports.
pub proof fn lemma_records_and_max_agree(start: int, stop: int)
    requires
        start < stop,
    ensures
        record_seq(start, stop).len() >= 1,
        max_record(
            start,
            stop,
            record_seq(start, stop).last().0,
            record_seq(start, stop).last().1,
        ),
{
    lemma_record_seq_props(start, stop);
    let le = record_seq(start, stop).last();
    lemma_max_steps_ge(start, le.0);
    assert forall|i: int| start <= i < le.0 implies (#[trigger] step_count(i as nat)) < le.1 by {
        assert(step_count(i as nat) as int <= max_steps(start, le.0));
    }
}

/// Finds the value of `[start, stop)` whose trajectory takes the most
/// steps, with that step count; on an equal count the earliest value is
/// kept. `None` exactly when some value of the range overflows the counter
/// or 64-bit range.
pub fn alpha(start: NonZero, stop: NonZero) -> (r: Option<(u64, u32)>)
    requires
        start@ < stop@,
    ensures
        r is Some <==> (forall|i: int|
            start@ <= i < stop@ ==> #[trigger] converges(i as nat, u32::MAX as nat)),
        r matches Some(p) ==> max_record(start@ as int, stop@ as int, p.0 as int, p.1 as int),
{
    let s = start.get();
    let e = stop.get();
    let first = match crate::steps::omega(start) {
        Some(k) => k,
        None => {
            proof {
                let ii = s as int;
                assert(!converges(ii as nat, u32::MAX as nat));
            }
            return None;
        },
    };
    proof {
        lemma_step_count(s as nat, first as nat);
        let si = s as int;
        assert(step_count(si as nat) == first as nat);
        assert(max_steps(si, si) == -1);
        assert(max_steps(si, si + 1) == step_count(si as nat) as int);
    }
    let mut best_v: u64 = s;
    let mut best_s: u32 = first;
    let mut i: u64 = s + 1;
    while i < e
        invariant
            s == start@,
            e == stop@,
            1 <= s < e,
            s < i <= e,
            s <= best_v < i,
            best_s as int == step_count(best_v as nat) as int,
            best_s as int == max_steps(s as int, i as int),
            forall|j: int| s <= j < i ==> #[trigger] converges(j as nat, u32::MAX as nat),
            forall|j: int| s <= j < best_v ==> (#[trigger] step_count(j as nat)) < best_s,
        decreases e - i,
    {
        let here = match crate::steps::omega(NonZero::new_unchecked(i)) {
            Some(k) => k,
            None => {
                proof {
                    let ii = i as int;
                    assert(!converges(ii as nat, u32::MAX as nat));
                }
                return None;
            },
        };
        proof {
            let ii = i as int;
            lemma_step_count(ii as nat, here as nat);
            assert(converges(ii as nat, u32::MAX as nat));
        }
        proof {
            let si = s as int;
            let ii = i as int;
            lemma_max_steps_ge(si, ii);
            assert(max_steps(si, ii + 1) == if step_count(ii as nat) as int > max_steps(si, ii) {
                step_count(ii as nat) as int
            } else {
                max_steps(si, ii)
            });
        }
        if best_s < here {
            best_v = i;
            best_s = here;
        }
        i = i + 1;
    }
    Some((best_v, best_s))
}

/// The record pairs as mathematical integers.
pub open spec fn view_pairs(v: Seq<(u64, u32)>) -> Seq<(int, int)> {
    v.map_values(|p: (u64, u32)| (p.0 as int, p.1 as int))
}

/// Scans `[start, stop)` and collects every value that sets a new record
/// for step count, paired with its count, in scan order. `None` exactly
/// when some value of the range overflows the counter or 64-bit range.
pub fn calculate_bouncy_sequence(start: NonZero, stop: NonZero) -> (r: Option<Vec<(u64, u32)>>)
    requires
        start@ < stop@,
    ensures
        r is Some <==> (forall|i: int|
            start@ <= i < stop@ ==> #[trigger] converges(i as nat, u32::MAX as nat)),
        r matches Some(v) ==> view_pairs(v@) == record_seq(start@ as int, stop@ as int),
{
    let s = start.get();
    let e = stop.get();
    let mut v: Vec<(u64, u32)> = Vec::new();
    let mut record: Option<u32> = None;
    let mut i: u64 = s;
    while i < e
        invariant
            s == start@,
            e == stop@,
            1 <= s < e,
            s <= i <= e,
            forall|j: int| s <= j < i ==> #[trigger] converges(j as nat, u32::MAX as nat),
            view_pairs(v@) == record_seq(s as int, i as int),
            match record {
                None => i == s && v@.len() == 0,
                Some(b) => i > s && b as int == max_steps(s as int, i as int),
            },
        decreases e - i,
    {
        let here = match crate::steps::omega(NonZero::new_unchecked(i)) {
            Some(k) => k,
            None => {
                proof {
                    let ii = i as int;
                    assert(!converges(ii as nat, u32::MAX as nat));
                }
                return None;
            },
        };
        proof {
            let ii = i as int;
            lemma_step_count(ii as nat, here as nat);
            assert(converges(ii as nat, u32::MAX as nat));
        }
        let ghost old_v = v@;
        let is_new_record = match record {
            None => true,
            Some(b) => here > b,
        };
        if is_new_record {
            v.push((i, here));
            record = Some(here);
            proof {
                assert(is_record(s as int, i as int));
                assert(view_pairs(v@) =~= view_pairs(old_v).push((i as int, here as int)));
            }
        } else {
            proof {
                assert(!is_record(s as int, i as int));
            }
        }
        i = i + 1;
    }
    Some(v)
}

} // verus!
