//! What a group of processes consumed between two samples.
//!
//! Counters accumulate per process, so only the two readings of one and the
//! same process may be subtracted. The two samples are joined on the process
//! identifier; a process seen in only one of them adds nothing.

use crate::counters::{DiffStat, ProcessCounters, ProcessDiffStat, Reading, Totals};
use vstd::prelude::*;

verus! {

/// The readings of a sample, in its order.
pub open spec fn readings(stats: Seq<ProcessCounters>) -> Seq<Reading> {
    stats.map_values(|c: ProcessCounters| c.reading())
}

/// Some reading of `sample` is of process `pid`.
pub open spec fn has_pid(sample: Seq<Reading>, pid: int) -> bool {
    exists|i: int| 0 <= i < sample.len() && (#[trigger] sample[i]).pid == pid
}

/// No process was read twice.
pub open spec fn distinct_pids(sample: Seq<Reading>) -> bool {
    forall|i: int, j: int|
        0 <= i < j < sample.len() ==> (#[trigger] sample[i]).pid != (#[trigger] sample[j]).pid
}

/// The sum of the counters of those readings of `sample` whose process was
/// also read in `other`.
pub open spec fn common_sum(sample: Seq<Reading>, other: Seq<Reading>) -> Totals
    decreases sample.len(),
{
    if sample.len() == 0 {
        Totals::zero()
    } else {
        let rest = common_sum(sample.drop_last(), other);
        if has_pid(other, sample.last().pid) {
            rest.plus(sample.last().totals)
        } else {
            rest
        }
    }
}

/// What the processes present in both samples consumed from `before` to
/// `after`: their sum in `after` less their sum in `before`.
pub open spec fn total_diff(after: Seq<Reading>, before: Seq<Reading>) -> Totals {
    common_sum(after, before).minus(common_sum(before, after))
}

/// Every process of `before` that is also in `after` has, in `after`, counters
/// at least as large in every field.
pub open spec fn never_decreasing(after: Seq<Reading>, before: Seq<Reading>) -> bool {
    forall|i: int, j: int|
        0 <= i < after.len() && 0 <= j < before.len() && (#[trigger] after[i]).pid == (
        #[trigger] before[j]).pid ==> before[j].totals.at_most(after[i].totals)
}

/// The largest value of one counter of one process.
pub open spec fn counter_max() -> int {
    0xFFFF_FFFF_FFFF_FFFF
}

/// The most processes that a sample without repeated identifiers can hold.
pub open spec fn pid_count_max() -> int {
    0x1_0000_0000
}

spec fn views(entries: Seq<ProcessDiffStat>) -> Seq<Reading> {
    entries.map_values(|e: ProcessDiffStat| e@)
}

spec fn ascending(sample: Seq<Reading>) -> bool {
    forall|i: int, j: int|
        0 <= i < j < sample.len() ==> (#[trigger] sample[i]).pid < (#[trigger] sample[j]).pid
}

spec fn plain_counters(sample: Seq<Reading>) -> bool {
    forall|i: int|
        0 <= i < sample.len() ==> {
            &&& (#[trigger] sample[i]).totals.within(0, counter_max())
            &&& i32::MIN <= sample[i].pid <= i32::MAX
        }
}

/// What one reading adds to [`common_sum`].
spec fn share(reading: Reading, other: Seq<Reading>) -> Totals {
    if has_pid(other, reading.pid) {
        reading.totals
    } else {
        Totals::zero()
    }
}

proof fn lemma_common_sum_step(sample: Seq<Reading>, other: Seq<Reading>, i: int)
    requires
        0 <= i < sample.len(),
    ensures
        common_sum(sample.take(i + 1), other) == common_sum(sample.take(i), other).plus(
            share(sample[i], other),
        ),
{
    assert(sample.take(i + 1).drop_last() =~= sample.take(i));
    assert(sample.take(i + 1).last() == sample[i]);
}

proof fn lemma_common_sum_rest(sample: Seq<Reading>, other: Seq<Reading>, i: int)
    requires
        0 <= i <= sample.len(),
        forall|k: int| i <= k < sample.len() ==> !has_pid(other, (#[trigger] sample[k]).pid),
    ensures
        common_sum(sample, other) == common_sum(sample.take(i), other),
    decreases sample.len() - i,
{
    if i == sample.len() {
        assert(sample.take(i) =~= sample);
    } else {
        lemma_common_sum_rest(sample, other, i + 1);
        lemma_common_sum_step(sample, other, i);
        assert(!has_pid(other, sample[i].pid));
    }
}

proof fn lemma_common_sum_remove(sample: Seq<Reading>, other: Seq<Reading>, j: int)
    requires
        0 <= j < sample.len(),
    ensures
        common_sum(sample, other) == common_sum(sample.remove(j), other).plus(
            share(sample[j], other),
        ),
    decreases sample.len(),
{
    if j == sample.len() - 1 {
        assert(sample.remove(j) =~= sample.drop_last());
    } else {
        let shorter = sample.drop_last();
        lemma_common_sum_remove(shorter, other, j);
        assert(sample.remove(j).drop_last() =~= shorter.remove(j));
        assert(sample.remove(j).last() == sample.last());
    }
}

/// [`common_sum`] asks of `other` only which of the sample's processes it holds.
proof fn lemma_common_sum_same_pids(sample: Seq<Reading>, first: Seq<Reading>, second: Seq<Reading>)
    requires
        forall|k: int|
            0 <= k < sample.len() ==> has_pid(first, (#[trigger] sample[k]).pid) == has_pid(
                second,
                sample[k].pid,
            ),
    ensures
        common_sum(sample, first) == common_sum(sample, second),
    decreases sample.len(),
{
    if sample.len() > 0 {
        let shorter = sample.drop_last();
        assert forall|k: int| 0 <= k < shorter.len() implies has_pid(
            first,
            (#[trigger] shorter[k]).pid,
        ) == has_pid(second, shorter[k].pid) by {
            assert(shorter[k] == sample[k]);
        }
        lemma_common_sum_same_pids(shorter, first, second);
        assert(sample.last() == sample[sample.len() - 1]);
    }
}

proof fn lemma_ascending_rank(sample: Seq<Reading>, i: int)
    requires
        ascending(sample),
        plain_counters(sample),
        0 <= i < sample.len(),
    ensures
        sample[i].pid >= i32::MIN + i,
    decreases i,
{
    if i > 0 {
        lemma_ascending_rank(sample, i - 1);
        assert(sample[i - 1].pid < sample[i].pid);
    }
}

proof fn lemma_ascending_len(sample: Seq<Reading>)
    requires
        ascending(sample),
        plain_counters(sample),
    ensures
        sample.len() <= pid_count_max(),
{
    if sample.len() > 0 {
        lemma_ascending_rank(sample, sample.len() - 1);
    }
}

/// Two cursors on two ascending samples: every process that one cursor has
/// passed lies below the process at which the other cursor stands.
spec fn passed(left: Seq<Reading>, i: int, right: Seq<Reading>, j: int) -> bool {
    &&& 0 <= i <= left.len()
    &&& 0 <= j <= right.len()
    &&& i < left.len() ==> forall|k: int| 0 <= k < j ==> (#[trigger] right[k]).pid < left[i].pid
    &&& j < right.len() ==> forall|k: int| 0 <= k < i ==> (#[trigger] left[k]).pid < right[j].pid
}

/// Both cursors stand at the same process: it is in both samples, and both
/// cursors may move on.
proof fn lemma_cursors_met(left: Seq<Reading>, i: int, right: Seq<Reading>, j: int)
    requires
        ascending(left),
        ascending(right),
        passed(left, i, right, j),
        i < left.len(),
        j < right.len(),
        left[i].pid == right[j].pid,
    ensures
        has_pid(right, left[i].pid),
        has_pid(left, right[j].pid),
        passed(left, i + 1, right, j + 1),
{
    assert(right[j].pid == left[i].pid);
    assert(left[i].pid == right[j].pid);
    if i + 1 < left.len() {
        assert(left[i].pid < left[i + 1].pid);
    }
    if j + 1 < right.len() {
        assert(right[j].pid < right[j + 1].pid);
    }
}

/// The left cursor stands at the smaller process: that process is not in the
/// right sample, and the left cursor may move on.
proof fn lemma_cursor_below(left: Seq<Reading>, i: int, right: Seq<Reading>, j: int)
    requires
        ascending(left),
        ascending(right),
        passed(left, i, right, j),
        i < left.len(),
        j < right.len(),
        left[i].pid < right[j].pid,
    ensures
        !has_pid(right, left[i].pid),
        passed(left, i + 1, right, j),
        passed(right, j, left, i + 1),
{
    assert forall|k: int| 0 <= k < right.len() implies (#[trigger] right[k]).pid != left[i].pid by {
        if k > j {
            assert(right[j].pid < right[k].pid);
        }
    }
    if i + 1 < left.len() {
        assert(left[i].pid < left[i + 1].pid);
    }
}

/// Once one cursor is at its end, nothing that the left cursor has not passed
/// is in the right sample.
proof fn lemma_left_over(left: Seq<Reading>, i: int, right: Seq<Reading>, j: int)
    requires
        ascending(left),
        ascending(right),
        passed(left, i, right, j) || passed(right, j, left, i),
        i == left.len() || j == right.len(),
    ensures
        forall|k: int| i <= k < left.len() ==> !has_pid(right, (#[trigger] left[k]).pid),
{
    assert forall|k: int| i <= k < left.len() implies !has_pid(right, (#[trigger] left[k]).pid) by {
        assert forall|m: int| 0 <= m < right.len() implies (#[trigger] right[m]).pid
            != left[k].pid by {
            assert(right[m].pid < left[i].pid);
            if k > i {
                assert(left[i].pid < left[k].pid);
            }
        }
    }
}

proof fn lemma_reordered_has_pid(a: Seq<ProcessDiffStat>, b: Seq<ProcessDiffStat>, pid: int)
    requires
        a.to_multiset() == b.to_multiset(),
        has_pid(views(a), pid),
    ensures
        has_pid(views(b), pid),
{
    let i = choose|i: int| 0 <= i < views(a).len() && (#[trigger] views(a)[i]).pid == pid;
    assert(a.contains(a[i]));
    vstd::seq_lib::to_multiset_contains(a, a[i]);
    vstd::seq_lib::to_multiset_contains(b, a[i]);
    let j = choose|j: int| 0 <= j < b.len() && b[j] == a[i];
    assert(views(b)[j].pid == pid);
}

proof fn lemma_reordered_common_sum(
    a: Seq<ProcessDiffStat>,
    b: Seq<ProcessDiffStat>,
    other: Seq<Reading>,
)
    requires
        a.to_multiset() == b.to_multiset(),
    ensures
        common_sum(views(a), other) == common_sum(views(b), other),
    decreases a.len(),
{
    vstd::seq_lib::to_multiset_len(a);
    vstd::seq_lib::to_multiset_len(b);
    if a.len() > 0 {
        let last = a.last();
        assert(a.contains(last));
        vstd::seq_lib::to_multiset_contains(a, last);
        vstd::seq_lib::to_multiset_contains(b, last);
        let j = choose|j: int| 0 <= j < b.len() && b[j] == last;
        let a_rest = a.drop_last();
        let b_rest = b.remove(j);
        assert(a_rest =~= a.remove(a.len() - 1));
        vstd::seq_lib::to_multiset_remove(a, a.len() - 1);
        vstd::seq_lib::to_multiset_remove(b, j);
        lemma_reordered_common_sum(a_rest, b_rest, other);
        assert(views(a).drop_last() =~= views(a_rest));
        assert(views(b).remove(j) =~= views(b_rest));
        lemma_common_sum_remove(views(b), other, j);
    }
}

proof fn lemma_reordered_distinct(a: Seq<ProcessDiffStat>, b: Seq<ProcessDiffStat>)
    requires
        a.to_multiset() == b.to_multiset(),
        distinct_pids(views(a)),
    ensures
        distinct_pids(views(b)),
{
    assert forall|i: int, j: int| 0 <= i < a.len() && 0 <= j < a.len() && i != j implies a[i]
        != a[j] by {
        if i < j {
            assert(views(a)[i].pid != views(a)[j].pid);
        } else {
            assert(views(a)[j].pid != views(a)[i].pid);
        }
    }
    a.lemma_multiset_has_no_duplicates();
    b.lemma_multiset_has_no_duplicates_conv();
    assert forall|i: int, j: int| 0 <= i < j < views(b).len() implies (#[trigger] views(b)[i]).pid
        != (#[trigger] views(b)[j]).pid by {
        assert(b[i] != b[j]);
        assert(b.contains(b[i]));
        assert(b.contains(b[j]));
        vstd::seq_lib::to_multiset_contains(b, b[i]);
        vstd::seq_lib::to_multiset_contains(a, b[i]);
        vstd::seq_lib::to_multiset_contains(b, b[j]);
        vstd::seq_lib::to_multiset_contains(a, b[j]);
        let p = choose|p: int| 0 <= p < a.len() && a[p] == b[i];
        let q = choose|q: int| 0 <= q < a.len() && a[q] == b[j];
        if p < q {
            assert(views(a)[p].pid != views(a)[q].pid);
        } else {
            assert(views(a)[q].pid != views(a)[p].pid);
        }
    }
}

proof fn lemma_reordered_plain(a: Seq<ProcessDiffStat>, b: Seq<ProcessDiffStat>)
    requires
        a.to_multiset() == b.to_multiset(),
        plain_counters(views(a)),
    ensures
        plain_counters(views(b)),
{
    assert forall|i: int| 0 <= i < views(b).len() implies {
        &&& (#[trigger] views(b)[i]).totals.within(0, counter_max())
        &&& i32::MIN <= views(b)[i].pid <= i32::MAX
    } by {
        assert(b.contains(b[i]));
        vstd::seq_lib::to_multiset_contains(b, b[i]);
        vstd::seq_lib::to_multiset_contains(a, b[i]);
        let p = choose|p: int| 0 <= p < a.len() && a[p] == b[i];
        assert(views(a)[p] == views(b)[i]);
    }
}

proof fn lemma_has_pid_remove(sample: Seq<Reading>, j: int, pid: int)
    requires
        0 <= j < sample.len(),
    ensures
        has_pid(sample, pid) == (has_pid(sample.remove(j), pid) || sample[j].pid == pid),
{
    let shorter = sample.remove(j);
    if has_pid(sample, pid) && sample[j].pid != pid {
        let i = choose|i: int| 0 <= i < sample.len() && (#[trigger] sample[i]).pid == pid;
        if i < j {
            assert(shorter[i].pid == pid);
        } else {
            assert(shorter[i - 1].pid == pid);
        }
    }
    if has_pid(shorter, pid) {
        let i = choose|i: int| 0 <= i < shorter.len() && (#[trigger] shorter[i]).pid == pid;
        if i < j {
            assert(sample[i].pid == pid);
        } else {
            assert(sample[i + 1].pid == pid);
        }
    }
}

proof fn lemma_distinct_remove(sample: Seq<Reading>, j: int)
    requires
        0 <= j < sample.len(),
        distinct_pids(sample),
    ensures
        distinct_pids(sample.remove(j)),
        !has_pid(sample.remove(j), sample[j].pid),
{
    let shorter = sample.remove(j);
    assert forall|a: int, b: int| 0 <= a < b < shorter.len() implies (
    #[trigger] shorter[a]).pid != (#[trigger] shorter[b]).pid by {
        let a_from = if a < j { a } else { a + 1 };
        let b_from = if b < j { b } else { b + 1 };
        assert(sample[a_from].pid != sample[b_from].pid);
    }
    assert forall|a: int| 0 <= a < shorter.len() implies (#[trigger] shorter[a]).pid
        != sample[j].pid by {
        if a < j {
            assert(sample[a].pid != sample[j].pid);
        } else {
            assert(sample[j].pid != sample[a + 1].pid);
        }
    }
}

proof fn lemma_never_decreasing_remove(after: Seq<Reading>, before: Seq<Reading>, i: int, j: int)
    requires
        0 <= i < after.len(),
        0 <= j <= before.len(),
        never_decreasing(after, before),
    ensures
        never_decreasing(after.remove(i), if j < before.len() { before.remove(j) } else { before }),
{
    let fewer_after = after.remove(i);
    let fewer_before = if j < before.len() { before.remove(j) } else { before };
    assert forall|a: int, b: int|
        0 <= a < fewer_after.len() && 0 <= b < fewer_before.len() && (#[trigger] fewer_after[a]).pid
            == (#[trigger] fewer_before[b]).pid implies fewer_before[b].totals.at_most(
        fewer_after[a].totals,
    ) by {
        let a_from = if a < i { a } else { a + 1 };
        let b_from = if b < j { b } else { b + 1 };
        assert(after[a_from].pid == before[b_from].pid);
    }
}

proof fn lemma_growth(after: Seq<Reading>, before: Seq<Reading>)
    requires
        distinct_pids(after),
        distinct_pids(before),
        never_decreasing(after, before),
    ensures
        common_sum(before, after).at_most(common_sum(after, before)),
    decreases after.len(),
{
    if after.len() == 0 {
        lemma_common_sum_rest(before, after, 0);
        assert(before.take(0) =~= Seq::<Reading>::empty());
    } else {
        let last = after.len() - 1;
        let reading = after[last];
        let fewer_after = after.drop_last();
        assert(fewer_after =~= after.remove(last));
        lemma_distinct_remove(after, last);
        if has_pid(before, reading.pid) {
            let j = choose|j: int|
                0 <= j < before.len() && (#[trigger] before[j]).pid == reading.pid;
            let fewer_before = before.remove(j);
            lemma_distinct_remove(before, j);
            lemma_never_decreasing_remove(after, before, last, j);
            lemma_growth(fewer_after, fewer_before);
            // The pair leaves both sums; what stays is summed as before.
            assert forall|k: int| 0 <= k < fewer_after.len() implies has_pid(
                before,
                (#[trigger] fewer_after[k]).pid,
            ) == has_pid(fewer_before, fewer_after[k].pid) by {
                lemma_has_pid_remove(before, j, fewer_after[k].pid);
            }
            lemma_common_sum_same_pids(fewer_after, before, fewer_before);
            lemma_common_sum_remove(before, after, j);
            assert(has_pid(after, before[j].pid)) by {
                assert(after[last].pid == before[j].pid);
            }
            assert forall|k: int| 0 <= k < fewer_before.len() implies has_pid(
                after,
                (#[trigger] fewer_before[k]).pid,
            ) == has_pid(fewer_after, fewer_before[k].pid) by {
                lemma_has_pid_remove(after, last, fewer_before[k].pid);
            }
            lemma_common_sum_same_pids(fewer_before, after, fewer_after);
            assert(before[j].totals.at_most(after[last].totals));
        } else {
            lemma_never_decreasing_remove(after, before, last, before.len() as int);
            lemma_growth(fewer_after, before);
            assert forall|k: int| 0 <= k < before.len() implies has_pid(
                after,
                (#[trigger] before[k]).pid,
            ) == has_pid(fewer_after, before[k].pid) by {
                lemma_has_pid_remove(after, last, before[k].pid);
            }
            lemma_common_sum_same_pids(before, after, fewer_after);
        }
    }
}

/// A sample compared with itself shows no consumption: the difference is zero
/// in every field.
pub proof fn lemma_same_sample_gives_zero(sample: Seq<Reading>)
    ensures
        total_diff(sample, sample) == Totals::zero(),
{
}

/// Where no process is in both samples, the difference is zero in every field.
pub proof fn lemma_nothing_in_common_gives_zero(after: Seq<Reading>, before: Seq<Reading>)
    requires
        forall|i: int| 0 <= i < after.len() ==> !has_pid(before, (#[trigger] after[i]).pid),
    ensures
        total_diff(after, before) == Totals::zero(),
{
    lemma_common_sum_rest(after, before, 0);
    assert(after.take(0) =~= Seq::<Reading>::empty());
    assert forall|j: int| 0 <= j < before.len() implies !has_pid(
        after,
        (#[trigger] before[j]).pid,
    ) by {
        if has_pid(after, before[j].pid) {
            let i = choose|i: int|
                0 <= i < after.len() && (#[trigger] after[i]).pid == before[j].pid;
            assert(has_pid(before, after[i].pid));
        }
    }
    lemma_common_sum_rest(before, after, 0);
    assert(before.take(0) =~= Seq::<Reading>::empty());
}

/// Where no counter of any process went down between the two samples, no field
/// of the difference is negative.
pub proof fn lemma_growth_gives_non_negative(after: Seq<Reading>, before: Seq<Reading>)
    requires
        distinct_pids(after),
        distinct_pids(before),
        never_decreasing(after, before),
    ensures
        total_diff(after, before).non_negative(),
{
    lemma_growth(after, before);
}

/// Sorts the entries by process identifier with `sort_unstable_by_key` of
/// slices. Believed of it: the entries afterwards are those from before, each
/// as often as before, and their identifiers never descend.
#[verifier::external_body]
fn sort_by_pid(entries: &mut Vec<ProcessDiffStat>)
    ensures
        final(entries)@.to_multiset() == old(entries)@.to_multiset(),
        forall|i: int, j: int|
            0 <= i < j < final(entries)@.len() ==> final(entries)@[i].pid <= final(entries)@[j].pid,
{
    entries.sort_unstable_by_key(|entry| entry.pid);
}

/// The identifier and counters of each process of a sample, in its order.
fn detach(stats: &[ProcessCounters]) -> (entries: Vec<ProcessDiffStat>)
    ensures
        views(entries@) == readings(stats@),
        plain_counters(views(entries@)),
{
    let mut entries: Vec<ProcessDiffStat> = Vec::new();
    let mut i: usize = 0;
    while i < stats.len()
        invariant
            i <= stats.len(),
            entries@.len() == i,
            forall|k: int| 0 <= k < i ==> (#[trigger] entries@[k])@ == stats@[k].reading(),
        decreases stats.len() - i,
    {
        entries.push(ProcessDiffStat::new_from(&stats[i]));
        i += 1;
    }
    assert(views(entries@) =~= readings(stats@));
    assert forall|k: int| 0 <= k < views(entries@).len() implies {
        &&& (#[trigger] views(entries@)[k]).totals.within(0, counter_max())
        &&& i32::MIN <= views(entries@)[k].pid <= i32::MAX
    } by {
        assert(entries@[k]@ == stats@[k].reading());
    }
    entries
}

/// A sample's entries in ascending order of process identifier.
fn sorted_entries(stats: &[ProcessCounters]) -> (entries: Vec<ProcessDiffStat>)
    requires
        distinct_pids(readings(stats@)),
    ensures
        ascending(views(entries@)),
        plain_counters(views(entries@)),
        entries@.len() <= pid_count_max(),
        forall|other: Seq<Reading>|
            common_sum(views(entries@), other) == #[trigger] common_sum(readings(stats@), other),
        forall|pid: int| has_pid(views(entries@), pid) == #[trigger] has_pid(readings(stats@), pid),
{
    let mut entries = detach(stats);
    let ghost unsorted = entries@;
    sort_by_pid(&mut entries);
    proof {
        let sorted = entries@;
        lemma_reordered_distinct(unsorted, sorted);
        lemma_reordered_plain(unsorted, sorted);
        assert forall|i: int, j: int| 0 <= i < j < views(sorted).len() implies (
        #[trigger] views(sorted)[i]).pid < (#[trigger] views(sorted)[j]).pid by {
            assert(sorted[i].pid <= sorted[j].pid);
        }
        lemma_ascending_len(views(sorted));
        assert forall|other: Seq<Reading>|
            common_sum(views(sorted), other) == #[trigger] common_sum(
                readings(stats@),
                other,
            ) by {
            lemma_reordered_common_sum(unsorted, sorted, other);
        }
        assert forall|pid: int| has_pid(views(sorted), pid) == #[trigger] has_pid(
            readings(stats@),
            pid,
        ) by {
            if has_pid(views(sorted), pid) {
                lemma_reordered_has_pid(sorted, unsorted, pid);
            }
            if has_pid(views(unsorted), pid) {
                lemma_reordered_has_pid(unsorted, sorted, pid);
            }
        }
    }
    entries
}

/// Whether no process was read twice in `stats`: what
/// [`calc_total_diff_using_sort`] asks of each of its samples.
pub fn has_distinct_pids(stats: &[ProcessCounters]) -> (distinct: bool)
    ensures
        distinct == distinct_pids(readings(stats@)),
{
    let mut entries = detach(stats);
    let ghost unsorted = entries@;
    sort_by_pid(&mut entries);
    let mut i: usize = 1;
    while i < entries.len()
        invariant
            1 <= i,
            entries@.to_multiset() == unsorted.to_multiset(),
            views(unsorted) == readings(stats@),
            forall|a: int, b: int|
                0 <= a < b < entries@.len() ==> entries@[a].pid <= entries@[b].pid,
            forall|a: int, b: int|
                0 <= a < b < i && b < entries@.len() ==> entries@[a].pid < entries@[b].pid,
        decreases entries.len() - i,
    {
        if entries[i - 1].pid == entries[i].pid {
            proof {
                if distinct_pids(views(unsorted)) {
                    lemma_reordered_distinct(unsorted, entries@);
                    assert(views(entries@)[i - 1].pid != views(entries@)[i as int].pid);
                }
            }
            return false;
        }
        proof {
            assert forall|a: int, b: int|
                0 <= a < b < i + 1 && b < entries@.len() implies entries@[a].pid
                < entries@[b].pid by {
                if b == i && a < i - 1 {
                    assert(entries@[a].pid <= entries@[i - 1].pid);
                }
            }
        }
        i += 1;
    }
    proof {
        assert forall|a: int, b: int| 0 <= a < b < views(entries@).len() implies (
        #[trigger] views(entries@)[a]).pid != (#[trigger] views(entries@)[b]).pid by {
            assert(entries@[a].pid < entries@[b].pid);
        }
        lemma_reordered_distinct(entries@, unsorted);
    }
    true
}

/// What the processes read in both `stats` and `old_stats` consumed between
/// the two samples.
///
/// Both samples are sorted by process identifier and walked together. Where
/// the two cursors meet on one process, its counters enter the two running
/// sums; otherwise the cursor at the smaller identifier moves on, and that
/// process, read only once, is left out. The answer is the difference of the
/// two sums, and zero in every field where no process is in both samples.
///
/// Within one sample every process is read once: an identifier names one
/// process at the instant of sampling.
pub fn calc_total_diff_using_sort(
    stats: &[ProcessCounters],
    old_stats: &[ProcessCounters],
) -> (diff: DiffStat)
    requires
        distinct_pids(readings(stats@)),
        distinct_pids(readings(old_stats@)),
    ensures
        diff@ == total_diff(readings(stats@), readings(old_stats@)),
{
    let ghost after = readings(stats@);
    let ghost before = readings(old_stats@);
    let stats = sorted_entries(stats);
    let old_stats = sorted_entries(old_stats);
    let ghost new_side = views(stats@);
    let ghost old_side = views(old_stats@);
    let mut idx_s: usize = 0;
    let mut idx_o: usize = 0;
    let mut stats_sum = DiffStat::new();
    let mut old_stats_sum = DiffStat::new();
    proof {
        assert(new_side.take(0) =~= Seq::<Reading>::empty());
        assert(old_side.take(0) =~= Seq::<Reading>::empty());
    }
    while idx_s < stats.len() && idx_o < old_stats.len()
        invariant
            new_side == views(stats@),
            old_side == views(old_stats@),
            ascending(new_side),
            ascending(old_side),
            plain_counters(new_side),
            plain_counters(old_side),
            new_side.len() <= pid_count_max(),
            old_side.len() <= pid_count_max(),
            passed(new_side, idx_s as int, old_side, idx_o as int),
            stats_sum@ == common_sum(new_side.take(idx_s as int), old_side),
            old_stats_sum@ == common_sum(old_side.take(idx_o as int), new_side),
            stats_sum@.within(0, idx_s * counter_max()),
            old_stats_sum@.within(0, idx_o * counter_max()),
        decreases (stats.len() - idx_s) + (old_stats.len() - idx_o),
    {
        proof {
            lemma_common_sum_step(new_side, old_side, idx_s as int);
            lemma_common_sum_step(old_side, new_side, idx_o as int);
            assert(new_side[idx_s as int] == stats@[idx_s as int]@);
            assert(old_side[idx_o as int] == old_stats@[idx_o as int]@);
        }
        if stats[idx_s].pid == old_stats[idx_o].pid {
            proof {
                lemma_cursors_met(new_side, idx_s as int, old_side, idx_o as int);
            }
            stats_sum = stats_sum.add(stats[idx_s].stat);
            old_stats_sum = old_stats_sum.add(old_stats[idx_o].stat);
            idx_s += 1;
            idx_o += 1
        } else if stats[idx_s].pid < old_stats[idx_o].pid {
            proof {
                lemma_cursor_below(new_side, idx_s as int, old_side, idx_o as int);
            }
            idx_s += 1
        } else {
            proof {
                lemma_cursor_below(old_side, idx_o as int, new_side, idx_s as int);
            }
            idx_o += 1
        }
    }
    proof {
        lemma_left_over(new_side, idx_s as int, old_side, idx_o as int);
        lemma_left_over(old_side, idx_o as int, new_side, idx_s as int);
        lemma_common_sum_rest(new_side, old_side, idx_s as int);
        lemma_common_sum_rest(old_side, new_side, idx_o as int);
        // Sorting changed neither which processes a sample holds nor what they sum to.
        assert(common_sum(new_side, old_side) == common_sum(after, old_side));
        assert(common_sum(old_side, new_side) == common_sum(before, new_side));
        assert forall|k: int| 0 <= k < after.len() implies has_pid(
            old_side,
            (#[trigger] after[k]).pid,
        ) == has_pid(before, after[k].pid) by {}
        assert forall|k: int| 0 <= k < before.len() implies has_pid(
            new_side,
            (#[trigger] before[k]).pid,
        ) == has_pid(after, before[k].pid) by {}
        lemma_common_sum_same_pids(after, old_side, before);
        lemma_common_sum_same_pids(before, new_side, after);
    }
    stats_sum.sub(old_stats_sum)
}

/// As [`calc_total_diff_using_sort`], for samples of which nothing is known:
/// `None` where one of them holds a process twice.
pub fn checked_total_diff(
    stats: &[ProcessCounters],
    old_stats: &[ProcessCounters],
) -> (diff: Option<DiffStat>)
    ensures
        diff is Some == (distinct_pids(readings(stats@)) && distinct_pids(readings(old_stats@))),
        diff matches Some(found) ==> found@ == total_diff(readings(stats@), readings(old_stats@)),
{
    if has_distinct_pids(stats) && has_distinct_pids(old_stats) {
        Some(calc_total_diff_using_sort(stats, old_stats))
    } else {
        None
    }
}

} // verus!
