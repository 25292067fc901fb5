//! One run of the probe: sample, wait, sample again, report the difference.
//!
//! The run is a small machine. It is told what happened (the process table was
//! listed and read, listing it failed, the wait is over) and answers with what
//! to do next. Whoever drives it reads the process table and sleeps.

use crate::counters::ProcessCounters;
use crate::delta::{distinct_pids, readings};
use crate::matcher::{slice_texts, texts};
use crate::record::{diff_snapshots, is_record_of, DiffRecord};
use crate::snapshot::{grouped, present, retrieve_process_stats, CollectError, GroupSnapshot};
use vstd::prelude::*;

verus! {

/// Whether `c` is one of the ten decimal digits.
pub open spec fn is_digit(c: char) -> bool {
    '0' <= c <= '9'
}

/// The number that a string of decimal digits writes.
pub open spec fn decimal_value(digits: Seq<char>) -> int
    decreases digits.len(),
{
    if digits.len() == 0 {
        0
    } else {
        decimal_value(digits.drop_last()) * 10 + (digits.last() as int - '0' as int)
    }
}

/// The digits of a name of the process table: the name without its sign, if it
/// starts with one.
pub open spec fn digits_of(name: Seq<char>) -> Seq<char> {
    if name.len() > 0 && (name[0] == '-' || name[0] == '+') {
        name.skip(1)
    } else {
        name
    }
}

/// The number that a name of the process table writes, if it writes one: an
/// optional sign and then decimal digits, at least one and nothing else. The
/// number has to be one that a process identifier can be.
pub open spec fn parsed_pid(name: Seq<char>) -> Option<i32> {
    let digits = digits_of(name);
    let value = if name.len() > 0 && name[0] == '-' {
        -decimal_value(digits)
    } else {
        decimal_value(digits)
    };
    if digits.len() > 0 && (forall|i: int| 0 <= i < digits.len() ==> is_digit(#[trigger] digits[i]))
        && i32::MIN <= value <= i32::MAX {
        Some(value as i32)
    } else {
        None
    }
}

proof fn lemma_decimal_value_not_negative(digits: Seq<char>)
    requires
        forall|i: int| 0 <= i < digits.len() ==> is_digit(#[trigger] digits[i]),
    ensures
        0 <= decimal_value(digits),
    decreases digits.len(),
{
    if digits.len() > 0 {
        let fewer = digits.drop_last();
        assert forall|i: int| 0 <= i < fewer.len() implies is_digit(#[trigger] fewer[i]) by {
            assert(fewer[i] == digits[i]);
        }
        lemma_decimal_value_not_negative(fewer);
        assert(is_digit(digits[digits.len() - 1]));
    }
}

proof fn lemma_decimal_value_grows(digits: Seq<char>, k: int)
    requires
        0 <= k <= digits.len(),
        forall|i: int| 0 <= i < digits.len() ==> is_digit(#[trigger] digits[i]),
    ensures
        decimal_value(digits.take(k)) <= decimal_value(digits),
    decreases digits.len() - k,
{
    if k == digits.len() {
        assert(digits.take(k) =~= digits);
    } else {
        lemma_decimal_value_grows(digits, k + 1);
        assert(digits.take(k + 1).drop_last() =~= digits.take(k));
        assert(digits.take(k + 1).last() == digits[k]);
        assert(is_digit(digits[k]));
        assert forall|i: int| 0 <= i < digits.take(k).len() implies is_digit(
            #[trigger] digits.take(k)[i],
        ) by {
            assert(digits.take(k)[i] == digits[i]);
        }
        lemma_decimal_value_not_negative(digits.take(k));
    }
}

/// The process identifier that a name of the process table stands for, if it
/// stands for one. Names that are no number belong to other entries of the
/// table and give `None`.
pub fn pid_of_entry(name: &str) -> (pid: Option<i32>)
    ensures
        pid == parsed_pid(name@),
{
    let len = name.unicode_len();
    if len == 0 {
        return None;
    }
    let first = name.get_char(0);
    let negative = first == '-';
    let start: usize = if first == '-' || first == '+' {
        1
    } else {
        0
    };
    if start == len {
        return None;
    }
    let ghost digits = digits_of(name@);
    assert(digits =~= name@.skip(start as int));
    let mut value: i64 = 0;
    let mut i: usize = start;
    while i < len
        invariant
            start <= i <= len,
            len == name@.len(),
            digits == digits_of(name@),
            digits == name@.skip(start as int),
            forall|k: int| 0 <= k < i - start ==> is_digit(#[trigger] digits[k]),
            value == decimal_value(digits.take(i - start)),
            0 <= value <= 0x8000_0000,
        decreases len - i,
    {
        let c = name.get_char(i);
        assert(c == digits[i - start]);
        if !('0' <= c && c <= '9') {
            assert(!is_digit(digits[i - start]));
            return None;
        }
        let digit = (c as u32 - '0' as u32) as i64;
        proof {
            assert(digits.take(i - start + 1).drop_last() =~= digits.take(i - start));
            assert(digits.take(i - start + 1).last() == c);
        }
        value = value * 10 + digit;
        if value > 0x8000_0000 {
            proof {
                if forall|k: int| 0 <= k < digits.len() ==> is_digit(#[trigger] digits[k]) {
                    lemma_decimal_value_grows(digits, i - start + 1);
                }
            }
            return None;
        }
        i += 1;
    }
    proof {
        assert(digits.take(len - start) =~= digits);
    }
    if negative {
        Some((-value) as i32)
    } else if value <= 0x7FFF_FFFF {
        Some(value as i32)
    } else {
        None
    }
}

/// Where a run stands.
#[derive(Debug, Clone, Copy, PartialEq, Eq, Structural)]
pub enum Phase {
    /// Nothing was sampled yet.
    First,
    /// The first sample is taken and the wait is on.
    Waiting,
    /// The wait is over and the second sample is due.
    Second,
    /// The run is over.
    Done,
}

/// What happened outside.
pub enum Event {
    /// The process table was listed: for each process of the list its reading,
    /// or nothing where the process was gone by then or may not be read.
    Enumerated(Vec<Option<ProcessCounters>>),
    /// The process table could not be listed at all.
    EnumerationFailed,
    /// The wait is over.
    Slept,
}

/// Why a run ended without a record.
#[derive(Debug, Clone, Copy, PartialEq, Eq, Structural)]
pub enum ProbeError {
    /// There was no sample: the process table could not be listed, or the
    /// readings were none.
    Collect(CollectError),
    /// Something was reported that the run was not waiting for.
    OutOfTurn,
}

/// What to do next.
pub enum Action {
    /// Read the process table and report it.
    Enumerate,
    /// Wait for so many seconds and report back.
    Sleep(u64),
    /// The run succeeded: put out the record.
    Emit(DiffRecord),
    /// The run failed: put out nothing.
    Abort(ProbeError),
}

impl Action {
    /// The status with which the program ends on this action, if it ends on it.
    pub open spec fn spec_exit_code(&self) -> Option<i32> {
        match self {
            Action::Emit(_) => Some(0i32),
            Action::Abort(_) => Some(1i32),
            _ => None,
        }
    }

    /// The status with which the program ends on this action, if it ends on it:
    /// zero with a record, and one without.
    pub fn exit_code(&self) -> (code: Option<i32>)
        ensures
            code == self.spec_exit_code(),
    {
        match self {
            Action::Emit(_) => Some(0),
            Action::Abort(_) => Some(1),
            _ => None,
        }
    }
}

/// The string slices of some strings.
fn as_slices(names: &Vec<String>) -> (slices: Vec<&str>)
    ensures
        slice_texts(slices@) == texts(names@),
{
    let mut slices: Vec<&str> = Vec::new();
    let mut i: usize = 0;
    while i < names.len()
        invariant
            i <= names.len(),
            slices@.len() == i,
            forall|k: int| 0 <= k < i ==> (#[trigger] slices@[k])@ == names@[k]@,
        decreases names.len() - i,
    {
        slices.push(names[i].as_str());
        i += 1;
    }
    assert(slice_texts(slices@) =~= texts(names@));
    slices
}

/// One run of the probe.
pub struct Sampler {
    target_names: Vec<String>,
    wait_seconds: u64,
    phase: Phase,
    first: Option<GroupSnapshot>,
}

impl Sampler {
    /// The target names of the run.
    pub closed spec fn target_names(&self) -> Seq<Seq<char>> {
        texts(self.target_names@)
    }

    /// The seconds to wait between the two samples.
    pub closed spec fn wait_seconds(&self) -> u64 {
        self.wait_seconds
    }

    /// Where the run stands.
    pub closed spec fn phase(&self) -> Phase {
        self.phase
    }

    /// The first sample, once it is taken.
    pub closed spec fn first(&self) -> Option<GroupSnapshot> {
        self.first
    }

    /// After the first sample is taken and until the run is over, the first
    /// sample is kept.
    #[verifier::type_invariant]
    spec fn keeps_first_sample(&self) -> bool {
        (self.phase == Phase::Waiting || self.phase == Phase::Second) ==> self.first is Some
    }

    /// A run for these target names that waits so many seconds between its two
    /// samples. Its first action is to read the process table.
    pub fn new(target_names: Vec<String>, wait_seconds: u64) -> (start: (Sampler, Action))
        ensures
            start.0.phase() == Phase::First,
            start.0.target_names() == texts(target_names@),
            start.0.wait_seconds() == wait_seconds,
            start.1 is Enumerate,
    {
        let sampler = Sampler { target_names, wait_seconds, phase: Phase::First, first: None };
        (sampler, Action::Enumerate)
    }

    /// Where the run stands.
    pub fn current_phase(&self) -> (phase: Phase)
        ensures
            phase == self.phase(),
    {
        self.phase
    }

    /// What the run does when `event` is reported.
    ///
    /// The first listing of the process table gives the first sample, and the
    /// wait begins. When the wait is over, the table is to be listed again.
    /// The second listing gives the second sample, and the record of the two
    /// is put out. A process table that cannot be listed ends the run without
    /// a record, at any time, and so do readings in which one process comes
    /// twice. An event that the run was not waiting for ends it too. Once
    /// over, a run stays over and puts out nothing.
    ///
    /// Sampling is [`retrieve_process_stats`], and [`Sampler::advance`] is
    /// what the run does with its outcome.
    pub fn step(&mut self, event: Event) -> (action: Action)
        ensures
            final(self).target_names() == old(self).target_names(),
            final(self).wait_seconds() == old(self).wait_seconds(),
            final(self).phase() == match action {
                Action::Enumerate => Phase::Second,
                Action::Sleep(_) => Phase::Waiting,
                _ => Phase::Done,
            },
            event is EnumerationFailed ==> action is Abort,
            action is Emit ==> old(self).phase() == Phase::Second && event is Enumerated,
            old(self).phase() == Phase::Done ==> action == Action::Abort(ProbeError::OutOfTurn),
            old(self).phase() == Phase::First ==> match event {
                Event::Enumerated(entries) => if distinct_pids(readings(present(entries@))) {
                    &&& action == Action::Sleep(old(self).wait_seconds())
                    &&& final(self).first() matches Some(first)
                    &&& first.wf()
                    &&& first@ == grouped(present(entries@), old(self).target_names())
                } else {
                    action == Action::Abort(ProbeError::Collect(CollectError::RepeatedPid))
                },
                Event::EnumerationFailed => action == Action::Abort(
                    ProbeError::Collect(CollectError::EnumerationFailed),
                ),
                Event::Slept => action == Action::Abort(ProbeError::OutOfTurn),
            },
            old(self).phase() == Phase::Waiting ==> match event {
                Event::Slept => {
                    &&& action == Action::Enumerate
                    &&& final(self).first() == old(self).first()
                },
                Event::EnumerationFailed => action == Action::Abort(
                    ProbeError::Collect(CollectError::EnumerationFailed),
                ),
                Event::Enumerated(_) => action == Action::Abort(ProbeError::OutOfTurn),
            },
            old(self).phase() == Phase::Second ==> match event {
                Event::Enumerated(entries) => if distinct_pids(readings(present(entries@))) {
                    &&& action matches Action::Emit(record)
                    &&& is_record_of(
                        record@,
                        grouped(present(entries@), old(self).target_names()),
                        old(self).first()->Some_0@,
                    )
                } else {
                    action == Action::Abort(ProbeError::Collect(CollectError::RepeatedPid))
                },
                Event::EnumerationFailed => action == Action::Abort(
                    ProbeError::Collect(CollectError::EnumerationFailed),
                ),
                Event::Slept => action == Action::Abort(ProbeError::OutOfTurn),
            },
    {
        proof {
            use_type_invariant(&*self);
        }
        let listing = match event {
            Event::Slept => {
                if self.phase == Phase::Waiting {
                    self.phase = Phase::Second;
                    return Action::Enumerate;
                }
                self.phase = Phase::Done;
                return Action::Abort(ProbeError::OutOfTurn);
            },
            Event::Enumerated(entries) => Some(entries),
            Event::EnumerationFailed => None,
        };
        if self.phase == Phase::First || self.phase == Phase::Second {
            let names = as_slices(&self.target_names);
            let collected = retrieve_process_stats(names.as_slice(), listing);
            self.advance(collected)
        } else if self.phase == Phase::Waiting && listing.is_none() {
            self.phase = Phase::Done;
            Action::Abort(ProbeError::Collect(CollectError::EnumerationFailed))
        } else {
            self.phase = Phase::Done;
            Action::Abort(ProbeError::OutOfTurn)
        }
    }

    /// What the run does with the outcome of sampling, once the process table
    /// was read.
    ///
    /// The first sample is kept and the wait begins. The second sample is
    /// compared with the first, and the record of the two is put out; the run
    /// is then over. Where there is no sample, the run ends with the reason
    /// why. A run that was not waiting for a sample ends as out of turn,
    /// whatever the outcome of sampling was.
    pub fn advance(&mut self, collected: Result<GroupSnapshot, CollectError>) -> (action: Action)
        ensures
            final(self).target_names() == old(self).target_names(),
            final(self).wait_seconds() == old(self).wait_seconds(),
            match collected {
                Err(error) => {
                    &&& final(self).phase() == Phase::Done
                    &&& action == Action::Abort(
                        if old(self).phase() == Phase::First || old(self).phase() == Phase::Second {
                            ProbeError::Collect(error)
                        } else {
                            ProbeError::OutOfTurn
                        },
                    )
                },
                Ok(snapshot) => match old(self).phase() {
                    Phase::First => {
                        &&& action == Action::Sleep(old(self).wait_seconds())
                        &&& final(self).phase() == Phase::Waiting
                        &&& final(self).first() == Some(snapshot)
                    },
                    Phase::Second => {
                        &&& final(self).phase() == Phase::Done
                        &&& action matches Action::Emit(record)
                        &&& is_record_of(record@, snapshot@, old(self).first()->Some_0@)
                    },
                    _ => {
                        &&& final(self).phase() == Phase::Done
                        &&& action == Action::Abort(ProbeError::OutOfTurn)
                    },
                },
            },
    {
        proof {
            use_type_invariant(&*self);
        }
        let phase = self.phase;
        self.phase = Phase::Done;
        match collected {
            Err(error) => match phase {
                Phase::First | Phase::Second => Action::Abort(ProbeError::Collect(error)),
                _ => Action::Abort(ProbeError::OutOfTurn),
            },
            Ok(snapshot) => match phase {
                Phase::First => {
                    self.first = Some(snapshot);
                    self.phase = Phase::Waiting;
                    Action::Sleep(self.wait_seconds)
                },
                Phase::Second => match &self.first {
                    Some(old_snapshot) => Action::Emit(diff_snapshots(&snapshot, old_snapshot)),
                    None => Action::Abort(ProbeError::OutOfTurn),
                },
                _ => Action::Abort(ProbeError::OutOfTurn),
            },
        }
    }
}

} // verus!
