//! The accounting fields of one process, and sums and differences of them.

use vstd::prelude::*;

verus! {

/// The eight accounting fields as mathematical integers: what a sum or a
/// difference of counters is, before any machine width is chosen.
pub struct Totals {
    pub utime: int,
    pub stime: int,
    pub cutime: int,
    pub cstime: int,
    pub minflt: int,
    pub cminflt: int,
    pub majflt: int,
    pub cmajflt: int,
}

impl Totals {
    /// All fields zero.
    pub open spec fn zero() -> Totals {
        Totals {
            utime: 0,
            stime: 0,
            cutime: 0,
            cstime: 0,
            minflt: 0,
            cminflt: 0,
            majflt: 0,
            cmajflt: 0,
        }
    }

    /// Field-wise sum.
    pub open spec fn plus(self, other: Totals) -> Totals {
        Totals {
            utime: self.utime + other.utime,
            stime: self.stime + other.stime,
            cutime: self.cutime + other.cutime,
            cstime: self.cstime + other.cstime,
            minflt: self.minflt + other.minflt,
            cminflt: self.cminflt + other.cminflt,
            majflt: self.majflt + other.majflt,
            cmajflt: self.cmajflt + other.cmajflt,
        }
    }

    /// Field-wise difference.
    pub open spec fn minus(self, other: Totals) -> Totals {
        Totals {
            utime: self.utime - other.utime,
            stime: self.stime - other.stime,
            cutime: self.cutime - other.cutime,
            cstime: self.cstime - other.cstime,
            minflt: self.minflt - other.minflt,
            cminflt: self.cminflt - other.cminflt,
            majflt: self.majflt - other.majflt,
            cmajflt: self.cmajflt - other.cmajflt,
        }
    }

    /// Every field lies in `lo ..= hi`.
    pub open spec fn within(self, lo: int, hi: int) -> bool {
        &&& lo <= self.utime <= hi
        &&& lo <= self.stime <= hi
        &&& lo <= self.cutime <= hi
        &&& lo <= self.cstime <= hi
        &&& lo <= self.minflt <= hi
        &&& lo <= self.cminflt <= hi
        &&& lo <= self.majflt <= hi
        &&& lo <= self.cmajflt <= hi
    }

    /// Every field of `self` is at most the same field of `other`.
    pub open spec fn at_most(self, other: Totals) -> bool {
        &&& self.utime <= other.utime
        &&& self.stime <= other.stime
        &&& self.cutime <= other.cutime
        &&& self.cstime <= other.cstime
        &&& self.minflt <= other.minflt
        &&& self.cminflt <= other.cminflt
        &&& self.majflt <= other.majflt
        &&& self.cmajflt <= other.cmajflt
    }

    /// No field is negative.
    pub open spec fn non_negative(self) -> bool {
        Totals::zero().at_most(self)
    }

    /// Every field can be held by a field of [`DiffStat`].
    pub open spec fn fits(self) -> bool {
        self.within(i128::MIN as int, i128::MAX as int)
    }
}

/// One process as seen at one instant: its identifier, its command name and
/// its eight accumulated counters.
#[derive(Debug, Clone, PartialEq, Eq)]
pub struct ProcessCounters {
    pub pid: i32,
    pub command: String,
    pub utime: u64,
    pub stime: u64,
    pub cutime: u64,
    pub cstime: u64,
    pub minflt: u64,
    pub cminflt: u64,
    pub majflt: u64,
    pub cmajflt: u64,
}

/// A process identifier with the counters read for it: what the comparison of
/// two samples looks at.
pub struct Reading {
    pub pid: int,
    pub totals: Totals,
}

impl ProcessCounters {
    /// A reading from the fields as the process table gives them. The four CPU
    /// times come as signed numbers of clock ticks; with a negative one among
    /// them the fields are no reading.
    pub fn from_fields(
        pid: i32,
        command: String,
        utime: i64,
        stime: i64,
        cutime: i64,
        cstime: i64,
        minflt: u64,
        cminflt: u64,
        majflt: u64,
        cmajflt: u64,
    ) -> (reading: Option<ProcessCounters>)
        ensures
            reading is Some == (utime >= 0 && stime >= 0 && cutime >= 0 && cstime >= 0),
            reading matches Some(counters) ==> {
                &&& counters.pid == pid
                &&& counters.command == command
                &&& counters.utime == utime
                &&& counters.stime == stime
                &&& counters.cutime == cutime
                &&& counters.cstime == cstime
                &&& counters.minflt == minflt
                &&& counters.cminflt == cminflt
                &&& counters.majflt == majflt
                &&& counters.cmajflt == cmajflt
            },
    {
        if utime < 0 || stime < 0 || cutime < 0 || cstime < 0 {
            return None;
        }
        Some(
            ProcessCounters {
                pid,
                command,
                utime: utime as u64,
                stime: stime as u64,
                cutime: cutime as u64,
                cstime: cstime as u64,
                minflt,
                cminflt,
                majflt,
                cmajflt,
            },
        )
    }

    /// The eight counters of this process.
    pub open spec fn totals(&self) -> Totals {
        Totals {
            utime: self.utime as int,
            stime: self.stime as int,
            cutime: self.cutime as int,
            cstime: self.cstime as int,
            minflt: self.minflt as int,
            cminflt: self.cminflt as int,
            majflt: self.majflt as int,
            cmajflt: self.cmajflt as int,
        }
    }

    /// The identifier of this process with its counters.
    pub open spec fn reading(&self) -> Reading {
        Reading { pid: self.pid as int, totals: self.totals() }
    }
}

/// A sum or a difference of counters. A difference may be negative.
#[derive(Debug, Clone, Copy, PartialEq, Eq, Structural)]
pub struct DiffStat {
    pub utime: i128,
    pub stime: i128,
    pub cutime: i128,
    pub cstime: i128,
    pub minflt: i128,
    pub cminflt: i128,
    pub majflt: i128,
    pub cmajflt: i128,
}

impl View for DiffStat {
    type V = Totals;

    open spec fn view(&self) -> Totals {
        Totals {
            utime: self.utime as int,
            stime: self.stime as int,
            cutime: self.cutime as int,
            cstime: self.cstime as int,
            minflt: self.minflt as int,
            cminflt: self.cminflt as int,
            majflt: self.majflt as int,
            cmajflt: self.cmajflt as int,
        }
    }
}

impl DiffStat {
    /// The sum of no counters at all.
    pub fn new() -> (zero: DiffStat)
        ensures
            zero@ == Totals::zero(),
    {
        DiffStat {
            utime: 0,
            stime: 0,
            cutime: 0,
            cstime: 0,
            minflt: 0,
            cminflt: 0,
            majflt: 0,
            cmajflt: 0,
        }
    }

    /// The counters of one process, as the first term of a sum.
    pub fn new_from(stat: &ProcessCounters) -> (copy: DiffStat)
        ensures
            copy@ == stat.totals(),
    {
        DiffStat {
            utime: stat.utime as i128,
            stime: stat.stime as i128,
            cutime: stat.cutime as i128,
            cstime: stat.cstime as i128,
            minflt: stat.minflt as i128,
            cminflt: stat.cminflt as i128,
            majflt: stat.majflt as i128,
            cmajflt: stat.cmajflt as i128,
        }
    }

    /// Field-wise sum of two sets of counters.
    pub fn add(self, other: DiffStat) -> (sum: DiffStat)
        requires
            self@.plus(other@).fits(),
        ensures
            sum@ == self@.plus(other@),
    {
        DiffStat {
            utime: self.utime + other.utime,
            stime: self.stime + other.stime,
            cutime: self.cutime + other.cutime,
            cstime: self.cstime + other.cstime,
            minflt: self.minflt + other.minflt,
            cminflt: self.cminflt + other.cminflt,
            majflt: self.majflt + other.majflt,
            cmajflt: self.cmajflt + other.cmajflt,
        }
    }

    /// Field-wise sum of counters and the counters of one process.
    pub fn add_stat(self, other: &ProcessCounters) -> (sum: DiffStat)
        requires
            self@.plus(other.totals()).fits(),
        ensures
            sum@ == self@.plus(other.totals()),
    {
        self.add(DiffStat::new_from(other))
    }

    /// Field-wise difference of two sets of counters.
    pub fn sub(self, other: DiffStat) -> (difference: DiffStat)
        requires
            self@.minus(other@).fits(),
        ensures
            difference@ == self@.minus(other@),
    {
        DiffStat {
            utime: self.utime - other.utime,
            stime: self.stime - other.stime,
            cutime: self.cutime - other.cutime,
            cstime: self.cstime - other.cstime,
            minflt: self.minflt - other.minflt,
            cminflt: self.cminflt - other.cminflt,
            majflt: self.majflt - other.majflt,
            cmajflt: self.cmajflt - other.cmajflt,
        }
    }

    /// Field-wise difference of counters and the counters of one process.
    pub fn sub_stat(self, other: &ProcessCounters) -> (difference: DiffStat)
        requires
            self@.minus(other.totals()).fits(),
        ensures
            difference@ == self@.minus(other.totals()),
    {
        self.sub(DiffStat::new_from(other))
    }
}

/// The counters of one process under its identifier, detached from its
/// command name.
#[derive(Debug, Clone, Copy, PartialEq, Eq, Structural)]
pub struct ProcessDiffStat {
    pub pid: i32,
    pub stat: DiffStat,
}

impl View for ProcessDiffStat {
    type V = Reading;

    open spec fn view(&self) -> Reading {
        Reading { pid: self.pid as int, totals: self.stat@ }
    }
}

impl ProcessDiffStat {
    /// The identifier and the counters of `stat`.
    pub fn new_from(stat: &ProcessCounters) -> (entry: ProcessDiffStat)
        ensures
            entry@ == stat.reading(),
    {
        ProcessDiffStat { pid: stat.pid, stat: DiffStat::new_from(stat) }
    }
}

} // verus!
