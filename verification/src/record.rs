//! What every target name consumed between two samples.

use crate::counters::{DiffStat, ProcessCounters};
use crate::delta::{calc_total_diff_using_sort, readings, total_diff};
use crate::matcher::texts;
use crate::snapshot::{group_wf, GroupSnapshot};
use fnv::FnvHashMap;
use vstd::prelude::*;

verus! {

/// What a map of differences holds: under each command name, the difference
/// last put there.
pub uninterp spec fn record_entries(entries: FnvHashMap<String, DiffStat>) -> Map<
    Seq<char>,
    DiffStat,
>;

/// Calls `with_capacity_and_hasher` of the hash map, which gives a map that
/// holds nothing. A capacity beyond what a table can have makes it panic, so
/// only a modest one is asked for.
#[verifier::external_body]
fn entries_with_capacity(capacity: usize) -> (entries: FnvHashMap<String, DiffStat>)
    requires
        capacity <= 0xFFFF,
    ensures
        record_entries(entries) =~= Map::empty(),
{
    FnvHashMap::with_capacity_and_hasher(capacity, Default::default())
}

/// Calls `insert` of the hash map, which puts `diff` under `name`, in place of
/// what stood there, and leaves every other entry as it was.
#[verifier::external_body]
fn entries_insert(entries: &mut FnvHashMap<String, DiffStat>, name: String, diff: DiffStat)
    ensures
        record_entries(*final(entries)) == record_entries(*old(entries)).insert(name@, diff),
{
    entries.insert(name, diff);
}

/// Calls `get` of the hash map, which shows the difference under `name` if
/// there is one.
#[verifier::external_body]
fn entries_get<'a>(entries: &'a FnvHashMap<String, DiffStat>, name: &str) -> (diff: Option<
    &'a DiffStat,
>)
    ensures
        diff is Some == record_entries(*entries).contains_key(name@),
        diff matches Some(found) ==> *found == record_entries(*entries)[name@],
{
    entries.get(name)
}

/// Walks `keys` of the hash map and copies each. The map decides the order;
/// believed is that every name under which a difference stands comes once, and
/// nothing else.
#[verifier::external_body]
fn entries_keys(entries: &FnvHashMap<String, DiffStat>) -> (names: Vec<String>)
    ensures
        texts(names@).no_duplicates(),
        forall|name: Seq<char>|
            texts(names@).contains(name) == record_entries(*entries).contains_key(name),
{
    entries.keys().cloned().collect()
}

/// The difference of two samples, name by name.
pub struct DiffRecord {
    entries: FnvHashMap<String, DiffStat>,
}

impl View for DiffRecord {
    type V = Map<Seq<char>, DiffStat>;

    closed spec fn view(&self) -> Map<Seq<char>, DiffStat> {
        record_entries(self.entries)
    }
}

impl DiffRecord {
    /// The difference under `name`, if the name was found in both samples.
    pub fn get(&self, name: &str) -> (diff: Option<DiffStat>)
        ensures
            diff is Some == self@.contains_key(name@),
            diff matches Some(found) ==> found == self@[name@],
    {
        match entries_get(&self.entries, name) {
            Some(found) => Some(*found),
            None => None,
        }
    }

    /// The names under which a difference stands, each once, in no particular
    /// order.
    pub fn names(&self) -> (names: Vec<String>)
        ensures
            texts(names@).no_duplicates(),
            forall|name: Seq<char>| texts(names@).contains(name) == self@.contains_key(name),
    {
        entries_keys(&self.entries)
    }
}

/// What a record of two samples has to hold: a difference for exactly the
/// names found in both, and under each the consumption of that name's
/// processes from `old_stats` to `stats`.
pub open spec fn is_record_of(
    record: Map<Seq<char>, DiffStat>,
    stats: Map<Seq<char>, Seq<ProcessCounters>>,
    old_stats: Map<Seq<char>, Seq<ProcessCounters>>,
) -> bool {
    &&& forall|name: Seq<char>| #[trigger]
        record.contains_key(name) == (stats.contains_key(name) && old_stats.contains_key(name))
    &&& forall|name: Seq<char>| #[trigger]
        record.contains_key(name) ==> record[name]@ == total_diff(
            readings(stats[name]),
            readings(old_stats[name]),
        )
}

/// The record of two samples: for every name of the later sample `stats` that
/// is in the earlier sample `old_stats` too, what its processes consumed in
/// between. A name found in only one of the samples gets no entry.
pub fn diff_snapshots(stats: &GroupSnapshot, old_stats: &GroupSnapshot) -> (record: DiffRecord)
    ensures
        is_record_of(record@, stats@, old_stats@),
{
    proof {
        use_type_invariant(stats);
        use_type_invariant(old_stats);
    }
    let names = stats.names();
    let room: usize = if names.len() <= 0xFFFF {
        names.len()
    } else {
        0xFFFF
    };
    let mut entries = entries_with_capacity(room);
    let mut i: usize = 0;
    while i < names.len()
        invariant
            i <= names.len(),
            stats.wf(),
            old_stats.wf(),
            forall|name: Seq<char>| texts(names@).contains(name) == stats@.contains_key(name),
            forall|name: Seq<char>| #[trigger]
                record_entries(entries).contains_key(name) == (old_stats@.contains_key(name)
                    && exists|k: int| 0 <= k < i && #[trigger] texts(names@)[k] == name),
            forall|name: Seq<char>| #[trigger]
                record_entries(entries).contains_key(name) ==> record_entries(entries)[name]@
                    == total_diff(readings(stats@[name]), readings(old_stats@[name])),
        decreases names.len() - i,
    {
        let key = &names[i];
        let ghost shown = record_entries(entries);
        proof {
            assert(texts(names@)[i as int] == key@);
            assert(texts(names@).contains(key@));
        }
        match old_stats.get(key.as_str()) {
            Some(old_group) => {
                match stats.get(key.as_str()) {
                    Some(group) => {
                        assert(group_wf(key@, stats@[key@]));
                        assert(group_wf(key@, old_stats@[key@]));
                        let diff = calc_total_diff_using_sort(
                            group.as_slice(),
                            old_group.as_slice(),
                        );
                        entries_insert(&mut entries, key.clone(), diff);
                    },
                    None => {},
                }
            },
            None => {},
        }
        proof {
            assert forall|name: Seq<char>| #[trigger]
                record_entries(entries).contains_key(name) == (old_stats@.contains_key(name)
                    && exists|k: int| 0 <= k < i + 1 && #[trigger] texts(names@)[k] == name) by {
                if shown.contains_key(name) {
                    let k = choose|k: int| 0 <= k < i && #[trigger] texts(names@)[k] == name;
                    assert(0 <= k < i + 1 && texts(names@)[k] == name);
                }
                if old_stats@.contains_key(name) && exists|k: int|
                    0 <= k < i + 1 && #[trigger] texts(names@)[k] == name {
                    let k = choose|k: int| 0 <= k < i + 1 && #[trigger] texts(names@)[k] == name;
                    if k < i {
                        assert(shown.contains_key(name));
                    }
                }
            }
        }
        i += 1;
    }
    let record = DiffRecord { entries };
    proof {
        assert forall|name: Seq<char>| #[trigger]
            record@.contains_key(name) == (stats@.contains_key(name) && old_stats@.contains_key(
                name,
            )) by {
            if stats@.contains_key(name) {
                assert(texts(names@).contains(name));
                let k = choose|k: int| 0 <= k < texts(names@).len() && texts(names@)[k] == name;
                assert(0 <= k < i && texts(names@)[k] == name);
            }
        }
    }
    record
}

} // verus!
