//! One sample of the process table, grouped by command name.

use crate::counters::ProcessCounters;
use crate::delta::{distinct_pids, has_distinct_pids, readings};
use crate::matcher::{slice_texts, texts, NameMatcher};
use fnv::FnvHashMap;
use vstd::prelude::*;

verus! {

#[verifier::external_type_specification]
#[verifier::external_body]
pub struct ExFnvHasher(fnv::FnvHasher);

#[verifier::external_type_specification]
#[verifier::external_body]
#[verifier::reject_recursive_types(H)]
pub struct ExBuildHasherDefault<H>(std::hash::BuildHasherDefault<H>);

/// What a map of groups holds: under each command name, the processes of that
/// name in the order in which they were added.
pub uninterp spec fn snapshot_groups(groups: FnvHashMap<String, Vec<ProcessCounters>>) -> Map<
    Seq<char>,
    Seq<ProcessCounters>,
>;

/// Calls `with_capacity_and_hasher` of the hash map, which gives a map that
/// holds nothing. A capacity beyond what a table can have makes it panic, so
/// only a modest one is asked for.
#[verifier::external_body]
fn groups_with_capacity(capacity: usize) -> (groups: FnvHashMap<String, Vec<ProcessCounters>>)
    requires
        capacity <= 0xFFFF,
    ensures
        snapshot_groups(groups) =~= Map::empty(),
{
    FnvHashMap::with_capacity_and_hasher(capacity, Default::default())
}

/// Calls `contains_key` of the hash map: whether a group stands under `name`.
#[verifier::external_body]
fn groups_contains_key(groups: &FnvHashMap<String, Vec<ProcessCounters>>, name: &str) -> (found:
    bool)
    ensures
        found == snapshot_groups(*groups).contains_key(name@),
{
    groups.contains_key(name)
}

/// Calls `insert` of the hash map, which puts `members` under `name`, in place
/// of what stood there, and leaves every other group as it was.
#[verifier::external_body]
fn groups_insert(
    groups: &mut FnvHashMap<String, Vec<ProcessCounters>>,
    name: String,
    members: Vec<ProcessCounters>,
)
    ensures
        snapshot_groups(*final(groups)) == snapshot_groups(*old(groups)).insert(name@, members@),
{
    groups.insert(name, members);
}

/// Calls `get_mut` of the hash map, which lends the group under `name` if there
/// is one. What the borrower leaves in the group is what the map then holds
/// under `name`; every other group stays as it was.
#[verifier::external_body]
fn groups_get_mut<'a>(
    groups: &'a mut FnvHashMap<String, Vec<ProcessCounters>>,
    name: &str,
) -> (members: Option<&'a mut Vec<ProcessCounters>>)
    ensures
        members is Some == snapshot_groups(*old(groups)).contains_key(name@),
        members matches Some(group) ==> {
            &&& group@ == snapshot_groups(*old(groups))[name@]
            &&& snapshot_groups(*final(groups)) == snapshot_groups(*old(groups)).insert(
                name@,
                final(group)@,
            )
        },
        members is None ==> snapshot_groups(*final(groups)) == snapshot_groups(*old(groups)),
{
    groups.get_mut(name)
}

/// Calls `get` of the hash map, which shows the group under `name` if there is
/// one.
#[verifier::external_body]
fn groups_get<'a>(groups: &'a FnvHashMap<String, Vec<ProcessCounters>>, name: &str) -> (members:
    Option<&'a Vec<ProcessCounters>>)
    ensures
        members is Some == snapshot_groups(*groups).contains_key(name@),
        members matches Some(group) ==> group@ == snapshot_groups(*groups)[name@],
{
    groups.get(name)
}

/// Walks `keys` of the hash map and copies each. The map decides the order;
/// believed is that every name under which a group stands comes once, and
/// nothing else.
#[verifier::external_body]
fn groups_keys(groups: &FnvHashMap<String, Vec<ProcessCounters>>) -> (names: Vec<String>)
    ensures
        texts(names@).no_duplicates(),
        forall|name: Seq<char>|
            texts(names@).contains(name) == snapshot_groups(*groups).contains_key(name),
{
    groups.keys().cloned().collect()
}

/// The readings that are there, in their order. An entry without one stands for
/// a process that was gone before it could be read, or that may not be read.
pub open spec fn present(entries: Seq<Option<ProcessCounters>>) -> Seq<ProcessCounters>
    decreases entries.len(),
{
    if entries.len() == 0 {
        Seq::empty()
    } else {
        match entries.last() {
            Some(stat) => present(entries.drop_last()).push(stat),
            None => present(entries.drop_last()),
        }
    }
}

/// The processes of `stats` whose command name is `name`, in their order.
pub open spec fn members(stats: Seq<ProcessCounters>, name: Seq<char>) -> Seq<ProcessCounters>
    decreases stats.len(),
{
    if stats.len() == 0 {
        Seq::empty()
    } else if stats.last().command@ == name {
        members(stats.drop_last(), name).push(stats.last())
    } else {
        members(stats.drop_last(), name)
    }
}

/// The processes of `stats` whose command name is one of `target_names`,
/// grouped by command name. A name stands in the map only where at least one
/// process has it.
pub open spec fn grouped(stats: Seq<ProcessCounters>, target_names: Seq<Seq<char>>) -> Map<
    Seq<char>,
    Seq<ProcessCounters>,
> {
    Map::new(
        |name: Seq<char>| target_names.contains(name) && members(stats, name).len() > 0,
        |name: Seq<char>| members(stats, name),
    )
}

/// What holds of every group of a sample: it is not empty, each of its
/// processes has the name it stands under, and no process is in it twice.
pub open spec fn group_wf(name: Seq<char>, group: Seq<ProcessCounters>) -> bool {
    &&& group.len() > 0
    &&& forall|i: int| 0 <= i < group.len() ==> (#[trigger] group[i]).command@ == name
    &&& distinct_pids(readings(group))
}

proof fn lemma_members_origin(stats: Seq<ProcessCounters>, name: Seq<char>)
    ensures
        forall|k: int|
            0 <= k < members(stats, name).len() ==> {
                &&& (#[trigger] members(stats, name)[k]).command@ == name
                &&& exists|j: int| 0 <= j < stats.len() && stats[j] == members(stats, name)[k]
            },
    decreases stats.len(),
{
    if stats.len() > 0 {
        let fewer = stats.drop_last();
        lemma_members_origin(fewer, name);
        assert forall|k: int| 0 <= k < members(stats, name).len() implies {
            &&& (#[trigger] members(stats, name)[k]).command@ == name
            &&& exists|j: int| 0 <= j < stats.len() && stats[j] == members(stats, name)[k]
        } by {
            if k < members(fewer, name).len() {
                let found = members(fewer, name)[k];
                let j = choose|j: int| 0 <= j < fewer.len() && fewer[j] == found;
                assert(stats[j] == found);
            } else {
                assert(stats[stats.len() - 1] == members(stats, name)[k]);
            }
        }
    }
}

proof fn lemma_members_distinct(stats: Seq<ProcessCounters>, name: Seq<char>)
    requires
        distinct_pids(readings(stats)),
    ensures
        distinct_pids(readings(members(stats, name))),
    decreases stats.len(),
{
    if stats.len() > 0 {
        let fewer = stats.drop_last();
        assert forall|i: int, j: int| 0 <= i < j < readings(fewer).len() implies (
        #[trigger] readings(fewer)[i]).pid != (#[trigger] readings(fewer)[j]).pid by {
            assert(readings(stats)[i].pid != readings(stats)[j].pid);
        }
        lemma_members_distinct(fewer, name);
        lemma_members_origin(fewer, name);
        let group = members(stats, name);
        assert forall|a: int, b: int| 0 <= a < b < readings(group).len() implies (
        #[trigger] readings(group)[a]).pid != (#[trigger] readings(group)[b]).pid by {
            if b < members(fewer, name).len() {
                let kept = readings(members(fewer, name));
                assert(kept[a].pid != kept[b].pid);
            } else {
                let earlier = members(fewer, name)[a];
                let j = choose|j: int| 0 <= j < fewer.len() && fewer[j] == earlier;
                assert(readings(stats)[j].pid != readings(stats)[stats.len() - 1].pid);
            }
        }
    }
}

/// Every process of a sample has, as its command name, exactly the name of its
/// group, and that name is one of the target names: no process under another
/// name is in a sample, however close the name comes to a target name.
pub proof fn lemma_only_target_names(
    stats: Seq<ProcessCounters>,
    target_names: Seq<Seq<char>>,
    name: Seq<char>,
    i: int,
)
    requires
        grouped(stats, target_names).contains_key(name),
        0 <= i < grouped(stats, target_names)[name].len(),
    ensures
        grouped(stats, target_names)[name][i].command@ == name,
        target_names.contains(name),
        stats.contains(grouped(stats, target_names)[name][i]),
{
    lemma_members_origin(stats, name);
}

proof fn lemma_members_holds(stats: Seq<ProcessCounters>, i: int)
    requires
        0 <= i < stats.len(),
    ensures
        members(stats, stats[i].command@).contains(stats[i]),
    decreases stats.len(),
{
    let name = stats[i].command@;
    let fewer = stats.drop_last();
    if i == stats.len() - 1 {
        let at = members(fewer, name).len() as int;
        assert(members(stats, name)[at] == stats[i]);
    } else {
        lemma_members_holds(fewer, i);
        let at = choose|at: int|
            0 <= at < members(fewer, name).len() && members(fewer, name)[at] == fewer[i];
        assert(members(stats, name)[at] == stats[i]);
    }
}

/// No process of a target name is lost: each is in the group of its command
/// name.
pub proof fn lemma_target_is_grouped(
    stats: Seq<ProcessCounters>,
    target_names: Seq<Seq<char>>,
    i: int,
)
    requires
        0 <= i < stats.len(),
        target_names.contains(stats[i].command@),
    ensures
        grouped(stats, target_names).contains_key(stats[i].command@),
        grouped(stats, target_names)[stats[i].command@].contains(stats[i]),
{
    lemma_members_holds(stats, i);
}

/// One sample: the processes found under each target name.
pub struct GroupSnapshot {
    groups: FnvHashMap<String, Vec<ProcessCounters>>,
}

impl View for GroupSnapshot {
    type V = Map<Seq<char>, Seq<ProcessCounters>>;

    closed spec fn view(&self) -> Map<Seq<char>, Seq<ProcessCounters>> {
        snapshot_groups(self.groups)
    }
}

impl GroupSnapshot {
    /// Every group is as [`group_wf`] says. This holds of every sample.
    #[verifier::type_invariant]
    pub open spec fn wf(&self) -> bool {
        forall|name: Seq<char>| self@.contains_key(name) ==> group_wf(name, #[trigger] self@[name])
    }

    /// The group under `name`, if at least one process of that name was found.
    pub fn get(&self, name: &str) -> (group: Option<&Vec<ProcessCounters>>)
        ensures
            group is Some == self@.contains_key(name@),
            group matches Some(found) ==> found@ == self@[name@],
    {
        groups_get(&self.groups, name)
    }

    /// Whether at least one process of that name was found.
    pub fn contains(&self, name: &str) -> (found: bool)
        ensures
            found == self@.contains_key(name@),
    {
        groups_contains_key(&self.groups, name)
    }

    /// The names under which a group stands, each once, in no particular order.
    pub fn names(&self) -> (names: Vec<String>)
        ensures
            texts(names@).no_duplicates(),
            forall|name: Seq<char>| texts(names@).contains(name) == self@.contains_key(name),
    {
        groups_keys(&self.groups)
    }
}

/// Groups the processes of `stats` whose command name is a target name of
/// `matcher`.
///
/// Each such process is appended to the group of its name; the group is made
/// when its first process comes. A name without a process gets no group.
pub fn group_by_command(matcher: &NameMatcher, stats: Vec<ProcessCounters>) -> (snapshot:
    GroupSnapshot)
    requires
        distinct_pids(readings(stats@)),
    ensures
        snapshot@ == grouped(stats@, matcher.names()),
        snapshot.wf(),
{
    let ghost all = stats@;
    let targets = matcher.target_count();
    let room: usize = if targets <= 0xFFFF {
        targets
    } else {
        0xFFFF
    };
    let mut groups = groups_with_capacity(room);
    assert(snapshot_groups(groups) =~= grouped(all.take(0), matcher.names())) by {
        assert(all.take(0) =~= Seq::<ProcessCounters>::empty());
    }
    for stat in iter: stats
        invariant
            iter.seq() == all,
            snapshot_groups(groups) == grouped(all.take(iter.index() as int), matcher.names()),
    {
        let ghost seen = all.take(iter.index() as int);
        let ghost now = all.take(iter.index() + 1);
        let ghost name = stat.command@;
        let ghost added = stat;
        proof {
            assert(now.drop_last() =~= seen);
            assert(now.last() == stat);
            assert forall|other: Seq<char>| #[trigger]
                members(now, other) == if other == name {
                    members(seen, other).push(added)
                } else {
                    members(seen, other)
                } by {}
        }
        if matcher.is_match(stat.command.as_str()) {
            if !groups_contains_key(&groups, stat.command.as_str()) {
                assert(members(seen, name) =~= Seq::<ProcessCounters>::empty());
                groups_insert(&mut groups, stat.command.clone(), Vec::new());
            }
            assert(snapshot_groups(groups) =~= grouped(seen, matcher.names()).insert(
                name,
                members(seen, name),
            ));
            match groups_get_mut(&mut groups, stat.command.as_str()) {
                Some(group) => {
                    group.push(stat);
                },
                None => {},
            }
            assert(snapshot_groups(groups) =~= grouped(seen, matcher.names()).insert(
                name,
                members(now, name),
            ));
        }
        assert(snapshot_groups(groups) =~= grouped(now, matcher.names()));
    }
    proof {
        assert(all.take(all.len() as int) =~= all);
        assert forall|name: Seq<char>| snapshot_groups(groups).contains_key(name) implies group_wf(
            name,
            #[trigger] snapshot_groups(groups)[name],
        ) by {
            lemma_members_origin(all, name);
            lemma_members_distinct(all, name);
        }
    }
    GroupSnapshot { groups }
}

/// Leaves out the processes that could not be read. That a process is gone,
/// or may not be read, is no failure: it is just not part of the sample.
pub fn skip_missing(entries: Vec<Option<ProcessCounters>>) -> (stats: Vec<ProcessCounters>)
    ensures
        stats@ == present(entries@),
{
    let ghost all = entries@;
    let mut stats: Vec<ProcessCounters> = Vec::new();
    assert(all.take(0) =~= Seq::<Option<ProcessCounters>>::empty());
    for entry in iter: entries
        invariant
            iter.seq() == all,
            stats@ == present(all.take(iter.index() as int)),
    {
        proof {
            assert(all.take(iter.index() + 1).drop_last() =~= all.take(iter.index() as int));
            assert(all.take(iter.index() + 1).last() == entry);
        }
        if let Some(stat) = entry {
            stats.push(stat);
        }
    }
    assert(all.take(all.len() as int) =~= all);
    stats
}

/// Why there is no sample.
#[derive(Debug, Clone, Copy, PartialEq, Eq, Structural)]
pub enum CollectError {
    /// The process table could not be listed at all.
    EnumerationFailed,
    /// One process identifier came twice among the readings.
    RepeatedPid,
}

/// One sample of the readings for the target names of `matcher`.
///
/// Readings in which one identifier comes twice are no sample and are refused.
/// All others are grouped.
pub fn sample_with(matcher: &NameMatcher, stats: Vec<ProcessCounters>) -> (outcome: Result<
    GroupSnapshot,
    CollectError,
>)
    ensures
        outcome is Ok == distinct_pids(readings(stats@)),
        outcome matches Ok(snapshot) ==> snapshot.wf() && snapshot@ == grouped(
            stats@,
            matcher.names(),
        ),
        outcome matches Err(error) ==> error == CollectError::RepeatedPid,
{
    if !has_distinct_pids(stats.as_slice()) {
        return Err(CollectError::RepeatedPid);
    }
    Ok(group_by_command(matcher, stats))
}

/// One sample for the target names, from what listing the process table and
/// reading each process of it gave.
///
/// Without a listing there is no sample, neither an empty one nor a part of
/// one. With a listing, a process that could not be read is left out. If one
/// identifier was read twice, the readings are no sample and are refused.
/// Otherwise each process whose command name is one of the target names joins
/// the group of that name; this never fails, whatever characters the names
/// hold.
pub fn retrieve_process_stats(
    target_process_names: &[&str],
    listing: Option<Vec<Option<ProcessCounters>>>,
) -> (outcome: Result<GroupSnapshot, CollectError>)
    ensures
        match listing {
            None => outcome == Err::<GroupSnapshot, CollectError>(CollectError::EnumerationFailed),
            Some(entries) => if distinct_pids(readings(present(entries@))) {
                &&& outcome matches Ok(snapshot)
                &&& snapshot.wf()
                &&& snapshot@ == grouped(present(entries@), slice_texts(target_process_names@))
            } else {
                outcome == Err::<GroupSnapshot, CollectError>(CollectError::RepeatedPid)
            },
        },
{
    match listing {
        None => Err(CollectError::EnumerationFailed),
        Some(entries) => {
            let matcher = NameMatcher::new(target_process_names);
            let stats = skip_missing(entries);
            sample_with(&matcher, stats)
        },
    }
}

} // verus!
