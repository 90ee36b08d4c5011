//! Which snapshots go to which targets, and which replicas leave them.
//!
//! A [`Sending`] goes through the targets, a [`Round`] through the snapshots for one of them, and
//! a [`Pruning`] through the replicas that leave it. They decide what happens next; whoever runs
//! them does what their step says and reports what came of it.
use crate::database::{
    kinds_at, oldest_replica_first, prune_rows, pruned_row, remote_prune_candidates, replica_kinds,
    replicas_of, refused_for_replicas, Database, QueryError, Tables, TrackedReplica,
};
use crate::excludes::Excluded;
use crate::order::{arranged, holds, keep, views};
use crate::sizes::{human_size, readable};
use crate::structs::{Replica, ReplicaRecord, Snapshot, SnapshotRecord};
use crate::text::{decimal, join, joined, numeral, texts};
use vstd::prelude::*;

verus! {

/// The snapshots whose name is not among those that were sent.
pub open spec fn unsent(done: Seq<Seq<char>>) -> spec_fn(Snapshot) -> bool {
    |snapshot: Snapshot| !done.contains(snapshot.name)
}

fn copy_records(list: &[SnapshotRecord]) -> (copies: Vec<SnapshotRecord>)
    ensures
        views(copies@) == views(list@),
{
    let mut copies: Vec<SnapshotRecord> = Vec::new();
    let mut i: usize = 0;
    while i < list.len()
        invariant
            i <= list@.len(),
            copies@.len() == i,
            forall|k: int| 0 <= k < i ==> #[trigger] copies@[k]@ == list@[k]@,
        decreases list@.len() - i,
    {
        copies.push(list[i].copy());
        i += 1;
    }
    assert(views(copies@) =~= views(list@));
    copies
}

/// The snapshots that are still to be sent to a target, in their order.
pub fn to_send(pending: &[SnapshotRecord], done: &[String]) -> (todo: Vec<SnapshotRecord>)
    ensures
        views(todo@) == views(pending@).filter(unsent(texts(done@))),
{
    let wanted = |snapshot: &SnapshotRecord| -> (yes: bool)
        ensures
            yes == unsent(texts(done@))(snapshot@),
        { !holds(done, snapshot.name.as_str()) };
    keep(copy_records(pending), wanted, Ghost(unsent(texts(done@))))
}

/// What came of a step.
#[derive(Debug, Clone, Copy, PartialEq, Eq, Structural)]
pub enum RoundEvent {
    /// It was done.
    Done,
    /// It could not be done.
    Failed,
    /// What was looked for is there.
    There,
    /// What was looked for is not there.
    Missing,
}

/// What a round does now.
#[derive(Debug, Clone, Copy, PartialEq, Eq, Structural)]
pub enum RoundStep {
    /// Looks for the directory at the target.
    LookForDirectory,
    /// Says that there is nothing to send.
    SayNothing,
    /// Looks for the snapshot at this position.
    Look(usize),
    /// Says what would be done with the snapshot at this position.
    Describe(usize),
    /// Delivers the snapshot at this position.
    Deliver(usize),
    /// Applies the retention of the target.
    Prune,
    /// Nothing: the round is over.
    Over,
    /// Nothing: the directory at the target is missing.
    NoDirectory,
    /// Nothing: something on the way could not be done.
    Stopped,
}

/// The snapshots that go to one target, one after the other.
#[derive(Debug, Clone, Copy, PartialEq, Eq, Structural)]
pub struct Round {
    pub step: RoundStep,
    /// How many snapshots are to be sent.
    pub count: usize,
    /// Whether it is only said what would be done.
    pub dry_run: bool,
    /// Whether the target has a retention.
    pub prunes: bool,
}

impl Round {
    /// What is done about the snapshots from position `i` on.
    pub open spec fn from(self, i: int) -> RoundStep {
        if i < self.count {
            RoundStep::Look(i as usize)
        } else if self.prunes {
            RoundStep::Prune
        } else {
            RoundStep::Over
        }
    }

    /// What is done once the target may be sent to: if there is nothing to send, that is said.
    pub open spec fn opening(self) -> RoundStep {
        if self.count == 0 {
            RoundStep::SayNothing
        } else {
            self.from(0)
        }
    }

    /// The round at another step.
    pub open spec fn at(self, step: RoundStep) -> Round {
        Round { step, ..self }
    }

    /// A round that has not started. With a dry run the target is not contacted.
    pub open spec fn started(count: usize, dry_run: bool, prunes: bool) -> Round {
        let round = Round { step: RoundStep::LookForDirectory, count, dry_run, prunes };
        if dry_run {
            round.at(round.opening())
        } else {
            round
        }
    }

    /// The round after what came of its step. What can't come of a step changes nothing.
    pub open spec fn after(self, event: RoundEvent) -> Round {
        match (self.step, event) {
            (RoundStep::LookForDirectory, RoundEvent::There) => self.at(self.opening()),
            (RoundStep::SayNothing, RoundEvent::Done) => self.at(self.from(0)),
            (RoundStep::LookForDirectory, RoundEvent::Missing) => self.at(RoundStep::NoDirectory),
            (RoundStep::Look(i), RoundEvent::There) => self.at(
                if self.dry_run {
                    RoundStep::Describe(i)
                } else {
                    RoundStep::Deliver(i)
                },
            ),
            (RoundStep::Look(i), RoundEvent::Missing) => self.at(self.from(i + 1)),
            (RoundStep::Describe(i), RoundEvent::Done) => self.at(self.from(i + 1)),
            (RoundStep::Deliver(i), RoundEvent::Done) => self.at(self.from(i + 1)),
            (RoundStep::Prune, RoundEvent::Done) => self.at(RoundStep::Over),
            (RoundStep::Over, _) => self,
            (RoundStep::NoDirectory, _) => self,
            (_, RoundEvent::Failed) => self.at(RoundStep::Stopped),
            (_, _) => self,
        }
    }

    /// What holds of a round at every step: positions are those of snapshots to be sent, that
    /// there is nothing to send is said only if it is so, a dry run neither contacts the target nor
    /// delivers, and only a target with a retention is pruned.
    pub open spec fn sound(self) -> bool {
        match self.step {
            RoundStep::LookForDirectory => !self.dry_run,
            RoundStep::NoDirectory => !self.dry_run,
            RoundStep::SayNothing => self.count == 0,
            RoundStep::Look(i) => i < self.count,
            RoundStep::Describe(i) => i < self.count && self.dry_run,
            RoundStep::Deliver(i) => i < self.count && !self.dry_run,
            RoundStep::Prune => self.prunes,
            _ => true,
        }
    }

    fn go_on(&self, i: usize) -> (step: RoundStep)
        ensures
            step == self.from(i as int),
    {
        if i < self.count {
            RoundStep::Look(i)
        } else if self.prunes {
            RoundStep::Prune
        } else {
            RoundStep::Over
        }
    }

    fn open(&self) -> (step: RoundStep)
        ensures
            step == self.opening(),
    {
        if self.count == 0 {
            RoundStep::SayNothing
        } else {
            RoundStep::Look(0)
        }
    }

    /// A round that has not started.
    pub fn start(count: usize, dry_run: bool, prunes: bool) -> (round: Round)
        ensures
            round == Round::started(count, dry_run, prunes),
            round.sound(),
    {
        let mut round: Round = Round { step: RoundStep::LookForDirectory, count, dry_run, prunes };
        if dry_run {
            round.step = round.open();
        }
        round
    }

    /// Takes in what came of the step.
    pub fn next(&mut self, event: RoundEvent)
        requires
            old(self).sound(),
        ensures
            *final(self) == old(self).after(event),
            final(self).sound(),
    {
        match (self.step, event) {
            (RoundStep::LookForDirectory, RoundEvent::There) => {
                self.step = self.open();
            },
            (RoundStep::SayNothing, RoundEvent::Done) => {
                self.step = self.go_on(0);
            },
            (RoundStep::LookForDirectory, RoundEvent::Missing) => {
                self.step = RoundStep::NoDirectory;
            },
            (RoundStep::Look(i), RoundEvent::There) => {
                self.step = if self.dry_run {
                    RoundStep::Describe(i)
                } else {
                    RoundStep::Deliver(i)
                };
            },
            (RoundStep::Look(i), RoundEvent::Missing) => {
                self.step = self.go_on(i + 1);
            },
            (RoundStep::Describe(i), RoundEvent::Done) => {
                self.step = self.go_on(i + 1);
            },
            (RoundStep::Deliver(i), RoundEvent::Done) => {
                self.step = self.go_on(i + 1);
            },
            (RoundStep::Prune, RoundEvent::Done) => {
                self.step = RoundStep::Over;
            },
            (RoundStep::Over, _) => {},
            (RoundStep::NoDirectory, _) => {},
            (_, RoundEvent::Failed) => {
                self.step = RoundStep::Stopped;
            },
            (_, _) => {},
        }
    }
}

/// A round after everything that came of its steps, one event after the other.
pub open spec fn gone_round(round: Round, events: Seq<RoundEvent>) -> Round
    decreases events.len(),
{
    if events.len() == 0 {
        round
    } else {
        gone_round(round, events.drop_last()).after(events.last())
    }
}

/// A dry run never looks for the directory at the target and never delivers anything, whatever
/// it finds.
pub proof fn lemma_dry_run_delivers_nothing(count: usize, prunes: bool, events: Seq<RoundEvent>)
    ensures
        !(gone_round(Round::started(count, true, prunes), events).step is Deliver),
        !(gone_round(Round::started(count, true, prunes), events).step is LookForDirectory),
        gone_round(Round::started(count, true, prunes), events).dry_run,
    decreases events.len(),
{
    if events.len() > 0 {
        lemma_dry_run_delivers_nothing(count, prunes, events.drop_last());
    }
}

/// A round that a delivery fails in stops there: nothing else is sent to that target.
pub proof fn lemma_round_stops_at_a_failure(round: Round, events: Seq<RoundEvent>)
    requires
        round.step is Stopped,
    ensures
        gone_round(round, events) == round,
    decreases events.len(),
{
    if events.len() > 0 {
        lemma_round_stops_at_a_failure(round, events.drop_last());
    }
}

/// What is asked of the snapshots of a round from position `i` on, where `there` says which of
/// them are here: each is looked for, and those that are here are delivered.
pub open spec fn visits(i: int, count: int, there: spec_fn(int) -> bool) -> Seq<RoundEvent>
    decreases count - i,
{
    if i < 0 || i >= count {
        Seq::empty()
    } else if there(i) {
        seq![RoundEvent::There, RoundEvent::Done] + visits(i + 1, count, there)
    } else {
        seq![RoundEvent::Missing] + visits(i + 1, count, there)
    }
}

proof fn lemma_round_in_parts(round: Round, first: Seq<RoundEvent>, second: Seq<RoundEvent>)
    ensures
        gone_round(round, first + second) == gone_round(gone_round(round, first), second),
    decreases second.len(),
{
    let all = first + second;
    if second.len() == 0 {
        assert(all =~= first);
    } else {
        assert(all.drop_last() =~= first + second.drop_last());
        assert(all.last() == second.last());
        lemma_round_in_parts(round, first, second.drop_last());
    }
}

/// A round in which every delivery succeeds visits every snapshot, skips those that are not here
/// any more, and ends with the retention of the target if it has one.
pub proof fn lemma_round_visits_all(round: Round, i: int, there: spec_fn(int) -> bool)
    requires
        0 <= i <= round.count,
        round.step == round.from(i),
    ensures
        gone_round(round, visits(i, round.count as int, there)) == round.at(
            if round.prunes {
                RoundStep::Prune
            } else {
                RoundStep::Over
            },
        ),
    decreases round.count - i,
{
    if i < round.count {
        let on = round.at(round.from(i + 1));
        let rest = visits(i + 1, round.count as int, there);
        lemma_round_visits_all(on, i + 1, there);
        reveal_with_fuel(gone_round, 3);
        if there(i) {
            let steps = seq![RoundEvent::There, RoundEvent::Done];
            assert(steps.drop_last() =~= seq![RoundEvent::There]);
            assert(seq![RoundEvent::There].drop_last() =~= Seq::<RoundEvent>::empty());
            assert(gone_round(round, steps) == on);
            lemma_round_in_parts(round, steps, rest);
        } else {
            let steps = seq![RoundEvent::Missing];
            assert(steps.drop_last() =~= Seq::<RoundEvent>::empty());
            assert(gone_round(round, steps) == on);
            lemma_round_in_parts(round, steps, rest);
        }
    }
}

/// What is said of a target whose directory is missing.
pub fn no_directory_message(path: &str, url: &str) -> (message: String)
    ensures
        message@ == "the directory "@ + path@ + " does not exist at "@ + url@
            + " (is the backup disk mounted?)"@,
{
    "the directory ".to_owned().concat(path).concat(" does not exist at ").concat(url).concat(
        " (is the backup disk mounted?)",
    )
}

/// What is said of a target to which all of this many snapshots were sent before.
pub fn nothing_to_send_message(url: &str, count: usize) -> (message: String)
    ensures
        message@ == "Nothing to send to "@ + url@ + ": all "@ + numeral(count as nat)
            + " snapshot(s) are already replicated"@,
{
    let number: String = decimal(count as u64);
    "Nothing to send to ".to_owned().concat(url).concat(": all ").concat(number.as_str()).concat(
        " snapshot(s) are already replicated",
    )
}

/// What a dry run says of the paths left out of what would be sent. What they amount to is an
/// error where it could not be measured.
pub fn describe_filter(exclude: &[String], measured: Result<Excluded, String>) -> (text: String)
    ensures
        text@ == if exclude@.len() == 0 {
            ""@
        } else {
            match measured {
                Ok(excluded) => ", excluding "@ + numeral(excluded.paths as nat) + " path(s), "@
                    + readable(excluded.bytes as nat) + ": "@ + joined(texts(exclude@), ", "@),
                Err(error) => ", excluding "@ + joined(texts(exclude@), ", "@)
                    + " (could not measure: "@ + error@ + ")"@,
            }
        },
{
    if exclude.len() == 0 {
        return "".to_owned();
    }
    let list: String = join(exclude, ", ");
    match measured {
        Ok(excluded) => {
            let paths: String = decimal(excluded.paths as u64);
            let size: String = human_size(excluded.bytes);
            ", excluding ".to_owned().concat(paths.as_str()).concat(" path(s), ").concat(
                size.as_str(),
            ).concat(": ").concat(list.as_str())
        },
        Err(error) => ", excluding ".to_owned().concat(list.as_str()).concat(
            " (could not measure: ",
        ).concat(error.as_str()).concat(")"),
    }
}

/// The replicas that leave a target, for the first `n` of these kinds.
pub open spec fn leaving(
    tables: Tables,
    target: Seq<char>,
    prefix: Seq<char>,
    machine: Seq<char>,
    keep: nat,
    kinds: Seq<Seq<char>>,
    n: nat,
) -> Seq<Replica>
    decreases n,
{
    if n == 0 || n > kinds.len() {
        Seq::empty()
    } else {
        leaving(tables, target, prefix, machine, keep, kinds, (n - 1) as nat) + replicas_of(
            arranged(
                prune_rows(tables, target, prefix, kinds[n - 1], machine, keep),
                oldest_replica_first(),
            ),
        )
    }
}

/// The replicas that leave a target: of each kind everything beyond the newest `keep_newest`,
/// oldest first.
pub fn prune_target(
    database: &Database,
    target: &str,
    prefix: &str,
    machine: &str,
    keep_newest: usize,
) -> (list: Result<Vec<ReplicaRecord>, QueryError>)
    ensures
        match list {
            Ok(list) => !refused_for_replicas(database@, target@, prefix@) && views(list@) == leaving(
                database@,
                target@,
                prefix@,
                machine@,
                keep_newest as nat,
                kinds_at(database@, target@, prefix@, machine@),
                kinds_at(database@, target@, prefix@, machine@).len(),
            ),
            Err(QueryError::PatternTooLong) => refused_for_replicas(database@, target@, prefix@),
            Err(QueryError::KeepTooLarge) => !refused_for_replicas(database@, target@, prefix@)
                && keep_newest > i64::MAX && kinds_at(
                database@,
                target@,
                prefix@,
                machine@,
            ).len() > 0,
        },
        keep_newest > i64::MAX && kinds_at(database@, target@, prefix@, machine@).len() > 0
            ==> list is Err,
{
    let kinds: Vec<String> = match replica_kinds(database, target, prefix, machine) {
        Ok(kinds) => kinds,
        Err(error) => {
            return Err(error);
        },
    };
    let ghost named = kinds_at(database@, target@, prefix@, machine@);
    let mut list: Vec<ReplicaRecord> = Vec::new();
    let mut i: usize = 0;
    proof {
        assert(named.len() == kinds@.len());
        assert(views(list@) =~= Seq::<Replica>::empty());
    }
    while i < kinds.len()
        invariant
            i <= kinds@.len(),
            named == texts(kinds@),
            named == kinds_at(database@, target@, prefix@, machine@),
            i > 0 ==> keep_newest <= i64::MAX,
            !refused_for_replicas(database@, target@, prefix@),
            views(list@) == leaving(
                database@,
                target@,
                prefix@,
                machine@,
                keep_newest as nat,
                named,
                i as nat,
            ),
        decreases kinds@.len() - i,
    {
        assert(named[i as int] == kinds@[i as int]@);
        let mut more: Vec<ReplicaRecord> = match remote_prune_candidates(
            database,
            target,
            prefix,
            kinds[i].as_str(),
            machine,
            keep_newest,
        ) {
            Ok(more) => more,
            Err(error) => {
                return Err(error);
            },
        };
        let ghost before = list@;
        let ghost added = more@;
        list.append(&mut more);
        proof {
            assert(list@ =~= before + added);
            assert(views(list@) =~= views(before) + views(added));
        }
        i += 1;
    }
    Ok(list)
}

/// Replicas of another kind leave a target all the same when a replica is marked as pruned: the
/// kinds don't depend on each other.
pub proof fn lemma_kinds_are_pruned_apart(
    before: Tables,
    after: Tables,
    replica: Replica,
    target: Seq<char>,
    prefix: Seq<char>,
    kind: Seq<char>,
    machine: Seq<char>,
    keep: nat,
)
    requires
        after.replicas == before.replicas.map_values(
            |row: TrackedReplica| pruned_row(row, replica),
        ),
        forall|i: int|
            0 <= i < before.replicas.len() && crate::database::same_replica(
                (#[trigger] before.replicas[i]).record,
                replica,
            ) ==> before.replicas[i].record.kind != kind,
    ensures
        prune_rows(after, target, prefix, kind, machine, keep) == prune_rows(
            before,
            target,
            prefix,
            kind,
            machine,
            keep,
        ),
{
    lemma_other_kinds_stay(before.replicas, after.replicas, replica, target, prefix, kind, machine);
}

proof fn lemma_other_kinds_stay(
    before: Seq<TrackedReplica>,
    after: Seq<TrackedReplica>,
    replica: Replica,
    target: Seq<char>,
    prefix: Seq<char>,
    kind: Seq<char>,
    machine: Seq<char>,
)
    requires
        after == before.map_values(|row: TrackedReplica| pruned_row(row, replica)),
        forall|i: int|
            0 <= i < before.len() && crate::database::same_replica(
                (#[trigger] before[i]).record,
                replica,
            ) ==> before[i].record.kind != kind,
    ensures
        after.filter(crate::database::present_kind(target, prefix, kind, machine))
            == before.filter(crate::database::present_kind(target, prefix, kind, machine)),
    decreases before.len(),
{
    reveal(Seq::filter);
    if before.len() > 0 {
        let front = before.drop_last();
        assert(after.drop_last() =~= front.map_values(
            |row: TrackedReplica| pruned_row(row, replica),
        ));
        assert forall|i: int|
            0 <= i < front.len() && crate::database::same_replica(
                (#[trigger] front[i]).record,
                replica,
            ) implies front[i].record.kind != kind by {
            assert(before[i] == front[i]);
        }
        lemma_other_kinds_stay(front, after.drop_last(), replica, target, prefix, kind, machine);
        assert(after.last() == pruned_row(before.last(), replica));
        assert(before[before.len() - 1] == before.last());
    } else {
        assert(after =~= before);
    }
}

/// What a pruning does now.
#[derive(Debug, Clone, Copy, PartialEq, Eq, Structural)]
pub enum PruneStep {
    /// Says that the replica at this position would be deleted.
    Describe(usize),
    /// Looks at the target for the replica at this position.
    Look(usize),
    /// Deletes the replica at this position.
    Remove(usize),
    /// Marks the replica at this position as pruned.
    Mark(usize),
    /// Nothing: all of them left.
    Over,
    /// Nothing: something on the way could not be done.
    Stopped,
}

/// The replicas that leave a target, one after the other.
#[derive(Debug, Clone, Copy, PartialEq, Eq, Structural)]
pub struct Pruning {
    pub step: PruneStep,
    /// How many replicas leave.
    pub count: usize,
    /// Whether it is only said what would be done.
    pub dry_run: bool,
    /// How many replicas were marked as pruned.
    pub marked: usize,
}

impl Pruning {
    /// What is done about the replicas from position `i` on.
    pub open spec fn from(self, i: int) -> PruneStep {
        if i >= self.count {
            PruneStep::Over
        } else if self.dry_run {
            PruneStep::Describe(i as usize)
        } else {
            PruneStep::Look(i as usize)
        }
    }

    /// The pruning at another step.
    pub open spec fn at(self, step: PruneStep) -> Pruning {
        Pruning { step, ..self }
    }

    /// A pruning that has not started.
    pub open spec fn started(count: usize, dry_run: bool) -> Pruning {
        let pruning = Pruning { step: PruneStep::Over, count, dry_run, marked: 0 };
        pruning.at(pruning.from(0))
    }

    /// The pruning after what came of its step. What can't come of a step changes nothing.
    pub open spec fn after(self, event: RoundEvent) -> Pruning {
        match (self.step, event) {
            (PruneStep::Describe(i), RoundEvent::Done) => self.at(self.from(i + 1)),
            (PruneStep::Look(i), RoundEvent::There) => self.at(PruneStep::Remove(i)),
            (PruneStep::Look(i), RoundEvent::Missing) => self.at(PruneStep::Mark(i)),
            (PruneStep::Remove(i), RoundEvent::Done) => self.at(PruneStep::Mark(i)),
            (PruneStep::Mark(i), RoundEvent::Done) => Pruning {
                marked: (i + 1) as usize,
                ..self.at(self.from(i + 1))
            },
            (PruneStep::Over, _) => self,
            (_, RoundEvent::Failed) => self.at(PruneStep::Stopped),
            (_, _) => self,
        }
    }

    /// What holds of a pruning at every step: the replicas before its position were marked, the
    /// others were not, and a dry run marks none.
    pub open spec fn sound(self) -> bool {
        match self.step {
            PruneStep::Describe(i) => i < self.count && self.dry_run && self.marked == 0,
            PruneStep::Look(i) => i < self.count && !self.dry_run && self.marked == i,
            PruneStep::Remove(i) => i < self.count && !self.dry_run && self.marked == i,
            PruneStep::Mark(i) => i < self.count && !self.dry_run && self.marked == i,
            PruneStep::Over => self.marked == if self.dry_run {
                0
            } else {
                self.count
            },
            PruneStep::Stopped => self.marked <= self.count,
        }
    }

    fn go_on(&self, i: usize) -> (step: PruneStep)
        ensures
            step == self.from(i as int),
    {
        if i >= self.count {
            PruneStep::Over
        } else if self.dry_run {
            PruneStep::Describe(i)
        } else {
            PruneStep::Look(i)
        }
    }

    /// A pruning that has not started.
    pub fn start(count: usize, dry_run: bool) -> (pruning: Pruning)
        ensures
            pruning == Pruning::started(count, dry_run),
            pruning.sound(),
    {
        let mut pruning: Pruning = Pruning { step: PruneStep::Over, count, dry_run, marked: 0 };
        pruning.step = pruning.go_on(0);
        pruning
    }

    /// Takes in what came of the step.
    pub fn next(&mut self, event: RoundEvent)
        requires
            old(self).sound(),
        ensures
            *final(self) == old(self).after(event),
            final(self).sound(),
    {
        match (self.step, event) {
            (PruneStep::Describe(i), RoundEvent::Done) => {
                self.step = self.go_on(i + 1);
            },
            (PruneStep::Look(i), RoundEvent::There) => {
                self.step = PruneStep::Remove(i);
            },
            (PruneStep::Look(i), RoundEvent::Missing) => {
                self.step = PruneStep::Mark(i);
            },
            (PruneStep::Remove(i), RoundEvent::Done) => {
                self.step = PruneStep::Mark(i);
            },
            (PruneStep::Mark(i), RoundEvent::Done) => {
                self.marked = i + 1;
                self.step = self.go_on(i + 1);
            },
            (PruneStep::Over, _) => {},
            (_, RoundEvent::Failed) => {
                self.step = PruneStep::Stopped;
            },
            (_, _) => {},
        }
    }
}

/// A replica is marked as pruned only once it is known to be gone from the target: it was not
/// there, or it was deleted.
pub proof fn lemma_marked_only_when_gone(pruning: Pruning, event: RoundEvent, i: usize)
    requires
        pruning.after(event).step == PruneStep::Mark(i),
        pruning.step != PruneStep::Mark(i),
    ensures
        (pruning.step == PruneStep::Look(i) && event is Missing) || (pruning.step
            == PruneStep::Remove(i) && event is Done),
{
}

/// What going through the targets does now.
#[derive(Debug, Clone, Copy, PartialEq, Eq, Structural)]
pub enum SendStep {
    /// Reads the configuration of the target at this position.
    Configure(usize),
    /// Sends to the target at this position.
    Replicate(usize),
    /// Nothing: all targets were sent to.
    Over,
    /// Nothing: there is no target.
    NoTarget,
    /// Nothing: a target could not be configured.
    Refused,
    /// Nothing: all targets were tried, and this many failed.
    Failed(usize),
}

/// The targets, one after the other. A target that fails does not keep the others from being
/// sent to.
#[derive(Debug, Clone, Copy, PartialEq, Eq, Structural)]
pub struct Sending {
    pub step: SendStep,
    /// How many targets there are.
    pub count: usize,
    /// How many of them failed.
    pub failures: usize,
}

impl Sending {
    /// What is done about the targets from position `i` on.
    pub open spec fn from(self, i: int) -> SendStep {
        if i < self.count {
            SendStep::Configure(i as usize)
        } else if self.failures > 0 {
            SendStep::Failed(self.failures)
        } else {
            SendStep::Over
        }
    }

    /// The targets before the first one.
    pub open spec fn started(count: usize) -> Sending {
        Sending {
            step: if count == 0 {
                SendStep::NoTarget
            } else {
                SendStep::Configure(0)
            },
            count,
            failures: 0,
        }
    }

    /// The targets after what came of the step. What can't come of a step changes nothing.
    pub open spec fn after(self, event: RoundEvent) -> Sending {
        match (self.step, event) {
            (SendStep::Configure(i), RoundEvent::Done) => Sending {
                step: SendStep::Replicate(i),
                ..self
            },
            (SendStep::Configure(_), RoundEvent::Failed) => Sending {
                step: SendStep::Refused,
                ..self
            },
            (SendStep::Replicate(i), RoundEvent::Done) => Sending {
                step: self.from(i + 1),
                ..self
            },
            (SendStep::Replicate(i), RoundEvent::Failed) => {
                let counted = Sending { failures: (self.failures + 1) as usize, ..self };
                Sending { step: counted.from(i + 1), ..counted }
            },
            (_, _) => self,
        }
    }

    /// What holds at every step: no more targets failed than were tried.
    pub open spec fn sound(self) -> bool {
        match self.step {
            SendStep::Configure(i) => self.failures <= i < self.count,
            SendStep::Replicate(i) => self.failures <= i < self.count,
            SendStep::Over => self.failures == 0,
            SendStep::NoTarget => self.count == 0,
            SendStep::Refused => self.failures < self.count,
            SendStep::Failed(n) => n == self.failures && 0 < n <= self.count,
        }
    }

    fn go_on(&self, i: usize) -> (step: SendStep)
        ensures
            step == self.from(i as int),
    {
        if i < self.count {
            SendStep::Configure(i)
        } else if self.failures > 0 {
            SendStep::Failed(self.failures)
        } else {
            SendStep::Over
        }
    }

    /// The targets before the first one.
    pub fn start(count: usize) -> (sending: Sending)
        ensures
            sending == Sending::started(count),
            sending.sound(),
    {
        Sending {
            step: if count == 0 {
                SendStep::NoTarget
            } else {
                SendStep::Configure(0)
            },
            count,
            failures: 0,
        }
    }

    /// Takes in what came of the step.
    pub fn next(&mut self, event: RoundEvent)
        requires
            old(self).sound(),
        ensures
            *final(self) == old(self).after(event),
            final(self).sound(),
    {
        match (self.step, event) {
            (SendStep::Configure(i), RoundEvent::Done) => {
                self.step = SendStep::Replicate(i);
            },
            (SendStep::Configure(_), RoundEvent::Failed) => {
                self.step = SendStep::Refused;
            },
            (SendStep::Replicate(i), RoundEvent::Done) => {
                self.step = self.go_on(i + 1);
            },
            (SendStep::Replicate(i), RoundEvent::Failed) => {
                self.failures = self.failures + 1;
                self.step = self.go_on(i + 1);
            },
            (_, _) => {},
        }
    }
}

/// Going through the targets after everything that came of it, one event after the other.
pub open spec fn sent_through(sending: Sending, events: Seq<RoundEvent>) -> Sending
    decreases events.len(),
{
    if events.len() == 0 {
        sending
    } else {
        sent_through(sending, events.drop_last()).after(events.last())
    }
}

/// How many of the targets from position `i` on fail, where `fails` says which do.
pub open spec fn failing(i: int, count: int, fails: spec_fn(int) -> bool) -> nat
    decreases count - i,
{
    if i < 0 || i >= count {
        0
    } else {
        failing(i + 1, count, fails) + if fails(i) {
            1nat
        } else {
            0nat
        }
    }
}

/// What comes of the targets from position `i` on, where `fails` says which of them fail.
pub open spec fn results(i: int, count: int, fails: spec_fn(int) -> bool) -> Seq<RoundEvent>
    decreases count - i,
{
    if i < 0 || i >= count {
        Seq::empty()
    } else {
        seq![
            RoundEvent::Done,
            if fails(i) {
                RoundEvent::Failed
            } else {
                RoundEvent::Done
            },
        ] + results(i + 1, count, fails)
    }
}

proof fn lemma_sent_in_parts(sending: Sending, first: Seq<RoundEvent>, second: Seq<RoundEvent>)
    ensures
        sent_through(sending, first + second) == sent_through(sent_through(sending, first), second),
    decreases second.len(),
{
    let all = first + second;
    if second.len() == 0 {
        assert(all =~= first);
    } else {
        assert(all.drop_last() =~= first + second.drop_last());
        assert(all.last() == second.last());
        lemma_sent_in_parts(sending, first, second.drop_last());
    }
}

/// Every target is tried, whichever of the others fail, and the number of those that failed is
/// what is reported.
pub proof fn lemma_every_target_is_tried(sending: Sending, i: int, fails: spec_fn(int) -> bool)
    requires
        0 <= i <= sending.count,
        sending.step == sending.from(i),
        sending.failures <= i,
    ensures
        ({
            let all = sending.failures + failing(i, sending.count as int, fails);
            sent_through(sending, results(i, sending.count as int, fails)) == (Sending {
                step: if all > 0 {
                    SendStep::Failed(all as usize)
                } else {
                    SendStep::Over
                },
                failures: all as usize,
                ..sending
            })
        }),
    decreases sending.count - i,
{
    if i < sending.count {
        let event = if fails(i) {
            RoundEvent::Failed
        } else {
            RoundEvent::Done
        };
        let counted = Sending {
            failures: (sending.failures + if fails(i) {
                1int
            } else {
                0int
            }) as usize,
            ..sending
        };
        let on = Sending { step: counted.from(i + 1), ..counted };
        let steps = seq![RoundEvent::Done, event];
        let rest = results(i + 1, sending.count as int, fails);
        assert(steps.drop_last() =~= seq![RoundEvent::Done]);
        assert(seq![RoundEvent::Done].drop_last() =~= Seq::<RoundEvent>::empty());
        reveal_with_fuel(sent_through, 3);
        assert(sent_through(sending, steps) == on);
        lemma_sent_in_parts(sending, steps, rest);
        lemma_every_target_is_tried(on, i + 1, fails);
    }
}

/// What is said when there is no target.
pub fn no_target_message() -> (message: String)
    ensures
        message@
            == "no replication target: add a [[replicate]] section to the configuration file or pass --target"@,
{
    "no replication target: add a [[replicate]] section to the configuration file or pass --target".to_owned()
}

/// What is said when targets failed.
pub fn failed_targets_message(failures: usize) -> (message: String)
    ensures
        message@ == "replication to "@ + numeral(failures as nat) + " target(s) failed"@,
{
    let count: String = decimal(failures as u64);
    "replication to ".to_owned().concat(count.as_str()).concat(" target(s) failed")
}

} // verus!
