//! How sending goes, step by step and for everything that can happen on the way.
use crate::database::{prune_rows, read_replica, Tables, TrackedReplica};
use crate::delivery::{course_of, usable, Course, Fault, Seen, Step};
use crate::excludes::Excluded;
use crate::order::lemma_wanted;
use crate::replication::Identity;
use crate::retention::{lemma_leaving_is_pruned, lemma_pruned_is_leaving};
use crate::sending::{
    leaving, unsent, PruneStep, Pruning, Round, RoundEvent, RoundStep, SendStep, Sending,
};
use crate::structs::{Replica, Snapshot};
use crate::transfer::{receive_command, send_command, Pipe, PipeEvent, PipeFault, PipeStage};
use vstd::prelude::*;

verus! {

/// What is to be sent are the snapshots whose names were not sent.
pub proof fn lemma_what_is_unsent(
    pending: Seq<Snapshot>,
    done: Seq<Seq<char>>,
    snapshot: Snapshot,
)
    ensures
        pending.filter(unsent(done)).contains(snapshot) <==> pending.contains(snapshot) && forall|
            i: int,
        |
            0 <= i < done.len() ==> #[trigger] done[i] != snapshot.name,
{
    lemma_wanted(pending, unsent(done));
    if done.contains(snapshot.name) {
        let i = choose|i: int| 0 <= i < done.len() && done[i] == snapshot.name;
        assert(done[i] == snapshot.name);
    }
    if !(forall|i: int| 0 <= i < done.len() ==> #[trigger] done[i] != snapshot.name) {
        let i = choose|i: int| 0 <= i < done.len() && #[trigger] done[i] == snapshot.name;
        assert(done.contains(done[i]));
    }
}

/// A delivery begins with the filtered copy if there is one to make, and then reads what is sent
/// and looks for it at the target. What is there already and comes from what is sent is recorded
/// without a parent, and anything else that is there is deleted before the send.
pub proof fn lemma_start_of_a_delivery(
    name: Seq<char>,
    excluded: Option<Excluded>,
    source: Identity,
    there: Identity,
)
    ensures
        course_of(name, true).step == Step::Filter,
        course_of(name, true).after(Seen::Filtered(excluded)).excluded == excluded,
        course_of(name, false).step == Step::InspectSource,
        course_of(name, true).after(Seen::Filtered(excluded)) == (Course {
            excluded,
            ..course_of(name, false)
        }),
        ({
            let a = course_of(name, false).after(Seen::Shown(source));
            let b = a.after(Seen::There);
            let c = b.after(Seen::Shown(there));
            &&& a.step == Step::LookForReplica
            &&& a.name == name
            &&& a.source == Some(source)
            &&& a.after(Seen::Missing).step == Step::ListParents
            &&& b.step == Step::InspectReplica
            &&& c.step == if there.received_uuid == Some(source.uuid) {
                Step::Record(None)
            } else {
                Step::RemoveReplica
            }
            &&& !(there.received_uuid == Some(source.uuid)) ==> c.after(Seen::Done).step
                == Step::ListParents && c.after(Seen::Failed).step == Step::Failed(Fault::Stopped)
            &&& course_of(name, true).after(Seen::Failed).step == Step::Failed(Fault::Stopped)
            &&& course_of(name, false).after(Seen::Failed).step == Step::Failed(Fault::Stopped)
            &&& a.after(Seen::Failed).step == Step::Failed(Fault::Stopped)
            &&& b.after(Seen::Failed).step == Step::Failed(Fault::Stopped)
        }),
{
}

proof fn lemma_next_candidate(course: Course, i: int, k: int)
    requires
        0 <= i <= k <= course.parents.len() <= usize::MAX,
        forall|j: int| i <= j < k ==> (#[trigger] course.parents[j]).name == course.name,
        k < course.parents.len() ==> course.parents[k].name != course.name,
    ensures
        course.considering(i) == if k < course.parents.len() {
            Step::LookHere(k as usize)
        } else {
            Step::Send(None)
        },
    decreases k - i,
{
    if i < k {
        assert(course.parents[i].name == course.name);
        lemma_next_candidate(course, i + 1, k);
    }
}

/// The replicas that a send could start from are looked at in their order, without the snapshot
/// itself: the first other one comes first, and with no other one everything is sent.
pub proof fn lemma_first_parent(course: Course, list: Seq<Replica>, k: int)
    requires
        course.step is ListParents,
        0 <= k <= list.len() <= usize::MAX,
        forall|j: int| 0 <= j < k ==> (#[trigger] list[j]).name == course.name,
        k < list.len() ==> list[k].name != course.name,
    ensures
        course.after(Seen::Parents(list)).parents == list,
        course.after(Seen::Parents(list)).step == if k < list.len() {
            Step::LookHere(k as usize)
        } else {
            Step::Send(None)
        },
        course.after(Seen::Failed).step == Step::Failed(Fault::Stopped),
{
    let listed = Course { parents: list, ..course };
    lemma_next_candidate(listed, 0, k);
}

/// A replica is sent from if it is here and there. If it is not here the next one is looked at, and
/// if it is here and not there it is forgotten before.
pub proof fn lemma_next_parent(course: Course, i: usize, k: int)
    requires
        i < k <= course.parents.len() <= usize::MAX,
        forall|j: int| i < j < k ==> (#[trigger] course.parents[j]).name == course.name,
        k < course.parents.len() ==> course.parents[k].name != course.name,
    ensures
        ({
            let next = if k < course.parents.len() {
                Step::LookHere(k as usize)
            } else {
                Step::Send(None)
            };
            &&& course.step == Step::LookHere(i) ==> {
                &&& course.after(Seen::There).step == Step::LookThere(i)
                &&& course.after(Seen::Missing).step == next
                &&& course.after(Seen::Failed).step == Step::Failed(Fault::Stopped)
            }
            &&& course.step == Step::LookThere(i) ==> {
                &&& course.after(Seen::There).step == Step::Send(Some(i))
                &&& course.after(Seen::Missing).step == Step::Forget(i)
                &&& course.after(Seen::Missing).after(Seen::Done).step == next
                &&& course.after(Seen::Missing).after(Seen::Failed).step == Step::Failed(
                    Fault::Stopped,
                )
                &&& course.after(Seen::Failed).step == Step::Failed(Fault::Stopped)
            }
        }),
{
    lemma_next_candidate(course, i + 1, k);
    let forgetting = course.at(Step::Forget(i));
    lemma_next_candidate(forgetting, i + 1, k);
}

/// The replica that is sent from is the first one that has another name than the snapshot and is
/// both here and there.
pub proof fn lemma_usable_parents(
    course: Course,
    i: int,
    here: spec_fn(int) -> bool,
    there: spec_fn(int) -> bool,
)
    requires
        0 <= i <= course.parents.len(),
    ensures
        match usable(course, i, here, there) {
            Some(k) => {
                &&& i <= k < course.parents.len()
                &&& course.parents[k].name != course.name && here(k) && there(k)
                &&& forall|j: int|
                    i <= j < k ==> (#[trigger] course.parents[j]).name == course.name || !here(j)
                        || !there(j)
            },
            None => forall|j: int|
                i <= j < course.parents.len() ==> (#[trigger] course.parents[j]).name == course.name
                    || !here(j) || !there(j),
        },
    decreases course.parents.len() - i,
{
    if i < course.parents.len() {
        lemma_usable_parents(course, i + 1, here, there);
    }
}

/// What arrived is recorded, with the replica that it was sent from, if and only if it comes from
/// what was sent. What is left of a send that failed or arrived as something else is deleted at the
/// target, and the failure is reported whatever becomes of that.
pub proof fn lemma_end_of_a_delivery(
    course: Course,
    parent: Option<usize>,
    source: Identity,
    received: Identity,
    event: Seen,
)
    requires
        course.step == Step::Send(parent),
        course.source == Some(source),
    ensures
        ({
            let a = course.after(Seen::Done);
            let b = a.after(Seen::Shown(received));
            let fits = received.received_uuid == Some(source.uuid);
            &&& a.step == Step::InspectReceived(parent)
            &&& a.after(Seen::Failed).step == Step::Failed(Fault::NotVerified)
            &&& b.step == if fits {
                Step::Record(parent)
            } else {
                Step::LookForPartial(Fault::Mismatch)
            }
            &&& b.received == Some(received)
            &&& fits ==> b.after(Seen::Done).step == Step::Recorded && b.after(Seen::Failed).step
                == Step::Failed(Fault::Stopped)
            &&& course.after(Seen::Failed).step == Step::LookForPartial(Fault::NotSent)
        }),
{
}

/// What arrived is verified if and only if both its identity and that of what was sent were read and
/// the one comes from the other.
pub proof fn lemma_verified_deliveries(course: Course)
    ensures
        course.source is None || course.received is None ==> !course.verified(),
        course.source matches Some(source) ==> course.received matches Some(received) ==> (
        course.verified() <==> received.received_uuid == Some(source.uuid)),
        course_of(course.name, true).source is None,
        course_of(course.name, true).received is None,
        course_of(course.name, true).parents.len() == 0,
        course_of(course.name, true).excluded is None,
        course_of(course.name, true).name == course.name,
{
}

/// What is left of a failed send is deleted if it is there. The failure is what is reported in the
/// end, and an end stays.
pub proof fn lemma_what_is_left_is_deleted(course: Course, fault: Fault, event: Seen)
    ensures
        course.step == Step::LookForPartial(fault) ==> {
            &&& course.after(Seen::There).step == Step::RemovePartial(fault)
            &&& course.after(Seen::There).after(event).step == Step::Failed(fault)
            &&& course.after(Seen::Missing).step == Step::Failed(fault)
            &&& course.after(Seen::Failed).step == Step::Failed(fault)
        },
        course.step is Recorded ==> course.after(event) == course,
        course.step == Step::Failed(fault) ==> course.after(event) == course,
        course.after(event).name == course.name,
{
}

/// A round looks for the directory at the target, unless it is a dry run, and says so if there is
/// nothing to send. Without the directory nothing is sent.
pub proof fn lemma_start_of_a_round(count: usize, prunes: bool)
    ensures
        ({
            let a = Round::started(count, false, prunes);
            let dry = Round::started(count, true, prunes);
            &&& a.step == RoundStep::LookForDirectory
            &&& a.count == count && a.prunes == prunes && !a.dry_run
            &&& dry.count == count && dry.prunes == prunes && dry.dry_run
            &&& a.after(RoundEvent::Missing).step == RoundStep::NoDirectory
            &&& a.after(RoundEvent::Failed).step == RoundStep::Stopped
            &&& count > 0 ==> {
                &&& a.after(RoundEvent::There).step == RoundStep::Look(0)
                &&& dry.step == RoundStep::Look(0)
            }
            &&& count == 0 ==> {
                &&& a.after(RoundEvent::There).step == RoundStep::SayNothing
                &&& dry.step == RoundStep::SayNothing
                &&& a.after(RoundEvent::There).after(RoundEvent::Done).step == if prunes {
                    RoundStep::Prune
                } else {
                    RoundStep::Over
                }
                &&& dry.after(RoundEvent::Done).step == if prunes {
                    RoundStep::Prune
                } else {
                    RoundStep::Over
                }
            }
        }),
{
}

/// Each snapshot of a round is looked for and delivered, or it is said that it would be. One that is
/// missing is passed over, and a delivery that fails ends the round. Behind the last one the
/// retention is applied, if the target has one.
pub proof fn lemma_snapshots_of_a_round(round: Round, i: usize, event: RoundEvent)
    requires
        i < round.count,
        round.step == RoundStep::Look(i),
    ensures
        ({
            let next = if i + 1 < round.count {
                RoundStep::Look((i + 1) as usize)
            } else if round.prunes {
                RoundStep::Prune
            } else {
                RoundStep::Over
            };
            let a = round.after(RoundEvent::There);
            &&& a.step == if round.dry_run {
                RoundStep::Describe(i)
            } else {
                RoundStep::Deliver(i)
            }
            &&& a.after(RoundEvent::Done).step == next
            &&& a.after(RoundEvent::Failed).step == RoundStep::Stopped
            &&& round.after(RoundEvent::Missing).step == next
            &&& round.after(RoundEvent::Failed).step == RoundStep::Stopped
            &&& a.count == round.count && a.prunes == round.prunes && a.dry_run == round.dry_run
            &&& round.at(RoundStep::Prune).after(RoundEvent::Done).step == RoundStep::Over
            &&& round.at(RoundStep::Prune).after(RoundEvent::Failed).step == RoundStep::Stopped
            &&& round.at(RoundStep::Over).after(event).step == RoundStep::Over
            &&& round.at(RoundStep::NoDirectory).after(event).step == RoundStep::NoDirectory
            &&& round.at(RoundStep::Stopped).after(event).step == RoundStep::Stopped
        }),
{
}

/// Where a retention is before the replica at a position.
pub open spec fn before_replica(pruning: Pruning, i: int) -> PruneStep {
    if i >= pruning.count {
        PruneStep::Over
    } else if pruning.dry_run {
        PruneStep::Describe(i as usize)
    } else {
        PruneStep::Look(i as usize)
    }
}

/// Every replica that leaves is looked for, deleted if it is there, and marked, whether or not it
/// was there; and then comes the next one. A failure ends this, and what is marked stays marked. A
/// dry run says of each one that it would leave.
pub proof fn lemma_replicas_that_leave(pruning: Pruning, i: usize, event: RoundEvent)
    requires
        i < pruning.count,
        pruning.step == before_replica(pruning, i as int),
    ensures
        Pruning::started(pruning.count, pruning.dry_run) == (Pruning {
            step: before_replica(pruning, 0),
            marked: 0,
            ..pruning
        }),
        !pruning.dry_run ==> {
            let a = pruning.after(RoundEvent::There);
            let b = pruning.after(RoundEvent::Missing);
            let stopped = Pruning { step: PruneStep::Stopped, ..pruning };
            &&& a.step == PruneStep::Remove(i)
            &&& a.after(RoundEvent::Done) == b
            &&& b.step == PruneStep::Mark(i)
            &&& b.after(RoundEvent::Done) == (Pruning {
                step: before_replica(pruning, i + 1),
                marked: (i + 1) as usize,
                ..pruning
            })
            &&& pruning.after(RoundEvent::Failed) == stopped
            &&& a.after(RoundEvent::Failed) == stopped
            &&& b.after(RoundEvent::Failed) == stopped
            &&& stopped.after(event) == stopped
        },
        pruning.dry_run ==> {
            &&& pruning.after(RoundEvent::Done) == (Pruning {
                step: before_replica(pruning, i + 1),
                ..pruning
            })
            &&& pruning.after(RoundEvent::Failed).step == PruneStep::Stopped
        },
        ({
            let over = Pruning { step: PruneStep::Over, ..pruning };
            over.after(event) == over
        }),
{
}

/// What leaves a target are the replicas beyond the kept ones, kind by kind.
pub proof fn lemma_what_leaves(
    tables: Tables,
    target: Seq<char>,
    prefix: Seq<char>,
    machine: Seq<char>,
    keep: nat,
    kinds: Seq<Seq<char>>,
    replica: Replica,
)
    ensures
        leaving(tables, target, prefix, machine, keep, kinds, kinds.len()).contains(replica)
            <==> exists|m: int, row: TrackedReplica|
            #![trigger prune_rows(tables, target, prefix, kinds[m], machine, keep).contains(row)]
            0 <= m < kinds.len() && prune_rows(
                tables,
                target,
                prefix,
                kinds[m],
                machine,
                keep,
            ).contains(row) && replica == read_replica(row.record),
{
    let list = leaving(tables, target, prefix, machine, keep, kinds, kinds.len());
    if list.contains(replica) {
        let j = choose|j: int| 0 <= j < list.len() && list[j] == replica;
        let found = lemma_leaving_is_pruned(
            tables,
            target,
            prefix,
            machine,
            keep,
            kinds,
            kinds.len(),
            j,
        );
        assert(prune_rows(tables, target, prefix, kinds[found.0], machine, keep).contains(found.1));
    }
    if exists|m: int, row: TrackedReplica|
        #![trigger prune_rows(tables, target, prefix, kinds[m], machine, keep).contains(row)]
        0 <= m < kinds.len() && prune_rows(
            tables,
            target,
            prefix,
            kinds[m],
            machine,
            keep,
        ).contains(row) && replica == read_replica(row.record) {
        let (m, row) = choose|m: int, row: TrackedReplica|
            #![trigger prune_rows(tables, target, prefix, kinds[m], machine, keep).contains(row)]
            0 <= m < kinds.len() && prune_rows(
                tables,
                target,
                prefix,
                kinds[m],
                machine,
                keep,
            ).contains(row) && replica == read_replica(row.record);
        let j = lemma_pruned_is_leaving(
            tables,
            target,
            prefix,
            machine,
            keep,
            kinds,
            kinds.len(),
            m,
            row,
        );
        assert(list[j] == replica);
    }
}

/// Where sending is before the target at a position.
pub open spec fn before_target(sending: Sending, i: int) -> SendStep {
    if i < sending.count {
        SendStep::Configure(i as usize)
    } else if sending.failures > 0 {
        SendStep::Failed(sending.failures)
    } else {
        SendStep::Over
    }
}

/// Every target is configured and sent to. One that fails is counted, and the next one is tried all
/// the same; one that can't be configured ends the run. In the end the failures are reported.
pub proof fn lemma_targets_of_a_run(sending: Sending, i: usize, event: RoundEvent)
    requires
        i < sending.count,
        sending.failures <= i,
        sending.step == SendStep::Configure(i),
    ensures
        Sending::started(0).step == SendStep::NoTarget,
        Sending::started(sending.count) == (Sending {
            step: SendStep::Configure(0),
            failures: 0,
            ..sending
        }),
        ({
            let a = sending.after(RoundEvent::Done);
            let counted = Sending { failures: (sending.failures + 1) as usize, ..sending };
            &&& a == (Sending { step: SendStep::Replicate(i), ..sending })
            &&& sending.after(RoundEvent::Failed) == (Sending { step: SendStep::Refused, ..sending })
            &&& a.after(RoundEvent::Done) == (Sending {
                step: before_target(sending, i + 1),
                ..sending
            })
            &&& a.after(RoundEvent::Failed) == (Sending {
                step: before_target(counted, i + 1),
                ..counted
            })
            &&& a.after(RoundEvent::Failed).failures == sending.failures + 1
        }),
        Sending::started(0).after(event) == Sending::started(0),
{
}

/// The subvolume is sent alone, or with the one to start from named before it.
pub proof fn lemma_sending_commands(snapshot: Seq<char>, parent: Seq<char>, dir: Seq<char>)
    ensures
        send_command(snapshot, None) == seq!["send"@, snapshot],
        send_command(snapshot, Some(parent)) == seq!["send"@, "-p"@, parent, snapshot],
        receive_command(dir) == seq!["btrfs"@, "receive"@, dir],
{
}

/// The sending process is started first. If the receiving one can't be started it is abandoned.
pub proof fn lemma_start_of_a_transfer(syncs: bool, event: PipeEvent)
    ensures
        ({
            let a = Pipe::started(syncs);
            let b = a.after(PipeEvent::Done);
            let c = b.after(PipeEvent::Done);
            &&& a.stage == PipeStage::StartSend
            &&& a.bytes == 0 && !a.read_failed && !a.write_failed && a.syncs == syncs
            &&& !a.send_ok && !a.receive_ok
            &&& a.after(PipeEvent::Failed).stage == PipeStage::Failed(PipeFault::SendNotStarted)
            &&& b.stage == PipeStage::StartReceive
            &&& b.after(PipeEvent::Failed).stage == PipeStage::Abandon
            &&& b.after(PipeEvent::Failed).after(event).stage == PipeStage::Failed(
                PipeFault::ReceiveNotStarted,
            )
            &&& c == (Pipe { stage: PipeStage::Read, ..a })
        }),
{
}

/// What is read is written and counted, until nothing more is read or one of these fails. Then the
/// receiving process gets the end of its input, and both are waited for.
pub proof fn lemma_copying_of_a_transfer(pipe: Pipe, n: usize, event: PipeEvent)
    requires
        pipe.stage is Read,
        n > 0,
        pipe.bytes + n <= u64::MAX,
    ensures
        ({
            let a = pipe.after(PipeEvent::Bytes(n));
            let close = Pipe { stage: PipeStage::Close, ..pipe };
            &&& a == (Pipe { stage: PipeStage::Write(n), ..pipe })
            &&& a.after(PipeEvent::Done) == (Pipe { bytes: (pipe.bytes + n) as u64, ..pipe })
            &&& a.after(PipeEvent::Failed) == (Pipe { write_failed: true, ..close })
            &&& pipe.after(PipeEvent::Bytes(0)) == close
            &&& pipe.after(PipeEvent::Failed) == (Pipe { read_failed: true, ..close })
            &&& close.after(event) == (Pipe { stage: PipeStage::WaitSend, ..pipe })
            &&& close.kills() <==> pipe.read_failed || pipe.write_failed
        }),
{
}

/// A transfer is complete if and only if everything was read and written and both processes ended
/// well. What is reported otherwise is the receiving process if it failed and what was to be written
/// did not reach it, then the sending one, then the receiving one, and only with both of them well
/// the writing and the reading.
pub proof fn lemma_end_of_a_transfer(pipe: Pipe, sent: bool, received: bool, event: PipeEvent)
    requires
        pipe.stage is WaitSend,
    ensures
        ({
            let a = pipe.after(PipeEvent::Ended(sent));
            let b = a.after(PipeEvent::Ended(received));
            &&& a.stage == PipeStage::WaitReceive
            &&& pipe.after(PipeEvent::Failed).stage == PipeStage::Failed(PipeFault::SendNotWaited)
            &&& a.after(PipeEvent::Failed).stage == PipeStage::Failed(PipeFault::ReceiveNotWaited)
            &&& b.bytes == pipe.bytes
            &&& !received && (pipe.write_failed || sent) ==> b.stage == PipeStage::Failed(
                PipeFault::ReceiveFailed,
            )
            &&& !sent && !(pipe.write_failed && !received) ==> b.stage == PipeStage::Failed(
                PipeFault::SendFailed,
            )
            &&& sent && received && pipe.write_failed ==> b.stage == PipeStage::Failed(
                PipeFault::WriteFailed,
            )
            &&& sent && received && !pipe.write_failed && pipe.read_failed ==> b.stage
                == PipeStage::Failed(PipeFault::ReadFailed)
            &&& sent && received && !pipe.write_failed && !pipe.read_failed ==> {
                &&& pipe.syncs ==> b.stage == PipeStage::Sync && b.after(event).stage
                    == PipeStage::Complete && b.after(event).bytes == pipe.bytes
                &&& !pipe.syncs ==> b.stage == PipeStage::Complete && b.after(event) == b
            }
        }),
{
}

/// An answer to another question than the one that was asked changes nothing of a delivery.
pub proof fn lemma_other_answers_to_a_delivery(course: Course, event: Seen)
    requires
        !(event is Failed),
    ensures
        course.step is Filter && !(event is Filtered) ==> course.after(event) == course,
        course.step is InspectSource && !(event is Shown) ==> course.after(event) == course,
        course.step is LookForReplica && !(event is There) && !(event is Missing) ==> course.after(
            event,
        ) == course,
        course.step is InspectReplica && !(event is Shown) ==> course.after(event) == course,
        course.step is RemoveReplica && !(event is Done) ==> course.after(event) == course,
        course.step is ListParents && !(event is Parents) ==> course.after(event) == course,
        course.step is LookHere && !(event is There) && !(event is Missing) ==> course.after(event)
            == course,
        course.step is LookThere && !(event is There) && !(event is Missing) ==> course.after(event)
            == course,
        course.step is Forget && !(event is Done) ==> course.after(event) == course,
        course.step is Send && !(event is Done) ==> course.after(event) == course,
        course.step is InspectReceived && !(event is Shown) ==> course.after(event) == course,
        course.step is Record && !(event is Done) ==> course.after(event) == course,
{
}

/// What a delivery knows it keeps: the name always, what was removed from the copy once that is
/// filtered, what is sent once that is read, and the replicas that it could start from once they are
/// listed. What was read last at the target changes with the next reading there.
pub proof fn lemma_what_a_delivery_knows(course: Course, event: Seen)
    ensures
        course.after(event).name == course.name,
        !(course.step is Filter) ==> course.after(event).excluded == course.excluded,
        !(course.step is InspectSource) ==> course.after(event).source == course.source,
        !(course.step is InspectReplica) && !(course.step is InspectReceived) ==> course.after(
            event,
        ).received == course.received,
        !(course.step is ListParents) ==> course.after(event).parents == course.parents,
        course.step is InspectReplica || course.step is InspectReceived ==> (event matches Seen::Shown(
            info,
        ) ==> course.after(event).received == Some(info)),
{
}

/// An answer to another question than the one that was asked changes nothing of a round, a
/// retention, a run or a transfer, and none of them changes what it was given.
pub proof fn lemma_other_answers_to_a_round(
    round: Round,
    pruning: Pruning,
    sending: Sending,
    event: RoundEvent,
)
    ensures
        round.after(event).count == round.count,
        round.after(event).dry_run == round.dry_run,
        round.after(event).prunes == round.prunes,
        pruning.after(event).count == pruning.count,
        pruning.after(event).dry_run == pruning.dry_run,
        !(pruning.step is Mark) ==> pruning.after(event).marked == pruning.marked,
        sending.after(event).count == sending.count,
        !(sending.step is Replicate) ==> sending.after(event).failures == sending.failures,
        !(event is Failed) ==> {
            &&& round.step is LookForDirectory && !(event is There) && !(event is Missing)
                ==> round.after(event) == round
            &&& round.step is Look && !(event is There) && !(event is Missing) ==> round.after(event)
                == round
            &&& (round.step is SayNothing || round.step is Describe || round.step is Deliver
                || round.step is Prune) && !(event is Done) ==> round.after(event) == round
            &&& pruning.step is Look && !(event is There) && !(event is Missing) ==> pruning.after(
                event,
            ) == pruning
            &&& (pruning.step is Describe || pruning.step is Remove || pruning.step is Mark) && !(
            event is Done) ==> pruning.after(event) == pruning
            &&& !(event is Done) ==> sending.after(event) == sending
        },
        sending.step is Over || sending.step is NoTarget || sending.step is Refused
            || sending.step is Failed ==> sending.after(event) == sending,
{
}

/// An answer to another question than the one that was asked changes nothing of a transfer, and an
/// end stays.
pub proof fn lemma_other_answers_to_a_transfer(pipe: Pipe, event: PipeEvent)
    ensures
        pipe.after(event).syncs == pipe.syncs,
        !(pipe.stage is Write) ==> pipe.after(event).bytes == pipe.bytes,
        pipe.read_failed ==> pipe.after(event).read_failed,
        pipe.write_failed ==> pipe.after(event).write_failed,
        !(pipe.stage is Read) ==> pipe.after(event).read_failed == pipe.read_failed,
        !(pipe.stage is Write) ==> pipe.after(event).write_failed == pipe.write_failed,
        !(pipe.stage is WaitSend) ==> pipe.after(event).send_ok == pipe.send_ok,
        pipe.stage is WaitSend ==> (event matches PipeEvent::Ended(ok) ==> pipe.after(event).send_ok
            == ok),
        pipe.stage is WaitReceive ==> (event matches PipeEvent::Ended(ok) ==> pipe.after(
            event,
        ).receive_ok == ok),
        (pipe.stage is StartSend || pipe.stage is StartReceive || pipe.stage is Write) && !(
        event is Done) && !(event is Failed) ==> pipe.after(event) == pipe,
        pipe.stage is Read && !(event is Bytes) && !(event is Failed) ==> pipe.after(event) == pipe,
        (pipe.stage is WaitSend || pipe.stage is WaitReceive) && !(event is Ended) && !(
        event is Failed) ==> pipe.after(event) == pipe,
        pipe.stage is Complete || pipe.stage is Failed ==> pipe.after(event) == pipe,
{
}

} // verus!
