//! Sending one snapshot to one target.
//!
//! A [`Delivery`] decides what happens next. Whoever runs it does what its step says, here and at
//! the target, and reports what came of it.
use crate::excludes::Excluded;
use crate::order::views;
use crate::replication::{record, Identity, Replication, SubvolumeInfo};
use crate::structs::{Replica, ReplicaRecord, SnapshotRecord};
use crate::text::same_text;
use vstd::prelude::*;

verus! {

/// What a delivery does now.
#[derive(Debug, Clone, Copy, PartialEq, Eq, Structural)]
pub enum Step {
    /// Builds or finds the filtered copy that is sent in place of the snapshot.
    Filter,
    /// Reads the identity of what is sent.
    InspectSource,
    /// Looks for a replica at the target.
    LookForReplica,
    /// Reads the identity of the replica at the target.
    InspectReplica,
    /// Deletes the replica at the target, which is not a complete one.
    RemoveReplica,
    /// Lists the replicas that the send could start from.
    ListParents,
    /// Looks here for the subvolume that the listed replica at this position was sent from.
    LookHere(usize),
    /// Looks at the target for the listed replica at this position.
    LookThere(usize),
    /// Forgets the listed replica at this position, which is gone from the target.
    Forget(usize),
    /// Sends, starting from the listed replica at this position or from nothing.
    Send(Option<usize>),
    /// Reads the identity of what arrived.
    InspectReceived(Option<usize>),
    /// Looks at the target for what is left of a send that failed.
    LookForPartial(Fault),
    /// Deletes what is left of a send that failed.
    RemovePartial(Fault),
    /// Records the replica, with the listed replica at this position as its parent.
    Record(Option<usize>),
    /// Nothing: the replica is recorded.
    Recorded,
    /// Nothing: the delivery failed.
    Failed(Fault),
}

/// Why a delivery failed.
#[derive(Debug, Clone, Copy, PartialEq, Eq, Structural)]
pub enum Fault {
    /// Something on the way could not be done.
    Stopped,
    /// The send failed.
    NotSent,
    /// The identity of what arrived could not be read.
    NotVerified,
    /// What arrived is not what was sent.
    Mismatch,
}

/// What came of a step.
#[derive(Debug, Clone, PartialEq, Eq)]
pub enum Event {
    /// It was done.
    Done,
    /// It could not be done.
    Failed,
    /// What was looked for is there.
    There,
    /// What was looked for is not there.
    Missing,
    /// The identity that was read.
    Shown(SubvolumeInfo),
    /// The replicas that the send could start from, newest first.
    Parents(Vec<ReplicaRecord>),
    /// The filtered copy is ready: what was removed from it, unless it was there already.
    Filtered(Option<Excluded>),
}

/// What came of a step, as text.
pub enum Seen {
    Done,
    Failed,
    There,
    Missing,
    Shown(Identity),
    Parents(Seq<Replica>),
    Filtered(Option<Excluded>),
}

impl View for Event {
    type V = Seen;

    open spec fn view(&self) -> Seen {
        match self {
            Event::Done => Seen::Done,
            Event::Failed => Seen::Failed,
            Event::There => Seen::There,
            Event::Missing => Seen::Missing,
            Event::Shown(info) => Seen::Shown(info@),
            Event::Parents(list) => Seen::Parents(views(list@)),
            Event::Filtered(excluded) => Seen::Filtered(*excluded),
        }
    }
}

/// Sending one snapshot to one target.
#[derive(Debug, Clone, PartialEq, Eq)]
pub struct Delivery {
    pub step: Step,
    /// The name of the snapshot.
    pub name: String,
    /// The identity of what is sent, once it is known.
    pub source: Option<SubvolumeInfo>,
    /// The identity that was last read at the target.
    pub received: Option<SubvolumeInfo>,
    /// The replicas that the send could start from, newest first.
    pub parents: Vec<ReplicaRecord>,
    /// What was removed from the filtered copy, if it was built.
    pub excluded: Option<Excluded>,
}

/// Sending one snapshot to one target, as text.
#[verifier::ext_equal]
pub struct Course {
    pub step: Step,
    pub name: Seq<char>,
    pub source: Option<Identity>,
    pub received: Option<Identity>,
    pub parents: Seq<Replica>,
    pub excluded: Option<Excluded>,
}

/// The identity, as text, if there is one.
pub open spec fn identity(info: Option<SubvolumeInfo>) -> Option<Identity> {
    match info {
        Some(info) => Some(info@),
        None => None,
    }
}

impl View for Delivery {
    type V = Course;

    open spec fn view(&self) -> Course {
        Course {
            step: self.step,
            name: self.name@,
            source: identity(self.source),
            received: identity(self.received),
            parents: views(self.parents@),
            excluded: self.excluded,
        }
    }
}

impl Course {
    /// Whether what was last read at the target was received from what is sent.
    pub open spec fn verified(self) -> bool {
        match (self.source, self.received) {
            (Some(source), Some(received)) => received.comes_from(source),
            (_, _) => false,
        }
    }

    /// The next listed replica from position `i` on that is not of the snapshot itself.
    pub open spec fn candidate(self, i: int) -> Option<int>
        decreases self.parents.len() - i,
    {
        if i < 0 || i >= self.parents.len() {
            None
        } else if self.parents[i].name != self.name {
            Some(i)
        } else {
            self.candidate(i + 1)
        }
    }

    /// What is done about the listed replicas from position `i` on: the next one is looked for,
    /// and with none left the send starts from nothing.
    pub open spec fn considering(self, i: int) -> Step {
        match self.candidate(i) {
            Some(k) => Step::LookHere(k as usize),
            None => Step::Send(None),
        }
    }

    /// The delivery at another step.
    pub open spec fn at(self, step: Step) -> Course {
        Course { step, ..self }
    }

    /// The delivery after what came of its step. What can't come of a step changes nothing.
    pub open spec fn after(self, event: Seen) -> Course {
        match (self.step, event) {
            (Step::Filter, Seen::Filtered(excluded)) => Course {
                excluded,
                ..self.at(Step::InspectSource)
            },
            (Step::InspectSource, Seen::Shown(info)) => Course {
                source: Some(info),
                ..self.at(Step::LookForReplica)
            },
            (Step::LookForReplica, Seen::There) => self.at(Step::InspectReplica),
            (Step::LookForReplica, Seen::Missing) => self.at(Step::ListParents),
            (Step::InspectReplica, Seen::Shown(info)) => {
                let seen = Course { received: Some(info), ..self };
                if seen.verified() {
                    seen.at(Step::Record(None))
                } else {
                    seen.at(Step::RemoveReplica)
                }
            },
            (Step::RemoveReplica, Seen::Done) => self.at(Step::ListParents),
            (Step::ListParents, Seen::Parents(list)) => {
                let listed = Course { parents: list, ..self };
                listed.at(listed.considering(0))
            },
            (Step::LookHere(i), Seen::There) => self.at(Step::LookThere(i)),
            (Step::LookHere(i), Seen::Missing) => self.at(self.considering(i + 1)),
            (Step::LookThere(i), Seen::There) => self.at(Step::Send(Some(i))),
            (Step::LookThere(i), Seen::Missing) => self.at(Step::Forget(i)),
            (Step::Forget(i), Seen::Done) => self.at(self.considering(i + 1)),
            (Step::Send(parent), Seen::Done) => self.at(Step::InspectReceived(parent)),
            (Step::Send(_), Seen::Failed) => self.at(Step::LookForPartial(Fault::NotSent)),
            (Step::InspectReceived(parent), Seen::Shown(info)) => {
                let seen = Course { received: Some(info), ..self };
                if seen.verified() {
                    seen.at(Step::Record(parent))
                } else {
                    seen.at(Step::LookForPartial(Fault::Mismatch))
                }
            },
            (Step::InspectReceived(_), Seen::Failed) => self.at(Step::Failed(Fault::NotVerified)),
            (Step::LookForPartial(fault), Seen::There) => self.at(Step::RemovePartial(fault)),
            (Step::LookForPartial(fault), _) => self.at(Step::Failed(fault)),
            (Step::RemovePartial(fault), _) => self.at(Step::Failed(fault)),
            (Step::Record(_), Seen::Done) => self.at(Step::Recorded),
            (Step::Recorded, _) => self,
            (Step::Failed(_), _) => self,
            (_, Seen::Failed) => self.at(Step::Failed(Fault::Stopped)),
            (_, _) => self,
        }
    }

    /// Whether the position that a step speaks of is that of a listed replica other than the
    /// snapshot's own.
    pub open spec fn lists(self, i: usize) -> bool {
        i < self.parents.len() && self.parents[i as int].name != self.name
    }

    /// What holds of a delivery at every step: a replica is recorded only when its identity was
    /// read at the target and is that of what was sent, and no send starts from the snapshot's
    /// own replica.
    pub open spec fn sound(self) -> bool {
        match self.step {
            Step::LookHere(i) => self.lists(i),
            Step::LookThere(i) => self.lists(i),
            Step::Forget(i) => self.lists(i),
            Step::Send(Some(i)) => self.lists(i),
            Step::InspectReceived(Some(i)) => self.lists(i),
            Step::Record(parent) => self.verified() && (parent matches Some(i) ==> self.lists(i)),
            Step::Recorded => self.verified(),
            _ => true,
        }
    }
}

/// A delivery that has not started.
pub open spec fn course_of(name: Seq<char>, filtered: bool) -> Course {
    Course {
        step: if filtered {
            Step::Filter
        } else {
            Step::InspectSource
        },
        name,
        source: None,
        received: None,
        parents: Seq::empty(),
        excluded: None,
    }
}

/// The candidate is a listed replica other than the snapshot's own, and the first one.
proof fn lemma_candidate(course: Course, i: int)
    requires
        0 <= i,
    ensures
        match course.candidate(i) {
            Some(k) => {
                &&& i <= k < course.parents.len()
                &&& course.parents[k].name != course.name
                &&& forall|j: int|
                    i <= j < k ==> (#[trigger] course.parents[j]).name == course.name
            },
            None => forall|j: int|
                i <= j < course.parents.len() ==> (#[trigger] course.parents[j]).name
                    == course.name,
        },
    decreases course.parents.len() - i,
{
    if i < course.parents.len() && course.parents[i].name == course.name {
        lemma_candidate(course, i + 1);
    }
}

impl Delivery {
    /// A delivery that has not started, of the snapshot itself or of a filtered copy of it.
    pub fn start(name: &str, filtered: bool) -> (delivery: Delivery)
        ensures
            delivery@ == course_of(name@, filtered),
            delivery@.sound(),
    {
        let delivery: Delivery = Delivery {
            step: if filtered {
                Step::Filter
            } else {
                Step::InspectSource
            },
            name: name.to_owned(),
            source: None,
            received: None,
            parents: Vec::new(),
            excluded: None,
        };
        assert(delivery@ =~= course_of(name@, filtered));
        delivery
    }

    fn is_verified(&self) -> (verified: bool)
        ensures
            verified == self@.verified(),
    {
        match (&self.source, &self.received) {
            (Some(source), Some(received)) => received.is_received_from(source),
            (_, _) => false,
        }
    }

    fn consider(&self, from: usize) -> (step: Step)
        requires
            from <= self.parents@.len(),
        ensures
            step == self@.considering(from as int),
    {
        let mut i: usize = from;
        while i < self.parents.len()
            invariant
                from <= i <= self.parents@.len(),
                self@.candidate(i as int) == self@.candidate(from as int),
            decreases self.parents@.len() - i,
        {
            assert(self@.parents[i as int] == self.parents@[i as int]@);
            if !same_text(self.parents[i].name.as_str(), self.name.as_str()) {
                return Step::LookHere(i);
            }
            i += 1;
        }
        Step::Send(None)
    }

    /// Takes in what came of the step.
    pub fn next(&mut self, event: Event)
        requires
            old(self)@.sound(),
        ensures
            final(self)@ == old(self)@.after(event@),
            final(self)@.sound(),
    {
        let ghost before = self@;
        let ghost seen = event@;
        let size: usize = self.parents.len();
        assert(self@.parents.len() == size);
        if let Event::Parents(list) = &event {
            let count: usize = list.len();
            assert(views(list@).len() == count);
        }
        match (self.step, event) {
            (Step::Filter, Event::Filtered(excluded)) => {
                self.excluded = excluded;
                self.step = Step::InspectSource;
            },
            (Step::InspectSource, Event::Shown(info)) => {
                self.source = Some(info);
                self.step = Step::LookForReplica;
            },
            (Step::LookForReplica, Event::There) => {
                self.step = Step::InspectReplica;
            },
            (Step::LookForReplica, Event::Missing) => {
                self.step = Step::ListParents;
            },
            (Step::InspectReplica, Event::Shown(info)) => {
                self.received = Some(info);
                self.step = if self.is_verified() {
                    Step::Record(None)
                } else {
                    Step::RemoveReplica
                };
            },
            (Step::RemoveReplica, Event::Done) => {
                self.step = Step::ListParents;
            },
            (Step::ListParents, Event::Parents(list)) => {
                self.parents = list;
                self.step = self.consider(0);
            },
            (Step::LookHere(i), Event::There) => {
                self.step = Step::LookThere(i);
            },
            (Step::LookHere(i), Event::Missing) => {
                self.step = self.consider(i + 1);
            },
            (Step::LookThere(i), Event::There) => {
                self.step = Step::Send(Some(i));
            },
            (Step::LookThere(i), Event::Missing) => {
                self.step = Step::Forget(i);
            },
            (Step::Forget(i), Event::Done) => {
                self.step = self.consider(i + 1);
            },
            (Step::Send(parent), Event::Done) => {
                self.step = Step::InspectReceived(parent);
            },
            (Step::Send(_), Event::Failed) => {
                self.step = Step::LookForPartial(Fault::NotSent);
            },
            (Step::InspectReceived(parent), Event::Shown(info)) => {
                self.received = Some(info);
                self.step = if self.is_verified() {
                    Step::Record(parent)
                } else {
                    Step::LookForPartial(Fault::Mismatch)
                };
            },
            (Step::InspectReceived(_), Event::Failed) => {
                self.step = Step::Failed(Fault::NotVerified);
            },
            (Step::LookForPartial(fault), Event::There) => {
                self.step = Step::RemovePartial(fault);
            },
            (Step::LookForPartial(fault), _) => {
                self.step = Step::Failed(fault);
            },
            (Step::RemovePartial(fault), _) => {
                self.step = Step::Failed(fault);
            },
            (Step::Record(_), Event::Done) => {
                self.step = Step::Recorded;
            },
            (Step::Recorded, _) => {},
            (Step::Failed(_), _) => {},
            (_, Event::Failed) => {
                self.step = Step::Failed(Fault::Stopped);
            },
            (_, _) => {},
        }
        proof {
            assert(self@ =~= before.after(seen));
            lemma_after_sound(before, seen);
        }
    }

    /// The listed replica at a position.
    pub fn parent(&self, position: Option<usize>) -> (parent: Option<&ReplicaRecord>)
        requires
            position matches Some(i) ==> i < self.parents@.len(),
        ensures
            match (position, parent) {
                (Some(i), Some(parent)) => parent@ == self@.parents[i as int],
                (None, None) => true,
                (_, _) => false,
            },
    {
        match position {
            Some(i) => Some(&self.parents[i]),
            None => None,
        }
    }

    /// What to record of a delivery: the replica of `snapshot`, which was sent from `path`
    /// starting from the listed replica at `position`.
    pub fn replica(
        &self,
        snapshot: &SnapshotRecord,
        path: &str,
        replication: &Replication,
        position: Option<usize>,
    ) -> (replica: ReplicaRecord)
        requires
            position matches Some(i) ==> i < self.parents@.len(),
        ensures
            replica@ == (Replica {
                name: snapshot@.name,
                snap_id: snapshot@.snap_id,
                target: replication.url@,
                local_path: path@,
                source: snapshot@.source,
                kind: snapshot@.kind,
                machine: snapshot@.machine,
                snapshot_date: snapshot@.date,
                parent_name: match position {
                    Some(i) => Some(self@.parents[i as int].name),
                    None => None,
                },
                date: ""@,
            }),
    {
        let parent_name: Option<String> = match self.parent(position) {
            Some(parent) => Some(parent.name.clone()),
            None => None,
        };
        record(snapshot, path, replication, parent_name)
    }

    /// What to say of a delivery that failed: `cause` is what went wrong with the last step that
    /// could not be done.
    pub fn message(&self, fault: Fault, url: &str, cause: &str) -> (message: String)
        ensures
            message@ == fault_text(self@, fault, url@, cause@),
    {
        let name: &str = self.name.as_str();
        match fault {
            Fault::Stopped => cause.to_owned(),
            Fault::NotSent => "failed to send ".to_owned().concat(name).concat(" to ").concat(
                url,
            ).concat(": ").concat(cause),
            Fault::NotVerified => "could not verify ".to_owned().concat(name).concat(" at ").concat(
                url,
            ).concat(": ").concat(cause),
            Fault::Mismatch => {
                let received: &str = match &self.received {
                    Some(info) => match &info.received_uuid {
                        Some(uuid) => uuid.as_str(),
                        None => "-",
                    },
                    None => "-",
                };
                let source: &str = match &self.source {
                    Some(info) => info.uuid.as_str(),
                    None => "-",
                };
                "verification of ".to_owned().concat(name).concat(" at ").concat(url).concat(
                    " failed: received UUID ",
                ).concat(received).concat(" does not match the source UUID ").concat(source)
            },
        }
    }
}

/// What to say of a delivery that failed.
pub open spec fn fault_text(
    course: Course,
    fault: Fault,
    url: Seq<char>,
    cause: Seq<char>,
) -> Seq<char> {
    match fault {
        Fault::Stopped => cause,
        Fault::NotSent => "failed to send "@ + course.name + " to "@ + url + ": "@ + cause,
        Fault::NotVerified => "could not verify "@ + course.name + " at "@ + url + ": "@ + cause,
        Fault::Mismatch => "verification of "@ + course.name + " at "@ + url
            + " failed: received UUID "@ + (match course.received {
            Some(info) => match info.received_uuid {
                Some(uuid) => uuid,
                None => "-"@,
            },
            None => "-"@,
        }) + " does not match the source UUID "@ + (match course.source {
            Some(info) => info.uuid,
            None => "-"@,
        }),
    }
}

/// The step that a delivery is at has no say in which replica is looked for next.
proof fn lemma_same_candidate(a: Course, b: Course, i: int)
    requires
        a.parents == b.parents,
        a.name == b.name,
    ensures
        a.candidate(i) == b.candidate(i),
        a.considering(i) == b.considering(i),
    decreases a.parents.len() - i,
{
    if 0 <= i < a.parents.len() && a.parents[i].name == a.name {
        lemma_same_candidate(a, b, i + 1);
    }
}

/// A delivery after everything that came of its steps, one event after the other.
pub open spec fn delivered(course: Course, events: Seq<Seen>) -> Course
    decreases events.len(),
{
    if events.len() == 0 {
        course
    } else {
        delivered(course, events.drop_last()).after(events.last())
    }
}

/// What came of a step never makes a sound delivery unsound.
proof fn lemma_after_sound(course: Course, event: Seen)
    requires
        course.sound(),
        event matches Seen::Parents(list) ==> list.len() <= usize::MAX,
        course.parents.len() <= usize::MAX,
    ensures
        course.after(event).sound(),
        course.after(event).parents.len() <= usize::MAX,
{
    match (course.step, event) {
        (Step::ListParents, Seen::Parents(list)) => {
            let listed = Course { parents: list, ..course };
            lemma_candidate(listed, 0);
        },
        (Step::LookHere(i), _) => {
            lemma_candidate(course, i + 1);
        },
        (Step::Forget(i), _) => {
            lemma_candidate(course, i + 1);
        },
        (_, _) => {},
    }
}

/// Whatever happens on the way, a replica is recorded only when its identity was read at the
/// target and is that of what was sent.
pub proof fn lemma_recorded_only_when_verified(
    name: Seq<char>,
    filtered: bool,
    events: Seq<Seen>,
)
    requires
        forall|i: int|
            0 <= i < events.len() ==> ((#[trigger] events[i]) matches Seen::Parents(list)
                ==> list.len() <= usize::MAX),
    ensures
        delivered(course_of(name, filtered), events).sound(),
        delivered(course_of(name, filtered), events).step is Record ==> delivered(
            course_of(name, filtered),
            events,
        ).verified(),
        delivered(course_of(name, filtered), events).step is Recorded ==> delivered(
            course_of(name, filtered),
            events,
        ).verified(),
        delivered(course_of(name, filtered), events).parents.len() <= usize::MAX,
    decreases events.len(),
{
    if events.len() > 0 {
        let front = events.drop_last();
        assert forall|i: int| 0 <= i < front.len() implies ((
        #[trigger] front[i]) matches Seen::Parents(list) ==> list.len() <= usize::MAX) by {
            assert(front[i] == events[i]);
        }
        lemma_recorded_only_when_verified(name, filtered, front);
        assert(events[events.len() - 1] == events.last());
        lemma_after_sound(delivered(course_of(name, filtered), front), events.last());
    }
}

/// A delivery that failed records nothing any more, whatever comes: its snapshot stays to be sent.
pub proof fn lemma_failed_deliveries_record_nothing(course: Course, events: Seq<Seen>)
    requires
        course.step is Failed,
    ensures
        delivered(course, events) == course,
    decreases events.len(),
{
    if events.len() > 0 {
        lemma_failed_deliveries_record_nothing(course, events.drop_last());
    }
}

/// A send that failed, or that brought something else than was sent, is never reported before it
/// was looked whether something of it is left at the target.
pub proof fn lemma_partial_is_looked_for(course: Course, event: Seen)
    requires
        !(course.step is Failed),
        course.after(event).step == Step::Failed(Fault::NotSent) || course.after(event).step
            == Step::Failed(Fault::Mismatch),
    ensures
        course.step is LookForPartial || course.step is RemovePartial,
        course.step is LookForPartial ==> !(event is There),
{
}

/// The newest listed replica that a send can start from: not of the snapshot itself, with its
/// subvolume here, and with the replica itself at the target.
pub open spec fn usable(
    course: Course,
    i: int,
    here: spec_fn(int) -> bool,
    there: spec_fn(int) -> bool,
) -> Option<int>
    decreases course.parents.len() - i,
{
    if i < 0 || i >= course.parents.len() {
        None
    } else if course.parents[i].name != course.name && here(i) && there(i) {
        Some(i)
    } else {
        usable(course, i + 1, here, there)
    }
}

/// The events that make a delivery settle on a parent, where `here` and `there` say which listed
/// replicas have their subvolume here and are at the target.
pub open spec fn answers(
    course: Course,
    i: int,
    here: spec_fn(int) -> bool,
    there: spec_fn(int) -> bool,
) -> Seq<Seen>
    decreases course.parents.len() - i,
{
    if i < 0 || i >= course.parents.len() {
        Seq::empty()
    } else if course.parents[i].name == course.name {
        answers(course, i + 1, here, there)
    } else if !here(i) {
        seq![Seen::Missing] + answers(course, i + 1, here, there)
    } else if there(i) {
        seq![Seen::There, Seen::There]
    } else {
        seq![Seen::There, Seen::Missing, Seen::Done] + answers(course, i + 1, here, there)
    }
}

/// Events in two parts come one part after the other.
proof fn lemma_delivered_in_parts(course: Course, first: Seq<Seen>, second: Seq<Seen>)
    ensures
        delivered(course, first + second) == delivered(delivered(course, first), second),
    decreases second.len(),
{
    let all = first + second;
    if second.len() == 0 {
        assert(all =~= first);
    } else {
        assert(all.drop_last() =~= first + second.drop_last());
        assert(all.last() == second.last());
        lemma_delivered_in_parts(course, first, second.drop_last());
    }
}

/// A send starts from the newest listed replica that is usable on both sides, and from nothing if
/// there is none. Newer replicas that are gone from the target are forgotten on the way.
pub proof fn lemma_parent_is_the_newest_usable(
    course: Course,
    i: int,
    here: spec_fn(int) -> bool,
    there: spec_fn(int) -> bool,
)
    requires
        0 <= i <= course.parents.len() <= usize::MAX,
        course.step == course.considering(i),
    ensures
        delivered(course, answers(course, i, here, there)) == course.at(
            Step::Send(
                match usable(course, i, here, there) {
                    Some(k) => Some(k as usize),
                    None => None,
                },
            ),
        ),
    decreases course.parents.len() - i,
{
    let events = answers(course, i, here, there);
    if i == course.parents.len() {
        assert(delivered(course, events) == course);
        assert(course =~= course.at(Step::Send(None)));
    } else if course.parents[i].name == course.name {
        lemma_parent_is_the_newest_usable(course, i + 1, here, there);
    } else {
        assert(course.step == Step::LookHere(i as usize));
        let rest = answers(course, i + 1, here, there);
        let on = course.at(course.considering(i + 1));
        lemma_same_candidate(course, on, i + 1);
        lemma_same_answers(course, on, i + 1, here, there);
        if !here(i) {
            let step = seq![Seen::Missing];
            assert(step.drop_last() =~= Seq::empty());
            reveal_with_fuel(delivered, 2);
            assert(delivered(course, step) =~= on);
            lemma_delivered_in_parts(course, step, rest);
            lemma_parent_is_the_newest_usable(on, i + 1, here, there);
        } else if there(i) {
            let steps = seq![Seen::There, Seen::There];
            assert(steps.drop_last() =~= seq![Seen::There]);
            assert(seq![Seen::There].drop_last() =~= Seq::<Seen>::empty());
            reveal_with_fuel(delivered, 3);
            assert(delivered(course, steps) =~= course.at(Step::Send(Some(i as usize))));
        } else {
            let steps = seq![Seen::There, Seen::Missing, Seen::Done];
            assert(steps.drop_last() =~= seq![Seen::There, Seen::Missing]);
            assert(seq![Seen::There, Seen::Missing].drop_last() =~= seq![Seen::There]);
            assert(seq![Seen::There].drop_last() =~= Seq::<Seen>::empty());
            reveal_with_fuel(delivered, 4);
            let forgetting = course.at(Step::Forget(i as usize));
            lemma_same_candidate(course, forgetting, i + 1);
            assert(delivered(course, steps) =~= on);
            lemma_delivered_in_parts(course, steps, rest);
            lemma_parent_is_the_newest_usable(on, i + 1, here, there);
        }
    }
}

/// The step that a delivery is at has no say in what the answers are.
proof fn lemma_same_answers(
    a: Course,
    b: Course,
    i: int,
    here: spec_fn(int) -> bool,
    there: spec_fn(int) -> bool,
)
    requires
        a.parents == b.parents,
        a.name == b.name,
    ensures
        answers(a, i, here, there) == answers(b, i, here, there),
        usable(a, i, here, there) == usable(b, i, here, there),
    decreases a.parents.len() - i,
{
    if 0 <= i < a.parents.len() {
        lemma_same_answers(a, b, i + 1, here, there);
    }
}

} // verus!
