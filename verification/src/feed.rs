//! What goes out of a peer's queue over any number of passes.

use vstd::prelude::*;

use crate::compress::PayloadType;
use crate::fragment::{
    cutting_loses_nothing, divisible, laid_out, piece, piece_lengths, pieces_needed, Fragment,
};
use crate::peer::{
    an_acknowledged_frame_is_no_longer_in_flight, identifiers_are_kept_by_membership, in_flight,
    meet, still_pending, unacknowledged, without, Finished, MessageId, Peer, Pending, Queued,
};

verus! {

/// A message being fed out, as values.
#[verifier::ext_equal]
pub struct Job {
    /// The identifier that its fragments carry.
    pub message: u32,
    /// The shape of its bytes.
    pub payload_type: PayloadType,
    /// The whole of it.
    pub data: Seq<u8>,
    /// Length of every fragment but the last.
    pub per_fragment: nat,
    /// How many fragments there are.
    pub count: nat,
    /// Next fragment to go out.
    pub next: nat,
    /// Fragments sent but not yet acknowledged.
    pub outstanding: Seq<MessageId>,
    /// Whether a fragment was given up on.
    pub lost: bool,
}

/// A fragment as it goes out.
#[verifier::ext_equal]
pub struct Outgoing {
    /// Where it belongs.
    pub fragment: Fragment,
    /// Its bytes.
    pub data: Seq<u8>,
}

impl Job {
    /// Whether the cut is one that a sender may make.
    pub open spec fn well_cut(self) -> bool {
        &&& divisible(self.data.len(), self.per_fragment)
        &&& self.count == pieces_needed(self.data.len(), self.per_fragment)
    }

    /// Whether none of it has gone out yet.
    pub open spec fn untouched(self) -> bool {
        self.well_cut() && self.next == 0 && !self.lost
    }

    /// One of its fragments.
    pub open spec fn part(self, index: int) -> Outgoing {
        Outgoing {
            fragment: Fragment {
                message: self.message,
                index: index as u16,
                count: self.count as u16,
            },
            data: piece(self.data, self.per_fragment, index),
        }
    }

    /// Its first `n` fragments, in order.
    pub open spec fn parts(self, n: nat) -> Seq<Outgoing> {
        Seq::new(n, |i: int| self.part(i))
    }
}

impl Queued {
    /// The message as values.
    pub open spec fn job(&self) -> Job {
        Job {
            message: self.message,
            payload_type: self.payload_type,
            data: self.data@,
            per_fragment: self.per_fragment as nat,
            count: self.count as nat,
            next: self.next as nat,
            outstanding: self.outstanding@,
            lost: self.lost,
        }
    }
}

impl Peer {
    /// The queue as values, oldest first.
    pub open spec fn jobs(&self) -> Seq<Job> {
        self.queue@.map_values(|queued: Queued| queued.job())
    }
}

/// The queue once a pass has begun: a front message of which a fragment was
/// given up on is lost.
pub open spec fn begun(jobs: Seq<Job>, gone: Seq<MessageId>) -> Seq<Job> {
    if jobs.len() == 0 {
        jobs
    } else {
        jobs.update(
            0,
            Job {
                lost: jobs[0].lost || meet(jobs[0].outstanding, gone),
                outstanding: without(jobs[0].outstanding, gone),
                ..jobs[0]
            },
        )
    }
}

/// The fragment that is next to go out: always one of the front message.
pub open spec fn up_next(jobs: Seq<Job>) -> Option<Outgoing> {
    if jobs.len() > 0 && !jobs[0].lost && jobs[0].next < jobs[0].count {
        Some(jobs[0].part(jobs[0].next as int))
    } else {
        None
    }
}

/// The queue once the next fragment, if there is one, has gone out.
pub open spec fn fed(jobs: Seq<Job>, id: MessageId) -> Seq<Job> {
    if up_next(jobs) is Some {
        jobs.update(
            0,
            Job { next: jobs[0].next + 1, outstanding: jobs[0].outstanding.push(id), ..jobs[0] },
        )
    } else {
        jobs
    }
}

/// Whether the front message is finished with: lost, or sent to the end and
/// nothing of it in flight any more.
pub open spec fn front_done(jobs: Seq<Job>, pending: Seq<Pending>) -> bool {
    jobs.len() > 0 && (jobs[0].lost || (jobs[0].next == jobs[0].count && unacknowledged(
        jobs[0].outstanding,
        pending,
    ).len() == 0))
}

/// The queue once a pass has ended: a front message that is finished with leaves.
pub open spec fn ended(jobs: Seq<Job>, pending: Seq<Pending>) -> Seq<Job> {
    if jobs.len() == 0 {
        jobs
    } else if front_done(jobs, pending) {
        jobs.remove(0)
    } else {
        jobs.update(
            0,
            Job { outstanding: unacknowledged(jobs[0].outstanding, pending), ..jobs[0] },
        )
    }
}

/// Something that happens to the queue.
pub enum QueueStep {
    /// A message is put at its back.
    Queue(Job),
    /// A pass begins, with these frames given up on since the last.
    Begin(Seq<MessageId>),
    /// The next fragment goes out under an identifier.
    Feed(MessageId),
    /// A pass ends, with these frames in flight.
    End(Seq<Pending>),
}

/// The queue after one step.
pub open spec fn stepped(jobs: Seq<Job>, step: QueueStep) -> Seq<Job> {
    match step {
        QueueStep::Queue(job) => jobs.push(job),
        QueueStep::Begin(gone) => begun(jobs, gone),
        QueueStep::Feed(id) => fed(jobs, id),
        QueueStep::End(pending) => ended(jobs, pending),
    }
}

/// The queue after some steps.
pub open spec fn run(start: Seq<Job>, steps: Seq<QueueStep>) -> Seq<Job>
    decreases steps.len(),
{
    if steps.len() == 0 {
        start
    } else {
        stepped(run(start, steps.drop_last()), steps.last())
    }
}

/// Every message that has been in the queue, oldest first, as it was put there.
pub open spec fn all_queued(start: Seq<Job>, steps: Seq<QueueStep>) -> Seq<Job>
    decreases steps.len(),
{
    if steps.len() == 0 {
        start
    } else {
        let before = all_queued(start, steps.drop_last());
        match steps.last() {
            QueueStep::Queue(job) => before.push(job),
            _ => before,
        }
    }
}

/// What has gone out, in the order in which it went.
pub open spec fn sent(start: Seq<Job>, steps: Seq<QueueStep>) -> Seq<Outgoing>
    decreases steps.len(),
{
    if steps.len() == 0 {
        Seq::empty()
    } else {
        let before = sent(start, steps.drop_last());
        match steps.last() {
            QueueStep::Feed(_) => match up_next(run(start, steps.drop_last())) {
                Some(out) => before.push(out),
                None => before,
            },
            _ => before,
        }
    }
}

/// How many messages have been finished with.
pub open spec fn finished(start: Seq<Job>, steps: Seq<QueueStep>) -> nat
    decreases steps.len(),
{
    if steps.len() == 0 {
        0
    } else {
        let before = finished(start, steps.drop_last());
        match steps.last() {
            QueueStep::End(pending) if front_done(run(start, steps.drop_last()), pending) => before
                + 1,
            _ => before,
        }
    }
}

/// Whether nothing that is queued has been sent already, and no fragment of a
/// message in the queue is given up on.
pub open spec fn nothing_given_up(start: Seq<Job>, steps: Seq<QueueStep>) -> bool
    decreases steps.len(),
{
    if steps.len() == 0 {
        forall|j: int| 0 <= j < start.len() ==> (#[trigger] start[j]).untouched()
    } else {
        let jobs = run(start, steps.drop_last());
        &&& nothing_given_up(start, steps.drop_last())
        &&& match steps.last() {
            QueueStep::Queue(job) => job.untouched(),
            QueueStep::Begin(gone) => jobs.len() > 0 ==> !meet(jobs[0].outstanding, gone),
            _ => true,
        }
    }
}

/// All the fragments of the first `n` messages, message by message.
pub open spec fn whole_messages(all: Seq<Job>, n: nat) -> Seq<Outgoing>
    decreases n,
{
    if n == 0 {
        Seq::empty()
    } else {
        whole_messages(all, (n - 1) as nat) + all[n - 1].parts(all[n - 1].count)
    }
}

/// The first `n` messages do not depend on those behind them.
proof fn earlier_messages_stay(all: Seq<Job>, job: Job, n: nat)
    requires
        n <= all.len(),
    ensures
        whole_messages(all.push(job), n) == whole_messages(all, n),
    decreases n,
{
    if n > 0 {
        earlier_messages_stay(all, job, (n - 1) as nat);
        assert(all.push(job)[n - 1] == all[n - 1]);
    }
}

/// Over any number of passes, with acknowledgements and new messages coming in
/// between as they like, and as long as no fragment is given up on: what has gone
/// out is every fragment of the messages that are finished with, message by
/// message in the order in which they were queued, and then the first fragments
/// of the front one. So each fragment goes out once and in order, and no message
/// starts before the one ahead of it is finished with. Those behind the front are
/// as they were queued.
pub proof fn messages_go_out_whole_in_order_and_once(start: Seq<Job>, steps: Seq<QueueStep>)
    requires
        nothing_given_up(start, steps),
    ensures
        ({
            let all = all_queued(start, steps);
            let done = finished(start, steps);
            let jobs = run(start, steps);
            &&& done + jobs.len() == all.len()
            &&& forall|j: int| 0 <= j < all.len() ==> (#[trigger] all[j]).untouched()
            &&& forall|j: int| 0 < j < jobs.len() ==> #[trigger] jobs[j] == all[done + j]
            &&& jobs.len() == 0 ==> sent(start, steps) == whole_messages(all, done)
            &&& jobs.len() > 0 ==> {
                &&& jobs[0] == (Job {
                    next: jobs[0].next,
                    outstanding: jobs[0].outstanding,
                    ..all[done as int]
                })
                &&& jobs[0].next <= jobs[0].count
                &&& sent(start, steps) == whole_messages(all, done) + all[done as int].parts(
                    jobs[0].next,
                )
            }
        }),
    decreases steps.len(),
{
    if steps.len() == 0 {
        if start.len() > 0 {
            assert(start[0].untouched());
            assert(Seq::<Outgoing>::empty() =~= whole_messages(start, 0) + start[0].parts(0));
        }
    } else {
        let before = steps.drop_last();
        messages_go_out_whole_in_order_and_once(start, before);
        let was = all_queued(start, before);
        let jobs = run(start, before);
        let done = finished(start, before);
        let all = all_queued(start, steps);
        let now = run(start, steps);
        match steps.last() {
            QueueStep::Queue(job) => {
                earlier_messages_stay(was, job, done);
                assert(all =~= was.push(job));
                if jobs.len() == 0 {
                    assert(sent(start, steps) =~= whole_messages(all, done) + all[done as int].parts(
                        0,
                    ));
                } else {
                    assert(all[done as int] == was[done as int]);
                }
            },
            QueueStep::Begin(_) => {},
            QueueStep::Feed(_) => {
                if up_next(jobs) is Some {
                    let front = was[done as int];
                    assert(front.parts(jobs[0].next + 1) =~= front.parts(jobs[0].next).push(
                        front.part(jobs[0].next as int),
                    ));
                    assert(sent(start, steps) =~= whole_messages(all, done) + front.parts(
                        jobs[0].next + 1,
                    ));
                }
            },
            QueueStep::End(pending) => {
                if front_done(jobs, pending) {
                    assert(was[done as int].untouched());
                    assert(sent(start, steps) =~= whole_messages(all, done + 1));
                    if now.len() > 0 {
                        assert(now[0] == jobs[1]);
                        let following = all[done as int + 1];
                        assert(following.untouched());
                        assert(sent(start, steps) =~= whole_messages(all, done + 1)
                            + following.parts(0));
                    }
                }
            },
        }
    }
}

/// The bytes of some fragments, end to end.
pub open spec fn joined(parts: Seq<Outgoing>) -> Seq<u8>
    decreases parts.len(),
{
    if parts.len() == 0 {
        Seq::empty()
    } else {
        joined(parts.drop_last()) + parts.last().data
    }
}

proof fn joined_is_laid_out(job: Job, n: nat)
    ensures
        joined(job.parts(n)) == laid_out(job.data, job.per_fragment, n),
    decreases n,
{
    if n > 0 {
        joined_is_laid_out(job, (n - 1) as nat);
        assert(job.parts(n).drop_last() =~= job.parts((n - 1) as nat));
    }
}

/// The fragments of one message carry its identifier and their number, are
/// numbered in order, are all of one length but for a last that is no longer,
/// and end to end are the message.
pub proof fn the_fragments_of_a_message_make_it_up(job: Job)
    requires
        job.well_cut(),
    ensures
        job.parts(job.count).len() == job.count,
        joined(job.parts(job.count)) == job.data,
        forall|i: int| 0 <= i < job.count ==> {
            let out = #[trigger] job.parts(job.count)[i];
            &&& out.fragment.message == job.message
            &&& out.fragment.count == job.count
            &&& out.fragment.index == i
            &&& i + 1 < job.count ==> out.data.len() == job.per_fragment
            &&& out.data.len() <= job.per_fragment
        },
{
    joined_is_laid_out(job, job.count);
    cutting_loses_nothing(job.data, job.per_fragment);
    assert forall|i: int| 0 <= i < job.count implies {
        let out = #[trigger] job.parts(job.count)[i];
        &&& out.fragment.message == job.message
        &&& out.fragment.count == job.count
        &&& out.fragment.index == i
        &&& i + 1 < job.count ==> out.data.len() == job.per_fragment
        &&& out.data.len() <= job.per_fragment
    } by {
        piece_lengths(job.data, job.per_fragment, i);
    }
}

/// Once every fragment of the front message has been sent and their identifiers
/// acknowledged, the message is finished with; and as long as one of them is in
/// flight, or one has not been sent, it is not, unless it is lost.
pub proof fn a_message_is_finished_with_once_all_of_it_is_acknowledged(
    jobs: Seq<Job>,
    pending: Seq<Pending>,
    acked: Seq<MessageId>,
)
    requires
        jobs.len() > 0,
        !jobs[0].lost,
    ensures
        jobs[0].next == jobs[0].count && (forall|k: int|
            0 <= k < jobs[0].outstanding.len() ==> acked.contains(
                #[trigger] jobs[0].outstanding[k],
            )) ==> front_done(jobs, still_pending(pending, acked)) && ended(
            jobs,
            still_pending(pending, acked),
        ) == jobs.skip(1),
        front_done(jobs, pending) ==> jobs[0].next == jobs[0].count && forall|k: int|
            0 <= k < jobs[0].outstanding.len() ==> !in_flight(
                pending,
                #[trigger] jobs[0].outstanding[k],
            ),
        jobs[0].next == jobs[0].count && (forall|k: int|
            0 <= k < jobs[0].outstanding.len() ==> !in_flight(
                pending,
                #[trigger] jobs[0].outstanding[k],
            )) ==> front_done(jobs, pending),
        !front_done(jobs, pending) ==> ended(jobs, pending).len() == jobs.len() && ended(
            jobs,
            pending,
        )[0] == (Job { outstanding: ended(jobs, pending)[0].outstanding, ..jobs[0] }),
{
    let left = still_pending(pending, acked);
    an_acknowledged_frame_is_no_longer_in_flight(pending, acked);
    identifiers_are_kept_by_membership(jobs[0].outstanding, acked, left, 0);
    identifiers_are_kept_by_membership(jobs[0].outstanding, acked, pending, 0);
    if front_done(jobs, left) {
        assert(ended(jobs, left) =~= jobs.skip(1));
    }
}

/// A message is lost where a fragment of it that is out has been given up on, and
/// only there; a lost one sends nothing more and leaves the queue at the end of
/// the pass, and the next takes its place.
pub proof fn a_message_is_lost_with_any_fragment_of_it(
    jobs: Seq<Job>,
    gone: Seq<MessageId>,
    pending: Seq<Pending>,
    k: int,
)
    requires
        jobs.len() > 0,
    ensures
        0 <= k < jobs[0].outstanding.len() && gone.contains(jobs[0].outstanding[k]) ==> begun(
            jobs,
            gone,
        )[0].lost,
        begun(jobs, gone)[0].lost ==> jobs[0].lost || exists|i: int|
            0 <= i < jobs[0].outstanding.len() && gone.contains(#[trigger] jobs[0].outstanding[i]),
        jobs[0].lost ==> {
            &&& begun(jobs, gone)[0].lost
            &&& up_next(jobs) is None
            &&& front_done(jobs, pending)
            &&& ended(jobs, pending) == jobs.skip(1)
        },
        begun(jobs, gone)[0] == (Job {
            lost: begun(jobs, gone)[0].lost,
            outstanding: begun(jobs, gone)[0].outstanding,
            ..jobs[0]
        }),
        forall|j: int| 0 < j < jobs.len() ==> #[trigger] begun(jobs, gone)[j] == jobs[j],
        begun(jobs, gone).len() == jobs.len(),
{
    if jobs[0].lost {
        assert(ended(jobs, pending) =~= jobs.skip(1));
    }
    if 0 <= k < jobs[0].outstanding.len() && gone.contains(jobs[0].outstanding[k]) {
        assert(meet(jobs[0].outstanding, gone));
    }
}

/// As long as the front message has a fragment left, and is not lost, that fragment
/// is what goes out next, and sending it is counted: its identifier is awaited.
pub proof fn what_goes_out_next_is_the_next_of_the_front(jobs: Seq<Job>, id: MessageId)
    ensures
        up_next(jobs) is Some <==> jobs.len() > 0 && !jobs[0].lost && jobs[0].next < jobs[0].count,
        up_next(jobs) matches Some(out) ==> {
            &&& out.fragment.message == jobs[0].message
            &&& out.fragment.index == jobs[0].next as u16
            &&& out.fragment.count == jobs[0].count as u16
            &&& out.data == piece(jobs[0].data, jobs[0].per_fragment, jobs[0].next as int)
            &&& fed(jobs, id)[0].next == jobs[0].next + 1
            &&& fed(jobs, id)[0].outstanding == jobs[0].outstanding.push(id)
            &&& fed(jobs, id).skip(1) == jobs.skip(1)
        },
        up_next(jobs) is None ==> fed(jobs, id) == jobs,
{
    if up_next(jobs) is Some {
        assert(fed(jobs, id).skip(1) =~= jobs.skip(1));
    }
}

/// How the front message ended, if it has.
pub open spec fn outcome(jobs: Seq<Job>, pending: Seq<Pending>) -> Option<Finished> {
    if front_done(jobs, pending) {
        Some(Finished { delivered: !jobs[0].lost })
    } else {
        None
    }
}

/// A message is reported delivered exactly where none of its fragments was given up
/// on, all of them were sent and none is in flight any more; and reported as not
/// delivered exactly where one was given up on.
pub proof fn a_message_is_reported_as_it_ended(jobs: Seq<Job>, pending: Seq<Pending>)
    ensures
        outcome(jobs, pending) == Some(Finished { delivered: true }) <==> {
            &&& jobs.len() > 0
            &&& !jobs[0].lost
            &&& jobs[0].next == jobs[0].count
            &&& forall|k: int|
                0 <= k < jobs[0].outstanding.len() ==> !in_flight(
                    pending,
                    #[trigger] jobs[0].outstanding[k],
                )
        },
        outcome(jobs, pending) == Some(Finished { delivered: false }) <==> jobs.len() > 0
            && jobs[0].lost,
{
    if jobs.len() > 0 {
        identifiers_are_kept_by_membership(jobs[0].outstanding, Seq::empty(), pending, 0);
    }
}

/// From sending to reporting: a message of which every fragment went out and was
/// acknowledged is reported delivered at the end of the pass, and leaves the queue to
/// the one behind it.
pub proof fn an_acknowledged_message_is_reported_delivered(
    jobs: Seq<Job>,
    pending: Seq<Pending>,
    acked: Seq<MessageId>,
)
    requires
        jobs.len() > 0,
        !jobs[0].lost,
        jobs[0].next == jobs[0].count,
        forall|k: int|
            0 <= k < jobs[0].outstanding.len() ==> acked.contains(
                #[trigger] jobs[0].outstanding[k],
            ),
    ensures
        outcome(jobs, still_pending(pending, acked)) == Some(Finished { delivered: true }),
        ended(jobs, still_pending(pending, acked)) == jobs.skip(1),
{
    a_message_is_finished_with_once_all_of_it_is_acknowledged(jobs, pending, acked);
}

} // verus!
