//! How one logical call is carried out against the replicas of a tablet:
//! which replicas are eligible, whether attempts overlap, and what becomes of
//! a failed attempt.

use crate::backoff::{delay_ms, Backoff};
use crate::error::Error;
use crate::tablet::{Replica, ReplicaRole, ReplicaView};
use vstd::prelude::*;

verus! {

/// Which replicas may serve a call.
#[derive(Clone, Copy, Debug, PartialEq, Eq, Structural)]
pub enum Selection {
    /// Only the current leader.
    Leader,
    /// Replicas on the caller's host first, then any other.
    Closest,
}

/// Whether attempts on several replicas may overlap.
#[derive(Clone, Copy, Debug, PartialEq, Eq, Structural)]
pub enum Speculation {
    /// The next replica is tried as soon as an attempt times out.
    Full,
    /// After the given number of milliseconds without a response a second
    /// attempt starts beside the first; the first success wins.
    Staggered(u64),
    /// One attempt at a time.
    Sequential,
}

/// What becomes of a call after a failed attempt.
#[derive(Clone, Copy, Debug, PartialEq, Eq, Structural)]
pub enum Disposition {
    /// The replica is set aside for this call and the next one is tried
    /// after a backoff.
    Retry,
    /// The call fails with the error; the connection stays.
    Fail,
    /// The call fails with the error and the connection is torn down.
    Fatal,
    /// The call fails because its deadline passed.
    TimedOut,
}

/// What the error taxonomy says of a failed attempt: a busy server and a
/// transport failure are tried elsewhere, a passed deadline ends the call as
/// timed out, a fatal error ends it and the connection, anything else ends
/// the call alone.
pub open spec fn disposition_of(error: Error) -> Disposition {
    match error {
        Error::Rpc(rpc) => if rpc.code.retriable() {
            Disposition::Retry
        } else if rpc.code.fatal() {
            Disposition::Fatal
        } else {
            Disposition::Fail
        },
        Error::Io(_) => Disposition::Retry,
        Error::Serialization(_) => Disposition::Fail,
        Error::TimedOut => Disposition::TimedOut,
        Error::Negotiation(_) => Disposition::Fatal,
        Error::InvalidArgument(_) => Disposition::Fail,
    }
}

/// What becomes of a call after an attempt failed with `error`.
pub fn classify(error: &Error) -> (disposition: Disposition)
    ensures
        disposition == disposition_of(*error),
{
    match error {
        Error::Rpc(rpc) => {
            if rpc.is_retriable() {
                Disposition::Retry
            } else if rpc.is_fatal() {
                Disposition::Fatal
            } else {
                Disposition::Fail
            }
        },
        Error::Io(_) => Disposition::Retry,
        Error::Serialization(_) => Disposition::Fail,
        Error::TimedOut => Disposition::TimedOut,
        Error::Negotiation(_) => Disposition::Fatal,
        Error::InvalidArgument(_) => Disposition::Fail,
    }
}

/// Whether a replica may serve the next attempt of a call: it is not known
/// to be dead, has not been set aside for this call, and, where only the
/// leader will do, is the leader.
pub open spec fn eligible(replica: ReplicaView, set_aside: bool, selection: Selection) -> bool {
    &&& !replica.is_dead
    &&& !set_aside
    &&& selection is Leader ==> replica.role is Leader
}

/// Whether replica `i` may serve the next attempt. A replica beyond the
/// list of those set aside has not been set aside.
pub open spec fn eligible_at(
    replicas: Seq<ReplicaView>,
    set_aside: Seq<bool>,
    selection: Selection,
    i: int,
) -> bool {
    0 <= i < replicas.len() && eligible(
        replicas[i],
        i < set_aside.len() && set_aside[i],
        selection,
    )
}

/// How many of the first `n` replicas may serve the next attempt.
pub open spec fn eligible_before(
    replicas: Seq<ReplicaView>,
    set_aside: Seq<bool>,
    selection: Selection,
    n: int,
) -> nat
    decreases n,
{
    if n <= 0 {
        0
    } else {
        eligible_before(replicas, set_aside, selection, n - 1) + if eligible_at(
            replicas,
            set_aside,
            selection,
            n - 1,
        ) {
            1nat
        } else {
            0nat
        }
    }
}

/// Whether replica `i` may serve the next attempt and is on the caller's
/// host.
pub open spec fn local_at(
    replicas: Seq<ReplicaView>,
    set_aside: Seq<bool>,
    selection: Selection,
    local_host: Seq<char>,
    i: int,
) -> bool {
    eligible_at(replicas, set_aside, selection, i) && replicas[i].host == local_host
}

/// The replica for the next attempt, as it follows from a number drawn at
/// random: the first eligible replica on the caller's host if there is one,
/// else the eligible replica that as many eligible ones precede as the
/// number drawn leaves when divided by their count.
pub open spec fn chosen(
    replicas: Seq<ReplicaView>,
    set_aside: Seq<bool>,
    selection: Selection,
    local_host: Seq<char>,
    draw: usize,
    i: int,
) -> bool {
    let count = eligible_before(replicas, set_aside, selection, replicas.len() as int);
    &&& eligible_at(replicas, set_aside, selection, i)
    &&& if exists|j: int| local_at(replicas, set_aside, selection, local_host, j) {
        &&& local_at(replicas, set_aside, selection, local_host, i)
        &&& forall|j: int| 0 <= j < i ==> !local_at(replicas, set_aside, selection, local_host, j)
    } else {
        count > 0 && eligible_before(replicas, set_aside, selection, i) == draw as nat % count
    }
}

/// The views of the replicas.
pub open spec fn views_of(replicas: Seq<Replica>) -> Seq<ReplicaView> {
    Seq::new(replicas.len(), |i: int| replicas[i]@)
}

/// Whether replica `i` may serve the next attempt.
fn is_eligible(
    replicas: &Vec<Replica>,
    set_aside: &Vec<bool>,
    selection: Selection,
    i: usize,
) -> (ok: bool)
    requires
        i < replicas@.len(),
    ensures
        ok == eligible_at(views_of(replicas@), set_aside@, selection, i as int),
{
    let replica = &replicas[i];
    let aside = i < set_aside.len() && set_aside[i];
    let role_fits = match selection {
        Selection::Leader => match replica.role {
            ReplicaRole::Leader => true,
            _ => false,
        },
        Selection::Closest => true,
    };
    !replica.is_dead && !aside && role_fits
}

/// The count of eligible replicas never shrinks as more are counted, and
/// counts none where none is eligible.
proof fn lemma_eligible_before_grows(
    replicas: Seq<ReplicaView>,
    set_aside: Seq<bool>,
    selection: Selection,
    a: int,
    b: int,
)
    requires
        a <= b,
    ensures
        eligible_before(replicas, set_aside, selection, a) <= eligible_before(
            replicas,
            set_aside,
            selection,
            b,
        ),
    decreases b - a,
{
    if a < b {
        lemma_eligible_before_grows(replicas, set_aside, selection, a, b - 1);
    }
}

/// Picks the replica for the next attempt of a call, given the replicas set
/// aside for this call, the caller's host and a number drawn at random.
/// There is none where no replica is eligible.
pub fn next_replica(
    replicas: &Vec<Replica>,
    set_aside: &Vec<bool>,
    selection: Selection,
    local_host: &str,
    draw: usize,
) -> (next: Option<usize>)
    ensures
        match next {
            Some(i) => chosen(
                views_of(replicas@),
                set_aside@,
                selection,
                local_host@,
                draw,
                i as int,
            ),
            None => forall|j: int| !eligible_at(views_of(replicas@), set_aside@, selection, j),
        },
{
    let ghost views = views_of(replicas@);
    let host = local_host.to_owned();
    let n = replicas.len();
    let mut count: usize = 0;
    let mut i: usize = 0;
    while i < n
        invariant
            i <= n,
            n == replicas@.len(),
            views == views_of(replicas@),
            host@ == local_host@,
            count == eligible_before(views, set_aside@, selection, i as int),
            count <= i,
            forall|j: int| 0 <= j < i ==> !local_at(views, set_aside@, selection, local_host@, j),
        decreases n - i,
    {
        if is_eligible(replicas, set_aside, selection, i) {
            assert(views[i as int] == replicas@[i as int]@);
            if replicas[i].host == host {
                proof {
                    assert(local_at(views, set_aside@, selection, local_host@, i as int));
                }
                return Some(i);
            }
            count = count + 1;
        }
        i = i + 1;
    }
    if count == 0 {
        proof {
            assert forall|j: int| !eligible_at(views, set_aside@, selection, j) by {
                if 0 <= j < n && eligible_at(views, set_aside@, selection, j) {
                    lemma_eligible_before_grows(views, set_aside@, selection, j + 1, n as int);
                    lemma_eligible_before_grows(views, set_aside@, selection, 0, j);
                }
            }
        }
        return None;
    }
    let rank = draw % count;
    let mut seen: usize = 0;
    let mut k: usize = 0;
    while k < n
        invariant
            k <= n,
            n == replicas@.len(),
            views == views_of(replicas@),
            count == eligible_before(views, set_aside@, selection, n as int),
            seen == eligible_before(views, set_aside@, selection, k as int),
            seen <= rank < count,
            rank == draw as nat % (count as nat),
            forall|j: int| !local_at(views, set_aside@, selection, local_host@, j),
        decreases n - k,
    {
        if is_eligible(replicas, set_aside, selection, k) {
            if seen == rank {
                return Some(k);
            }
            seen = seen + 1;
        }
        k = k + 1;
    }
    None
}

/// How an attempt on one replica ended.
pub enum Attempt {
    /// The replica answered the call.
    Success,
    /// The attempt failed with an error of the taxonomy.
    Failed(Error),
    /// The replica is not the leader of the tablet.
    NotLeader(Error),
    /// The tablet is gone from the replica, or its schema does not match.
    TabletGone(Error),
    /// The replica did not answer within the time allowed for one attempt.
    Unanswered,
}

/// What a call does after an attempt ended.
pub enum Decision {
    /// The call is answered, by the replica given: continuations are pinned
    /// to it.
    Resolve { replica: usize },
    /// The replica is set aside for this call; the next attempt starts at
    /// the time given, in milliseconds.
    RetryAfter { wake_ms: u64 },
    /// The leader has moved: the tablet's leader is forgotten and looked up
    /// again, then the call is tried again.
    Refresh,
    /// The tablet is gone: the meta cache drops it and the call fails, so
    /// that whoever made it may look the tablet up again.
    DropTablet(Error),
    /// The call fails with the error and is not tried again.
    Fail(Error),
    /// The call fails because its deadline has passed or would pass before
    /// the next attempt.
    TimedOut,
    /// The call was decided before: what comes late changes nothing.
    Ignore,
}

/// What a call is, as contracts see it.
pub struct ReplicaRpcView {
    pub selection: Selection,
    pub speculation: Speculation,
    /// Per replica, whether it is set aside for this call.
    pub set_aside: Seq<bool>,
    pub base_ms: nat,
    pub cap_ms: nat,
    /// The attempts delayed since the call began.
    pub attempts: nat,
    pub deadline_ms: u64,
    /// Whether the call has been answered or has failed.
    pub decided: bool,
}

/// The count of attempts after one more, which stops at the largest number
/// of 32 bits.
pub open spec fn one_more(attempts: nat) -> nat {
    if attempts < u32::MAX {
        attempts + 1
    } else {
        attempts
    }
}

impl ReplicaRpcView {
    /// The call, decided.
    pub open spec fn done(self) -> ReplicaRpcView {
        ReplicaRpcView { decided: true, ..self }
    }

    /// The call with the replica set aside and one more attempt counted.
    pub open spec fn without(self, replica: usize) -> ReplicaRpcView {
        ReplicaRpcView {
            set_aside: if replica < self.set_aside.len() {
                self.set_aside.update(replica as int, true)
            } else {
                self.set_aside
            },
            attempts: one_more(self.attempts),
            ..self
        }
    }

    /// The time of the next attempt after one on which a delay is due.
    pub open spec fn wake(self, now_ms: u64, drawn_permille: u32) -> nat {
        now_ms as nat + delay_ms(
            self.base_ms,
            self.cap_ms,
            one_more(self.attempts),
            drawn_permille,
        )
    }

    /// The call after a failed attempt that may be made again elsewhere:
    /// the replica is set aside, and the next attempt is due after the
    /// backoff, unless that is past the deadline.
    pub open spec fn retried(self, replica: usize, now_ms: u64, drawn_permille: u32) -> (
        ReplicaRpcView,
        Decision,
    ) {
        if self.wake(now_ms, drawn_permille) <= self.deadline_ms {
            (
                self.without(replica),
                Decision::RetryAfter { wake_ms: self.wake(now_ms, drawn_permille) as u64 },
            )
        } else {
            (self.without(replica).done(), Decision::TimedOut)
        }
    }

    /// The call after an attempt on a replica ended, and what it does next.
    /// A call that is decided ignores what comes. An answer decides it. A
    /// busy server or a failed transport sets the replica aside and tries
    /// again after a backoff; so does a replica that is not the leader where
    /// any replica will do, but where only the leader will do the leader is
    /// looked up again. A replica that does not answer in time is set aside
    /// and the next is tried at once. A tablet that is gone, a fatal error
    /// and any other error decide the call as failed.
    pub open spec fn after(
        self,
        replica: usize,
        attempt: Attempt,
        now_ms: u64,
        drawn_permille: u32,
    ) -> (ReplicaRpcView, Decision) {
        if self.decided {
            (self, Decision::Ignore)
        } else {
            match attempt {
                Attempt::Success => (
                    ReplicaRpcView { attempts: 0, ..self }.done(),
                    Decision::Resolve { replica },
                ),
                Attempt::Failed(error) => match disposition_of(error) {
                    Disposition::Retry => self.retried(replica, now_ms, drawn_permille),
                    Disposition::TimedOut => (self.done(), Decision::TimedOut),
                    Disposition::Fail => (self.done(), Decision::Fail(error)),
                    Disposition::Fatal => (self.done(), Decision::Fail(error)),
                },
                Attempt::NotLeader(error) => if self.selection is Leader {
                    (self, Decision::Refresh)
                } else {
                    self.retried(replica, now_ms, drawn_permille)
                },
                Attempt::TabletGone(error) => (self.done(), Decision::DropTablet(error)),
                Attempt::Unanswered => if now_ms <= self.deadline_ms {
                    (
                        ReplicaRpcView { attempts: self.attempts, ..self.without(replica) },
                        Decision::RetryAfter { wake_ms: now_ms },
                    )
                } else {
                    (self.done(), Decision::TimedOut)
                },
            }
        }
    }

    /// The call once the time is `now_ms`: decided as timed out where the
    /// deadline has passed and the call was undecided.
    pub open spec fn at(self, now_ms: u64) -> (ReplicaRpcView, Decision) {
        if !self.decided && now_ms > self.deadline_ms {
            (self.done(), Decision::TimedOut)
        } else {
            (self, Decision::Ignore)
        }
    }

    /// Whether a second attempt is to start beside the first, which has
    /// been under way for the time given: only under staggered speculation,
    /// once the stagger has elapsed, while the call is undecided.
    pub open spec fn speculates(self, elapsed_ms: u64) -> bool {
        !self.decided && (self.speculation matches Speculation::Staggered(stagger) && elapsed_ms
            >= stagger)
    }
}

/// One logical call against the replicas of a tablet: which replicas are
/// set aside, how far the backoff has come, and whether the call is
/// decided.
pub struct ReplicaRpc {
    selection: Selection,
    speculation: Speculation,
    set_aside: Vec<bool>,
    backoff: Backoff,
    deadline_ms: u64,
    decided: bool,
}

impl View for ReplicaRpc {
    type V = ReplicaRpcView;

    closed spec fn view(&self) -> ReplicaRpcView {
        ReplicaRpcView {
            selection: self.selection,
            speculation: self.speculation,
            set_aside: self.set_aside@,
            base_ms: self.backoff.base(),
            cap_ms: self.backoff.cap(),
            attempts: self.backoff.attempts(),
            deadline_ms: self.deadline_ms,
            decided: self.decided,
        }
    }
}

impl ReplicaRpc {
    /// A call against a tablet of `replicas` replicas, none of them set
    /// aside, to be decided by the deadline.
    pub fn new(
        replicas: usize,
        speculation: Speculation,
        selection: Selection,
        backoff: Backoff,
        deadline_ms: u64,
    ) -> (rpc: ReplicaRpc)
        ensures
            rpc@ == (ReplicaRpcView {
                selection,
                speculation,
                set_aside: Seq::new(replicas as nat, |i: int| false),
                base_ms: backoff.base(),
                cap_ms: backoff.cap(),
                attempts: 0,
                deadline_ms,
                decided: false,
            }),
    {
        let mut set_aside: Vec<bool> = Vec::new();
        let mut i: usize = 0;
        while i < replicas
            invariant
                i <= replicas,
                set_aside@.len() == i,
                forall|j: int| 0 <= j < i ==> !(#[trigger] set_aside@[j]),
            decreases replicas - i,
        {
            set_aside.push(false);
            i = i + 1;
        }
        let mut backoff = backoff;
        backoff.reset();
        proof {
            assert(set_aside@ =~= Seq::new(replicas as nat, |i: int| false));
        }
        ReplicaRpc { selection, speculation, set_aside, backoff, deadline_ms, decided: false }
    }

    /// Whether the call has been answered or has failed.
    pub fn is_decided(&self) -> (decided: bool)
        ensures
            decided == self@.decided,
    {
        self.decided
    }

    /// The replica for the next attempt: none once the call is decided or
    /// where no replica is eligible.
    pub fn next_attempt(&self, replicas: &Vec<Replica>, local_host: &str, draw: usize) -> (next:
        Option<usize>)
        ensures
            self@.decided ==> next is None,
            !self@.decided ==> match next {
                Some(i) => chosen(
                    views_of(replicas@),
                    self@.set_aside,
                    self@.selection,
                    local_host@,
                    draw,
                    i as int,
                ),
                None => forall|j: int|
                    !eligible_at(views_of(replicas@), self@.set_aside, self@.selection, j),
            },
    {
        if self.decided {
            None
        } else {
            next_replica(replicas, &self.set_aside, self.selection, local_host, draw)
        }
    }

    /// Whether a second attempt is to start beside the first, which has
    /// been under way for the time given.
    pub fn speculates(&self, elapsed_ms: u64) -> (start: bool)
        ensures
            start == self@.speculates(elapsed_ms),
    {
        match self.speculation {
            Speculation::Staggered(stagger) => !self.decided && elapsed_ms >= stagger,
            _ => false,
        }
    }

    /// Sets the replica aside, counts an attempt and says when the next one
    /// is due, or that the deadline passes first.
    fn retry(&mut self, replica: usize, now_ms: u64, drawn_permille: u32) -> (decision: Decision)
        requires
            !old(self)@.decided,
        ensures
            (final(self)@, decision) == old(self)@.retried(replica, now_ms, drawn_permille),
    {
        if replica < self.set_aside.len() {
            self.set_aside.set(replica, true);
        }
        let delay = self.backoff.next_delay(drawn_permille);
        match crate::backoff::wake_time(now_ms, delay, self.deadline_ms) {
            Ok(wake_ms) => Decision::RetryAfter { wake_ms },
            Err(_) => {
                self.decided = true;
                Decision::TimedOut
            },
        }
    }

    /// Takes in how an attempt on a replica ended, at the time given and
    /// with the jitter drawn, and says what the call does next.
    pub fn on_attempt(
        &mut self,
        replica: usize,
        attempt: Attempt,
        now_ms: u64,
        drawn_permille: u32,
    ) -> (decision: Decision)
        ensures
            (final(self)@, decision) == old(self)@.after(
                replica,
                attempt,
                now_ms,
                drawn_permille,
            ),
    {
        if self.decided {
            return Decision::Ignore;
        }
        match attempt {
            Attempt::Success => {
                self.backoff.reset();
                self.decided = true;
                Decision::Resolve { replica }
            },
            Attempt::Failed(error) => match classify(&error) {
                Disposition::Retry => self.retry(replica, now_ms, drawn_permille),
                Disposition::TimedOut => {
                    self.decided = true;
                    Decision::TimedOut
                },
                Disposition::Fail => {
                    self.decided = true;
                    Decision::Fail(error)
                },
                Disposition::Fatal => {
                    self.decided = true;
                    Decision::Fail(error)
                },
            },
            Attempt::NotLeader(_) => match self.selection {
                Selection::Leader => Decision::Refresh,
                Selection::Closest => self.retry(replica, now_ms, drawn_permille),
            },
            Attempt::TabletGone(error) => {
                self.decided = true;
                Decision::DropTablet(error)
            },
            Attempt::Unanswered => {
                if now_ms <= self.deadline_ms {
                    if replica < self.set_aside.len() {
                        self.set_aside.set(replica, true);
                    }
                    Decision::RetryAfter { wake_ms: now_ms }
                } else {
                    self.decided = true;
                    Decision::TimedOut
                }
            },
        }
    }

    /// Tells the call the time: once the deadline has passed, a call that
    /// is undecided fails as timed out.
    pub fn on_time(&mut self, now_ms: u64) -> (decision: Decision)
        ensures
            (final(self)@, decision) == old(self)@.at(now_ms),
    {
        if !self.decided && now_ms > self.deadline_ms {
            self.decided = true;
            Decision::TimedOut
        } else {
            Decision::Ignore
        }
    }
}

/// The first answer wins: once a call is decided, whatever comes later is
/// ignored and changes nothing.
pub proof fn lemma_first_answer_wins(
    rpc: ReplicaRpcView,
    first: usize,
    second: usize,
    late: Attempt,
    now_ms: u64,
    later_ms: u64,
    drawn_permille: u32,
)
    requires
        !rpc.decided,
    ensures
        rpc.after(first, Attempt::Success, now_ms, drawn_permille).1 == (Decision::Resolve {
            replica: first,
        }),
        rpc.after(first, Attempt::Success, now_ms, drawn_permille).0.after(
            second,
            late,
            later_ms,
            drawn_permille,
        ) == (rpc.after(first, Attempt::Success, now_ms, drawn_permille).0, Decision::Ignore),
        !rpc.after(first, Attempt::Success, now_ms, drawn_permille).0.speculates(later_ms),
{
}

/// No attempt is waited for past the deadline, and only an error that may
/// be cured elsewhere is tried again: a fatal error, a malformed reply and
/// a rejected argument fail the call at once.
pub proof fn lemma_retries_within_the_deadline(
    rpc: ReplicaRpcView,
    replica: usize,
    attempt: Attempt,
    now_ms: u64,
    drawn_permille: u32,
)
    requires
        !rpc.decided,
    ensures
        rpc.after(replica, attempt, now_ms, drawn_permille).1 matches Decision::RetryAfter {
            wake_ms,
        } ==> now_ms <= wake_ms <= rpc.deadline_ms && !rpc.after(
            replica,
            attempt,
            now_ms,
            drawn_permille,
        ).0.decided,
        attempt matches Attempt::Failed(error) && !(disposition_of(error) is Retry) ==> rpc.after(
            replica,
            attempt,
            now_ms,
            drawn_permille,
        ).0.decided,
        rpc.after(replica, attempt, now_ms, drawn_permille).1 is RetryAfter && replica
            < rpc.set_aside.len() ==> rpc.after(
            replica,
            attempt,
            now_ms,
            drawn_permille,
        ).0.set_aside[replica as int],
{
}

} // verus!
