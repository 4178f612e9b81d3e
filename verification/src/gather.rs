//! The rendezvous of one process, from its spool entry to its role, and what
//! any number of them that meet come to: one leader at a time, and every entry
//! claimed once. The files and the waiting are the caller's.

use crate::order::{listed, models};
use crate::paths::{FilePath, PathModel};
use crate::rendezvous::{
    lead, lock_step, stale, step_after, LockStep, LockTry, Role, RoleModel, Settling,
};
use vstd::prelude::*;

verus! {

/// Where a process is in the rendezvous.
#[derive(Clone, Copy, PartialEq, Eq, Structural, Debug)]
pub enum Stage {
    /// It writes its paths as a spool entry.
    Spooling,
    /// It tries to create the lock, for the first or the second time.
    Locking { second: bool },
    /// It renames a lock away that a crashed leader left.
    Retiring,
    /// It leads, and waits until new arrivals go quiet.
    Settling(Settling),
    /// It claims the entries: before it releases the lock, and once more after.
    Sweeping { last: bool },
    /// It removes the lock.
    Releasing,
    /// It could not spool, and runs its own paths alone.
    Alone,
    /// It leads, with what it claimed.
    Leading,
    /// It follows.
    Following,
}

/// What a process does next.
#[derive(Clone, Copy, PartialEq, Eq, Structural, Debug)]
pub enum Action {
    Spool,
    TryLock,
    Retire,
    /// Wait a moment, then count the entries.
    Count,
    Sweep,
    Release,
    /// The rendezvous is over.
    Stop,
}

impl Stage {
    /// What a process at this stage does next.
    pub open spec fn does(self) -> Action {
        match self {
            Stage::Spooling => Action::Spool,
            Stage::Locking { .. } => Action::TryLock,
            Stage::Retiring => Action::Retire,
            Stage::Settling(_) => Action::Count,
            Stage::Sweeping { .. } => Action::Sweep,
            Stage::Releasing => Action::Release,
            Stage::Alone => Action::Stop,
            Stage::Leading => Action::Stop,
            Stage::Following => Action::Stop,
        }
    }

    /// After writing the spool entry, or failing to.
    pub open spec fn spooled(ok: bool) -> Stage {
        if ok {
            Stage::Locking { second: false }
        } else {
            Stage::Alone
        }
    }

    /// After trying to create the lock, at `now` and with `count` entries there.
    pub open spec fn tried(
        second: bool,
        attempt: LockTry,
        now: u64,
        count: usize,
        quiet: u64,
    ) -> Stage {
        match step_after(attempt, second) {
            LockStep::Lead => Stage::Settling(
                Settling { started: now, last_change: now, seen: count, quiet },
            ),
            LockStep::Follow => Stage::Following,
            LockStep::Retire => Stage::Retiring,
        }
    }

    /// After counting the entries.
    pub open spec fn counted(settling: Settling, now: u64, count: usize) -> Stage {
        if settling.looked(now, count).closed_at(now) {
            Stage::Sweeping { last: false }
        } else {
            Stage::Settling(settling.looked(now, count))
        }
    }

    /// After claiming the entries.
    pub open spec fn swept(last: bool) -> Stage {
        if last {
            Stage::Leading
        } else {
            Stage::Releasing
        }
    }
}

/// A process in the rendezvous.
pub struct Gather {
    pub stage: Stage,
    /// How long arrivals must be quiet before the batch is closed.
    pub quiet: u64,
    /// Its own paths.
    pub mine: Vec<FilePath>,
    /// The paths of the entries that it claimed.
    pub claimed: Vec<FilePath>,
}

/// A process in the rendezvous.
#[verifier::ext_equal]
pub struct GatherModel {
    pub stage: Stage,
    pub quiet: u64,
    pub mine: Seq<PathModel>,
    pub claimed: Seq<PathModel>,
}

impl View for Gather {
    type V = GatherModel;

    open spec fn view(&self) -> GatherModel {
        GatherModel {
            stage: self.stage,
            quiet: self.quiet,
            mine: models(self.mine@),
            claimed: models(self.claimed@),
        }
    }
}

/// A process that arrives with these paths.
pub open spec fn arrived(mine: Seq<PathModel>, quiet: u64) -> GatherModel {
    GatherModel { stage: Stage::Spooling, quiet, mine, claimed: seq![] }
}

impl GatherModel {
    /// Whether this is what the process should do: nothing is known before the
    /// rendezvous is over.
    pub open spec fn takes(self, role: Option<RoleModel>) -> bool {
        match self.stage {
            Stage::Alone => role == Some(RoleModel::Leader(self.mine)),
            Stage::Leading => role matches Some(RoleModel::Leader(paths)) && listed::<FilePath>(
                paths,
            ) && paths.to_set() == self.claimed.to_set(),
            Stage::Following => role == Some(RoleModel::Follower),
            _ => role is None,
        }
    }
}

impl Gather {
    /// Where it waits, its clock has not started after the last arrival.
    pub open spec fn wf(&self) -> bool {
        self.stage matches Stage::Settling(s) ==> s.wf()
    }

    /// A process with these paths arrives.
    pub fn new(mine: Vec<FilePath>, quiet: u64) -> (r: Gather)
        ensures
            r.wf(),
            r@ == arrived(models(mine@), quiet),
    {
        let r = Gather { stage: Stage::Spooling, quiet, mine, claimed: Vec::new() };
        assert(models(r.claimed@) =~= Seq::<PathModel>::empty());
        r
    }

    /// What to do next.
    pub fn action(&self) -> (r: Action)
        ensures
            r == self@.stage.does(),
    {
        match self.stage {
            Stage::Spooling => Action::Spool,
            Stage::Locking { .. } => Action::TryLock,
            Stage::Retiring => Action::Retire,
            Stage::Settling(_) => Action::Count,
            Stage::Sweeping { .. } => Action::Sweep,
            Stage::Releasing => Action::Release,
            Stage::Alone => Action::Stop,
            Stage::Leading => Action::Stop,
            Stage::Following => Action::Stop,
        }
    }

    /// The spool entry was written, or could not be: if the filesystem won't
    /// cooperate this process simply runs its own paths alone.
    pub fn spooled(&mut self, ok: bool)
        requires
            old(self)@.stage is Spooling,
        ensures
            final(self).wf(),
            final(self)@ == (GatherModel { stage: Stage::spooled(ok), ..old(self)@ }),
    {
        self.stage = if ok {
            Stage::Locking { second: false }
        } else {
            Stage::Alone
        };
    }

    /// Creating the lock was tried, at `now` and with `count` entries there.
    pub fn tried(&mut self, attempt: LockTry, now: u64, count: usize)
        requires
            old(self)@.stage is Locking,
        ensures
            final(self).wf(),
            final(self)@ == (GatherModel {
                stage: Stage::tried(
                    old(self)@.stage->second,
                    attempt,
                    now,
                    count,
                    old(self)@.quiet,
                ),
                ..old(self)@
            }),
    {
        let second = match self.stage {
            Stage::Locking { second } => second,
            _ => false,
        };
        self.stage = match lock_step(attempt, second) {
            LockStep::Lead => Stage::Settling(Settling::new(now, count, self.quiet)),
            LockStep::Follow => Stage::Following,
            LockStep::Retire => Stage::Retiring,
        };
    }

    /// The lock was renamed away, by this process or by another: the race is
    /// run again.
    pub fn retired(&mut self)
        requires
            old(self)@.stage is Retiring,
        ensures
            final(self).wf(),
            final(self)@ == (GatherModel {
                stage: Stage::Locking { second: true },
                ..old(self)@
            }),
    {
        self.stage = Stage::Locking { second: true };
    }

    /// The entries were counted.
    pub fn counted(&mut self, now: u64, count: usize)
        requires
            old(self).wf(),
            old(self)@.stage is Settling,
            old(self)@.stage->Settling_0.last_change <= now,
        ensures
            final(self).wf(),
            final(self)@ == (GatherModel {
                stage: Stage::counted(old(self)@.stage->Settling_0, now, count),
                ..old(self)@
            }),
    {
        if let Stage::Settling(settling) = self.stage {
            let mut settling = settling;
            self.stage = if settling.look(now, count) {
                Stage::Sweeping { last: false }
            } else {
                Stage::Settling(settling)
            };
        }
    }

    /// The entries that could be claimed were, and held these paths.
    pub fn swept(&mut self, paths: Vec<FilePath>)
        requires
            old(self)@.stage is Sweeping,
        ensures
            final(self).wf(),
            final(self)@ == (GatherModel {
                stage: Stage::swept(old(self)@.stage->last),
                claimed: old(self)@.claimed + models(paths@),
                ..old(self)@
            }),
    {
        let ghost before = models(self.claimed@);
        let ghost more = models(paths@);
        let mut paths = paths;
        self.claimed.append(&mut paths);
        assert(models(self.claimed@) =~= before + more);
        if let Stage::Sweeping { last } = self.stage {
            self.stage = if last {
                Stage::Leading
            } else {
                Stage::Releasing
            };
        }
    }

    /// The lock was removed. A process that spooled just before that saw the
    /// lock and left, so its entry is this one's: it sweeps once more.
    pub fn released(&mut self)
        requires
            old(self)@.stage is Releasing,
        ensures
            final(self).wf(),
            final(self)@ == (GatherModel {
                stage: Stage::Sweeping { last: true },
                ..old(self)@
            }),
    {
        self.stage = Stage::Sweeping { last: true };
    }

    /// What the process should do, once the rendezvous is over: a leader runs
    /// every path it claimed, once and in order; one that could not spool runs
    /// its own.
    pub fn role(&self) -> (r: Option<Role>)
        ensures
            self@.takes(match r {
                Some(role) => Some(role@),
                None => None,
            }),
    {
        match self.stage {
            Stage::Alone => {
                let mut mine: Vec<FilePath> = Vec::new();
                let mut i: usize = 0;
                while i < self.mine.len()
                    invariant
                        i <= self.mine.len(),
                        mine.len() == i,
                        forall|j: int| 0 <= j < i ==> (#[trigger] mine@[j])@ == self.mine@[j]@,
                    decreases self.mine.len() - i,
                {
                    mine.push(self.mine[i].clone());
                    i += 1;
                }
                assert(models(mine@) =~= models(self.mine@));
                Some(Role::Leader(mine))
            },
            Stage::Leading => Some(lead(&self.claimed)),
            Stage::Following => Some(Role::Follower),
            _ => None,
        }
    }
}

// ---------------------------------------------------------------------------
// Many processes
// ---------------------------------------------------------------------------

/// What a process comes with.
pub struct Arrival {
    pub mine: Seq<PathModel>,
    pub quiet: u64,
}

/// A process among others.
pub struct Member {
    pub gather: GatherModel,
    /// The entries that were there when it began its sweep.
    pub found: Set<nat>,
    /// The paths of the entries that it has claimed in its sweep.
    pub taken: Seq<PathModel>,
}

/// The processes of a group and the directory in which they meet. An entry is
/// known by the process that wrote it.
pub struct Meeting {
    pub members: Map<nat, Member>,
    /// Whether the lock is there.
    pub lock: bool,
    /// The entries that wait in the directory.
    pub spool: Set<nat>,
    /// The entries that were claimed, and by whom.
    pub claimed: Map<nat, nat>,
}

/// A step of one process. Each is one operation on the directory that no other
/// comes between: a file is created, renamed or removed.
pub enum Move {
    Spool { p: nat },
    Try { p: nat, attempt: LockTry, now: u64, count: usize },
    Count { p: nat, now: u64, count: usize },
    /// `p` renames the entry of `entry`.
    Claim { p: nat, entry: nat },
    /// `p` has gone through the entries that it found.
    SweepEnds { p: nat },
    Release { p: nat },
}

impl Move {
    /// Whose step it is.
    pub open spec fn mover(self) -> nat {
        match self {
            Move::Spool { p } => p,
            Move::Try { p, .. } => p,
            Move::Count { p, .. } => p,
            Move::Claim { p, .. } => p,
            Move::SweepEnds { p } => p,
            Move::Release { p } => p,
        }
    }
}

impl Meeting {
    /// The stage of a process.
    pub open spec fn stage(self, p: nat) -> Stage {
        self.members[p].gather.stage
    }

    /// The meeting with a process at another stage. One that begins a sweep
    /// finds the entries that are there.
    pub open spec fn at(self, p: nat, stage: Stage) -> Meeting {
        Meeting {
            members: self.members.insert(
                p,
                Member {
                    gather: GatherModel { stage, ..self.members[p].gather },
                    found: if stage is Sweeping {
                        self.spool
                    } else {
                        Set::empty()
                    },
                    taken: seq![],
                },
            ),
            ..self
        }
    }

    /// The meeting with a process that took the paths of an entry.
    pub open spec fn taking(self, p: nat, entry: nat) -> Meeting {
        let member = self.members[p];
        Meeting {
            members: self.members.insert(
                p,
                Member { taken: member.taken + self.members[entry].gather.mine, ..member },
            ),
            ..self
        }
    }

    /// The meeting with a process that keeps what it took in its sweep.
    pub open spec fn keeping(self, p: nat) -> Meeting {
        let member = self.members[p];
        Meeting {
            members: self.members.insert(
                p,
                Member {
                    gather: GatherModel {
                        claimed: member.gather.claimed + member.taken,
                        ..member.gather
                    },
                    ..member
                },
            ),
            ..self
        }
    }

    /// Whether a step can come next: the process is there, and the directory is
    /// as it finds it. The lock is created where there is none, and found by the
    /// others, none of whom takes it for a crashed leader's.
    pub open spec fn allows(self, m: Move) -> bool {
        &&& self.members.dom().contains(m.mover())
        &&& match m {
            Move::Spool { p } => self.stage(p) is Spooling,
            Move::Try { p, attempt, .. } => {
                &&& self.stage(p) is Locking
                &&& match attempt {
                    LockTry::Created => !self.lock,
                    LockTry::Held { age } => self.lock && !stale(age),
                    LockTry::Failed => false,
                }
            },
            Move::Count { p, .. } => self.stage(p) is Settling,
            Move::Claim { p, entry } => self.stage(p) is Sweeping && self.spool.contains(entry),
            Move::SweepEnds { p } => {
                &&& self.stage(p) is Sweeping
                &&& self.members[p].found.disjoint(self.spool)
            },
            Move::Release { p } => self.stage(p) is Releasing,
        }
    }

    /// The meeting after a step.
    pub open spec fn after(self, m: Move) -> Meeting {
        match m {
            Move::Spool { p } => Meeting { spool: self.spool.insert(p), ..self }.at(
                p,
                Stage::spooled(true),
            ),
            Move::Try { p, attempt, now, count } => Meeting { lock: true, ..self }.at(
                p,
                Stage::tried(
                    self.stage(p)->second,
                    attempt,
                    now,
                    count,
                    self.members[p].gather.quiet,
                ),
            ),
            Move::Count { p, now, count } => self.at(
                p,
                Stage::counted(self.stage(p)->Settling_0, now, count),
            ),
            Move::Claim { p, entry } => Meeting {
                spool: self.spool.remove(entry),
                claimed: self.claimed.insert(entry, p),
                ..self
            }.taking(p, entry),
            Move::SweepEnds { p } => self.keeping(p).at(p, Stage::swept(self.stage(p)->last)),
            Move::Release { p } => Meeting { lock: false, ..self }.at(
                p,
                Stage::Sweeping { last: true },
            ),
        }
    }
}

/// The processes before any of them arrived.
pub open spec fn before_the_meeting(arrivals: Map<nat, Arrival>) -> Meeting {
    Meeting {
        members: Map::new(
            |p: nat| arrivals.dom().contains(p),
            |p: nat|
                Member {
                    gather: arrived(arrivals[p].mine, arrivals[p].quiet),
                    found: Set::empty(),
                    taken: seq![],
                },
        ),
        lock: false,
        spool: Set::empty(),
        claimed: Map::empty(),
    }
}

/// The meeting after a run of steps, in whatever order the processes take
/// theirs.
pub open spec fn meeting_after(arrivals: Map<nat, Arrival>, moves: Seq<Move>) -> Meeting
    decreases moves.len(),
{
    if moves.len() == 0 {
        before_the_meeting(arrivals)
    } else {
        meeting_after(arrivals, moves.drop_last()).after(moves.last())
    }
}

/// Whether each step of a run could come when it did.
pub open spec fn can_happen(arrivals: Map<nat, Arrival>, moves: Seq<Move>) -> bool
    decreases moves.len(),
{
    moves.len() > 0 ==> {
        &&& can_happen(arrivals, moves.drop_last())
        &&& meeting_after(arrivals, moves.drop_last()).allows(moves.last())
    }
}

/// Whether a process at this stage holds the lock.
pub open spec fn holding(stage: Stage) -> bool {
    ||| stage is Settling
    ||| stage == Stage::Sweeping { last: false }
    ||| stage is Releasing
}

/// Whether a process at this stage became the leader.
pub open spec fn led(stage: Stage) -> bool {
    holding(stage) || stage == Stage::Sweeping { last: true } || stage is Leading
}

/// Whether a process will still come past the entry of another: it has yet to
/// begin its last sweep, or found the entry when it began it.
spec fn will_claim(m: Meeting, p: nat, entry: nat) -> bool {
    &&& m.members.dom().contains(p)
    &&& {
        ||| holding(m.stage(p))
        ||| m.stage(p) == Stage::Sweeping { last: true } && m.members[p].found.contains(entry)
    }
}

/// What holds of a meeting at any time.
spec fn orderly(m: Meeting) -> bool {
    // Nobody is alone, and nobody retires a lock.
    &&& forall|p: nat| #[trigger]
        m.members.dom().contains(p) ==> !(m.stage(p) is Alone) && !(m.stage(p) is Retiring)
    // The lock is there exactly while somebody holds it.
    &&& forall|p: nat| #[trigger]
        m.members.dom().contains(p) && holding(m.stage(p)) ==> m.lock
    &&& m.lock ==> exists|p: nat| #[trigger]
        m.members.dom().contains(p) && holding(m.stage(p))
    &&& forall|p: nat, q: nat| #[trigger]
        m.members.dom().contains(p) && #[trigger] m.members.dom().contains(q) && holding(
            m.stage(p),
        ) && holding(m.stage(q)) ==> p == q
    // An entry waits or was claimed, once its process has spooled it.
    &&& forall|p: nat| #[trigger] m.spool.contains(p) ==> m.members.dom().contains(p)
    &&& forall|p: nat| #[trigger]
        m.members.dom().contains(p) ==> {
            if m.stage(p) is Spooling {
                !m.spool.contains(p) && !m.claimed.dom().contains(p)
            } else {
                m.spool.contains(p) || m.claimed.dom().contains(p)
            }
        }
    &&& forall|p: nat| #[trigger] m.claimed.dom().contains(p) ==> !m.spool.contains(p)
    // It was claimed by a leader.
    &&& forall|e: nat| #[trigger]
        m.claimed.dom().contains(e) ==> m.members.dom().contains(m.claimed[e]) && led(
            m.stage(m.claimed[e]),
        )
    // Somebody will come past the entry of one that left.
    &&& forall|f: nat| #[trigger]
        m.spool.contains(f) && m.stage(f) is Following ==> exists|p: nat| #[trigger]
            will_claim(m, p, f)
    // A leader comes past its own.
    &&& forall|p: nat| #[trigger]
        m.spool.contains(p) ==> !(m.stage(p) is Leading) && (m.stage(p) == (Stage::Sweeping {
            last: true,
        }) ==> m.members[p].found.contains(p))
}

proof fn lemma_starts_orderly(arrivals: Map<nat, Arrival>)
    ensures
        orderly(before_the_meeting(arrivals)),
{
}

/// A step keeps a meeting orderly.
#[verifier::spinoff_prover]
proof fn lemma_stays_orderly(m: Meeting, step: Move)
    requires
        orderly(m),
        m.allows(step),
    ensures
        orderly(m.after(step)),
{
    let n = m.after(step);
    let p = step.mover();
    match step {
        Move::Spool { .. } => {
            assert forall|f: nat| #[trigger] n.spool.contains(f) && n.stage(f) is Following
                implies exists|q: nat| #[trigger] will_claim(n, q, f) by {
                assert(m.spool.contains(f) && m.stage(f) is Following);
                let q = choose|q: nat| #[trigger] will_claim(m, q, f);
                assert(will_claim(n, q, f));
            }
            if n.lock {
                let h = choose|h: nat| #[trigger]
                    m.members.dom().contains(h) && holding(m.stage(h));
                assert(n.members.dom().contains(h) && holding(n.stage(h)));
            }
        },
        Move::Try { attempt, .. } => {
            if attempt is Created {
                assert(n.members.dom().contains(p) && holding(n.stage(p)));
                assert forall|f: nat| #[trigger] n.spool.contains(f) && n.stage(f) is Following
                    implies exists|q: nat| #[trigger] will_claim(n, q, f) by {
                    assert(will_claim(n, p, f));
                }
            } else {
                let h = choose|h: nat| #[trigger]
                    m.members.dom().contains(h) && holding(m.stage(h));
                assert(h != p);
                assert(n.members.dom().contains(h) && holding(n.stage(h)));
                assert forall|f: nat| #[trigger] n.spool.contains(f) && n.stage(f) is Following
                    implies exists|q: nat| #[trigger] will_claim(n, q, f) by {
                    assert(will_claim(n, h, f));
                }
            }
        },
        Move::Count { .. } => {
            assert(holding(n.stage(p)));
            assert(n.members.dom().contains(p) && holding(n.stage(p)));
            assert forall|f: nat| #[trigger] n.spool.contains(f) && n.stage(f) is Following
                implies exists|q: nat| #[trigger] will_claim(n, q, f) by {
                assert(will_claim(n, p, f));
            }
        },
        Move::Claim { entry, .. } => {
            assert forall|f: nat| #[trigger] n.spool.contains(f) && n.stage(f) is Following
                implies exists|q: nat| #[trigger] will_claim(n, q, f) by {
                assert(m.spool.contains(f) && m.stage(f) is Following);
                let q = choose|q: nat| #[trigger] will_claim(m, q, f);
                assert(will_claim(n, q, f));
            }
            if n.lock {
                let h = choose|h: nat| #[trigger]
                    m.members.dom().contains(h) && holding(m.stage(h));
                assert(n.members.dom().contains(h) && holding(n.stage(h)));
            }
        },
        Move::SweepEnds { .. } => {
            if m.stage(p)->last {
                assert forall|f: nat| #[trigger] n.spool.contains(f) && n.stage(f) is Following
                    implies exists|q: nat| #[trigger] will_claim(n, q, f) by {
                    assert(m.spool.contains(f) && m.stage(f) is Following);
                    let q = choose|q: nat| #[trigger] will_claim(m, q, f);
                    assert(q != p);
                    assert(will_claim(n, q, f));
                }
                if n.lock {
                    let h = choose|h: nat| #[trigger]
                        m.members.dom().contains(h) && holding(m.stage(h));
                    assert(n.members.dom().contains(h) && holding(n.stage(h)));
                }
            } else {
                assert(n.members.dom().contains(p) && holding(n.stage(p)));
                assert forall|f: nat| #[trigger] n.spool.contains(f) && n.stage(f) is Following
                    implies exists|q: nat| #[trigger] will_claim(n, q, f) by {
                    assert(will_claim(n, p, f));
                }
            }
        },
        Move::Release { .. } => {
            assert forall|f: nat| #[trigger] n.spool.contains(f) && n.stage(f) is Following
                implies exists|q: nat| #[trigger] will_claim(n, q, f) by {
                assert(will_claim(n, p, f));
            }
        },
    }
}

proof fn lemma_orderly(arrivals: Map<nat, Arrival>, moves: Seq<Move>)
    requires
        can_happen(arrivals, moves),
    ensures
        orderly(meeting_after(arrivals, moves)),
        meeting_after(arrivals, moves).members.dom() == arrivals.dom(),
    decreases moves.len(),
{
    if moves.len() == 0 {
        lemma_starts_orderly(arrivals);
        assert(meeting_after(arrivals, moves).members.dom() =~= arrivals.dom());
    } else {
        lemma_orderly(arrivals, moves.drop_last());
        let m = meeting_after(arrivals, moves.drop_last());
        lemma_stays_orderly(m, moves.last());
        assert(m.after(moves.last()).members.dom() =~= arrivals.dom());
    }
}

/// Whether every process is done.
pub open spec fn all_done(m: Meeting) -> bool {
    forall|p: nat| #[trigger] m.members.dom().contains(p) ==> m.stage(p).does() is Stop
}

/// However many processes arrive and however their steps fall, no path is lost
/// and none is batched twice: once all are done every entry has been claimed, by
/// one process, and that one leads. At no time do two hold the lock.
pub proof fn every_entry_is_claimed_once(arrivals: Map<nat, Arrival>, moves: Seq<Move>)
    requires
        can_happen(arrivals, moves),
    ensures
        forall|p: nat, q: nat|
            arrivals.dom().contains(p) && arrivals.dom().contains(q) && holding(
                #[trigger] meeting_after(arrivals, moves).stage(p),
            ) && holding(#[trigger] meeting_after(arrivals, moves).stage(q)) ==> p == q,
        all_done(meeting_after(arrivals, moves)) ==> {
            let m = meeting_after(arrivals, moves);
            &&& m.spool == Set::<nat>::empty()
            &&& m.claimed.dom() == arrivals.dom()
            &&& forall|e: nat|
                arrivals.dom().contains(e) ==> arrivals.dom().contains(#[trigger] m.claimed[e]) && m.stage(
                    m.claimed[e],
                ) is Leading
        },
{
    lemma_orderly(arrivals, moves);
    let m = meeting_after(arrivals, moves);
    if all_done(m) {
        assert forall|e: nat| !(#[trigger] m.spool.contains(e)) by {
            if m.spool.contains(e) {
                assert(m.members.dom().contains(e));
                assert(m.stage(e) is Following);
                let q = choose|q: nat| #[trigger] will_claim(m, q, e);
                assert(m.members.dom().contains(q));
            }
        }
        assert(m.spool =~= Set::<nat>::empty());
        assert forall|e: nat| m.claimed.dom().contains(e) <==> arrivals.dom().contains(e) by {
            if arrivals.dom().contains(e) {
                assert(m.members.dom().contains(e));
                assert(!m.spool.contains(e));
            }
            lemma_only_members_are_claimed(arrivals, moves, e);
        }
        assert(m.claimed.dom() =~= arrivals.dom());
    }
}

proof fn lemma_only_members_are_claimed(arrivals: Map<nat, Arrival>, moves: Seq<Move>, e: nat)
    requires
        can_happen(arrivals, moves),
    ensures
        meeting_after(arrivals, moves).claimed.dom().contains(e) ==> arrivals.dom().contains(e),
    decreases moves.len(),
{
    if moves.len() > 0 {
        lemma_only_members_are_claimed(arrivals, moves.drop_last(), e);
        lemma_orderly(arrivals, moves.drop_last());
        let m = meeting_after(arrivals, moves.drop_last());
        if moves.last() is Claim {
            assert(m.spool.contains(moves.last()->entry));
        }
    }
}

/// Whether every process tries the lock before the first release.
pub open spec fn in_one_burst(moves: Seq<Move>) -> bool {
    forall|i: int, j: int|
        0 <= i < j < moves.len() && (#[trigger] moves[i]) is Release ==> !((#[trigger] moves[j])
            is Try)
}

proof fn lemma_one_leader(arrivals: Map<nat, Arrival>, moves: Seq<Move>)
    requires
        can_happen(arrivals, moves),
        in_one_burst(moves),
    ensures
        ({
            let m = meeting_after(arrivals, moves);
            &&& forall|p: nat, q: nat|
                arrivals.dom().contains(p) && arrivals.dom().contains(q) && led(#[trigger] m.stage(p)) && led(
                    #[trigger] m.stage(q),
                ) ==> p == q
            &&& (forall|i: int| 0 <= i < moves.len() ==> !((#[trigger] moves[i]) is Release))
                ==> forall|p: nat| arrivals.dom().contains(p) && led(#[trigger] m.stage(p)) ==> holding(
                m.stage(p),
            )
        }),
    decreases moves.len(),
{
    if moves.len() > 0 {
        let rest = moves.drop_last();
        let last = moves.last();
        assert forall|i: int, j: int|
            0 <= i < j < rest.len() && (#[trigger] rest[i]) is Release implies !((
        #[trigger] rest[j]) is Try) by {
            assert(moves[i] == rest[i] && moves[j] == rest[j]);
        }
        lemma_one_leader(arrivals, rest);
        lemma_orderly(arrivals, rest);
        lemma_orderly(arrivals, moves);
        let m = meeting_after(arrivals, rest);
        let n = meeting_after(arrivals, moves);
        let unreleased = forall|i: int| 0 <= i < rest.len() ==> !((#[trigger] rest[i]) is Release);
        if last is Try {
            assert forall|i: int| 0 <= i < rest.len() implies !((#[trigger] rest[i]) is Release) by {
                assert(moves[i] == rest[i]);
                assert(moves[moves.len() - 1] is Try);
            }
            assert(unreleased);
        }
        assert forall|p: nat, q: nat|
            arrivals.dom().contains(p) && arrivals.dom().contains(q) && led(#[trigger] n.stage(p)) && led(
                #[trigger] n.stage(q),
            ) implies p == q by {
            assert(m.members.dom().contains(p) && m.members.dom().contains(q));
            if last is Try && last->attempt is Created {
                // Nobody led before: a leader would have held the lock.
                assert(!m.lock);
                assert(p != last.mover() ==> led(m.stage(p)) && holding(m.stage(p)));
                assert(q != last.mover() ==> led(m.stage(q)) && holding(m.stage(q)));
            } else {
                assert(led(m.stage(p)) && led(m.stage(q)));
            }
        }
        if forall|i: int| 0 <= i < moves.len() ==> !((#[trigger] moves[i]) is Release) {
            assert forall|i: int| 0 <= i < rest.len() implies !((#[trigger] rest[i]) is Release) by {
                assert(moves[i] == rest[i]);
            }
            assert(!(moves[moves.len() - 1] is Release));
            assert forall|p: nat| arrivals.dom().contains(p) && led(#[trigger] n.stage(p)) implies holding(
                n.stage(p),
            ) by {
                assert(m.members.dom().contains(p));
                assert(led(m.stage(p)) ==> holding(m.stage(p)));
            }
        }
    }
}

/// What a process has claimed so far, in this sweep and before it.
pub open spec fn haul(m: Meeting, p: nat) -> Seq<PathModel> {
    m.members[p].gather.claimed + m.members[p].taken
}

/// Whether a path stands in an entry that `p` claimed.
spec fn brought(arrivals: Map<nat, Arrival>, m: Meeting, p: nat, path: PathModel) -> bool {
    exists|e: nat| #[trigger]
        m.claimed.dom().contains(e) && m.claimed[e] == p && arrivals[e].mine.contains(path)
}

/// Whether each process has its own paths, and has claimed those of the entries
/// that it did.
spec fn accounted(arrivals: Map<nat, Arrival>, m: Meeting) -> bool {
    &&& forall|p: nat| #[trigger]
        m.members.dom().contains(p) ==> {
            &&& m.members[p].gather.mine == arrivals[p].mine
            &&& m.stage(p) is Sweeping || m.members[p].taken.len() == 0
        }
    &&& forall|p: nat, path: PathModel|
        m.members.dom().contains(p) ==> (#[trigger] haul(m, p).contains(path) <==> brought(
            arrivals,
            m,
            p,
            path,
        ))
}

/// A step keeps the account.
proof fn lemma_stays_accounted(arrivals: Map<nat, Arrival>, m: Meeting, step: Move)
    requires
        orderly(m),
        accounted(arrivals, m),
        m.allows(step),
    ensures
        accounted(arrivals, m.after(step)),
{
    let n = m.after(step);
    let s = step.mover();
    assert forall|p: nat, path: PathModel| m.members.dom().contains(p) implies (
    #[trigger] haul(n, p).contains(path) <==> brought(arrivals, n, p, path)) by {
        assert(haul(m, p).contains(path) <==> brought(arrivals, m, p, path));
        match step {
            Move::Claim { entry, .. } => {
                assert(m.spool.contains(entry));
                let more = m.members[entry].gather.mine;
                assert(m.members.dom().contains(entry));
                if p == s {
                    assert(haul(n, p) =~= haul(m, p) + more);
                    vstd::seq_lib::lemma_seq_concat_contains_all_elements(haul(m, p), more, path);
                } else {
                    assert(haul(n, p) =~= haul(m, p));
                }
                if brought(arrivals, m, p, path) {
                    let e = choose|e: nat| #[trigger]
                        m.claimed.dom().contains(e) && m.claimed[e] == p
                            && arrivals[e].mine.contains(path);
                    assert(n.claimed.dom().contains(e));
                }
                if p == s && more.contains(path) {
                    assert(n.claimed.dom().contains(entry));
                }
                if brought(arrivals, n, p, path) {
                    let e = choose|e: nat| #[trigger]
                        n.claimed.dom().contains(e) && n.claimed[e] == p
                            && arrivals[e].mine.contains(path);
                    if e != entry {
                        assert(m.claimed.dom().contains(e));
                    }
                }
                assert(haul(n, p).contains(path) <==> brought(arrivals, n, p, path));
            },
            _ => {
                assert(haul(n, p) =~= haul(m, p));
                assert(n.claimed == m.claimed);
                assert(brought(arrivals, n, p, path) <==> brought(arrivals, m, p, path));
            },
        }
    }
}

proof fn lemma_accounted(arrivals: Map<nat, Arrival>, moves: Seq<Move>)
    requires
        can_happen(arrivals, moves),
    ensures
        accounted(arrivals, meeting_after(arrivals, moves)),
    decreases moves.len(),
{
    if moves.len() > 0 {
        let rest = moves.drop_last();
        lemma_accounted(arrivals, rest);
        lemma_orderly(arrivals, rest);
        lemma_stays_accounted(arrivals, meeting_after(arrivals, rest), moves.last());
    }
}

/// The paths of all the processes.
pub open spec fn everything(arrivals: Map<nat, Arrival>) -> Set<PathModel> {
    Set::new(
        |path: PathModel|
            exists|e: nat| #[trigger] arrivals.dom().contains(e) && arrivals[e].mine.contains(path),
    )
}

/// Whether the role of a process is to run the whole batch: the paths of all the
/// processes, in order and each of them once.
pub open spec fn runs_everything(arrivals: Map<nat, Arrival>, g: GatherModel) -> bool {
    forall|role: Option<RoleModel>| #[trigger]
        g.takes(role) ==> (role matches Some(RoleModel::Leader(paths)) && listed::<FilePath>(paths)
            && paths.to_set() == everything(arrivals))
}

/// Whether the role of a process is to run nothing: it follows, or leads an empty
/// batch.
pub open spec fn runs_nothing(g: GatherModel) -> bool {
    forall|role: Option<RoleModel>| #[trigger]
        g.takes(role) ==> (role == Some(RoleModel::Follower) || role == Some(
            RoleModel::Leader(Seq::empty()),
        ))
}

/// One that claimed every entry runs everything; the others run nothing.
proof fn lemma_roles(arrivals: Map<nat, Arrival>, moves: Seq<Move>, leader: nat)
    requires
        can_happen(arrivals, moves),
        all_done(meeting_after(arrivals, moves)),
        arrivals.dom().contains(leader),
        meeting_after(arrivals, moves).stage(leader) is Leading,
        forall|e: nat|
            arrivals.dom().contains(e) ==> #[trigger] meeting_after(arrivals, moves).claimed[e]
                == leader,
    ensures
        runs_everything(arrivals, meeting_after(arrivals, moves).members[leader].gather),
        forall|p: nat|
            arrivals.dom().contains(p) && p != leader ==> runs_nothing(
                (#[trigger] meeting_after(arrivals, moves).members[p]).gather,
            ),
{
    let m = meeting_after(arrivals, moves);
    every_entry_is_claimed_once(arrivals, moves);
    lemma_accounted(arrivals, moves);
    lemma_orderly(arrivals, moves);
    assert forall|p: nat, path: PathModel| arrivals.dom().contains(p) implies (
    #[trigger] m.members[p].gather.claimed.contains(path) <==> p == leader && everything(
        arrivals,
    ).contains(path)) by {
        assert(m.members.dom().contains(p));
        assert(haul(m, p) =~= m.members[p].gather.claimed);
        assert(haul(m, p).contains(path) <==> brought(arrivals, m, p, path));
        if everything(arrivals).contains(path) {
            let e = choose|e: nat| #[trigger]
                arrivals.dom().contains(e) && arrivals[e].mine.contains(path);
            assert(m.claimed.dom().contains(e) && m.claimed[e] == leader);
        }
        if brought(arrivals, m, p, path) {
            let e = choose|e: nat| #[trigger]
                m.claimed.dom().contains(e) && m.claimed[e] == p && arrivals[e].mine.contains(path);
            assert(arrivals.dom().contains(e));
        }
    }
    let claimed = m.members[leader].gather.claimed;
    assert forall|path: PathModel| claimed.to_set().contains(path) <==> everything(
        arrivals,
    ).contains(path) by {
        assert(claimed.contains(path) <==> everything(arrivals).contains(path));
    }
    assert(claimed.to_set() =~= everything(arrivals));
    assert forall|p: nat| arrivals.dom().contains(p) && p != leader implies runs_nothing(
        (#[trigger] m.members[p]).gather,
    ) by {
        let g = m.members[p].gather;
        assert(m.members.dom().contains(p));
        assert(g.stage.does() is Stop);
        if g.claimed.len() > 0 {
            assert(g.claimed.contains(g.claimed[0]));
        }
        assert forall|role: Option<RoleModel>| #[trigger] g.takes(role) implies (role == Some(
            RoleModel::Follower,
        ) || role == Some(RoleModel::Leader(Seq::empty()))) by {
            if g.stage is Leading {
                let paths = role->0->Leader_0;
                if paths.len() > 0 {
                    assert(paths.to_set().contains(paths[0]));
                }
                assert(paths =~= Seq::empty());
            }
        }
    }
}

/// A burst is one batch: where every process tries the lock before the first
/// leader releases it, exactly one leads in the end. It has claimed the entries
/// of all of them, and its role is to run their paths, in order and each of them
/// once. The others follow, and neither an entry nor the lock is left.
pub proof fn a_burst_is_one_batch(arrivals: Map<nat, Arrival>, moves: Seq<Move>, some: nat)
    requires
        can_happen(arrivals, moves),
        in_one_burst(moves),
        all_done(meeting_after(arrivals, moves)),
        arrivals.dom().contains(some),
    ensures
        ({
            let m = meeting_after(arrivals, moves);
            let leader = m.claimed[some];
            &&& arrivals.dom().contains(leader)
            &&& m.stage(leader) is Leading
            &&& runs_everything(arrivals, m.members[leader].gather)
            &&& forall|p: nat|
                arrivals.dom().contains(p) && p != leader ==> #[trigger] m.stage(p) is Following
            &&& forall|e: nat| arrivals.dom().contains(e) ==> #[trigger] m.claimed[e] == leader
            &&& m.spool == Set::<nat>::empty()
            &&& !m.lock
        }),
{
    every_entry_is_claimed_once(arrivals, moves);
    lemma_one_leader(arrivals, moves);
    lemma_orderly(arrivals, moves);
    let m = meeting_after(arrivals, moves);
    let leader = m.claimed[some];
    assert forall|e: nat| arrivals.dom().contains(e) implies #[trigger] m.claimed[e] == leader by {
        assert(led(m.stage(m.claimed[e])));
        assert(led(m.stage(leader)));
    }
    lemma_roles(arrivals, moves, leader);
    assert forall|p: nat| arrivals.dom().contains(p) && p != leader implies #[trigger] m.stage(
        p,
    ) is Following by {
        assert(m.members.dom().contains(p));
        assert(m.stage(p).does() is Stop);
        if m.stage(p) is Leading {
            assert(led(m.stage(p)) && led(m.stage(leader)));
        }
    }
}

/// Whether a process at this stage has begun to claim.
pub open spec fn begun(stage: Stage) -> bool {
    stage is Sweeping || stage is Releasing || stage is Leading
}

/// Whether every process spools before any of them begins to claim.
pub open spec fn spooled_in_time(arrivals: Map<nat, Arrival>, moves: Seq<Move>) -> bool
    decreases moves.len(),
{
    moves.len() > 0 ==> {
        &&& spooled_in_time(arrivals, moves.drop_last())
        &&& moves.last() is Spool ==> nobody_claims(meeting_after(arrivals, moves.drop_last()))
    }
}

/// Whether nobody has begun to claim.
pub open spec fn nobody_claims(m: Meeting) -> bool {
    forall|p: nat| #[trigger] m.members.dom().contains(p) ==> !begun(m.stage(p))
}

/// Whether `p` was the first to claim, has claimed every entry that is gone, and
/// leaves none.
spec fn claims_all(m: Meeting, p: nat) -> bool {
    &&& m.members.dom().contains(p)
    &&& begun(m.stage(p))
    &&& forall|e: nat| #[trigger] m.claimed.dom().contains(e) ==> m.claimed[e] == p
    &&& if m.stage(p) == (Stage::Sweeping { last: false }) {
        &&& m.spool.subset_of(m.members[p].found)
        &&& forall|q: nat| #[trigger] m.members.dom().contains(q) && begun(m.stage(q)) ==> q == p
    } else {
        m.spool == Set::<nat>::empty()
    }
}

/// The first to claim claims everything.
proof fn lemma_claims_all(arrivals: Map<nat, Arrival>, moves: Seq<Move>)
    requires
        can_happen(arrivals, moves),
        spooled_in_time(arrivals, moves),
    ensures
        ({
            let m = meeting_after(arrivals, moves);
            ||| nobody_claims(m) && m.claimed.dom() == Set::<nat>::empty()
            ||| exists|p: nat| #[trigger] claims_all(m, p)
        }),
    decreases moves.len(),
{
    let m = meeting_after(arrivals, moves);
    if moves.len() == 0 {
        assert(m.claimed.dom() =~= Set::<nat>::empty());
    } else {
        let rest = moves.drop_last();
        let before = meeting_after(arrivals, rest);
        let step = moves.last();
        let s = step.mover();
        lemma_claims_all(arrivals, rest);
        lemma_orderly(arrivals, rest);
        if nobody_claims(before) && before.claimed.dom() == Set::<nat>::empty() {
            assert(before.members.dom().contains(s) && !begun(before.stage(s)));
            if begun(m.stage(s)) {
                assert(claims_all(m, s));
            } else {
                assert(m.claimed.dom() =~= Set::<nat>::empty());
            }
        } else {
            let p = choose|p: nat| #[trigger] claims_all(before, p);
            assert(before.members.dom().contains(p));
            assert(before.members.dom().contains(s));
            if s != p && before.stage(p) == (Stage::Sweeping { last: false }) {
                assert(holding(before.stage(p)));
                assert(!begun(m.stage(s)));
            }
            if before.stage(p) != (Stage::Sweeping { last: false }) {
                assert(m.spool =~= Set::<nat>::empty());
            } else if step is SweepEnds {
                assert(m.spool =~= Set::<nat>::empty());
            }
            assert(claims_all(m, p));
        }
    }
}

/// Where every process spools before the first leader begins to claim, one of
/// them runs the paths of all, in order and each of them once. Any other follows,
/// or leads an empty batch, however late it came to the lock; and neither an entry
/// nor the lock is left.
pub proof fn later_leaders_find_nothing(arrivals: Map<nat, Arrival>, moves: Seq<Move>, some: nat)
    requires
        can_happen(arrivals, moves),
        spooled_in_time(arrivals, moves),
        all_done(meeting_after(arrivals, moves)),
        arrivals.dom().contains(some),
    ensures
        ({
            let m = meeting_after(arrivals, moves);
            let leader = m.claimed[some];
            &&& arrivals.dom().contains(leader)
            &&& m.stage(leader) is Leading
            &&& runs_everything(arrivals, m.members[leader].gather)
            &&& forall|p: nat|
                arrivals.dom().contains(p) && p != leader ==> runs_nothing(
                    (#[trigger] m.members[p]).gather,
                )
            &&& m.spool == Set::<nat>::empty()
            &&& !m.lock
        }),
{
    every_entry_is_claimed_once(arrivals, moves);
    lemma_claims_all(arrivals, moves);
    lemma_orderly(arrivals, moves);
    let m = meeting_after(arrivals, moves);
    let leader = m.claimed[some];
    assert(m.claimed.dom().contains(some));
    let p = choose|p: nat| #[trigger] claims_all(m, p);
    assert(claims_all(m, p));
    assert forall|e: nat| arrivals.dom().contains(e) implies #[trigger] m.claimed[e] == leader by {
        assert(m.claimed.dom().contains(e));
    }
    lemma_roles(arrivals, moves, leader);
}

/// Whether a process at this stage has released the lock that it held.
pub open spec fn released(stage: Stage) -> bool {
    stage == Stage::Sweeping { last: true } || stage is Leading
}

/// Whether every process spools before the first leader releases the lock.
pub open spec fn spooled_before_release(arrivals: Map<nat, Arrival>, moves: Seq<Move>) -> bool
    decreases moves.len(),
{
    moves.len() > 0 ==> {
        &&& spooled_before_release(arrivals, moves.drop_last())
        &&& moves.last() is Spool ==> nobody_released(meeting_after(arrivals, moves.drop_last()))
    }
}

/// Whether nobody has released the lock.
pub open spec fn nobody_released(m: Meeting) -> bool {
    forall|p: nat| #[trigger] m.members.dom().contains(p) ==> !released(m.stage(p))
}

/// Whether nobody claims an entry while another is at its last sweep.
pub open spec fn sweeps_in_turn(arrivals: Map<nat, Arrival>, moves: Seq<Move>) -> bool
    decreases moves.len(),
{
    moves.len() > 0 ==> {
        &&& sweeps_in_turn(arrivals, moves.drop_last())
        &&& moves.last() is Claim ==> alone_at_last(
            meeting_after(arrivals, moves.drop_last()),
            moves.last().mover(),
        )
    }
}

/// Whether no other than `p` is at its last sweep.
pub open spec fn alone_at_last(m: Meeting, p: nat) -> bool {
    forall|q: nat| #[trigger]
        m.members.dom().contains(q) && m.stage(q) == (Stage::Sweeping { last: true }) ==> q == p
}

/// Whether `p` was the first to release, has claimed every entry that is gone, and
/// leaves none.
spec fn takes_the_rest(m: Meeting, p: nat) -> bool {
    &&& m.members.dom().contains(p)
    &&& released(m.stage(p))
    &&& forall|e: nat| #[trigger] m.claimed.dom().contains(e) ==> m.claimed[e] == p
    &&& if m.stage(p) is Leading {
        m.spool == Set::<nat>::empty()
    } else {
        m.spool.subset_of(m.members[p].found)
    }
}

/// The first to release takes everything.
proof fn lemma_takes_the_rest(arrivals: Map<nat, Arrival>, moves: Seq<Move>)
    requires
        can_happen(arrivals, moves),
        spooled_before_release(arrivals, moves),
        sweeps_in_turn(arrivals, moves),
    ensures
        ({
            let m = meeting_after(arrivals, moves);
            nobody_released(m) || exists|p: nat| #[trigger] takes_the_rest(m, p)
        }),
    decreases moves.len(),
{
    if moves.len() > 0 {
        let m = meeting_after(arrivals, moves);
        let rest = moves.drop_last();
        let before = meeting_after(arrivals, rest);
        let step = moves.last();
        let s = step.mover();
        lemma_takes_the_rest(arrivals, rest);
        lemma_orderly(arrivals, rest);
        assert(before.members.dom().contains(s));
        if nobody_released(before) {
            assert(!released(before.stage(s)));
            if released(m.stage(s)) {
                // Whoever claimed led, and who leads holds the lock: one process.
                assert forall|e: nat| #[trigger] m.claimed.dom().contains(e) implies m.claimed[e]
                    == s by {
                    assert(before.claimed.dom().contains(e));
                    assert(before.members.dom().contains(before.claimed[e]));
                    assert(holding(before.stage(before.claimed[e])));
                    assert(holding(before.stage(s)));
                }
                assert(takes_the_rest(m, s));
            }
        } else {
            let p = choose|p: nat| #[trigger] takes_the_rest(before, p);
            assert(before.members.dom().contains(p));
            if before.stage(p) is Leading {
                assert(m.spool =~= Set::<nat>::empty());
            } else if step is SweepEnds && s == p {
                assert(m.spool =~= Set::<nat>::empty());
            }
            assert(takes_the_rest(m, p));
        }
    }
}

/// Where every process spools before the first leader releases the lock, and none
/// claims an entry while another is at its last sweep, one of them runs the paths
/// of all, in order and each of them once. Any other follows, or leads an empty
/// batch; and neither an entry nor the lock is left.
pub proof fn one_batch_before_the_release(
    arrivals: Map<nat, Arrival>,
    moves: Seq<Move>,
    some: nat,
)
    requires
        can_happen(arrivals, moves),
        spooled_before_release(arrivals, moves),
        sweeps_in_turn(arrivals, moves),
        all_done(meeting_after(arrivals, moves)),
        arrivals.dom().contains(some),
    ensures
        ({
            let m = meeting_after(arrivals, moves);
            let leader = m.claimed[some];
            &&& arrivals.dom().contains(leader)
            &&& m.stage(leader) is Leading
            &&& runs_everything(arrivals, m.members[leader].gather)
            &&& forall|p: nat|
                arrivals.dom().contains(p) && p != leader ==> runs_nothing(
                    (#[trigger] m.members[p]).gather,
                )
            &&& m.spool == Set::<nat>::empty()
            &&& !m.lock
        }),
{
    every_entry_is_claimed_once(arrivals, moves);
    lemma_takes_the_rest(arrivals, moves);
    lemma_orderly(arrivals, moves);
    let m = meeting_after(arrivals, moves);
    let leader = m.claimed[some];
    assert(m.members.dom().contains(leader) && released(m.stage(leader)));
    let p = choose|p: nat| #[trigger] takes_the_rest(m, p);
    assert(takes_the_rest(m, p));
    assert forall|e: nat| arrivals.dom().contains(e) implies #[trigger] m.claimed[e] == leader by {
        assert(m.claimed.dom().contains(e) && m.claimed.dom().contains(some));
    }
    lemma_roles(arrivals, moves, leader);
}

/// Whether these processes are done and all others have yet to arrive.
pub open spec fn over_for(m: Meeting, done: Set<nat>) -> bool {
    forall|p: nat| #[trigger]
        m.members.dom().contains(p) ==> if done.contains(p) {
            m.stage(p).does() is Stop
        } else {
            m.stage(p) is Spooling
        }
}

/// A later call starts its own batch: processes that arrive when the ones before
/// them are done find no entry of theirs, and leave them none.
pub proof fn a_later_call_starts_its_own_batch(
    arrivals: Map<nat, Arrival>,
    first: Seq<Move>,
    second: Seq<Move>,
    done: Set<nat>,
    e: nat,
)
    requires
        can_happen(arrivals, first + second),
        over_for(meeting_after(arrivals, first), done),
        meeting_after(arrivals, first + second).claimed.dom().contains(e),
    ensures
        done.contains(e) <==> done.contains(meeting_after(arrivals, first + second).claimed[e]),
{
    lemma_batches_apart(arrivals, first, second, done);
}

/// Whether what is done stays done, and is apart from what is not.
spec fn apart(m: Meeting, done: Set<nat>) -> bool {
    &&& forall|p: nat| #[trigger]
        m.members.dom().contains(p) && done.contains(p) ==> m.stage(p).does() is Stop
    &&& forall|p: nat| #[trigger] m.spool.contains(p) ==> !done.contains(p)
    &&& forall|e: nat| #[trigger]
        m.claimed.dom().contains(e) ==> (done.contains(e) <==> done.contains(m.claimed[e]))
}

proof fn lemma_batches_apart(
    arrivals: Map<nat, Arrival>,
    first: Seq<Move>,
    second: Seq<Move>,
    done: Set<nat>,
)
    requires
        can_happen(arrivals, first + second),
        over_for(meeting_after(arrivals, first), done),
    ensures
        apart(meeting_after(arrivals, first + second), done),
    decreases second.len(),
{
    let all = first + second;
    let m = meeting_after(arrivals, all);
    lemma_orderly(arrivals, all);
    if second.len() == 0 {
        assert(all =~= first);
        assert forall|e: nat| !(#[trigger] m.spool.contains(e)) by {
            if m.spool.contains(e) {
                assert(m.members.dom().contains(e));
                assert(m.stage(e) is Following);
                let q = choose|q: nat| #[trigger] will_claim(m, q, e);
                assert(m.members.dom().contains(q));
            }
        }
        assert forall|e: nat| #[trigger] m.claimed.dom().contains(e) implies (done.contains(e)
            <==> done.contains(m.claimed[e])) by {
            lemma_only_members_are_claimed(arrivals, all, e);
            assert(m.members.dom().contains(e));
            assert(m.members.dom().contains(m.claimed[e]));
        }
    } else {
        assert(all.drop_last() =~= first + second.drop_last());
        lemma_batches_apart(arrivals, first, second.drop_last(), done);
        let before = meeting_after(arrivals, all.drop_last());
        assert(before.members.dom().contains(all.last().mover()));
    }
}

// ---------------------------------------------------------------------------
// One process
// ---------------------------------------------------------------------------

/// Each stage has its own next operation; the rendezvous is over where the process
/// leads, follows or runs alone.
pub proof fn each_stage_does_its_own(g: &Gather, r: Action)
    requires
        call_ensures(Gather::action, (g,), r),
    ensures
        r is Spool <==> g.stage is Spooling,
        r is TryLock <==> g.stage is Locking,
        r is Retire <==> g.stage is Retiring,
        r is Count <==> g.stage is Settling,
        r is Sweep <==> g.stage is Sweeping,
        r is Release <==> g.stage is Releasing,
        r is Stop <==> g.stage is Alone || g.stage is Leading || g.stage is Following,
{
}

/// A process arrives with its paths and spools them first. Where that fails it runs them
/// alone; where it does not it tries the lock.
pub proof fn a_process_spools_before_it_locks(
    mine: Vec<FilePath>,
    quiet: u64,
    r: Gather,
    g: &mut Gather,
    ok: bool,
)
    requires
        call_ensures(Gather::new, (mine, quiet), r),
        call_ensures(Gather::spooled, (g, ok), ()),
    ensures
        r.stage is Spooling && r.quiet == quiet && r.claimed.len() == 0,
        models(r.mine@) == models(mine@),
        ok ==> final(g).stage == (Stage::Locking { second: false }),
        !ok ==> final(g).stage is Alone,
        models(final(g).mine@) == models(old(g).mine@),
        models(final(g).claimed@) == models(old(g).claimed@),
{
    assert(r@.claimed.len() == r.claimed.len() && r@.mine == models(r.mine@));
    assert(r@.stage == r.stage && r@.quiet == r.quiet);
    assert(final(g)@.stage == final(g).stage && final(g)@.mine == models(final(g).mine@));
    assert(final(g)@.claimed == models(final(g).claimed@));
}

/// A process that gets the lock, or cannot coordinate, waits from then on for quiet; one
/// that finds it held follows, unless it retires it at its first try; after that it
/// tries once more.
pub proof fn the_lock_is_tried_at_most_twice(
    g: &mut Gather,
    attempt: LockTry,
    now: u64,
    count: usize,
    step: LockStep,
    retired: &mut Gather,
)
    requires
        call_ensures(Gather::tried, (g, attempt, now, count), ()),
        old(g).stage is Locking,
        call_ensures(lock_step, (attempt, old(g).stage->second), step),
        call_ensures(Gather::retired, (retired,), ()),
    ensures
        step is Lead ==> final(g).stage == Stage::Settling(
            Settling { started: now, last_change: now, seen: count, quiet: old(g).quiet },
        ),
        step is Follow ==> final(g).stage is Following,
        step is Retire ==> final(g).stage is Retiring,
        final(retired).stage == (Stage::Locking { second: true }),
        models(final(g).mine@) == models(old(g).mine@),
        models(final(retired).mine@) == models(old(retired).mine@),
{
    assert(final(g)@.stage == final(g).stage && old(g)@.stage == old(g).stage);
    assert(final(g)@.mine == models(final(g).mine@));
    assert(final(retired)@.mine == models(final(retired).mine@));
    assert(final(retired)@.stage == final(retired).stage);
}

/// A leader sweeps once its wait is over, releases the lock, and sweeps once more before
/// it leads; what each sweep claims is added to what it has.
pub proof fn a_leader_sweeps_before_and_after_the_release(
    g: &mut Gather,
    now: u64,
    count: usize,
    wait: &mut Settling,
    closed: bool,
    sweeper: &mut Gather,
    paths: Vec<FilePath>,
    released: &mut Gather,
)
    requires
        call_ensures(Gather::counted, (g, now, count), ()),
        old(g).stage is Settling,
        call_ensures(Settling::look, (wait, now, count), closed),
        *old(wait) == old(g).stage->Settling_0,
        call_ensures(Gather::swept, (sweeper, paths), ()),
        old(sweeper).stage is Sweeping,
        call_ensures(Gather::released, (released,), ()),
    ensures
        closed ==> final(g).stage == (Stage::Sweeping { last: false }),
        !closed ==> final(g).stage == Stage::Settling(*final(wait)),
        old(sweeper).stage->last ==> final(sweeper).stage is Leading,
        !old(sweeper).stage->last ==> final(sweeper).stage is Releasing,
        models(final(sweeper).claimed@) == models(old(sweeper).claimed@) + models(paths@),
        final(released).stage == (Stage::Sweeping { last: true }),
        models(final(released).claimed@) == models(old(released).claimed@),
{
    assert(final(g)@.stage == final(g).stage && old(g)@.stage == old(g).stage);
    assert(final(sweeper)@.stage == final(sweeper).stage);
    assert(old(sweeper)@.stage == old(sweeper).stage);
    assert(final(sweeper)@.claimed == models(final(sweeper).claimed@));
    assert(final(released)@.stage == final(released).stage);
    assert(final(released)@.claimed == models(final(released).claimed@));
}

/// A process has a role once the rendezvous is over: to follow; to run its own paths
/// alone; or to lead, and run every path that it claimed and no other.
pub proof fn a_role_is_what_the_rendezvous_came_to(g: &Gather, r: Option<Role>, p: PathModel)
    requires
        call_ensures(Gather::role, (g,), r),
    ensures
        r is Some <==> g.stage is Alone || g.stage is Leading || g.stage is Following,
        g.stage is Following ==> r is Some && r->0 is Follower,
        g.stage is Alone ==> (r matches Some(Role::Leader(paths)) && models(paths@) == models(
            g.mine@,
        )),
        g.stage is Leading ==> (r matches Some(Role::Leader(paths)) && (models(paths@).contains(p)
            <==> models(g.claimed@).contains(p))),
{
    if let Some(Role::Leader(paths)) = r {
        let m = models(paths@);
        assert(m.to_set().contains(p) <==> m.contains(p));
        let c = models(g.claimed@);
        assert(c.to_set().contains(p) <==> c.contains(p));
        assert(g@.claimed == c);
    }
}

} // verus!
