//! The planning of schema migrations at startup.
//!
//! A migration is known by its version number. The database keeps one record
//! for each migration that was applied. A run applies, in ascending order of
//! version, every known migration that has no record, each in a transaction
//! of its own, and stops at the first that fails. Applying a migration is the
//! caller's work: this module says which one is next and what its outcome
//! means.
use vstd::prelude::*;

verus! {

/// The marker that the database keeps for an applied migration.
#[derive(Debug, Clone, Copy, PartialEq, Eq)]
pub struct MigrationRecord {
    pub version: u64,
    /// When the migration was applied, in seconds since the epoch.
    pub applied_at: u64,
}

/// Why a run stopped.
#[derive(Debug, PartialEq, Eq)]
pub enum MigrationError {
    /// The migration `version` failed and its transaction was rolled back.
    Failed { version: u64, cause: String },
}

/// What the caller does next.
#[derive(Debug, Clone, Copy, PartialEq, Eq)]
pub enum Step {
    /// Apply the migration `version` in a transaction of its own and report
    /// the outcome.
    Apply { version: u64 },
    /// Every pending migration was applied: the service may start.
    Finished,
    /// A migration failed: the service must not start.
    Aborted,
}

/// The outcome of applying one migration.
#[derive(Debug, PartialEq, Eq)]
pub enum Report {
    /// The transaction was committed at the given time.
    Committed { applied_at: u64 },
    /// The transaction was rolled back.
    RolledBack { cause: String },
}

/// Whether the records hold one for `version`.
pub open spec fn recorded(records: Seq<MigrationRecord>, version: u64) -> bool {
    exists|i: int| 0 <= i < records.len() && (#[trigger] records[i]).version == version
}

/// Whether the versions stand in strictly ascending order.
pub open spec fn ascending(plan: Seq<u64>) -> bool {
    forall|i: int, j: int| 0 <= i < j < plan.len() ==> plan[i] < plan[j]
}

/// Whether `plan` is what a run has to apply: the known versions without a
/// record, each once, in ascending order.
pub open spec fn is_pending(plan: Seq<u64>, known: Seq<u64>, records: Seq<MigrationRecord>) -> bool {
    &&& ascending(plan)
    &&& forall|v: u64| #[trigger]
        plan.contains(v) <==> known.contains(v) && !recorded(records, v)
}

/// Whether the records hold one for `version`.
pub fn is_recorded(records: &Vec<MigrationRecord>, version: u64) -> (yes: bool)
    ensures
        yes == recorded(records@, version),
{
    let mut i: usize = 0;
    while i < records.len()
        invariant
            i <= records.len(),
            forall|k: int| 0 <= k < i ==> (#[trigger] records[k]).version != version,
        decreases records.len() - i,
    {
        if records[i].version == version {
            return true;
        }
        i += 1;
    }
    false
}

/// Puts `version` at its place in an ascending plan, unless it is there.
fn insert_ascending(plan: &mut Vec<u64>, version: u64)
    requires
        ascending(old(plan)@),
    ensures
        ascending(final(plan)@),
        forall|v: u64| #[trigger]
            final(plan)@.contains(v) <==> old(plan)@.contains(v) || v == version,
{
    let mut at: usize = 0;
    while at < plan.len() && plan[at] < version
        invariant
            at <= plan.len(),
            plan@ == old(plan)@,
            forall|k: int| 0 <= k < at ==> plan[k] < version,
        decreases plan.len() - at,
    {
        at += 1;
    }
    let ghost before = plan@;
    if at < plan.len() && plan[at] == version {
        assert(before.contains(version));
        return;
    }
    plan.insert(at, version);
    proof {
        let after = plan@;
        assert(after =~= before.insert(at as int, version));
        assert(after[at as int] == version);
        assert forall|i: int, j: int| 0 <= i < j < after.len() implies after[i] < after[j] by {
            let a = if i < at { i } else { i - 1 };
            let b = if j < at { j } else { j - 1 };
            if i != at && j != at {
                assert(before[a] < before[b]);
            } else if i == at {
                assert(before[at as int] >= version);
                assert(before[at as int] <= before[b]) by {
                    if at < b {
                        assert(before[at as int] < before[b]);
                    }
                }
            }
        }
        assert forall|v: u64| #[trigger] after.contains(v) <==> before.contains(v) || v
            == version by {
            if after.contains(v) {
                let i = choose|i: int| 0 <= i < after.len() && after[i] == v;
                if i < at {
                    assert(before[i] == v);
                } else if i > at {
                    assert(before[i - 1] == v);
                }
            }
            if before.contains(v) {
                let i = choose|i: int| 0 <= i < before.len() && before[i] == v;
                if i < at {
                    assert(after[i] == v);
                } else {
                    assert(after[i + 1] == v);
                }
            }
        }
    }
}

/// The migrations that a run has to apply.
pub fn pending(known: &Vec<u64>, records: &Vec<MigrationRecord>) -> (plan: Vec<u64>)
    ensures
        is_pending(plan@, known@, records@),
{
    let mut plan: Vec<u64> = Vec::new();
    let mut i: usize = 0;
    while i < known.len()
        invariant
            i <= known.len(),
            ascending(plan@),
            forall|v: u64| #[trigger]
                plan@.contains(v) <==> known@.take(i as int).contains(v) && !recorded(
                    records@,
                    v,
                ),
        decreases known.len() - i,
    {
        let version = known[i];
        let ghost seen = known@.take(i as int);
        let ghost more = known@.take(i + 1);
        proof {
            assert(more =~= seen.push(version));
            assert forall|v: u64| #[trigger] more.contains(v) <==> seen.contains(v) || v
                == version by {
                if seen.contains(v) {
                    let k = choose|k: int| 0 <= k < seen.len() && seen[k] == v;
                    assert(more[k] == v);
                }
                if v == version {
                    assert(more[i as int] == v);
                }
            }
        }
        if !is_recorded(records, version) {
            insert_ascending(&mut plan, version);
        }
        i += 1;
    }
    assert(known@.take(i as int) =~= known@);
    plan
}

/// A run: its plan, how much of it is done, and whether it was aborted.
pub struct Runner {
    plan: Vec<u64>,
    done: usize,
    failed: bool,
}

/// The mathematical value of a [`Runner`].
pub struct RunnerView {
    pub plan: Seq<u64>,
    pub done: nat,
    pub failed: bool,
}

impl RunnerView {
    /// What the caller does next.
    pub open spec fn next(self) -> Step {
        if self.failed {
            Step::Aborted
        } else if self.done < self.plan.len() {
            Step::Apply { version: self.plan[self.done as int] }
        } else {
            Step::Finished
        }
    }
}

impl View for Runner {
    type V = RunnerView;

    closed spec fn view(&self) -> RunnerView {
        RunnerView { plan: self.plan@, done: self.done as nat, failed: self.failed }
    }
}

impl Runner {
    /// No more is done than was planned.
    #[verifier::type_invariant]
    spec fn inv(self) -> bool {
        self.done <= self.plan@.len()
    }

    /// Plans a run from the known migrations and the records of the
    /// database.
    pub fn start(known: &Vec<u64>, records: &Vec<MigrationRecord>) -> (runner: Runner)
        ensures
            is_pending(runner@.plan, known@, records@),
            runner@.done == 0,
            !runner@.failed,
    {
        Runner { plan: pending(known, records), done: 0, failed: false }
    }

    /// What the caller does next.
    pub fn next(&self) -> (step: Step)
        ensures
            step == self@.next(),
    {
        proof {
            use_type_invariant(self);
        }
        if self.failed {
            Step::Aborted
        } else if self.done < self.plan.len() {
            Step::Apply { version: self.plan[self.done] }
        } else {
            Step::Finished
        }
    }

    /// Takes the outcome of the migration that [`Runner::next`] asked for.
    ///
    /// A commit gives the record to keep and moves the run on. A rollback
    /// aborts the run with the failure. Where no migration was asked for
    /// nothing changes and nothing is returned.
    pub fn settle(&mut self, report: Report) -> (r: Result<Option<MigrationRecord>, MigrationError>)
        ensures
            final(self)@.plan == old(self)@.plan,
            match (old(self)@.next(), report) {
                (Step::Apply { version }, Report::Committed { applied_at }) => {
                    &&& r == Ok::<Option<MigrationRecord>, MigrationError>(
                        Some(MigrationRecord { version, applied_at }),
                    )
                    &&& final(self)@.done == old(self)@.done + 1
                    &&& !final(self)@.failed
                },
                (Step::Apply { version }, Report::RolledBack { cause }) => {
                    &&& r matches Err(MigrationError::Failed { version: v, cause: c })
                    &&& v == version
                    &&& c@ == cause@
                    &&& final(self)@.done == old(self)@.done
                    &&& final(self)@.failed
                },
                _ => {
                    &&& r == Ok::<Option<MigrationRecord>, MigrationError>(None)
                    &&& final(self)@ == old(self)@
                },
            },
    {
        proof {
            use_type_invariant(&*self);
        }
        if self.failed || self.done >= self.plan.len() {
            return Ok(None);
        }
        let version = self.plan[self.done];
        match report {
            Report::Committed { applied_at } => {
                self.done += 1;
                Ok(Some(MigrationRecord { version, applied_at }))
            },
            Report::RolledBack { cause } => {
                self.failed = true;
                Err(MigrationError::Failed { version, cause })
            },
        }
    }
}

/// Two plans for the same migrations and records are the same plan: the
/// order of a run is fixed.
pub proof fn lemma_plan_is_unique(
    one: Seq<u64>,
    other: Seq<u64>,
    known: Seq<u64>,
    records: Seq<MigrationRecord>,
)
    requires
        is_pending(one, known, records),
        is_pending(other, known, records),
    ensures
        one == other,
{
    lemma_same_members_same_plan(one, other);
}

/// Two ascending sequences with the same members are equal.
proof fn lemma_same_members_same_plan(one: Seq<u64>, other: Seq<u64>)
    requires
        ascending(one),
        ascending(other),
        forall|v: u64| #[trigger] one.contains(v) <==> other.contains(v),
    ensures
        one == other,
    decreases one.len(),
{
    if one.len() == 0 {
        if other.len() > 0 {
            assert(other.contains(other[0]));
            assert(one.contains(other[0]));
        }
        assert(one =~= other);
    } else if other.len() == 0 {
        assert(one.contains(one[0]));
        assert(other.contains(one[0]));
    } else {
        let a = one.last();
        let b = other.last();
        assert(one.contains(a));
        assert(other.contains(b));
        assert(other.contains(a));
        assert(one.contains(b));
        let ia = choose|i: int| 0 <= i < other.len() && other[i] == a;
        let ib = choose|i: int| 0 <= i < one.len() && one[i] == b;
        assert(a <= b) by {
            if ia < other.len() - 1 {
                assert(other[ia] < other[other.len() - 1]);
            }
        }
        assert(b <= a) by {
            if ib < one.len() - 1 {
                assert(one[ib] < one[one.len() - 1]);
            }
        }
        let p = one.drop_last();
        let q = other.drop_last();
        assert forall|v: u64| #[trigger] p.contains(v) <==> q.contains(v) by {
            if p.contains(v) {
                let i = choose|i: int| 0 <= i < p.len() && p[i] == v;
                assert(one[i] == v);
                assert(one[i] < one[one.len() - 1]);
                assert(one.contains(v));
                assert(other.contains(v));
                let j = choose|j: int| 0 <= j < other.len() && other[j] == v;
                assert(j < other.len() - 1);
                assert(q[j] == v);
            }
            if q.contains(v) {
                let i = choose|i: int| 0 <= i < q.len() && q[i] == v;
                assert(other[i] == v);
                assert(other[i] < other[other.len() - 1]);
                assert(other.contains(v));
                assert(one.contains(v));
                let j = choose|j: int| 0 <= j < one.len() && one[j] == v;
                assert(j < one.len() - 1);
                assert(p[j] == v);
            }
        }
        lemma_same_members_same_plan(p, q);
        assert(one =~= p.push(a));
        assert(other =~= q.push(b));
    }
}

/// Running twice is running once: when the records hold what they held
/// before a run and one record for each migration of its plan, the plan of
/// the next run is empty, so that run applies nothing and cannot fail.
pub proof fn lemma_second_run_is_empty(
    known: Seq<u64>,
    records: Seq<MigrationRecord>,
    plan: Seq<u64>,
    after: Seq<MigrationRecord>,
    again: Seq<u64>,
)
    requires
        is_pending(plan, known, records),
        forall|v: u64| #[trigger] recorded(after, v) <==> recorded(records, v) || plan.contains(v),
        is_pending(again, known, after),
    ensures
        again == Seq::<u64>::empty(),
        (RunnerView { plan: again, done: 0, failed: false }).next() == Step::Finished,
{
    if again.len() > 0 {
        let v = again[0];
        assert(again.contains(v));
        assert(known.contains(v) && !recorded(after, v));
        assert(!recorded(records, v));
        assert(plan.contains(v));
    }
    assert(again =~= Seq::<u64>::empty());
}

} // verus!
