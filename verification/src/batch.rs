//! The handlers that apply a list of inserts, updates or deletes inside one
//! transaction (inventory items and users): begin, run one statement per
//! element in order, commit, answer.
use vstd::prelude::*;
use crate::outcome::Outcome;
use crate::status::{Status, is_success, insert_failure_status, update_failure_status, status_for_db_error, status_for_update_error};

verus! {

/// Which statement the batch runs for each element.
#[derive(Debug, Clone, Copy, PartialEq, Eq, Structural)]
pub enum BatchKind {
    /// `INSERT ... RETURNING`: each element must come back as a new row.
    Insert,
    /// `UPDATE ... RETURNING`: each element must match an existing row.
    Update,
    /// `DELETE`: each element must remove at least one row.
    Delete,
}

/// What the handler must do next.
#[derive(Debug, Clone, Copy, PartialEq, Eq, Structural)]
pub enum BatchAction {
    /// Begin the transaction.
    Begin,
    /// Run the statement for the element at this index.
    Run(usize),
    /// Commit the transaction.
    Commit,
    /// Answer the request (an error answer drops the transaction, which rolls it back).
    Respond(Status),
}

/// Where a batch stands.
#[derive(Debug, Clone, Copy, PartialEq, Eq, Structural)]
pub enum BatchStage {
    Beginning,
    Running(usize),
    Committing,
    Finished(Status),
}

/// The action that a stage asks for.
pub open spec fn batch_action(stage: BatchStage) -> BatchAction {
    match stage {
        BatchStage::Beginning => BatchAction::Begin,
        BatchStage::Running(i) => BatchAction::Run(i),
        BatchStage::Committing => BatchAction::Commit,
        BatchStage::Finished(s) => BatchAction::Respond(s),
    }
}

/// The outcomes that the action of a stage can have.
pub open spec fn batch_expects(kind: BatchKind, stage: BatchStage, o: Outcome) -> bool {
    match stage {
        BatchStage::Beginning | BatchStage::Committing => o is Done || o is Failed,
        BatchStage::Running(_) => match kind {
            BatchKind::Insert => o is Done || o is Failed,
            BatchKind::Update => o is Done || o is Absent || o is Failed,
            BatchKind::Delete => o is Affected || o is Failed,
        },
        BatchStage::Finished(_) => false,
    }
}

/// The status with which a batch that went through is answered.
pub open spec fn batch_success_status(kind: BatchKind) -> Status {
    match kind {
        BatchKind::Insert => Status::Created,
        BatchKind::Update => Status::Success,
        BatchKind::Delete => Status::NoContent,
    }
}

/// The answer to a statement outcome that stops the batch, if it does.
pub open spec fn statement_refusal(kind: BatchKind, o: Outcome) -> Option<Status> {
    match kind {
        BatchKind::Insert => match o {
            Outcome::Failed(k) => Some(insert_failure_status(k)),
            _ => None,
        },
        BatchKind::Update => match o {
            Outcome::Failed(k) => Some(update_failure_status(k)),
            Outcome::Absent => Some(Status::NotFound),
            _ => None,
        },
        BatchKind::Delete => match o {
            Outcome::Failed(_) => Some(Status::InternalServerError),
            Outcome::Affected(n) => if n == 0 { Some(Status::NotFound) } else { None },
            _ => None,
        },
    }
}

/// The stage that follows `stage` when its action had outcome `o`.
pub open spec fn batch_next(kind: BatchKind, total: nat, stage: BatchStage, o: Outcome) -> BatchStage {
    match stage {
        BatchStage::Beginning => if o is Failed {
            BatchStage::Finished(Status::InternalServerError)
        } else if total == 0 {
            BatchStage::Committing
        } else {
            BatchStage::Running(0)
        },
        BatchStage::Running(i) => match statement_refusal(kind, o) {
            Some(s) => BatchStage::Finished(s),
            None => if i + 1 < total {
                BatchStage::Running((i + 1) as usize)
            } else {
                BatchStage::Committing
            },
        },
        BatchStage::Committing => if o is Failed {
            BatchStage::Finished(Status::InternalServerError)
        } else {
            BatchStage::Finished(batch_success_status(kind))
        },
        BatchStage::Finished(s) => BatchStage::Finished(s),
    }
}

/// A transactional batch of `total` statements of one kind.
pub struct BatchMachine {
    kind: BatchKind,
    total: usize,
    stage: BatchStage,
}

impl BatchMachine {
    pub closed spec fn kind(&self) -> BatchKind {
        self.kind
    }

    pub closed spec fn total(&self) -> nat {
        self.total as nat
    }

    pub closed spec fn stage(&self) -> BatchStage {
        self.stage
    }

    /// The stage never names an element past the end.
    pub closed spec fn wf(&self) -> bool {
        self.stage matches BatchStage::Running(i) ==> i < self.total
    }

    /// A batch of `total` statements of `kind`, about to begin its transaction.
    pub fn new(kind: BatchKind, total: usize) -> (m: BatchMachine)
        ensures
            m.wf(),
            m.kind() == kind,
            m.total() == total,
            m.stage() == BatchStage::Beginning,
    {
        BatchMachine { kind, total, stage: BatchStage::Beginning }
    }

    /// What the handler must do now.
    pub fn action(&self) -> (a: BatchAction)
        ensures
            a == batch_action(self.stage()),
    {
        match self.stage {
            BatchStage::Beginning => BatchAction::Begin,
            BatchStage::Running(i) => BatchAction::Run(i),
            BatchStage::Committing => BatchAction::Commit,
            BatchStage::Finished(s) => BatchAction::Respond(s),
        }
    }

    /// Takes the outcome of the current action and returns the next action.
    pub fn step(&mut self, o: Outcome) -> (a: BatchAction)
        requires
            old(self).wf(),
            batch_expects(old(self).kind(), old(self).stage(), o),
        ensures
            final(self).wf(),
            final(self).kind() == old(self).kind(),
            final(self).total() == old(self).total(),
            final(self).stage() == batch_next(old(self).kind(), old(self).total(), old(self).stage(), o),
            a == batch_action(final(self).stage()),
    {
        let next = match self.stage {
            BatchStage::Beginning => {
                if o.is_failed() {
                    BatchStage::Finished(Status::InternalServerError)
                } else if self.total == 0 {
                    BatchStage::Committing
                } else {
                    BatchStage::Running(0)
                }
            },
            BatchStage::Running(i) => {
                match refusal(self.kind, o) {
                    Some(s) => BatchStage::Finished(s),
                    None => {
                        if i + 1 < self.total {
                            BatchStage::Running(i + 1)
                        } else {
                            BatchStage::Committing
                        }
                    },
                }
            },
            BatchStage::Committing => {
                if o.is_failed() {
                    BatchStage::Finished(Status::InternalServerError)
                } else {
                    BatchStage::Finished(success_status(self.kind))
                }
            },
            BatchStage::Finished(s) => BatchStage::Finished(s),
        };
        self.stage = next;
        self.action()
    }
}

fn success_status(kind: BatchKind) -> (s: Status)
    ensures
        s == batch_success_status(kind),
{
    match kind {
        BatchKind::Insert => Status::Created,
        BatchKind::Update => Status::Success,
        BatchKind::Delete => Status::NoContent,
    }
}

fn refusal(kind: BatchKind, o: Outcome) -> (r: Option<Status>)
    ensures
        r == statement_refusal(kind, o),
{
    match kind {
        BatchKind::Insert => match o {
            Outcome::Failed(k) => Some(status_for_db_error(k)),
            _ => None,
        },
        BatchKind::Update => match o {
            Outcome::Failed(k) => Some(status_for_update_error(k)),
            Outcome::Absent => Some(Status::NotFound),
            _ => None,
        },
        BatchKind::Delete => match o {
            Outcome::Failed(_) => Some(Status::InternalServerError),
            Outcome::Affected(n) => if n == 0 {
                Some(Status::NotFound)
            } else {
                None
            },
            _ => None,
        },
    }
}


/// The stage reached from the start of a batch through the outcomes `outcomes`.
pub open spec fn batch_run(kind: BatchKind, total: nat, outcomes: Seq<Outcome>) -> BatchStage
    decreases outcomes.len(),
{
    if outcomes.len() == 0 {
        BatchStage::Beginning
    } else {
        batch_next(kind, total, batch_run(kind, total, outcomes.drop_last()), outcomes.last())
    }
}

/// Every outcome answers the action that the batch had asked for.
pub open spec fn batch_trace_valid(kind: BatchKind, total: nat, outcomes: Seq<Outcome>) -> bool {
    forall|i: int|
        0 <= i < outcomes.len() ==> #[trigger] batch_expects(
            kind,
            batch_run(kind, total, outcomes.take(i)),
            outcomes[i],
        )
}

/// The stage of a batch after `k` accepted outcomes.
pub open spec fn batch_progress_stage(total: nat, k: nat) -> BatchStage {
    if k == 0 {
        BatchStage::Beginning
    } else if k <= total {
        BatchStage::Running((k - 1) as usize)
    } else {
        BatchStage::Committing
    }
}

/// Outcome `i` of a batch trace was accepted: the begin did not fail, and a
/// statement was not refused.
pub open spec fn batch_accepted(kind: BatchKind, outcomes: Seq<Outcome>, i: int) -> bool {
    if i == 0 {
        !(outcomes[0] is Failed)
    } else {
        statement_refusal(kind, outcomes[i]) is None
    }
}

proof fn lemma_refusal_is_error(kind: BatchKind, o: Outcome)
    ensures
        statement_refusal(kind, o) matches Some(s) ==> !is_success(s),
{
}

proof fn lemma_take_step(outcomes: Seq<Outcome>, k: int)
    requires
        0 < k <= outcomes.len(),
    ensures
        outcomes.take(k).drop_last() == outcomes.take(k - 1),
        outcomes.take(k).last() == outcomes[k - 1],
        outcomes.take(k).len() == k,
{
    assert(outcomes.take(k).drop_last() =~= outcomes.take(k - 1));
}

/// Running a batch through accepted outcomes walks the elements in order.
proof fn lemma_batch_accepted_prefix(kind: BatchKind, total: nat, outcomes: Seq<Outcome>, k: int)
    requires
        total <= usize::MAX,
        0 <= k <= outcomes.len(),
        k <= total + 1,
        forall|j: int| 0 <= j < k ==> #[trigger] batch_accepted(kind, outcomes, j),
    ensures
        batch_run(kind, total, outcomes.take(k)) == batch_progress_stage(total, k as nat),
    decreases k,
{
    if k > 0 {
        lemma_take_step(outcomes, k);
        lemma_batch_accepted_prefix(kind, total, outcomes, k - 1);
        assert(batch_accepted(kind, outcomes, k - 1));
    } else {
        assert(outcomes.take(0) =~= Seq::<Outcome>::empty());
    }
}

/// Progress: a batch that has not finished has accepted every outcome so far
/// and stands where they lead: it began, then ran the statement of each
/// element in order, once each, and commits after the last one.
pub proof fn lemma_batch_progress(kind: BatchKind, total: nat, outcomes: Seq<Outcome>)
    requires
        total <= usize::MAX,
        !(batch_run(kind, total, outcomes) is Finished),
    ensures
        outcomes.len() <= total + 1,
        batch_run(kind, total, outcomes) == batch_progress_stage(total, outcomes.len()),
        forall|j: int| 0 <= j < outcomes.len() ==> #[trigger] batch_accepted(kind, outcomes, j),
    decreases outcomes.len(),
{
    if outcomes.len() > 0 {
        let p = outcomes.drop_last();
        if batch_run(kind, total, p) is Finished {
            assert(batch_run(kind, total, outcomes) is Finished);
        }
        lemma_batch_progress(kind, total, p);
        assert forall|j: int| 0 <= j < outcomes.len() implies #[trigger] batch_accepted(kind, outcomes, j) by {
            if j < p.len() {
                assert(batch_accepted(kind, p, j));
                assert(p[j] == outcomes[j]);
            }
        }
    }
}

/// All or nothing: a batch is answered with success exactly when its
/// transaction began, the statement of every element was accepted (in order,
/// once each) and the commit went through; the answer is then the success
/// status of the batch's kind. Any refusal leaves the transaction uncommitted.
pub proof fn lemma_batch_all_or_nothing(kind: BatchKind, total: nat, outcomes: Seq<Outcome>)
    requires
        total <= usize::MAX,
        batch_trace_valid(kind, total, outcomes),
        batch_run(kind, total, outcomes) is Finished,
    ensures
        is_success(batch_run(kind, total, outcomes)->Finished_0) <==> {
            &&& outcomes.len() == total + 2
            &&& forall|j: int| 0 <= j <= total ==> #[trigger] batch_accepted(kind, outcomes, j)
            &&& !(outcomes[total + 1int] is Failed)
        },
        is_success(batch_run(kind, total, outcomes)->Finished_0) ==> batch_run(
            kind,
            total,
            outcomes,
        )->Finished_0 == batch_success_status(kind),
{
    let n = outcomes.len() as int;
    let p = outcomes.drop_last();
    assert(n > 0);
    lemma_take_step(outcomes, n);
    assert(outcomes.take(n) =~= outcomes);
    assert(p =~= outcomes.take(n - 1));
    assert(batch_expects(kind, batch_run(kind, total, outcomes.take(n - 1)), outcomes[n - 1]));
    lemma_batch_progress(kind, total, p);
    lemma_refusal_is_error(kind, outcomes[n - 1]);
    if is_success(batch_run(kind, total, outcomes)->Finished_0) {
        assert(p.len() == total + 1);
        assert forall|j: int| 0 <= j <= total implies #[trigger] batch_accepted(kind, outcomes, j) by {
            assert(batch_accepted(kind, p, j));
        }
    }
    if outcomes.len() == total + 2 && (forall|j: int| 0 <= j <= total ==> #[trigger] batch_accepted(kind, outcomes, j))
        && !(outcomes[total + 1int] is Failed) {
        assert(p.len() == total + 1);
    }
}

/// The first refused statement ends the batch: no later statement runs,
/// nothing is committed, and the answer is the refusal's status.
pub proof fn lemma_batch_refusal_ends(kind: BatchKind, total: nat, outcomes: Seq<Outcome>, i: int)
    requires
        total <= usize::MAX,
        batch_trace_valid(kind, total, outcomes),
        1 <= i <= total,
        i < outcomes.len(),
        forall|j: int| 0 <= j < i ==> #[trigger] batch_accepted(kind, outcomes, j),
        statement_refusal(kind, outcomes[i]) is Some,
    ensures
        outcomes.len() == i + 1,
        batch_run(kind, total, outcomes) == BatchStage::Finished(
            statement_refusal(kind, outcomes[i])->Some_0,
        ),
{
    lemma_batch_accepted_prefix(kind, total, outcomes, i);
    lemma_take_step(outcomes, i + 1);
    if outcomes.len() > i + 1 {
        assert(batch_expects(kind, batch_run(kind, total, outcomes.take(i + 1)), outcomes[i + 1]));
    }
    assert(outcomes.take(i + 1) =~= outcomes);
}


/// A batch answered with an error commits nothing: either it stopped before
/// its commit was asked for, or the commit itself failed.
pub proof fn lemma_batch_error_not_committed(kind: BatchKind, total: nat, outcomes: Seq<Outcome>)
    requires
        total <= usize::MAX,
        batch_trace_valid(kind, total, outcomes),
        batch_run(kind, total, outcomes) is Finished,
        !is_success(batch_run(kind, total, outcomes)->Finished_0),
    ensures
        outcomes.len() <= total + 1 || (outcomes.len() == total + 2 && outcomes[total + 1int] is Failed),
        outcomes.len() <= total + 1 ==> forall|j: int|
            0 <= j < outcomes.len() ==> #[trigger] batch_run(kind, total, outcomes.take(j))
                != BatchStage::Committing,
{
    let n = outcomes.len() as int;
    let p = outcomes.drop_last();
    assert(n > 0);
    lemma_take_step(outcomes, n);
    assert(outcomes.take(n) =~= outcomes);
    assert(p =~= outcomes.take(n - 1));
    assert(batch_expects(kind, batch_run(kind, total, outcomes.take(n - 1)), outcomes[n - 1]));
    lemma_batch_progress(kind, total, p);
    assert forall|j: int| 0 <= j < n - 1 implies #[trigger] batch_accepted(kind, outcomes, j) by {
        assert(batch_accepted(kind, p, j));
    }
    if outcomes.len() <= total + 1 {
        assert forall|j: int| 0 <= j < outcomes.len() implies #[trigger] batch_run(
            kind,
            total,
            outcomes.take(j),
        ) != BatchStage::Committing by {
            if j < n - 1 {
                lemma_batch_accepted_prefix(kind, total, outcomes, j);
            }
        }
    }
}


/// The statements of a batch run the elements in order, each once: in any
/// valid run, the action asked for after `j` accepted outcomes is the begin
/// (`j == 0`), the statement of element `j - 1` (`1 <= j <= total`), or the
/// commit (`j == total + 1`); so a batch answered with success ran the
/// statements of elements `0..total`, each once, in order, then committed.
pub proof fn lemma_batch_runs_each_element_once(kind: BatchKind, total: nat, outcomes: Seq<Outcome>)
    requires
        total <= usize::MAX,
        batch_trace_valid(kind, total, outcomes),
    ensures
        forall|j: int|
            0 <= j <= outcomes.len() && !(#[trigger] batch_run(kind, total, outcomes.take(j)) is Finished)
                ==> {
                &&& j == 0 ==> batch_action(batch_run(kind, total, outcomes.take(j)))
                    == BatchAction::Begin
                &&& 1 <= j <= total ==> batch_action(batch_run(kind, total, outcomes.take(j)))
                    == BatchAction::Run((j - 1) as usize)
                &&& j == total + 1 ==> batch_action(batch_run(kind, total, outcomes.take(j)))
                    == BatchAction::Commit
                &&& j <= total + 1
            },
        batch_run(kind, total, outcomes) is Finished && is_success(
            batch_run(kind, total, outcomes)->Finished_0,
        ) ==> {
            &&& outcomes.len() == total + 2
            &&& forall|j: int|
                1 <= j <= total ==> batch_action(#[trigger] batch_run(kind, total, outcomes.take(j)))
                    == BatchAction::Run((j - 1) as usize)
            &&& batch_action(batch_run(kind, total, outcomes.take(total + 1int))) == BatchAction::Commit
        },
{
    assert forall|j: int|
        0 <= j <= outcomes.len() && !(#[trigger] batch_run(kind, total, outcomes.take(j)) is Finished)
            implies {
            &&& j == 0 ==> batch_action(batch_run(kind, total, outcomes.take(j)))
                == BatchAction::Begin
            &&& 1 <= j <= total ==> batch_action(batch_run(kind, total, outcomes.take(j)))
                == BatchAction::Run((j - 1) as usize)
            &&& j == total + 1 ==> batch_action(batch_run(kind, total, outcomes.take(j)))
                == BatchAction::Commit
            &&& j <= total + 1
        } by {
        lemma_batch_progress(kind, total, outcomes.take(j));
    }
    if batch_run(kind, total, outcomes) is Finished && is_success(
        batch_run(kind, total, outcomes)->Finished_0,
    ) {
        lemma_batch_all_or_nothing(kind, total, outcomes);
        assert forall|j: int|
            1 <= j <= total implies batch_action(#[trigger] batch_run(kind, total, outcomes.take(j)))
                == BatchAction::Run((j - 1) as usize) by {
            lemma_batch_accepted_prefix(kind, total, outcomes, j);
        }
        lemma_batch_accepted_prefix(kind, total, outcomes, total + 1int);
    }
}

} // verus!
