//! Creating and updating a bundle: inside one transaction, check the
//! requested quantities against what is available, write the bundle record,
//! replace its lines, take a fulfilled bundle's lines out of the inventory,
//! commit, and read the bundle back for the answer.
use vstd::prelude::*;
use crate::grouping::{ItemGroup, distinct_ids, group_lines};
use crate::outcome::Outcome;
use crate::status::{Status, insert_failure_status, is_success, status_for_db_error};

verus! {

/// Whether the request creates a bundle or updates one.
#[derive(Debug, Clone, Copy, PartialEq, Eq, Structural)]
pub enum BundleMode {
    /// A new bundle, stored with this `bundled` flag.
    Create { bundled: bool },
    /// The bundle `bundle_id`; `fulfill` tells whether the request marks it fulfilled.
    Update { bundle_id: i64, fulfill: bool },
}

/// What the handler must do next.
#[derive(Debug, Clone, Copy, PartialEq, Eq, Structural)]
pub enum BundleAction {
    /// Begin the transaction.
    Begin,
    /// Read the record of the bundle that is updated.
    LoadExisting { bundle_id: i64 },
    /// Read how much of `item_id` is available, not counting what unfulfilled
    /// bundles other than `excluded` hold, and compare it with the total that
    /// the lines of group `group` request.
    CheckAvailable { group: usize, item_id: i64, excluded: Option<i64> },
    /// Insert the bundle record.
    InsertRecord { bundled: bool },
    /// Update the bundle record.
    UpdateRecord { bundle_id: i64 },
    /// Delete the lines that the bundle holds.
    ClearLines { bundle_id: i64 },
    /// Insert line `line` of the request into the bundle.
    InsertLine { bundle_id: i64, line: usize },
    /// Read the lines of the bundle, to take them out of the inventory.
    LoadDeductions { bundle_id: i64 },
    /// Take the line read at position `row` out of the inventory, if enough is on hand.
    Deduct { row: usize },
    /// Commit the transaction.
    Commit,
    /// Read the bundle record for the answer.
    LoadRecord { bundle_id: i64 },
    /// Read the lines of the bundle for the answer.
    LoadLines { bundle_id: i64 },
    /// Answer the request (an error answer before the commit rolls the transaction back).
    Respond(Status),
}

/// Where a bundle write stands.
#[derive(Debug, Clone, Copy, PartialEq, Eq, Structural)]
pub enum BundleStage {
    Beginning,
    LoadingExisting,
    Checking(usize),
    WritingRecord,
    ClearingLines,
    InsertingLine(usize),
    LoadingDeductions,
    /// Taking out row `.0` of `.1` rows.
    Deducting(usize, usize),
    Committing,
    LoadingRecord,
    LoadingLines,
    Finished(Status),
}

/// The stage of a bundle write, with the id of the record that the answer
/// shows (the id that the write of the record, or the read after the commit,
/// returned).
#[derive(Debug, Clone, Copy, PartialEq, Eq, Structural)]
pub struct BundleState {
    pub stage: BundleStage,
    pub record: i64,
}

/// What a bundle write is asked to do: its mode, the item that each line
/// names, and for each line whether its quantity is positive.
pub struct BundleConfig {
    pub mode: BundleMode,
    pub item_ids: Seq<i64>,
    pub positive: Seq<bool>,
}

/// The distinct items that the lines name, in the order of their first line;
/// the availability of each is checked once.
pub open spec fn config_groups(cfg: BundleConfig) -> Seq<i64> {
    distinct_ids(cfg.item_ids)
}

pub open spec fn all_positive(positive: Seq<bool>) -> bool {
    forall|i: int| 0 <= i < positive.len() ==> #[trigger] positive[i]
}

/// Whether the write takes the bundle's lines out of the inventory.
pub open spec fn fulfills(cfg: BundleConfig) -> bool {
    match cfg.mode {
        BundleMode::Update { fulfill, .. } => fulfill,
        BundleMode::Create { .. } => false,
    }
}

/// The bundle whose lines are replaced: the updated one, or the created one.
pub open spec fn target_bundle(cfg: BundleConfig, st: BundleState) -> i64 {
    match cfg.mode {
        BundleMode::Update { bundle_id, .. } => bundle_id,
        BundleMode::Create { .. } => st.record,
    }
}

pub open spec fn finished(s: Status) -> BundleStage {
    BundleStage::Finished(s)
}

/// The stage after the existing record (if any) was found changeable: every
/// line must ask for a positive quantity, then the items are checked.
pub open spec fn validation_start(cfg: BundleConfig) -> BundleStage {
    if !all_positive(cfg.positive) {
        finished(Status::BadRequest)
    } else if config_groups(cfg).len() > 0 {
        BundleStage::Checking(0)
    } else {
        BundleStage::WritingRecord
    }
}

/// The stage after the lines were written.
pub open spec fn after_lines(cfg: BundleConfig) -> BundleStage {
    if fulfills(cfg) {
        BundleStage::LoadingDeductions
    } else {
        BundleStage::Committing
    }
}

/// The stage that writes line `i`, or what follows the last line.
pub open spec fn lines_from(cfg: BundleConfig, i: nat) -> BundleStage {
    if i < cfg.positive.len() {
        BundleStage::InsertingLine(i as usize)
    } else {
        after_lines(cfg)
    }
}

/// The stage after the commit.
pub open spec fn after_commit(cfg: BundleConfig) -> BundleStage {
    match cfg.mode {
        BundleMode::Create { .. } => BundleStage::LoadingRecord,
        BundleMode::Update { .. } => BundleStage::LoadingLines,
    }
}

/// The status with which a bundle write that went through is answered.
pub open spec fn bundle_success_status(cfg: BundleConfig) -> Status {
    match cfg.mode {
        BundleMode::Create { .. } => Status::Created,
        BundleMode::Update { .. } => Status::Success,
    }
}

/// The next stage, given the outcome `o` of the current stage's action.
pub open spec fn bundle_next_stage(cfg: BundleConfig, stage: BundleStage, o: Outcome) -> BundleStage {
    match stage {
        BundleStage::Beginning => if o is Failed {
            finished(Status::InternalServerError)
        } else if cfg.mode is Create {
            validation_start(cfg)
        } else {
            BundleStage::LoadingExisting
        },
        BundleStage::LoadingExisting => match o {
            Outcome::Failed(_) => finished(Status::InternalServerError),
            Outcome::Record { fulfilled, .. } => if fulfilled {
                finished(Status::Conflict)
            } else {
                validation_start(cfg)
            },
            _ => finished(Status::NotFound),
        },
        BundleStage::Checking(g) => match o {
            Outcome::Failed(_) => finished(Status::InternalServerError),
            Outcome::Available { exceeds } => if exceeds {
                finished(Status::Conflict)
            } else if g + 1 < config_groups(cfg).len() {
                BundleStage::Checking((g + 1) as usize)
            } else {
                BundleStage::WritingRecord
            },
            _ => finished(Status::BadRequest),
        },
        BundleStage::WritingRecord => match o {
            Outcome::Failed(k) => finished(insert_failure_status(k)),
            _ => BundleStage::ClearingLines,
        },
        BundleStage::ClearingLines => if o is Failed {
            finished(Status::InternalServerError)
        } else {
            lines_from(cfg, 0)
        },
        BundleStage::InsertingLine(i) => match o {
            Outcome::Failed(k) => finished(insert_failure_status(k)),
            _ => lines_from(cfg, (i + 1) as nat),
        },
        BundleStage::LoadingDeductions => match o {
            Outcome::Rows(m) => if m > 0 {
                BundleStage::Deducting(0, m)
            } else {
                BundleStage::Committing
            },
            _ => finished(Status::InternalServerError),
        },
        BundleStage::Deducting(j, m) => match o {
            Outcome::Affected(n) => if n == 0 {
                finished(Status::Conflict)
            } else if j + 1 < m {
                BundleStage::Deducting((j + 1) as usize, m)
            } else {
                BundleStage::Committing
            },
            _ => finished(Status::InternalServerError),
        },
        BundleStage::Committing => if o is Failed {
            finished(Status::InternalServerError)
        } else {
            after_commit(cfg)
        },
        BundleStage::LoadingRecord => match o {
            Outcome::Record { .. } => BundleStage::LoadingLines,
            Outcome::Absent => finished(Status::NotFound),
            _ => finished(Status::InternalServerError),
        },
        BundleStage::LoadingLines => match o {
            Outcome::Rows(_) => finished(bundle_success_status(cfg)),
            _ => finished(Status::InternalServerError),
        },
        BundleStage::Finished(s) => finished(s),
    }
}

/// The next state: the next stage, and the record id that a write or read of
/// the record returned.
pub open spec fn bundle_next(cfg: BundleConfig, st: BundleState, o: Outcome) -> BundleState {
    BundleState {
        stage: bundle_next_stage(cfg, st.stage, o),
        record: match (st.stage, o) {
            (BundleStage::WritingRecord, Outcome::Record { id, .. }) => id,
            (BundleStage::LoadingRecord, Outcome::Record { id, .. }) => id,
            _ => st.record,
        },
    }
}

/// The outcomes that the action of a stage can have.
pub open spec fn bundle_expects(stage: BundleStage, o: Outcome) -> bool {
    match stage {
        BundleStage::Beginning | BundleStage::ClearingLines | BundleStage::InsertingLine(_)
        | BundleStage::Committing => o is Done || o is Failed,
        BundleStage::LoadingExisting | BundleStage::LoadingRecord => o is Record || o is Absent
            || o is Failed,
        BundleStage::Checking(_) => o is Available || o is Absent || o is Failed,
        BundleStage::WritingRecord => o is Record || o is Failed,
        BundleStage::LoadingDeductions | BundleStage::LoadingLines => o is Rows || o is Failed,
        BundleStage::Deducting(_, _) => o is Affected || o is Failed,
        BundleStage::Finished(_) => false,
    }
}

/// The action that a state asks for.
pub open spec fn bundle_action(cfg: BundleConfig, st: BundleState) -> BundleAction {
    match st.stage {
        BundleStage::Beginning => BundleAction::Begin,
        BundleStage::LoadingExisting => BundleAction::LoadExisting {
            bundle_id: target_bundle(cfg, st),
        },
        BundleStage::Checking(g) => BundleAction::CheckAvailable {
            group: g,
            item_id: config_groups(cfg)[g as int],
            excluded: match cfg.mode {
                BundleMode::Update { bundle_id, .. } => Some(bundle_id),
                BundleMode::Create { .. } => None,
            },
        },
        BundleStage::WritingRecord => match cfg.mode {
            BundleMode::Create { bundled } => BundleAction::InsertRecord { bundled },
            BundleMode::Update { bundle_id, .. } => BundleAction::UpdateRecord { bundle_id },
        },
        BundleStage::ClearingLines => BundleAction::ClearLines { bundle_id: target_bundle(cfg, st) },
        BundleStage::InsertingLine(i) => BundleAction::InsertLine {
            bundle_id: target_bundle(cfg, st),
            line: i,
        },
        BundleStage::LoadingDeductions => BundleAction::LoadDeductions {
            bundle_id: target_bundle(cfg, st),
        },
        BundleStage::Deducting(j, _) => BundleAction::Deduct { row: j },
        BundleStage::Committing => BundleAction::Commit,
        BundleStage::LoadingRecord => BundleAction::LoadRecord { bundle_id: st.record },
        BundleStage::LoadingLines => BundleAction::LoadLines { bundle_id: st.record },
        BundleStage::Finished(s) => BundleAction::Respond(s),
    }
}


/// The decisions of a bundle create or update: fed the outcome of each action,
/// it names the next action.
pub struct BundleMachine {
    mode: BundleMode,
    item_ids: Vec<i64>,
    positive: Vec<bool>,
    groups: Vec<ItemGroup>,
    all_positive: bool,
    state: BundleState,
}

fn check_all_positive(positive: &Vec<bool>) -> (b: bool)
    ensures
        b == all_positive(positive@),
{
    let mut i: usize = 0;
    while i < positive.len()
        invariant
            i <= positive.len(),
            forall|j: int| 0 <= j < i ==> #[trigger] positive@[j],
        decreases positive.len() - i,
    {
        if !positive[i] {
            return false;
        }
        i = i + 1;
    }
    true
}

impl BundleMachine {
    pub closed spec fn config(&self) -> BundleConfig {
        BundleConfig { mode: self.mode, item_ids: self.item_ids@, positive: self.positive@ }
    }

    pub closed spec fn state(&self) -> BundleState {
        self.state
    }

    /// The machine's invariant: the groups are those of its lines, and the
    /// stage never names a group, line or row past the end.
    pub closed spec fn wf(&self) -> bool {
        &&& self.item_ids.len() == self.positive.len()
        &&& self.all_positive == all_positive(self.positive@)
        &&& self.groups.len() == distinct_ids(self.item_ids@).len()
        &&& forall|g: int|
            0 <= g < self.groups.len() ==> {
                &&& #[trigger] self.groups[g].item_id == distinct_ids(self.item_ids@)[g]
                &&& self.groups[g].lines@ == crate::grouping::positions_of(
                    self.item_ids@,
                    self.groups[g].item_id,
                )
            }
        &&& self.state.stage matches BundleStage::Checking(g) ==> g < self.groups.len()
        &&& self.state.stage matches BundleStage::InsertingLine(i) ==> i < self.positive.len()
        &&& self.state.stage matches BundleStage::Deducting(j, m) ==> j < m
    }

    fn new(mode: BundleMode, item_ids: Vec<i64>, positive: Vec<bool>) -> (m: BundleMachine)
        requires
            item_ids.len() == positive.len(),
        ensures
            m.wf(),
            m.config() == (BundleConfig { mode, item_ids: item_ids@, positive: positive@ }),
            m.state() == bundle_initial(),
    {
        let groups = group_lines(&item_ids);
        let all_positive = check_all_positive(&positive);
        BundleMachine {
            mode,
            item_ids,
            positive,
            groups,
            all_positive,
            state: BundleState { stage: BundleStage::Beginning, record: 0 },
        }
    }

    /// The write of a new bundle for the lines `item_ids` (with `positive`
    /// telling for each line whether its quantity is above zero); a bundle
    /// whose `bundled` flag is not given is stored as not bundled.
    pub fn for_create(bundled: Option<bool>, item_ids: Vec<i64>, positive: Vec<bool>) -> (m: BundleMachine)
        requires
            item_ids.len() == positive.len(),
        ensures
            m.wf(),
            m.config() == (BundleConfig {
                mode: BundleMode::Create {
                    bundled: match bundled {
                        Some(b) => b,
                        None => false,
                    },
                },
                item_ids: item_ids@,
                positive: positive@,
            }),
            m.state() == bundle_initial(),
    {
        let flag = match bundled {
            Some(b) => b,
            None => false,
        };
        BundleMachine::new(BundleMode::Create { bundled: flag }, item_ids, positive)
    }

    /// The write of bundle `bundle_id` with the lines `item_ids`; a request
    /// that gives a fulfillment time marks the bundle fulfilled and takes its
    /// lines out of the inventory.
    pub fn for_update(
        bundle_id: i64,
        fulfilled_at: &Option<String>,
        item_ids: Vec<i64>,
        positive: Vec<bool>,
    ) -> (m: BundleMachine)
        requires
            item_ids.len() == positive.len(),
        ensures
            m.wf(),
            m.config() == (BundleConfig {
                mode: BundleMode::Update { bundle_id, fulfill: fulfilled_at is Some },
                item_ids: item_ids@,
                positive: positive@,
            }),
            m.state() == bundle_initial(),
    {
        let fulfill = fulfilled_at.is_some();
        BundleMachine::new(BundleMode::Update { bundle_id, fulfill }, item_ids, positive)
    }

    /// The positions of the lines that group `g` gathers.
    pub fn group_lines(&self, g: usize) -> (lines: &Vec<usize>)
        requires
            self.wf(),
            g < config_groups(self.config()).len(),
        ensures
            lines@ == crate::grouping::positions_of(
                self.config().item_ids,
                config_groups(self.config())[g as int],
            ),
    {
        assert(self.groups[g as int].item_id == distinct_ids(self.item_ids@)[g as int]);
        &self.groups[g].lines
    }

    fn target(&self) -> (id: i64)
        ensures
            id == target_bundle(self.config(), self.state()),
    {
        match self.mode {
            BundleMode::Update { bundle_id, .. } => bundle_id,
            BundleMode::Create { .. } => self.state.record,
        }
    }

    /// What the handler must do now.
    pub fn action(&self) -> (a: BundleAction)
        requires
            self.wf(),
        ensures
            a == bundle_action(self.config(), self.state()),
    {
        match self.state.stage {
            BundleStage::Beginning => BundleAction::Begin,
            BundleStage::LoadingExisting => BundleAction::LoadExisting { bundle_id: self.target() },
            BundleStage::Checking(g) => BundleAction::CheckAvailable {
                group: g,
                item_id: self.groups[g].item_id,
                excluded: match self.mode {
                    BundleMode::Update { bundle_id, .. } => Some(bundle_id),
                    BundleMode::Create { .. } => None,
                },
            },
            BundleStage::WritingRecord => match self.mode {
                BundleMode::Create { bundled } => BundleAction::InsertRecord { bundled },
                BundleMode::Update { bundle_id, .. } => BundleAction::UpdateRecord { bundle_id },
            },
            BundleStage::ClearingLines => BundleAction::ClearLines { bundle_id: self.target() },
            BundleStage::InsertingLine(i) => BundleAction::InsertLine {
                bundle_id: self.target(),
                line: i,
            },
            BundleStage::LoadingDeductions => BundleAction::LoadDeductions {
                bundle_id: self.target(),
            },
            BundleStage::Deducting(j, _) => BundleAction::Deduct { row: j },
            BundleStage::Committing => BundleAction::Commit,
            BundleStage::LoadingRecord => BundleAction::LoadRecord { bundle_id: self.state.record },
            BundleStage::LoadingLines => BundleAction::LoadLines { bundle_id: self.state.record },
            BundleStage::Finished(s) => BundleAction::Respond(s),
        }
    }

    fn validation_start(&self) -> (s: BundleStage)
        requires
            self.wf(),
        ensures
            s == validation_start(self.config()),
    {
        if !self.all_positive {
            BundleStage::Finished(Status::BadRequest)
        } else if self.groups.len() > 0 {
            BundleStage::Checking(0)
        } else {
            BundleStage::WritingRecord
        }
    }

    fn lines_from(&self, i: usize) -> (s: BundleStage)
        requires
            self.wf(),
        ensures
            s == lines_from(self.config(), i as nat),
    {
        if i < self.positive.len() {
            BundleStage::InsertingLine(i)
        } else {
            match self.mode {
                BundleMode::Update { fulfill, .. } => if fulfill {
                    BundleStage::LoadingDeductions
                } else {
                    BundleStage::Committing
                },
                BundleMode::Create { .. } => BundleStage::Committing,
            }
        }
    }

    fn next_stage(&self, o: Outcome) -> (s: BundleStage)
        requires
            self.wf(),
            bundle_expects(self.state().stage, o),
        ensures
            s == bundle_next_stage(self.config(), self.state().stage, o),
    {
        match self.state.stage {
            BundleStage::Beginning => if o.is_failed() {
                BundleStage::Finished(Status::InternalServerError)
            } else {
                match self.mode {
                    BundleMode::Create { .. } => self.validation_start(),
                    BundleMode::Update { .. } => BundleStage::LoadingExisting,
                }
            },
            BundleStage::LoadingExisting => match o {
                Outcome::Failed(_) => BundleStage::Finished(Status::InternalServerError),
                Outcome::Record { fulfilled, .. } => if fulfilled {
                    BundleStage::Finished(Status::Conflict)
                } else {
                    self.validation_start()
                },
                _ => BundleStage::Finished(Status::NotFound),
            },
            BundleStage::Checking(g) => match o {
                Outcome::Failed(_) => BundleStage::Finished(Status::InternalServerError),
                Outcome::Available { exceeds } => if exceeds {
                    BundleStage::Finished(Status::Conflict)
                } else if g + 1 < self.groups.len() {
                    BundleStage::Checking(g + 1)
                } else {
                    BundleStage::WritingRecord
                },
                _ => BundleStage::Finished(Status::BadRequest),
            },
            BundleStage::WritingRecord => match o {
                Outcome::Failed(k) => BundleStage::Finished(status_for_db_error(k)),
                _ => BundleStage::ClearingLines,
            },
            BundleStage::ClearingLines => if o.is_failed() {
                BundleStage::Finished(Status::InternalServerError)
            } else {
                self.lines_from(0)
            },
            BundleStage::InsertingLine(i) => match o {
                Outcome::Failed(k) => BundleStage::Finished(status_for_db_error(k)),
                _ => self.lines_from(i + 1),
            },
            BundleStage::LoadingDeductions => match o {
                Outcome::Rows(m) => if m > 0 {
                    BundleStage::Deducting(0, m)
                } else {
                    BundleStage::Committing
                },
                _ => BundleStage::Finished(Status::InternalServerError),
            },
            BundleStage::Deducting(j, m) => match o {
                Outcome::Affected(n) => if n == 0 {
                    BundleStage::Finished(Status::Conflict)
                } else if j + 1 < m {
                    BundleStage::Deducting(j + 1, m)
                } else {
                    BundleStage::Committing
                },
                _ => BundleStage::Finished(Status::InternalServerError),
            },
            BundleStage::Committing => if o.is_failed() {
                BundleStage::Finished(Status::InternalServerError)
            } else {
                match self.mode {
                    BundleMode::Create { .. } => BundleStage::LoadingRecord,
                    BundleMode::Update { .. } => BundleStage::LoadingLines,
                }
            },
            BundleStage::LoadingRecord => match o {
                Outcome::Record { .. } => BundleStage::LoadingLines,
                Outcome::Absent => BundleStage::Finished(Status::NotFound),
                _ => BundleStage::Finished(Status::InternalServerError),
            },
            BundleStage::LoadingLines => match o {
                Outcome::Rows(_) => BundleStage::Finished(
                    match self.mode {
                        BundleMode::Create { .. } => Status::Created,
                        BundleMode::Update { .. } => Status::Success,
                    },
                ),
                _ => BundleStage::Finished(Status::InternalServerError),
            },
            BundleStage::Finished(s) => BundleStage::Finished(s),
        }
    }

    /// Takes the outcome of the current action and returns the next action.
    pub fn step(&mut self, o: Outcome) -> (a: BundleAction)
        requires
            old(self).wf(),
            bundle_expects(old(self).state().stage, o),
        ensures
            final(self).wf(),
            final(self).config() == old(self).config(),
            final(self).state() == bundle_next(old(self).config(), old(self).state(), o),
            a == bundle_action(final(self).config(), final(self).state()),
    {
        let stage = self.next_stage(o);
        let record = match (self.state.stage, o) {
            (BundleStage::WritingRecord, Outcome::Record { id, .. }) => id,
            (BundleStage::LoadingRecord, Outcome::Record { id, .. }) => id,
            _ => self.state.record,
        };
        self.state = BundleState { stage, record };
        self.action()
    }
}


/// The state in which every bundle write starts.
pub open spec fn bundle_initial() -> BundleState {
    BundleState { stage: BundleStage::Beginning, record: 0 }
}

/// The state reached from the start through the outcomes `outcomes`.
pub open spec fn bundle_run(cfg: BundleConfig, outcomes: Seq<Outcome>) -> BundleState
    decreases outcomes.len(),
{
    if outcomes.len() == 0 {
        bundle_initial()
    } else {
        bundle_next(cfg, bundle_run(cfg, outcomes.drop_last()), outcomes.last())
    }
}

/// Every outcome answers the action that the machine had asked for.
pub open spec fn bundle_trace_valid(cfg: BundleConfig, outcomes: Seq<Outcome>) -> bool {
    forall|i: int|
        0 <= i < outcomes.len() ==> #[trigger] bundle_expects(
            bundle_run(cfg, outcomes.take(i)).stage,
            outcomes[i],
        )
}

/// A configuration that a machine can hold.
pub open spec fn config_wf(cfg: BundleConfig) -> bool {
    &&& cfg.item_ids.len() == cfg.positive.len()
    &&& cfg.positive.len() <= usize::MAX
}

/// Position, in the outcomes, of the first availability check.
pub open spec fn checks_start(cfg: BundleConfig) -> nat {
    if cfg.mode is Create {
        1
    } else {
        2
    }
}

/// Position of the write of the bundle record.
pub open spec fn record_write_pos(cfg: BundleConfig) -> nat {
    checks_start(cfg) + config_groups(cfg).len()
}

/// Position of the step that follows the last line.
pub open spec fn lines_end_pos(cfg: BundleConfig) -> nat {
    record_write_pos(cfg) + 2 + cfg.positive.len()
}

/// Position of the commit, when `m` lines are taken out of the inventory.
pub open spec fn commit_pos(cfg: BundleConfig, m: nat) -> nat {
    if fulfills(cfg) {
        lines_end_pos(cfg) + 1 + m
    } else {
        lines_end_pos(cfg)
    }
}

/// How many lines a fulfilling update read back to take out of the inventory.
pub open spec fn deduction_rows(cfg: BundleConfig, outcomes: Seq<Outcome>) -> nat {
    if fulfills(cfg) && outcomes.len() > lines_end_pos(cfg) && outcomes[lines_end_pos(
        cfg,
    ) as int] is Rows {
        outcomes[lines_end_pos(cfg) as int]->Rows_0 as nat
    } else {
        0
    }
}

/// The stage of a bundle write after `k` accepted outcomes, when `m` lines
/// are taken out of the inventory: begin, read the existing record (update),
/// check each item, write the record, clear the lines, insert each line, read
/// and take out each line (fulfilling update), commit, read the answer.
pub open spec fn expected_stage(cfg: BundleConfig, k: nat, m: nat) -> BundleStage {
    let c = checks_start(cfg);
    let w = record_write_pos(cfg);
    let e = lines_end_pos(cfg);
    let cp = commit_pos(cfg, m);
    if k == 0 {
        BundleStage::Beginning
    } else if k < c {
        BundleStage::LoadingExisting
    } else if k < w {
        BundleStage::Checking((k - c) as usize)
    } else if k == w {
        BundleStage::WritingRecord
    } else if k == w + 1 {
        BundleStage::ClearingLines
    } else if k < e {
        BundleStage::InsertingLine((k - w - 2) as usize)
    } else if k < cp {
        if k == e {
            BundleStage::LoadingDeductions
        } else {
            BundleStage::Deducting((k - e - 1) as usize, m as usize)
        }
    } else if k == cp {
        BundleStage::Committing
    } else if cfg.mode is Create && k == cp + 1 {
        BundleStage::LoadingRecord
    } else {
        BundleStage::LoadingLines
    }
}

proof fn lemma_take_step(outcomes: Seq<Outcome>, k: int)
    requires
        0 < k <= outcomes.len(),
    ensures
        outcomes.take(k).drop_last() == outcomes.take(k - 1),
        outcomes.take(k).last() == outcomes[k - 1],
        outcomes.take(k).len() == k,
{
    assert(outcomes.take(k).drop_last() =~= outcomes.take(k - 1));
}

/// The step that a validated stage leads to, when the outcome is accepted.
proof fn lemma_expected_step(cfg: BundleConfig, k: nat, m: nat, o: Outcome)
    requires
        config_wf(cfg),
        m <= usize::MAX,
        k != lines_end_pos(cfg) || !fulfills(cfg) || o == Outcome::Rows(m as usize),
        bundle_expects(expected_stage(cfg, k, m), o),
        !(bundle_next_stage(cfg, expected_stage(cfg, k, m), o) is Finished),
    ensures
        bundle_next_stage(cfg, expected_stage(cfg, k, m), o) == expected_stage(cfg, k + 1, m),
{
    let c = checks_start(cfg);
    let w = record_write_pos(cfg);
    let e = lines_end_pos(cfg);
    let cp = commit_pos(cfg, m);
    let g_len = config_groups(cfg).len();
    let n = cfg.positive.len();
    crate::grouping::lemma_distinct_ids_len(cfg.item_ids);
    let st = expected_stage(cfg, k, m);
    let nx = bundle_next_stage(cfg, st, o);
    if k == 0 {
        assert(st == BundleStage::Beginning);
    } else if k < c {
        assert(st == BundleStage::LoadingExisting);
    } else if k < w {
        let g = (k - c) as usize;
        assert(st == BundleStage::Checking(g));
        assert(g + 1 < g_len <==> k + 1 < w);
        if k + 1 < w {
            assert(((k + 1 - c) as usize) == (g + 1) as usize);
        }
    } else if k == w {
        assert(st == BundleStage::WritingRecord);
    } else if k == w + 1 {
        assert(st == BundleStage::ClearingLines);
    } else if k < e {
        let i = (k - w - 2) as usize;
        assert(st == BundleStage::InsertingLine(i));
        if k + 1 < e {
            assert(((k + 1 - w - 2) as usize) == (i + 1) as usize);
        }
    } else if k < cp {
        if k == e {
            assert(st == BundleStage::LoadingDeductions);
        } else {
            let j = (k - e - 1) as usize;
            assert(st == BundleStage::Deducting(j, m as usize));
            if k + 1 < cp {
                assert(((k + 1 - e - 1) as usize) == (j + 1) as usize);
            }
        }
    } else if k == cp {
        assert(st == BundleStage::Committing);
    } else if cfg.mode is Create && k == cp + 1 {
        assert(st == BundleStage::LoadingRecord);
    } else {
        assert(st == BundleStage::LoadingLines);
    }
}

proof fn lemma_expected_before_deductions(cfg: BundleConfig, k: nat, m1: nat, m2: nat)
    requires
        k <= lines_end_pos(cfg),
    ensures
        expected_stage(cfg, k, m1) == expected_stage(cfg, k, m2),
{
}


/// Progress: a bundle write that has not finished stands at the step that its
/// outcomes lead to along one fixed order (begin; read the existing record,
/// when updating; check each item; write the record; clear the lines; insert
/// each line; read and take out each line, when fulfilling; commit; read the
/// answer), and so did it after each of its earlier outcomes: no step is
/// skipped, repeated or taken out of order.
pub proof fn lemma_bundle_progress(cfg: BundleConfig, outcomes: Seq<Outcome>)
    requires
        config_wf(cfg),
        bundle_trace_valid(cfg, outcomes),
        !(bundle_run(cfg, outcomes).stage is Finished),
    ensures
        bundle_run(cfg, outcomes).stage == expected_stage(
            cfg,
            outcomes.len(),
            deduction_rows(cfg, outcomes),
        ),
        forall|j: int|
            0 <= j <= outcomes.len() ==> #[trigger] bundle_run(cfg, outcomes.take(j)).stage
                == expected_stage(cfg, j as nat, deduction_rows(cfg, outcomes)),
    decreases outcomes.len(),
{
    let n = outcomes.len() as int;
    let m = deduction_rows(cfg, outcomes);
    if n == 0 {
        assert(outcomes.take(0) =~= outcomes);
    } else {
        let p = outcomes.drop_last();
        lemma_take_step(outcomes, n);
        assert(outcomes.take(n) =~= outcomes);
        if bundle_run(cfg, p).stage is Finished {
            assert(bundle_run(cfg, outcomes).stage is Finished);
        }
        assert forall|i: int| 0 <= i < p.len() implies #[trigger] bundle_expects(
            bundle_run(cfg, p.take(i)).stage,
            p[i],
        ) by {
            assert(p.take(i) =~= outcomes.take(i));
            assert(bundle_expects(bundle_run(cfg, outcomes.take(i)).stage, outcomes[i]));
        }
        lemma_bundle_progress(cfg, p);
        let k = p.len();
        let mp = deduction_rows(cfg, p);
        let e = lines_end_pos(cfg);
        if k <= e {
            lemma_expected_before_deductions(cfg, k, mp, m);
        } else {
            assert(p[e as int] == outcomes[e as int]);
        }
        assert(bundle_expects(bundle_run(cfg, outcomes.take(k as int)).stage, outcomes[k as int]));
        assert(p =~= outcomes.take(k as int));
        lemma_expected_step(cfg, k, m, outcomes[k as int]);
        assert forall|j: int| 0 <= j <= outcomes.len() implies #[trigger] bundle_run(
            cfg,
            outcomes.take(j),
        ).stage == expected_stage(cfg, j as nat, m) by {
            if j < n {
                assert(p.take(j) =~= outcomes.take(j));
                assert(bundle_run(cfg, p.take(j)).stage == expected_stage(cfg, j as nat, mp));
                if k <= e {
                    lemma_expected_before_deductions(cfg, j as nat, mp, m);
                }
            }
        }
    }
}


proof fn lemma_prefix_step(cfg: BundleConfig, outcomes: Seq<Outcome>, j: int)
    requires
        0 <= j < outcomes.len(),
    ensures
        bundle_run(cfg, outcomes.take(j + 1)).stage == bundle_next_stage(
            cfg,
            bundle_run(cfg, outcomes.take(j)).stage,
            outcomes[j],
        ),
{
    lemma_take_step(outcomes, j + 1);
}

/// In an unfinished trace, the outcome at position `j` took the machine from
/// the expected stage at `j` to the expected stage at `j + 1`.
proof fn lemma_accepted_at(cfg: BundleConfig, outcomes: Seq<Outcome>, j: int)
    requires
        config_wf(cfg),
        bundle_trace_valid(cfg, outcomes),
        !(bundle_run(cfg, outcomes).stage is Finished),
        0 <= j < outcomes.len(),
    ensures
        bundle_next_stage(
            cfg,
            expected_stage(cfg, j as nat, deduction_rows(cfg, outcomes)),
            outcomes[j],
        ) == expected_stage(cfg, (j + 1) as nat, deduction_rows(cfg, outcomes)),
        bundle_expects(expected_stage(cfg, j as nat, deduction_rows(cfg, outcomes)), outcomes[j]),
{
    lemma_bundle_progress(cfg, outcomes);
    lemma_prefix_step(cfg, outcomes, j);
    assert(bundle_run(cfg, outcomes.take(j)).stage == expected_stage(
        cfg,
        j as nat,
        deduction_rows(cfg, outcomes),
    ));
    assert(bundle_run(cfg, outcomes.take(j + 1)).stage == expected_stage(
        cfg,
        (j + 1) as nat,
        deduction_rows(cfg, outcomes),
    ));
}

/// Checks before writes: once a bundle write has reached the write of its
/// record (or any later step), every line asked for a positive quantity, the
/// bundle being updated was found and was not fulfilled, and the check of
/// every item found enough of it available.
pub proof fn lemma_bundle_checks_before_writes(cfg: BundleConfig, outcomes: Seq<Outcome>)
    requires
        config_wf(cfg),
        bundle_trace_valid(cfg, outcomes),
        !(bundle_run(cfg, outcomes).stage is Finished),
        outcomes.len() >= record_write_pos(cfg),
    ensures
        all_positive(cfg.positive),
        cfg.mode is Update ==> (outcomes[1] is Record && !outcomes[1]->fulfilled),
        forall|g: int|
            0 <= g < config_groups(cfg).len() ==> #[trigger] outcomes[checks_start(cfg) + g]
                == (Outcome::Available { exceeds: false }),
{
    let c = checks_start(cfg) as int;
    let m = deduction_rows(cfg, outcomes);
    crate::grouping::lemma_distinct_ids_len(cfg.item_ids);
    lemma_accepted_at(cfg, outcomes, c - 1);
    if cfg.mode is Update {
        lemma_accepted_at(cfg, outcomes, 0);
    }
    assert forall|g: int|
        0 <= g < config_groups(cfg).len() implies #[trigger] outcomes[checks_start(cfg) + g]
            == (Outcome::Available { exceeds: false }) by {
        lemma_accepted_at(cfg, outcomes, c + g);
        assert(expected_stage(cfg, (c + g) as nat, m) == BundleStage::Checking(g as usize));
    }
}


/// All or nothing: a bundle write is answered with success only when every
/// check passed, the write of the record returned it, the clearing of the
/// lines and the insert of every line were accepted, a fulfilling update read
/// its lines back and took every one of them out of the inventory (each update
/// touching a row), and the commit went through; the answer, Created for a new
/// bundle and OK for an update, comes right after the bundle is read back.
#[verifier::spinoff_prover]
#[verifier::rlimit(40)]
pub proof fn lemma_bundle_success(cfg: BundleConfig, outcomes: Seq<Outcome>)
    requires
        config_wf(cfg),
        bundle_trace_valid(cfg, outcomes),
        bundle_run(cfg, outcomes).stage is Finished,
        is_success(bundle_run(cfg, outcomes).stage->Finished_0),
    ensures
        bundle_run(cfg, outcomes).stage == BundleStage::Finished(bundle_success_status(cfg)),
        all_positive(cfg.positive),
        cfg.mode is Update ==> (outcomes[1] is Record && !outcomes[1]->fulfilled),
        forall|g: int|
            0 <= g < config_groups(cfg).len() ==> #[trigger] outcomes[checks_start(cfg) + g]
                == (Outcome::Available { exceeds: false }),
        outcomes[record_write_pos(cfg) as int] is Record,
        outcomes[record_write_pos(cfg) + 1int] == Outcome::Done,
        forall|i: int|
            0 <= i < cfg.positive.len() ==> #[trigger] outcomes[record_write_pos(cfg) + 2 + i]
                == Outcome::Done,
        fulfills(cfg) ==> outcomes[lines_end_pos(cfg) as int] == Outcome::Rows(
            deduction_rows(cfg, outcomes) as usize,
        ),
        fulfills(cfg) ==> forall|j: int|
            0 <= j < deduction_rows(cfg, outcomes) ==> {
                &&& #[trigger] outcomes[lines_end_pos(cfg) + 1 + j] is Affected
                &&& outcomes[lines_end_pos(cfg) + 1 + j]->Affected_0 > 0
            },
        outcomes[commit_pos(cfg, deduction_rows(cfg, outcomes)) as int] == Outcome::Done,
        outcomes.len() == commit_pos(cfg, deduction_rows(cfg, outcomes)) + if cfg.mode is Create {
            3int
        } else {
            2int
        },
{
    let len = outcomes.len() as int;
    let p = outcomes.drop_last();
    let k = len - 1;
    assert(len > 0);
    lemma_take_step(outcomes, len);
    assert(outcomes.take(len) =~= outcomes);
    assert(p =~= outcomes.take(k));
    assert(bundle_expects(bundle_run(cfg, outcomes.take(k)).stage, outcomes[k]));
    assert forall|i: int| 0 <= i < p.len() implies #[trigger] bundle_expects(
        bundle_run(cfg, p.take(i)).stage,
        p[i],
    ) by {
        assert(p.take(i) =~= outcomes.take(i));
        assert(bundle_expects(bundle_run(cfg, outcomes.take(i)).stage, outcomes[i]));
    }
    lemma_bundle_progress(cfg, p);
    let m = deduction_rows(cfg, p);
    let w = record_write_pos(cfg) as int;
    let e = lines_end_pos(cfg) as int;
    let cp = commit_pos(cfg, m) as int;
    crate::grouping::lemma_distinct_ids_len(cfg.item_ids);
    assert(bundle_run(cfg, p).stage == BundleStage::LoadingLines);
    assert(k > cp);
    assert(k > e);
    assert(p[e] == outcomes[e]);
    assert(deduction_rows(cfg, outcomes) == m);
    if cfg.mode is Create {
        if k > cp + 2 {
            lemma_accepted_at(cfg, p, cp + 2);
        }
        assert(k == cp + 2);
    } else {
        if k > cp + 1 {
            lemma_accepted_at(cfg, p, cp + 1);
        }
        assert(k == cp + 1);
    }
    lemma_bundle_checks_before_writes(cfg, p);
    assert forall|g: int|
        0 <= g < config_groups(cfg).len() implies #[trigger] outcomes[checks_start(cfg) + g]
            == (Outcome::Available { exceeds: false }) by {
        assert(p[checks_start(cfg) + g] == (Outcome::Available { exceeds: false }));
    }
    lemma_accepted_at(cfg, p, w);
    lemma_accepted_at(cfg, p, w + 1);
    assert forall|i: int|
        0 <= i < cfg.positive.len() implies #[trigger] outcomes[record_write_pos(cfg) + 2 + i]
            == Outcome::Done by {
        lemma_accepted_at(cfg, p, w + 2 + i);
        assert(expected_stage(cfg, (w + 2 + i) as nat, m) == BundleStage::InsertingLine(i as usize));
    }
    if fulfills(cfg) {
        lemma_accepted_at(cfg, p, e);
        assert forall|j: int| 0 <= j < m implies {
            &&& #[trigger] outcomes[lines_end_pos(cfg) + 1 + j] is Affected
            &&& outcomes[lines_end_pos(cfg) + 1 + j]->Affected_0 > 0
        } by {
            lemma_accepted_at(cfg, p, e + 1 + j);
            assert(expected_stage(cfg, (e + 1 + j) as nat, m) == BundleStage::Deducting(
                j as usize,
                m as usize,
            ));
        }
    }
    lemma_accepted_at(cfg, p, cp);
}


proof fn lemma_valid_prefix(cfg: BundleConfig, outcomes: Seq<Outcome>, k: int)
    requires
        bundle_trace_valid(cfg, outcomes),
        0 <= k <= outcomes.len(),
    ensures
        bundle_trace_valid(cfg, outcomes.take(k)),
{
    let q = outcomes.take(k);
    assert forall|i: int| 0 <= i < q.len() implies #[trigger] bundle_expects(
        bundle_run(cfg, q.take(i)).stage,
        q[i],
    ) by {
        assert(q.take(i) =~= outcomes.take(i));
        assert(bundle_expects(bundle_run(cfg, outcomes.take(i)).stage, outcomes[i]));
    }
}

/// An outcome that finishes the write ends the trace: nothing follows it.
proof fn lemma_finish_ends_trace(cfg: BundleConfig, outcomes: Seq<Outcome>, k: int)
    requires
        bundle_trace_valid(cfg, outcomes),
        0 <= k < outcomes.len(),
        bundle_run(cfg, outcomes.take(k + 1)).stage is Finished,
    ensures
        outcomes.len() == k + 1,
        bundle_run(cfg, outcomes) == bundle_run(cfg, outcomes.take(k + 1)),
{
    if outcomes.len() > k + 1 {
        assert(bundle_expects(bundle_run(cfg, outcomes.take(k + 1)).stage, outcomes[k + 1]));
    }
    assert(outcomes.take(k + 1) =~= outcomes);
}

/// A fulfilled bundle is never changed: when the record read for an update
/// says that the bundle is fulfilled, the update is answered with Conflict at
/// once, before any check or write.
pub proof fn lemma_fulfilled_bundle_frozen(cfg: BundleConfig, outcomes: Seq<Outcome>)
    requires
        config_wf(cfg),
        bundle_trace_valid(cfg, outcomes),
        cfg.mode is Update,
        outcomes.len() >= 2,
        outcomes[0] == Outcome::Done,
        outcomes[1] is Record,
        outcomes[1]->fulfilled,
    ensures
        outcomes.len() == 2,
        bundle_run(cfg, outcomes).stage == BundleStage::Finished(Status::Conflict),
{
    lemma_prefix_step(cfg, outcomes, 0);
    lemma_prefix_step(cfg, outcomes, 1);
    assert(outcomes.take(0) =~= Seq::<Outcome>::empty());
    lemma_finish_ends_trace(cfg, outcomes, 1);
}

/// A refused check stops the write: when the check of an item finds that more
/// is requested than is available, or finds no such item, the request is
/// answered with Conflict, or Bad Request, at once, and nothing is written.
pub proof fn lemma_bundle_check_refusal(cfg: BundleConfig, outcomes: Seq<Outcome>, g: int)
    requires
        config_wf(cfg),
        bundle_trace_valid(cfg, outcomes),
        0 <= g < config_groups(cfg).len(),
        checks_start(cfg) + g < outcomes.len(),
        !(bundle_run(cfg, outcomes.take(checks_start(cfg) + g)).stage is Finished),
        outcomes[checks_start(cfg) + g] is Absent || outcomes[checks_start(cfg) + g] == (
        Outcome::Available { exceeds: true }),
    ensures
        outcomes.len() == checks_start(cfg) + g + 1,
        bundle_run(cfg, outcomes).stage == BundleStage::Finished(
            if outcomes[checks_start(cfg) + g] is Absent {
                Status::BadRequest
            } else {
                Status::Conflict
            },
        ),
{
    let k = checks_start(cfg) + g;
    crate::grouping::lemma_distinct_ids_len(cfg.item_ids);
    lemma_valid_prefix(cfg, outcomes, k);
    lemma_bundle_progress(cfg, outcomes.take(k));
    assert(outcomes.take(k).take(k) =~= outcomes.take(k));
    assert(bundle_run(cfg, outcomes.take(k)).stage == BundleStage::Checking(g as usize));
    lemma_prefix_step(cfg, outcomes, k);
    lemma_finish_ends_trace(cfg, outcomes, k);
}


proof fn lemma_record_step(cfg: BundleConfig, st: BundleState, o: Outcome)
    requires
        st.stage != BundleStage::WritingRecord,
        st.stage != BundleStage::LoadingRecord,
    ensures
        bundle_next(cfg, st, o).record == st.record,
{
}

proof fn lemma_record_written(cfg: BundleConfig, st: BundleState, o: Outcome)
    requires
        st.stage == BundleStage::WritingRecord,
        o is Record,
    ensures
        bundle_next(cfg, st, o).record == o->id,
{
}

proof fn lemma_expected_mid(cfg: BundleConfig, k: nat, m: nat)
    requires
        record_write_pos(cfg) < k <= commit_pos(cfg, m),
    ensures
        expected_stage(cfg, k, m) != BundleStage::WritingRecord,
        expected_stage(cfg, k, m) != BundleStage::LoadingRecord,
{
}

#[verifier::spinoff_prover]
proof fn lemma_record_kept(cfg: BundleConfig, outcomes: Seq<Outcome>, k: int)
    requires
        config_wf(cfg),
        bundle_trace_valid(cfg, outcomes),
        !(bundle_run(cfg, outcomes).stage is Finished),
        record_write_pos(cfg) < k <= outcomes.len(),
        k <= commit_pos(cfg, deduction_rows(cfg, outcomes)) + 1,
    ensures
        bundle_run(cfg, outcomes.take(k)).record == outcomes[record_write_pos(cfg) as int]->id,
    decreases k,
{
    let w = record_write_pos(cfg) as int;
    let m = deduction_rows(cfg, outcomes);
    let prev = bundle_run(cfg, outcomes.take(k - 1));
    lemma_take_step(outcomes, k);
    assert(bundle_run(cfg, outcomes.take(k)) == bundle_next(cfg, prev, outcomes[k - 1]));
    lemma_bundle_progress(cfg, outcomes);
    assert(prev.stage == expected_stage(cfg, (k - 1) as nat, m));
    if k - 1 > w {
        lemma_record_kept(cfg, outcomes, k - 1);
        lemma_expected_mid(cfg, (k - 1) as nat, m);
        lemma_record_step(cfg, prev, outcomes[k - 1]);
    } else {
        lemma_accepted_at(cfg, outcomes, k - 1);
        assert(expected_stage(cfg, w as nat, m) == BundleStage::WritingRecord);
        lemma_record_written(cfg, prev, outcomes[k - 1]);
    }
}

/// The lines go to the bundle whose record was written: from the write of the
/// record up to the commit, the bundle whose lines are cleared, inserted and
/// taken out is the updated one or, for a new bundle, the one whose id the
/// insert of the record returned; a new bundle is then read back by that id.
pub proof fn lemma_lines_target_written_record(cfg: BundleConfig, outcomes: Seq<Outcome>)
    requires
        config_wf(cfg),
        bundle_trace_valid(cfg, outcomes),
        !(bundle_run(cfg, outcomes).stage is Finished),
        record_write_pos(cfg) < outcomes.len(),
        outcomes.len() <= commit_pos(cfg, deduction_rows(cfg, outcomes)) + 1,
    ensures
        target_bundle(cfg, bundle_run(cfg, outcomes)) == match cfg.mode {
            BundleMode::Update { bundle_id, .. } => bundle_id,
            BundleMode::Create { .. } => outcomes[record_write_pos(cfg) as int]->id,
        },
{
    lemma_record_kept(cfg, outcomes, outcomes.len() as int);
    assert(outcomes.take(outcomes.len() as int) =~= outcomes);
}


/// The number of calls of a bundle write that goes through, when `m` lines
/// are taken out of the inventory.
pub open spec fn bundle_success_len(cfg: BundleConfig, m: nat) -> nat {
    commit_pos(cfg, m) + if cfg.mode is Create {
        3nat
    } else {
        2nat
    }
}

/// The outcome that lets the write go on from position `j` of its fixed order
/// (or, at the last position, succeed), when `m` lines are taken out: the
/// begin and the commit done, the bundle found open, every item available,
/// every write accepted, every line taken out, the bundle read back.
pub open spec fn bundle_accepting(cfg: BundleConfig, m: nat, j: nat, o: Outcome) -> bool {
    match expected_stage(cfg, j, m) {
        BundleStage::Beginning => o == Outcome::Done,
        BundleStage::LoadingExisting => o is Record && !o->fulfilled,
        BundleStage::Checking(_) => o == (Outcome::Available { exceeds: false }),
        BundleStage::WritingRecord => o is Record,
        BundleStage::ClearingLines => o == Outcome::Done,
        BundleStage::InsertingLine(_) => o == Outcome::Done,
        BundleStage::LoadingDeductions => o == Outcome::Rows(m as usize),
        BundleStage::Deducting(_, _) => o is Affected && o->Affected_0 > 0,
        BundleStage::Committing => o == Outcome::Done,
        BundleStage::LoadingRecord => o is Record,
        BundleStage::LoadingLines => o is Rows,
        BundleStage::Finished(_) => false,
    }
}

proof fn lemma_accepting_step(cfg: BundleConfig, m: nat, k: nat, o: Outcome)
    requires
        config_wf(cfg),
        all_positive(cfg.positive),
        m <= usize::MAX,
        k + 1 < bundle_success_len(cfg, m),
        bundle_accepting(cfg, m, k, o),
    ensures
        bundle_expects(expected_stage(cfg, k, m), o),
        bundle_next_stage(cfg, expected_stage(cfg, k, m), o) == expected_stage(cfg, k + 1, m),
{
    crate::grouping::lemma_distinct_ids_len(cfg.item_ids);
    let st = expected_stage(cfg, k, m);
    assert(st != BundleStage::LoadingLines);
    assert(!(bundle_next_stage(cfg, st, o) is Finished));
    lemma_expected_step(cfg, k, m, o);
}

/// Completeness: a bundle write whose lines all ask for positive quantities,
/// and each of whose calls has the accepting outcome (the bundle found open,
/// every item available, every write accepted, every line taken out, the
/// commit done, the bundle read back), is a valid run of the machine and is
/// answered with success: Created for a new bundle, OK for an update.
pub proof fn lemma_bundle_completes(cfg: BundleConfig, m: nat, outcomes: Seq<Outcome>)
    requires
        config_wf(cfg),
        all_positive(cfg.positive),
        m <= usize::MAX,
        outcomes.len() == bundle_success_len(cfg, m),
        forall|j: int|
            0 <= j < outcomes.len() ==> #[trigger] bundle_accepting(cfg, m, j as nat, outcomes[j]),
    ensures
        bundle_trace_valid(cfg, outcomes),
        bundle_run(cfg, outcomes).stage == BundleStage::Finished(bundle_success_status(cfg)),
{
    let len = outcomes.len() as int;
    assert forall|k: int| 0 <= k < len implies #[trigger] bundle_run(cfg, outcomes.take(k)).stage
        == expected_stage(cfg, k as nat, m) by {
        lemma_completes_prefix(cfg, m, outcomes, k);
    }
    assert forall|i: int| 0 <= i < outcomes.len() implies #[trigger] bundle_expects(
        bundle_run(cfg, outcomes.take(i)).stage,
        outcomes[i],
    ) by {
        assert(bundle_run(cfg, outcomes.take(i)).stage == expected_stage(cfg, i as nat, m));
        assert(bundle_accepting(cfg, m, i as nat, outcomes[i]));
    }
    lemma_prefix_step(cfg, outcomes, len - 1);
    assert(outcomes.take(len) =~= outcomes);
    assert(bundle_run(cfg, outcomes.take(len - 1)).stage == expected_stage(cfg, (len - 1) as nat, m));
    assert(expected_stage(cfg, (len - 1) as nat, m) == BundleStage::LoadingLines);
    assert(bundle_accepting(cfg, m, (len - 1) as nat, outcomes[len - 1]));
}

proof fn lemma_completes_prefix(cfg: BundleConfig, m: nat, outcomes: Seq<Outcome>, k: int)
    requires
        config_wf(cfg),
        all_positive(cfg.positive),
        m <= usize::MAX,
        outcomes.len() == bundle_success_len(cfg, m),
        forall|j: int|
            0 <= j < outcomes.len() ==> #[trigger] bundle_accepting(cfg, m, j as nat, outcomes[j]),
        0 <= k < outcomes.len(),
    ensures
        bundle_run(cfg, outcomes.take(k)).stage == expected_stage(cfg, k as nat, m),
    decreases k,
{
    if k == 0 {
        assert(outcomes.take(0) =~= Seq::<Outcome>::empty());
    } else {
        lemma_completes_prefix(cfg, m, outcomes, k - 1);
        lemma_prefix_step(cfg, outcomes, k - 1);
        assert(bundle_accepting(cfg, m, (k - 1) as nat, outcomes[k - 1]));
        lemma_accepting_step(cfg, m, (k - 1) as nat, outcomes[k - 1]);
    }
}

/// An error answer leaves nothing committed unless the commit itself went
/// through: a bundle write answered with an error either stopped before its
/// commit step (no commit was ever asked for), or its commit failed, or it
/// failed reading the bundle back after a commit that went through.
#[verifier::spinoff_prover]
#[verifier::rlimit(40)]
pub proof fn lemma_bundle_error_commit(cfg: BundleConfig, outcomes: Seq<Outcome>)
    requires
        config_wf(cfg),
        bundle_trace_valid(cfg, outcomes),
        bundle_run(cfg, outcomes).stage is Finished,
        !is_success(bundle_run(cfg, outcomes).stage->Finished_0),
    ensures
        ({
            let cp = commit_pos(cfg, deduction_rows(cfg, outcomes));
            ||| outcomes.len() <= cp && forall|j: int|
                0 <= j < outcomes.len() ==> #[trigger] bundle_run(cfg, outcomes.take(j)).stage
                    != BundleStage::Committing
            ||| outcomes.len() == cp + 1 && outcomes[cp as int] is Failed
            ||| cp + 1 < outcomes.len() <= bundle_success_len(cfg, deduction_rows(cfg, outcomes))
                && outcomes[cp as int] == Outcome::Done
        }),
{
    let len = outcomes.len() as int;
    let p = outcomes.drop_last();
    let k = len - 1;
    assert(len > 0);
    lemma_take_step(outcomes, len);
    assert(outcomes.take(len) =~= outcomes);
    assert(p =~= outcomes.take(k));
    assert(bundle_expects(bundle_run(cfg, outcomes.take(k)).stage, outcomes[k]));
    lemma_valid_prefix(cfg, outcomes, k);
    lemma_bundle_progress(cfg, p);
    let m = deduction_rows(cfg, p);
    let e = lines_end_pos(cfg) as int;
    let cp = commit_pos(cfg, m) as int;
    crate::grouping::lemma_distinct_ids_len(cfg.item_ids);
    if k > e {
        assert(p[e] == outcomes[e]);
    }
    if k == e && fulfills(cfg) {
        assert(bundle_run(cfg, p).stage == BundleStage::LoadingDeductions);
        assert(!(outcomes[k] is Rows));
    }
    assert(deduction_rows(cfg, outcomes) == m);
    if k < cp {
        assert forall|j: int| 0 <= j < outcomes.len() implies #[trigger] bundle_run(
            cfg,
            outcomes.take(j),
        ).stage != BundleStage::Committing by {
            assert(p.take(j) =~= outcomes.take(j));
            assert(bundle_run(cfg, p.take(j)).stage == expected_stage(cfg, j as nat, m));
        }
    } else if k == cp {
        assert(bundle_run(cfg, p).stage == BundleStage::Committing);
    } else {
        lemma_accepted_at(cfg, p, cp);
        assert(expected_stage(cfg, cp as nat, m) == BundleStage::Committing);
        if cfg.mode is Create {
            if k > cp + 2 {
                lemma_accepted_at(cfg, p, cp + 2);
            }
        } else {
            if k > cp + 1 {
                lemma_accepted_at(cfg, p, cp + 1);
            }
        }
    }
}


/// Before the checks, and through every check that passed, the write stands
/// at the expected step.
proof fn lemma_checks_prefix(cfg: BundleConfig, outcomes: Seq<Outcome>, k: int)
    requires
        config_wf(cfg),
        all_positive(cfg.positive),
        0 <= k <= record_write_pos(cfg),
        k <= outcomes.len(),
        forall|j: int| 0 <= j < k ==> #[trigger] bundle_accepting(cfg, 0, j as nat, outcomes[j]),
    ensures
        bundle_run(cfg, outcomes.take(k)).stage == expected_stage(cfg, k as nat, 0),
    decreases k,
{
    if k == 0 {
        assert(outcomes.take(0) =~= Seq::<Outcome>::empty());
    } else {
        lemma_checks_prefix(cfg, outcomes, k - 1);
        lemma_prefix_step(cfg, outcomes, k - 1);
        assert(bundle_accepting(cfg, 0, (k - 1) as nat, outcomes[k - 1]));
        lemma_accepting_step(cfg, 0, (k - 1) as nat, outcomes[k - 1]);
    }
}

/// The availability check over all items, for a create or an update whose
/// lines all ask for positive quantities and whose begin succeeded (and, for
/// an update, whose bundle was found open): the write goes on past the checks
/// to the write of its record if and only if every item was found with
/// enough available; at the first item that is missing the request is
/// answered with Bad Request, and at the first item of which more is asked
/// than is available with Conflict, in either case at once, before any write.
pub proof fn lemma_bundle_availability(cfg: BundleConfig, outcomes: Seq<Outcome>)
    requires
        config_wf(cfg),
        bundle_trace_valid(cfg, outcomes),
        all_positive(cfg.positive),
        outcomes.len() >= checks_start(cfg),
        outcomes[0] == Outcome::Done,
        cfg.mode is Update ==> (outcomes[1] is Record && !outcomes[1]->fulfilled),
    ensures
        outcomes.len() >= record_write_pos(cfg) ==> (bundle_run(
            cfg,
            outcomes.take(record_write_pos(cfg) as int),
        ).stage == BundleStage::WritingRecord <==> forall|g: int|
            0 <= g < config_groups(cfg).len() ==> #[trigger] outcomes[checks_start(cfg) + g]
                == (Outcome::Available { exceeds: false })),
        forall|g: int|
            0 <= g < config_groups(cfg).len() && checks_start(cfg) + g < outcomes.len() && (forall|
                h: int,
            |
                0 <= h < g ==> #[trigger] outcomes[checks_start(cfg) + h] == (Outcome::Available {
                    exceeds: false,
                })) && (#[trigger] outcomes[checks_start(cfg) + g] is Absent || outcomes[checks_start(
                cfg,
            ) + g] == (Outcome::Available { exceeds: true })) ==> {
                &&& outcomes.len() == checks_start(cfg) + g + 1
                &&& bundle_run(cfg, outcomes).stage == BundleStage::Finished(
                    if outcomes[checks_start(cfg) + g] is Absent {
                        Status::BadRequest
                    } else {
                        Status::Conflict
                    },
                )
            },
{
    let c = checks_start(cfg) as int;
    let w = record_write_pos(cfg) as int;
    crate::grouping::lemma_distinct_ids_len(cfg.item_ids);
    assert(expected_stage(cfg, 0, 0) == BundleStage::Beginning);
    assert(bundle_accepting(cfg, 0, 0, outcomes[0]));
    if cfg.mode is Update {
        assert(expected_stage(cfg, 1, 0) == BundleStage::LoadingExisting);
        assert(bundle_accepting(cfg, 0, 1, outcomes[1]));
    }
    if outcomes.len() >= w {
        if forall|g: int|
            0 <= g < config_groups(cfg).len() ==> #[trigger] outcomes[c + g] == (
            Outcome::Available { exceeds: false }) {
            assert forall|j: int| 0 <= j < w implies #[trigger] bundle_accepting(
                cfg,
                0,
                j as nat,
                outcomes[j],
            ) by {
                if j >= c {
                    assert(outcomes[c + (j - c)] == (Outcome::Available { exceeds: false }));
                    assert(expected_stage(cfg, j as nat, 0) == BundleStage::Checking((j - c) as usize));
                }
            }
            lemma_checks_prefix(cfg, outcomes, w);
        }
        if bundle_run(cfg, outcomes.take(w)).stage == BundleStage::WritingRecord {
            lemma_valid_prefix(cfg, outcomes, w);
            assert(outcomes.take(w).take(w) =~= outcomes.take(w));
            lemma_bundle_checks_before_writes(cfg, outcomes.take(w));
            assert forall|g: int|
                0 <= g < config_groups(cfg).len() implies #[trigger] outcomes[c + g] == (
                Outcome::Available { exceeds: false }) by {
                assert(outcomes.take(w)[c + g] == outcomes[c + g]);
            }
        }
    }
    assert forall|g: int|
        0 <= g < config_groups(cfg).len() && c + g < outcomes.len() && (forall|h: int|
            0 <= h < g ==> #[trigger] outcomes[c + h] == (Outcome::Available { exceeds: false }))
            && (#[trigger] outcomes[c + g] is Absent || outcomes[c + g] == (Outcome::Available {
            exceeds: true,
        })) implies {
        &&& outcomes.len() == c + g + 1
        &&& bundle_run(cfg, outcomes).stage == BundleStage::Finished(
            if outcomes[c + g] is Absent {
                Status::BadRequest
            } else {
                Status::Conflict
            },
        )
    } by {
        assert forall|j: int| 0 <= j < c + g implies #[trigger] bundle_accepting(
            cfg,
            0,
            j as nat,
            outcomes[j],
        ) by {
            if j >= c {
                assert(outcomes[c + (j - c)] == (Outcome::Available { exceeds: false }));
                assert(expected_stage(cfg, j as nat, 0) == BundleStage::Checking((j - c) as usize));
            }
        }
        lemma_checks_prefix(cfg, outcomes, c + g);
        assert(expected_stage(cfg, (c + g) as nat, 0) == BundleStage::Checking(g as usize));
        lemma_bundle_check_refusal(cfg, outcomes, g);
    }
}


/// The bundle that a write puts its lines into: the updated one, or, for a
/// new bundle, the one whose id the insert of the record returned.
pub open spec fn written_bundle(cfg: BundleConfig, outcomes: Seq<Outcome>) -> i64 {
    match cfg.mode {
        BundleMode::Update { bundle_id, .. } => bundle_id,
        BundleMode::Create { .. } => outcomes[record_write_pos(cfg) as int]->id,
    }
}

/// The calls that a bundle write asks for, by position, in every valid run
/// that has not finished: after `checks_start + g` outcomes it checks group
/// `g`, the `g`-th distinct item of the request (leaving out the updated
/// bundle's own reservation), and after `record_write_pos + 2 + i` outcomes
/// it inserts request line `i` into the written bundle. No other position
/// asks for a line insert, so the lines inserted are the request's lines
/// `0..n`, each once, in order; and a line is taken out of the inventory only
/// by a fulfilling update, the `r`-th read-back line at position
/// `lines_end_pos + 1 + r`.
pub proof fn lemma_bundle_actions_by_position(cfg: BundleConfig, outcomes: Seq<Outcome>)
    requires
        config_wf(cfg),
        bundle_trace_valid(cfg, outcomes),
    ensures
        forall|j: int|
            0 <= j <= outcomes.len() && !(#[trigger] bundle_run(cfg, outcomes.take(j)).stage is Finished)
                ==> {
                &&& checks_start(cfg) <= j < record_write_pos(cfg) ==> bundle_action(
                    cfg,
                    bundle_run(cfg, outcomes.take(j)),
                ) == (BundleAction::CheckAvailable {
                    group: (j - checks_start(cfg)) as usize,
                    item_id: distinct_ids(cfg.item_ids)[j - checks_start(cfg)],
                    excluded: match cfg.mode {
                        BundleMode::Update { bundle_id, .. } => Some(bundle_id),
                        BundleMode::Create { .. } => None,
                    },
                })
                &&& record_write_pos(cfg) + 2 <= j < record_write_pos(cfg) + 2 + cfg.positive.len()
                    ==> bundle_action(cfg, bundle_run(cfg, outcomes.take(j))) == (
                BundleAction::InsertLine {
                    bundle_id: written_bundle(cfg, outcomes),
                    line: (j - record_write_pos(cfg) - 2) as usize,
                })
                &&& bundle_action(cfg, bundle_run(cfg, outcomes.take(j))) is InsertLine ==> (
                record_write_pos(cfg) + 2 <= j < record_write_pos(cfg) + 2 + cfg.positive.len())
                &&& bundle_action(cfg, bundle_run(cfg, outcomes.take(j))) is Deduct ==> (fulfills(
                    cfg,
                ) && bundle_action(cfg, bundle_run(cfg, outcomes.take(j)))->row == j
                    - lines_end_pos(cfg) - 1)
            },
{
    crate::grouping::lemma_distinct_ids_len(cfg.item_ids);
    assert forall|j: int|
        0 <= j <= outcomes.len() && !(#[trigger] bundle_run(cfg, outcomes.take(j)).stage is Finished)
            implies {
            &&& checks_start(cfg) <= j < record_write_pos(cfg) ==> bundle_action(
                cfg,
                bundle_run(cfg, outcomes.take(j)),
            ) == (BundleAction::CheckAvailable {
                group: (j - checks_start(cfg)) as usize,
                item_id: distinct_ids(cfg.item_ids)[j - checks_start(cfg)],
                excluded: match cfg.mode {
                    BundleMode::Update { bundle_id, .. } => Some(bundle_id),
                    BundleMode::Create { .. } => None,
                },
            })
            &&& record_write_pos(cfg) + 2 <= j < record_write_pos(cfg) + 2 + cfg.positive.len()
                ==> bundle_action(cfg, bundle_run(cfg, outcomes.take(j))) == (
            BundleAction::InsertLine {
                bundle_id: written_bundle(cfg, outcomes),
                line: (j - record_write_pos(cfg) - 2) as usize,
            })
            &&& bundle_action(cfg, bundle_run(cfg, outcomes.take(j))) is InsertLine ==> (
            record_write_pos(cfg) + 2 <= j < record_write_pos(cfg) + 2 + cfg.positive.len())
            &&& bundle_action(cfg, bundle_run(cfg, outcomes.take(j))) is Deduct ==> (fulfills(cfg)
                && bundle_action(cfg, bundle_run(cfg, outcomes.take(j)))->row == j - lines_end_pos(
                cfg,
            ) - 1)
        } by {
        let q = outcomes.take(j);
        lemma_valid_prefix(cfg, outcomes, j);
        lemma_bundle_progress(cfg, q);
        assert(q.take(j) =~= q);
        let m = deduction_rows(cfg, q);
        let st = bundle_run(cfg, q);
        assert(st.stage == expected_stage(cfg, j as nat, m));
        let w = record_write_pos(cfg) as int;
        if w + 2 <= j < w + 2 + cfg.positive.len() {
            lemma_record_kept(cfg, q, j);
            assert(q[w] == outcomes[w]);
        }
    }
}

} // verus!
