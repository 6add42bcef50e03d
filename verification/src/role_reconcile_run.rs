//! The decisions of the role current-state consumer: skip the work when
//! the role pipeline is inactive; classify a merged delta in one go; or,
//! on a full reconcile, classify the snapshot's files batch by batch,
//! gathering the live paths, and then retire the assignments of paths
//! that are no longer live. The caller loads, classifies and writes as
//! each action says and hands back what it observed.
use vstd::prelude::*;

use crate::order::{views_of, StrSet};

verus! {

/// How many files one batch of a full reconcile holds.
pub const ROLE_CURRENT_STATE_FILE_BATCH_SIZE: usize = 1000;

/// Where a reconcile stands.
#[derive(Debug, Clone, Copy, PartialEq, Eq, Structural)]
pub enum ReconcileStage {
    /// Waiting to learn whether the role pipeline is active.
    Activation,
    /// Waiting for the next batch of files.
    Batches,
    /// Waiting for a batch to be classified.
    Classifying,
    /// Waiting for the paths whose assignments are no longer live.
    Removed,
    /// Waiting for those assignments to be retired.
    Cleaning,
    /// Nothing is left to do.
    Finished,
}

/// A reconcile in progress.
pub struct RoleReconcileRun {
    pub stage: ReconcileStage,
    pub full_reconcile: bool,
    pub offset: usize,
    pub batch_count: usize,
    pub live_paths: StrSet,
    pub removed_count: usize,
}

/// What the caller observed.
pub enum RoleReconcileEvent {
    /// Whether the role pipeline is active (active rules, or a model slot
    /// for adjudication).
    Activation(bool),
    /// The paths of the batch of files loaded at the offset asked for.
    FileBatch(Vec<String>),
    /// The batch was classified and its outcome merged.
    Classified,
    /// The paths with active assignments that are not live.
    RemovedPaths(Vec<String>),
    /// The assignments of those paths were retired.
    CleanedUp,
}

/// What the caller is to do next.
pub enum RoleReconcileAction {
    /// Report the run as skipped because the pipeline is inactive.
    FinishInactive,
    /// Load the snapshot's files and classify them with the request's
    /// scope; that classification's outcome is the run's.
    ClassifyDelta,
    /// Load the files from `offset`, at most `limit` of them.
    LoadBatch { offset: usize, limit: usize },
    /// Classify the batch with these paths affected.
    ClassifyBatch { affected_paths: StrSet },
    /// Load the paths with active assignments that are not among these.
    LoadRemovedPaths { live_paths: StrSet },
    /// Retire the assignments of these paths.
    CleanUpRemoved { removed_paths: StrSet },
    /// Report the full reconcile: its batches and removed paths.
    FinishFull { file_batches: usize, removed_paths: usize },
}

/// A reconcile as plain values.
pub struct RunV {
    pub stage: ReconcileStage,
    pub full_reconcile: bool,
    pub offset: nat,
    pub batch_count: nat,
    pub live_paths: Set<Seq<char>>,
    pub removed_count: nat,
}

pub enum ReconcileEventV {
    Activation(bool),
    FileBatch(Seq<Seq<char>>),
    Classified,
    RemovedPaths(Seq<Seq<char>>),
    CleanedUp,
}

pub enum ReconcileActionV {
    FinishInactive,
    ClassifyDelta,
    LoadBatch { offset: nat, limit: nat },
    ClassifyBatch { affected_paths: Set<Seq<char>> },
    LoadRemovedPaths { live_paths: Set<Seq<char>> },
    CleanUpRemoved { removed_paths: Set<Seq<char>> },
    FinishFull { file_batches: nat, removed_paths: nat },
}

impl View for RoleReconcileRun {
    type V = RunV;

    open spec fn view(&self) -> RunV {
        RunV {
            stage: self.stage,
            full_reconcile: self.full_reconcile,
            offset: self.offset as nat,
            batch_count: self.batch_count as nat,
            live_paths: self.live_paths@.to_set(),
            removed_count: self.removed_count as nat,
        }
    }
}

impl View for RoleReconcileEvent {
    type V = ReconcileEventV;

    open spec fn view(&self) -> ReconcileEventV {
        match self {
            RoleReconcileEvent::Activation(b) => ReconcileEventV::Activation(*b),
            RoleReconcileEvent::FileBatch(v) => ReconcileEventV::FileBatch(views_of(v@)),
            RoleReconcileEvent::Classified => ReconcileEventV::Classified,
            RoleReconcileEvent::RemovedPaths(v) => ReconcileEventV::RemovedPaths(views_of(v@)),
            RoleReconcileEvent::CleanedUp => ReconcileEventV::CleanedUp,
        }
    }
}

impl View for RoleReconcileAction {
    type V = ReconcileActionV;

    open spec fn view(&self) -> ReconcileActionV {
        match self {
            RoleReconcileAction::FinishInactive => ReconcileActionV::FinishInactive,
            RoleReconcileAction::ClassifyDelta => ReconcileActionV::ClassifyDelta,
            RoleReconcileAction::LoadBatch { offset, limit } => ReconcileActionV::LoadBatch {
                offset: *offset as nat,
                limit: *limit as nat,
            },
            RoleReconcileAction::ClassifyBatch { affected_paths } => ReconcileActionV::ClassifyBatch {
                affected_paths: affected_paths@.to_set(),
            },
            RoleReconcileAction::LoadRemovedPaths { live_paths } => ReconcileActionV::LoadRemovedPaths {
                live_paths: live_paths@.to_set(),
            },
            RoleReconcileAction::CleanUpRemoved { removed_paths } => ReconcileActionV::CleanUpRemoved {
                removed_paths: removed_paths@.to_set(),
            },
            RoleReconcileAction::FinishFull { file_batches, removed_paths } => ReconcileActionV::FinishFull {
                file_batches: *file_batches as nat,
                removed_paths: *removed_paths as nat,
            },
        }
    }
}

pub open spec fn capped(n: int) -> nat {
    if n > usize::MAX {
        usize::MAX as nat
    } else {
        n as nat
    }
}

/// The next state of a reconcile at `s` that observed `e`, and what to do;
/// an event the stage does not wait for changes nothing and calls for no
/// action. Offsets and counts stop at the largest `usize`.
pub open spec fn reconcile_transition(s: RunV, e: ReconcileEventV) -> (RunV, Option<ReconcileActionV>) {
    match (s.stage, e) {
        (ReconcileStage::Activation, ReconcileEventV::Activation(active)) => if !active {
            (RunV { stage: ReconcileStage::Finished, ..s }, Some(ReconcileActionV::FinishInactive))
        } else if !s.full_reconcile {
            (RunV { stage: ReconcileStage::Finished, ..s }, Some(ReconcileActionV::ClassifyDelta))
        } else {
            (
                RunV { stage: ReconcileStage::Batches, ..s },
                Some(ReconcileActionV::LoadBatch { offset: s.offset, limit: ROLE_CURRENT_STATE_FILE_BATCH_SIZE as nat }),
            )
        },
        (ReconcileStage::Batches, ReconcileEventV::FileBatch(paths)) => if paths.len() == 0 {
            (
                RunV { stage: ReconcileStage::Removed, ..s },
                Some(ReconcileActionV::LoadRemovedPaths { live_paths: s.live_paths }),
            )
        } else {
            (
                RunV {
                    stage: ReconcileStage::Classifying,
                    offset: capped((s.offset + paths.len()) as int),
                    batch_count: capped((s.batch_count + 1) as int),
                    live_paths: s.live_paths.union(paths.to_set()),
                    ..s
                },
                Some(ReconcileActionV::ClassifyBatch { affected_paths: paths.to_set() }),
            )
        },
        (ReconcileStage::Classifying, ReconcileEventV::Classified) => (
            RunV { stage: ReconcileStage::Batches, ..s },
            Some(ReconcileActionV::LoadBatch { offset: s.offset, limit: ROLE_CURRENT_STATE_FILE_BATCH_SIZE as nat }),
        ),
        (ReconcileStage::Removed, ReconcileEventV::RemovedPaths(paths)) => if paths.len() == 0 {
            (
                RunV { stage: ReconcileStage::Finished, ..s },
                Some(ReconcileActionV::FinishFull { file_batches: s.batch_count, removed_paths: s.removed_count }),
            )
        } else {
            (
                RunV { stage: ReconcileStage::Cleaning, removed_count: paths.to_set().len(), ..s },
                Some(ReconcileActionV::CleanUpRemoved { removed_paths: paths.to_set() }),
            )
        },
        (ReconcileStage::Cleaning, ReconcileEventV::CleanedUp) => (
            RunV { stage: ReconcileStage::Finished, ..s },
            Some(ReconcileActionV::FinishFull { file_batches: s.batch_count, removed_paths: s.removed_count }),
        ),
        _ => (s, None),
    }
}

impl RoleReconcileRun {
    /// A reconcile that has not yet learned whether the pipeline is active.
    pub fn start(full_reconcile: bool) -> (r: RoleReconcileRun)
        ensures
            r@ == (RunV {
                stage: ReconcileStage::Activation,
                full_reconcile,
                offset: 0,
                batch_count: 0,
                live_paths: Set::empty(),
                removed_count: 0,
            }),
    {
        let r = RoleReconcileRun {
            stage: ReconcileStage::Activation,
            full_reconcile,
            offset: 0,
            batch_count: 0,
            live_paths: StrSet::new(),
            removed_count: 0,
        };
        assert(r.live_paths@.to_set() =~= Set::<Seq<char>>::empty());
        r
    }

    /// One step of the reconcile.
    pub fn step(&mut self, event: RoleReconcileEvent) -> (r: Option<RoleReconcileAction>)
        ensures
            final(self)@ == reconcile_transition(old(self)@, event@).0,
            match r {
                Some(a) => reconcile_transition(old(self)@, event@).1 == Some(a@),
                None => reconcile_transition(old(self)@, event@).1 is None,
            },
    {
        let ghost s = self@;
        let ghost ev = event@;
        match (self.stage, event) {
            (ReconcileStage::Activation, RoleReconcileEvent::Activation(active)) => {
                self.stage = ReconcileStage::Finished;
                if !active {
                    Some(RoleReconcileAction::FinishInactive)
                } else if !self.full_reconcile {
                    Some(RoleReconcileAction::ClassifyDelta)
                } else {
                    self.stage = ReconcileStage::Batches;
                    Some(RoleReconcileAction::LoadBatch { offset: self.offset, limit: ROLE_CURRENT_STATE_FILE_BATCH_SIZE })
                }
            },
            (ReconcileStage::Batches, RoleReconcileEvent::FileBatch(paths)) => {
                if paths.len() == 0 {
                    self.stage = ReconcileStage::Removed;
                    let items = self.live_paths.to_vec();
                    let live = StrSet::from_strings(items.as_slice());
                    Some(RoleReconcileAction::LoadRemovedPaths { live_paths: live })
                } else {
                    self.stage = ReconcileStage::Classifying;
                    self.offset = self.offset.saturating_add(paths.len());
                    self.batch_count = self.batch_count.saturating_add(1);
                    self.live_paths.insert_strings(paths.as_slice());
                    let affected = StrSet::from_strings(paths.as_slice());
                    assert(self@.live_paths =~= s.live_paths.union(views_of(paths@).to_set()));
                    Some(RoleReconcileAction::ClassifyBatch { affected_paths: affected })
                }
            },
            (ReconcileStage::Classifying, RoleReconcileEvent::Classified) => {
                self.stage = ReconcileStage::Batches;
                Some(RoleReconcileAction::LoadBatch { offset: self.offset, limit: ROLE_CURRENT_STATE_FILE_BATCH_SIZE })
            },
            (ReconcileStage::Removed, RoleReconcileEvent::RemovedPaths(paths)) => {
                if paths.len() == 0 {
                    self.stage = ReconcileStage::Finished;
                    Some(RoleReconcileAction::FinishFull { file_batches: self.batch_count, removed_paths: self.removed_count })
                } else {
                    let removed = StrSet::from_strings(paths.as_slice());
                    proof {
                        crate::order::lemma_sorted_strict_no_dup(removed@);
                        removed@.unique_seq_to_set();
                    }
                    self.stage = ReconcileStage::Cleaning;
                    self.removed_count = removed.len();
                    Some(RoleReconcileAction::CleanUpRemoved { removed_paths: removed })
                }
            },
            (ReconcileStage::Cleaning, RoleReconcileEvent::CleanedUp) => {
                self.stage = ReconcileStage::Finished;
                Some(RoleReconcileAction::FinishFull { file_batches: self.batch_count, removed_paths: self.removed_count })
            },
            _ => None,
        }
    }
}

} // verus!
