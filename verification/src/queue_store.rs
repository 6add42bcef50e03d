//! An adjudication queue kept in memory: one job per dedupe key, which can
//! be claimed, completed, failed and retried.
use vstd::prelude::*;

use crate::contracts::{RoleAdjudicationFailure, RoleQueueEnqueueResult, RoleQueueJobStatus};
use crate::order::{sorted_strict, views_of, StrSet};
use crate::text::{owned, str_eq};

verus! {

/// A job as plain values: its status, how often it was claimed, and the
/// failure it last ended with (message and whether it may be retried).
pub struct EntryV {
    pub status: RoleQueueJobStatus,
    pub attempts: u32,
    pub last_error: Option<(Seq<char>, bool)>,
}

pub open spec fn failure_view(f: RoleAdjudicationFailure) -> (Seq<char>, bool) {
    (f.message@, f.retryable)
}

struct QueueEntry {
    status: RoleQueueJobStatus,
    attempts: u32,
    last_error: Option<RoleAdjudicationFailure>,
}

impl View for QueueEntry {
    type V = EntryV;

    closed spec fn view(&self) -> EntryV {
        EntryV {
            status: self.status,
            attempts: self.attempts,
            last_error: match self.last_error {
                Some(f) => Some(failure_view(f)),
                None => None,
            },
        }
    }
}

struct QueueSlot {
    key: String,
    entry: QueueEntry,
}

spec fn slots_map(s: Seq<QueueSlot>) -> Map<Seq<char>, EntryV>
    decreases s.len(),
{
    if s.len() == 0 {
        Map::empty()
    } else {
        slots_map(s.drop_last()).insert(s.last().key@, s.last().entry@)
    }
}

spec fn keys_unique(s: Seq<QueueSlot>) -> bool {
    forall|i: int, j: int| 0 <= i < j < s.len() ==> (#[trigger] s[i]).key@ != (#[trigger] s[j]).key@
}

proof fn lemma_slots_map_dom(s: Seq<QueueSlot>, k: Seq<char>)
    ensures
        slots_map(s).dom().contains(k) <==> exists|i: int| 0 <= i < s.len() && (#[trigger] s[i]).key@ == k,
    decreases s.len(),
{
    if s.len() > 0 {
        lemma_slots_map_dom(s.drop_last(), k);
        if slots_map(s.drop_last()).dom().contains(k) {
            let i = choose|i: int| 0 <= i < s.drop_last().len() && (#[trigger] s.drop_last()[i]).key@ == k;
            assert(s[i] == s.drop_last()[i]);
        }
        if exists|i: int| 0 <= i < s.len() && (#[trigger] s[i]).key@ == k {
            let i = choose|i: int| 0 <= i < s.len() && (#[trigger] s[i]).key@ == k;
            if i < s.len() - 1 {
                assert(s.drop_last()[i] == s[i]);
            }
        }
    }
}

proof fn lemma_slots_map_at(s: Seq<QueueSlot>, i: int)
    requires
        keys_unique(s),
        0 <= i < s.len(),
    ensures
        slots_map(s).dom().contains(s[i].key@),
        slots_map(s)[s[i].key@] == s[i].entry@,
    decreases s.len(),
{
    if i < s.len() - 1 {
        assert(s.drop_last()[i] == s[i]);
        assert(keys_unique(s.drop_last()));
        lemma_slots_map_at(s.drop_last(), i);
        assert(s.last().key@ != s[i].key@);
    }
}

proof fn lemma_slots_map_update(s: Seq<QueueSlot>, i: int, slot: QueueSlot)
    requires
        keys_unique(s),
        0 <= i < s.len(),
        slot.key@ == s[i].key@,
    ensures
        keys_unique(s.update(i, slot)),
        slots_map(s.update(i, slot)) == slots_map(s).insert(slot.key@, slot.entry@),
    decreases s.len(),
{
    let t = s.update(i, slot);
    assert forall|a: int, b: int| 0 <= a < b < t.len() implies (#[trigger] t[a]).key@ != (#[trigger] t[b]).key@ by {
        assert(s[a].key@ != s[b].key@);
    }
    if i == s.len() - 1 {
        assert(t.drop_last() =~= s.drop_last());
        lemma_slots_map_dom(s.drop_last(), slot.key@);
        if slots_map(s.drop_last()).dom().contains(slot.key@) {
            let j = choose|j: int| 0 <= j < s.drop_last().len() && (#[trigger] s.drop_last()[j]).key@ == slot.key@;
            assert(s[j].key@ == s[i].key@);
        }
        assert(slots_map(t) =~= slots_map(s).insert(slot.key@, slot.entry@));
    } else {
        assert(t.drop_last() =~= s.drop_last().update(i, slot));
        assert(keys_unique(s.drop_last()));
        lemma_slots_map_update(s.drop_last(), i, slot);
        assert(s.last().key@ != slot.key@);
        assert(slots_map(t) =~= slots_map(s).insert(slot.key@, slot.entry@));
    }
}

/// Jobs by dedupe key.
pub struct InMemoryRoleAdjudicationQueueStore {
    entries: Vec<QueueSlot>,
}

impl View for InMemoryRoleAdjudicationQueueStore {
    type V = Map<Seq<char>, EntryV>;

    closed spec fn view(&self) -> Map<Seq<char>, EntryV> {
        slots_map(self.entries@)
    }
}

// ---------------------------------------------------------------------------
// The queue's transitions on its map of jobs
// ---------------------------------------------------------------------------

pub open spec fn new_entry() -> EntryV {
    EntryV { status: RoleQueueJobStatus::Queued, attempts: 0, last_error: None }
}

/// A new key gets a queued job; a known key keeps its job.
pub open spec fn enqueue_state(m: Map<Seq<char>, EntryV>, key: Seq<char>) -> Map<Seq<char>, EntryV> {
    if m.dom().contains(key) {
        m
    } else {
        m.insert(key, new_entry())
    }
}

pub open spec fn enqueue_result(m: Map<Seq<char>, EntryV>, key: Seq<char>) -> RoleQueueEnqueueResult {
    if !m.dom().contains(key) {
        RoleQueueEnqueueResult::Enqueued
    } else if m[key].status == RoleQueueJobStatus::Completed {
        RoleQueueEnqueueResult::AlreadyCompleted
    } else {
        RoleQueueEnqueueResult::AlreadyQueued
    }
}

pub open spec fn saturating_inc(n: u32) -> u32 {
    if n == u32::MAX {
        n
    } else {
        (n + 1) as u32
    }
}

/// A claimed job runs, one attempt more (saturating).
pub open spec fn claim_state(m: Map<Seq<char>, EntryV>, key: Seq<char>) -> Map<Seq<char>, EntryV> {
    if m.dom().contains(key) {
        m.insert(
            key,
            EntryV {
                status: RoleQueueJobStatus::Running,
                attempts: saturating_inc(m[key].attempts),
                last_error: m[key].last_error,
            },
        )
    } else {
        m
    }
}

pub open spec fn complete_state(m: Map<Seq<char>, EntryV>, key: Seq<char>) -> Map<Seq<char>, EntryV> {
    if m.dom().contains(key) {
        m.insert(
            key,
            EntryV { status: RoleQueueJobStatus::Completed, attempts: m[key].attempts, last_error: None },
        )
    } else {
        m
    }
}

pub open spec fn fail_state(
    m: Map<Seq<char>, EntryV>,
    key: Seq<char>,
    failure: (Seq<char>, bool),
) -> Map<Seq<char>, EntryV> {
    if m.dom().contains(key) {
        m.insert(
            key,
            EntryV {
                status: RoleQueueJobStatus::Failed,
                attempts: m[key].attempts,
                last_error: Some(failure),
            },
        )
    } else {
        m
    }
}

/// Only a failed job can be retried: it is queued again.
pub open spec fn retry_allowed(m: Map<Seq<char>, EntryV>, key: Seq<char>) -> bool {
    m.dom().contains(key) && m[key].status == RoleQueueJobStatus::Failed
}

pub open spec fn retry_state(m: Map<Seq<char>, EntryV>, key: Seq<char>) -> Map<Seq<char>, EntryV> {
    if retry_allowed(m, key) {
        m.insert(
            key,
            EntryV { status: RoleQueueJobStatus::Queued, attempts: m[key].attempts, last_error: None },
        )
    } else {
        m
    }
}

impl InMemoryRoleAdjudicationQueueStore {
    #[verifier::type_invariant]
    spec fn wf(self) -> bool {
        keys_unique(self.entries@)
    }

    pub fn new() -> (r: Self)
        ensures
            r@ == Map::<Seq<char>, EntryV>::empty(),
    {
        let r = InMemoryRoleAdjudicationQueueStore { entries: Vec::new() };
        assert(r@ =~= Map::<Seq<char>, EntryV>::empty());
        r
    }

    fn find(&self, key: &str) -> (r: Option<usize>)
        ensures
            match r {
                Some(i) => i < self.entries@.len() && self.entries@[i as int].key@ == key@,
                None => !self@.dom().contains(key@),
            },
    {
        let mut i: usize = 0;
        while i < self.entries.len()
            invariant
                i <= self.entries@.len(),
                forall|j: int| 0 <= j < i ==> (#[trigger] self.entries@[j]).key@ != key@,
            decreases self.entries@.len() - i,
        {
            if str_eq(self.entries[i].key.as_str(), key) {
                return Some(i);
            }
            i = i + 1;
        }
        proof {
            lemma_slots_map_dom(self.entries@, key@);
        }
        None
    }

    /// How often the job was claimed, if there is one.
    pub fn attempts_for(&self, dedupe_key: &str) -> (r: Option<u32>)
        ensures
            r == if self@.dom().contains(dedupe_key@) {
                Some(self@[dedupe_key@].attempts)
            } else {
                None::<u32>
            },
    {
        proof {
            use_type_invariant(self);
        }
        match self.find(dedupe_key) {
            Some(i) => {
                proof {
                    lemma_slots_map_at(self.entries@, i as int);
                }
                Some(self.entries[i].entry.attempts)
            },
            None => None,
        }
    }

    /// The status of the job, if there is one.
    pub fn status_for(&self, dedupe_key: &str) -> (r: Option<RoleQueueJobStatus>)
        ensures
            r == if self@.dom().contains(dedupe_key@) {
                Some(self@[dedupe_key@].status)
            } else {
                None::<RoleQueueJobStatus>
            },
    {
        proof {
            use_type_invariant(self);
        }
        match self.find(dedupe_key) {
            Some(i) => {
                proof {
                    lemma_slots_map_at(self.entries@, i as int);
                }
                Some(self.entries[i].entry.status)
            },
            None => None,
        }
    }

    fn replace_entry(&mut self, i: usize, entry: QueueEntry)
        requires
            i < old(self).entries@.len(),
        ensures
            final(self)@ == old(self)@.insert(old(self).entries@[i as int].key@, entry@),
    {
        proof {
            use_type_invariant(&*self);
        }
        let key = self.entries[i].key.clone();
        let slot = QueueSlot { key, entry };
        proof {
            lemma_slots_map_update(self.entries@, i as int, slot);
        }
        let mut entries = Vec::new();
        std::mem::swap(&mut entries, &mut self.entries);
        entries.set(i, slot);
        self.entries = entries;
    }

    /// Queues a job for a new key; a known key is left as it is.
    pub fn enqueue(&mut self, dedupe_key: &str) -> (r: RoleQueueEnqueueResult)
        ensures
            final(self)@ == enqueue_state(old(self)@, dedupe_key@),
            r == enqueue_result(old(self)@, dedupe_key@),
    {
        proof {
            use_type_invariant(&*self);
        }
        match self.find(dedupe_key) {
            Some(i) => {
                proof {
                    lemma_slots_map_at(self.entries@, i as int);
                }
                let status = self.entries[i].entry.status;
                match status {
                    RoleQueueJobStatus::Completed => RoleQueueEnqueueResult::AlreadyCompleted,
                    _ => RoleQueueEnqueueResult::AlreadyQueued,
                }
            },
            None => {
                let slot = QueueSlot {
                    key: owned(dedupe_key),
                    entry: QueueEntry { status: RoleQueueJobStatus::Queued, attempts: 0, last_error: None },
                };
                let ghost old_entries = self.entries@;
                proof {
                    lemma_slots_map_dom(old_entries, dedupe_key@);
                }
                let mut entries = Vec::new();
                std::mem::swap(&mut entries, &mut self.entries);
                entries.push(slot);
                assert(entries@.drop_last() =~= old_entries);
                assert forall|a: int, b: int| 0 <= a < b < entries@.len() implies (#[trigger] entries@[a]).key@
                    != (#[trigger] entries@[b]).key@ by {
                    if b == entries@.len() - 1 {
                        assert(old_entries[a].key@ != dedupe_key@);
                    } else {
                        assert(old_entries[a].key@ != old_entries[b].key@);
                    }
                }
                self.entries = entries;
                RoleQueueEnqueueResult::Enqueued
            },
        }
    }

    /// Marks the job running and counts one attempt more; `None` when
    /// there is no job.
    pub fn claim(&mut self, dedupe_key: &str) -> (r: Option<RoleQueueJobStatus>)
        ensures
            final(self)@ == claim_state(old(self)@, dedupe_key@),
            r == if old(self)@.dom().contains(dedupe_key@) {
                Some(RoleQueueJobStatus::Running)
            } else {
                None::<RoleQueueJobStatus>
            },
    {
        proof {
            use_type_invariant(&*self);
        }
        match self.find(dedupe_key) {
            Some(i) => {
                proof {
                    lemma_slots_map_at(self.entries@, i as int);
                }
                let attempts = self.entries[i].entry.attempts.saturating_add(1);
                let last_error = match &self.entries[i].entry.last_error {
                    Some(f) => Some(RoleAdjudicationFailure { message: f.message.clone(), retryable: f.retryable }),
                    None => None,
                };
                self.replace_entry(i, QueueEntry { status: RoleQueueJobStatus::Running, attempts, last_error });
                Some(RoleQueueJobStatus::Running)
            },
            None => None,
        }
    }

    /// Marks the job completed and forgets its failure.
    pub fn complete(&mut self, dedupe_key: &str)
        ensures
            final(self)@ == complete_state(old(self)@, dedupe_key@),
    {
        proof {
            use_type_invariant(&*self);
        }
        match self.find(dedupe_key) {
            Some(i) => {
                proof {
                    lemma_slots_map_at(self.entries@, i as int);
                }
                let attempts = self.entries[i].entry.attempts;
                self.replace_entry(i, QueueEntry { status: RoleQueueJobStatus::Completed, attempts, last_error: None });
            },
            None => {},
        }
    }

    /// Marks the job failed with `failure`.
    pub fn fail(&mut self, dedupe_key: &str, failure: &RoleAdjudicationFailure)
        ensures
            final(self)@ == fail_state(old(self)@, dedupe_key@, failure_view(*failure)),
    {
        proof {
            use_type_invariant(&*self);
        }
        match self.find(dedupe_key) {
            Some(i) => {
                proof {
                    lemma_slots_map_at(self.entries@, i as int);
                }
                let attempts = self.entries[i].entry.attempts;
                let copy = RoleAdjudicationFailure { message: failure.message.clone(), retryable: failure.retryable };
                self.replace_entry(i, QueueEntry { status: RoleQueueJobStatus::Failed, attempts, last_error: Some(copy) });
            },
            None => {},
        }
    }

    /// Queues a failed job again; `false` for any other job or none.
    pub fn retry(&mut self, dedupe_key: &str) -> (r: bool)
        ensures
            r == retry_allowed(old(self)@, dedupe_key@),
            final(self)@ == retry_state(old(self)@, dedupe_key@),
    {
        proof {
            use_type_invariant(&*self);
        }
        match self.find(dedupe_key) {
            Some(i) => {
                proof {
                    lemma_slots_map_at(self.entries@, i as int);
                }
                let status = self.entries[i].entry.status;
                match status {
                    RoleQueueJobStatus::Failed => {
                        let attempts = self.entries[i].entry.attempts;
                        self.replace_entry(i, QueueEntry { status: RoleQueueJobStatus::Queued, attempts, last_error: None });
                        true
                    },
                    _ => false,
                }
            },
            None => false,
        }
    }
}

// ---------------------------------------------------------------------------
// Laws of the queue
// ---------------------------------------------------------------------------

/// Enqueueing a key twice queues one job: the second call finds it and
/// changes nothing.
pub proof fn lemma_enqueue_dedupes(m: Map<Seq<char>, EntryV>, key: Seq<char>)
    ensures
        enqueue_state(enqueue_state(m, key), key) == enqueue_state(m, key),
        enqueue_result(enqueue_state(m, key), key) != RoleQueueEnqueueResult::Enqueued,
{
}

/// A completed job stays completed when its key is enqueued again.
pub proof fn lemma_completed_is_stable(m: Map<Seq<char>, EntryV>, key: Seq<char>)
    requires
        m.dom().contains(key),
    ensures
        enqueue_result(complete_state(m, key), key) == RoleQueueEnqueueResult::AlreadyCompleted,
        enqueue_state(complete_state(m, key), key) == complete_state(m, key),
{
}

/// A job can be retried right after it failed, and then it is queued with
/// its attempts kept; a job that did not fail cannot be retried.
pub proof fn lemma_retry_after_failure(
    m: Map<Seq<char>, EntryV>,
    key: Seq<char>,
    failure: (Seq<char>, bool),
)
    ensures
        m.dom().contains(key) ==> retry_allowed(fail_state(m, key, failure), key),
        m.dom().contains(key) ==> retry_state(fail_state(m, key, failure), key)[key] == (EntryV {
            status: RoleQueueJobStatus::Queued,
            attempts: m[key].attempts,
            last_error: None,
        }),
        !retry_allowed(claim_state(m, key), key),
        !retry_allowed(complete_state(m, key), key),
        !retry_allowed(enqueue_state(m, key), key) || retry_allowed(m, key),
{
}

/// Each claim of a job counts one attempt (until the count saturates), and
/// claims never touch other jobs.
pub proof fn lemma_claim_counts_attempts(m: Map<Seq<char>, EntryV>, key: Seq<char>, other: Seq<char>)
    requires
        m.dom().contains(key),
        m[key].attempts < u32::MAX,
        other != key,
    ensures
        claim_state(m, key)[key].attempts == m[key].attempts + 1,
        claim_state(m, key)[key].status == RoleQueueJobStatus::Running,
        claim_state(m, key).dom() == m.dom(),
        m.dom().contains(other) ==> claim_state(m, key)[other] == m[other],
{
}

// ---------------------------------------------------------------------------
// Taxonomy reader
// ---------------------------------------------------------------------------

/// The active roles of a repository, held in memory.
pub struct InMemoryRoleTaxonomyReader {
    active_roles: StrSet,
}

impl View for InMemoryRoleTaxonomyReader {
    type V = Set<Seq<char>>;

    closed spec fn view(&self) -> Set<Seq<char>> {
        self.active_roles@.to_set()
    }
}

pub open spec fn str_views(roles: Seq<&str>) -> Seq<Seq<char>> {
    roles.map_values(|r: &str| r@)
}

impl InMemoryRoleTaxonomyReader {
    pub fn with_roles(roles: &[&str]) -> (r: Self)
        ensures
            r@ == str_views(roles@).to_set(),
    {
        let mut set = StrSet::new();
        assert(set@.to_set() =~= Set::<Seq<char>>::empty());
        let mut i: usize = 0;
        while i < roles.len()
            invariant
                i <= roles@.len(),
                set@.to_set() == str_views(roles@).take(i as int).to_set(),
            decreases roles@.len() - i,
        {
            assert(str_views(roles@).take(i + 1) =~= str_views(roles@).take(i as int).push(roles@[i as int]@));
            proof {
                str_views(roles@).take(i as int).lemma_push_to_set_commute(roles@[i as int]@);
            }
            set.insert(owned(roles[i]));
            i = i + 1;
        }
        assert(str_views(roles@).take(i as int) =~= str_views(roles@));
        InMemoryRoleTaxonomyReader { active_roles: set }
    }

    /// The active role identifiers, in ascending order.
    pub fn load_active_role_ids(&self, _repo_id: &str, _generation: u64) -> (r: Vec<String>)
        ensures
            sorted_strict(views_of(r@)),
            views_of(r@).to_set() == self@,
    {
        self.active_roles.to_vec()
    }
}

} // verus!
