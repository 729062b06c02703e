//! The durable queue of pending uploads, keyed by local file path.

use vstd::prelude::*;

use crate::text::same_text;

verus! {

/// Status of a pending backup, as the library reasons about it.
pub enum StatusView {
    Pending,
    InProgress,
    Failed { error: Seq<char> },
}

/// Status of a pending backup.
#[derive(Clone, Debug)]
pub enum BackupStatus {
    Pending,
    InProgress,
    Failed { error: String },
}

impl View for BackupStatus {
    type V = StatusView;

    open spec fn view(&self) -> StatusView {
        match self {
            BackupStatus::Pending => StatusView::Pending,
            BackupStatus::InProgress => StatusView::InProgress,
            BackupStatus::Failed { error } => StatusView::Failed { error: error@ },
        }
    }
}

/// A queue entry as the library reasons about it.
pub struct BackupView {
    pub message_id: u64,
    pub channel_id: u64,
    pub local_path: Seq<char>,
    pub original_filename: Seq<char>,
    pub timestamp_ms: i64,
    pub retry_count: u32,
    pub status: StatusView,
}

/// A backup that is pending cloud upload.
#[derive(Clone, Debug)]
pub struct PendingBackup {
    pub message_id: u64,
    pub channel_id: u64,
    /// Local file holding the downloaded media; the entry's key.
    pub local_path: String,
    pub original_filename: String,
    /// When the message was posted, in milliseconds since the Unix epoch.
    pub timestamp_ms: i64,
    pub retry_count: u32,
    pub status: BackupStatus,
}

impl View for PendingBackup {
    type V = BackupView;

    open spec fn view(&self) -> BackupView {
        BackupView {
            message_id: self.message_id,
            channel_id: self.channel_id,
            local_path: self.local_path@,
            original_filename: self.original_filename@,
            timestamp_ms: self.timestamp_ms,
            retry_count: self.retry_count,
            status: self.status@,
        }
    }
}

impl BackupStatus {
    /// A copy of this status.
    pub fn duplicate(&self) -> (r: BackupStatus)
        ensures
            r@ == self@,
    {
        match self {
            BackupStatus::Pending => BackupStatus::Pending,
            BackupStatus::InProgress => BackupStatus::InProgress,
            BackupStatus::Failed { error } => BackupStatus::Failed { error: error.clone() },
        }
    }
}

impl PendingBackup {
    /// A fresh entry for a downloaded file: status Pending, no failed attempts.
    pub fn new(
        message_id: u64,
        channel_id: u64,
        local_path: String,
        original_filename: String,
        timestamp_ms: i64,
    ) -> (r: PendingBackup)
        ensures
            r.message_id == message_id,
            r.channel_id == channel_id,
            r.local_path@ == local_path@,
            r.original_filename@ == original_filename@,
            r.timestamp_ms == timestamp_ms,
            r.retry_count == 0,
            r@.status == StatusView::Pending,
    {
        PendingBackup {
            message_id,
            channel_id,
            local_path,
            original_filename,
            timestamp_ms,
            retry_count: 0,
            status: BackupStatus::Pending,
        }
    }

    /// A copy of this entry.
    pub fn duplicate(&self) -> (r: PendingBackup)
        ensures
            r@ == self@,
    {
        PendingBackup {
            message_id: self.message_id,
            channel_id: self.channel_id,
            local_path: self.local_path.clone(),
            original_filename: self.original_filename.clone(),
            timestamp_ms: self.timestamp_ms,
            retry_count: self.retry_count,
            status: self.status.duplicate(),
        }
    }
}

/// The state an entry is found in after a restart: an upload that was in
/// flight has an unknown outcome, so it is pending again.
pub open spec fn recovered(b: BackupView) -> BackupView {
    if b.status is InProgress {
        BackupView { status: StatusView::Pending, ..b }
    } else {
        b
    }
}

/// The queue after a restart.
pub open spec fn recovered_map(m: Map<Seq<char>, BackupView>) -> Map<Seq<char>, BackupView> {
    m.map_values(|b: BackupView| recovered(b))
}

/// Persistent queue of pending backups: at most one entry per local file.
pub struct BackupQueue {
    entries: Vec<PendingBackup>,
    model: Ghost<Map<Seq<char>, BackupView>>,
}

impl View for BackupQueue {
    type V = Map<Seq<char>, BackupView>;

    closed spec fn view(&self) -> Map<Seq<char>, BackupView> {
        self.model@
    }
}

impl BackupQueue {
    /// The entries are stored once per key, and the model maps each key to
    /// the one entry stored under it.
    pub closed spec fn wf(&self) -> bool {
        &&& forall|i: int, j: int|
            0 <= i < j < self.entries@.len() ==> #[trigger] self.entries@[i].local_path@
                != #[trigger] self.entries@[j].local_path@
        &&& forall|i: int|
            0 <= i < self.entries@.len() ==> #[trigger] self.model@.contains_key(
                self.entries@[i].local_path@,
            ) && self.model@[self.entries@[i].local_path@] == self.entries@[i]@
        &&& forall|k: Seq<char>|
            #[trigger] self.model@.contains_key(k) ==> exists|i: int|
                0 <= i < self.entries@.len() && #[trigger] self.entries@[i].local_path@ == k
        &&& forall|k: Seq<char>| #[trigger] self.model@.contains_key(k) ==> self.model@[k].local_path == k
    }

    /// An empty queue.
    pub fn new() -> (r: BackupQueue)
        ensures
            r.wf(),
            r@ == Map::<Seq<char>, BackupView>::empty(),
    {
        BackupQueue { entries: Vec::new(), model: Ghost(Map::empty()) }
    }

    /// Position of the entry stored under `key`, if any.
    fn position(&self, key: &String) -> (r: Option<usize>)
        requires
            self.wf(),
        ensures
            r matches Some(i) ==> i < self.entries@.len() && self.entries@[i as int].local_path@
                == key@,
            r is None ==> !self@.contains_key(key@),
    {
        let mut i: usize = 0;
        while i < self.entries.len()
            invariant
                self.wf(),
                i <= self.entries@.len(),
                forall|j: int| 0 <= j < i ==> self.entries@[j].local_path@ != key@,
            decreases self.entries@.len() - i,
        {
            if self.entries[i].local_path == *key {
                return Some(i);
            }
            i = i + 1;
        }
        proof {
            lemma_absent_key(self, key@);
        }
        None
    }
}


/// `b` with its status replaced.
pub open spec fn with_status(b: BackupView, s: StatusView) -> BackupView {
    BackupView { status: s, ..b }
}

/// `b` after one more failed attempt that ended with `error`.
pub open spec fn after_failure(b: BackupView, error: Seq<char>) -> BackupView {
    BackupView {
        status: StatusView::Failed { error },
        retry_count: (b.retry_count + 1) as u32,
        ..b
    }
}

/// Whether `b` failed and still has attempts left below `max_retries`.
pub open spec fn is_retryable(b: BackupView, max_retries: u32) -> bool {
    b.status is Failed && b.retry_count < max_retries
}

/// The queue after the entry under `k`, if any, took status `s`.
pub open spec fn marked(m: Map<Seq<char>, BackupView>, k: Seq<char>, s: StatusView) -> Map<
    Seq<char>,
    BackupView,
> {
    if m.contains_key(k) {
        m.insert(k, with_status(m[k], s))
    } else {
        m
    }
}

/// The queue after a failed attempt with `error` on the entry under `k`, if any.
pub open spec fn failed(m: Map<Seq<char>, BackupView>, k: Seq<char>, error: Seq<char>) -> Map<
    Seq<char>,
    BackupView,
> {
    if m.contains_key(k) {
        m.insert(k, after_failure(m[k], error))
    } else {
        m
    }
}

/// The views of a list of entries.
pub open spec fn views(r: Seq<&PendingBackup>) -> Seq<BackupView> {
    r.map_values(|p: &PendingBackup| p@)
}

/// `items` lists each entry of `m` that satisfies `keep`, each exactly once,
/// and nothing else.
pub open spec fn lists_exactly(
    items: Seq<BackupView>,
    m: Map<Seq<char>, BackupView>,
    keep: spec_fn(BackupView) -> bool,
) -> bool {
    &&& forall|j: int|
        0 <= j < items.len() ==> #[trigger] m.contains_key(items[j].local_path) && m[items[j].local_path]
            == items[j] && keep(items[j])
    &&& forall|k: Seq<char>|
        #[trigger] m.contains_key(k) && keep(m[k]) ==> exists|j: int|
            0 <= j < items.len() && #[trigger] items[j].local_path == k
    &&& forall|a: int, b: int|
        0 <= a < b < items.len() ==> #[trigger] items[a].local_path != #[trigger] items[b].local_path
}

/// Every key of `items` is distinct.
pub open spec fn distinct_keys(items: Seq<BackupView>) -> bool {
    forall|a: int, b: int|
        0 <= a < b < items.len() ==> #[trigger] items[a].local_path != #[trigger] items[b].local_path
}

/// The queue that a list of stored entries describes: each entry under its
/// own path, a later entry replacing an earlier one with the same path.
pub open spec fn records_map(items: Seq<BackupView>) -> Map<Seq<char>, BackupView>
    decreases items.len(),
{
    if items.len() == 0 {
        Map::empty()
    } else {
        records_map(items.drop_last()).insert(items.last().local_path, items.last())
    }
}

impl BackupQueue {
    /// Stores `b` at position `i`, whose entry has the same path.
    fn replace_at(&mut self, i: usize, b: PendingBackup)
        requires
            old(self).wf(),
            i < old(self).entries@.len(),
            b.local_path@ == old(self).entries@[i as int].local_path@,
        ensures
            final(self).wf(),
            final(self)@ == old(self)@.insert(b.local_path@, b@),
            final(self).entries@ == old(self).entries@.update(i as int, b),
    {
        let ghost k = b.local_path@;
        let ghost bv = b@;
        let ghost prev = self.entries@;
        self.entries.set(i, b);
        proof {
            self.model@ = self.model@.insert(k, bv);
            assert forall|k2: Seq<char>| #[trigger] self.model@.contains_key(k2) implies exists|j: int|
                0 <= j < self.entries@.len() && #[trigger] self.entries@[j].local_path@ == k2 by {
                if k2 == k {
                    assert(self.entries@[i as int].local_path@ == k2);
                } else {
                    let j = choose|j: int| 0 <= j < prev.len() && #[trigger] prev[j].local_path@ == k2;
                    assert(self.entries@[j].local_path@ == k2);
                }
            }
            assert forall|a: int| 0 <= a < self.entries@.len() implies #[trigger] self.model@.contains_key(
                self.entries@[a].local_path@,
            ) && self.model@[self.entries@[a].local_path@] == self.entries@[a]@ by {
                if a != i {
                    assert(prev[a].local_path@ != prev[i as int].local_path@);
                }
            }
        }
    }

    /// The entry stored under `local_path`, if any.
    pub fn get(&self, local_path: &String) -> (r: Option<&PendingBackup>)
        requires
            self.wf(),
        ensures
            r is Some <==> self@.contains_key(local_path@),
            r matches Some(b) ==> b@ == self@[local_path@],
    {
        match self.position(local_path) {
            Some(i) => {
                assert(self.model@.contains_key(self.entries@[i as int].local_path@));
                Some(&self.entries[i])
            },
            None => None,
        }
    }

    /// Adds `backup` under its local path, replacing any entry stored there.
    pub fn add(&mut self, backup: PendingBackup)
        requires
            old(self).wf(),
        ensures
            final(self).wf(),
            final(self)@ == old(self)@.insert(backup.local_path@, backup@),
    {
        match self.position(&backup.local_path) {
            Some(i) => {
                self.replace_at(i, backup);
            },
            None => {
                let ghost k = backup.local_path@;
                let ghost bv = backup@;
                let ghost prev = self.entries@;
                self.entries.push(backup);
                proof {
                    self.model@ = self.model@.insert(k, bv);
                    assert(self.entries@[prev.len() as int].local_path@ == k);
                    assert forall|k2: Seq<char>| #[trigger] self.model@.contains_key(k2) implies exists|j: int|
                        0 <= j < self.entries@.len() && #[trigger] self.entries@[j].local_path@ == k2 by {
                        if k2 != k {
                            let j = choose|j: int| 0 <= j < prev.len() && #[trigger] prev[j].local_path@ == k2;
                            assert(self.entries@[j].local_path@ == k2);
                        }
                    }
                }
            },
        }
    }

    /// Removes the entry stored under `local_path`, if any.
    pub fn remove(&mut self, local_path: &String)
        requires
            old(self).wf(),
        ensures
            final(self).wf(),
            final(self)@ == old(self)@.remove(local_path@),
    {
        match self.position(local_path) {
            Some(i) => {
                let ghost prev = self.entries@;
                let ghost prev_model = self.model@;
                let _ = self.entries.remove(i);
                proof {
                    self.model@ = self.model@.remove(local_path@);
                    assert forall|k2: Seq<char>| #[trigger] self.model@.contains_key(k2) implies exists|j: int|
                        0 <= j < self.entries@.len() && #[trigger] self.entries@[j].local_path@ == k2 by {
                        let j = choose|j: int| 0 <= j < prev.len() && #[trigger] prev[j].local_path@ == k2;
                        if j < i {
                            assert(self.entries@[j].local_path@ == k2);
                        } else {
                            assert(self.entries@[j - 1].local_path@ == k2);
                        }
                    }
                    assert forall|a: int| 0 <= a < self.entries@.len() implies #[trigger] self.model@.contains_key(
                        self.entries@[a].local_path@,
                    ) && self.model@[self.entries@[a].local_path@] == self.entries@[a]@ by {
                        if a < i {
                            assert(prev_model.contains_key(prev[a].local_path@));
                            assert(prev[a].local_path@ != prev[i as int].local_path@);
                        } else {
                            assert(self.entries@[a] == prev[a + 1]);
                            assert(prev_model.contains_key(prev[a + 1].local_path@));
                            assert(prev[a + 1].local_path@ != prev[i as int].local_path@);
                        }
                    }
                    assert forall|a: int, b: int|
                        0 <= a < b < self.entries@.len() implies #[trigger] self.entries@[a].local_path@
                        != #[trigger] self.entries@[b].local_path@ by {
                        let a0 = if a < i { a } else { a + 1 };
                        let b0 = if b < i { b } else { b + 1 };
                        assert(prev[a0].local_path@ != prev[b0].local_path@);
                    }
                }
            },
            None => {
                proof {
                    assert(self.model@.remove(local_path@) =~= self.model@);
                }
            },
        }
    }

    /// Marks the entry stored under `local_path` as in progress.
    pub fn mark_in_progress(&mut self, local_path: &String)
        requires
            old(self).wf(),
        ensures
            final(self).wf(),
            final(self)@ == marked(old(self)@, local_path@, StatusView::InProgress),
    {
        if let Some(i) = self.position(local_path) {
            let mut b = self.entries[i].duplicate();
            b.status = BackupStatus::InProgress;
            self.replace_at(i, b);
        }
    }

    /// Records a failed attempt on the entry stored under `local_path`: its
    /// status becomes Failed with `error`, and its attempt count grows by one.
    pub fn mark_failed(&mut self, local_path: &String, error: String)
        requires
            old(self).wf(),
            old(self)@.contains_key(local_path@) ==> old(self)@[local_path@].retry_count < u32::MAX,
        ensures
            final(self).wf(),
            final(self)@ == failed(old(self)@, local_path@, error@),
    {
        if let Some(i) = self.position(local_path) {
            let mut b = self.entries[i].duplicate();
            b.status = BackupStatus::Failed { error };
            b.retry_count = b.retry_count + 1;
            self.replace_at(i, b);
        }
    }

    /// Sets the entry stored under `local_path` back to pending; its attempt
    /// count stays as it is.
    pub fn reset_to_pending(&mut self, local_path: &String)
        requires
            old(self).wf(),
        ensures
            final(self).wf(),
            final(self)@ == marked(old(self)@, local_path@, StatusView::Pending),
    {
        if let Some(i) = self.position(local_path) {
            let mut b = self.entries[i].duplicate();
            b.status = BackupStatus::Pending;
            self.replace_at(i, b);
        }
    }
}


/// Which entries a listing keeps: the pending ones, or the failed ones that
/// have attempts left below `max_retries`.
pub open spec fn listed(b: BackupView, failed: bool, max_retries: u32) -> bool {
    if failed {
        is_retryable(b, max_retries)
    } else {
        b.status is Pending
    }
}

impl BackupQueue {
    fn collect(&self, failed: bool, max_retries: u32) -> (r: Vec<&PendingBackup>)
        requires
            self.wf(),
        ensures
            lists_exactly(views(r@), self@, |b: BackupView| listed(b, failed, max_retries)),
    {
        let mut r: Vec<&PendingBackup> = Vec::new();
        let ghost mut idx: Seq<int> = Seq::empty();
        let mut i: usize = 0;
        while i < self.entries.len()
            invariant
                self.wf(),
                i <= self.entries@.len(),
                idx.len() == r@.len(),
                forall|j: int| 0 <= j < idx.len() ==> 0 <= #[trigger] idx[j] < i,
                forall|j: int| 0 <= j < idx.len() ==> (#[trigger] r@[j])@ == self.entries@[idx[j]]@,
                forall|j: int|
                    0 <= j < idx.len() ==> listed(#[trigger] self.entries@[idx[j]]@, failed, max_retries),
                forall|a: int, b: int| 0 <= a < b < idx.len() ==> #[trigger] idx[a] < #[trigger] idx[b],
                forall|t: int|
                    0 <= t < i && listed(#[trigger] self.entries@[t]@, failed, max_retries) ==> exists|
                        j: int,
                    | 0 <= j < idx.len() && idx[j] == t,
            decreases self.entries@.len() - i,
        {
            let ghost idx0 = idx;
            let e = &self.entries[i];
            let keep = if failed {
                match e.status {
                    BackupStatus::Failed { .. } => e.retry_count < max_retries,
                    _ => false,
                }
            } else {
                match e.status {
                    BackupStatus::Pending => true,
                    _ => false,
                }
            };
            if keep {
                proof {
                    let n = idx.len() as int;
                    idx = idx.push(i as int);
                    assert(idx[n] == i);
                }
                r.push(e);
            }
            proof {
                assert(keep == listed(self.entries@[i as int]@, failed, max_retries));
                assert forall|t: int|
                    0 <= t < i + 1 && listed(#[trigger] self.entries@[t]@, failed, max_retries) implies exists|
                        j: int,
                    | 0 <= j < idx.len() && idx[j] == t by {
                    if t < i {
                        let j = choose|j: int| 0 <= j < idx0.len() && idx0[j] == t;
                        assert(idx[j] == t);
                    } else {
                        assert(idx[idx0.len() as int] == t);
                    }
                }
            }
            i = i + 1;
        }
        proof {
            let items = views(r@);
            assert forall|j: int| 0 <= j < items.len() implies #[trigger] self@.contains_key(
                items[j].local_path,
            ) && self@[items[j].local_path] == items[j] && listed(items[j], failed, max_retries) by {
                assert(self.model@.contains_key(self.entries@[idx[j]].local_path@));
            }
            assert forall|k: Seq<char>|
                #[trigger] self@.contains_key(k) && listed(self@[k], failed, max_retries) implies exists|
                    j: int,
                | 0 <= j < items.len() && #[trigger] items[j].local_path == k by {
                let t = choose|t: int| 0 <= t < self.entries@.len() && #[trigger] self.entries@[t].local_path@ == k;
                assert(self.model@.contains_key(self.entries@[t].local_path@));
                assert(listed(self.entries@[t]@, failed, max_retries));
                let j = choose|j: int| 0 <= j < idx.len() && idx[j] == t;
                assert(items[j].local_path == k);
            }
            assert forall|a: int, b: int|
                0 <= a < b < items.len() implies #[trigger] items[a].local_path != #[trigger] items[b].local_path by {
                assert(idx[a] < idx[b]);
            }
        }
        r
    }

    /// Every entry whose status is Pending.
    pub fn get_pending(&self) -> (r: Vec<&PendingBackup>)
        requires
            self.wf(),
        ensures
            lists_exactly(views(r@), self@, |b: BackupView| b.status is Pending),
    {
        self.collect(false, 0)
    }

    /// Every entry whose status is Failed and whose attempt count is below
    /// `max_retries`.
    pub fn get_failed(&self, max_retries: u32) -> (r: Vec<&PendingBackup>)
        requires
            self.wf(),
        ensures
            lists_exactly(views(r@), self@, |b: BackupView| is_retryable(b, max_retries)),
    {
        self.collect(true, max_retries)
    }
}


/// `b` after a retry pass: a failed entry with attempts left is pending
/// again, unless its local file was missing, which no retry can mend.
pub open spec fn after_retry_pass(b: BackupView, max_retries: u32) -> BackupView {
    if is_retryable(b, max_retries) && b.status != (StatusView::Failed { error: missing_file_error() }) {
        with_status(b, StatusView::Pending)
    } else {
        b
    }
}

/// The queue after a retry pass.
pub open spec fn retry_pass(m: Map<Seq<char>, BackupView>, max_retries: u32) -> Map<Seq<char>, BackupView> {
    m.map_values(|b: BackupView| after_retry_pass(b, max_retries))
}

/// The views of a list of stored entries.
pub open spec fn record_views(r: Seq<PendingBackup>) -> Seq<BackupView> {
    r.map_values(|p: PendingBackup| p@)
}

/// The error recorded for an entry whose local file has disappeared.
pub open spec fn missing_file_error() -> Seq<char> {
    "file missing"@
}

/// What the upload worker does next with one pending entry.
pub enum UploadStep {
    /// Nothing: the entry is gone, or has used up its attempts.
    Skip,
    /// The local file is gone; the entry was marked failed.
    MarkedMissing,
    /// The entry was marked in progress; upload its file now.
    Upload,
}

impl BackupQueue {
    /// Sets every failed entry with attempts left below `max_retries` back to
    /// pending, so that it is tried again on the next pass. An entry whose
    /// local file was missing stays failed.
    pub fn reset_failed_for_retry(&mut self, max_retries: u32)
        requires
            old(self).wf(),
        ensures
            final(self).wf(),
            final(self)@ == retry_pass(old(self)@, max_retries),
    {
        let ghost orig = self.entries@;
        let ghost orig_model = self.model@;
        let n = self.entries.len();
        let mut i: usize = 0;
        while i < n
            invariant
                self.wf(),
                n == self.entries@.len(),
                n == orig.len(),
                i <= n,
                self@.dom() == orig_model.dom(),
                forall|j: int| 0 <= j < n ==> #[trigger] self.entries@[j].local_path@ == orig[j].local_path@,
                forall|j: int|
                    0 <= j < i ==> self@[#[trigger] orig[j].local_path@] == after_retry_pass(
                        orig_model[orig[j].local_path@],
                        max_retries,
                    ),
                forall|j: int| i <= j < n ==> self@[#[trigger] orig[j].local_path@] == orig_model[orig[j].local_path@],
            decreases n - i,
        {
            let ghost cur = self.entries@;
            assert(self.model@.contains_key(cur[i as int].local_path@));
            let retry = match &self.entries[i].status {
                BackupStatus::Failed { error } => self.entries[i].retry_count < max_retries && !same_text(
                    error.as_str(),
                    "file missing",
                ),
                _ => false,
            };
            if retry {
                let mut b = self.entries[i].duplicate();
                b.status = BackupStatus::Pending;
                self.replace_at(i, b);
            }
            proof {
                assert forall|j: int| 0 <= j < n && j != i implies #[trigger] orig[j].local_path@ != orig[i as int].local_path@ by {
                    assert(cur[j].local_path@ != cur[i as int].local_path@);
                }
            }
            i = i + 1;
        }
        proof {
            assert forall|k: Seq<char>| #[trigger] self@.contains_key(k) implies self@[k] == after_retry_pass(orig_model[k], max_retries) by {
                let t = choose|t: int| 0 <= t < self.entries@.len() && #[trigger] self.entries@[t].local_path@ == k;
                assert(orig[t].local_path@ == k);
            }
            assert(self@ =~= orig_model.map_values(|b: BackupView| after_retry_pass(b, max_retries)));
        }
    }

    /// A copy of every entry, each once: what is written to disk.
    pub fn snapshot(&self) -> (r: Vec<PendingBackup>)
        requires
            self.wf(),
        ensures
            distinct_keys(record_views(r@)),
            records_map(record_views(r@)) == self@,
    {
        let mut r: Vec<PendingBackup> = Vec::new();
        let mut i: usize = 0;
        while i < self.entries.len()
            invariant
                self.wf(),
                i <= self.entries@.len(),
                r@.len() == i,
                forall|j: int| 0 <= j < i ==> (#[trigger] r@[j])@ == self.entries@[j]@,
            decreases self.entries@.len() - i,
        {
            r.push(self.entries[i].duplicate());
            i = i + 1;
        }
        proof {
            let items = record_views(r@);
            assert forall|a: int, b: int|
                0 <= a < b < items.len() implies #[trigger] items[a].local_path != #[trigger] items[b].local_path by {
                assert(self.entries@[a].local_path@ != self.entries@[b].local_path@);
            }
            lemma_records_map(items);
            assert forall|k: Seq<char>| #[trigger] self@.contains_key(k) implies records_map(items).contains_key(k)
                && records_map(items)[k] == self@[k] by {
                let t = choose|t: int| 0 <= t < self.entries@.len() && #[trigger] self.entries@[t].local_path@ == k;
                assert(items[t].local_path == k);
            }
            assert forall|k: Seq<char>| #[trigger] records_map(items).contains_key(k) implies self@.contains_key(k) by {
                let j = choose|j: int| 0 <= j < items.len() && #[trigger] items[j].local_path == k;
                assert(self.model@.contains_key(self.entries@[j].local_path@));
            }
            assert(records_map(items) =~= self@);
        }
        r
    }

    /// The queue that stored `records` describe, as found after a restart:
    /// every entry that was in progress is pending again.
    pub fn load(records: &Vec<PendingBackup>) -> (r: BackupQueue)
        ensures
            r.wf(),
            r@ == recovered_map(records_map(record_views(records@))),
            forall|k: Seq<char>| #[trigger] r@.contains_key(k) ==> !(r@[k].status is InProgress),
    {
        let mut q = BackupQueue::new();
        let mut i: usize = 0;
        while i < records.len()
            invariant
                q.wf(),
                i <= records@.len(),
                q@ == recovered_map(records_map(record_views(records@).take(i as int))),
            decreases records@.len() - i,
        {
            let mut b = records[i].duplicate();
            if let BackupStatus::InProgress = b.status {
                b.status = BackupStatus::Pending;
            }
            let ghost prefix = record_views(records@).take(i as int);
            let ghost next = record_views(records@).take(i + 1);
            assert(next.drop_last() =~= prefix);
            assert(b@ == recovered(records@[i as int]@));
            q.add(b);
            proof {
                lemma_recovered_insert(records_map(prefix), records@[i as int]@);
            }
            i = i + 1;
        }
        assert(record_views(records@).take(records@.len() as int) =~= record_views(records@));
        q
    }

    /// First step of an upload attempt for the entry under `local_path`, given
    /// whether its local file still exists: a missing file marks the entry
    /// failed; an entry that has used up its attempts is left alone; otherwise
    /// the entry is marked in progress and its file is to be uploaded.
    pub fn begin_upload(&mut self, local_path: &String, file_exists: bool, max_retries: u32) -> (r:
        UploadStep)
        requires
            old(self).wf(),
        ensures
            final(self).wf(),
            !old(self)@.contains_key(local_path@) ==> r is Skip && final(self)@ == old(self)@,
            old(self)@.contains_key(local_path@) ==> {
                let b = old(self)@[local_path@];
                if !file_exists {
                    if b.retry_count < u32::MAX {
                        r is MarkedMissing && final(self)@ == failed(
                            old(self)@,
                            local_path@,
                            missing_file_error(),
                        )
                    } else {
                        r is Skip && final(self)@ == old(self)@
                    }
                } else if b.retry_count >= max_retries {
                    r is Skip && final(self)@ == old(self)@
                } else {
                    r is Upload && final(self)@ == marked(old(self)@, local_path@, StatusView::InProgress)
                }
            },
    {
        let retry_count = match self.get(local_path) {
            Some(b) => b.retry_count,
            None => {
                return UploadStep::Skip;
            },
        };
        if !file_exists {
            if retry_count < u32::MAX {
                let error = String::from_str("file missing");
                self.mark_failed(local_path, error);
                UploadStep::MarkedMissing
            } else {
                UploadStep::Skip
            }
        } else if retry_count >= max_retries {
            UploadStep::Skip
        } else {
            self.mark_in_progress(local_path);
            UploadStep::Upload
        }
    }

    /// Last step of an upload attempt: on success the entry leaves the queue;
    /// on failure it is marked failed with the error.
    pub fn finish_upload(&mut self, local_path: &String, outcome: Result<(), String>)
        requires
            old(self).wf(),
            outcome is Err && old(self)@.contains_key(local_path@) ==> old(self)@[local_path@].retry_count
                < u32::MAX,
        ensures
            final(self).wf(),
            outcome is Ok ==> final(self)@ == old(self)@.remove(local_path@),
            outcome matches Err(e) ==> final(self)@ == failed(old(self)@, local_path@, e@),
    {
        match outcome {
            Ok(()) => self.remove(local_path),
            Err(e) => self.mark_failed(local_path, e),
        }
    }
}

/// No entry of a reloaded queue is in progress: an upload that was in flight
/// when the process stopped is pending again.
pub proof fn lemma_reload_has_nothing_in_progress(records: Seq<BackupView>)
    ensures
        forall|k: Seq<char>| #[trigger] recovered_map(records_map(records)).contains_key(k) ==> !(
        recovered_map(records_map(records))[k].status is InProgress),
{
}

/// A recorded failure raises the entry's attempt count by exactly one.
/// Nothing else but adding a fresh entry lowers a count: marking a status,
/// removing an entry, a retry pass and a restart leave the count of every
/// remaining entry as it was.
pub proof fn lemma_retry_counts(
    m: Map<Seq<char>, BackupView>,
    k: Seq<char>,
    error: Seq<char>,
    s: StatusView,
    max_retries: u32,
)
    requires
        m.contains_key(k) ==> m[k].retry_count < u32::MAX,
    ensures
        m.contains_key(k) ==> failed(m, k, error)[k].retry_count == m[k].retry_count + 1,
        forall|k2: Seq<char>|
            #[trigger] failed(m, k, error).contains_key(k2) && k2 != k ==> m.contains_key(k2)
                && failed(m, k, error)[k2].retry_count == m[k2].retry_count,
        forall|k2: Seq<char>|
            #[trigger] marked(m, k, s).contains_key(k2) ==> m.contains_key(k2) && marked(m, k, s)[k2].retry_count
                == m[k2].retry_count,
        forall|k2: Seq<char>|
            #[trigger] m.remove(k).contains_key(k2) ==> m.contains_key(k2) && m.remove(k)[k2].retry_count
                == m[k2].retry_count,
        forall|k2: Seq<char>|
            #[trigger] retry_pass(m, max_retries).contains_key(k2) ==> m.contains_key(k2) && retry_pass(
                m,
                max_retries,
            )[k2].retry_count == m[k2].retry_count,
        forall|k2: Seq<char>|
            #[trigger] recovered_map(m).contains_key(k2) ==> m.contains_key(k2) && recovered_map(m)[k2].retry_count
                == m[k2].retry_count,
{
}

/// What a queue saves is what it holds: reloading its snapshot gives the same
/// entries, except that an entry in progress comes back pending.
pub proof fn lemma_reload_restores(q: BackupQueue, records: Seq<BackupView>)
    requires
        q.wf(),
        records_map(records) == q@,
    ensures
        recovered_map(records_map(records)) == recovered_map(q@),
        (forall|k: Seq<char>| #[trigger] q@.contains_key(k) ==> !(q@[k].status is InProgress))
            ==> recovered_map(records_map(records)) == q@,
{
    if forall|k: Seq<char>| #[trigger] q@.contains_key(k) ==> !(q@[k].status is InProgress) {
        assert(recovered_map(q@) =~= q@);
    }
}

proof fn lemma_recovered_insert(m: Map<Seq<char>, BackupView>, b: BackupView)
    ensures
        recovered_map(m.insert(b.local_path, b)) == recovered_map(m).insert(
            b.local_path,
            recovered(b),
        ),
{
    assert(recovered_map(m.insert(b.local_path, b)) =~= recovered_map(m).insert(
        b.local_path,
        recovered(b),
    ));
}

proof fn lemma_records_map(items: Seq<BackupView>)
    requires
        distinct_keys(items),
    ensures
        forall|k: Seq<char>| #[trigger] records_map(items).contains_key(k) ==> exists|j: int|
            0 <= j < items.len() && #[trigger] items[j].local_path == k,
        forall|j: int|
            0 <= j < items.len() ==> #[trigger] records_map(items).contains_key(items[j].local_path)
                && records_map(items)[items[j].local_path] == items[j],
    decreases items.len(),
{
    if items.len() > 0 {
        let init = items.drop_last();
        assert(distinct_keys(init)) by {
            assert forall|a: int, b: int|
                0 <= a < b < init.len() implies #[trigger] init[a].local_path != #[trigger] init[b].local_path by {
                assert(items[a].local_path != items[b].local_path);
            }
        }
        lemma_records_map(init);
        let last = items.len() - 1;
        assert forall|k: Seq<char>| #[trigger] records_map(items).contains_key(k) implies exists|j: int|
            0 <= j < items.len() && #[trigger] items[j].local_path == k by {
            if k != items[last].local_path {
                assert(records_map(init).contains_key(k));
                let j = choose|j: int| 0 <= j < init.len() && #[trigger] init[j].local_path == k;
                assert(items[j].local_path == k);
            } else {
                assert(items[last].local_path == k);
            }
        }
        assert forall|j: int| 0 <= j < items.len() implies #[trigger] records_map(items).contains_key(
            items[j].local_path,
        ) && records_map(items)[items[j].local_path] == items[j] by {
            if j < last {
                assert(init[j] == items[j]);
                assert(items[j].local_path != items[last].local_path);
            }
        }
    }
}

proof fn lemma_absent_key(q: &BackupQueue, k: Seq<char>)
    requires
        q.wf(),
        forall|j: int| 0 <= j < q.entries@.len() ==> q.entries@[j].local_path@ != k,
    ensures
        !q@.contains_key(k),
{
    if q@.contains_key(k) {
        let i = choose|i: int| 0 <= i < q.entries@.len() && #[trigger] q.entries@[i].local_path@ == k;
        assert(q.entries@[i].local_path@ == k);
    }
}

} // verus!
