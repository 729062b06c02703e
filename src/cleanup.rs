//! One cleanup pass over a channel: the expiry filter, classification into
//! delete and backup jobs, the pagination state machine, and the plan of
//! deletions.

use vstd::prelude::*;

use crate::queue::{BackupQueue, BackupView, PendingBackup, StatusView};

verus! {

/// Milliseconds in one day.
pub const MS_PER_DAY: i64 = 86_400_000;

/// An attachment as the library reasons about it.
pub struct AttachmentView {
    pub id: u64,
    pub filename: Seq<char>,
    pub url: Seq<char>,
    pub content_type: Option<Seq<char>>,
}

/// A file attached to a message.
#[derive(Clone, Debug)]
pub struct Attachment {
    pub id: u64,
    pub filename: String,
    pub url: String,
    /// The MIME type that the chat service reports, if any.
    pub content_type: Option<String>,
}

impl View for Attachment {
    type V = AttachmentView;

    open spec fn view(&self) -> AttachmentView {
        AttachmentView {
            id: self.id,
            filename: self.filename@,
            url: self.url@,
            content_type: match &self.content_type {
                Some(c) => Some(c@),
                None => None,
            },
        }
    }
}

impl Attachment {
    /// A copy of this attachment.
    pub fn duplicate(&self) -> (r: Attachment)
        ensures
            r@ == self@,
    {
        Attachment {
            id: self.id,
            filename: self.filename.clone(),
            url: self.url.clone(),
            content_type: match &self.content_type {
                Some(c) => Some(c.clone()),
                None => None,
            },
        }
    }
}

/// A message as the library reasons about it.
pub struct MessageView {
    pub id: u64,
    pub timestamp_ms: i64,
    pub attachments: Seq<AttachmentView>,
}

/// A message of the channel's history.
#[derive(Clone, Debug)]
pub struct ChatMessage {
    pub id: u64,
    /// When the message was posted, in milliseconds since the Unix epoch.
    pub timestamp_ms: i64,
    pub attachments: Vec<Attachment>,
}

/// The views of a list of attachments.
pub open spec fn attachment_views(s: Seq<Attachment>) -> Seq<AttachmentView> {
    s.map_values(|a: Attachment| a@)
}

impl View for ChatMessage {
    type V = MessageView;

    open spec fn view(&self) -> MessageView {
        MessageView {
            id: self.id,
            timestamp_ms: self.timestamp_ms,
            attachments: attachment_views(self.attachments@),
        }
    }
}

/// The views of a list of messages.
pub open spec fn message_views(s: Seq<ChatMessage>) -> Seq<MessageView> {
    s.map_values(|m: ChatMessage| m@)
}

/// Whether `s` begins with `p`.
pub open spec fn has_prefix(s: Seq<char>, p: Seq<char>) -> bool {
    p.len() <= s.len() && s.subrange(0, p.len() as int) == p
}

/// An attachment is media when its type is an image or a video.
pub open spec fn is_media(a: AttachmentView) -> bool {
    match a.content_type {
        Some(t) => has_prefix(t, "image/"@) || has_prefix(t, "video/"@),
        None => false,
    }
}

/// The media attachments among `s`, in order.
pub open spec fn media_of(s: Seq<AttachmentView>) -> Seq<AttachmentView>
    decreases s.len(),
{
    if s.len() == 0 {
        Seq::empty()
    } else if is_media(s.last()) {
        media_of(s.drop_last()).push(s.last())
    } else {
        media_of(s.drop_last())
    }
}

/// The start of the retention window: messages posted before it are expired.
pub open spec fn retention_cutoff(now_ms: int, retention_days: int) -> int {
    now_ms - retention_days * MS_PER_DAY
}

/// The messages among `s` posted strictly before `cutoff_ms`, in order.
pub open spec fn expired_of(s: Seq<MessageView>, cutoff_ms: int) -> Seq<MessageView>
    decreases s.len(),
{
    if s.len() == 0 {
        Seq::empty()
    } else if s.last().timestamp_ms < cutoff_ms {
        expired_of(s.drop_last(), cutoff_ms).push(s.last())
    } else {
        expired_of(s.drop_last(), cutoff_ms)
    }
}

fn starts_with(s: &String, p: &str) -> (r: bool)
    ensures
        r == has_prefix(s@, p@),
{
    let n = p.unicode_len();
    if n > s.as_str().unicode_len() {
        return false;
    }
    let mut i: usize = 0;
    while i < n
        invariant
            n == p@.len(),
            n <= s@.len(),
            i <= n,
            forall|j: int| 0 <= j < i ==> s@[j] == p@[j],
        decreases n - i,
    {
        if s.as_str().get_char(i) != p.get_char(i) {
            assert(s@.subrange(0, n as int)[i as int] != p@[i as int]);
            return false;
        }
        i = i + 1;
    }
    assert(s@.subrange(0, n as int) =~= p@);
    true
}

/// Whether the attachment is an image or a video.
pub fn attachment_is_media(a: &Attachment) -> (r: bool)
    ensures
        r == is_media(a@),
{
    match &a.content_type {
        Some(t) => starts_with(t, "image/") || starts_with(t, "video/"),
        None => false,
    }
}

/// The media attachments of a message, in order.
pub fn extract_media(attachments: &Vec<Attachment>) -> (r: Vec<Attachment>)
    ensures
        attachment_views(r@) == media_of(attachment_views(attachments@)),
{
    let mut r: Vec<Attachment> = Vec::new();
    let mut i: usize = 0;
    while i < attachments.len()
        invariant
            i <= attachments@.len(),
            attachment_views(r@) == media_of(attachment_views(attachments@).take(i as int)),
        decreases attachments@.len() - i,
    {
        let ghost prev = attachment_views(r@);
        assert(attachment_views(attachments@).take(i + 1).drop_last() =~= attachment_views(
            attachments@,
        ).take(i as int));
        if attachment_is_media(&attachments[i]) {
            r.push(attachments[i].duplicate());
            assert(attachment_views(r@) =~= prev.push(attachments@[i as int]@));
        }
        i = i + 1;
    }
    assert(attachment_views(attachments@).take(attachments@.len() as int) =~= attachment_views(
        attachments@,
    ));
    r
}

/// The start of the retention window, in milliseconds since the Unix epoch.
pub fn retention_cutoff_ms(now_ms: i64, retention_days: u32) -> (r: i64)
    requires
        retention_cutoff(now_ms as int, retention_days as int) >= i64::MIN,
    ensures
        r == retention_cutoff(now_ms as int, retention_days as int),
{
    assert(retention_days as int * MS_PER_DAY <= u32::MAX as int * MS_PER_DAY) by (nonlinear_arith)
        requires retention_days <= u32::MAX;
    now_ms - (retention_days as i64) * MS_PER_DAY
}

/// The messages posted before the retention window that ends at `now_ms`,
/// in order.
pub fn filter_expired_messages(messages: Vec<ChatMessage>, retention_days: u32, now_ms: i64) -> (r:
    Vec<ChatMessage>)
    requires
        retention_cutoff(now_ms as int, retention_days as int) >= i64::MIN,
    ensures
        message_views(r@) == expired_of(
            message_views(messages@),
            retention_cutoff(now_ms as int, retention_days as int),
        ),
{
    let cutoff = retention_cutoff_ms(now_ms, retention_days);
    let ghost all = message_views(messages@);
    let mut r: Vec<ChatMessage> = Vec::new();
    for m in it: messages
        invariant
            it.seq() == messages@,
            all == message_views(messages@),
            message_views(r@) == expired_of(all.take(it.index() as int), cutoff as int),
    {
        let ghost i = it.index();
        assert(all.take(i + 1).drop_last() =~= all.take(i as int));
        let ghost prev = message_views(r@);
        if m.timestamp_ms < cutoff {
            r.push(m);
            assert(message_views(r@) =~= prev.push(all[i as int]));
        }
    }
    assert(all.take(all.len() as int) =~= all);
    r
}

/// Largest page fetched per request.
pub const MAX_MESSAGES_PER_FETCH: usize = 100;

/// Expired messages gathered before a pass stops paginating.
pub const TARGET_EXPIRED_MESSAGES: usize = 100;

/// Pages fetched at most in one pass.
pub const MAX_PAGINATION_ROUNDS: usize = 10;

/// Oldest age, in days, at which the platform still deletes in bulk.
pub const BULK_DELETE_MAX_AGE_DAYS: i64 = 14;

/// Fewest messages worth a bulk deletion.
pub const BULK_DELETE_MIN: usize = 2;

/// Most messages per bulk deletion.
pub const BULK_DELETE_MAX: usize = 100;

/// A delete job as the library reasons about it.
pub struct DeleteJobView {
    pub message_id: u64,
    pub timestamp_ms: i64,
}

/// A message without media, to be deleted now.
#[derive(Clone, Copy, Debug)]
pub struct DeleteJob {
    pub message_id: u64,
    pub timestamp_ms: i64,
}

impl View for DeleteJob {
    type V = DeleteJobView;

    open spec fn view(&self) -> DeleteJobView {
        DeleteJobView { message_id: self.message_id, timestamp_ms: self.timestamp_ms }
    }
}

/// A backup job as the library reasons about it.
pub struct BackupJobView {
    pub message_id: u64,
    pub attachments: Seq<AttachmentView>,
    pub timestamp_ms: i64,
}

/// A message with media, whose media must be backed up before it is deleted.
#[derive(Clone, Debug)]
pub struct BackupJob {
    pub message_id: u64,
    /// The media attachments only.
    pub attachments: Vec<Attachment>,
    pub timestamp_ms: i64,
}

impl View for BackupJob {
    type V = BackupJobView;

    open spec fn view(&self) -> BackupJobView {
        BackupJobView {
            message_id: self.message_id,
            attachments: attachment_views(self.attachments@),
            timestamp_ms: self.timestamp_ms,
        }
    }
}

/// Expired messages, split by whether they carry media.
pub struct ClassifiedMessages {
    /// Messages that can be deleted now (no media).
    pub delete_jobs: Vec<DeleteJob>,
    /// Messages whose media must be backed up first.
    pub backup_jobs: Vec<BackupJob>,
}

impl ClassifiedMessages {
    /// No job yet.
    pub fn new() -> (r: ClassifiedMessages)
        ensures
            r.delete_jobs@.len() == 0,
            r.backup_jobs@.len() == 0,
    {
        ClassifiedMessages { delete_jobs: Vec::new(), backup_jobs: Vec::new() }
    }
}

/// The delete job for a message.
pub open spec fn delete_job_of(m: MessageView) -> DeleteJobView {
    DeleteJobView { message_id: m.id, timestamp_ms: m.timestamp_ms }
}

/// The backup job for a message.
pub open spec fn backup_job_of(m: MessageView) -> BackupJobView {
    BackupJobView { message_id: m.id, attachments: media_of(m.attachments), timestamp_ms: m.timestamp_ms }
}

/// The delete jobs of `s`: one per message without media, in order.
pub open spec fn delete_jobs_of(s: Seq<MessageView>) -> Seq<DeleteJobView>
    decreases s.len(),
{
    if s.len() == 0 {
        Seq::empty()
    } else if media_of(s.last().attachments).len() == 0 {
        delete_jobs_of(s.drop_last()).push(delete_job_of(s.last()))
    } else {
        delete_jobs_of(s.drop_last())
    }
}

/// The backup jobs of `s`: one per message with media, in order.
pub open spec fn backup_jobs_of(s: Seq<MessageView>) -> Seq<BackupJobView>
    decreases s.len(),
{
    if s.len() == 0 {
        Seq::empty()
    } else if media_of(s.last().attachments).len() == 0 {
        backup_jobs_of(s.drop_last())
    } else {
        backup_jobs_of(s.drop_last()).push(backup_job_of(s.last()))
    }
}

/// The views of a list of delete jobs.
pub open spec fn delete_job_views(s: Seq<DeleteJob>) -> Seq<DeleteJobView> {
    s.map_values(|j: DeleteJob| j@)
}

/// The views of a list of backup jobs.
pub open spec fn backup_job_views(s: Seq<BackupJob>) -> Seq<BackupJobView> {
    s.map_values(|j: BackupJob| j@)
}

/// Splits messages into delete jobs (no media attachment) and backup jobs
/// (at least one media attachment), keeping their order.
pub fn classify_messages(messages: Vec<ChatMessage>) -> (r: ClassifiedMessages)
    ensures
        delete_job_views(r.delete_jobs@) == delete_jobs_of(message_views(messages@)),
        backup_job_views(r.backup_jobs@) == backup_jobs_of(message_views(messages@)),
{
    let mut result = ClassifiedMessages::new();
    let ghost all = message_views(messages@);
    for message in it: messages
        invariant
            it.seq() == messages@,
            all == message_views(messages@),
            delete_job_views(result.delete_jobs@) == delete_jobs_of(all.take(it.index() as int)),
            backup_job_views(result.backup_jobs@) == backup_jobs_of(all.take(it.index() as int)),
    {
        let ghost i = it.index();
        assert(all.take(i + 1).drop_last() =~= all.take(i as int));
        assert(all.take(i + 1).last() == message@);
        let ghost dprev = delete_job_views(result.delete_jobs@);
        let ghost bprev = backup_job_views(result.backup_jobs@);
        let media = extract_media(&message.attachments);
        if media.len() == 0 {
            result.delete_jobs.push(DeleteJob { message_id: message.id, timestamp_ms: message.timestamp_ms });
            assert(delete_job_views(result.delete_jobs@) =~= dprev.push(delete_job_of(message@)));
            assert(backup_job_views(result.backup_jobs@) =~= bprev);
        } else {
            result.backup_jobs.push(
                BackupJob { message_id: message.id, attachments: media, timestamp_ms: message.timestamp_ms },
            );
            assert(backup_job_views(result.backup_jobs@) =~= bprev.push(backup_job_of(message@)));
            assert(delete_job_views(result.delete_jobs@) =~= dprev);
        }
    }
    assert(all.take(all.len() as int) =~= all);
    result
}

/// The pagination state of a pass, as the library reasons about it.
pub struct PaginationView {
    /// Oldest message id seen so far; the next page is fetched before it.
    pub cursor: Option<u64>,
    /// Expired messages gathered so far, newest first.
    pub expired: Seq<MessageView>,
    pub rounds: nat,
    /// A page came back shorter than requested: the history is exhausted.
    pub reached_end: bool,
    /// No further page is to be fetched.
    pub finished: bool,
}

/// The state after one more page has been fetched.
pub open spec fn page_step(s: PaginationView, page: Seq<MessageView>, cutoff_ms: int) -> PaginationView {
    if page.len() == 0 {
        PaginationView { rounds: s.rounds + 1, reached_end: true, finished: true, ..s }
    } else {
        let end = page.len() < MAX_MESSAGES_PER_FETCH;
        let all = s.expired + expired_of(page, cutoff_ms);
        if all.len() >= TARGET_EXPIRED_MESSAGES {
            let kept = all.take(TARGET_EXPIRED_MESSAGES as int);
            PaginationView {
                cursor: Some(kept.last().id),
                expired: kept,
                rounds: s.rounds + 1,
                reached_end: end,
                finished: true,
            }
        } else {
            PaginationView {
                cursor: Some(page.last().id),
                expired: all,
                rounds: s.rounds + 1,
                reached_end: end,
                finished: end,
            }
        }
    }
}

/// The cursor stored at the end of a pass: none once the history is
/// exhausted, so that the next pass starts again from the newest message.
pub open spec fn saved_cursor(s: PaginationView) -> Option<u64> {
    if s.reached_end {
        None
    } else {
        s.cursor
    }
}

/// Pagination through a channel's history, from the stored cursor towards
/// older messages, gathering the expired ones.
pub struct Pagination {
    cursor: Option<u64>,
    expired: Vec<ChatMessage>,
    rounds: usize,
    reached_end: bool,
    finished: bool,
}

impl View for Pagination {
    type V = PaginationView;

    closed spec fn view(&self) -> PaginationView {
        PaginationView {
            cursor: self.cursor,
            expired: message_views(self.expired@),
            rounds: self.rounds as nat,
            reached_end: self.reached_end,
            finished: self.finished,
        }
    }
}

impl Pagination {
    /// A pass that starts before `cursor`, or from the newest message.
    pub fn new(cursor: Option<u64>) -> (r: Pagination)
        ensures
            r@ == (PaginationView {
                cursor,
                expired: Seq::empty(),
                rounds: 0,
                reached_end: false,
                finished: false,
            }),
    {
        let r = Pagination { cursor, expired: Vec::new(), rounds: 0, reached_end: false, finished: false };
        assert(message_views(r.expired@) =~= Seq::<MessageView>::empty());
        r
    }

    /// Whether another page is to be fetched.
    pub fn wants_page(&self) -> (r: bool)
        ensures
            r == (!self@.finished && self@.rounds < MAX_PAGINATION_ROUNDS),
    {
        !self.finished && self.rounds < MAX_PAGINATION_ROUNDS
    }

    /// The message before which the next page is fetched; none for the newest.
    pub fn cursor(&self) -> (r: Option<u64>)
        ensures
            r == self@.cursor,
    {
        self.cursor
    }

    /// Takes in the page fetched before `cursor()`, newest message first.
    pub fn accept_page(&mut self, page: Vec<ChatMessage>, retention_days: u32, now_ms: i64)
        requires
            !old(self)@.finished,
            old(self)@.rounds < MAX_PAGINATION_ROUNDS,
            retention_cutoff(now_ms as int, retention_days as int) >= i64::MIN,
        ensures
            final(self)@ == page_step(
                old(self)@,
                message_views(page@),
                retention_cutoff(now_ms as int, retention_days as int),
            ),
    {
        let ghost pv = message_views(page@);
        self.rounds = self.rounds + 1;
        let n = page.len();
        if n == 0 {
            self.reached_end = true;
            self.finished = true;
            return;
        }
        self.cursor = Some(page[n - 1].id);
        assert(pv.last() == page@[n - 1]@);
        self.reached_end = n < MAX_MESSAGES_PER_FETCH;
        let mut batch = filter_expired_messages(page, retention_days, now_ms);
        let ghost prev = message_views(self.expired@);
        let ghost bv = message_views(batch@);
        self.expired.append(&mut batch);
        assert(message_views(self.expired@) =~= prev + bv);
        if self.expired.len() >= TARGET_EXPIRED_MESSAGES {
            self.expired.truncate(TARGET_EXPIRED_MESSAGES);
            assert(message_views(self.expired@) =~= (prev + bv).take(TARGET_EXPIRED_MESSAGES as int));
            self.cursor = Some(self.expired[TARGET_EXPIRED_MESSAGES - 1].id);
            self.finished = true;
        } else {
            self.finished = self.reached_end;
        }
    }

    /// The cursor to store once pagination is over.
    pub fn cursor_to_save(&self) -> (r: Option<u64>)
        ensures
            r == saved_cursor(self@),
    {
        if self.reached_end {
            None
        } else {
            self.cursor
        }
    }

    /// The expired messages gathered, newest first.
    pub fn into_expired(self) -> (r: Vec<ChatMessage>)
        ensures
            message_views(r@) == self@.expired,
    {
        self.expired
    }
}

proof fn lemma_expired_of_within(s: Seq<MessageView>, cutoff_ms: int)
    ensures
        forall|j: int|
            0 <= j < expired_of(s, cutoff_ms).len() ==> s.contains(#[trigger] expired_of(s, cutoff_ms)[j]),
    decreases s.len(),
{
    if s.len() > 0 {
        lemma_expired_of_within(s.drop_last(), cutoff_ms);
        let init = s.drop_last();
        assert forall|j: int| 0 <= j < expired_of(s, cutoff_ms).len() implies s.contains(
            #[trigger] expired_of(s, cutoff_ms)[j],
        ) by {
            if j < expired_of(init, cutoff_ms).len() {
                let x = expired_of(init, cutoff_ms)[j];
                assert(init.contains(x));
                let t = choose|t: int| 0 <= t < init.len() && init[t] == x;
                assert(s[t] == x);
            } else {
                assert(s[s.len() - 1] == s.last());
            }
        }
    }
}

/// Each page moves the cursor to an older message: given a nonempty page of
/// messages older than the cursor, the new cursor is older than the old one.
/// A page shorter than requested, empty included, ends the history, and no
/// cursor is then stored.
pub proof fn lemma_cursor_moves_older(s: PaginationView, page: Seq<MessageView>, cutoff_ms: int)
    requires
        !s.finished,
        s.expired.len() < TARGET_EXPIRED_MESSAGES,
        forall|j: int| 0 <= j < page.len() ==> (s.cursor matches Some(c) ==> #[trigger] page[j].id < c),
    ensures
        page.len() > 0 ==> page_step(s, page, cutoff_ms).cursor is Some,
        page.len() > 0 ==> (s.cursor matches Some(c) ==> page_step(s, page, cutoff_ms).cursor->0 < c),
        page.len() < MAX_MESSAGES_PER_FETCH ==> saved_cursor(page_step(s, page, cutoff_ms)) is None,
        !page_step(s, page, cutoff_ms).finished ==> page_step(s, page, cutoff_ms).expired.len()
            < TARGET_EXPIRED_MESSAGES,
{
    let batch = expired_of(page, cutoff_ms);
    let all = s.expired + batch;
    if page.len() > 0 && all.len() >= TARGET_EXPIRED_MESSAGES {
        lemma_expired_of_within(page, cutoff_ms);
        let j = TARGET_EXPIRED_MESSAGES - 1 - s.expired.len();
        assert(all.take(TARGET_EXPIRED_MESSAGES as int).last() == batch[j]);
        assert(page.contains(batch[j]));
    }
}

/// The state after the pages of `pages` were taken in, in order.
pub open spec fn after_pages(s: PaginationView, pages: Seq<Seq<MessageView>>, cutoff_ms: int) -> PaginationView
    decreases pages.len(),
{
    if pages.len() == 0 {
        s
    } else {
        after_pages(page_step(s, pages[0], cutoff_ms), pages.drop_first(), cutoff_ms)
    }
}

/// Whether each of `pages` is fetched while the pass still wants one, is
/// nonempty, and holds only messages older than the cursor it was fetched
/// before.
pub open spec fn fetched_in_order(s: PaginationView, pages: Seq<Seq<MessageView>>, cutoff_ms: int) -> bool
    decreases pages.len(),
{
    pages.len() == 0 || {
        &&& !s.finished
        &&& pages[0].len() > 0
        &&& forall|j: int|
            0 <= j < pages[0].len() ==> (s.cursor matches Some(c) ==> #[trigger] pages[0][j].id < c)
        &&& fetched_in_order(page_step(s, pages[0], cutoff_ms), pages.drop_first(), cutoff_ms)
    }
}

/// Over any number of rounds, the cursor only moves to older messages: after
/// one or more pages, each older than the cursor it was fetched before, the
/// cursor is set and older than the one the pass started from.
pub proof fn lemma_cursor_moves_older_over_rounds(
    s: PaginationView,
    pages: Seq<Seq<MessageView>>,
    cutoff_ms: int,
)
    requires
        s.expired.len() < TARGET_EXPIRED_MESSAGES,
        pages.len() > 0,
        fetched_in_order(s, pages, cutoff_ms),
    ensures
        after_pages(s, pages, cutoff_ms).cursor is Some,
        s.cursor matches Some(c) ==> after_pages(s, pages, cutoff_ms).cursor->0 < c,
    decreases pages.len(),
{
    let s1 = page_step(s, pages[0], cutoff_ms);
    lemma_cursor_moves_older(s, pages[0], cutoff_ms);
    let rest = pages.drop_first();
    if rest.len() > 0 {
        lemma_cursor_moves_older_over_rounds(s1, rest, cutoff_ms);
    } else {
        assert(after_pages(s1, rest, cutoff_ms) == s1);
    }
}

/// Messages posted at or after this instant are young enough for bulk deletion.
pub open spec fn bulk_cutoff(now_ms: int) -> int {
    now_ms - BULK_DELETE_MAX_AGE_DAYS * MS_PER_DAY
}

/// Ids of the jobs young enough for bulk deletion, in order.
pub open spec fn bulk_eligible(jobs: Seq<DeleteJobView>, cutoff_ms: int) -> Seq<u64>
    decreases jobs.len(),
{
    if jobs.len() == 0 {
        Seq::empty()
    } else if jobs.last().timestamp_ms >= cutoff_ms {
        bulk_eligible(jobs.drop_last(), cutoff_ms).push(jobs.last().message_id)
    } else {
        bulk_eligible(jobs.drop_last(), cutoff_ms)
    }
}

/// Ids of the jobs too old for bulk deletion, in order.
pub open spec fn too_old_for_bulk(jobs: Seq<DeleteJobView>, cutoff_ms: int) -> Seq<u64>
    decreases jobs.len(),
{
    if jobs.len() == 0 {
        Seq::empty()
    } else if jobs.last().timestamp_ms >= cutoff_ms {
        too_old_for_bulk(jobs.drop_last(), cutoff_ms)
    } else {
        too_old_for_bulk(jobs.drop_last(), cutoff_ms).push(jobs.last().message_id)
    }
}

/// The ids deleted in bulk: the eligible ones, when there are enough of them.
pub open spec fn planned_bulk(jobs: Seq<DeleteJobView>, cutoff_ms: int) -> Seq<u64> {
    if bulk_eligible(jobs, cutoff_ms).len() < BULK_DELETE_MIN {
        Seq::empty()
    } else {
        bulk_eligible(jobs, cutoff_ms)
    }
}

/// The ids of `jobs`, in order.
pub open spec fn job_ids(jobs: Seq<DeleteJobView>) -> Seq<u64> {
    jobs.map_values(|j: DeleteJobView| j.message_id)
}

/// The ids deleted one at a time: every job, in order, when too few qualify
/// for bulk deletion; else the jobs too old for it, in order.
pub open spec fn planned_individual(jobs: Seq<DeleteJobView>, cutoff_ms: int) -> Seq<u64> {
    if bulk_eligible(jobs, cutoff_ms).len() < BULK_DELETE_MIN {
        job_ids(jobs)
    } else {
        too_old_for_bulk(jobs, cutoff_ms)
    }
}

/// The `b`-th batch of `ids`: at most `BULK_DELETE_MAX` ids, in order.
pub open spec fn batch_of(ids: Seq<u64>, b: int) -> Seq<u64> {
    let start = b * BULK_DELETE_MAX;
    let end = if start + BULK_DELETE_MAX < ids.len() {
        start + BULK_DELETE_MAX
    } else {
        ids.len() as int
    };
    ids.subrange(start, end)
}

/// How the delete jobs of a pass are carried out.
#[derive(Clone, Debug)]
pub struct DeletePlan {
    /// Bulk deletions, in order, each of at most `BULK_DELETE_MAX` ids.
    pub bulk_batches: Vec<Vec<u64>>,
    /// Ids deleted one at a time, in order.
    pub individual: Vec<u64>,
}

/// Whether `batches` splits `ids` in order into batches of `BULK_DELETE_MAX`,
/// the last possibly shorter.
pub open spec fn batched(batches: Seq<Vec<u64>>, ids: Seq<u64>) -> bool {
    &&& batches.len() * BULK_DELETE_MAX >= ids.len()
    &&& batches.len() * BULK_DELETE_MAX < ids.len() + BULK_DELETE_MAX
    &&& forall|b: int| 0 <= b < batches.len() ==> (#[trigger] batches[b])@ == batch_of(ids, b)
}

fn copy_range(ids: &Vec<u64>, start: usize, end: usize) -> (r: Vec<u64>)
    requires
        start <= end <= ids@.len(),
    ensures
        r@ == ids@.subrange(start as int, end as int),
{
    let mut r: Vec<u64> = Vec::new();
    let mut i: usize = start;
    while i < end
        invariant
            start <= i <= end,
            end <= ids@.len(),
            r@ == ids@.subrange(start as int, i as int),
        decreases end - i,
    {
        r.push(ids[i]);
        assert(r@ =~= ids@.subrange(start as int, i + 1));
        i = i + 1;
    }
    r
}

/// Plans the deletion of `jobs` at `now_ms`: jobs young enough for bulk
/// deletion go in batches, unless there are too few of them, in which case
/// every job is deleted on its own, in job order.
pub fn plan_deletes(jobs: &Vec<DeleteJob>, now_ms: i64) -> (r: DeletePlan)
    requires
        bulk_cutoff(now_ms as int) >= i64::MIN,
    ensures
        batched(r.bulk_batches@, planned_bulk(delete_job_views(jobs@), bulk_cutoff(now_ms as int))),
        r.individual@ == planned_individual(delete_job_views(jobs@), bulk_cutoff(now_ms as int)),
{
    let cutoff = now_ms - BULK_DELETE_MAX_AGE_DAYS * MS_PER_DAY;
    let ghost jv = delete_job_views(jobs@);
    let mut eligible: Vec<u64> = Vec::new();
    let mut individual: Vec<u64> = Vec::new();
    let mut all: Vec<u64> = Vec::new();
    let mut i: usize = 0;
    while i < jobs.len()
        invariant
            i <= jobs@.len(),
            jv == delete_job_views(jobs@),
            cutoff == bulk_cutoff(now_ms as int),
            eligible@ == bulk_eligible(jv.take(i as int), cutoff as int),
            individual@ == too_old_for_bulk(jv.take(i as int), cutoff as int),
            all@ == job_ids(jv.take(i as int)),
        decreases jobs@.len() - i,
    {
        assert(jv.take(i + 1).drop_last() =~= jv.take(i as int));
        assert(jv.take(i + 1).last() == jobs@[i as int]@);
        all.push(jobs[i].message_id);
        assert(all@ =~= job_ids(jv.take(i + 1)));
        if jobs[i].timestamp_ms >= cutoff {
            eligible.push(jobs[i].message_id);
        } else {
            individual.push(jobs[i].message_id);
        }
        i = i + 1;
    }
    assert(jv.take(jobs@.len() as int) =~= jv);
    let mut batches: Vec<Vec<u64>> = Vec::new();
    if eligible.len() < BULK_DELETE_MIN {
        assert(batches@.len() * BULK_DELETE_MAX == 0);
        return DeletePlan { bulk_batches: batches, individual: all };
    }
    let n = eligible.len();
    let mut start: usize = 0;
    while start < n
        invariant
            n == eligible@.len(),
            start <= n,
            start < n ==> start == batches@.len() * BULK_DELETE_MAX,
            start == n ==> batches@.len() * BULK_DELETE_MAX >= n,
            batches@.len() * BULK_DELETE_MAX < n + BULK_DELETE_MAX,
            forall|b: int| 0 <= b < batches@.len() ==> (#[trigger] batches@[b])@ == batch_of(eligible@, b),
        decreases n - start,
    {
        let end = if n - start > BULK_DELETE_MAX {
            start + BULK_DELETE_MAX
        } else {
            n
        };
        let batch = copy_range(&eligible, start, end);
        let ghost b = batches@.len() as int;
        batches.push(batch);
        assert(batches@[b]@ == batch_of(eligible@, b));
        start = end;
    }
    DeletePlan { bulk_batches: batches, individual }
}

/// Whether `x` is the id of a job young enough for bulk deletion.
pub open spec fn is_eligible_job(jobs: Seq<DeleteJobView>, c: int, x: u64) -> bool {
    exists|i: int| 0 <= i < jobs.len() && jobs[i].timestamp_ms >= c && jobs[i].message_id == x
}

proof fn lemma_partition_members(jobs: Seq<DeleteJobView>, c: int)
    ensures
        bulk_eligible(jobs, c).len() + too_old_for_bulk(jobs, c).len() == jobs.len(),
        forall|i: int|
            0 <= i < jobs.len() && jobs[i].timestamp_ms >= c ==> bulk_eligible(jobs, c).contains(
                #[trigger] jobs[i].message_id,
            ),
        forall|i: int|
            0 <= i < jobs.len() && jobs[i].timestamp_ms < c ==> too_old_for_bulk(jobs, c).contains(
                #[trigger] jobs[i].message_id,
            ),
        forall|j: int|
            0 <= j < bulk_eligible(jobs, c).len() ==> is_eligible_job(jobs, c, #[trigger] bulk_eligible(jobs, c)[j]),
    decreases jobs.len(),
{
    if jobs.len() > 0 {
        let init = jobs.drop_last();
        let last = jobs.len() - 1;
        lemma_partition_members(init, c);
        assert forall|i: int| 0 <= i < jobs.len() && jobs[i].timestamp_ms >= c implies bulk_eligible(
            jobs,
            c,
        ).contains(#[trigger] jobs[i].message_id) by {
            if i < last {
                assert(init[i] == jobs[i]);
                let t = choose|t: int|
                    0 <= t < bulk_eligible(init, c).len() && bulk_eligible(init, c)[t] == init[i].message_id;
                assert(bulk_eligible(jobs, c)[t] == jobs[i].message_id);
            } else {
                assert(bulk_eligible(jobs, c).last() == jobs[i].message_id);
            }
        }
        assert forall|i: int| 0 <= i < jobs.len() && jobs[i].timestamp_ms < c implies too_old_for_bulk(
            jobs,
            c,
        ).contains(#[trigger] jobs[i].message_id) by {
            if i < last {
                assert(init[i] == jobs[i]);
                let t = choose|t: int|
                    0 <= t < too_old_for_bulk(init, c).len() && too_old_for_bulk(init, c)[t]
                        == init[i].message_id;
                assert(too_old_for_bulk(jobs, c)[t] == jobs[i].message_id);
            } else {
                assert(too_old_for_bulk(jobs, c).last() == jobs[i].message_id);
            }
        }
        assert forall|j: int| 0 <= j < bulk_eligible(jobs, c).len() implies is_eligible_job(
            jobs,
            c,
            #[trigger] bulk_eligible(jobs, c)[j],
        ) by {
            if j < bulk_eligible(init, c).len() {
                assert(is_eligible_job(init, c, bulk_eligible(init, c)[j]));
                let i = choose|i: int|
                    0 <= i < init.len() && init[i].timestamp_ms >= c && init[i].message_id
                        == bulk_eligible(init, c)[j];
                assert(jobs[i] == init[i]);
            } else {
                assert(jobs[last].timestamp_ms >= c);
            }
        }
    }
}

/// Bulk deletion takes exactly the jobs no older than the platform's limit,
/// unless fewer than two of them qualify; then every job is deleted on its
/// own. Every job is deleted one way or the other.
pub proof fn lemma_bulk_partition(jobs: Seq<DeleteJobView>, now_ms: int)
    ensures
        planned_bulk(jobs, bulk_cutoff(now_ms)).len() + planned_individual(jobs, bulk_cutoff(now_ms)).len()
            == jobs.len(),
        bulk_eligible(jobs, bulk_cutoff(now_ms)).len() < BULK_DELETE_MIN ==> planned_bulk(
            jobs,
            bulk_cutoff(now_ms),
        ).len() == 0,
        forall|i: int|
            0 <= i < jobs.len() && jobs[i].timestamp_ms >= bulk_cutoff(now_ms) && bulk_eligible(
                jobs,
                bulk_cutoff(now_ms),
            ).len() >= BULK_DELETE_MIN ==> planned_bulk(jobs, bulk_cutoff(now_ms)).contains(
                #[trigger] jobs[i].message_id,
            ),
        forall|i: int|
            0 <= i < jobs.len() && !(jobs[i].timestamp_ms >= bulk_cutoff(now_ms) && bulk_eligible(
                jobs,
                bulk_cutoff(now_ms),
            ).len() >= BULK_DELETE_MIN) ==> planned_individual(jobs, bulk_cutoff(now_ms)).contains(
                #[trigger] jobs[i].message_id,
            ),
        forall|j: int|
            0 <= j < planned_bulk(jobs, bulk_cutoff(now_ms)).len() ==> is_eligible_job(
                jobs,
                bulk_cutoff(now_ms),
                #[trigger] planned_bulk(jobs, bulk_cutoff(now_ms))[j],
            ),
{
    let c = bulk_cutoff(now_ms);
    lemma_partition_members(jobs, c);
    let e = bulk_eligible(jobs, c);
    let o = too_old_for_bulk(jobs, c);
    assert forall|j: int| 0 <= j < planned_bulk(jobs, c).len() implies is_eligible_job(
        jobs,
        c,
        #[trigger] planned_bulk(jobs, c)[j],
    ) by {
        assert(planned_bulk(jobs, c)[j] == e[j]);
    }
    if e.len() < BULK_DELETE_MIN {
        assert forall|i: int| 0 <= i < jobs.len() implies planned_individual(jobs, c).contains(
            #[trigger] jobs[i].message_id,
        ) by {
            assert(job_ids(jobs)[i] == jobs[i].message_id);
        }
    }
}

/// Whether `d` is the delete job of a message of `msgs` without media.
pub open spec fn is_delete_job_of(msgs: Seq<MessageView>, d: DeleteJobView) -> bool {
    exists|i: int| 0 <= i < msgs.len() && media_of(msgs[i].attachments).len() == 0 && d == delete_job_of(msgs[i])
}

proof fn lemma_classified_members(msgs: Seq<MessageView>)
    ensures
        forall|i: int|
            0 <= i < msgs.len() && media_of(msgs[i].attachments).len() == 0 ==> delete_jobs_of(
                msgs,
            ).contains(#[trigger] delete_job_of(msgs[i])),
        forall|i: int|
            0 <= i < msgs.len() && media_of(msgs[i].attachments).len() > 0 ==> backup_jobs_of(
                msgs,
            ).contains(#[trigger] backup_job_of(msgs[i])),
        forall|j: int|
            0 <= j < delete_jobs_of(msgs).len() ==> is_delete_job_of(msgs, #[trigger] delete_jobs_of(msgs)[j]),
    decreases msgs.len(),
{
    if msgs.len() > 0 {
        let init = msgs.drop_last();
        let last = msgs.len() - 1;
        lemma_classified_members(init);
        assert forall|i: int|
            0 <= i < msgs.len() && media_of(msgs[i].attachments).len() == 0 implies delete_jobs_of(
            msgs,
        ).contains(#[trigger] delete_job_of(msgs[i])) by {
            if i < last {
                assert(init[i] == msgs[i]);
                let t = choose|t: int|
                    0 <= t < delete_jobs_of(init).len() && delete_jobs_of(init)[t] == delete_job_of(init[i]);
                assert(delete_jobs_of(msgs)[t] == delete_job_of(msgs[i]));
            } else {
                assert(delete_jobs_of(msgs).last() == delete_job_of(msgs[i]));
            }
        }
        assert forall|i: int|
            0 <= i < msgs.len() && media_of(msgs[i].attachments).len() > 0 implies backup_jobs_of(
            msgs,
        ).contains(#[trigger] backup_job_of(msgs[i])) by {
            if i < last {
                assert(init[i] == msgs[i]);
                let t = choose|t: int|
                    0 <= t < backup_jobs_of(init).len() && backup_jobs_of(init)[t] == backup_job_of(init[i]);
                assert(backup_jobs_of(msgs)[t] == backup_job_of(msgs[i]));
            } else {
                assert(backup_jobs_of(msgs).last() == backup_job_of(msgs[i]));
            }
        }
        assert forall|j: int| 0 <= j < delete_jobs_of(msgs).len() implies is_delete_job_of(
            msgs,
            #[trigger] delete_jobs_of(msgs)[j],
        ) by {
            if j < delete_jobs_of(init).len() {
                assert(is_delete_job_of(init, delete_jobs_of(init)[j]));
                let i = choose|i: int|
                    0 <= i < init.len() && media_of(init[i].attachments).len() == 0
                        && delete_jobs_of(init)[j] == delete_job_of(init[i]);
                assert(msgs[i] == init[i]);
            } else {
                assert(media_of(msgs[last].attachments).len() == 0);
                assert(delete_jobs_of(msgs)[j] == delete_job_of(msgs[last]));
            }
        }
    }
}

/// A message without media always becomes a delete job, and one with media
/// always becomes a backup job. When message ids are distinct, no message
/// with media is among the delete jobs, so none is deleted in the pass that
/// classified it.
pub proof fn lemma_classification(msgs: Seq<MessageView>)
    ensures
        forall|i: int|
            0 <= i < msgs.len() && media_of(msgs[i].attachments).len() == 0 ==> delete_jobs_of(
                msgs,
            ).contains(#[trigger] delete_job_of(msgs[i])),
        forall|i: int|
            0 <= i < msgs.len() && media_of(msgs[i].attachments).len() > 0 ==> backup_jobs_of(
                msgs,
            ).contains(#[trigger] backup_job_of(msgs[i])),
        (forall|a: int, b: int| 0 <= a < b < msgs.len() ==> msgs[a].id != msgs[b].id) ==> forall|
            i: int,
            j: int,
        |
            0 <= i < msgs.len() && media_of(msgs[i].attachments).len() > 0 && 0 <= j < delete_jobs_of(
                msgs,
            ).len() ==> #[trigger] delete_jobs_of(msgs)[j].message_id != #[trigger] msgs[i].id,
{
    lemma_classified_members(msgs);
    if forall|a: int, b: int| 0 <= a < b < msgs.len() ==> msgs[a].id != msgs[b].id {
        assert forall|i: int, j: int|
            0 <= i < msgs.len() && media_of(msgs[i].attachments).len() > 0 && 0 <= j < delete_jobs_of(
                msgs,
            ).len() implies #[trigger] delete_jobs_of(msgs)[j].message_id != #[trigger] msgs[i].id by {
            assert(is_delete_job_of(msgs, delete_jobs_of(msgs)[j]));
            let t = choose|t: int|
                0 <= t < msgs.len() && media_of(msgs[t].attachments).len() == 0 && delete_jobs_of(msgs)[j]
                    == delete_job_of(msgs[t]);
            assert(t != i);
            if t < i {
                assert(msgs[t].id != msgs[i].id);
            } else {
                assert(msgs[i].id != msgs[t].id);
            }
        }
    }
}

/// Whether `b` is the backup job of a message of `msgs` with media.
pub open spec fn is_backup_job_of(msgs: Seq<MessageView>, b: BackupJobView) -> bool {
    exists|i: int| 0 <= i < msgs.len() && media_of(msgs[i].attachments).len() > 0 && b == backup_job_of(msgs[i])
}

proof fn lemma_backup_jobs_from_media(msgs: Seq<MessageView>)
    ensures
        forall|j: int|
            0 <= j < backup_jobs_of(msgs).len() ==> is_backup_job_of(msgs, #[trigger] backup_jobs_of(msgs)[j]),
    decreases msgs.len(),
{
    if msgs.len() > 0 {
        let init = msgs.drop_last();
        let last = msgs.len() - 1;
        lemma_backup_jobs_from_media(init);
        assert forall|j: int| 0 <= j < backup_jobs_of(msgs).len() implies is_backup_job_of(
            msgs,
            #[trigger] backup_jobs_of(msgs)[j],
        ) by {
            if j < backup_jobs_of(init).len() {
                assert(is_backup_job_of(init, backup_jobs_of(init)[j]));
                let i = choose|i: int|
                    0 <= i < init.len() && media_of(init[i].attachments).len() > 0 && backup_jobs_of(init)[j]
                        == backup_job_of(init[i]);
                assert(msgs[i] == init[i]);
            } else {
                assert(media_of(msgs[last].attachments).len() > 0);
                assert(backup_jobs_of(msgs)[j] == backup_job_of(msgs[last]));
            }
        }
    }
}

/// With distinct message ids, a message without media gets no backup job.
pub proof fn lemma_no_backup_without_media(msgs: Seq<MessageView>)
    requires
        forall|a: int, b: int| 0 <= a < b < msgs.len() ==> msgs[a].id != msgs[b].id,
    ensures
        forall|i: int, j: int|
            0 <= i < msgs.len() && media_of(msgs[i].attachments).len() == 0 && 0 <= j < backup_jobs_of(
                msgs,
            ).len() ==> #[trigger] backup_jobs_of(msgs)[j].message_id != #[trigger] msgs[i].id,
{
    lemma_backup_jobs_from_media(msgs);
    assert forall|i: int, j: int|
        0 <= i < msgs.len() && media_of(msgs[i].attachments).len() == 0 && 0 <= j < backup_jobs_of(
            msgs,
        ).len() implies #[trigger] backup_jobs_of(msgs)[j].message_id != #[trigger] msgs[i].id by {
        assert(is_backup_job_of(msgs, backup_jobs_of(msgs)[j]));
        let t = choose|t: int|
            0 <= t < msgs.len() && media_of(msgs[t].attachments).len() > 0 && backup_jobs_of(msgs)[j]
                == backup_job_of(msgs[t]);
        assert(t != i);
        if t < i {
            assert(msgs[t].id != msgs[i].id);
        } else {
            assert(msgs[i].id != msgs[t].id);
        }
    }
}

/// Whether `x` is the id of one of `jobs`.
pub open spec fn is_job_id(jobs: Seq<DeleteJobView>, x: u64) -> bool {
    exists|i: int| 0 <= i < jobs.len() && jobs[i].message_id == x
}

proof fn lemma_too_old_from_jobs(jobs: Seq<DeleteJobView>, c: int)
    ensures
        forall|j: int|
            0 <= j < too_old_for_bulk(jobs, c).len() ==> is_job_id(jobs, #[trigger] too_old_for_bulk(jobs, c)[j]),
    decreases jobs.len(),
{
    if jobs.len() > 0 {
        let init = jobs.drop_last();
        let last = jobs.len() - 1;
        lemma_too_old_from_jobs(init, c);
        assert forall|j: int| 0 <= j < too_old_for_bulk(jobs, c).len() implies is_job_id(
            jobs,
            #[trigger] too_old_for_bulk(jobs, c)[j],
        ) by {
            if j < too_old_for_bulk(init, c).len() {
                assert(is_job_id(init, too_old_for_bulk(init, c)[j]));
                let i = choose|i: int| 0 <= i < init.len() && init[i].message_id == too_old_for_bulk(init, c)[j];
                assert(jobs[i] == init[i]);
            } else {
                assert(jobs[last].message_id == too_old_for_bulk(jobs, c)[j]);
            }
        }
    }
}

/// Every id planned for deletion, in bulk or on its own, is the id of a job.
pub proof fn lemma_planned_ids_are_jobs(jobs: Seq<DeleteJobView>, c: int)
    ensures
        forall|j: int|
            0 <= j < planned_bulk(jobs, c).len() ==> is_job_id(jobs, #[trigger] planned_bulk(jobs, c)[j]),
        forall|j: int|
            0 <= j < planned_individual(jobs, c).len() ==> is_job_id(
                jobs,
                #[trigger] planned_individual(jobs, c)[j],
            ),
{
    lemma_partition_members(jobs, c);
    lemma_too_old_from_jobs(jobs, c);
    assert forall|j: int| 0 <= j < planned_bulk(jobs, c).len() implies is_job_id(
        jobs,
        #[trigger] planned_bulk(jobs, c)[j],
    ) by {
        assert(is_eligible_job(jobs, c, bulk_eligible(jobs, c)[j]));
        let i = choose|i: int|
            0 <= i < jobs.len() && jobs[i].timestamp_ms >= c && jobs[i].message_id == bulk_eligible(jobs, c)[j];
        assert(jobs[i].message_id == planned_bulk(jobs, c)[j]);
    }
    assert forall|j: int| 0 <= j < planned_individual(jobs, c).len() implies is_job_id(
        jobs,
        #[trigger] planned_individual(jobs, c)[j],
    ) by {
        if bulk_eligible(jobs, c).len() < BULK_DELETE_MIN {
            assert(jobs[j].message_id == planned_individual(jobs, c)[j]);
        } else {
            assert(is_job_id(jobs, too_old_for_bulk(jobs, c)[j]));
        }
    }
}

/// A cleanup pass never deletes a message with media: when message ids are
/// distinct, no id planned for deletion, in bulk or on its own, from the
/// delete jobs of the expired messages is the id of a message with media.
pub proof fn lemma_pass_spares_media(msgs: Seq<MessageView>, now_ms: int)
    requires
        forall|a: int, b: int| 0 <= a < b < msgs.len() ==> msgs[a].id != msgs[b].id,
    ensures
        forall|i: int|
            0 <= i < msgs.len() && media_of(msgs[i].attachments).len() > 0 ==> !planned_bulk(
                delete_jobs_of(msgs),
                bulk_cutoff(now_ms),
            ).contains(#[trigger] msgs[i].id) && !planned_individual(
                delete_jobs_of(msgs),
                bulk_cutoff(now_ms),
            ).contains(msgs[i].id),
{
    let jobs = delete_jobs_of(msgs);
    let c = bulk_cutoff(now_ms);
    lemma_classification(msgs);
    lemma_planned_ids_are_jobs(jobs, c);
    assert forall|i: int| 0 <= i < msgs.len() && media_of(msgs[i].attachments).len() > 0 implies !planned_bulk(
        jobs,
        c,
    ).contains(#[trigger] msgs[i].id) && !planned_individual(jobs, c).contains(msgs[i].id) by {
        if planned_bulk(jobs, c).contains(msgs[i].id) {
            let j = choose|j: int| 0 <= j < planned_bulk(jobs, c).len() && planned_bulk(jobs, c)[j] == msgs[i].id;
            assert(is_job_id(jobs, planned_bulk(jobs, c)[j]));
            let t = choose|t: int| 0 <= t < jobs.len() && jobs[t].message_id == planned_bulk(jobs, c)[j];
            assert(jobs[t].message_id != msgs[i].id);
        }
        if planned_individual(jobs, c).contains(msgs[i].id) {
            let j = choose|j: int|
                0 <= j < planned_individual(jobs, c).len() && planned_individual(jobs, c)[j] == msgs[i].id;
            assert(is_job_id(jobs, planned_individual(jobs, c)[j]));
            let t = choose|t: int| 0 <= t < jobs.len() && jobs[t].message_id == planned_individual(jobs, c)[j];
            assert(jobs[t].message_id != msgs[i].id);
        }
    }
}

/// Whether `x` is in one of `batches`.
pub open spec fn in_some_batch(batches: Seq<Vec<u64>>, x: u64) -> bool {
    exists|b: int| 0 <= b < batches.len() && (#[trigger] batches[b])@.contains(x)
}

/// The bulk batches hold exactly the ids planned for bulk deletion: each
/// planned id is in a batch, and each id of a batch is planned.
pub proof fn lemma_batches_cover(batches: Seq<Vec<u64>>, ids: Seq<u64>)
    requires
        batched(batches, ids),
    ensures
        forall|t: int| 0 <= t < ids.len() ==> in_some_batch(batches, #[trigger] ids[t]),
        forall|b: int, p: int|
            0 <= b < batches.len() && 0 <= p < batches[b]@.len() ==> ids.contains(#[trigger] batches[b]@[p]),
{
    let m = BULK_DELETE_MAX as int;
    assert forall|t: int| 0 <= t < ids.len() implies in_some_batch(batches, #[trigger] ids[t]) by {
        let b = t / m;
        let p = t % m;
        assert(b * m + p == t && 0 <= p < m && b >= 0) by (nonlinear_arith)
            requires
                m == 100,
                t >= 0,
                b == t / m,
                p == t % m,
        ;
        assert(b < batches.len()) by (nonlinear_arith)
            requires
                b * m <= t,
                t < ids.len(),
                batches.len() * m >= ids.len(),
                m > 0,
        ;
        assert(batches[b]@ == batch_of(ids, b));
        assert(batches[b]@[p] == ids[t]);
        assert(batches[b]@.contains(ids[t]));
    }
    assert forall|b: int, p: int| 0 <= b < batches.len() && 0 <= p < batches[b]@.len() implies ids.contains(
        #[trigger] batches[b]@[p],
    ) by {
        assert(batches[b]@ == batch_of(ids, b));
        assert(batches[b]@[p] == ids[b * m + p]);
    }
}

/// A media file saved to local disk for a backup job.
#[derive(Clone, Debug)]
pub struct DownloadedFile {
    pub local_path: String,
    pub original_filename: String,
}

/// The queue entry for a downloaded file of a message.
pub open spec fn backup_entry(
    channel_id: u64,
    message_id: u64,
    timestamp_ms: i64,
    local_path: Seq<char>,
    original_filename: Seq<char>,
) -> BackupView {
    BackupView {
        message_id,
        channel_id,
        local_path,
        original_filename,
        timestamp_ms,
        retry_count: 0,
        status: StatusView::Pending,
    }
}

/// The queue after the downloaded files of one message were added, in order.
pub open spec fn with_downloads(
    m: Map<Seq<char>, BackupView>,
    channel_id: u64,
    message_id: u64,
    timestamp_ms: i64,
    files: Seq<DownloadedFile>,
) -> Map<Seq<char>, BackupView>
    decreases files.len(),
{
    if files.len() == 0 {
        m
    } else {
        let f = files.last();
        with_downloads(m, channel_id, message_id, timestamp_ms, files.drop_last()).insert(
            f.local_path@,
            backup_entry(channel_id, message_id, timestamp_ms, f.local_path@, f.original_filename@),
        )
    }
}

/// Records the downloaded media of a backup job in the queue: one pending
/// entry per file, with no failed attempts. The message itself stays until
/// its media is uploaded.
pub fn enqueue_downloads(
    queue: &mut BackupQueue,
    channel_id: u64,
    job: &BackupJob,
    files: &Vec<DownloadedFile>,
)
    requires
        old(queue).wf(),
    ensures
        final(queue).wf(),
        final(queue)@ == with_downloads(old(queue)@, channel_id, job.message_id, job.timestamp_ms, files@),
{
    let ghost m0 = queue@;
    let mut i: usize = 0;
    while i < files.len()
        invariant
            queue.wf(),
            i <= files@.len(),
            queue@ == with_downloads(m0, channel_id, job.message_id, job.timestamp_ms, files@.take(i as int)),
        decreases files@.len() - i,
    {
        assert(files@.take(i + 1).drop_last() =~= files@.take(i as int));
        let f = &files[i];
        let entry = PendingBackup::new(
            job.message_id,
            channel_id,
            f.local_path.clone(),
            f.original_filename.clone(),
            job.timestamp_ms,
        );
        queue.add(entry);
        i = i + 1;
    }
    assert(files@.take(files@.len() as int) =~= files@);
}

} // verus!




