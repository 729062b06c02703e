//! The cloud client's decisions: where a file goes, how it is sent, when the
//! access token must be refreshed, and how the device-code poll proceeds.

use chrono::Datelike;
use vstd::prelude::*;

use crate::text::{decimal, padded, push_padded, push_str, same_text, string_of_chars};

verus! {

/// Files smaller than this (4 MiB) are sent in one request.
pub const SIMPLE_UPLOAD_LIMIT: u64 = 4_194_304;

/// Size of each part of a resumable upload (10 MiB).
pub const CHUNK_SIZE: u64 = 10_485_760;

/// A token is refreshed once it is this close to its expiry (5 minutes).
pub const REFRESH_BUFFER_MS: i64 = 300_000;

/// Seconds added to the poll interval when the server asks to slow down.
pub const SLOW_DOWN_STEP_SECS: u64 = 5;

/// The file name at the end of a path, as `std::path::Path::file_name` reads it.
pub uninterp spec fn path_file_name(path: Seq<char>) -> Option<Seq<char>>;

/// The parent of a path, as `std::path::Path::parent` reads it.
pub uninterp spec fn path_parent(path: Seq<char>) -> Option<Seq<char>>;

/// The date (year, month, day) that chrono reads from `text` in the form
/// `%Y-%m-%d`.
pub uninterp spec fn iso_date(text: Seq<char>) -> Option<(i32, u32, u32)>;

/// Relies on `std::path::Path::file_name`: the last component of the path,
/// none when the path ends in `..` or is a root or empty.
#[verifier::external_body]
fn file_name_of(path: &str) -> (r: Option<String>)
    ensures
        match r {
            Some(s) => path_file_name(path@) == Some(s@),
            None => path_file_name(path@) is None,
        },
{
    match std::path::Path::new(path).file_name() {
        Some(n) => match n.to_str() {
            Some(s) => Some(s.to_string()),
            None => None,
        },
        None => None,
    }
}

/// Relies on `std::path::Path::parent`: the path without its last component.
#[verifier::external_body]
fn parent_of(path: &str) -> (r: Option<String>)
    ensures
        match r {
            Some(s) => path_parent(path@) == Some(s@),
            None => path_parent(path@) is None,
        },
{
    match std::path::Path::new(path).parent() {
        Some(p) => match p.to_str() {
            Some(s) => Some(s.to_string()),
            None => None,
        },
        None => None,
    }
}

/// Relies on chrono's `NaiveDate::parse_from_str` with `%Y-%m-%d`, and on
/// `Datelike::month` (1 to 12) and `Datelike::day` (1 to 31).
#[verifier::external_body]
fn parse_iso_date(text: &str) -> (r: Option<(i32, u32, u32)>)
    ensures
        r == iso_date(text@),
        r matches Some((y, m, d)) ==> 1 <= m <= 12 && 1 <= d <= 31,
{
    match chrono::NaiveDate::parse_from_str(text, "%Y-%m-%d") {
        Ok(d) => Some((d.year(), d.month(), d.day())),
        Err(_) => None,
    }
}

/// `s` without the slashes at its end.
pub open spec fn trim_trailing_slashes(s: Seq<char>) -> Seq<char>
    decreases s.len(),
{
    if s.len() > 0 && s.last() == '/' {
        trim_trailing_slashes(s.drop_last())
    } else {
        s
    }
}

/// The remote path of a file: `<folder>/<year>/<month>/<day>/<file name>`,
/// dated by its directory when that names a date, else by `today`.
pub open spec fn remote_path_of(
    folder: Seq<char>,
    file_name: Option<Seq<char>>,
    dir_date: Option<(i32, u32, u32)>,
    today: (i32, u32, u32),
) -> Seq<char> {
    let name = match file_name {
        Some(n) => n,
        None => "unknown"@,
    };
    let date = match dir_date {
        Some(t) => t,
        None => today,
    };
    trim_trailing_slashes(folder) + seq!['/'] + padded(date.0 as int, 4) + seq!['/'] + padded(
        date.1 as int,
        2,
    ) + seq!['/'] + padded(date.2 as int, 2) + seq!['/'] + name
}

/// The date its directory gives a local file, if any.
pub open spec fn dir_date_of(local_path: Seq<char>) -> Option<(i32, u32, u32)> {
    match path_parent(local_path) {
        Some(p) => match path_file_name(p) {
            Some(n) => iso_date(n),
            None => None,
        },
        None => None,
    }
}

/// Composes the remote path from its parts.
pub fn compose_remote_path(
    upload_folder: &str,
    file_name: &Option<String>,
    dir_date: Option<(i32, u32, u32)>,
    today: (i32, u32, u32),
) -> (r: String)
    ensures
        r@ == remote_path_of(
            upload_folder@,
            match file_name {
                Some(n) => Some(n@),
                None => None,
            },
            dir_date,
            today,
        ),
{
    let mut end = upload_folder.unicode_len();
    assert(upload_folder@.subrange(0, end as int) =~= upload_folder@);
    while end > 0 && upload_folder.get_char(end - 1) == '/'
        invariant
            end <= upload_folder@.len(),
            trim_trailing_slashes(upload_folder@.subrange(0, end as int)) == trim_trailing_slashes(
                upload_folder@,
            ),
        decreases end,
    {
        assert(upload_folder@.subrange(0, end as int).drop_last() =~= upload_folder@.subrange(
            0,
            end - 1,
        ));
        end = end - 1;
    }
    let ghost kept = upload_folder@.subrange(0, end as int);
    assert(upload_folder@.subrange(0, upload_folder@.len() as int) =~= upload_folder@);
    assert(trim_trailing_slashes(kept) == kept);
    let (y, m, d) = match dir_date {
        Some(t) => t,
        None => today,
    };
    let mut out: Vec<char> = Vec::new();
    push_str(&mut out, upload_folder.substring_char(0, end));
    out.push('/');
    push_padded(&mut out, y as i64, 4);
    out.push('/');
    push_padded(&mut out, m as i64, 2);
    out.push('/');
    push_padded(&mut out, d as i64, 2);
    out.push('/');
    match file_name {
        Some(n) => push_str(&mut out, n.as_str()),
        None => push_str(&mut out, "unknown"),
    }
    let r = string_of_chars(&out);
    assert(r@ =~= remote_path_of(
        upload_folder@,
        match file_name {
            Some(n) => Some(n@),
            None => None,
        },
        dir_date,
        today,
    ));
    r
}

/// The remote path of `local_path` under `upload_folder`, dated by `today`
/// when its directory does not name a date.
pub fn build_remote_path(upload_folder: &str, local_path: &str, today: (i32, u32, u32)) -> (r: String)
    ensures
        r@ == remote_path_of(upload_folder@, path_file_name(local_path@), dir_date_of(local_path@), today),
{
    let file_name = file_name_of(local_path);
    let dir_date = match parent_of(local_path) {
        Some(p) => match file_name_of(p.as_str()) {
            Some(n) => parse_iso_date(n.as_str()),
            None => None,
        },
        None => None,
    };
    compose_remote_path(upload_folder, &file_name, dir_date, today)
}

/// An inclusive range of byte offsets of a file.
#[derive(Clone, Copy, Debug)]
pub struct ByteRange {
    pub start: u64,
    pub end: u64,
}

/// How a file is sent to the cloud store.
pub enum UploadPlan {
    /// One request carrying the whole file.
    Simple,
    /// An upload session, then one request per part, in order.
    Resumable { chunks: Vec<ByteRange> },
}

/// Whether `chunks` cuts a file of `total` bytes, in order, into parts of
/// `CHUNK_SIZE` bytes, the last possibly shorter.
pub open spec fn chunked(chunks: Seq<ByteRange>, total: int) -> bool {
    &&& chunks.len() * CHUNK_SIZE >= total
    &&& chunks.len() * CHUNK_SIZE < total + CHUNK_SIZE
    &&& forall|k: int|
        0 <= k < chunks.len() ==> (#[trigger] chunks[k]).start == k * CHUNK_SIZE && chunks[k].end == (if (k
            + 1) * CHUNK_SIZE < total {
            (k + 1) * CHUNK_SIZE
        } else {
            total
        }) - 1
}

/// Chooses how to send a file of `file_size` bytes: in one request below
/// `SIMPLE_UPLOAD_LIMIT`, else in parts of `CHUNK_SIZE`.
pub fn plan_upload(file_size: u64) -> (r: UploadPlan)
    ensures
        file_size < SIMPLE_UPLOAD_LIMIT <==> r is Simple,
        r matches UploadPlan::Resumable { chunks } ==> chunked(chunks@, file_size as int),
{
    if file_size < SIMPLE_UPLOAD_LIMIT {
        return UploadPlan::Simple;
    }
    let mut chunks: Vec<ByteRange> = Vec::new();
    let mut start: u64 = 0;
    while start < file_size
        invariant
            start <= file_size,
            start < file_size ==> start == chunks@.len() * CHUNK_SIZE,
            start == file_size ==> chunks@.len() * CHUNK_SIZE >= file_size,
            chunks@.len() * CHUNK_SIZE < file_size + CHUNK_SIZE,
            forall|k: int|
                0 <= k < chunks@.len() ==> (#[trigger] chunks@[k]).start == k * CHUNK_SIZE && chunks@[k].end
                    == (if (k + 1) * CHUNK_SIZE < file_size {
                    (k + 1) * CHUNK_SIZE
                } else {
                    file_size as int
                }) - 1,
        decreases file_size - start,
    {
        let end = if file_size - start > CHUNK_SIZE {
            start + CHUNK_SIZE
        } else {
            file_size
        };
        chunks.push(ByteRange { start, end: end - 1 });
        start = end;
    }
    UploadPlan::Resumable { chunks }
}

/// The parts of a resumable upload number `ceil(total / CHUNK_SIZE)`, and
/// the last one ends at the file's last byte.
pub proof fn lemma_chunk_count(chunks: Seq<ByteRange>, total: int)
    requires
        chunked(chunks, total),
        total > 0,
    ensures
        chunks.len() == (total + CHUNK_SIZE - 1) / (CHUNK_SIZE as int),
        chunks.last().end == total - 1,
        chunks[0].start == 0,
{
    let n = chunks.len() as int;
    let c = CHUNK_SIZE as int;
    assert(n * c >= total && n * c < total + c);
    assert(n == (total + c - 1) / c) by (nonlinear_arith)
        requires
            n * c >= total,
            n * c < total + c,
            c > 0,
    ;
    assert(n > 0) by (nonlinear_arith)
        requires
            n * c >= total,
            total > 0,
            c > 0,
    ;
    assert(chunks[n - 1].end == total - 1);
}

/// The `Content-Range` header of a part: `bytes <start>-<end>/<total>`.
pub open spec fn content_range_of(range: ByteRange, total: u64) -> Seq<char> {
    "bytes "@ + decimal(range.start as nat) + seq!['-'] + decimal(range.end as nat) + seq!['/']
        + decimal(total as nat)
}

/// The `Content-Range` header of a part of a file of `total` bytes.
pub fn content_range(range: &ByteRange, total: u64) -> (r: String)
    ensures
        r@ == content_range_of(*range, total),
{
    let mut out: Vec<char> = Vec::new();
    push_str(&mut out, "bytes ");
    crate::text::push_decimal(&mut out, range.start);
    out.push('-');
    crate::text::push_decimal(&mut out, range.end);
    out.push('/');
    crate::text::push_decimal(&mut out, total);
    let r = string_of_chars(&out);
    assert(r@ =~= content_range_of(*range, total));
    r
}

/// Whether an upload response status means the request was taken: any
/// success, including 202 for a part accepted while more are expected.
pub fn upload_status_ok(status: u16) -> (r: bool)
    ensures
        r == (200 <= status <= 299),
{
    200 <= status && status <= 299
}

/// Credentials for the cloud account.
#[derive(Clone, Debug)]
pub struct StoredTokens {
    pub access_token: String,
    pub refresh_token: String,
    /// When the access token expires, in milliseconds since the Unix epoch.
    pub expires_at_ms: i64,
}

impl StoredTokens {
    /// Tokens granted at `now_ms` for `expires_in_secs` seconds.
    pub fn granted(access_token: String, refresh_token: String, expires_in_secs: i64, now_ms: i64) -> (r:
        StoredTokens)
        requires
            i64::MIN <= now_ms + expires_in_secs * 1000 <= i64::MAX,
        ensures
            r.access_token@ == access_token@,
            r.refresh_token@ == refresh_token@,
            r.expires_at_ms == now_ms + expires_in_secs * 1000,
    {
        let span = (expires_in_secs as i128) * 1000;
        StoredTokens { access_token, refresh_token, expires_at_ms: ((now_ms as i128) + span) as i64 }
    }

    /// Whether the access token must be refreshed before use at `now_ms`:
    /// it expires within `REFRESH_BUFFER_MS`.
    pub fn needs_refresh(&self, now_ms: i64) -> (r: bool)
        ensures
            r == (self.expires_at_ms - REFRESH_BUFFER_MS <= now_ms),
    {
        (self.expires_at_ms as i128) - (REFRESH_BUFFER_MS as i128) <= now_ms as i128
    }
}

/// What the device-code flow does after an error answer from the token
/// endpoint.
pub enum PollDecision {
    /// Sign-in is still pending: poll again after the interval.
    KeepPolling,
    /// A fatal error: the flow fails.
    Fail,
}

/// The polling state of a device-code sign-in.
pub struct DeviceCodePoll {
    /// Seconds to wait between polls.
    pub interval_secs: u64,
    /// After this instant, in milliseconds since the Unix epoch, the code is void.
    pub deadline_ms: i64,
}

/// The interval after a request to slow down.
pub open spec fn slowed(interval_secs: u64) -> u64 {
    if interval_secs <= u64::MAX - SLOW_DOWN_STEP_SECS {
        (interval_secs + SLOW_DOWN_STEP_SECS) as u64
    } else {
        u64::MAX
    }
}

impl DeviceCodePoll {
    /// A poll started at `now_ms` for a code valid `expires_in_secs` seconds.
    pub fn new(interval_secs: u64, expires_in_secs: u64, now_ms: i64) -> (r: DeviceCodePoll)
        requires
            now_ms + expires_in_secs * 1000 <= i64::MAX,
        ensures
            r.interval_secs == interval_secs,
            r.deadline_ms == now_ms + expires_in_secs * 1000,
    {
        let span = (expires_in_secs as i128) * 1000;
        DeviceCodePoll { interval_secs, deadline_ms: ((now_ms as i128) + span) as i64 }
    }

    /// Whether the code has expired at `now_ms`.
    pub fn is_expired(&self, now_ms: i64) -> (r: bool)
        ensures
            r == (now_ms > self.deadline_ms),
    {
        now_ms > self.deadline_ms
    }

    /// Handles the error code of a token-endpoint answer:
    /// `authorization_pending` keeps polling, `slow_down` keeps polling at a
    /// longer interval, anything else is fatal.
    pub fn on_error(&mut self, error: &str) -> (r: PollDecision)
        ensures
            error@ == "authorization_pending"@ ==> r is KeepPolling && *final(self) == *old(self),
            error@ == "slow_down"@ ==> r is KeepPolling && final(self).interval_secs == slowed(
                old(self).interval_secs,
            ) && final(self).deadline_ms == old(self).deadline_ms,
            error@ != "authorization_pending"@ && error@ != "slow_down"@ ==> r is Fail && *final(self)
                == *old(self),
    {
        proof {
            reveal_strlit("authorization_pending");
            reveal_strlit("slow_down");
        }
        if same_text(error, "authorization_pending") {
            assert("authorization_pending"@.len() != "slow_down"@.len());
            PollDecision::KeepPolling
        } else if same_text(error, "slow_down") {
            self.interval_secs = if self.interval_secs <= u64::MAX - SLOW_DOWN_STEP_SECS {
                self.interval_secs + SLOW_DOWN_STEP_SECS
            } else {
                u64::MAX
            };
            PollDecision::KeepPolling
        } else {
            PollDecision::Fail
        }
    }
}

/// The message of an authentication error: the server's description when
/// it gives one, else its error code.
pub fn auth_error_message(error: &String, description: &Option<String>) -> (r: String)
    ensures
        r@ == match description {
            Some(d) => d@,
            None => error@,
        },
{
    match description {
        Some(d) => d.clone(),
        None => error.clone(),
    }
}

} // verus!
