//! File naming for the dashboard's per-bot history files.

use vstd::prelude::*;

use crate::text::{push_str, string_of_chars};

verus! {

/// Whether `c` is alphabetic or numeric, as `char::is_alphanumeric` reads it.
pub uninterp spec fn alphanumeric(c: char) -> bool;

/// `dir` joined with `name` on Unix: an absolute `name` replaces `dir`;
/// otherwise a `/` separates the two unless `dir` is empty or already ends
/// in one.
pub open spec fn path_join(dir: Seq<char>, name: Seq<char>) -> Seq<char> {
    if name.len() > 0 && name[0] == '/' {
        name
    } else if dir.len() == 0 || dir.last() == '/' {
        dir + name
    } else {
        dir + seq!['/'] + name
    }
}

/// Relies on `char::is_alphanumeric`: whether the character has the Unicode
/// `Alphabetic` or a numeric property.
#[verifier::external_body]
fn is_alphanumeric(c: char) -> (r: bool)
    ensures
        r == alphanumeric(c),
{
    c.is_alphanumeric()
}

/// Relies on `std::path::Path::join` (through `PathBuf::push`) on Unix
/// targets: an absolute `name` replaces `dir`, else `name` is appended after
/// a `/` that is added only when `dir` is nonempty and does not end in one.
/// Both are UTF-8, so `to_string_lossy` loses nothing.
#[verifier::external_body]
fn join_path(dir: &str, name: &str) -> (r: String)
    ensures
        r@ == path_join(dir@, name@),
{
    std::path::Path::new(dir).join(name).to_string_lossy().into_owned()
}

/// Whether a bot name keeps `c`: letters, digits, `-` and `_`.
pub open spec fn kept_in_name(c: char) -> bool {
    alphanumeric(c) || c == '-' || c == '_'
}

/// The characters of `s` that a bot name keeps, in order.
pub open spec fn sanitized(s: Seq<char>) -> Seq<char>
    decreases s.len(),
{
    if s.len() == 0 {
        Seq::empty()
    } else if kept_in_name(s.last()) {
        sanitized(s.drop_last()).push(s.last())
    } else {
        sanitized(s.drop_last())
    }
}

/// The bot name with every character dropped but letters, digits, `-` and
/// `_`, so that it can name a file.
pub fn sanitize_bot_name(name: &str) -> (r: String)
    ensures
        r@ == sanitized(name@),
{
    let n = name.unicode_len();
    let mut kept: Vec<char> = Vec::new();
    let mut i: usize = 0;
    while i < n
        invariant
            n == name@.len(),
            i <= n,
            kept@ == sanitized(name@.take(i as int)),
        decreases n - i,
    {
        assert(name@.take(i + 1).drop_last() =~= name@.take(i as int));
        let c = name.get_char(i);
        if is_alphanumeric(c) || c == '-' || c == '_' {
            kept.push(c);
        }
        i = i + 1;
    }
    assert(name@.take(n as int) =~= name@);
    string_of_chars(&kept)
}

/// The history file of a bot: `<dir>/<sanitized name>.jsonl`.
pub fn bot_file_path(dir: &str, bot_name: &str) -> (r: String)
    ensures
        r@ == path_join(dir@, sanitized(bot_name@) + ".jsonl"@),
{
    let safe = sanitize_bot_name(bot_name);
    let mut file: Vec<char> = Vec::new();
    push_str(&mut file, safe.as_str());
    push_str(&mut file, ".jsonl");
    let file_name = string_of_chars(&file);
    join_path(dir, file_name.as_str())
}

} // verus!
