//! The error log's rules: it is a debugging aid, not an audit trail, so it
//! keeps the most recent entries and forgets the rest, and a log file that
//! outgrows its cap is rewritten from the entries still held.
use vstd::prelude::*;
use crate::path_text::join;
use crate::path_text::join_chars;
use crate::text::{chars_of, string_of};

verus! {

/// How many entries the log keeps.
pub const MAX_ENTRIES: usize = 500;

/// The size in bytes past which a log file is rewritten.
pub const MAX_LOG_BYTES: u64 = 1_000_000;

/// The last `MAX_ENTRIES` of `s`, or all of it when it is shorter.
pub open spec fn most_recent<T>(s: Seq<T>) -> Seq<T> {
    if s.len() > MAX_ENTRIES {
        s.subrange(s.len() - MAX_ENTRIES, s.len() as int)
    } else {
        s
    }
}

/// Drops the oldest entries beyond `MAX_ENTRIES`.
pub fn keep_most_recent<T>(entries: &mut Vec<T>)
    ensures
        final(entries)@ == most_recent(old(entries)@),
{
    let n = entries.len();
    if n > MAX_ENTRIES {
        let tail = entries.split_off(n - MAX_ENTRIES);
        *entries = tail;
    }
}

/// Adds `entry` as the newest, then drops the oldest beyond the cap.
pub fn record<T>(entries: &mut Vec<T>, entry: T)
    ensures
        final(entries)@ == most_recent(old(entries)@.push(entry)),
{
    entries.push(entry);
    keep_most_recent(entries);
}

/// Recording never holds more than the cap, keeps the new entry as the
/// last, and keeps what it keeps of the earlier ones in their order.
pub proof fn law_record_keeps_the_newest<T>(before: Seq<T>, entry: T)
    requires
        before.len() <= MAX_ENTRIES,
    ensures
        most_recent(before.push(entry)).len() <= MAX_ENTRIES,
        most_recent(before.push(entry)).last() == entry,
        most_recent(before.push(entry)).drop_last() == (if before.len() == MAX_ENTRIES {
            before.drop_first()
        } else {
            before
        }),
{
    let s = before.push(entry);
    if s.len() > MAX_ENTRIES {
        assert(s.subrange(s.len() - MAX_ENTRIES, s.len() as int).drop_last() =~= before.drop_first());
    } else {
        assert(s.drop_last() =~= before);
    }
}

/// Whether any log file, by its size in bytes, outgrew the cap.
pub fn needs_rotation(sizes: &Vec<u64>) -> (r: bool)
    ensures
        r == exists|i: int| 0 <= i < sizes@.len() && sizes@[i] > MAX_LOG_BYTES,
{
    let mut i: usize = 0;
    while i < sizes.len()
        invariant
            i <= sizes@.len(),
            forall|k: int| 0 <= k < i ==> sizes@[k] <= MAX_LOG_BYTES,
        decreases sizes@.len() - i,
    {
        if sizes[i] > MAX_LOG_BYTES {
            return true;
        }
        i = i + 1;
    }
    false
}

/// The files the log is written to: `error-log.jsonl` in the app's data
/// folder, and in a debug build `logs/app-errors.jsonl` under the working
/// folder too, when it is known.
pub fn log_paths(app_data_dir: &str, debug_dir: Option<&str>) -> (r: Vec<String>)
    ensures
        r@.len() == if debug_dir is Some { 2int } else { 1int },
        r@[0]@ == join(app_data_dir@, "error-log.jsonl"@),
        debug_dir is Some ==> r@[1]@ == join(join(debug_dir.unwrap()@, "logs"@), "app-errors.jsonl"@),
{
    let mut out: Vec<String> = Vec::new();
    let d = chars_of(app_data_dir);
    let f = chars_of("error-log.jsonl");
    out.push(string_of(join_chars(d.as_slice(), f.as_slice()).as_slice()));
    if let Some(cwd) = debug_dir {
        let c = chars_of(cwd);
        let l = chars_of("logs");
        let a = chars_of("app-errors.jsonl");
        let logs = join_chars(c.as_slice(), l.as_slice());
        out.push(string_of(join_chars(logs.as_slice(), a.as_slice()).as_slice()));
    }
    out
}

/// The file shown to the user: the last of the log's files, or none.
pub fn log_path(paths: &Vec<String>) -> (r: String)
    ensures
        r@ == if paths@.len() > 0 { paths@.last()@ } else { Seq::<char>::empty() },
{
    if paths.len() > 0 {
        paths[paths.len() - 1].clone()
    } else {
        String::new()
    }
}

} // verus!
