//! Batch reports: a readable Markdown summary and a spreadsheet-friendly
//! CSV with one row per file. Reports are append-only artifacts named after
//! the job, so rerunning a job never overwrites a previous result.
use vstd::prelude::*;
use crate::text::{chars_of, decimal, decimal_chars, push_all, push_str, replace_char, replace_chars, string_of};
use crate::path_text::{join, join_chars};
use super::{BatchItemState, BatchItemStatus, BatchJobStatus, VideoBackend};

verus! {

pub open spec fn spec_backend_name(backend: VideoBackend) -> Seq<char> {
    match backend {
        VideoBackend::Software => "software"@,
        VideoBackend::Nvidia => "nvidia_nvenc"@,
        VideoBackend::Intel => "intel_qsv"@,
        VideoBackend::Amd => "amd_amf"@,
        VideoBackend::VideoToolbox => "apple_videotoolbox"@,
        VideoBackend::Vaapi => "vaapi"@,
    }
}

/// Machine-readable name of an encoder family.
pub fn backend_name(backend: VideoBackend) -> (r: &'static str)
    ensures
        r@ == spec_backend_name(backend),
{
    match backend {
        VideoBackend::Software => "software",
        VideoBackend::Nvidia => "nvidia_nvenc",
        VideoBackend::Intel => "intel_qsv",
        VideoBackend::Amd => "amd_amf",
        VideoBackend::VideoToolbox => "apple_videotoolbox",
        VideoBackend::Vaapi => "vaapi",
    }
}

pub open spec fn spec_state_name(state: BatchItemState) -> Seq<char> {
    match state {
        BatchItemState::Pending => "pending"@,
        BatchItemState::Running => "running"@,
        BatchItemState::Done => "done"@,
        BatchItemState::Skipped => "skipped"@,
        BatchItemState::Failed => "failed"@,
        BatchItemState::Cancelled => "cancelled"@,
    }
}

pub fn state_name(state: BatchItemState) -> (r: &'static str)
    ensures
        r@ == spec_state_name(state),
{
    match state {
        BatchItemState::Pending => "pending",
        BatchItemState::Running => "running",
        BatchItemState::Done => "done",
        BatchItemState::Skipped => "skipped",
        BatchItemState::Failed => "failed",
        BatchItemState::Cancelled => "cancelled",
    }
}

/// A CSV field: quoted, with inner quotes doubled.
pub open spec fn spec_csv_field(value: Seq<char>) -> Seq<char> {
    seq!['"'] + replace_char(value, '"', seq!['"', '"']) + seq!['"']
}

pub fn csv_field(value: &str) -> (r: String)
    ensures
        r@ == spec_csv_field(value@),
{
    let v = chars_of(value);
    let mut q: Vec<char> = Vec::new();
    q.push('"');
    q.push('"');
    let body = replace_chars(v.as_slice(), '"', q.as_slice());
    let mut out: Vec<char> = Vec::new();
    out.push('"');
    push_all(&mut out, body.as_slice());
    out.push('"');
    assert(q@ =~= seq!['"', '"']);
    assert(out@ =~= spec_csv_field(value@));
    string_of(out.as_slice())
}

/// Backslashes, asterisks and backticks escaped so that Markdown shows the
/// text as written.
pub open spec fn spec_escape_markdown(value: Seq<char>) -> Seq<char> {
    replace_char(
        replace_char(replace_char(value, '\\', seq!['\\', '\\']), '*', seq!['\\', '*']),
        '`',
        seq!['\\', '`'],
    )
}

pub fn escape_markdown(value: &str) -> (r: String)
    ensures
        r@ == spec_escape_markdown(value@),
{
    let v = chars_of(value);
    let mut bs: Vec<char> = Vec::new();
    bs.push('\\');
    bs.push('\\');
    let mut star: Vec<char> = Vec::new();
    star.push('\\');
    star.push('*');
    let mut tick: Vec<char> = Vec::new();
    tick.push('\\');
    tick.push('`');
    assert(bs@ =~= seq!['\\', '\\']);
    assert(star@ =~= seq!['\\', '*']);
    assert(tick@ =~= seq!['\\', '`']);
    let a = replace_chars(v.as_slice(), '\\', bs.as_slice());
    let b = replace_chars(a.as_slice(), '*', star.as_slice());
    let c = replace_chars(b.as_slice(), '`', tick.as_slice());
    string_of(c.as_slice())
}

pub open spec fn opt_text(o: Option<String>, none: Seq<char>) -> Seq<char> {
    match o {
        Some(s) => s@,
        None => none,
    }
}

pub open spec fn markdown_header(job: BatchJobStatus) -> Seq<char> {
    "# Batch report "@ + job.job_id@ + "\n\n- Started: "@ + job.started_at@ + "\n- Finished: "@
        + opt_text(job.finished_at, "unknown"@) + "\n- Converted: "@ + decimal(job.done as nat)
        + "\n- Skipped: "@ + decimal(job.skipped as nat) + "\n- Failed: "@ + decimal(
        job.failed as nat,
    ) + "\n- Bytes before: "@ + decimal(job.bytes_before as nat) + "\n- Bytes after: "@
        + decimal(job.bytes_after as nat) + "\n\n## Files\n\n"@
}

pub open spec fn markdown_head(item: BatchItemStatus) -> Seq<char> {
    "- **"@ + spec_escape_markdown(item.file_name@) + "** — `"@ + spec_state_name(item.state)
        + "` — "@ + spec_escape_markdown(item.source_path@)
}

pub open spec fn markdown_details(item: BatchItemStatus) -> Seq<char> {
    (match item.error {
        Some(e) => " — "@ + spec_escape_markdown(e@),
        None => Seq::empty(),
    }) + (match item.encoder_backend {
        Some(b) => " — encoder: "@ + spec_backend_name(b),
        None => Seq::empty(),
    }) + (match item.fallback_reason {
        Some(r) => " — fallback: "@ + spec_escape_markdown(r@),
        None => Seq::empty(),
    })
}

/// One line per file: name, state and source, then the error, the encoder
/// family and the fallback reason where there are any.
pub open spec fn markdown_line(item: BatchItemStatus) -> Seq<char> {
    markdown_head(item) + markdown_details(item) + seq!['\n']
}

pub open spec fn markdown_lines(items: Seq<BatchItemStatus>) -> Seq<char>
    decreases items.len(),
{
    if items.len() == 0 {
        Seq::empty()
    } else {
        markdown_lines(items.drop_last()) + markdown_line(items.last())
    }
}

pub open spec fn spec_markdown(job: BatchJobStatus) -> Seq<char> {
    markdown_header(job) + markdown_lines(job.items@)
}

fn push_decimal(out: &mut Vec<char>, n: u64)
    ensures
        final(out)@ == old(out)@ + decimal(n as nat),
{
    let d = decimal_chars(n);
    push_all(out, d.as_slice());
}

fn push_markdown_head(out: &mut Vec<char>, item: &BatchItemStatus)
    ensures
        final(out)@ == old(out)@ + markdown_head(*item),
{
    let ghost start = out@;
    push_str(out, "- **");
    let n = escape_markdown(item.file_name.as_str());
    push_str(out, n.as_str());
    push_str(out, "** — `");
    push_str(out, state_name(item.state));
    push_str(out, "` — ");
    let s = escape_markdown(item.source_path.as_str());
    push_str(out, s.as_str());
    assert(out@ =~= start + markdown_head(*item));
}

fn push_markdown_details(out: &mut Vec<char>, item: &BatchItemStatus)
    ensures
        final(out)@ == old(out)@ + markdown_details(*item),
{
    let ghost start = out@;
    if let Some(error) = &item.error {
        push_str(out, " — ");
        let e = escape_markdown(error.as_str());
        push_str(out, e.as_str());
    }
    let ghost p2 = out@;
    if let Some(backend) = item.encoder_backend {
        push_str(out, " — encoder: ");
        push_str(out, backend_name(backend));
    }
    let ghost p3 = out@;
    if let Some(reason) = &item.fallback_reason {
        push_str(out, " — fallback: ");
        let r = escape_markdown(reason.as_str());
        push_str(out, r.as_str());
    }
    assert(out@ =~= start + markdown_details(*item));
}

fn push_markdown_line(out: &mut Vec<char>, item: &BatchItemStatus)
    ensures
        final(out)@ == old(out)@ + markdown_line(*item),
{
    let ghost start = out@;
    push_markdown_head(out, item);
    push_markdown_details(out, item);
    out.push('\n');
    assert(out@ =~= start + markdown_line(*item));
}

/// The readable report of a job.
pub fn markdown(job: &BatchJobStatus) -> (r: String)
    ensures
        r@ == spec_markdown(*job),
{
    let mut out = chars_of("# Batch report ");
    push_str(&mut out, job.job_id.as_str());
    push_str(&mut out, "\n\n- Started: ");
    push_str(&mut out, job.started_at.as_str());
    push_str(&mut out, "\n- Finished: ");
    match &job.finished_at {
        Some(f) => push_str(&mut out, f.as_str()),
        None => push_str(&mut out, "unknown"),
    }
    push_str(&mut out, "\n- Converted: ");
    push_decimal(&mut out, job.done as u64);
    push_str(&mut out, "\n- Skipped: ");
    push_decimal(&mut out, job.skipped as u64);
    push_str(&mut out, "\n- Failed: ");
    push_decimal(&mut out, job.failed as u64);
    push_str(&mut out, "\n- Bytes before: ");
    push_decimal(&mut out, job.bytes_before);
    push_str(&mut out, "\n- Bytes after: ");
    push_decimal(&mut out, job.bytes_after);
    push_str(&mut out, "\n\n## Files\n\n");
    assert(out@ =~= markdown_header(*job));
    let mut i: usize = 0;
    while i < job.items.len()
        invariant
            i <= job.items@.len(),
            out@ == markdown_header(*job) + markdown_lines(job.items@.take(i as int)),
        decreases job.items@.len() - i,
    {
        push_markdown_line(&mut out, &job.items[i]);
        proof {
            assert(job.items@.take(i + 1).drop_last() =~= job.items@.take(i as int));
        }
        i = i + 1;
    }
    assert(job.items@.take(i as int) =~= job.items@);
    string_of(out.as_slice())
}

pub open spec fn csv_header() -> Seq<char> {
    "file_name,source_path,state,size_before,size_after,output_path,encoder_backend,fallback_reason,error\n"@
}

/// The nine fields of a file's row, before quoting.
pub open spec fn csv_values(item: BatchItemStatus) -> Seq<Seq<char>> {
    seq![
        item.file_name@,
        item.source_path@,
        spec_state_name(item.state),
        decimal(item.size_before as nat),
        match item.size_after {
            Some(a) => decimal(a as nat),
            None => Seq::empty(),
        },
        opt_text(item.output_path, Seq::empty()),
        match item.encoder_backend {
            Some(b) => spec_backend_name(b),
            None => Seq::empty(),
        },
        opt_text(item.fallback_reason, Seq::empty()),
        opt_text(item.error, Seq::empty()),
    ]
}

/// Quoted fields joined with commas.
pub open spec fn csv_join(values: Seq<Seq<char>>) -> Seq<char>
    decreases values.len(),
{
    if values.len() == 0 {
        Seq::empty()
    } else if values.len() == 1 {
        spec_csv_field(values[0])
    } else {
        csv_join(values.drop_last()) + seq![','] + spec_csv_field(values.last())
    }
}

pub open spec fn csv_rows(items: Seq<BatchItemStatus>) -> Seq<char>
    decreases items.len(),
{
    if items.len() == 0 {
        Seq::empty()
    } else {
        csv_rows(items.drop_last()) + csv_join(csv_values(items.last())) + seq!['\n']
    }
}

pub open spec fn spec_csv(job: BatchJobStatus) -> Seq<char> {
    csv_header() + csv_rows(job.items@)
}

fn opt_chars(o: &Option<String>) -> (r: Vec<char>)
    ensures
        r@ == opt_text(*o, Seq::empty()),
{
    match o {
        Some(s) => chars_of(s.as_str()),
        None => {
            let v: Vec<char> = Vec::new();
            assert(v@ =~= Seq::<char>::empty());
            v
        },
    }
}

fn push_csv_row(out: &mut Vec<char>, item: &BatchItemStatus)
    ensures
        final(out)@ == old(out)@ + csv_join(csv_values(*item)) + seq!['\n'],
{
    let ghost start = out@;
    let mut values: Vec<Vec<char>> = Vec::new();
    values.push(chars_of(item.file_name.as_str()));
    values.push(chars_of(item.source_path.as_str()));
    values.push(chars_of(state_name(item.state)));
    values.push(decimal_chars(item.size_before));
    values.push(
        match item.size_after {
            Some(a) => decimal_chars(a),
            None => {
                let v: Vec<char> = Vec::new();
                assert(v@ =~= Seq::<char>::empty());
                v
            },
        },
    );
    values.push(opt_chars(&item.output_path));
    values.push(
        match item.encoder_backend {
            Some(b) => chars_of(backend_name(b)),
            None => {
                let v: Vec<char> = Vec::new();
                assert(v@ =~= Seq::<char>::empty());
                v
            },
        },
    );
    values.push(opt_chars(&item.fallback_reason));
    values.push(opt_chars(&item.error));
    let ghost vs = csv_values(*item);
    assert(values@.len() == 9);
    assert forall|k: int| 0 <= k < 9 implies #[trigger] values@[k]@ == vs[k] by {}
    let mut k: usize = 0;
    while k < values.len()
        invariant
            k <= values@.len(),
            values@.len() == 9,
            vs.len() == 9,
            forall|j: int| 0 <= j < 9 ==> #[trigger] values@[j]@ == vs[j],
            out@ == start + csv_join(vs.take(k as int)),
        decreases values@.len() - k,
    {
        if k > 0 {
            out.push(',');
        }
        let f = csv_field_chars(values[k].as_slice());
        push_all(out, f.as_slice());
        proof {
            let t = vs.take(k + 1);
            assert(t.drop_last() =~= vs.take(k as int));
            if k == 0 {
                assert(csv_join(vs.take(0)) =~= Seq::<char>::empty());
            }
        }
        k = k + 1;
    }
    assert(vs.take(9) =~= vs);
    out.push('\n');
}

fn csv_field_chars(value: &[char]) -> (r: Vec<char>)
    ensures
        r@ == spec_csv_field(value@),
{
    let mut q: Vec<char> = Vec::new();
    q.push('"');
    q.push('"');
    assert(q@ =~= seq!['"', '"']);
    let body = replace_chars(value, '"', q.as_slice());
    let mut out: Vec<char> = Vec::new();
    out.push('"');
    push_all(&mut out, body.as_slice());
    out.push('"');
    assert(out@ =~= spec_csv_field(value@));
    out
}

/// The spreadsheet report of a job.
pub fn csv(job: &BatchJobStatus) -> (r: String)
    ensures
        r@ == spec_csv(*job),
{
    let mut out = chars_of(
        "file_name,source_path,state,size_before,size_after,output_path,encoder_backend,fallback_reason,error\n",
    );
    let mut i: usize = 0;
    assert(job.items@.take(0) =~= Seq::<BatchItemStatus>::empty());
    while i < job.items.len()
        invariant
            i <= job.items@.len(),
            out@ == csv_header() + csv_rows(job.items@.take(i as int)),
        decreases job.items@.len() - i,
    {
        push_csv_row(&mut out, &job.items[i]);
        proof {
            assert(job.items@.take(i + 1).drop_last() =~= job.items@.take(i as int));
        }
        i = i + 1;
    }
    assert(job.items@.take(i as int) =~= job.items@);
    string_of(out.as_slice())
}

/// The two report files of a job inside `dir`: `batch-<job id>.md` and
/// `batch-<job id>.csv`.
pub fn report_paths(dir: &str, job_id: &str) -> (r: (String, String))
    ensures
        r.0@ == join(dir@, "batch-"@ + job_id@ + ".md"@),
        r.1@ == join(dir@, "batch-"@ + job_id@ + ".csv"@),
{
    let d = chars_of(dir);
    let mut md = chars_of("batch-");
    push_str(&mut md, job_id);
    let mut cs = md.clone();
    push_str(&mut md, ".md");
    push_str(&mut cs, ".csv");
    let a = join_chars(d.as_slice(), md.as_slice());
    let b = join_chars(d.as_slice(), cs.as_slice());
    (string_of(a.as_slice()), string_of(b.as_slice()))
}

/// The folders reports are written to: `logs` in the app's data folder when
/// it is known, and in a debug build `logs` under the working folder too,
/// unless that is the same folder.
pub fn report_dirs(app_data_dir: Option<&str>, debug_dir: Option<&str>) -> (r: Vec<String>)
    ensures
        ({
            let first = match app_data_dir {
                Some(d) => seq![join(d@, "logs"@)],
                None => Seq::<Seq<char>>::empty(),
            };
            let second = match debug_dir {
                Some(c) => if first.contains(join(c@, "logs"@)) {
                    Seq::<Seq<char>>::empty()
                } else {
                    seq![join(c@, "logs"@)]
                },
                None => Seq::<Seq<char>>::empty(),
            };
            crate::text::views(r@) == first + second
        }),
{
    let mut out: Vec<String> = Vec::new();
    let logs = chars_of("logs");
    if let Some(d) = app_data_dir {
        let dc = chars_of(d);
        out.push(string_of(join_chars(dc.as_slice(), logs.as_slice()).as_slice()));
    }
    let ghost first = crate::text::views(out@);
    assert(first =~= match app_data_dir {
        Some(d) => seq![join(d@, "logs"@)],
        None => Seq::<Seq<char>>::empty(),
    });
    if let Some(c) = debug_dir {
        let cc = chars_of(c);
        let dir = join_chars(cc.as_slice(), logs.as_slice());
        let same = out.len() == 1 && crate::text::chars_eq(chars_of(out[0].as_str()).as_slice(), dir.as_slice());
        proof {
            if first.len() == 1 {
                assert(first.contains(dir@) <==> first[0] == dir@);
            } else {
                assert(!first.contains(dir@));
            }
        }
        if !same {
            out.push(string_of(dir.as_slice()));
        }
    }
    assert(crate::text::views(out@) =~= {
        let second = match debug_dir {
            Some(c) => if first.contains(join(c@, "logs"@)) {
                Seq::<Seq<char>>::empty()
            } else {
                seq![join(c@, "logs"@)]
            },
            None => Seq::<Seq<char>>::empty(),
        };
        first + second
    });
    out
}

} // verus!
