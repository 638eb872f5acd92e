//! FFmpeg as a tool: where to find it, what a build can do, and the
//! arguments and outcomes of its runs. The runs themselves happen outside.
use vstd::prelude::*;
use crate::text::{
    chars_eq, chars_of, contains_chars, contains_text, lines_of, push_lit, push_str, push_strings, seqs,
    spec_lines, string_of, trim, trimmed, views,
};
use crate::path_text::{extension, file_stem, file_name, join, join_chars, lower_extension_of,
    lower_extension_chars, extension_chars, file_stem_chars, file_name_chars};
use crate::media::eq_lit;
use crate::batch::{FfmpegCapabilities, VideoBackendCapability};
use crate::batch::video_backend::{VideoEncodeAttempt, CANCELLED, duplicate_strings};
use crate::batch::runner::APP_FOLDER_NAME;
use crate::clock::local_stamp;

verus! {

/// What a build can do, read from the text of `ffmpeg -encoders`,
/// `-decoders`, `-demuxers` and `-version`. HEIC/HEIF files are ISOBMFF:
/// ffmpeg reads them through the mov demuxer plus the hevc decoder.
pub open spec fn capabilities_match(
    c: FfmpegCapabilities,
    encoders: Seq<char>,
    decoders: Seq<char>,
    demuxers: Seq<char>,
    version: Option<Seq<char>>,
    video_backends: Seq<VideoBackendCapability>,
) -> bool {
    &&& c.available
    &&& c.h264 == contains_text(encoders, "libx264"@)
    &&& c.h265 == contains_text(encoders, "libx265"@)
    &&& c.av1 == contains_text(encoders, "libsvtav1"@)
    &&& c.webp == contains_text(encoders, "libwebp"@)
    &&& c.avif == contains_text(encoders, "libaom-av1"@)
    &&& c.heic_decode == (contains_text(decoders, "hevc"@) && contains_text(demuxers, "mov,mp4"@))
    &&& c.video_backends@ == video_backends
    &&& match version {
        Some(v) => if spec_lines(v).len() == 0 {
            c.version is None
        } else {
            c.version matches Some(t) && t@ == trim(spec_lines(v)[0])
        },
        None => c.version is None,
    }
}

fn has_text(hay: &str, needle: &str) -> (r: bool)
    ensures
        r == contains_text(hay@, needle@),
{
    let h = chars_of(hay);
    let n = chars_of(needle);
    contains_chars(h.as_slice(), n.as_slice())
}

pub fn capabilities_from_output(
    encoders: &str,
    decoders: &str,
    demuxers: &str,
    version: Option<&str>,
    video_backends: Vec<VideoBackendCapability>,
) -> (r: FfmpegCapabilities)
    ensures
        capabilities_match(
            r,
            encoders@,
            decoders@,
            demuxers@,
            match version {
                Some(v) => Some(v@),
                None => None,
            },
            video_backends@,
        ),
{
    let version_line = match version {
        Some(v) => {
            let c = chars_of(v);
            let lines = lines_of(c.as_slice());
            if lines.len() > 0 {
                let t = trimmed(lines[0].as_slice());
                Some(string_of(t.as_slice()))
            } else {
                None
            }
        },
        None => None,
    };
    FfmpegCapabilities {
        available: true,
        h264: has_text(encoders, "libx264"),
        h265: has_text(encoders, "libx265"),
        av1: has_text(encoders, "libsvtav1"),
        webp: has_text(encoders, "libwebp"),
        avif: has_text(encoders, "libaom-av1"),
        heic_decode: has_text(decoders, "hevc") && has_text(demuxers, "mov,mp4"),
        video_backends,
        version: version_line,
    }
}

/// The file name of a tool shipped next to the app: `.exe` on Windows.
pub open spec fn spec_bundled_binary_name(name: Seq<char>, os: Seq<char>) -> Seq<char> {
    if os == "windows"@ {
        name + ".exe"@
    } else {
        name
    }
}

pub fn bundled_binary_name(name: &str, os: &str) -> (r: String)
    ensures
        r@ == spec_bundled_binary_name(name@, os@),
{
    let o = chars_of(os);
    let mut n = chars_of(name);
    if eq_lit(o.as_slice(), "windows") {
        push_str(&mut n, ".exe");
    }
    string_of(n.as_slice())
}

/// What to tell a user whose machine has no FFmpeg, with the install
/// command of their system.
pub open spec fn spec_missing_ffmpeg_message(name: Seq<char>, os: Seq<char>) -> Seq<char> {
    let hint = if os == "windows"@ {
        "install it with `winget install Gyan.FFmpeg` and reopen the app"@
    } else if os == "macos"@ {
        "install it with `brew install ffmpeg`"@
    } else {
        "install it with your package manager, e.g. `sudo apt install ffmpeg`"@
    };
    "FFmpeg not found ("@ + name + "). To trim and convert videos, "@ + hint + "."@
}

pub fn missing_ffmpeg_message(name: &str, os: &str) -> (r: String)
    ensures
        r@ == spec_missing_ffmpeg_message(name@, os@),
{
    let o = chars_of(os);
    let mut m = chars_of("FFmpeg not found (");
    push_str(&mut m, name);
    push_str(&mut m, "). To trim and convert videos, ");
    if eq_lit(o.as_slice(), "windows") {
        push_str(&mut m, "install it with `winget install Gyan.FFmpeg` and reopen the app");
    } else if eq_lit(o.as_slice(), "macos") {
        push_str(&mut m, "install it with `brew install ffmpeg`");
    } else {
        push_str(&mut m, "install it with your package manager, e.g. `sudo apt install ffmpeg`");
    }
    push_str(&mut m, ".");
    string_of(m.as_slice())
}

/// Where the machine's environment says tools may live. Each entry is
/// optional: the folder of the running app, `LOCALAPPDATA`, `ProgramData`,
/// `USERPROFILE`, and the `bin` folders of the winget package builds found
/// on disk.
#[derive(Debug, Clone)]
pub struct ToolEnvironment {
    pub os: String,
    pub exe_dir: Option<String>,
    pub local_app_data: Option<String>,
    pub winget_bin_dirs: Vec<String>,
    pub program_data: Option<String>,
    pub user_profile: Option<String>,
}

/// The places probed for a tool, in order: a copy bundled next to the app
/// first (the build it was tested against), then PATH, then the usual
/// install locations of the system.
pub open spec fn spec_binary_candidates(name: Seq<char>, env: ToolEnvironment) -> Seq<Seq<char>> {
    let bundled = match env.exe_dir {
        Some(d) => seq![join(d@, spec_bundled_binary_name(name, env.os@))],
        None => Seq::empty(),
    };
    let exe = name + ".exe"@;
    let rest = if env.os@ == "macos"@ {
        seq!["/opt/homebrew/bin/"@ + name, "/usr/local/bin/"@ + name]
    } else if env.os@ == "windows"@ {
        seq![exe] + (match env.local_app_data {
            Some(l) => seq![join(join(join(join(l@, "Microsoft"@), "WinGet"@), "Links"@), exe)]
                + env.winget_bin_dirs@.map_values(|d: String| join(d@, exe)),
            None => Seq::empty(),
        }) + seq!["C:\\ffmpeg\\bin\\"@ + exe, "C:\\Program Files\\ffmpeg\\bin\\"@ + exe] + (
        match env.program_data {
            Some(p) => seq![join(join(join(p@, "chocolatey"@), "bin"@), exe)],
            None => Seq::empty(),
        }) + (match env.user_profile {
            Some(h) => seq![join(join(join(h@, "scoop"@), "shims"@), exe)],
            None => Seq::empty(),
        })
    } else {
        seq!["/usr/bin/"@ + name, "/usr/local/bin/"@ + name, "/snap/bin/"@ + name]
    };
    bundled + seq![name] + rest
}

fn join_str(dir: &str, name: &str) -> (r: String)
    ensures
        r@ == join(dir@, name@),
{
    let d = chars_of(dir);
    let n = chars_of(name);
    let j = join_chars(d.as_slice(), n.as_slice());
    string_of(j.as_slice())
}

fn prefixed(prefix: &str, name: &str) -> (r: String)
    ensures
        r@ == prefix@ + name@,
{
    let mut p = chars_of(prefix);
    push_str(&mut p, name);
    string_of(p.as_slice())
}

pub fn binary_candidates(name: &str, env: &ToolEnvironment) -> (r: Vec<String>)
    ensures
        views(r@) == spec_binary_candidates(name@, *env),
{
    let mut out: Vec<String> = Vec::new();
    assert(views(out@) =~= Seq::<Seq<char>>::empty());
    if let Some(d) = &env.exe_dir {
        let b = bundled_binary_name(name, env.os.as_str());
        push_string_view(&mut out, join_str(d.as_str(), b.as_str()));
    }
    push_lit(&mut out, name);
    let o = chars_of(env.os.as_str());
    let exe = prefixed(name, ".exe");
    let ghost base = views(out@);
    if eq_lit(o.as_slice(), "macos") {
        push_string_view(&mut out, prefixed("/opt/homebrew/bin/", name));
        push_string_view(&mut out, prefixed("/usr/local/bin/", name));
    } else if eq_lit(o.as_slice(), "windows") {
        push_string_view(&mut out, exe.clone());
        let ghost p1 = views(out@);
        if let Some(l) = &env.local_app_data {
            let a = join_str(l.as_str(), "Microsoft");
            let b = join_str(a.as_str(), "WinGet");
            let c = join_str(b.as_str(), "Links");
            push_string_view(&mut out, join_str(c.as_str(), exe.as_str()));
            push_joined(&mut out, &env.winget_bin_dirs, exe.as_str());
        }
        let ghost p2 = views(out@);
        push_string_view(&mut out, prefixed("C:\\ffmpeg\\bin\\", exe.as_str()));
        push_string_view(&mut out, prefixed("C:\\Program Files\\ffmpeg\\bin\\", exe.as_str()));
        let ghost p3 = views(out@);
        if let Some(p) = &env.program_data {
            let a = join_str(p.as_str(), "chocolatey");
            let b = join_str(a.as_str(), "bin");
            push_string_view(&mut out, join_str(b.as_str(), exe.as_str()));
        }
        let ghost p4 = views(out@);
        if let Some(h) = &env.user_profile {
            let a = join_str(h.as_str(), "scoop");
            let b = join_str(a.as_str(), "shims");
            push_string_view(&mut out, join_str(b.as_str(), exe.as_str()));
        }
    } else {
        push_string_view(&mut out, prefixed("/usr/bin/", name));
        push_string_view(&mut out, prefixed("/usr/local/bin/", name));
        push_string_view(&mut out, prefixed("/snap/bin/", name));
    }
    assert(views(out@) =~= spec_binary_candidates(name@, *env));
    out
}

fn push_joined(out: &mut Vec<String>, dirs: &Vec<String>, name: &str)
    ensures
        views(final(out)@) == views(old(out)@) + dirs@.map_values(|d: String| join(d@, name@)),
{
    let ghost start = views(out@);
    let mut i: usize = 0;
    while i < dirs.len()
        invariant
            i <= dirs@.len(),
            views(out@) == start + dirs@.take(i as int).map_values(|d: String| join(d@, name@)),
        decreases dirs@.len() - i,
    {
        push_string_view(out, join_str(dirs[i].as_str(), name));
        assert(dirs@.take(i + 1).map_values(|d: String| join(d@, name@)) =~= dirs@.take(i as int).map_values(
            |d: String| join(d@, name@),
        ).push(join(dirs@[i as int]@, name@)));
        i = i + 1;
    }
    assert(dirs@.take(dirs@.len() as int) =~= dirs@);
}

fn push_string_view(v: &mut Vec<String>, s: String)
    ensures
        views(final(v)@) == views(old(v)@).push(s@),
{
    crate::text::push_string(v, s);
}

/// The arguments of an encode: quiet banner, no stdin, overwrite, the
/// attempt's input flags, the input, its output flags, progress on stdout,
/// the output.
pub open spec fn spec_encode_args(
    input: Seq<char>,
    output: Seq<char>,
    input_flags: Seq<Seq<char>>,
    output_flags: Seq<Seq<char>>,
) -> Seq<Seq<char>> {
    seq!["-hide_banner"@, "-nostdin"@, "-y"@] + input_flags + seq!["-i"@, input] + output_flags
        + seq!["-progress"@, "pipe:1"@, "-nostats"@, output]
}

pub fn encode_args(
    input: &str,
    output: &str,
    input_flags: &Vec<String>,
    output_flags: &Vec<String>,
) -> (r: Vec<String>)
    ensures
        views(r@) == spec_encode_args(input@, output@, views(input_flags@), views(output_flags@)),
{
    let mut a: Vec<String> = Vec::new();
    assert(views(a@) =~= Seq::<Seq<char>>::empty());
    push_lit(&mut a, "-hide_banner");
    push_lit(&mut a, "-nostdin");
    push_lit(&mut a, "-y");
    push_strings(&mut a, duplicate_strings(input_flags));
    push_lit(&mut a, "-i");
    push_lit(&mut a, input);
    push_strings(&mut a, duplicate_strings(output_flags));
    push_lit(&mut a, "-progress");
    push_lit(&mut a, "pipe:1");
    push_lit(&mut a, "-nostats");
    push_lit(&mut a, output);
    assert(views(a@) =~= spec_encode_args(input@, output@, views(input_flags@), views(output_flags@)));
    a
}

/// How an encode ended: cancelled when it was killed, done when FFmpeg
/// succeeded, otherwise failed with what it wrote to stderr.
pub fn encode_outcome(killed: bool, success: bool, stderr_tail: &str) -> (r: Result<(), String>)
    ensures
        match r {
            Ok(()) => !killed && success,
            Err(e) => if killed {
                e@ == CANCELLED@
            } else {
                !success && e@ == "ffmpeg failed: "@ + trim(stderr_tail@)
            },
        },
{
    if killed {
        return Err(String::from_str(CANCELLED));
    }
    if success {
        return Ok(());
    }
    let t = chars_of(stderr_tail);
    let tt = trimmed(t.as_slice());
    let mut m = chars_of("ffmpeg failed: ");
    crate::text::push_all(&mut m, tt.as_slice());
    Err(string_of(m.as_slice()))
}

/// The arguments of a device probe: one black frame of a tiny test clip
/// through the attempt's flags, thrown away.
pub open spec fn spec_probe_args(attempt: VideoEncodeAttempt) -> Seq<Seq<char>> {
    seq!["-hide_banner"@, "-loglevel"@, "error"@] + views(attempt.input_flags@) + seq![
        "-f"@,
        "lavfi"@,
        "-i"@,
        "color=c=black:s=64x64:r=25:d=0.08"@,
    ] + views(attempt.output_flags@) + seq!["-frames:v"@, "1"@, "-f"@, "null"@, "-"@]
}

pub fn probe_args(attempt: &VideoEncodeAttempt) -> (r: Vec<String>)
    ensures
        views(r@) == spec_probe_args(*attempt),
{
    let mut a: Vec<String> = Vec::new();
    assert(views(a@) =~= Seq::<Seq<char>>::empty());
    push_lit(&mut a, "-hide_banner");
    push_lit(&mut a, "-loglevel");
    push_lit(&mut a, "error");
    push_strings(&mut a, duplicate_strings(&attempt.input_flags));
    push_lit(&mut a, "-f");
    push_lit(&mut a, "lavfi");
    push_lit(&mut a, "-i");
    push_lit(&mut a, "color=c=black:s=64x64:r=25:d=0.08");
    push_strings(&mut a, duplicate_strings(&attempt.output_flags));
    push_lit(&mut a, "-frames:v");
    push_lit(&mut a, "1");
    push_lit(&mut a, "-f");
    push_lit(&mut a, "null");
    push_lit(&mut a, "-");
    assert(views(a@) =~= spec_probe_args(*attempt));
    a
}

/// How a device probe ended: usable, or FFmpeg's complaint.
pub fn probe_outcome(success: bool, stderr: &str) -> (r: Result<(), String>)
    ensures
        match r {
            Ok(()) => success,
            Err(e) => !success && e@ == trim(stderr@),
        },
{
    if success {
        return Ok(());
    }
    let t = chars_of(stderr);
    let tt = trimmed(t.as_slice());
    Err(string_of(tt.as_slice()))
}

/// Where the original of a trimmed video is kept:
/// `<folder>/.quick-media-organizer/trim-backups/<stem>_<stamp>.<ext>`.
pub open spec fn spec_trim_backup_path(folder: Seq<char>, video: Seq<char>, stamp: Seq<char>) -> Seq<
    char,
> {
    let dir = join(join(folder, APP_FOLDER_NAME@), "trim-backups"@);
    let stem = if file_name(video).len() == 0 {
        "video"@
    } else {
        file_stem(video)
    };
    let ext = match extension(video) {
        Some(e) => e,
        None => "mp4"@,
    };
    join(dir, stem + seq!['_'] + stamp + seq!['.'] + ext)
}

pub fn trim_backup_path_at(folder: &str, video_path: &str, stamp: &str) -> (r: String)
    ensures
        r@ == spec_trim_backup_path(folder@, video_path@, stamp@),
{
    let a = join_str(folder, APP_FOLDER_NAME);
    let dir = join_str(a.as_str(), "trim-backups");
    let v = chars_of(video_path);
    let name = file_name_chars(v.as_slice());
    let mut leaf = if name.len() == 0 {
        chars_of("video")
    } else {
        file_stem_chars(v.as_slice())
    };
    leaf.push('_');
    push_str(&mut leaf, stamp);
    leaf.push('.');
    match extension_chars(v.as_slice()) {
        Some(e) => crate::text::push_all(&mut leaf, e.as_slice()),
        None => push_str(&mut leaf, "mp4"),
    }
    let d = chars_of(dir.as_str());
    let out = join_chars(d.as_slice(), leaf.as_slice());
    proof {
        let stem = if file_name(video_path@).len() == 0 {
            "video"@
        } else {
            file_stem(video_path@)
        };
        let ext = match extension(video_path@) {
            Some(e) => e,
            None => "mp4"@,
        };
        assert(leaf@ =~= stem + seq!['_'] + stamp@ + seq!['.'] + ext);
    }
    string_of(out.as_slice())
}

/// The trim backup of `video_path`, stamped with the local time.
pub fn trim_backup_path(folder: &str, video_path: &str) -> (r: String)
    ensures
        exists|stamp: Seq<char>| r@ == spec_trim_backup_path(folder@, video_path@, stamp),
{
    let stamp = local_stamp("%Y%m%d_%H%M%S_%f");
    trim_backup_path_at(folder, video_path, stamp.as_str())
}

/// Browsers play MP4, MOV and M4V directly; other videos need a proxy.
pub open spec fn spec_plays_natively(source: Seq<char>) -> bool {
    let e = lower_extension_of(source);
    e == "mp4"@ || e == "mov"@ || e == "m4v"@
}

pub fn plays_natively(source: &str) -> (r: bool)
    ensures
        r == spec_plays_natively(source@),
{
    let s = chars_of(source);
    let e = lower_extension_chars(s.as_slice());
    eq_lit(e.as_slice(), "mp4") || eq_lit(e.as_slice(), "mov") || eq_lit(e.as_slice(), "m4v")
}

/// The cached proxy and poster of a video with cache key `key`.
pub fn preview_paths(cache_dir: &str, key: &str) -> (r: (String, String))
    ensures
        r.0@ == join(cache_dir@, key@ + ".mp4"@),
        r.1@ == join(cache_dir@, key@ + ".jpg"@),
{
    let proxy = prefixed(key, ".mp4");
    let poster = prefixed(key, ".jpg");
    (join_str(cache_dir, proxy.as_str()), join_str(cache_dir, poster.as_str()))
}

} // verus!

verus! {

/// The binaries found so far, by tool name. Only successes are kept, so a
/// tool installed while the app is open is picked up on the next try.
#[derive(Debug, Clone)]
pub struct BinaryCache {
    entries: Vec<(String, String)>,
}

pub open spec fn entry_views(e: Seq<(String, String)>) -> Seq<(Seq<char>, Seq<char>)> {
    e.map_values(|p: (String, String)| (p.0@, p.1@))
}

/// The map a list of entries stands for: a later entry wins.
pub open spec fn entries_map(s: Seq<(Seq<char>, Seq<char>)>) -> Map<Seq<char>, Seq<char>>
    decreases s.len(),
{
    if s.len() == 0 {
        Map::empty()
    } else {
        entries_map(s.drop_last()).insert(s.last().0, s.last().1)
    }
}

/// The entries without those for `name`, in order.
pub open spec fn without_name(s: Seq<(Seq<char>, Seq<char>)>, name: Seq<char>) -> Seq<(Seq<char>, Seq<char>)>
    decreases s.len(),
{
    if s.len() == 0 {
        s
    } else if s.last().0 == name {
        without_name(s.drop_last(), name)
    } else {
        without_name(s.drop_last(), name).push(s.last())
    }
}

proof fn lemma_without_name(s: Seq<(Seq<char>, Seq<char>)>, name: Seq<char>)
    ensures
        entries_map(without_name(s, name)) == entries_map(s).remove(name),
    decreases s.len(),
{
    if s.len() > 0 {
        lemma_without_name(s.drop_last(), name);
        let r = without_name(s.drop_last(), name);
        if s.last().0 != name {
            assert(r.push(s.last()).drop_last() =~= r);
        }
        assert(entries_map(without_name(s, name)) =~= entries_map(s).remove(name));
    }
}

/// The last entry for `name` at `j` gives the map's value there.
proof fn lemma_last_entry(s: Seq<(Seq<char>, Seq<char>)>, name: Seq<char>, j: int)
    requires
        0 <= j < s.len(),
        s[j].0 == name,
        forall|k: int| j < k < s.len() ==> s[k].0 != name,
    ensures
        entries_map(s).dom().contains(name),
        entries_map(s)[name] == s[j].1,
    decreases s.len(),
{
    if j < s.len() - 1 {
        lemma_last_entry(s.drop_last(), name, j);
    }
}

proof fn lemma_no_entry(s: Seq<(Seq<char>, Seq<char>)>, name: Seq<char>)
    requires
        forall|k: int| 0 <= k < s.len() ==> s[k].0 != name,
    ensures
        !entries_map(s).dom().contains(name),
    decreases s.len(),
{
    if s.len() > 0 {
        lemma_no_entry(s.drop_last(), name);
    }
}

impl View for BinaryCache {
    type V = Map<Seq<char>, Seq<char>>;

    closed spec fn view(&self) -> Map<Seq<char>, Seq<char>> {
        entries_map(entry_views(self.entries@))
    }
}

impl BinaryCache {
    pub fn new() -> (r: Self)
        ensures
            r@ == Map::<Seq<char>, Seq<char>>::empty(),
    {
        let r = BinaryCache { entries: Vec::new() };
        assert(entry_views(r.entries@) =~= Seq::empty());
        r
    }

    /// The binary found earlier for `name`.
    pub fn cached_binary(&self, name: &str) -> (r: Option<String>)
        ensures
            r is Some <==> self@.dom().contains(name@),
            r is Some ==> r.unwrap()@ == self@[name@],
    {
        let ghost s = entry_views(self.entries@);
        let mut i = self.entries.len();
        while i > 0
            invariant
                i <= self.entries@.len(),
                s == entry_views(self.entries@),
                forall|k: int| i <= k < s.len() ==> s[k].0 != name@,
            decreases i,
        {
            i = i - 1;
            if chars_eq(chars_of(self.entries[i].0.as_str()).as_slice(), chars_of(name).as_slice()) {
                proof {
                    lemma_last_entry(s, name@, i as int);
                }
                return Some(self.entries[i].1.clone());
            }
        }
        proof {
            lemma_no_entry(s, name@);
        }
        None
    }

    /// Remembers `path` as the binary for `name`, in place of any earlier one.
    pub fn cache_binary(&mut self, name: &str, path: &str)
        ensures
            final(self)@ == old(self)@.insert(name@, path@),
    {
        let ghost s = entry_views(self.entries@);
        let mut kept: Vec<(String, String)> = Vec::new();
        let mut i: usize = 0;
        while i < self.entries.len()
            invariant
                i <= self.entries@.len(),
                s == entry_views(self.entries@),
                entry_views(kept@) == without_name(s.take(i as int), name@),
            decreases self.entries@.len() - i,
        {
            let ghost before = kept@;
            assert(s.take(i + 1).drop_last() =~= s.take(i as int));
            if !chars_eq(chars_of(self.entries[i].0.as_str()).as_slice(), chars_of(name).as_slice()) {
                let e = (self.entries[i].0.clone(), self.entries[i].1.clone());
                kept.push(e);
                assert(entry_views(kept@) =~= entry_views(before).push(s[i as int]));
            }
            i = i + 1;
        }
        let ghost filtered = entry_views(kept@);
        kept.push((String::from_str(name), String::from_str(path)));
        proof {
            assert(s.take(s.len() as int) =~= s);
            lemma_without_name(s, name@);
            assert(entry_views(kept@) =~= filtered.push((name@, path@)));
            assert(entry_views(kept@).drop_last() =~= filtered);
            assert(entries_map(entry_views(kept@)) =~= entries_map(s).insert(name@, path@));
        }
        self.entries = kept;
    }
}

/// Remembering a binary and then asking for it gives it back; other names
/// keep what they had. `after` is `before` once `cache_binary(name, path)`
/// has run.
pub proof fn law_cached_binary_reads_back(
    before: BinaryCache,
    after: BinaryCache,
    name: Seq<char>,
    path: Seq<char>,
    other: Seq<char>,
)
    requires
        after@ == before@.insert(name, path),
        other != name,
    ensures
        after@.dom().contains(name),
        after@[name] == path,
        after@.dom().contains(other) == before@.dom().contains(other),
        before@.dom().contains(other) ==> after@[other] == before@[other],
{
}

/// `runs` answered `b` for the candidate whose text is `p`.
pub open spec fn ran<F: Fn(&str) -> bool>(runs: F, p: Seq<char>, b: bool) -> bool {
    exists|x: &str| #[trigger] call_ensures(runs, (x,), b) && x@ == p
}

/// `found` is the first of `candidates` that `runs` answered yes for, all
/// before it having answered no.
pub open spec fn first_that_runs<F: Fn(&str) -> bool>(runs: F, candidates: Seq<Seq<char>>, found: Seq<char>) -> bool {
    exists|i: int|
        0 <= i < candidates.len() && candidates[i] == found && ran(runs, found, true)
            && forall|j: int| 0 <= j < i ==> #[trigger] ran(runs, candidates[j], false)
}

/// The binary for `name`: the one remembered, or else the first candidate
/// place whose `-version` run succeeds (`runs` makes that run), which is
/// then remembered.
pub fn find_binary<F: Fn(&str) -> bool>(
    cache: &mut BinaryCache,
    name: &str,
    env: &ToolEnvironment,
    runs: &F,
) -> (r: Result<String, String>)
    requires
        forall|x: &str| #[trigger] call_requires(*runs, (x,)),
    ensures
        old(cache)@.dom().contains(name@) ==> r is Ok && r.unwrap()@ == old(cache)@[name@] && final(cache)@
            == old(cache)@,
        !old(cache)@.dom().contains(name@) ==> match r {
            Ok(p) => first_that_runs(*runs, spec_binary_candidates(name@, *env), p@) && final(cache)@
                == old(cache)@.insert(name@, p@),
            Err(m) => m@ == spec_missing_ffmpeg_message(name@, env.os@) && final(cache)@ == old(cache)@
                && forall|i: int|
                0 <= i < spec_binary_candidates(name@, *env).len() ==> #[trigger] ran(
                    *runs,
                    spec_binary_candidates(name@, *env)[i],
                    false,
                ),
        },
{
    if let Some(p) = cache.cached_binary(name) {
        return Ok(p);
    }
    let candidates = binary_candidates(name, env);
    let ghost cs = views(candidates@);
    let mut i: usize = 0;
    while i < candidates.len()
        invariant
            i <= candidates@.len(),
            cs == views(candidates@),
            cs == spec_binary_candidates(name@, *env),
            cache@ == old(cache)@,
            !old(cache)@.dom().contains(name@),
            forall|x: &str| #[trigger] call_requires(*runs, (x,)),
            forall|j: int| 0 <= j < i ==> #[trigger] ran(*runs, cs[j], false),
        decreases candidates@.len() - i,
    {
        let c = candidates[i].as_str();
        let ok = runs(c);
        assert(cs[i as int] == c@);
        if ok {
            assert(ran(*runs, c@, true));
            cache.cache_binary(name, c);
            let found = candidates[i].clone();
            assert(first_that_runs(*runs, cs, found@));
            return Ok(found);
        }
        assert(ran(*runs, cs[i as int], false));
        i = i + 1;
    }
    Err(missing_ffmpeg_message(name, env.os.as_str()))
}

/// The two FFmpeg programs the app runs.
#[derive(Debug, Clone)]
pub struct FfmpegTools {
    pub ffmpeg: String,
    pub ffprobe: String,
}

impl FfmpegTools {
    /// Finds `ffmpeg`, then `ffprobe`, as `find_binary` does.
    pub fn locate<F: Fn(&str) -> bool>(cache: &mut BinaryCache, env: &ToolEnvironment, runs: &F) -> (r: Result<
        Self,
        String,
    >)
        requires
            forall|x: &str| #[trigger] call_requires(*runs, (x,)),
        ensures
            match r {
                Ok(t) => (old(cache)@.dom().contains("ffmpeg"@) ==> t.ffmpeg@ == old(cache)@["ffmpeg"@])
                    && (!old(cache)@.dom().contains("ffmpeg"@) ==> first_that_runs(
                    *runs,
                    spec_binary_candidates("ffmpeg"@, *env),
                    t.ffmpeg@,
                )) && final(cache)@.dom().contains("ffmpeg"@) && final(cache)@["ffmpeg"@] == t.ffmpeg@
                    && final(cache)@.dom().contains("ffprobe"@) && final(cache)@["ffprobe"@] == t.ffprobe@
                    && (old(cache)@.dom().contains("ffprobe"@) ==> t.ffprobe@ == old(cache)@["ffprobe"@])
                    && (!old(cache)@.dom().contains("ffprobe"@) ==> first_that_runs(
                    *runs,
                    spec_binary_candidates("ffprobe"@, *env),
                    t.ffprobe@,
                )),
                Err(m) => m@ == spec_missing_ffmpeg_message("ffmpeg"@, env.os@) || m@
                    == spec_missing_ffmpeg_message("ffprobe"@, env.os@),
            },
    {
        proof {
            reveal_strlit("ffmpeg");
            reveal_strlit("ffprobe");
        }
        let ffmpeg = find_binary(cache, "ffmpeg", env, runs)?;
        let ghost mid = cache@;
        let ffprobe = find_binary(cache, "ffprobe", env, runs)?;
        assert(cache@.dom().contains("ffmpeg"@) && cache@["ffmpeg"@] == ffmpeg@) by {
            assert("ffmpeg"@ != "ffprobe"@);
        }
        Ok(FfmpegTools { ffmpeg, ffprobe })
    }

    /// What this build can do, from the text of its `-encoders`,
    /// `-decoders`, `-demuxers` and `-version` runs (empty when a run
    /// failed; no version then) and the hardware backends detected.
    pub fn capabilities(
        &self,
        encoders: &str,
        decoders: &str,
        demuxers: &str,
        version: Option<&str>,
        video_backends: Vec<VideoBackendCapability>,
    ) -> (r: FfmpegCapabilities)
        ensures
            capabilities_match(
                r,
                encoders@,
                decoders@,
                demuxers@,
                match version {
                    Some(v) => Some(v@),
                    None => None,
                },
                video_backends@,
            ),
    {
        capabilities_from_output(encoders, decoders, demuxers, version, video_backends)
    }
}

} // verus!

verus! {

/// The arguments that rewrap a video for the browser: stream copy, with the
/// index moved to the front.
pub open spec fn spec_remux_args(input: Seq<char>, output: Seq<char>) -> Seq<Seq<char>> {
    seq!["-y"@, "-i"@, input, "-c"@, "copy"@, "-movflags"@, "+faststart"@, output]
}

pub fn remux_args(input: &str, output: &str) -> (r: Vec<String>)
    ensures
        views(r@) == spec_remux_args(input@, output@),
{
    let mut a: Vec<String> = Vec::new();
    assert(views(a@) =~= Seq::<Seq<char>>::empty());
    push_lit(&mut a, "-y");
    push_lit(&mut a, "-i");
    push_lit(&mut a, input);
    push_lit(&mut a, "-c");
    push_lit(&mut a, "copy");
    push_lit(&mut a, "-movflags");
    push_lit(&mut a, "+faststart");
    push_lit(&mut a, output);
    assert(views(a@) =~= spec_remux_args(input@, output@));
    a
}

/// The arguments that grab one frame half a second in as a poster JPEG.
pub open spec fn spec_poster_args(input: Seq<char>, output: Seq<char>) -> Seq<Seq<char>> {
    seq!["-y"@, "-ss"@, "0.5"@, "-i"@, input, "-frames:v"@, "1"@, "-q:v"@, "3"@, output]
}

pub fn poster_args(input: &str, output: &str) -> (r: Vec<String>)
    ensures
        views(r@) == spec_poster_args(input@, output@),
{
    let mut a: Vec<String> = Vec::new();
    assert(views(a@) =~= Seq::<Seq<char>>::empty());
    push_lit(&mut a, "-y");
    push_lit(&mut a, "-ss");
    push_lit(&mut a, "0.5");
    push_lit(&mut a, "-i");
    push_lit(&mut a, input);
    push_lit(&mut a, "-frames:v");
    push_lit(&mut a, "1");
    push_lit(&mut a, "-q:v");
    push_lit(&mut a, "3");
    push_lit(&mut a, output);
    assert(views(a@) =~= spec_poster_args(input@, output@));
    a
}

} // verus!

verus! {

/// The most bytes of video previews kept on disk.
pub const PREVIEW_CACHE_MAX_BYTES: u64 = 1_500_000_000;

/// A file of the preview cache: when it was last modified (a number that
/// grows with time; files whose time cannot be read count as oldest), its
/// size, and its path.
#[derive(Debug, Clone)]
pub struct CachedFile {
    pub modified: u128,
    pub len: u64,
    pub path: String,
}

/// `order` lists each position of `files` once, oldest first, files of the
/// same age in their listed order.
pub open spec fn is_oldest_first(order: Seq<usize>, files: Seq<CachedFile>) -> bool {
    &&& order.len() == files.len()
    &&& forall|k: int| 0 <= k < order.len() ==> #[trigger] order[k] < files.len()
    &&& forall|k: int, l: int| 0 <= k < l < order.len() ==> #[trigger] order[k] != #[trigger] order[l]
    &&& forall|k: int, l: int|
        0 <= k < l < order.len() ==> files[#[trigger] order[k] as int].modified <= files[#[trigger] order[l] as int].modified
    &&& forall|k: int, l: int|
        0 <= k < l < order.len() && files[#[trigger] order[k] as int].modified == files[#[trigger] order[l] as int].modified
            ==> order[k] < order[l]
}

pub fn oldest_first(files: &Vec<CachedFile>) -> (r: Vec<usize>)
    ensures
        is_oldest_first(r@, files@),
{
    let n = files.len();
    let mut out: Vec<usize> = Vec::new();
    let mut i: usize = 0;
    while i < n
        invariant
            n == files@.len(),
            i <= n,
            out@.len() == i,
            forall|k: int| 0 <= k < i ==> #[trigger] out@[k] < i,
            forall|k: int, l: int| 0 <= k < l < i ==> #[trigger] out@[k] != #[trigger] out@[l],
            forall|k: int, l: int|
                0 <= k < l < i ==> files@[#[trigger] out@[k] as int].modified <= files@[#[trigger] out@[l] as int].modified,
            forall|k: int, l: int|
                0 <= k < l < i && files@[#[trigger] out@[k] as int].modified == files@[#[trigger] out@[l] as int].modified
                    ==> out@[k] < out@[l],
        decreases n - i,
    {
        let key = files[i].modified;
        let mut pos = out.len();
        while pos > 0 && files[out[pos - 1]].modified > key
            invariant
                pos <= out@.len(),
                out@.len() == i,
                i < n,
                n == files@.len(),
                key == files@[i as int].modified,
                forall|k: int| 0 <= k < i ==> #[trigger] out@[k] < i,
                forall|m: int| pos <= m < out@.len() ==> files@[#[trigger] out@[m] as int].modified > key,
            decreases pos,
        {
            pos = pos - 1;
        }
        let ghost before = out@;
        out.insert(pos, i);
        proof {
            assert forall|k: int| 0 <= k < i + 1 implies #[trigger] out@[k] < i + 1 by {
                if k < pos {
                    assert(out@[k] == before[k]);
                } else if k > pos {
                    assert(out@[k] == before[k - 1]);
                }
            }
            assert forall|k: int, l: int| 0 <= k < l < i + 1 implies #[trigger] out@[k] != #[trigger] out@[l]
                && files@[out@[k] as int].modified <= files@[out@[l] as int].modified
                && (files@[out@[k] as int].modified == files@[out@[l] as int].modified ==> out@[k] < out@[l]) by {
                if l < pos {
                    assert(out@[k] == before[k] && out@[l] == before[l]);
                } else if l == pos {
                    assert(out@[k] == before[k]);
                    if pos > 0 {
                        assert(files@[before[pos - 1] as int].modified <= key);
                        if k < pos - 1 {
                            assert(files@[before[k] as int].modified <= files@[before[pos - 1] as int].modified);
                        }
                    }
                } else if k < pos {
                    assert(out@[k] == before[k] && out@[l] == before[l - 1]);
                } else if k == pos {
                    assert(out@[l] == before[l - 1]);
                } else {
                    assert(out@[k] == before[k - 1] && out@[l] == before[l - 1]);
                }
            }
        }
        i = i + 1;
    }
    out
}

pub open spec fn sum_lens(files: Seq<CachedFile>) -> nat
    decreases files.len(),
{
    if files.len() == 0 {
        0
    } else {
        sum_lens(files.drop_last()) + files.last().len as nat
    }
}

/// The bytes freed by the removals in `tried` (a position and whether its
/// removal succeeded).
pub open spec fn freed(files: Seq<CachedFile>, tried: Seq<(usize, bool)>) -> nat
    decreases tried.len(),
{
    if tried.len() == 0 {
        0
    } else {
        freed(files, tried.drop_last()) + if tried.last().1 {
            files[tried.last().0 as int].len as nat
        } else {
            0nat
        }
    }
}

/// The bytes left once the removals in `tried` are done, never below zero.
pub open spec fn bytes_left(files: Seq<CachedFile>, tried: Seq<(usize, bool)>) -> int {
    if freed(files, tried) <= sum_lens(files) {
        sum_lens(files) - freed(files, tried)
    } else {
        0
    }
}

proof fn lemma_sum_lens_prefix(files: Seq<CachedFile>, k: int)
    requires
        0 <= k <= files.len(),
    ensures
        sum_lens(files.take(k)) <= sum_lens(files),
    decreases files.len(),
{
    if k < files.len() {
        assert(files.drop_last().take(k) =~= files.take(k));
        lemma_sum_lens_prefix(files.drop_last(), k);
    } else {
        assert(files.take(k) =~= files);
    }
}

/// Caps the preview cache at `max_bytes`: when the files hold more, they are
/// removed oldest first (`remove` removes one and tells whether it could)
/// until what is left fits. Returns the removals tried, in order, with
/// their outcomes; a failed removal frees nothing.
pub fn prune_preview_cache<F: Fn(&str) -> bool>(files: &Vec<CachedFile>, max_bytes: u64, remove: &F) -> (r: Vec<
    (usize, bool),
>)
    requires
        sum_lens(files@) <= u64::MAX,
        forall|x: &str| #[trigger] call_requires(*remove, (x,)),
    ensures
        sum_lens(files@) <= max_bytes ==> r@.len() == 0,
        exists|order: Seq<usize>|
            is_oldest_first(order, files@) && r@.len() <= order.len() && forall|k: int|
                0 <= k < r@.len() ==> (#[trigger] r@[k]).0 == order[k],
        forall|k: int| 0 <= k < r@.len() ==> ran(*remove, files@[(#[trigger] r@[k]).0 as int].path@, r@[k].1),
        forall|k: int| 0 <= k < r@.len() ==> bytes_left(files@, #[trigger] r@.take(k)) > max_bytes,
        r@.len() < files@.len() ==> bytes_left(files@, r@) <= max_bytes,
{
    let mut total: u64 = 0;
    let mut i: usize = 0;
    while i < files.len()
        invariant
            i <= files@.len(),
            total == sum_lens(files@.take(i as int)),
            sum_lens(files@) <= u64::MAX,
        decreases files@.len() - i,
    {
        assert(files@.take(i + 1).drop_last() =~= files@.take(i as int));
        proof {
            lemma_sum_lens_prefix(files@, i + 1);
        }
        total = total + files[i].len;
        i = i + 1;
    }
    assert(files@.take(files@.len() as int) =~= files@);
    let mut tried: Vec<(usize, bool)> = Vec::new();
    let order = oldest_first(files);
    if total <= max_bytes {
        return tried;
    }
    let mut k: usize = 0;
    assert(tried@.take(0) =~= tried@);
    assert(bytes_left(files@, tried@) == total);
    while k < order.len() && total > max_bytes
        invariant
            is_oldest_first(order@, files@),
            k <= order@.len(),
            tried@.len() == k,
            forall|x: &str| #[trigger] call_requires(*remove, (x,)),
            forall|j: int| 0 <= j < k ==> (#[trigger] tried@[j]).0 == order@[j],
            forall|j: int| 0 <= j < k ==> ran(*remove, files@[(#[trigger] tried@[j]).0 as int].path@, tried@[j].1),
            forall|j: int| 0 <= j < k ==> bytes_left(files@, #[trigger] tried@.take(j)) > max_bytes,
            total == bytes_left(files@, tried@),
        decreases order@.len() - k,
    {
        let idx = order[k];
        let ghost before = tried@;
        let gone = remove(files[idx].path.as_str());
        assert(ran(*remove, files@[idx as int].path@, gone));
        tried.push((idx, gone));
        proof {
            assert(tried@.take(k as int) =~= before);
            assert(tried@.drop_last() =~= before);
            assert forall|j: int| 0 <= j < k + 1 implies bytes_left(files@, #[trigger] tried@.take(j)) > max_bytes by {
                if j < k {
                    assert(tried@.take(j) =~= before.take(j));
                }
            }
        }
        if gone {
            total = if files[idx].len <= total { total - files[idx].len } else { 0 };
        }
        k = k + 1;
    }
    tried
}

} // verus!

verus! {

/// How far previewing a video got: it plays as it is; a proxy is there
/// (found in the cache or just made), with or without a poster; FFmpeg is
/// missing; or the proxy could not be made (a poster may still have been).
#[derive(Debug, Clone, Copy)]
pub enum PreviewStep {
    Native,
    Proxy { poster_exists: bool },
    NoFfmpeg,
    RemuxFailed { poster_exists: bool },
}

fn poster_if(poster: &str, exists: bool) -> (o: Option<String>)
    ensures
        exists ==> (o matches Some(p) && p@ == poster@),
        !exists ==> o is None,
{
    if exists {
        Some(String::from_str(poster))
    } else {
        None
    }
}

/// What the player is given for `source` once previewing reached `step`,
/// with `proxy` and `poster` the cache paths of the video.
pub fn preview_info(source: &str, proxy: &str, poster: &str, step: PreviewStep) -> (r: crate::models::VideoPreviewInfo)
    ensures
        r.hint is None,
        match step {
            PreviewStep::Native => r.playback_path@ == source@ && r.poster_path is None && r.preview_mode
                == crate::models::VideoPreviewMode::Native,
            PreviewStep::Proxy { poster_exists } => r.playback_path@ == proxy@ && r.preview_mode
                == crate::models::VideoPreviewMode::Proxy && (if poster_exists {
                r.poster_path matches Some(p) && p@ == poster@
            } else {
                r.poster_path is None
            }),
            PreviewStep::NoFfmpeg => r.playback_path@ == source@ && r.poster_path is None && r.preview_mode
                == crate::models::VideoPreviewMode::Unavailable,
            PreviewStep::RemuxFailed { poster_exists } => r.playback_path@ == source@ && r.preview_mode
                == crate::models::VideoPreviewMode::Unavailable && (if poster_exists {
                r.poster_path matches Some(p) && p@ == poster@
            } else {
                r.poster_path is None
            }),
        },
{
    match step {
        PreviewStep::Native => crate::models::VideoPreviewInfo {
            playback_path: String::from_str(source),
            poster_path: None,
            preview_mode: crate::models::VideoPreviewMode::Native,
            hint: None,
        },
        PreviewStep::Proxy { poster_exists } => crate::models::VideoPreviewInfo {
            playback_path: String::from_str(proxy),
            poster_path: poster_if(poster, poster_exists),
            preview_mode: crate::models::VideoPreviewMode::Proxy,
            hint: None,
        },
        PreviewStep::NoFfmpeg => crate::models::VideoPreviewInfo {
            playback_path: String::from_str(source),
            poster_path: None,
            preview_mode: crate::models::VideoPreviewMode::Unavailable,
            hint: None,
        },
        PreviewStep::RemuxFailed { poster_exists } => crate::models::VideoPreviewInfo {
            playback_path: String::from_str(source),
            poster_path: poster_if(poster, poster_exists),
            preview_mode: crate::models::VideoPreviewMode::Unavailable,
            hint: None,
        },
    }
}

} // verus!
