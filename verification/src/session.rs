//! Where a folder's session and the app's settings are kept.
use vstd::prelude::*;
use crate::text::{chars_of, string_of};
use crate::path_text::{join, join_chars, with_extension, with_extension_chars};
use crate::batch::runner::APP_FOLDER_NAME;

verus! {

pub const SESSION_FILE: &'static str = "session.json";
pub const SETTINGS_FILE: &'static str = "settings.json";

/// The app's folder inside an album folder.
pub fn session_dir_for(folder: &str) -> (r: String)
    ensures
        r@ == join(folder@, APP_FOLDER_NAME@),
{
    let f = chars_of(folder);
    let a = chars_of(APP_FOLDER_NAME);
    let j = join_chars(f.as_slice(), a.as_slice());
    string_of(j.as_slice())
}

/// The session file of an album folder.
pub fn session_file_for(folder: &str) -> (r: String)
    ensures
        r@ == join(join(folder@, APP_FOLDER_NAME@), SESSION_FILE@),
{
    let d = session_dir_for(folder);
    let dc = chars_of(d.as_str());
    let s = chars_of(SESSION_FILE);
    let j = join_chars(dc.as_slice(), s.as_slice());
    string_of(j.as_slice())
}

/// The settings file inside the app's data folder.
pub fn settings_file_for(app_data_dir: &str) -> (r: String)
    ensures
        r@ == join(app_data_dir@, SETTINGS_FILE@),
{
    let d = chars_of(app_data_dir);
    let s = chars_of(SETTINGS_FILE);
    let j = join_chars(d.as_slice(), s.as_slice());
    string_of(j.as_slice())
}

/// Where a file is written before it is renamed over `path`: a plain write
/// truncates first, so an interrupted one would leave a half-written file.
pub fn temporary_path(path: &str) -> (r: String)
    ensures
        r@ == with_extension(path@, "tmp"@),
{
    let p = chars_of(path);
    let e = chars_of("tmp");
    let t = with_extension_chars(p.as_slice(), e.as_slice());
    string_of(t.as_slice())
}

/// Where an unreadable settings file is kept instead of being overwritten.
pub fn corrupt_copy_path(path: &str) -> (r: String)
    ensures
        r@ == with_extension(path@, "json.corrupt"@),
{
    let p = chars_of(path);
    let e = chars_of("json.corrupt");
    let t = with_extension_chars(p.as_slice(), e.as_slice());
    string_of(t.as_slice())
}

} // verus!
