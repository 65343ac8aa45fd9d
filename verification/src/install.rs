use vstd::prelude::*;

use crate::domain::{is_name_letter, is_name_letter_exec};
use crate::path::{join, join_path};
use crate::text::{chars_of, push_str, string_of, words, words_exec};

verus! {

pub const DEFAULT_DESTINATION: &'static str = "bin/pm3";
pub const BACKUP_DIRECTORY: &'static str = "install-backups";
pub const UNKNOWN_VERSION: &'static str = "unknown";
pub const INCOMING_SUFFIX: &'static str = ".incoming";

/// Why pm3 could not install itself.
#[derive(Debug)]
pub enum InstallError {
    DestinationHome,
    BackupDirectory { path: String, reason: String },
    Backup { path: String, reason: String },
    Replace { path: String, reason: String },
}

impl InstallError {
    /// The backup directory at `path` could not be made.
    pub fn backup_directory(path: &str, reason: &str) -> (r: InstallError)
        ensures
            r matches InstallError::BackupDirectory { path: p, reason: why } && p@ == path@
                && why@ == reason@,
    {
        InstallError::BackupDirectory { path: path.to_string(), reason: reason.to_string() }
    }

    /// The file at `path` could not be backed up.
    pub fn backup(path: &str, reason: String) -> (r: InstallError)
        ensures
            r matches InstallError::Backup { path: p, reason: why } && p@ == path@ && why
                == reason,
    {
        InstallError::Backup { path: path.to_string(), reason }
    }

    /// The file at `path` could not be copied or replaced.
    pub fn replace(path: &str, reason: &str) -> (r: InstallError)
        ensures
            r matches InstallError::Replace { path: p, reason: why } && p@ == path@ && why@
                == reason@,
    {
        InstallError::Replace { path: path.to_string(), reason: reason.to_string() }
    }
}

/// A declared path, when one is given and it is not empty.
pub open spec fn declared_path(declared: Option<&str>) -> Option<Seq<char>> {
    match declared {
        Some(p) => if p@.len() > 0 {
            Some(p@)
        } else {
            None
        },
        None => None,
    }
}

/// Where the binary goes: the declared path when one is given, else
/// `bin/pm3` under the home directory.
pub fn destination_of(declared: Option<&str>, home_env: Option<&str>) -> (r: Result<
    String,
    InstallError,
>)
    ensures
        match declared_path(declared) {
            Some(p) => r matches Ok(d) && d@ == p,
            None => match home_env {
                Some(home) => r matches Ok(d) && d@ == join_path(home@, DEFAULT_DESTINATION@),
                None => r matches Err(InstallError::DestinationHome),
            },
        },
{
    if let Some(path) = declared {
        if !path.is_empty() {
            return Ok(path.to_string());
        }
    }
    match home_env {
        Some(home) => Ok(join(home, DEFAULT_DESTINATION)),
        None => Err(InstallError::DestinationHome),
    }
}

/// Where backups go: the declared directory, else `install-backups` under
/// pm3's home.
pub fn backup_root(declared: Option<&str>, pm3_home: &str) -> (r: String)
    ensures
        r@ == match declared_path(declared) {
            Some(p) => p,
            None => join_path(pm3_home@, BACKUP_DIRECTORY@),
        },
{
    if let Some(path) = declared {
        if !path.is_empty() {
            return path.to_string();
        }
    }
    join(pm3_home, BACKUP_DIRECTORY)
}

/// Whether a version can name a backup: not empty, and made of name letters.
pub open spec fn usable_version(version: Seq<char>) -> bool {
    version.len() > 0 && forall|i: int| 0 <= i < version.len() ==> is_name_letter(#[trigger] version[i])
}

fn is_usable(version: &[char]) -> (r: bool)
    ensures
        r == usable_version(version@),
{
    if version.len() == 0 {
        return false;
    }
    let mut i: usize = 0;
    while i < version.len()
        invariant
            i <= version.len(),
            forall|k: int| 0 <= k < i ==> is_name_letter(#[trigger] version@[k]),
        decreases version.len() - i,
    {
        if !is_name_letter_exec(version[i]) {
            return false;
        }
        i = i + 1;
    }
    true
}

/// The name of a backup: the version when it is usable, else `unknown`.
pub fn backup_name(version: Option<&str>) -> (r: String)
    ensures
        r@ == match version {
            Some(v) => if usable_version(v@) {
                v@
            } else {
                UNKNOWN_VERSION@
            },
            None => UNKNOWN_VERSION@,
        },
{
    if let Some(v) = version {
        let chars = chars_of(v);
        if is_usable(&chars) {
            return v.to_string();
        }
    }
    UNKNOWN_VERSION.to_string()
}

/// The version a binary printed: the last word of its output, when usable.
pub open spec fn version_in(stdout: Seq<char>) -> Option<Seq<char>> {
    let w = words(stdout);
    if w.len() > 0 && usable_version(w.last()) {
        Some(w.last())
    } else {
        None
    }
}

/// Reads the version out of what `pm3 --version` printed.
pub fn parse_version_output(stdout: &str) -> (r: Option<String>)
    ensures
        r.deep_view() == version_in(stdout@),
{
    let text = chars_of(stdout);
    let w = words_exec(&text);
    if w.len() == 0 {
        return None;
    }
    let last = &w[w.len() - 1];
    assert(last@ == words(stdout@).last());
    if is_usable(last) {
        Some(string_of(last))
    } else {
        None
    }
}

/// Where a new binary is staged before it replaces the one at `destination`.
pub fn staged_path(destination: &str) -> (r: String)
    ensures
        r@ == destination@ + INCOMING_SUFFIX@,
{
    let mut out = chars_of(destination);
    push_str(&mut out, INCOMING_SUFFIX);
    string_of(&out)
}

} // verus!
