use vstd::prelude::*;

use crate::domain::{is_app_name, validate_app_name, SpecError};
use crate::exit_status::{exit_code_of, UNKNOWN_EXIT_CODE};
use crate::path::{join, join_path};
use crate::text::{chars_of, push_str, string_of};

verus! {

pub const ENC_FILE_SUFFIX: &'static str = "enc.yaml";
pub const SERVICE_FILE_SUFFIX: &'static str = "yaml";
pub const SOPS_PROGRAM: &'static str = "sops";
pub const SSH_IDENTITY_VARIABLE: &'static str = "SOPS_AGE_SSH_PRIVATE_KEY_FILE";
pub const AGE_IDENTITY_VARIABLE: &'static str = "SOPS_AGE_KEY_FILE";
pub const PATH_VARIABLE: &'static str = "PATH";

/// Why an encrypted environment file could not be read.
#[derive(Debug)]
pub enum EncFileError {
    Unavailable { program: String, path: String, reason: String },
    Stalled { path: String, timeout_ms: u64 },
    Refused { path: String, code: i32 },
    Unreadable { path: String },
    Unreachable { path: String, reason: String },
}

impl EncFileError {
    pub open spec fn path_view(&self) -> Seq<char> {
        match *self {
            EncFileError::Unavailable { path, .. } => path@,
            EncFileError::Stalled { path, .. } => path@,
            EncFileError::Refused { path, .. } => path@,
            EncFileError::Unreadable { path } => path@,
            EncFileError::Unreachable { path, .. } => path@,
        }
    }

    /// The file the error is about.
    pub fn path(&self) -> (r: &str)
        ensures
            r@ == self.path_view(),
    {
        match self {
            EncFileError::Unavailable { path, .. } => path.as_str(),
            EncFileError::Stalled { path, .. } => path.as_str(),
            EncFileError::Refused { path, .. } => path.as_str(),
            EncFileError::Unreadable { path } => path.as_str(),
            EncFileError::Unreachable { path, .. } => path.as_str(),
        }
    }
}

/// The file of an app in the configuration directory: its name, a dot, then
/// the suffix of the kind of file.
pub open spec fn app_file(cfg_dir: Seq<char>, name: Seq<char>, suffix: Seq<char>) -> Seq<char> {
    join_path(cfg_dir, name + seq!['.'] + suffix)
}

fn file_of(cfg_dir: &str, name: &str, suffix: &str) -> (r: Result<String, SpecError>)
    ensures
        r is Ok <==> is_app_name(name@),
        r matches Ok(p) ==> p@ == app_file(cfg_dir@, name@, suffix@),
        r matches Err(SpecError::InvalidName { name: n }) ==> n@ == name@,
{
    validate_app_name(name)?;
    let mut file = chars_of(name);
    file.push('.');
    push_str(&mut file, suffix);
    let file = string_of(&file);
    Ok(join(cfg_dir, &file))
}

/// The encrypted environment file of an app.
pub fn enc_file_of(cfg_dir: &str, name: &str) -> (r: Result<String, SpecError>)
    ensures
        r is Ok <==> is_app_name(name@),
        r matches Ok(p) ==> p@ == app_file(cfg_dir@, name@, ENC_FILE_SUFFIX@),
        r matches Err(SpecError::InvalidName { name: n }) ==> n@ == name@,
{
    file_of(cfg_dir, name, ENC_FILE_SUFFIX)
}

/// The plain environment file of an app.
pub fn env_file_of(cfg_dir: &str, name: &str) -> (r: Result<String, SpecError>)
    ensures
        r is Ok <==> is_app_name(name@),
        r matches Ok(p) ==> p@ == app_file(cfg_dir@, name@, crate::env_file::ENV_FILE_SUFFIX@),
        r matches Err(SpecError::InvalidName { name: n }) ==> n@ == name@,
{
    file_of(cfg_dir, name, crate::env_file::ENV_FILE_SUFFIX)
}

/// The service file of an app.
pub fn service_file_of(cfg_dir: &str, name: &str) -> (r: Result<String, SpecError>)
    ensures
        r is Ok <==> is_app_name(name@),
        r matches Ok(p) ==> p@ == app_file(cfg_dir@, name@, SERVICE_FILE_SUFFIX@),
        r matches Err(SpecError::InvalidName { name: n }) ==> n@ == name@,
{
    file_of(cfg_dir, name, SERVICE_FILE_SUFFIX)
}

/// How encrypted environment files are opened: the program, the identity it
/// decrypts with, the search path it runs with, how long it may take, and
/// the further variables it needs.
pub struct Decryptor<'d> {
    pub program: &'d str,
    pub identity: &'d str,
    pub search_path: &'d str,
    pub timeout_ms: u64,
    pub extra_env: &'d [(String, String)],
}

pub open spec fn pair_views(pairs: Seq<(String, String)>) -> Seq<(Seq<char>, Seq<char>)> {
    pairs.map_values(|p: (String, String)| (p.0@, p.1@))
}

/// The whole environment the decryptor runs with, in the order the variables
/// are set: the further variables, then the identity under both names sops
/// reads, then the search path.
pub fn decrypt_environment(decryptor: &Decryptor) -> (r: Vec<(String, String)>)
    ensures
        pair_views(r@) == pair_views(decryptor.extra_env@) + seq![
            (SSH_IDENTITY_VARIABLE@, decryptor.identity@),
            (AGE_IDENTITY_VARIABLE@, decryptor.identity@),
            (PATH_VARIABLE@, decryptor.search_path@),
        ],
{
    let mut r: Vec<(String, String)> = Vec::new();
    let mut i: usize = 0;
    while i < decryptor.extra_env.len()
        invariant
            i <= decryptor.extra_env.len(),
            pair_views(r@) == pair_views(decryptor.extra_env@).take(i as int),
        decreases decryptor.extra_env.len() - i,
    {
        let (key, value) = &decryptor.extra_env[i];
        let ghost before = pair_views(r@);
        r.push((key.clone(), value.clone()));
        assert(pair_views(r@) =~= before.push((key@, value@)));
        assert(pair_views(decryptor.extra_env@).take(i + 1) =~= pair_views(decryptor.extra_env@).take(
            i as int,
        ).push((key@, value@)));
        i = i + 1;
    }
    assert(pair_views(decryptor.extra_env@).take(decryptor.extra_env.len() as int) =~= pair_views(
        decryptor.extra_env@,
    ));
    let ghost head = pair_views(r@);
    r.push((SSH_IDENTITY_VARIABLE.to_string(), decryptor.identity.to_string()));
    r.push((AGE_IDENTITY_VARIABLE.to_string(), decryptor.identity.to_string()));
    r.push((PATH_VARIABLE.to_string(), decryptor.search_path.to_string()));
    assert(pair_views(r@) =~= head + seq![
        (SSH_IDENTITY_VARIABLE@, decryptor.identity@),
        (AGE_IDENTITY_VARIABLE@, decryptor.identity@),
        (PATH_VARIABLE@, decryptor.search_path@),
    ]);
    r
}

/// The flags that make sops print a decrypted file as dotenv text; the
/// file's path follows them.
pub fn decrypt_flags() -> (r: Vec<String>)
    ensures
        r.deep_view() == seq!["-d"@, "--output-type"@, "dotenv"@],
{
    let mut r: Vec<String> = Vec::new();
    r.push("-d".to_string());
    r.push("--output-type".to_string());
    r.push("dotenv".to_string());
    assert(r.deep_view() =~= seq!["-d"@, "--output-type"@, "dotenv"@]);
    r
}

/// The arguments that make sops print the decrypted file as dotenv text.
pub fn decrypt_arguments(path: &str) -> (r: Vec<String>)
    ensures
        r.deep_view() == seq!["-d"@, "--output-type"@, "dotenv"@, path@],
{
    let mut r: Vec<String> = Vec::new();
    r.push("-d".to_string());
    r.push("--output-type".to_string());
    r.push("dotenv".to_string());
    r.push(path.to_string());
    assert(r.deep_view() =~= seq!["-d"@, "--output-type"@, "dotenv"@, path@]);
    r
}

/// How one run of a helper program ended: it did not answer in time, it
/// could not be started, or it finished with its status and its output as
/// text (`None` when the output was not UTF-8).
#[derive(Debug)]
pub enum RunOutcome {
    Stalled,
    SpawnFailed(String),
    Finished { success: bool, code: Option<i32>, stdout: Option<String> },
}

/// What the decryption of the file shown as `shown` gives, once the
/// decryptor ran.
pub fn decryption_result(decryptor: &Decryptor, shown: &str, outcome: RunOutcome) -> (r: Result<
    String,
    EncFileError,
>)
    ensures
        match outcome {
            RunOutcome::Stalled => r matches Err(EncFileError::Stalled { path, timeout_ms })
                && path@ == shown@ && timeout_ms == decryptor.timeout_ms,
            RunOutcome::SpawnFailed(reason) => r matches Err(
                EncFileError::Unavailable { program, path, reason: why },
            ) && program@ == decryptor.program@ && path@ == shown@ && why == reason,
            RunOutcome::Finished { success, code, stdout } => if !success {
                r matches Err(EncFileError::Refused { path, code: c }) && path@ == shown@ && c
                    == match code {
                    Some(c) => c,
                    None => UNKNOWN_EXIT_CODE,
                }
            } else {
                match stdout {
                    Some(text) => r == Ok::<String, EncFileError>(text),
                    None => r matches Err(EncFileError::Unreadable { path }) && path@ == shown@,
                }
            },
        },
{
    match outcome {
        RunOutcome::Stalled => Err(
            EncFileError::Stalled { path: shown.to_string(), timeout_ms: decryptor.timeout_ms },
        ),
        RunOutcome::SpawnFailed(reason) => Err(
            EncFileError::Unavailable {
                program: decryptor.program.to_string(),
                path: shown.to_string(),
                reason,
            },
        ),
        RunOutcome::Finished { success, code, stdout } => {
            if !success {
                return Err(
                    EncFileError::Refused { path: shown.to_string(), code: exit_code_of(code) },
                );
            }
            match stdout {
                Some(text) => Ok(text),
                None => Err(EncFileError::Unreadable { path: shown.to_string() }),
            }
        },
    }
}


/// The stem of the environment files every app inherits.
pub const GLOBAL_ENV_STEM: &'static str = "pm3";

/// What an encrypted environment file gave: its values, nothing because no
/// identity can open it, or nothing because there is no such file.
#[derive(Debug)]
pub enum Opened {
    Values(Vec<(String, String)>),
    Sealed,
    Absent,
}

/// What is known of an encrypted environment file before it is decrypted:
/// absent when there is none, sealed when no identity is configured; `None`
/// when it has to be decrypted.
pub fn closed_secrets(present: bool, identity: &str) -> (r: Option<Opened>)
    ensures
        !present ==> r matches Some(Opened::Absent),
        present && identity@.len() == 0 ==> r matches Some(Opened::Sealed),
        present && identity@.len() > 0 ==> r is None,
{
    if !present {
        return Some(Opened::Absent);
    }
    if identity.is_empty() {
        return Some(Opened::Sealed);
    }
    None
}

} // verus!
