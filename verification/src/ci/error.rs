//! The CI runner's errors, each with the text it is reported with.
use vstd::prelude::*;
use vstd::string::*;

verus! {

/// What went wrong. Errors of the file system, of the TOML reader and of spawned
/// processes are carried as their message.
#[derive(Debug)]
pub enum CiError {
    ConfigIo { path: String, detail: String },
    ConfigParse { detail: String },
    ConfigValidation { detail: String },
    Git { context: String, detail: String },
    JobSpawn { job_name: String, detail: String },
    JobIo { job_name: String, detail: String },
    Ipc { detail: String },
    SocketBind { path: String, detail: String },
    SocketConnect { path: String, detail: String },
    Internal { detail: String },
}

/// The message an error is reported with.
pub open spec fn ci_error_message(e: CiError) -> Seq<char> {
    match e {
        CiError::ConfigIo { path, detail } => "failed to read config '"@ + path@ + "': "@ + detail@,
        CiError::ConfigParse { detail } => "failed to parse config: "@ + detail@,
        CiError::ConfigValidation { detail } => "config validation error: "@ + detail@,
        CiError::Git { context, detail } => "git error ("@ + context@ + "): "@ + detail@,
        CiError::JobSpawn { job_name, detail } => "failed to spawn job '"@ + job_name@ + "': "@ + detail@,
        CiError::JobIo { job_name, detail } => "I/O error in job '"@ + job_name@ + "': "@ + detail@,
        CiError::Ipc { detail } => "IPC error: "@ + detail@,
        CiError::SocketBind { path, detail } => "failed to bind unix socket '"@ + path@ + "': "@ + detail@,
        CiError::SocketConnect { path, detail } => "failed to connect to daemon socket '"@ + path@ + "': "@ + detail@,
        CiError::Internal { detail } => "internal error: "@ + detail@,
    }
}

fn cat2(a: &str, b: &str) -> (r: String)
    ensures
        r@ == a@ + b@,
{
    let mut out = String::from_str(a);
    out.append(b);
    out
}

fn cat4(a: &str, b: &str, c: &str, d: &str) -> (r: String)
    ensures
        r@ == a@ + b@ + c@ + d@,
{
    let mut out = String::from_str(a);
    out.append(b);
    out.append(c);
    out.append(d);
    out
}

impl CiError {
    /// The message the error is reported with (see `ci_error_message`).
    pub fn message(&self) -> (r: String)
        ensures
            r@ == ci_error_message(*self),
    {
        match self {
            CiError::ConfigIo { path, detail } => cat4("failed to read config '", path.as_str(), "': ", detail.as_str()),
            CiError::ConfigParse { detail } => cat2("failed to parse config: ", detail.as_str()),
            CiError::ConfigValidation { detail } => cat2("config validation error: ", detail.as_str()),
            CiError::Git { context, detail } => cat4("git error (", context.as_str(), "): ", detail.as_str()),
            CiError::JobSpawn { job_name, detail } => cat4("failed to spawn job '", job_name.as_str(), "': ", detail.as_str()),
            CiError::JobIo { job_name, detail } => cat4("I/O error in job '", job_name.as_str(), "': ", detail.as_str()),
            CiError::Ipc { detail } => cat2("IPC error: ", detail.as_str()),
            CiError::SocketBind { path, detail } => cat4("failed to bind unix socket '", path.as_str(), "': ", detail.as_str()),
            CiError::SocketConnect { path, detail } => cat4("failed to connect to daemon socket '", path.as_str(), "': ", detail.as_str()),
            CiError::Internal { detail } => cat2("internal error: ", detail.as_str()),
        }
    }
}

} // verus!
