//! How the program starts: in the foreground or as a daemon.
use vstd::prelude::*;

verus! {

/// The environment variable that asks for a daemon.
pub const DAEMON_VARIABLE: &'static str = "PARADISE_PROXY_DAEMON";

/// The address the server listens on.
pub const LISTEN_ADDRESS: &'static str = "0.0.0.0:8010";

/// The path the video site's routes are mounted under.
pub const MOUNT_PATH: &'static str = "/pornlulu";

/// How to start.
#[derive(Debug)]
pub enum Launch {
    /// Run the server in this process.
    Serve,
    /// Detach as a daemon (working directory `.`), then run the server.
    Daemonize,
}

/// A daemon is asked for exactly when the variable is set to `true`.
pub open spec fn daemon_asked(value: Option<Seq<char>>) -> bool {
    value == Some("true"@)
}

/// Whether the value of the daemon variable (if it is set and valid Unicode)
/// asks for a daemon.
pub fn daemon_requested(value: Option<String>) -> (b: bool)
    ensures
        b == daemon_asked(
            match value {
                Some(v) => Some(v@),
                None => None,
            },
        ),
{
    match value {
        Some(v) => {
            let t = "true".to_owned();
            v == t
        },
        None => false,
    }
}

/// How to start: on Windows always in the foreground; elsewhere as a daemon
/// when the daemon variable asks for it.
pub fn launch_plan(windows: bool, daemon_value: Option<String>) -> (l: Launch)
    ensures
        l is Daemonize <==> !windows && daemon_asked(
            match daemon_value {
                Some(v) => Some(v@),
                None => None,
            },
        ),
{
    if windows {
        Launch::Serve
    } else if daemon_requested(daemon_value) {
        Launch::Daemonize
    } else {
        Launch::Serve
    }
}

/// The line reported when detaching failed with an error that displays `err`.
pub fn daemon_failure_line(err: &str) -> (r: String)
    ensures
        r@ == "Err: "@ + err@,
{
    let mut r = "Err: ".to_owned();
    r.append(err);
    r
}

} // verus!
