//! Core logic of a keyboard-helper daemon: kernel-assisted scancode
//! remapping, discovery of the HID controller and its input nodes, the
//! fn-lock feature report, and the shared toggle state that concurrent
//! per-device dispatchers drive.
//!
//! Everything here is pure computation over plain values; the surrounding
//! binary performs the device and file I/O and hands the results in.

use vstd::prelude::*;

pub mod apkt_config;
pub mod bpf_loader;
pub mod bytes;
pub mod config;
pub mod dispatch;
pub mod kb_illumination;
pub mod state;
pub mod hid;

verus! {

/// How an operation of this library fails.
///
/// `NotFound`: no device or interface matched the search criteria.
/// `ParseError`: a textual or numeric field could not be interpreted.
#[derive(Clone, Copy, Debug, PartialEq, Eq, Structural)]
pub enum Error {
    NotFound,
    ParseError,
}

/// What a command line asks the process to do.
#[derive(Clone, Copy, Debug, PartialEq, Eq, Structural)]
pub enum CliMode {
    /// Run the daemon.
    Run,
    /// Run the one-shot restore path and exit.
    Restore,
    /// An unrecognised second argument: print usage and exit.
    Invalid,
    /// More arguments than the command line takes: print usage and exit.
    TooMany,
}

/// The decision taken from a command line.
pub struct CliChoice {
    pub mode: CliMode,
    pub config_path: String,
}

/// Decides what to do from the raw argument list (the process name
/// included as its first element): an optional configuration path comes
/// first, an optional `restore` word second, and anything beyond that is
/// rejected.
pub fn parse_cli(args: &Vec<String>) -> (r: CliChoice)
    ensures
        args@.len() >= 2 ==> r.config_path == args@[1],
        args@.len() < 2 ==> r.config_path@ == "asus-px-keyboard-tool.conf"@,
        r.mode == (if args@.len() > 3 {
            CliMode::TooMany
        } else if args@.len() == 3 {
            if args@[2]@ == "restore"@ {
                CliMode::Restore
            } else {
                CliMode::Invalid
            }
        } else {
            CliMode::Run
        }),
{
    let config_path = if args.len() >= 2 {
        args[1].clone()
    } else {
        "asus-px-keyboard-tool.conf".to_owned()
    };
    let mode = if args.len() > 3 {
        CliMode::TooMany
    } else if args.len() == 3 {
        if crate::state::str_eq(args[2].as_str(), "restore") {
            CliMode::Restore
        } else {
            CliMode::Invalid
        }
    } else {
        CliMode::Run
    };
    CliChoice { mode, config_path }
}

} // verus!
