//! The gateway under test as a child process: where its binary is looked for,
//! when it counts as up, and how it is reaped.

use vstd::prelude::*;
use crate::soak::config_gen::{below, join};
use crate::text::{decimal, push_decimal};

verus! {

/// Where the binary is looked for, in order.
pub fn binary_candidates(target_dir: &str) -> (out: (String, String))
    ensures
        out.0@ == below(below(target_dir@, "release"@), "expressgateway"@),
        out.1@ == below(below(target_dir@, "debug"@), "expressgateway"@),
{
    (
        join(&join(target_dir, "release"), "expressgateway"),
        join(&join(target_dir, "debug"), "expressgateway"),
    )
}

/// The message when there is none.
pub fn binary_missing(target_dir: &str) -> (out: String)
    ensures
        out@ == "expressgateway binary not found under "@ + target_dir@
            + "; run `cargo build --release -p lb --bin expressgateway` first"@,
{
    let mut out: String = "expressgateway binary not found under ".to_owned();
    out.append(target_dir);
    out.append("; run `cargo build --release -p lb --bin expressgateway` first");
    out
}

/// What follows a look at a gateway that boots.
#[derive(Debug, Clone, Copy, PartialEq, Eq, Structural)]
pub enum BootStep {
    /// It took too long: it is ended, and that is an error.
    Expired,
    /// It ended by itself, which is an error.
    Exited,
    /// It answers.
    Ready,
    /// It is looked at again.
    Wait,
}

/// What follows a look at a gateway that boots: its time is looked at first,
/// then the process, then whether it answers with a success.
pub fn boot_step(expired: bool, exited: bool, status: Option<u16>) -> (r: BootStep)
    ensures
        r == if expired {
            BootStep::Expired
        } else if exited {
            BootStep::Exited
        } else if status matches Some(s) && 200 <= s <= 299 {
            BootStep::Ready
        } else {
            BootStep::Wait
        },
{
    if expired {
        return BootStep::Expired;
    }
    if exited {
        return BootStep::Exited;
    }
    match status {
        Some(s) => if 200 <= s && s <= 299 {
            BootStep::Ready
        } else {
            BootStep::Wait
        },
        None => BootStep::Wait,
    }
}

/// What a look at a child that was told to end showed.
#[derive(Debug, Clone, Copy, PartialEq, Eq, Structural)]
pub enum ChildLook {
    Ended,
    Running,
    Unknown,
}

/// What follows it.
#[derive(Debug, Clone, Copy, PartialEq, Eq, Structural)]
pub enum ReapStep {
    Done,
    /// It is killed and waited for.
    Kill,
    /// It is looked at again.
    Wait,
}

/// What follows a look at a child that was told to end. It is killed once its
/// time is over, so that no child outlives the run.
pub fn reap_step(look: ChildLook, expired: bool) -> (r: ReapStep)
    ensures
        r == match look {
            ChildLook::Ended | ChildLook::Unknown => ReapStep::Done,
            ChildLook::Running => if expired {
                ReapStep::Kill
            } else {
                ReapStep::Wait
            },
        },
{
    match look {
        ChildLook::Ended => ReapStep::Done,
        ChildLook::Unknown => ReapStep::Done,
        ChildLook::Running => if expired {
            ReapStep::Kill
        } else {
            ReapStep::Wait
        },
    }
}

/// The loopback address of a port.
pub fn loopback(port: u16) -> (out: String)
    ensures
        out@ == "127.0.0.1:"@ + decimal(port as nat),
{
    let mut out: String = "127.0.0.1:".to_owned();
    push_decimal(&mut out, port as u64);
    out
}

/// When a gateway that is starting counts as ready: once its status is a success,
/// and neither its time is up nor it has ended, which are told apart in this
/// order; when a gateway that is ending is killed: exactly while it still runs
/// with its time up.
pub proof fn law_child_course(
    expired: bool,
    exited: bool,
    status: Option<u16>,
    b: BootStep,
    look: ChildLook,
    late: bool,
    e: ReapStep,
)
    requires
        call_ensures(boot_step, (expired, exited, status), b),
        call_ensures(reap_step, (look, late), e),
    ensures
        b == BootStep::Expired <==> expired,
        b == BootStep::Exited <==> !expired && exited,
        b == BootStep::Ready <==> !expired && !exited && status is Some && 200 <= status->0 < 300,
        e == ReapStep::Kill <==> look is Running && late,
        e == ReapStep::Wait <==> look is Running && !late,
{
}

} // verus!
