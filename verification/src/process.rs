//! Starting EA App before the game: what to do after each look at the
//! process list and at EA App's data folder.

use crate::error::AppError;
use crate::text::{chars_of, ends_with, ends_with_seq, eq_ic, eq_ignore_case, starts_with, starts_with_seq};
use vstd::prelude::*;

verus! {

/// EA App's process name.
pub const EA_PROCESS_NAME: &'static str = "eadesktop.exe";

/// Pause between two looks, in milliseconds.
pub const POLL_INTERVAL_MS: u64 = 500;

/// How long EA App's process may take to appear, in milliseconds.
pub const WAIT_TIMEOUT_MS: u64 = 5000;

/// How long a sign-in may take, in milliseconds.
pub const LOGIN_WAIT_TIMEOUT_MS: u64 = 15000;

/// Whether a process is EA App (its name, ignoring ASCII case).
pub fn is_ea_process(name: &str) -> (b: bool)
    ensures
        b == eq_ic(name@, EA_PROCESS_NAME@),
{
    let n = chars_of(name);
    let e = chars_of(EA_PROCESS_NAME);
    eq_ignore_case(&n, &e)
}

/// Whether a file in EA App's data folder shows a signed-in user: a
/// non-empty regular file named `user_*.ini`.
pub fn is_login_marker(file_name: &str, is_file: bool, size: u64) -> (b: bool)
    ensures
        b == (starts_with(file_name@, "user_"@) && ends_with(file_name@, ".ini"@) && is_file && size
            > 0),
{
    let n = chars_of(file_name);
    let head = chars_of("user_");
    let tail = chars_of(".ini");
    starts_with_seq(&n, &head) && ends_with_seq(&n, &tail) && is_file && size > 0
}

/// Where the wait for EA App stands.
#[derive(Debug, Clone, Copy, PartialEq, Eq, Structural)]
pub enum EaStage {
    /// Nothing done yet.
    Check,
    /// EA App was started; waiting for its process.
    AwaitProcess,
    /// EA App runs; waiting for a signed-in user.
    AwaitLogin,
}

/// What to do next.
#[derive(Debug)]
pub enum EaStep {
    /// Start EA App (a failure to start ends the launch), then go on in the
    /// given stage.
    Start(EaStage),
    /// Start EA App again to bring it forward, ignoring a failure, then go
    /// on in the given stage.
    Nudge(EaStage),
    /// Look again in the given stage: at once when the stage changes, else
    /// after the poll interval.
    Poll(EaStage),
    /// EA App runs with a signed-in user.
    Ready,
    /// Give up with this error.
    Fail(AppError),
}

pub open spec fn process_missing_text() -> Seq<char> {
    "EA App 已尝试启动，但进程没有出现。请手动打开 EA App 后重试。"@
}

pub open spec fn login_missing_text() -> Seq<char> {
    "EA App 已打开，但尚未检测到登录用户。请先在 EA App 完成登录后再启动游戏。"@
}

/// The next step, from the stage and what the last look saw: whether EA
/// App's process runs, whether a user is signed in, and whether the
/// stage's time is up.
pub fn ea_step(stage: EaStage, running: bool, logged_in: bool, timed_out: bool) -> (s: EaStep)
    ensures
        match stage {
            EaStage::Check => if !running {
                s matches EaStep::Start(EaStage::AwaitProcess)
            } else if !logged_in {
                s matches EaStep::Nudge(EaStage::AwaitLogin)
            } else {
                s matches EaStep::Ready
            },
            EaStage::AwaitProcess => if running {
                if logged_in {
                    s matches EaStep::Ready
                } else {
                    s matches EaStep::Poll(EaStage::AwaitLogin)
                }
            } else if timed_out {
                s matches EaStep::Fail(AppError::Other(m)) && m@ == process_missing_text()
            } else {
                s matches EaStep::Poll(EaStage::AwaitProcess)
            },
            EaStage::AwaitLogin => if logged_in {
                s matches EaStep::Ready
            } else if timed_out {
                s matches EaStep::Fail(AppError::Other(m)) && m@ == login_missing_text()
            } else {
                s matches EaStep::Poll(EaStage::AwaitLogin)
            },
        },
{
    match stage {
        EaStage::Check => {
            if !running {
                EaStep::Start(EaStage::AwaitProcess)
            } else if !logged_in {
                EaStep::Nudge(EaStage::AwaitLogin)
            } else {
                EaStep::Ready
            }
        },
        EaStage::AwaitProcess => {
            if running {
                if logged_in {
                    EaStep::Ready
                } else {
                    EaStep::Poll(EaStage::AwaitLogin)
                }
            } else if timed_out {
                EaStep::Fail(AppError::other("EA App 已尝试启动，但进程没有出现。请手动打开 EA App 后重试。"))
            } else {
                EaStep::Poll(EaStage::AwaitProcess)
            }
        },
        EaStage::AwaitLogin => {
            if logged_in {
                EaStep::Ready
            } else if timed_out {
                EaStep::Fail(AppError::other("EA App 已打开，但尚未检测到登录用户。请先在 EA App 完成登录后再启动游戏。"))
            } else {
                EaStep::Poll(EaStage::AwaitLogin)
            }
        },
    }
}

} // verus!
