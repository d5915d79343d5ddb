//! What background tasks report to the UI.

use uuid::Uuid;
use vstd::prelude::*;

verus! {

pub const EVT_INSTALL_PROGRESS: &'static str = "install://progress";

pub const EVT_LAUNCH_EXITED: &'static str = "launch://exited";

pub const EVT_PROXY_CHANGED: &'static str = "proxy://changed";

/// `Uuid::new_v4().to_string()` (uuid): a fresh random identifier in the
/// hyphenated form, 36 characters, that reads back as a version-4 UUID.
/// Which one it is, is chance.
#[verifier::external_body]
fn random_uuid_text() -> (r: String)
    ensures
        r@.len() == 36,
        uuid_version(r@) == Some(4usize),
{
    Uuid::new_v4().to_string()
}

/// The version number of the UUID `s` spells, if `Uuid::parse_str`
/// accepts it.
pub uninterp spec fn uuid_version(s: Seq<char>) -> Option<usize>;

/// `Uuid::parse_str(s)` (uuid), then `get_version_num()` of the result.
#[verifier::external_body]
pub(crate) fn uuid_version_of(s: &str) -> (r: Option<usize>)
    ensures
        r == uuid_version(s@),
{
    Uuid::parse_str(s).ok().map(|u| u.get_version_num())
}

/// A new install job identifier.
pub fn new_job_id() -> (r: String)
    ensures
        r@.len() == 36,
        uuid_version(r@) == Some(4usize),
{
    random_uuid_text()
}

/// Where an install job stands.
#[derive(Debug, Clone)]
pub enum InstallPhase {
    Preparing,
    Downloading,
    MergingParts,
    Verifying,
    Complete,
    Failed { reason: String },
    Cancelled,
}

/// A progress report of an install job.
#[derive(Debug, Clone)]
pub struct ProgressEvent {
    pub job_id: String,
    pub phase: InstallPhase,
    pub file_index: usize,
    pub file_count: usize,
    pub bytes_done: u64,
    pub bytes_total: u64,
    pub current_file: String,
    pub speed_bps: u64,
    pub eta_seconds: u64,
}

impl ProgressEvent {
    /// A report of `phase` with no counts yet.
    pub fn empty(job_id: String, phase: InstallPhase) -> (e: Self)
        ensures
            e.job_id@ == job_id@,
            e.phase == phase,
            e.file_index == 0,
            e.file_count == 0,
            e.bytes_done == 0,
            e.bytes_total == 0,
            e.current_file@.len() == 0,
            e.speed_bps == 0,
            e.eta_seconds == 0,
    {
        ProgressEvent {
            job_id,
            phase,
            file_index: 0,
            file_count: 0,
            bytes_done: 0,
            bytes_total: 0,
            current_file: String::new(),
            speed_bps: 0,
            eta_seconds: 0,
        }
    }
}

/// The game process has exited.
#[derive(Debug, Clone, Copy)]
pub struct LaunchExitedEvent {
    pub pid: u32,
    pub code: Option<i32>,
    pub success: bool,
}

} // verus!
