//! The launcher's error type.

use crate::text::{join_str, starts_with, string_from_str};
use vstd::prelude::*;

verus! {

#[verifier::external_type_specification]
#[verifier::external_body]
pub struct ExIoError(std::io::Error);

/// `std::io::Error`'s `Display`.  Its text comes from the operating system,
/// so nothing is stated of it.
#[verifier::external_body]
fn io_error_text(e: &std::io::Error) -> String {
    e.to_string()
}

/// Every error the launcher reports.
#[derive(Debug)]
pub enum AppError {
    Io(std::io::Error),
    Http(String),
    Manifest(String),
    Verification { path: String, expected: String, actual: String },
    Settings(String),
    InvalidPath(String),
    Cancelled,
    NotFound(String),
    Other(String),
}

pub type AppResult<T> = Result<T, AppError>;

/// The text of a message-carrying error, as `Display` writes it.
pub open spec fn message_spec(e: AppError) -> Seq<char> {
    match e {
        AppError::Io(_) => Seq::empty(),
        AppError::Http(s) => "网络错误: "@ + s@,
        AppError::Manifest(s) => "清单错误: "@ + s@,
        AppError::Verification { path, .. } => "校验失败: "@ + path@,
        AppError::Settings(s) => "设置错误: "@ + s@,
        AppError::InvalidPath(s) => "路径无效: "@ + s@,
        AppError::Cancelled => "已取消"@,
        AppError::NotFound(s) => "未找到: "@ + s@,
        AppError::Other(s) => s@,
    }
}

/// The `kind` tag that the IPC layer sends with each error.
pub open spec fn kind_spec(e: AppError) -> Seq<char> {
    match e {
        AppError::Io(_) => "io"@,
        AppError::Http(_) => "http"@,
        AppError::Manifest(_) => "manifest"@,
        AppError::Verification { .. } => "verification"@,
        AppError::Settings(_) => "settings"@,
        AppError::InvalidPath(_) => "invalid_path"@,
        AppError::Cancelled => "cancelled"@,
        AppError::NotFound(_) => "not_found"@,
        AppError::Other(_) => "other"@,
    }
}

impl AppError {
    pub fn other(s: &str) -> (e: Self)
        ensures
            e matches AppError::Other(m) && m@ == s@,
    {
        AppError::Other(string_from_str(s))
    }

    pub fn settings(s: &str) -> (e: Self)
        ensures
            e matches AppError::Settings(m) && m@ == s@,
    {
        AppError::Settings(string_from_str(s))
    }

    pub fn http(s: &str) -> (e: Self)
        ensures
            e matches AppError::Http(m) && m@ == s@,
    {
        AppError::Http(string_from_str(s))
    }

    /// The `kind` tag sent to the UI.
    pub fn kind(&self) -> (k: &'static str)
        ensures
            k@ == kind_spec(*self),
    {
        match self {
            AppError::Io(_) => "io",
            AppError::Http(_) => "http",
            AppError::Manifest(_) => "manifest",
            AppError::Verification { .. } => "verification",
            AppError::Settings(_) => "settings",
            AppError::InvalidPath(_) => "invalid_path",
            AppError::Cancelled => "cancelled",
            AppError::NotFound(_) => "not_found",
            AppError::Other(_) => "other",
        }
    }

    /// The user-facing message (what `Display` prints).
    pub fn message(&self) -> (m: String)
        ensures
            match *self {
                AppError::Io(_) => starts_with(m@, "IO 错误: "@),
                _ => m@ == message_spec(*self),
            },
    {
        match self {
            AppError::Io(e) => {
                let t = io_error_text(e);
                let r = join_str("IO 错误: ", t.as_str());
                proof {
                    assert(r@.take("IO 错误: "@.len() as int) =~= "IO 错误: "@);
                }
                r
            },
            AppError::Http(s) => join_str("网络错误: ", s.as_str()),
            AppError::Manifest(s) => join_str("清单错误: ", s.as_str()),
            AppError::Verification { path, .. } => join_str("校验失败: ", path.as_str()),
            AppError::Settings(s) => join_str("设置错误: ", s.as_str()),
            AppError::InvalidPath(s) => join_str("路径无效: ", s.as_str()),
            AppError::Cancelled => string_from_str("已取消"),
            AppError::NotFound(s) => join_str("未找到: ", s.as_str()),
            AppError::Other(s) => s.clone(),
        }
    }

    pub fn is_cancelled(&self) -> (b: bool)
        ensures
            b == (*self is Cancelled),
    {
        matches!(self, AppError::Cancelled)
    }
}

impl From<std::io::Error> for AppError {
    fn from(e: std::io::Error) -> (r: Self) {
        AppError::Io(e)
    }
}

impl vstd::std_specs::convert::FromSpecImpl<std::io::Error> for AppError {
    open spec fn obeys_from_spec() -> bool {
        true
    }

    open spec fn from_spec(v: std::io::Error) -> AppError {
        AppError::Io(v)
    }
}

} // verus!
