//! The errors of the library, with the paths and I/O messages they concern
//! held as text.

use vstd::prelude::*;

verus! {

/// Why an operation failed. Paths are their display text; an I/O error is
/// its message.
#[derive(Debug, Clone, PartialEq, Eq)]
pub enum VaultError {
    Io(String),
    FileLocked(String),
    FileNameTooLong(String),
    PathTooLong(String),
    AlreadyEncrypted(String),
    InvalidPassword,
    CorruptedMetadata(String),
    DiskFull,
}

pub type Result<T> = core::result::Result<T, VaultError>;

/// The text of an error, as the user sees it.
pub open spec fn spec_message(e: VaultError) -> Seq<char> {
    match e {
        VaultError::Io(m) => "IO error: "@ + m@,
        VaultError::FileLocked(p) => "文件被占用: "@ + p@,
        VaultError::FileNameTooLong(p) => "加密后文件名过长: "@ + p@,
        VaultError::PathTooLong(p) => "路径过长: "@ + p@,
        VaultError::AlreadyEncrypted(p) => "文件已加密: "@ + p@,
        VaultError::InvalidPassword => "密码不正确"@,
        VaultError::CorruptedMetadata(p) => "元数据损坏: "@ + p@,
        VaultError::DiskFull => "磁盘空间不足"@,
    }
}

impl VaultError {
    /// The text of the error, as the user sees it.
    pub fn message(&self) -> (s: String)
        ensures
            s@ == spec_message(*self),
    {
        match self {
            VaultError::Io(m) => String::from_str("IO error: ").concat(m.as_str()),
            VaultError::FileLocked(p) => String::from_str("文件被占用: ").concat(p.as_str()),
            VaultError::FileNameTooLong(p) => String::from_str("加密后文件名过长: ").concat(p.as_str()),
            VaultError::PathTooLong(p) => String::from_str("路径过长: ").concat(p.as_str()),
            VaultError::AlreadyEncrypted(p) => String::from_str("文件已加密: ").concat(p.as_str()),
            VaultError::InvalidPassword => String::from_str("密码不正确"),
            VaultError::CorruptedMetadata(p) => String::from_str("元数据损坏: ").concat(p.as_str()),
            VaultError::DiskFull => String::from_str("磁盘空间不足"),
        }
    }

    /// The I/O error message behind this error, if it wraps one.
    pub fn source(&self) -> (r: Option<&String>)
        ensures
            r is Some <==> *self is Io,
            r matches Some(m) ==> *self == VaultError::Io(*m),
    {
        match self {
            VaultError::Io(e) => Some(e),
            _ => None,
        }
    }
}

} // verus!
