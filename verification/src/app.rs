//! The state of the Vault window and its transitions. The window code
//! draws this state, performs the file system work each transition asks
//! for, and reports the outcome back.

use crate::error::{spec_message, VaultError};
use crate::text::{spec_decimal, usize_to_decimal};
use crate::validate::ValidationIssue;
use vstd::prelude::*;

verus! {

/// What the window shows and offers.
#[derive(Debug, Clone, Copy, PartialEq, Eq, Structural)]
pub enum AppMode {
    Detecting,
    DirectoryUnencrypted,
    DirectoryEncrypted,
    SingleFileUnencrypted,
    SingleFileEncrypted,
    Processing,
    Done,
    Error,
}

/// The window's state. `P` is the type of the chosen file's path, which
/// this state only stores.
pub struct VaultApp<P> {
    pub mode: AppMode,
    pub password: String,
    pub confirm_password: String,
    pub hide_folder: bool,
    pub error_message: String,
    pub status_message: String,
    pub single_file_path: Option<P>,
}

pub open spec fn spec_status_label(mode: AppMode) -> Seq<char> {
    match mode {
        AppMode::Detecting => "检测中"@,
        AppMode::DirectoryUnencrypted => "目录未加密"@,
        AppMode::DirectoryEncrypted => "目录已加密"@,
        AppMode::SingleFileUnencrypted => "单文件未加密"@,
        AppMode::SingleFileEncrypted => "单文件已加密"@,
        AppMode::Processing => "处理中"@,
        AppMode::Done => "已完成"@,
        AppMode::Error => "失败"@,
    }
}

pub open spec fn spec_action_label(mode: AppMode) -> Option<Seq<char>> {
    match mode {
        AppMode::DirectoryUnencrypted | AppMode::SingleFileUnencrypted => Some("开始加密"@),
        AppMode::DirectoryEncrypted | AppMode::SingleFileEncrypted => Some("开始解密"@),
        _ => None,
    }
}

pub open spec fn msg_password_pair() -> Seq<char> {
    "密码不能为空且两次输入必须一致"@
}

pub open spec fn msg_password_missing() -> Seq<char> {
    "请输入密码"@
}

pub open spec fn msg_no_directory() -> Seq<char> {
    "无法确定当前目录"@
}

pub open spec fn msg_no_file() -> Seq<char> {
    "请选择文件"@
}

/// The message for a failed validation: its first issue.
pub open spec fn msg_validation(issues: Seq<ValidationIssue>) -> Seq<char> {
    "校验失败: "@ + issues[0].issue@
}

/// The message after a directory pass over `n` entries.
pub open spec fn msg_processed(encrypt: bool, n: nat) -> Seq<char> {
    (if encrypt {
        "加密完成，共处理 "@
    } else {
        "解密完成，共处理 "@
    }) + spec_decimal(n) + " 个文件/目录"@
}

/// The note about hiding the folder after a directory encryption.
pub open spec fn msg_hidden(hidden: Result<(), String>) -> Seq<char> {
    match hidden {
        Ok(()) => "（文件夹已隐藏）"@,
        Err(e) => "（文件夹隐藏失败: "@ + e@ + "）"@,
    }
}

/// The message for a failed encryption or decryption.
pub open spec fn msg_failed(encrypt: bool, e: VaultError) -> Seq<char> {
    (if encrypt {
        "加密失败: "@
    } else {
        "解密失败: "@
    }) + spec_message(e)
}

/// The passwords can start an encryption: not empty, and confirmed.
pub open spec fn passwords_ok<P>(s: VaultApp<P>) -> bool {
    s.password@.len() > 0 && s.password@ == s.confirm_password@
}

/// `s` is `old` with only the error message replaced.
pub open spec fn only_error_set<P>(s: VaultApp<P>, old: VaultApp<P>, msg: Seq<char>) -> bool {
    &&& s.error_message@ == msg
    &&& s.mode == old.mode
    &&& s.password@ == old.password@
    &&& s.confirm_password@ == old.confirm_password@
    &&& s.hide_folder == old.hide_folder
    &&& s.status_message@ == old.status_message@
    &&& s.single_file_path == old.single_file_path
}

/// `s` is `old` with the mode and status message replaced.
pub open spec fn mode_status_set<P>(s: VaultApp<P>, old: VaultApp<P>, mode: AppMode, status: Seq<char>) -> bool {
    &&& s.mode == mode
    &&& s.status_message@ == status
    &&& s.error_message@ == old.error_message@
    &&& s.password@ == old.password@
    &&& s.confirm_password@ == old.confirm_password@
    &&& s.hide_folder == old.hide_folder
    &&& s.single_file_path == old.single_file_path
}

fn text(s: &str) -> (r: String)
    ensures
        r@ == s@,
{
    String::from_str(s)
}

impl<P> VaultApp<P> {
    /// The state the window opens with: still detecting, hiding enabled.
    pub fn new() -> (s: Self)
        ensures
            s.mode == AppMode::Detecting,
            s.password@.len() == 0,
            s.confirm_password@.len() == 0,
            s.hide_folder,
            s.error_message@.len() == 0,
            s.status_message@.len() == 0,
            s.single_file_path is None,
    {
        VaultApp {
            mode: AppMode::Detecting,
            password: String::new(),
            confirm_password: String::new(),
            hide_folder: true,
            error_message: String::new(),
            status_message: String::new(),
            single_file_path: None,
        }
    }

    /// Picks the mode for the program's own directory: encrypted if any
    /// file in it is, unencrypted if it holds files, else single-file mode
    /// (also when the directory is unknown).
    pub fn detect_directory_mode(&mut self, dir_found: bool, has_encrypted: bool, file_count: usize)
        ensures
            final(self).mode == (if !dir_found {
                AppMode::SingleFileUnencrypted
            } else if has_encrypted {
                AppMode::DirectoryEncrypted
            } else if file_count > 0 {
                AppMode::DirectoryUnencrypted
            } else {
                AppMode::SingleFileUnencrypted
            }),
            final(self).password == old(self).password,
            final(self).confirm_password == old(self).confirm_password,
            final(self).hide_folder == old(self).hide_folder,
            final(self).error_message == old(self).error_message,
            final(self).status_message == old(self).status_message,
            final(self).single_file_path == old(self).single_file_path,
    {
        if dir_found {
            if has_encrypted {
                self.mode = AppMode::DirectoryEncrypted;
            } else if file_count > 0 {
                self.mode = AppMode::DirectoryUnencrypted;
            } else {
                self.mode = AppMode::SingleFileUnencrypted;
            }
        } else {
            self.mode = AppMode::SingleFileUnencrypted;
        }
    }

    /// Picks the mode for the chosen file, given whether it is encrypted;
    /// nothing changes while no file is chosen.
    pub fn detect_single_file_mode(&mut self, path_encrypted: bool)
        ensures
            final(self).mode == (if old(self).single_file_path is None {
                old(self).mode
            } else if path_encrypted {
                AppMode::SingleFileEncrypted
            } else {
                AppMode::SingleFileUnencrypted
            }),
            final(self).password == old(self).password,
            final(self).confirm_password == old(self).confirm_password,
            final(self).hide_folder == old(self).hide_folder,
            final(self).error_message == old(self).error_message,
            final(self).status_message == old(self).status_message,
            final(self).single_file_path == old(self).single_file_path,
    {
        if self.single_file_path.is_some() {
            if path_encrypted {
                self.mode = AppMode::SingleFileEncrypted;
            } else {
                self.mode = AppMode::SingleFileUnencrypted;
            }
        }
    }

    fn passwords_confirmed(&self) -> (b: bool)
        ensures
            b == passwords_ok(*self),
    {
        !self.password.as_str().is_empty() && self.password == self.confirm_password
    }

    /// First step of a directory encryption. Returns whether the caller
    /// should validate the directory next; otherwise the error message says
    /// why not (bad passwords, or no directory).
    pub fn start_encrypt_directory(&mut self, dir_found: bool) -> (go: bool)
        ensures
            go == (passwords_ok(*old(self)) && dir_found),
            !passwords_ok(*old(self)) ==> only_error_set(*final(self), *old(self), msg_password_pair()),
            passwords_ok(*old(self)) && !dir_found ==> only_error_set(*final(self), *old(self), msg_no_directory()),
            go ==> *final(self) == *old(self),
    {
        if !self.passwords_confirmed() {
            self.error_message = text("密码不能为空且两次输入必须一致");
            return false;
        }
        if !dir_found {
            self.error_message = text("无法确定当前目录");
            return false;
        }
        true
    }

    /// Second step of an encryption: after validation. With issues, the
    /// first one becomes the error; without, processing starts. Returns
    /// whether the caller should encrypt now.
    pub fn validated_for_encryption(&mut self, issues: &Vec<ValidationIssue>) -> (go: bool)
        ensures
            go == (issues@.len() == 0),
            !go ==> only_error_set(*final(self), *old(self), msg_validation(issues@)),
            go ==> mode_status_set(*final(self), *old(self), AppMode::Processing, "正在加密..."@),
    {
        if issues.len() > 0 {
            self.error_message = text("校验失败: ").concat(issues[0].issue.as_str());
            return false;
        }
        self.mode = AppMode::Processing;
        self.status_message = text("正在加密...");
        true
    }

    /// Third step of a directory encryption, with its outcome: on success
    /// the state is done, the status reports the number of processed
    /// entries and the passwords are cleared; on failure only the error
    /// message changes. Returns whether the caller should now hide the
    /// folder: exactly when encryption succeeded and hiding is enabled.
    pub fn finish_encrypt_directory(&mut self, result: Result<usize, VaultError>) -> (hide: bool)
        ensures
            hide == (result is Ok && old(self).hide_folder),
            result matches Err(e) ==> only_error_set(*final(self), *old(self), msg_failed(true, e)),
            result matches Ok(n) ==> {
                &&& final(self).mode == AppMode::Done
                &&& final(self).status_message@ == msg_processed(true, n as nat)
                &&& final(self).password@.len() == 0
                &&& final(self).confirm_password@.len() == 0
                &&& final(self).error_message == old(self).error_message
                &&& final(self).hide_folder == old(self).hide_folder
                &&& final(self).single_file_path == old(self).single_file_path
            },
    {
        match result {
            Ok(n) => {
                self.mode = AppMode::Done;
                self.status_message = text("加密完成，共处理 ").concat(usize_to_decimal(n).as_str()).concat(" 个文件/目录");
                self.password = String::new();
                self.confirm_password = String::new();
                self.hide_folder
            },
            Err(e) => {
                self.error_message = text("加密失败: ").concat(e.message().as_str());
                false
            },
        }
    }

    /// Last step of a directory encryption when the folder was to be
    /// hidden: the status tells how hiding went. Nothing else changes.
    pub fn record_hiding(&mut self, hidden: Result<(), String>)
        ensures
            final(self).status_message@ == old(self).status_message@ + msg_hidden(hidden),
            final(self).mode == old(self).mode,
            final(self).password == old(self).password,
            final(self).confirm_password == old(self).confirm_password,
            final(self).hide_folder == old(self).hide_folder,
            final(self).error_message == old(self).error_message,
            final(self).single_file_path == old(self).single_file_path,
    {
        let note = match hidden {
            Ok(()) => text("（文件夹已隐藏）"),
            Err(e) => text("（文件夹隐藏失败: ").concat(e.as_str()).concat("）"),
        };
        let status = String::from_str(self.status_message.as_str()).concat(note.as_str());
        self.status_message = status;
    }

    /// First step of a directory decryption. Returns whether the caller
    /// should (unhide the folder and) decrypt now; then processing starts.
    pub fn start_decrypt_directory(&mut self, dir_found: bool) -> (go: bool)
        ensures
            go == (old(self).password@.len() > 0 && dir_found),
            old(self).password@.len() == 0 ==> only_error_set(*final(self), *old(self), msg_password_missing()),
            old(self).password@.len() > 0 && !dir_found ==> only_error_set(*final(self), *old(self), msg_no_directory()),
            go ==> mode_status_set(*final(self), *old(self), AppMode::Processing, "正在解密..."@),
    {
        if self.password.as_str().is_empty() {
            self.error_message = text("请输入密码");
            return false;
        }
        if !dir_found {
            self.error_message = text("无法确定当前目录");
            return false;
        }
        self.mode = AppMode::Processing;
        self.status_message = text("正在解密...");
        true
    }

    /// Last step of a directory decryption: done with a count and the
    /// password cleared, or an error with the directory still encrypted.
    pub fn finish_decrypt_directory(&mut self, result: Result<usize, VaultError>)
        ensures
            result matches Err(e) ==> {
                &&& final(self).error_message@ == msg_failed(false, e)
                &&& final(self).mode == AppMode::DirectoryEncrypted
                &&& final(self).status_message == old(self).status_message
                &&& final(self).password == old(self).password
            },
            result matches Ok(n) ==> {
                &&& final(self).mode == AppMode::Done
                &&& final(self).status_message@ == msg_processed(false, n as nat)
                &&& final(self).password@.len() == 0
                &&& final(self).error_message == old(self).error_message
            },
            final(self).confirm_password == old(self).confirm_password,
            final(self).hide_folder == old(self).hide_folder,
            final(self).single_file_path == old(self).single_file_path,
    {
        match result {
            Ok(n) => {
                self.mode = AppMode::Done;
                self.status_message = text("解密完成，共处理 ").concat(usize_to_decimal(n).as_str()).concat(" 个文件/目录");
                self.password = String::new();
            },
            Err(e) => {
                self.error_message = text("解密失败: ").concat(e.message().as_str());
                self.mode = AppMode::DirectoryEncrypted;
            },
        }
    }

    /// First step of a single-file encryption. Returns whether the caller
    /// should validate the chosen file next.
    pub fn start_encrypt_file(&mut self) -> (go: bool)
        ensures
            go == (old(self).single_file_path is Some && passwords_ok(*old(self))),
            old(self).single_file_path is None ==> only_error_set(*final(self), *old(self), msg_no_file()),
            old(self).single_file_path is Some && !passwords_ok(*old(self)) ==> only_error_set(
                *final(self),
                *old(self),
                msg_password_pair(),
            ),
            go ==> *final(self) == *old(self),
    {
        if self.single_file_path.is_none() {
            self.error_message = text("请选择文件");
            return false;
        }
        if !self.passwords_confirmed() {
            self.error_message = text("密码不能为空且两次输入必须一致");
            return false;
        }
        true
    }

    /// Last step of a single-file encryption: done with both passwords
    /// cleared, or an error with the file still unencrypted.
    pub fn finish_encrypt_file(&mut self, result: Result<(), VaultError>)
        ensures
            result matches Err(e) ==> {
                &&& final(self).error_message@ == msg_failed(true, e)
                &&& final(self).mode == AppMode::SingleFileUnencrypted
                &&& final(self).status_message == old(self).status_message
                &&& final(self).password == old(self).password
                &&& final(self).confirm_password == old(self).confirm_password
            },
            result is Ok ==> {
                &&& final(self).mode == AppMode::Done
                &&& final(self).status_message@ == "加密完成"@
                &&& final(self).password@.len() == 0
                &&& final(self).confirm_password@.len() == 0
                &&& final(self).error_message == old(self).error_message
            },
            final(self).hide_folder == old(self).hide_folder,
            final(self).single_file_path == old(self).single_file_path,
    {
        match result {
            Ok(()) => {
                self.mode = AppMode::Done;
                self.status_message = text("加密完成");
                self.password = String::new();
                self.confirm_password = String::new();
            },
            Err(e) => {
                self.error_message = text("加密失败: ").concat(e.message().as_str());
                self.mode = AppMode::SingleFileUnencrypted;
            },
        }
    }

    /// First step of a single-file decryption. Returns whether the caller
    /// should decrypt the chosen file now; then processing starts.
    pub fn start_decrypt_file(&mut self) -> (go: bool)
        ensures
            go == (old(self).single_file_path is Some && old(self).password@.len() > 0),
            old(self).single_file_path is None ==> only_error_set(*final(self), *old(self), msg_no_file()),
            old(self).single_file_path is Some && old(self).password@.len() == 0 ==> only_error_set(
                *final(self),
                *old(self),
                msg_password_missing(),
            ),
            go ==> mode_status_set(*final(self), *old(self), AppMode::Processing, "正在解密..."@),
    {
        if self.single_file_path.is_none() {
            self.error_message = text("请选择文件");
            return false;
        }
        if self.password.as_str().is_empty() {
            self.error_message = text("请输入密码");
            return false;
        }
        self.mode = AppMode::Processing;
        self.status_message = text("正在解密...");
        true
    }

    /// Last step of a single-file decryption: done with the password
    /// cleared, or an error with the file still encrypted.
    pub fn finish_decrypt_file(&mut self, result: Result<(), VaultError>)
        ensures
            result matches Err(e) ==> {
                &&& final(self).error_message@ == msg_failed(false, e)
                &&& final(self).mode == AppMode::SingleFileEncrypted
                &&& final(self).status_message == old(self).status_message
                &&& final(self).password == old(self).password
            },
            result is Ok ==> {
                &&& final(self).mode == AppMode::Done
                &&& final(self).status_message@ == "解密完成"@
                &&& final(self).password@.len() == 0
                &&& final(self).error_message == old(self).error_message
            },
            final(self).confirm_password == old(self).confirm_password,
            final(self).hide_folder == old(self).hide_folder,
            final(self).single_file_path == old(self).single_file_path,
    {
        match result {
            Ok(()) => {
                self.mode = AppMode::Done;
                self.status_message = text("解密完成");
                self.password = String::new();
            },
            Err(e) => {
                self.error_message = text("解密失败: ").concat(e.message().as_str());
                self.mode = AppMode::SingleFileEncrypted;
            },
        }
    }

    /// Single-file mode: a single-file mode is shown, or a file is chosen.
    pub fn is_single_file_mode(&self) -> (b: bool)
        ensures
            b == (self.mode == AppMode::SingleFileUnencrypted || self.mode == AppMode::SingleFileEncrypted
                || self.single_file_path is Some),
    {
        self.mode == AppMode::SingleFileUnencrypted || self.mode == AppMode::SingleFileEncrypted
            || self.single_file_path.is_some()
    }

    /// The short state label of the title bar.
    pub fn status_label(&self) -> (s: &'static str)
        ensures
            s@ == spec_status_label(self.mode),
    {
        match self.mode {
            AppMode::Detecting => "检测中",
            AppMode::DirectoryUnencrypted => "目录未加密",
            AppMode::DirectoryEncrypted => "目录已加密",
            AppMode::SingleFileUnencrypted => "单文件未加密",
            AppMode::SingleFileEncrypted => "单文件已加密",
            AppMode::Processing => "处理中",
            AppMode::Done => "已完成",
            AppMode::Error => "失败",
        }
    }

    /// The label of the action button, when an action is offered.
    pub fn action_label(&self) -> (s: Option<&'static str>)
        ensures
            s is Some <==> spec_action_label(self.mode) is Some,
            s matches Some(t) ==> spec_action_label(self.mode) == Some(t@),
    {
        match self.mode {
            AppMode::DirectoryUnencrypted | AppMode::SingleFileUnencrypted => Some("开始加密"),
            AppMode::DirectoryEncrypted | AppMode::SingleFileEncrypted => Some("开始解密"),
            _ => None,
        }
    }

    /// Clears the passwords and both messages.
    fn clear_inputs(&mut self)
        ensures
            final(self).password@.len() == 0,
            final(self).confirm_password@.len() == 0,
            final(self).error_message@.len() == 0,
            final(self).status_message@.len() == 0,
            final(self).mode == old(self).mode,
            final(self).hide_folder == old(self).hide_folder,
            final(self).single_file_path == old(self).single_file_path,
    {
        self.password = String::new();
        self.confirm_password = String::new();
        self.error_message = String::new();
        self.status_message = String::new();
    }

    /// A file was dropped on the window: it becomes the chosen file, the
    /// inputs are cleared, and the mode follows whether it is encrypted.
    pub fn on_file_dropped(&mut self, path: P, path_encrypted: bool)
        ensures
            final(self).single_file_path == Some(path),
            final(self).mode == (if path_encrypted {
                AppMode::SingleFileEncrypted
            } else {
                AppMode::SingleFileUnencrypted
            }),
            final(self).password@.len() == 0,
            final(self).confirm_password@.len() == 0,
            final(self).error_message@.len() == 0,
            final(self).status_message@.len() == 0,
            final(self).hide_folder == old(self).hide_folder,
    {
        self.single_file_path = Some(path);
        self.clear_inputs();
        self.detect_single_file_mode(path_encrypted);
    }

    /// A file was picked in the dialog: it becomes the chosen file, the
    /// messages are cleared, and the mode follows whether it is encrypted.
    pub fn on_file_picked(&mut self, path: P, path_encrypted: bool)
        ensures
            final(self).single_file_path == Some(path),
            final(self).mode == (if path_encrypted {
                AppMode::SingleFileEncrypted
            } else {
                AppMode::SingleFileUnencrypted
            }),
            final(self).password == old(self).password,
            final(self).confirm_password == old(self).confirm_password,
            final(self).error_message@.len() == 0,
            final(self).status_message@.len() == 0,
            final(self).hide_folder == old(self).hide_folder,
    {
        self.single_file_path = Some(path);
        self.error_message = String::new();
        self.status_message = String::new();
        self.detect_single_file_mode(path_encrypted);
    }

    /// The directory tab was clicked: inputs cleared, no chosen file, and
    /// the directory mode detected again.
    pub fn select_directory_tab(&mut self, dir_found: bool, has_encrypted: bool, file_count: usize)
        ensures
            final(self).single_file_path is None,
            final(self).mode == (if !dir_found {
                AppMode::SingleFileUnencrypted
            } else if has_encrypted {
                AppMode::DirectoryEncrypted
            } else if file_count > 0 {
                AppMode::DirectoryUnencrypted
            } else {
                AppMode::SingleFileUnencrypted
            }),
            final(self).password@.len() == 0,
            final(self).confirm_password@.len() == 0,
            final(self).error_message@.len() == 0,
            final(self).status_message@.len() == 0,
            final(self).hide_folder == old(self).hide_folder,
    {
        self.clear_inputs();
        self.single_file_path = None;
        self.detect_directory_mode(dir_found, has_encrypted, file_count);
    }

    /// The single-file tab was clicked: inputs cleared, single-file
    /// encryption offered.
    pub fn select_single_file_tab(&mut self)
        ensures
            final(self).mode == AppMode::SingleFileUnencrypted,
            final(self).password@.len() == 0,
            final(self).confirm_password@.len() == 0,
            final(self).error_message@.len() == 0,
            final(self).status_message@.len() == 0,
            final(self).hide_folder == old(self).hide_folder,
            final(self).single_file_path == old(self).single_file_path,
    {
        self.clear_inputs();
        self.mode = AppMode::SingleFileUnencrypted;
    }

    /// The footer line: the error if there is one, else the status, else
    /// "ready"; and whether it is an error.
    pub fn footer(&self) -> (r: (&str, bool))
        ensures
            r.1 == (self.error_message@.len() > 0),
            r.0@ == (if self.error_message@.len() > 0 {
                self.error_message@
            } else if self.status_message@.len() > 0 {
                self.status_message@
            } else {
                "就绪"@
            }),
    {
        if !self.error_message.as_str().is_empty() {
            (self.error_message.as_str(), true)
        } else if !self.status_message.as_str().is_empty() {
            (self.status_message.as_str(), false)
        } else {
            ("就绪", false)
        }
    }
}

impl<P> Default for VaultApp<P> {
    /// The state the window opens with, as `new`.
    fn default() -> (s: Self)
        ensures
            s.mode == AppMode::Detecting,
            s.password@.len() == 0,
            s.confirm_password@.len() == 0,
            s.hide_folder,
            s.error_message@.len() == 0,
            s.status_message@.len() == 0,
            s.single_file_path is None,
    {
        Self::new()
    }
}

} // verus!
