use vault::app::{AppMode, VaultApp};
use vault::error::VaultError;
use vault::validate::ValidationIssue;

fn app() -> VaultApp<String> {
    VaultApp::new()
}

#[test]
fn new_state() {
    let a = app();
    assert_eq!(a.mode, AppMode::Detecting);
    assert!(a.hide_folder);
    assert!(a.single_file_path.is_none());
    assert_eq!(a.status_label(), "检测中");
    assert_eq!(a.action_label(), None);
    assert_eq!(a.footer(), ("就绪", false));
}

#[test]
fn directory_mode_detection() {
    let mut a = app();
    a.detect_directory_mode(true, true, 0);
    assert_eq!(a.mode, AppMode::DirectoryEncrypted);
    a.detect_directory_mode(true, false, 3);
    assert_eq!(a.mode, AppMode::DirectoryUnencrypted);
    a.detect_directory_mode(true, false, 0);
    assert_eq!(a.mode, AppMode::SingleFileUnencrypted);
    a.detect_directory_mode(false, true, 3);
    assert_eq!(a.mode, AppMode::SingleFileUnencrypted);
}

#[test]
fn single_file_mode_detection_needs_a_file() {
    let mut a = app();
    a.mode = AppMode::DirectoryUnencrypted;
    a.detect_single_file_mode(true);
    assert_eq!(a.mode, AppMode::DirectoryUnencrypted);
    a.single_file_path = Some("x.dat".to_string());
    a.detect_single_file_mode(true);
    assert_eq!(a.mode, AppMode::SingleFileEncrypted);
    a.detect_single_file_mode(false);
    assert_eq!(a.mode, AppMode::SingleFileUnencrypted);
    assert!(a.is_single_file_mode());
}

#[test]
fn labels() {
    let mut a = app();
    let cases = [
        (AppMode::DirectoryUnencrypted, "目录未加密", Some("开始加密")),
        (AppMode::DirectoryEncrypted, "目录已加密", Some("开始解密")),
        (AppMode::SingleFileUnencrypted, "单文件未加密", Some("开始加密")),
        (AppMode::SingleFileEncrypted, "单文件已加密", Some("开始解密")),
        (AppMode::Processing, "处理中", None),
        (AppMode::Done, "已完成", None),
        (AppMode::Error, "失败", None),
    ];
    for (mode, status, action) in cases {
        a.mode = mode;
        assert_eq!(a.status_label(), status);
        assert_eq!(a.action_label(), action);
    }
}

#[test]
fn encrypt_directory_flow() {
    let mut a = app();
    a.mode = AppMode::DirectoryUnencrypted;
    assert!(!a.start_encrypt_directory(true));
    assert_eq!(a.error_message, "密码不能为空且两次输入必须一致");
    a.password = "pw".to_string();
    a.confirm_password = "pX".to_string();
    assert!(!a.start_encrypt_directory(true));
    a.confirm_password = "pw".to_string();
    a.error_message.clear();
    assert!(!a.start_encrypt_directory(false));
    assert_eq!(a.error_message, "无法确定当前目录");
    a.error_message.clear();
    assert!(a.start_encrypt_directory(true));
    let issues = vec![ValidationIssue { path: "f".to_string(), issue: "文件已加密".to_string() }];
    assert!(!a.validated_for_encryption(&issues));
    assert_eq!(a.error_message, "校验失败: 文件已加密");
    assert_eq!(a.footer(), ("校验失败: 文件已加密", true));
    a.error_message.clear();
    assert!(a.validated_for_encryption(&vec![]));
    assert_eq!(a.mode, AppMode::Processing);
    assert_eq!(a.status_message, "正在加密...");
    assert!(a.hide_folder);
    assert!(a.finish_encrypt_directory(Ok(5)));
    a.record_hiding(Ok(()));
    assert_eq!(a.mode, AppMode::Done);
    assert_eq!(a.status_message, "加密完成，共处理 5 个文件/目录（文件夹已隐藏）");
    assert!(a.password.is_empty() && a.confirm_password.is_empty());
}

#[test]
fn encrypt_directory_outcomes() {
    let mut a = app();
    a.mode = AppMode::Processing;
    assert!(a.finish_encrypt_directory(Ok(12)));
    a.record_hiding(Err("denied".to_string()));
    assert_eq!(a.status_message, "加密完成，共处理 12 个文件/目录（文件夹隐藏失败: denied）");
    let mut b = app();
    b.mode = AppMode::Processing;
    b.hide_folder = false;
    assert!(!b.finish_encrypt_directory(Ok(0)));
    assert_eq!(b.status_message, "加密完成，共处理 0 个文件/目录");
    assert_eq!(b.mode, AppMode::Done);
    let mut c = app();
    c.mode = AppMode::Processing;
    c.password = "pw".to_string();
    assert!(!c.finish_encrypt_directory(Err(VaultError::DiskFull)));
    assert_eq!(c.error_message, "加密失败: 磁盘空间不足");
    assert_eq!(c.mode, AppMode::Processing);
    assert_eq!(c.password, "pw");
}

#[test]
fn decrypt_directory_flow() {
    let mut a = app();
    a.mode = AppMode::DirectoryEncrypted;
    assert!(!a.start_decrypt_directory(true));
    assert_eq!(a.error_message, "请输入密码");
    a.password = "pw".to_string();
    a.error_message.clear();
    assert!(a.start_decrypt_directory(true));
    assert_eq!(a.mode, AppMode::Processing);
    assert_eq!(a.status_message, "正在解密...");
    a.finish_decrypt_directory(Err(VaultError::InvalidPassword));
    assert_eq!(a.error_message, "解密失败: 密码不正确");
    assert_eq!(a.mode, AppMode::DirectoryEncrypted);
    a.finish_decrypt_directory(Ok(7));
    assert_eq!(a.mode, AppMode::Done);
    assert_eq!(a.status_message, "解密完成，共处理 7 个文件/目录");
    assert!(a.password.is_empty());
}

#[test]
fn encrypt_file_flow() {
    let mut a = app();
    a.select_single_file_tab();
    assert_eq!(a.mode, AppMode::SingleFileUnencrypted);
    assert!(!a.start_encrypt_file());
    assert_eq!(a.error_message, "请选择文件");
    a.on_file_picked("doc.txt".to_string(), false);
    assert!(a.error_message.is_empty());
    a.password = "p".to_string();
    a.confirm_password = "p".to_string();
    assert!(a.start_encrypt_file());
    assert!(a.validated_for_encryption(&vec![]));
    a.finish_encrypt_file(Err(VaultError::Io("boom".to_string())));
    assert_eq!(a.error_message, "加密失败: IO error: boom");
    assert_eq!(a.mode, AppMode::SingleFileUnencrypted);
    a.finish_encrypt_file(Ok(()));
    assert_eq!(a.mode, AppMode::Done);
    assert_eq!(a.status_message, "加密完成");
    assert!(a.password.is_empty() && a.confirm_password.is_empty());
}

#[test]
fn decrypt_file_flow() {
    let mut a = app();
    assert!(!a.start_decrypt_file());
    assert_eq!(a.error_message, "请选择文件");
    a.on_file_dropped("x.dat".to_string(), true);
    assert_eq!(a.mode, AppMode::SingleFileEncrypted);
    assert!(a.error_message.is_empty());
    assert!(!a.start_decrypt_file());
    assert_eq!(a.error_message, "请输入密码");
    a.password = "p".to_string();
    assert!(a.start_decrypt_file());
    assert_eq!(a.status_message, "正在解密...");
    a.finish_decrypt_file(Err(VaultError::CorruptedMetadata("x.dat".to_string())));
    assert_eq!(a.error_message, "解密失败: 元数据损坏: x.dat");
    assert_eq!(a.mode, AppMode::SingleFileEncrypted);
    a.finish_decrypt_file(Ok(()));
    assert_eq!(a.status_message, "解密完成");
    assert_eq!(a.mode, AppMode::Done);
}

#[test]
fn tabs_reset_the_inputs() {
    let mut a = app();
    a.on_file_dropped("f".to_string(), false);
    a.password = "p".to_string();
    a.error_message = "e".to_string();
    a.select_directory_tab(true, false, 2);
    assert!(a.single_file_path.is_none());
    assert_eq!(a.mode, AppMode::DirectoryUnencrypted);
    assert!(a.password.is_empty() && a.error_message.is_empty());
    assert!(!a.is_single_file_mode());
    a.status_message = "s".to_string();
    assert_eq!(a.footer(), ("s", false));
}

#[test]
fn default_state_is_the_new_state() {
    let a: VaultApp<String> = VaultApp::default();
    assert_eq!(a.mode, AppMode::Detecting);
    assert!(a.hide_folder);
    assert!(a.password.is_empty() && a.confirm_password.is_empty());
    assert!(a.error_message.is_empty() && a.status_message.is_empty());
    assert!(a.single_file_path.is_none());
}
