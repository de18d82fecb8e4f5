use vault::folder_hide::{folder_to_decrypt, hidden_name, is_hidden, unhidden_name, CLSID};

#[test]
fn test_is_hidden_false() {
    let path = "some_folder";
    assert!(!is_hidden(path));
}

#[test]
fn test_hide_unhide_folder() {
    assert!(!is_hidden("test_folder"));
    let hidden = hidden_name("test_folder");
    assert_eq!(hidden, format!("test_folder.{}", CLSID));
    assert!(is_hidden(&hidden));
    let restored = unhidden_name(&hidden).unwrap();
    assert_eq!(restored, "test_folder");
    assert!(!is_hidden(&restored));
}

#[test]
fn unhide_without_suffix_is_refused() {
    assert!(unhidden_name("test_folder").is_none());
    assert!(unhidden_name(CLSID).is_none());
    assert_eq!(unhidden_name(&format!(".{}", CLSID)).unwrap(), "");
}

#[test]
fn decryption_works_on_the_unhidden_folder() {
    let hidden = hidden_name("vault_dir");
    assert_eq!(folder_to_decrypt(&hidden, true), "vault_dir");
    assert_eq!(folder_to_decrypt(&hidden, false), hidden);
    assert_eq!(folder_to_decrypt("vault_dir", true), "vault_dir");
    assert_eq!(folder_to_decrypt("vault_dir", false), "vault_dir");
}
