use vault::fonts::{font_role, sans_keywords, serif_keywords, windows_font_paths, FontPicker, FontRole};

#[test]
fn roles_by_name() {
    let sans = sans_keywords();
    assert_eq!(font_role("NotoSansCJK-Regular.ttc", &sans), Some(FontRole::Regular));
    assert_eq!(font_role("NotoSansCJK-Bold.ttc", &sans), Some(FontRole::Bold));
    assert_eq!(font_role("wqy-microhei.ttc", &sans), Some(FontRole::Other));
    assert_eq!(font_role("wqy-microhei.woff", &sans), None);
    assert_eq!(font_role("DejaVuSans.ttf", &sans), None);
    assert_eq!(font_role("NotoSerifCJK-Regular.otf", &sans), None);
    assert_eq!(font_role("NotoSerifCJK-Regular.OTF", &serif_keywords()), Some(FontRole::Regular));
}

#[test]
fn picker_prefers_regular_then_bold_then_fallback() {
    let sans = sans_keywords();
    let mut p: FontPicker<&str> = FontPicker::new();
    assert!(!p.offer("uming.ttc", "a", &sans));
    assert!(!p.offer("NotoSansCJK-Bold.ttc", "b", &sans));
    assert!(!p.offer("readme.txt", "c", &sans));
    assert!(p.offer("NotoSansCJK-Regular.ttc", "d", &sans));
    assert!(p.offer("NotoSansCJK-Regular.otf", "e", &sans));
    assert_eq!(p.picked(), vec!["d", "b"]);

    let mut q: FontPicker<&str> = FontPicker::new();
    q.offer("uming.ttc", "a", &sans);
    q.offer("wqy-zenhei.ttc", "b", &sans);
    assert_eq!(q.picked(), vec!["a"]);

    let empty: FontPicker<&str> = FontPicker::new();
    assert!(empty.picked().is_empty());
}

#[test]
fn font_lists() {
    assert_eq!(windows_font_paths()[0], "C:/Windows/Fonts/msyh.ttc");
    assert_eq!(sans_keywords().len(), 6);
    assert_eq!(serif_keywords(), vec!["notoserifcjk", "sourcehanserif"]);
}
