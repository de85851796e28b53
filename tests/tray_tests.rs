use clipman::entry::ContentType;
use clipman::tray::{is_white_space, preview_text, truncate_content, TrayI18n};

#[test]
fn test_tray_i18n_chinese() {
    let i18n = TrayI18n::new("zh-CN");
    assert_eq!(i18n.pinned_header, "置顶项");
    assert_eq!(i18n.recent_header, "最近复制");
    assert_eq!(i18n.quit, "退出");
}

#[test]
fn test_tray_i18n_english() {
    let i18n = TrayI18n::new("en");
    assert_eq!(i18n.pinned_header, "Pinned");
    assert_eq!(i18n.recent_header, "Recent");
    assert_eq!(i18n.quit, "Quit");
}

#[test]
fn test_truncate_content_text() {
    let i18n = TrayI18n::new("en");
    let content = b"Hello, World!";
    let result = truncate_content(content, &ContentType::Text, 50, &i18n);
    assert_eq!(result, "Hello, World!");
}

#[test]
fn test_truncate_content_long_text() {
    let i18n = TrayI18n::new("en");
    let content = b"This is a very long text that should be truncated";
    let result = truncate_content(content, &ContentType::Text, 20, &i18n);
    assert!(result.contains("..."));
    assert!(result.len() <= 23);
}

#[test]
fn test_truncate_content_image() {
    let i18n_zh = TrayI18n::new("zh-CN");
    let i18n_en = TrayI18n::new("en");

    let result_zh = truncate_content(b"", &ContentType::Image, 50, &i18n_zh);
    let result_en = truncate_content(b"", &ContentType::Image, 50, &i18n_en);

    assert_eq!(result_zh, "图片");
    assert_eq!(result_en, "Image");
}

#[test]
fn test_truncate_content_newlines() {
    let i18n = TrayI18n::new("en");
    let content = b"Line 1\nLine 2\r\nLine 3";
    let result = truncate_content(content, &ContentType::Text, 50, &i18n);
    assert!(!result.contains('\n'));
    assert!(!result.contains('\r'));
}

#[test]
fn long_text_keeps_start_and_end() {
    let i18n = TrayI18n::new("en");
    let content = b"This is a very long text that should be truncated";
    let result = truncate_content(content, &ContentType::Text, 20, &i18n);
    assert_eq!(result, "This is a ver...ated");
}

#[test]
fn white_space_runs_collapse() {
    let i18n = TrayI18n::new("en");
    let result = truncate_content(b"  a \t\n b\r\n\r\nc  ", &ContentType::Html, 50, &i18n);
    assert_eq!(result, "a b c");
    let text: Vec<char> = "x\u{3000}\u{a0}y".chars().collect();
    let shown: String = preview_text(&text, 50).into_iter().collect();
    assert_eq!(shown, "x y");
}

#[test]
fn invalid_utf8_text_uses_replacement() {
    let i18n = TrayI18n::new("en");
    let result = truncate_content(&[0x61, 0xff, 0x62], &ContentType::Rtf, 50, &i18n);
    assert_eq!(result, "a\u{fffd}b");
}

#[test]
fn file_preview_shows_name() {
    let en = TrayI18n::new("en");
    let zh = TrayI18n::new("zh");
    assert_eq!(truncate_content(b"/home/user/report.pdf", &ContentType::File, 50, &en), "File: report.pdf");
    assert_eq!(truncate_content(b"/home/user/report.pdf", &ContentType::File, 50, &zh), "文件: report.pdf");
    assert_eq!(truncate_content(b"/", &ContentType::File, 50, &en), "File");
    assert_eq!(truncate_content(&[0xff, 0xfe], &ContentType::File, 50, &en), "File");
}

#[test]
fn short_limits_do_not_panic() {
    let i18n = TrayI18n::new("en");
    assert_eq!(truncate_content(b"abcdefgh", &ContentType::Text, 3, &i18n), "ab...");
    assert_eq!(truncate_content(b"abcdefgh", &ContentType::Text, 0, &i18n), "...");
}

#[test]
fn white_space_property() {
    assert!(is_white_space(' '));
    assert!(is_white_space('\n'));
    assert!(is_white_space('\u{2028}'));
    assert!(!is_white_space('a'));
    assert!(!is_white_space('\u{200b}'));
}

#[test]
fn locale_prefix_decides_language() {
    assert_eq!(TrayI18n::new("zh").image, "图片");
    assert_eq!(TrayI18n::new("z").image, "Image");
    assert_eq!(TrayI18n::new("").file_prefix, "File: ");
    assert_eq!(TrayI18n::new("zh-TW").settings, "设置");
}

fn encoded_picture(width: usize, height: usize) -> Vec<u8> {
    clipman::transcode::image_to_bytes(&clipman::transcode::PixelBuffer {
        width,
        height,
        bytes: vec![90u8; width * height * 4],
    })
}

#[test]
fn icon_shorter_side_becomes_thirty_two() {
    let mut cache = clipman::icons::TrayIconCache::new();
    let icon = cache.get_or_create("wide", &encoded_picture(64, 16)).unwrap();
    assert_eq!((icon.width, icon.height), (128, 32));
    assert_eq!(icon.rgba.len(), 128 * 32 * 4);
    let tall = cache.get_or_create("tall", &encoded_picture(10, 20)).unwrap();
    assert_eq!((tall.width, tall.height), (32, 64));
}

#[test]
fn icon_cache_hits_and_clears() {
    let mut cache = clipman::icons::TrayIconCache::new();
    let first = cache.get_or_create("a", &encoded_picture(8, 8)).unwrap();
    let again = cache.get_or_create("a", b"not a picture").unwrap();
    assert_eq!(first.rgba, again.rgba);
    cache.clear();
    assert!(cache.get_or_create("a", b"not a picture").is_none());
}

fn entry(id: &str, pinned: bool) -> clipman::entry::ClipItem {
    clipman::entry::ClipItem {
        id: id.to_string(),
        content: id.as_bytes().to_vec(),
        content_type: ContentType::Text,
        timestamp: 0,
        is_pinned: pinned,
        pin_order: if pinned { Some(1) } else { None },
    }
}

#[test]
fn menu_sections_limit_and_skip_pinned() {
    let pinned = vec![entry("pa", true), entry("pb", true), entry("pc", true)];
    let recent = vec![entry("a", false), entry("pa", true), entry("b", false), entry("c", false)];
    let sections = clipman::tray::tray_sections(&pinned, &recent, 2, 2);
    let ids = |v: &Vec<clipman::entry::ClipItem>| v.iter().map(|i| i.id.clone()).collect::<Vec<_>>();
    assert_eq!(ids(&sections.pinned), vec!["pa", "pb"]);
    assert_eq!(ids(&sections.recent), vec!["a", "b"]);
}

#[test]
fn menu_query_limit_is_at_least_thirty() {
    assert_eq!(clipman::tray::tray_query_limit(20, 5), 30);
    assert_eq!(clipman::tray::tray_query_limit(40, 5), 45);
    assert_eq!(clipman::tray::tray_query_limit(usize::MAX, 5), usize::MAX);
}
