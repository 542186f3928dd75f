use booru_fetch::models::types::{DataType, ImageInfo};
use booru_fetch::parsers::{danbooru, rule34_us, rule34_xxx, rule34video};
use booru_fetch::text::trim_str;
use booru_fetch::utility::utils::{
    check_image, generate_nozomi_link_from_id, get_base_domain, links_from_text, tags_file_content,
};

#[test]
fn base_domain_taken_twice_is_unchanged() {
    for url in [
        "https://rule34.xxx/index.php?id=1",
        "http://rule34.us/a/b",
        "https://nozomi.la",
        "ftp://host/file",
        "aéééé/x/y",
        "https://",
    ] {
        let once = get_base_domain(url);
        assert!(once.ends_with('/'));
        assert_eq!(get_base_domain(&once), once);
    }
}

#[test]
fn base_domain_law_fails_on_its_one_exception() {
    // `https:/` gains a slash and then reads as a secure link with no host.
    let once = get_base_domain("https:/");
    assert_eq!(once, "https://");
    assert_eq!(get_base_domain(&once), "https:///");
}

#[test]
fn nozomi_image_links_are_image_links() {
    for id in ["", "7", "42", "123", "abcdef1234", "日本語の"] {
        let link = generate_nozomi_link_from_id(id, DataType::Image).unwrap();
        assert!(check_image(&link), "{}", link);
    }
    let record = generate_nozomi_link_from_id("123", DataType::Json).unwrap();
    assert!(!check_image(&record));
}

#[test]
fn tags_file_is_empty_exactly_without_tags() {
    assert_eq!(tags_file_content(&ImageInfo::new()), "");
    let one = |slot: usize| {
        let mut info = ImageInfo::new();
        let list = match slot {
            0 => &mut info.authors,
            1 => &mut info.titles,
            2 => &mut info.characters,
            _ => &mut info.general,
        };
        list.push("tag".to_string());
        info
    };
    for slot in 0..4 {
        let text = tags_file_content(&one(slot));
        assert!(!text.is_empty());
        assert!(text.starts_with('['));
    }
}

#[test]
fn links_read_from_a_list_are_clean() {
    let links = links_from_text("  https://a/1  \n# comment\n\n\t\r\n  #also\nhttps://b/2\r\nlast");
    assert_eq!(links, vec!["https://a/1", "https://b/2", "last"]);
    for l in &links {
        assert!(!l.is_empty());
        assert!(!l.starts_with('#'));
        assert_eq!(trim_str(l), *l);
        assert!(!l.contains('\n'));
    }
}

#[test]
fn tag_list_entries_are_clean() {
    let tags = rule34video::split_tag_list(" a, ,b ,,c d,");
    assert_eq!(tags, vec!["a", "b", "c d"]);
    for t in &tags {
        assert!(!t.is_empty());
        assert_eq!(trim_str(t), *t);
        assert!(!t.contains(','));
    }
    assert!(rule34video::split_tag_list("").is_empty());
}

fn assert_clean(info: &ImageInfo) {
    for list in [&info.authors, &info.titles, &info.characters, &info.general] {
        for t in list {
            assert!(t.len() > 1, "{:?}", t);
            assert_eq!(trim_str(t), *t);
        }
    }
}

#[test]
fn page_tags_are_trimmed_and_longer_than_one_byte() {
    let danbooru_page = r#"<ul class="general-tag-list"><li><a class="search-tag"> x </a>
        <a class="search-tag">  ok tag  </a><a class="search-tag">é</a></li></ul>"#;
    let info = danbooru::extract_tags(danbooru_page).unwrap();
    assert_eq!(info.general, vec!["ok tag", "é"]);
    assert_clean(&info);

    let us_page = r#"<ul id="tag-list "><li class="general-tag"><a> y </a><a>
        two words </a></li></ul>"#;
    let info = rule34_us::extract_tags(us_page).unwrap();
    assert_eq!(info.general, vec!["two words"]);
    assert_clean(&info);

    let xxx_page = r#"<ul id="tag-sidebar"><li class="tag tag-type-artist"><a> z</a><a>
        name </a></li></ul>"#;
    let info = rule34_xxx::extract_tags(xxx_page).unwrap();
    assert_eq!(info.authors, vec!["name"]);
    assert_clean(&info);
}

#[test]
fn followed_download_link_is_offered_and_keeps_2160p() {
    let page = r#"<div class="wrap"><div class="label">Download</div>
        <a href="u480">MP4 480p</a><a href="u2160">MP4 2160p</a><a href="u1080">MP4 1080p</a></div>"#;
    assert_eq!(rule34video::find_download_link(page), Some("u2160".to_string()));
    let page = r#"<div class="wrap"><div class="label">Download</div>
        <a href="u1">one</a><a href="u720">720p</a></div>"#;
    assert_eq!(rule34video::find_download_link(page), Some("u720".to_string()));
}

#[test]
fn trimming_twice_changes_nothing() {
    for s in ["", "   ", " a ", "\u{3000}x\t", "a b", "\n\nab\r"] {
        let once = trim_str(s);
        assert_eq!(trim_str(&once), once);
    }
}
