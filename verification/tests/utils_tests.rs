use booru_fetch::models::types::{DataType, MediaType, ScrapeError, Site};
use booru_fetch::network::client;
use booru_fetch::network::gigaclient;
use booru_fetch::network::net::nozomi_request;
use booru_fetch::text::{contains_str, ends_with_str, i32_to_decimal, starts_with_str, trim_str};
use booru_fetch::utility::initializer::{Config, PathsConfig, TimingsConfig};
use booru_fetch::utility::utils::{
    check_image, detect_site, generate_nozomi_link_from_id, get_base_domain,
    get_nozomi_id_from_link, links_from_text,
};

#[test]
fn detect_site_recognises_each_host() {
    assert_eq!(detect_site("https://rule34.xxx/index.php?page=post&s=view&id=1"), Site::Rule34xxx);
    assert_eq!(detect_site("https://rule34.us/index.php?r=posts/view&id=5"), Site::Rule34us);
    assert_eq!(detect_site("https://rule34video.com/video/123/name/"), Site::Rule34Video);
    assert_eq!(detect_site("https://gelbooru.com/index.php?id=9"), Site::Gelbooru);
    assert_eq!(detect_site("https://danbooru.donmai.us/posts/77"), Site::Danbooru);
    assert_eq!(detect_site("https://nozomi.la/post/123456.html"), Site::Nozomi);
    assert_eq!(detect_site("https://example.com/rule34.xxx"), Site::Rule34xxx);
    assert_eq!(detect_site("rule34.xxx"), Site::Unknown);
    assert_eq!(detect_site(""), Site::Unknown);
}

#[test]
fn detect_site_takes_first_host_in_order() {
    // Mentions both rule34.us and rule34.xxx: rule34.xxx is checked first.
    assert_eq!(detect_site("https://rule34.us/?ref=https://rule34.xxx"), Site::Rule34xxx);
}

#[test]
fn check_image_accepts_image_extensions_only() {
    assert!(check_image("a/b.png"));
    assert!(check_image("x.jpg"));
    assert!(check_image("x.jpeg"));
    assert!(check_image("x.gif"));
    assert!(check_image("x.webp"));
    assert!(!check_image("x.mp4"));
    assert!(!check_image("x.PNG"));
    assert!(!check_image("x.png?download=1"));
    assert!(!check_image(""));
}

#[test]
fn base_domain_of_secure_and_plain_links() {
    assert_eq!(get_base_domain("https://rule34.xxx/index.php?id=1"), "https://rule34.xxx/");
    assert_eq!(get_base_domain("http://rule34.us/a/b"), "http://rule34.us/");
    assert_eq!(get_base_domain("https://nozomi.la"), "https://nozomi.la/");
    assert_eq!(get_base_domain("http://x"), "http://x/");
    // Seven bytes are skipped for links that are not https.
    assert_eq!(get_base_domain("ftp://host/file"), "ftp://host/");
    assert_eq!(get_base_domain("abcdefg/h"), "abcdefg/");
}

#[test]
fn base_domain_counts_bytes_not_characters() {
    // "é" takes two bytes, so byte 7 is the start of "/".
    assert_eq!(get_base_domain("aéééé/x/y"), "aéééé/");
}

#[test]
fn nozomi_id_is_read_from_post_link() {
    assert_eq!(get_nozomi_id_from_link("https://nozomi.la/post/31415926.html#tag").unwrap(), "31415926");
    assert_eq!(get_nozomi_id_from_link("https://nozomi.la/post/7.html").unwrap(), "7");
    assert_eq!(
        get_nozomi_id_from_link("https://nozomi.la/post/abc.html"),
        Err(ScrapeError::NozomiIdNotFound)
    );
    assert_eq!(get_nozomi_id_from_link("https://nozomi.la/"), Err(ScrapeError::NozomiIdNotFound));
}

#[test]
fn nozomi_links_for_long_ids() {
    assert_eq!(
        generate_nozomi_link_from_id("12345", DataType::Image).unwrap(),
        "https://w.gold-usergeneratedcontent.net/5/34/12345.webp"
    );
    assert_eq!(
        generate_nozomi_link_from_id("12345", DataType::Json).unwrap(),
        "https://j.gold-usergeneratedcontent.net/post/5/34/12345.json"
    );
    assert_eq!(
        generate_nozomi_link_from_id("abc", DataType::Image).unwrap(),
        "https://w.gold-usergeneratedcontent.net/c/ab/abc.webp"
    );
}

#[test]
fn nozomi_links_for_short_ids() {
    assert_eq!(
        generate_nozomi_link_from_id("42", DataType::Image).unwrap(),
        "https://w.gold-usergeneratedcontent.net/42.webp"
    );
    assert_eq!(
        generate_nozomi_link_from_id("", DataType::Json).unwrap(),
        "https://j.gold-usergeneratedcontent.net/.json"
    );
}

#[test]
fn nozomi_request_names_record_and_referer() {
    let q = nozomi_request("https://nozomi.la/post/987654.html").unwrap();
    assert_eq!(q.referer, "https://nozomi.la/");
    assert_eq!(q.url, "https://j.gold-usergeneratedcontent.net/post/4/65/987654.json");
    assert_eq!(
        nozomi_request("https://nozomi.la/tag/x.html").unwrap_err(),
        ScrapeError::NozomiIdNotFound
    );
}

#[test]
fn media_link_and_extension() {
    let image = MediaType::Image("https://a/b.png".to_string());
    assert_eq!(image.get_link_and_extension(), Some(("https://a/b.png".to_string(), "png")));
    let video = MediaType::Video("https://a/v".to_string());
    assert_eq!(video.get_link_and_extension(), Some(("https://a/v".to_string(), "mp4")));
    assert_eq!(MediaType::NotFound.get_link_and_extension(), None);
}

#[test]
fn link_list_skips_blank_and_comment_lines() {
    let text = "  https://a/1  \n\n# comment\r\nhttps://b/2\r\n   \t\n#x\nhttps://c/3";
    assert_eq!(links_from_text(text), vec!["https://a/1", "https://b/2", "https://c/3"]);
    assert!(links_from_text("").is_empty());
    assert_eq!(links_from_text(" a # b \n"), vec!["a # b"]);
}

fn config_with(cookies: Vec<(&str, &str)>) -> Config {
    Config {
        paths: PathsConfig {
            links_file: "links.txt".to_string(),
            save_root: "out".to_string(),
            sub_dir: "set".to_string(),
            start_name: "0".to_string(),
        },
        timings: TimingsConfig { request_delay: "100".to_string() },
        site_cookies: cookies.into_iter().map(|(k, v)| (k.to_string(), v.to_string())).collect(),
    }
}

#[test]
fn cookie_lookup_by_site() {
    let c = config_with(vec![("rule34.xxx", "a=1"), ("nozomi.la", "b=2")]);
    assert_eq!(c.get_cookie_for_site("nozomi.la"), "b=2");
    assert_eq!(c.get_cookie_for_site("rule34.xxx"), "a=1");
    assert_eq!(c.get_cookie_for_site("gelbooru.com"), "");
    assert_eq!(config_with(vec![]).get_cookie_for_site("x"), "");
}

#[test]
fn page_client_headers() {
    let h = client::request_headers("UA/1", "k=v");
    assert_eq!(h.len(), 6);
    assert_eq!(h[0], ("user-agent".to_string(), "UA/1".to_string()));
    assert_eq!(h[4].0, "accept");
    assert_eq!(h[5], ("cookie".to_string(), "k=v".to_string()));
    assert_eq!(client::request_headers("UA/1", "").len(), 5);
}

#[test]
fn emulating_client_headers() {
    assert_eq!(
        gigaclient::request_headers("UA", "c=1"),
        vec![("user-agent".to_string(), "UA".to_string()), ("cookie".to_string(), "c=1".to_string())]
    );
    assert_eq!(gigaclient::request_headers("UA", ""), vec![("user-agent".to_string(), "UA".to_string())]);
}

#[test]
fn text_operations() {
    assert_eq!(trim_str("\u{3000} a b \t\n"), "a b");
    assert_eq!(trim_str("   "), "");
    assert!(contains_str("abcdef", "cde"));
    assert!(!contains_str("abc", "abcd"));
    assert!(contains_str("abc", ""));
    assert!(starts_with_str("https://x", "https://"));
    assert!(!starts_with_str("http", "https"));
    assert!(ends_with_str("x.webp", ".webp"));
    assert_eq!(i32_to_decimal(0), "0");
    assert_eq!(i32_to_decimal(1234), "1234");
    assert_eq!(i32_to_decimal(-56), "-56");
    assert_eq!(i32_to_decimal(i32::MIN), "-2147483648");
    assert_eq!(i32_to_decimal(i32::MAX), "2147483647");
}
