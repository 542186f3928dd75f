use booru_fetch::models::types::{ImageInfo, MediaType, Rule34Parse, ScrapeError};
use booru_fetch::parsers::nozomi::{ApiJson, InnerImage, InnerTag};
use booru_fetch::parsers::{danbooru, nozomi, rule34_us, rule34_xxx, rule34video};
use booru_fetch::utility::utils::tags_file_content;

fn link_of(m: MediaType) -> (String, &'static str) {
    m.get_link_and_extension().expect("media expected")
}

const DANBOORU_PAGE: &str = r#"<html><body>
<section id="tag-list">
  <ul class="artist-tag-list"><li><a class="search-tag" href="/a">  some_artist </a></li></ul>
  <ul class="copyright-tag-list"><li><a class="search-tag" href="/c">series</a></li></ul>
  <ul class="character-tag-list"><li><a class="search-tag">hero</a><a class="search-tag">x</a></li></ul>
  <ul class="general-tag-list"><li><a class="wiki-link search-tag" href="/g">1girl</a></li>
      <li><a class="search-tagged">nope</a></li></ul>
  <ul class="other"><li><a class="search-tag">ignored</a></li></ul>
</section>
<section class="image-container" data-file-url="https://cdn.donmai.us/original/ab/cd/abcd.jpg"></section>
</body></html>"#;

#[test]
fn danbooru_tags_by_list() {
    let info = danbooru::extract_tags(DANBOORU_PAGE).unwrap();
    assert_eq!(info.authors, vec!["some_artist"]);
    assert_eq!(info.titles, vec!["series"]);
    // One-byte tags are dropped.
    assert_eq!(info.characters, vec!["hero"]);
    assert_eq!(info.general, vec!["1girl"]);
}

#[test]
fn danbooru_image_link() {
    let m = danbooru::extract_media_link(DANBOORU_PAGE).unwrap();
    assert!(matches!(m, MediaType::Image(_)));
    assert_eq!(link_of(m).0, "https://cdn.donmai.us/original/ab/cd/abcd.jpg");
}

#[test]
fn danbooru_video_and_nothing() {
    let page = r#"<div class="image-container" data-file-url="https://x/y.mp4"></div>
        <div id="gelcomVideoPlayer"><source src="https://x/y.mp4"><source src="z"></div>"#;
    let m = danbooru::extract_media_link(page).unwrap();
    assert!(matches!(m, MediaType::Video(ref l) if l == "https://x/y.mp4"));
    let m = danbooru::extract_media_link("<p>nothing</p>").unwrap();
    assert!(matches!(m, MediaType::NotFound));
}

const RULE34_US_PAGE: &str = r#"<html><body>
<ul id="tag-list ">
  <li class="copyright-tag"><a href="/1">Some Show</a></li>
  <li class="artist-tag"><a href="/2">painter</a></li>
  <li class="character-tag"><a href="/3">Lead</a></li>
  <li class="general-tag"><a href="/4">outdoors</a><a>b</a></li>
  <li class="other"><a href="/5">skip me</a></li>
</ul>
<div class="content_push"><img src="https://img.rule34.us/images/aa/bb/file.png"></div>
</body></html>"#;

#[test]
fn rule34_us_tags_and_image() {
    let info = rule34_us::extract_tags(RULE34_US_PAGE).unwrap();
    assert_eq!(info.titles, vec!["Some Show"]);
    assert_eq!(info.authors, vec!["painter"]);
    assert_eq!(info.characters, vec!["Lead"]);
    assert_eq!(info.general, vec!["outdoors"]);
    let m = rule34_us::extract_media_link(RULE34_US_PAGE).unwrap();
    assert_eq!(link_of(m), ("https://img.rule34.us/images/aa/bb/file.png".to_string(), "png"));
}

#[test]
fn rule34_us_without_sidebar_has_no_tags() {
    let info = rule34_us::extract_tags("<ul id=\"tag-list\"><li class=\"general-tag\"><a>tag</a></li></ul>").unwrap();
    assert!(info.general.is_empty() && info.authors.is_empty());
}

#[test]
fn rule34_us_video_is_second_source() {
    let page = r#"<video><source src="first.webm"><source src="https://v/second.mp4"></video>"#;
    let m = rule34_us::extract_media_link(page).unwrap();
    assert!(matches!(m, MediaType::Video(ref l) if l == "https://v/second.mp4"));
    let one = r#"<video><source src="only.mp4"></video>"#;
    assert!(matches!(rule34_us::extract_media_link(one).unwrap(), MediaType::NotFound));
}

const RULE34_XXX_PAGE: &str = r#"<html><body>
<ul id="tag-sidebar">
  <li class="tag-type-copyright tag"><a href="?">?</a> <a href="/c">original</a></li>
  <li class="tag-type-artist tag"><a href="/a">drawer</a></li>
  <li class="tag-type-general"><a href="/g">not a tag item</a></li>
  <li class="tag-type-general tag"><a href="/g">long hair</a></li>
</ul>
<script>
  image = {'domain':'https://wimg.rule34.xxx/', 'width':100, 'height':100,'dir':1234, 'img':'abc.jpeg', 'base_dir':'images', 'sample_dir':'samples'};
</script>
</body></html>"#;

#[test]
fn rule34_xxx_tags() {
    let info = rule34_xxx::extract_tags(RULE34_XXX_PAGE).unwrap();
    assert_eq!(info.titles, vec!["original"]);
    assert_eq!(info.authors, vec!["drawer"]);
    assert_eq!(info.general, vec!["long hair"]);
    assert!(info.characters.is_empty());
}

#[test]
fn rule34_xxx_image_object_text() {
    let text = rule34_xxx::image_object_text(RULE34_XXX_PAGE).unwrap();
    assert!(text.starts_with("{\"domain\":\"https://wimg.rule34.xxx/\""));
    assert!(text.ends_with("\"sample_dir\":\"samples\"}"));
    assert_eq!(rule34_xxx::image_object_text("no object here"), None);
    assert_eq!(rule34_xxx::image_object_text("image = {'a':1} no end"), None);
}

#[test]
fn rule34_xxx_image_from_decoded_object() {
    let info = Rule34Parse {
        domain: "https://wimg.rule34.xxx/".to_string(),
        dir: 1234,
        img: "abc.jpeg".to_string(),
        base_dir: "images".to_string(),
    };
    assert_eq!(
        rule34_xxx::image_link(&info),
        Some("https://wimg.rule34.xxx//images/1234/abc.jpeg".to_string())
    );
    let m = rule34_xxx::extract_media_link(RULE34_XXX_PAGE, Some(&info)).unwrap();
    assert_eq!(link_of(m).1, "png");
    let video = Rule34Parse { img: "clip.mp4".to_string(), dir: -3, ..info };
    assert_eq!(rule34_xxx::image_link(&video), None);
    let m = rule34_xxx::extract_media_link("<p></p>", Some(&video)).unwrap();
    assert!(matches!(m, MediaType::NotFound));
}

fn tag(name: &str) -> InnerTag {
    InnerTag { name: name.to_string() }
}

#[test]
fn nozomi_tags_and_image() {
    let data = ApiJson {
        artist: Some(vec![tag("artist a")]),
        copyright: None,
        character: Some(vec![tag("c1"), tag(" c2 ")]),
        general: Some(vec![]),
        imageurls: Some(vec![InnerImage { dataid: "abcdef1234".to_string() }]),
    };
    let info = nozomi::extract_tags(&data);
    assert_eq!(info.authors, vec!["artist a"]);
    assert!(info.titles.is_empty());
    assert_eq!(info.characters, vec!["c1", " c2 "]);
    assert!(info.general.is_empty());
    let m = nozomi::extract_media_link("{\"imageurls\":[]}", &data).unwrap();
    assert_eq!(
        link_of(m).0,
        "https://w.gold-usergeneratedcontent.net/4/23/abcdef1234.webp"
    );
    let empty = ApiJson { artist: None, copyright: None, character: None, general: None, imageurls: Some(vec![]) };
    assert!(matches!(nozomi::extract_media_link("{}", &empty).unwrap(), MediaType::NotFound));
}

const RULE34VIDEO_PAGE: &str = r#"<html><body>
<script>var flashvars = { video_id: '1', video_tags: 'tag one, tag two,, ,last ', license_code: 'x' };</script>
<div class="wrap"><div class="label">Info</div><a href="https://x/info">2160p</a></div>
<div class="wrap"><div class="label"> Download </div>
  <a href="https://rule34video.com/get_file/1/aa/480.mp4/">MP4 480p</a>
  <a href="https://rule34video.com/get_file/1/aa/1080.mp4/">MP4 1080p</a>
  <a href="https://rule34video.com/get_file/1/aa/720.mp4/">MP4 720p</a>
</div>
</body></html>"#;

#[test]
fn rule34video_tags_from_script() {
    let info = rule34video::extract_tags(RULE34VIDEO_PAGE).unwrap();
    assert_eq!(info.general, vec!["tag one", "tag two", "last"]);
    assert!(info.authors.is_empty());
    let none = rule34video::extract_tags("<p>video_tags: ''</p>").unwrap();
    assert!(none.general.is_empty());
}

#[test]
fn rule34video_prefers_highest_quality() {
    assert_eq!(
        rule34video::find_download_link(RULE34VIDEO_PAGE),
        Some("https://rule34video.com/get_file/1/aa/1080.mp4/".to_string())
    );
    let plain = r#"<div class="wrap"><span class="label">Download</span><a href="u1">low</a><a href="u2">other</a></div>"#;
    assert_eq!(rule34video::find_download_link(plain), Some("u1".to_string()));
    let empty = r#"<div class="wrap"><span class="label">Download</span></div>"#;
    assert_eq!(rule34video::find_download_link(empty), None);
}

#[test]
fn rule34video_hidden_link_outcomes() {
    let m = rule34video::hidden_link_result("https://h", 302, Some(Some("https://cdn/v.mp4".to_string()))).unwrap();
    assert!(matches!(m, MediaType::Video(ref l) if l == "https://cdn/v.mp4"));
    let m = rule34video::hidden_link_result("https://h", 200, None).unwrap();
    assert!(matches!(m, MediaType::Video(ref l) if l == "https://h"));
    assert_eq!(rule34video::hidden_link_result("h", 301, None).unwrap_err(), ScrapeError::MissingLocation(301));
    assert_eq!(rule34video::hidden_link_result("h", 307, Some(None)).unwrap_err(), ScrapeError::InvalidLocation);
    assert_eq!(rule34video::hidden_link_result("h", 404, None).unwrap_err(), ScrapeError::UnexpectedStatus(404));
}

#[test]
fn tags_file_layout() {
    let info = ImageInfo {
        authors: vec!["a1".to_string()],
        titles: vec![],
        characters: vec!["c1".to_string(), "c2".to_string()],
        general: vec!["g".to_string()],
    };
    assert_eq!(tags_file_content(&info), "[author]\na1\n\n[character]\nc1\nc2\n\n[general]\ng");
    assert_eq!(tags_file_content(&ImageInfo::new()), "");
}
