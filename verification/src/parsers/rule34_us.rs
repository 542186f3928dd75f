//! rule34.us post pages.
use vstd::prelude::*;

use crate::html::{
    attr, attr_of, attr_or_empty, item_tags, lemma_gather_tags_complete, lemma_gather_tags_sound, collect_tags, doc_find, find_in_document, find_in_node, first, gather_tags,
    node_find, parse_html, parsed_html, HtmlDoc, NodeTest, NodeView,
};
use crate::models::types::{ImageInfo, Media, MediaType, ScrapeError, TagCategory, TagLists};
use crate::parsers::common::{
    classify_containers, classify_nodes, lemma_classify_nodes_complete, lemma_classify_nodes_sound, media_from, media_of, TagScheme,
};
use crate::text::{contains, contains_str, opt_view};
use crate::utility::utils::{check_image, is_image_link};

verus! {

/// The kind of tag that an `li` with this `class` holds.
pub open spec fn rule34_us_category(class: Seq<char>) -> Option<TagCategory> {
    if contains(class, "copyright-tag"@) {
        Some(TagCategory::Title)
    } else if contains(class, "artist-tag"@) {
        Some(TagCategory::Author)
    } else if contains(class, "character-tag"@) {
        Some(TagCategory::Character)
    } else if contains(class, "general-tag"@) {
        Some(TagCategory::General)
    } else {
        None
    }
}

/// The kind of tag that an `li` with this `class` holds.
pub fn classify(class: &str) -> (r: Option<TagCategory>)
    ensures
        r == rule34_us_category(class@),
{
    if contains_str(class, "copyright-tag") {
        Some(TagCategory::Title)
    } else if contains_str(class, "artist-tag") {
        Some(TagCategory::Author)
    } else if contains_str(class, "character-tag") {
        Some(TagCategory::Character)
    } else if contains_str(class, "general-tag") {
        Some(TagCategory::General)
    } else {
        None
    }
}

/// The kind of tag that a tag list `li` is the first kind whose marker its class mentions,
/// in the order copyright-tag (title), artist-tag (author), character-tag (character),
/// general-tag (general); a class that mentions none of them holds no tags.
pub proof fn law_category_by_class(class: Seq<char>)
    ensures
        contains(class, "copyright-tag"@) ==> rule34_us_category(class) == Some(TagCategory::Title),
        !contains(class, "copyright-tag"@) && contains(class, "artist-tag"@) ==> rule34_us_category(class)
            == Some(TagCategory::Author),
        !contains(class, "copyright-tag"@) && !contains(class, "artist-tag"@) && contains(
            class,
            "character-tag"@,
        ) ==> rule34_us_category(class) == Some(TagCategory::Character),
        !contains(class, "copyright-tag"@) && !contains(class, "artist-tag"@) && !contains(
            class,
            "character-tag"@,
        ) && contains(class, "general-tag"@) ==> rule34_us_category(class) == Some(TagCategory::General),
        !contains(class, "copyright-tag"@) && !contains(class, "artist-tag"@) && !contains(
            class,
            "character-tag"@,
        ) && !contains(class, "general-tag"@) ==> rule34_us_category(class) is None,
{
}

/// Every tag of an `li` of the tag list whose class marks a kind of tag is
/// read under that kind: each trimmed link text longer than one byte of such
/// an `li` is in the page's list of that kind.
pub proof fn law_list_tags_filed_by_kind(d: Seq<NodeView>, s: usize, k: int, cat: TagCategory, j: int)
    requires
        first(doc_find(d, NodeTest::AttrIs("id", "tag-list "))) == Some(s),
        0 <= k < node_find(d, s as int, NodeTest::Named("li")).len(),
        rule34_us_category(
            attr_or_empty(d[node_find(d, s as int, NodeTest::Named("li"))[k] as int], "class"@),
        ) == Some(cat),
        0 <= j < item_tags(
            d,
            node_find(d, node_find(d, s as int, NodeTest::Named("li"))[k] as int, NodeTest::Named("a")),
        ).len(),
    ensures
        rule34_us_tags(d).of_kind(cat).contains(
            item_tags(
                d,
                node_find(d, node_find(d, s as int, NodeTest::Named("li"))[k] as int, NodeTest::Named("a")),
            )[j],
        ),
{
    let items = node_find(d, s as int, NodeTest::Named("li"));
    let m = lemma_classify_nodes_complete(d, items, TagScheme::Rule34Us, k, cat);
    lemma_gather_tags_complete(d, classify_nodes(d, items, TagScheme::Rule34Us), NodeTest::Named("a"), m, j);
}

/// Every tag filed under a kind comes from a link of an `li` of the tag list
/// whose class marks that kind; a page without the tag list has no tags.
pub proof fn law_list_tags_come_from_their_kind(d: Seq<NodeView>, cat: TagCategory, t: Seq<char>)
    requires
        rule34_us_tags(d).of_kind(cat).contains(t),
    ensures
        first(doc_find(d, NodeTest::AttrIs("id", "tag-list "))) matches Some(s) && exists|k: int|
            0 <= k < node_find(d, s as int, NodeTest::Named("li")).len() && rule34_us_category(
                attr_or_empty(d[(#[trigger] node_find(d, s as int, NodeTest::Named("li"))[k]) as int], "class"@),
            ) == Some(cat) && item_tags(d, node_find(d, node_find(d, s as int, NodeTest::Named("li"))[k] as int, NodeTest::Named("a"))).contains(t),
{
    match first(doc_find(d, NodeTest::AttrIs("id", "tag-list "))) {
        None => {
            assert(TagLists::empty().of_kind(cat) =~= Seq::<Seq<char>>::empty());
        },
        Some(s) => {
            let items = node_find(d, s as int, NodeTest::Named("li"));
            let containers = classify_nodes(d, items, TagScheme::Rule34Us);
            lemma_gather_tags_sound(d, containers, NodeTest::Named("a"), cat, t);
            let k = choose|k: int|
                0 <= k < containers.len() && (#[trigger] containers[k]).1 == cat && item_tags(
                    d,
                    node_find(d, containers[k].0 as int, NodeTest::Named("a")),
                ).contains(t);
            lemma_classify_nodes_sound(d, items, TagScheme::Rule34Us, k);
        },
    }
}

/// The tags of a rule34.us page: inside the first element whose id is
/// `tag-list ` (with the trailing space), every `li` that marks a kind of tag
/// contributes the texts of its links. Without that element there are none.
pub open spec fn rule34_us_tags(d: Seq<NodeView>) -> TagLists {
    match first(doc_find(d, NodeTest::AttrIs("id", "tag-list "))) {
        None => TagLists::empty(),
        Some(s) => gather_tags(
            d,
            classify_nodes(d, node_find(d, s as int, NodeTest::Named("li")), TagScheme::Rule34Us),
            NodeTest::Named("a"),
        ),
    }
}

/// The tags of a parsed rule34.us page.
pub fn tags_from_document(doc: &HtmlDoc) -> (r: ImageInfo)
    requires
        doc.wf(),
    ensures
        r@ == rule34_us_tags(doc@),
{
    let sidebars = find_in_document(doc, &NodeTest::AttrIs("id", "tag-list "));
    if sidebars.len() == 0 {
        return ImageInfo::new();
    }
    let items = find_in_node(doc, sidebars[0], &NodeTest::Named("li"));
    let containers = classify_containers(doc, &items, TagScheme::Rule34Us);
    collect_tags(doc, &containers, &NodeTest::Named("a"))
}

/// The tags of a rule34.us page.
pub fn extract_tags(html_content: &str) -> (r: Result<ImageInfo, ScrapeError>)
    ensures
        r matches Ok(info) && info@ == rule34_us_tags(parsed_html(html_content@)),
{
    let doc = parse_html(html_content);
    Ok(tags_from_document(&doc))
}

/// The image of a rule34.us page: the `src` of the first `img` inside the
/// first element whose class is exactly `content_push`, when it names an image file.
pub open spec fn rule34_us_image(d: Seq<NodeView>) -> Option<Seq<char>> {
    match first(doc_find(d, NodeTest::AttrIs("class", "content_push"))) {
        None => None,
        Some(c) => match first(node_find(d, c as int, NodeTest::Named("img"))) {
            None => None,
            Some(i) => match attr_of(d[i as int], "src"@) {
                Some(src) => if is_image_link(src) {
                    Some(src)
                } else {
                    None
                },
                None => None,
            },
        },
    }
}

/// The video of a rule34.us page: the `src` of the second `source` inside the first `video`.
pub open spec fn rule34_us_video(d: Seq<NodeView>) -> Option<Seq<char>> {
    match first(doc_find(d, NodeTest::Named("video"))) {
        None => None,
        Some(v) => {
            let sources = node_find(d, v as int, NodeTest::Named("source"));
            if sources.len() >= 2 {
                attr_of(d[sources[1] as int], "src"@)
            } else {
                None
            }
        },
    }
}

/// The media of a rule34.us page.
pub open spec fn rule34_us_media(d: Seq<NodeView>) -> Media {
    media_of(rule34_us_image(d), rule34_us_video(d))
}

fn image_in(doc: &HtmlDoc) -> (r: Option<String>)
    requires
        doc.wf(),
    ensures
        opt_view(r) == rule34_us_image(doc@),
{
    let pushes = find_in_document(doc, &NodeTest::AttrIs("class", "content_push"));
    if pushes.len() == 0 {
        return None;
    }
    let imgs = find_in_node(doc, pushes[0], &NodeTest::Named("img"));
    if imgs.len() == 0 {
        return None;
    }
    match attr(&doc.nodes[imgs[0]], "src") {
        Some(src) => {
            if check_image(src.as_str()) {
                Some(src)
            } else {
                None
            }
        },
        None => None,
    }
}

fn video_in(doc: &HtmlDoc) -> (r: Option<String>)
    requires
        doc.wf(),
    ensures
        opt_view(r) == rule34_us_video(doc@),
{
    let videos = find_in_document(doc, &NodeTest::Named("video"));
    if videos.len() == 0 {
        return None;
    }
    let sources = find_in_node(doc, videos[0], &NodeTest::Named("source"));
    if sources.len() >= 2 {
        attr(&doc.nodes[sources[1]], "src")
    } else {
        None
    }
}

/// The media of a parsed rule34.us page.
pub fn media_from_document(doc: &HtmlDoc) -> (r: MediaType)
    requires
        doc.wf(),
    ensures
        r@ == rule34_us_media(doc@),
{
    let image = image_in(doc);
    let video = video_in(doc);
    media_from(image, video)
}

/// The media of a rule34.us page.
pub fn extract_media_link(html_content: &str) -> (r: Result<MediaType, ScrapeError>)
    ensures
        r matches Ok(m) && m@ == rule34_us_media(parsed_html(html_content@)),
{
    let doc = parse_html(html_content);
    Ok(media_from_document(&doc))
}

/// Every tag read from a rule34.us page is trimmed and longer than one byte.
pub proof fn law_tags_are_clean(d: Seq<NodeView>)
    ensures
        rule34_us_tags(d).clean(),
{
    match first(doc_find(d, NodeTest::AttrIs("id", "tag-list "))) {
        None => {},
        Some(s) => crate::html::lemma_gather_tags_clean(
            d,
            classify_nodes(d, node_find(d, s as int, NodeTest::Named("li")), TagScheme::Rule34Us),
            NodeTest::Named("a"),
        ),
    }
}

} // verus!
