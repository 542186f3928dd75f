//! Danbooru post pages.
use vstd::prelude::*;

use crate::html::{
    attr_or_empty, item_tags, lemma_gather_tags_complete, lemma_gather_tags_sound, node_find, doc_find, find_in_document, gather_tags, collect_tags, parse_html, parsed_html, HtmlDoc,
    NodeTest, NodeView,
};
use crate::models::types::{ImageInfo, Media, MediaType, ScrapeError, TagCategory, TagLists};
use crate::parsers::common::{
    classify_containers, classify_nodes, lemma_classify_nodes_complete, lemma_classify_nodes_sound, first_image_attr, first_image_attr_exec, gelcom_video,
    gelcom_video_exec, media_from, media_of, TagScheme,
};
use crate::text::{contains, contains_str};

verus! {

/// The kind of tag list that a `ul` with this `class` holds.
pub open spec fn danbooru_category(class: Seq<char>) -> Option<TagCategory> {
    if contains(class, "artist-tag-list"@) {
        Some(TagCategory::Author)
    } else if contains(class, "copyright-tag-list"@) {
        Some(TagCategory::Title)
    } else if contains(class, "character-tag-list"@) {
        Some(TagCategory::Character)
    } else if contains(class, "general-tag-list"@) {
        Some(TagCategory::General)
    } else {
        None
    }
}

/// The kind of tag list that a `ul` with this `class` holds.
pub fn classify(class: &str) -> (r: Option<TagCategory>)
    ensures
        r == danbooru_category(class@),
{
    if contains_str(class, "artist-tag-list") {
        Some(TagCategory::Author)
    } else if contains_str(class, "copyright-tag-list") {
        Some(TagCategory::Title)
    } else if contains_str(class, "character-tag-list") {
        Some(TagCategory::Character)
    } else if contains_str(class, "general-tag-list") {
        Some(TagCategory::General)
    } else {
        None
    }
}

/// The kind of tag list that a `ul` holds is the first kind whose marker its
/// class mentions, in the order artist-tag-list (author), copyright-tag-list
/// (title), character-tag-list (character), general-tag-list (general); a
/// class that mentions none of them marks no tag list.
pub proof fn law_category_by_class(class: Seq<char>)
    ensures
        contains(class, "artist-tag-list"@) ==> danbooru_category(class) == Some(TagCategory::Author),
        !contains(class, "artist-tag-list"@) && contains(class, "copyright-tag-list"@)
            ==> danbooru_category(class) == Some(TagCategory::Title),
        !contains(class, "artist-tag-list"@) && !contains(class, "copyright-tag-list"@) && contains(
            class,
            "character-tag-list"@,
        ) ==> danbooru_category(class) == Some(TagCategory::Character),
        !contains(class, "artist-tag-list"@) && !contains(class, "copyright-tag-list"@) && !contains(
            class,
            "character-tag-list"@,
        ) && contains(class, "general-tag-list"@) ==> danbooru_category(class) == Some(
            TagCategory::General,
        ),
        !contains(class, "artist-tag-list"@) && !contains(class, "copyright-tag-list"@) && !contains(
            class,
            "character-tag-list"@,
        ) && !contains(class, "general-tag-list"@) ==> danbooru_category(class) is None,
{
}

/// Every tag of a `ul` whose class marks a kind of tag list is read under
/// that kind: each trimmed `search-tag` text longer than one byte of such a
/// list is in the page's list of that kind.
pub proof fn law_list_tags_filed_by_kind(d: Seq<NodeView>, k: int, cat: TagCategory, j: int)
    requires
        0 <= k < doc_find(d, NodeTest::Named("ul")).len(),
        danbooru_category(attr_or_empty(d[doc_find(d, NodeTest::Named("ul"))[k] as int], "class"@))
            == Some(cat),
        0 <= j < item_tags(
            d,
            node_find(d, doc_find(d, NodeTest::Named("ul"))[k] as int, NodeTest::Class("search-tag")),
        ).len(),
    ensures
        danbooru_tags(d).of_kind(cat).contains(
            item_tags(
                d,
                node_find(d, doc_find(d, NodeTest::Named("ul"))[k] as int, NodeTest::Class("search-tag")),
            )[j],
        ),
{
    let lists = doc_find(d, NodeTest::Named("ul"));
    let m = lemma_classify_nodes_complete(d, lists, TagScheme::Danbooru, k, cat);
    lemma_gather_tags_complete(d, classify_nodes(d, lists, TagScheme::Danbooru), NodeTest::Class("search-tag"), m, j);
}

/// Every tag filed under a kind comes from a `search-tag` of a `ul` whose
/// class marks that kind.
pub proof fn law_list_tags_come_from_their_kind(d: Seq<NodeView>, cat: TagCategory, t: Seq<char>)
    requires
        danbooru_tags(d).of_kind(cat).contains(t),
    ensures
        exists|k: int|
            0 <= k < doc_find(d, NodeTest::Named("ul")).len() && danbooru_category(
                attr_or_empty(d[(#[trigger] doc_find(d, NodeTest::Named("ul"))[k]) as int], "class"@),
            ) == Some(cat) && item_tags(
                d,
                node_find(d, doc_find(d, NodeTest::Named("ul"))[k] as int, NodeTest::Class("search-tag")),
            ).contains(t),
{
    let lists = doc_find(d, NodeTest::Named("ul"));
    let containers = classify_nodes(d, lists, TagScheme::Danbooru);
    lemma_gather_tags_sound(d, containers, NodeTest::Class("search-tag"), cat, t);
    let k = choose|k: int|
        0 <= k < containers.len() && (#[trigger] containers[k]).1 == cat && item_tags(
            d,
            node_find(d, containers[k].0 as int, NodeTest::Class("search-tag")),
        ).contains(t);
    lemma_classify_nodes_sound(d, lists, TagScheme::Danbooru, k);
}

/// The tags of a Danbooru page: every `ul` that is a tag list contributes the
/// texts of its `search-tag` links.
pub open spec fn danbooru_tags(d: Seq<NodeView>) -> TagLists {
    gather_tags(
        d,
        classify_nodes(d, doc_find(d, NodeTest::Named("ul")), TagScheme::Danbooru),
        NodeTest::Class("search-tag"),
    )
}

/// The tags of a parsed Danbooru page.
pub fn tags_from_document(doc: &HtmlDoc) -> (r: ImageInfo)
    requires
        doc.wf(),
    ensures
        r@ == danbooru_tags(doc@),
{
    let lists = find_in_document(doc, &NodeTest::Named("ul"));
    let containers = classify_containers(doc, &lists, TagScheme::Danbooru);
    collect_tags(doc, &containers, &NodeTest::Class("search-tag"))
}

/// The tags of a Danbooru page.
pub fn extract_tags(html_content: &str) -> (r: Result<ImageInfo, ScrapeError>)
    ensures
        r matches Ok(info) && info@ == danbooru_tags(parsed_html(html_content@)),
{
    let doc = parse_html(html_content);
    Ok(tags_from_document(&doc))
}

/// The media of a Danbooru page: the `data-file-url` of the first
/// `image-container` that names an image file, else the Gelbooru-style video.
pub open spec fn danbooru_media(d: Seq<NodeView>) -> Media {
    media_of(
        first_image_attr(d, doc_find(d, NodeTest::Class("image-container")), "data-file-url"@),
        gelcom_video(d),
    )
}

/// The media of a parsed Danbooru page.
pub fn media_from_document(doc: &HtmlDoc) -> (r: MediaType)
    requires
        doc.wf(),
    ensures
        r@ == danbooru_media(doc@),
{
    let containers = find_in_document(doc, &NodeTest::Class("image-container"));
    let image = first_image_attr_exec(doc, &containers, "data-file-url");
    let video = gelcom_video_exec(doc);
    media_from(image, video)
}

/// The media of a Danbooru page.
pub fn extract_media_link(html_content: &str) -> (r: Result<MediaType, ScrapeError>)
    ensures
        r matches Ok(m) && m@ == danbooru_media(parsed_html(html_content@)),
{
    let doc = parse_html(html_content);
    Ok(media_from_document(&doc))
}

/// Every tag read from a Danbooru page is trimmed and longer than one byte.
pub proof fn law_tags_are_clean(d: Seq<NodeView>)
    ensures
        danbooru_tags(d).clean(),
{
    crate::html::lemma_gather_tags_clean(
        d,
        classify_nodes(d, doc_find(d, NodeTest::Named("ul")), TagScheme::Danbooru),
        NodeTest::Class("search-tag"),
    );
}

} // verus!
