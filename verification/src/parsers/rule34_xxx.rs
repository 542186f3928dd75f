//! rule34.xxx post pages.
use vstd::prelude::*;

use crate::html::{
    attr_or_empty, item_tags, lemma_gather_tags_complete, lemma_gather_tags_sound, collect_tags, doc_find, find_in_document, find_in_node, first, gather_tags, node_find,
    parse_html, parsed_html, HtmlDoc, NodeTest, NodeView,
};
use crate::models::types::{
    ImageInfo, Media, MediaType, Rule34Parse, ScrapeError, TagCategory, TagLists,
};
use crate::parsers::common::{
    classify_containers, classify_nodes, lemma_classify_nodes_complete, lemma_classify_nodes_sound, gelcom_video, gelcom_video_exec, media_from, media_of,
    TagScheme,
};
use crate::text::{
    chars_of, contains, contains_str, decimal, find, find_chars, find_chars_from, find_from,
    i32_to_decimal, opt_view, push_char,
};
use crate::utility::utils::{check_image, is_image_link};
use vstd::string::StringExecFns;

verus! {

/// The kind of tag that an `li` with this `class` holds.
pub open spec fn rule34_xxx_category(class: Seq<char>) -> Option<TagCategory> {
    if contains(class, "tag-type-copyright"@) {
        Some(TagCategory::Title)
    } else if contains(class, "tag-type-artist"@) {
        Some(TagCategory::Author)
    } else if contains(class, "tag-type-character"@) {
        Some(TagCategory::Character)
    } else if contains(class, "tag-type-general"@) {
        Some(TagCategory::General)
    } else {
        None
    }
}

/// The kind of tag that an `li` with this `class` holds.
pub fn classify(class: &str) -> (r: Option<TagCategory>)
    ensures
        r == rule34_xxx_category(class@),
{
    if contains_str(class, "tag-type-copyright") {
        Some(TagCategory::Title)
    } else if contains_str(class, "tag-type-artist") {
        Some(TagCategory::Author)
    } else if contains_str(class, "tag-type-character") {
        Some(TagCategory::Character)
    } else if contains_str(class, "tag-type-general") {
        Some(TagCategory::General)
    } else {
        None
    }
}

/// The kind of tag that a sidebar `li` is the first kind whose marker its class mentions,
/// in the order tag-type-copyright (title), tag-type-artist (author), tag-type-character (character),
/// tag-type-general (general); a class that mentions none of them holds no tags.
pub proof fn law_category_by_class(class: Seq<char>)
    ensures
        contains(class, "tag-type-copyright"@) ==> rule34_xxx_category(class) == Some(TagCategory::Title),
        !contains(class, "tag-type-copyright"@) && contains(class, "tag-type-artist"@) ==> rule34_xxx_category(class)
            == Some(TagCategory::Author),
        !contains(class, "tag-type-copyright"@) && !contains(class, "tag-type-artist"@) && contains(
            class,
            "tag-type-character"@,
        ) ==> rule34_xxx_category(class) == Some(TagCategory::Character),
        !contains(class, "tag-type-copyright"@) && !contains(class, "tag-type-artist"@) && !contains(
            class,
            "tag-type-character"@,
        ) && contains(class, "tag-type-general"@) ==> rule34_xxx_category(class) == Some(TagCategory::General),
        !contains(class, "tag-type-copyright"@) && !contains(class, "tag-type-artist"@) && !contains(
            class,
            "tag-type-character"@,
        ) && !contains(class, "tag-type-general"@) ==> rule34_xxx_category(class) is None,
{
}

/// Every tag of a sidebar `li` (of class `tag`) whose class marks a kind of
/// tag is read under that kind: each trimmed link text longer than one byte
/// of such an `li` is in the page's list of that kind.
pub proof fn law_sidebar_tags_filed_by_kind(d: Seq<NodeView>, s: usize, k: int, cat: TagCategory, j: int)
    requires
        first(doc_find(d, NodeTest::AttrIs("id", "tag-sidebar"))) == Some(s),
        0 <= k < node_find(d, s as int, NodeTest::NamedClass("li", "tag")).len(),
        rule34_xxx_category(
            attr_or_empty(d[node_find(d, s as int, NodeTest::NamedClass("li", "tag"))[k] as int], "class"@),
        ) == Some(cat),
        0 <= j < item_tags(
            d,
            node_find(d, node_find(d, s as int, NodeTest::NamedClass("li", "tag"))[k] as int, NodeTest::Named("a")),
        ).len(),
    ensures
        rule34_xxx_tags(d).of_kind(cat).contains(
            item_tags(
                d,
                node_find(d, node_find(d, s as int, NodeTest::NamedClass("li", "tag"))[k] as int, NodeTest::Named("a")),
            )[j],
        ),
{
    let items = node_find(d, s as int, NodeTest::NamedClass("li", "tag"));
    let m = lemma_classify_nodes_complete(d, items, TagScheme::Rule34Xxx, k, cat);
    lemma_gather_tags_complete(d, classify_nodes(d, items, TagScheme::Rule34Xxx), NodeTest::Named("a"), m, j);
}

/// Every tag filed under a kind comes from a link of a sidebar `li` (of class
/// `tag`) whose class marks that kind; a page without the sidebar has no tags.
pub proof fn law_sidebar_tags_come_from_their_kind(d: Seq<NodeView>, cat: TagCategory, t: Seq<char>)
    requires
        rule34_xxx_tags(d).of_kind(cat).contains(t),
    ensures
        first(doc_find(d, NodeTest::AttrIs("id", "tag-sidebar"))) matches Some(s) && exists|k: int|
            0 <= k < node_find(d, s as int, NodeTest::NamedClass("li", "tag")).len() && rule34_xxx_category(
                attr_or_empty(d[(#[trigger] node_find(d, s as int, NodeTest::NamedClass("li", "tag"))[k]) as int], "class"@),
            ) == Some(cat) && item_tags(d, node_find(d, node_find(d, s as int, NodeTest::NamedClass("li", "tag"))[k] as int, NodeTest::Named("a"))).contains(t),
{
    match first(doc_find(d, NodeTest::AttrIs("id", "tag-sidebar"))) {
        None => {
            assert(TagLists::empty().of_kind(cat) =~= Seq::<Seq<char>>::empty());
        },
        Some(s) => {
            let items = node_find(d, s as int, NodeTest::NamedClass("li", "tag"));
            let containers = classify_nodes(d, items, TagScheme::Rule34Xxx);
            lemma_gather_tags_sound(d, containers, NodeTest::Named("a"), cat, t);
            let k = choose|k: int|
                0 <= k < containers.len() && (#[trigger] containers[k]).1 == cat && item_tags(
                    d,
                    node_find(d, containers[k].0 as int, NodeTest::Named("a")),
                ).contains(t);
            lemma_classify_nodes_sound(d, items, TagScheme::Rule34Xxx, k);
        },
    }
}

/// The tags of a rule34.xxx page: inside the first element whose id is
/// `tag-sidebar`, every `li` of class `tag` that marks a kind of tag
/// contributes the texts of its links. Without the sidebar there are none.
pub open spec fn rule34_xxx_tags(d: Seq<NodeView>) -> TagLists {
    match first(doc_find(d, NodeTest::AttrIs("id", "tag-sidebar"))) {
        None => TagLists::empty(),
        Some(s) => gather_tags(
            d,
            classify_nodes(
                d,
                node_find(d, s as int, NodeTest::NamedClass("li", "tag")),
                TagScheme::Rule34Xxx,
            ),
            NodeTest::Named("a"),
        ),
    }
}

/// The tags of a parsed rule34.xxx page.
pub fn tags_from_document(doc: &HtmlDoc) -> (r: ImageInfo)
    requires
        doc.wf(),
    ensures
        r@ == rule34_xxx_tags(doc@),
{
    let sidebars = find_in_document(doc, &NodeTest::AttrIs("id", "tag-sidebar"));
    if sidebars.len() == 0 {
        return ImageInfo::new();
    }
    let items = find_in_node(doc, sidebars[0], &NodeTest::NamedClass("li", "tag"));
    let containers = classify_containers(doc, &items, TagScheme::Rule34Xxx);
    collect_tags(doc, &containers, &NodeTest::Named("a"))
}

/// The tags of a rule34.xxx page.
pub fn extract_tags(html_content: &str) -> (r: Result<ImageInfo, ScrapeError>)
    ensures
        r matches Ok(info) && info@ == rule34_xxx_tags(parsed_html(html_content@)),
{
    let doc = parse_html(html_content);
    Ok(tags_from_document(&doc))
}

/// `s` with every `'` turned into `"`.
pub open spec fn quotes_doubled(s: Seq<char>) -> Seq<char> {
    s.map_values(|c: char| if c == '\'' { '"' } else { c })
}

/// The script object that follows `image = ` in the page, from its `{` to the
/// `}` of the first `};` after it, with single quotes turned into double
/// quotes so that it reads as JSON.
pub open spec fn image_object(html: Seq<char>) -> Option<Seq<char>> {
    match find(html, "image = {"@) {
        None => None,
        Some(i) => {
            let start = i + "image = {"@.len() - 1;
            match find_from(html, "};"@, start) {
                None => None,
                Some(e) => Some(quotes_doubled(html.subrange(start, e + 1))),
            }
        },
    }
}

/// The image object of a rule34.xxx page, as JSON text, for [`Rule34Parse`].
pub fn image_object_text(html: &str) -> (r: Option<String>)
    ensures
        opt_view(r) == image_object(html@),
{
    let v = chars_of(html);
    let start_key = chars_of("image = {");
    let end_key = chars_of("};");
    proof {
        reveal_strlit("image = {");
        reveal_strlit("};");
    }
    let i = match find_chars(&v, &start_key) {
        Some(i) => i,
        None => return None,
    };
    proof {
        crate::text::lemma_find_from(v@, start_key@, 0);
    }
    assert(i + start_key.len() <= v.len());
    let start = i + start_key.len() - 1;
    let e = match find_chars_from(&v, &end_key, start) {
        Some(e) => e,
        None => return None,
    };
    assert(e + 2 <= v.len());
    let stop = e + 1;
    let mut json = String::new();
    let mut k = start;
    while k < stop
        invariant
            stop == e + 1,
            start <= k <= stop <= v@.len(),
            json@ == quotes_doubled(v@.subrange(start as int, k as int)),
        decreases stop - k,
    {
        let c = v[k];
        let c2 = if c == '\'' {
            '"'
        } else {
            c
        };
        push_char(&mut json, c2);
        assert(json@ =~= quotes_doubled(v@.subrange(start as int, k + 1)));
        k = k + 1;
    }
    Some(json)
}

/// The link that a decoded image object names: `domain/base_dir/dir/img`.
pub open spec fn parse_link(info: Rule34Parse) -> Seq<char> {
    info.domain@ + "/"@ + info.base_dir@ + "/"@ + decimal(info.dir as int) + "/"@ + info.img@
}

/// The image that a decoded image object names, when the link names an image file.
pub open spec fn parse_image(info: Rule34Parse) -> Option<Seq<char>> {
    if is_image_link(parse_link(info)) {
        Some(parse_link(info))
    } else {
        None
    }
}

/// The image that a decoded image object names, when the link names an image file.
pub fn image_link(info: &Rule34Parse) -> (r: Option<String>)
    ensures
        opt_view(r) == parse_image(*info),
{
    let mut link = String::new();
    link.append(info.domain.as_str());
    link.append("/");
    link.append(info.base_dir.as_str());
    link.append("/");
    let dir = i32_to_decimal(info.dir);
    link.append(dir.as_str());
    link.append("/");
    link.append(info.img.as_str());
    assert(link@ =~= parse_link(*info));
    if check_image(link.as_str()) {
        Some(link)
    } else {
        None
    }
}

/// The image of the page from its decoded image object, if any.
pub open spec fn decoded_image(image_info: Option<&Rule34Parse>) -> Option<Seq<char>> {
    match image_info {
        Some(info) => parse_image(*info),
        None => None,
    }
}

/// The media of a rule34.xxx page: the image that its image object names,
/// else the Gelbooru-style video.
pub open spec fn rule34_xxx_media(image_info: Option<&Rule34Parse>, d: Seq<NodeView>) -> Media {
    media_of(decoded_image(image_info), gelcom_video(d))
}

/// The media of a parsed rule34.xxx page; `image_info` is its image object
/// ([`image_object_text`]) decoded as a [`Rule34Parse`], or `None` when the
/// page has none or it does not decode.
pub fn media_from_document(image_info: Option<&Rule34Parse>, doc: &HtmlDoc) -> (r: MediaType)
    requires
        doc.wf(),
    ensures
        r@ == rule34_xxx_media(image_info, doc@),
{
    let image = match image_info {
        Some(info) => image_link(info),
        None => None,
    };
    let video = gelcom_video_exec(doc);
    media_from(image, video)
}

/// The media of a rule34.xxx page; `image_info` is its image object decoded
/// as a [`Rule34Parse`], or `None` when the page has none or it does not decode.
pub fn extract_media_link(html_content: &str, image_info: Option<&Rule34Parse>) -> (r: Result<
    MediaType,
    ScrapeError,
>)
    ensures
        r matches Ok(m) && m@ == rule34_xxx_media(image_info, parsed_html(html_content@)),
{
    let doc = parse_html(html_content);
    Ok(media_from_document(image_info, &doc))
}

/// Every tag read from a rule34.xxx page is trimmed and longer than one byte.
pub proof fn law_tags_are_clean(d: Seq<NodeView>)
    ensures
        rule34_xxx_tags(d).clean(),
{
    match first(doc_find(d, NodeTest::AttrIs("id", "tag-sidebar"))) {
        None => {},
        Some(s) => crate::html::lemma_gather_tags_clean(
            d,
            classify_nodes(
                d,
                node_find(d, s as int, NodeTest::NamedClass("li", "tag")),
                TagScheme::Rule34Xxx,
            ),
            NodeTest::Named("a"),
        ),
    }
}

} // verus!
