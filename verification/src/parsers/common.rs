//! What the page scrapers share: how tag lists are recognised and read, and
//! how image and video links are picked out of a document.
use vstd::prelude::*;

use crate::html::{
    attr, attr_of, attr_or_empty, attr_or_empty_string, doc_find, find_in_document, find_in_node,
    first, in_doc, node_find, HtmlDoc, NodeTest, NodeView,
};
use crate::models::types::{Media, MediaType, TagCategory};
use crate::parsers::{danbooru, rule34_us, rule34_xxx};
use crate::text::opt_view;
use crate::utility::utils::{check_image, is_image_link};

verus! {

/// The sites whose tag lists are read the same way, each with its own class names.
#[derive(Clone, Copy)]
pub enum TagScheme {
    Danbooru,
    Rule34Us,
    Rule34Xxx,
}

/// The kind of tag list that a `class` attribute marks, for a site.
pub open spec fn scheme_category(scheme: TagScheme, class: Seq<char>) -> Option<TagCategory> {
    match scheme {
        TagScheme::Danbooru => danbooru::danbooru_category(class),
        TagScheme::Rule34Us => rule34_us::rule34_us_category(class),
        TagScheme::Rule34Xxx => rule34_xxx::rule34_xxx_category(class),
    }
}

/// The kind of tag list that a `class` attribute marks, for a site.
pub fn category_of(scheme: TagScheme, class: &str) -> (r: Option<TagCategory>)
    ensures
        r == scheme_category(scheme, class@),
{
    match scheme {
        TagScheme::Danbooru => danbooru::classify(class),
        TagScheme::Rule34Us => rule34_us::classify(class),
        TagScheme::Rule34Xxx => rule34_xxx::classify(class),
    }
}

/// The nodes `idxs` whose `class` attribute (empty when absent) marks a tag
/// list of the site, each with the kind of list, in order.
pub open spec fn classify_nodes(d: Seq<NodeView>, idxs: Seq<usize>, scheme: TagScheme) -> Seq<
    (usize, TagCategory),
>
    decreases idxs.len(),
{
    if idxs.len() == 0 {
        Seq::<(usize, TagCategory)>::empty()
    } else {
        let prev = classify_nodes(d, idxs.drop_last(), scheme);
        match scheme_category(scheme, attr_or_empty(d[idxs.last() as int], "class"@)) {
            Some(cat) => prev.push((idxs.last(), cat)),
            None => prev,
        }
    }
}

proof fn lemma_classify_nodes_in_doc(d: Seq<NodeView>, idxs: Seq<usize>, scheme: TagScheme)
    requires
        in_doc(d, idxs),
    ensures
        forall|k: int|
            0 <= k < classify_nodes(d, idxs, scheme).len() ==> (#[trigger] classify_nodes(
                d,
                idxs,
                scheme,
            )[k]).0 < d.len(),
    decreases idxs.len(),
{
    if idxs.len() > 0 {
        assert(in_doc(d, idxs.drop_last())) by {
            assert forall|k: int| 0 <= k < idxs.drop_last().len() implies #[trigger] idxs.drop_last()[k]
                < d.len() by {
                assert(idxs.drop_last()[k] == idxs[k]);
            }
        }
        assert(idxs.last() < d.len()) by {
            assert(idxs[idxs.len() - 1] < d.len());
        }
        lemma_classify_nodes_in_doc(d, idxs.drop_last(), scheme);
        let prev = classify_nodes(d, idxs.drop_last(), scheme);
        let cur = classify_nodes(d, idxs, scheme);
        assert forall|k: int| 0 <= k < cur.len() implies (#[trigger] cur[k]).0 < d.len() by {
            if k < prev.len() {
                assert(cur[k] == prev[k]);
            }
        }
    }
}

/// Every node among `idxs` whose class marks a tag list is kept, with its kind.
pub proof fn lemma_classify_nodes_complete(
    d: Seq<NodeView>,
    idxs: Seq<usize>,
    scheme: TagScheme,
    k: int,
    cat: TagCategory,
) -> (m: int)
    requires
        0 <= k < idxs.len(),
        scheme_category(scheme, attr_or_empty(d[idxs[k] as int], "class"@)) == Some(cat),
    ensures
        0 <= m < classify_nodes(d, idxs, scheme).len(),
        classify_nodes(d, idxs, scheme)[m] == (idxs[k], cat),
    decreases idxs.len(),
{
    let prev = classify_nodes(d, idxs.drop_last(), scheme);
    if k == idxs.len() - 1 {
        prev.len() as int
    } else {
        assert(idxs.drop_last()[k] == idxs[k]);
        let m = lemma_classify_nodes_complete(d, idxs.drop_last(), scheme, k, cat);
        m
    }
}

/// Every tag list kept is one of the nodes `idxs`, with the kind its class marks.
pub proof fn lemma_classify_nodes_sound(d: Seq<NodeView>, idxs: Seq<usize>, scheme: TagScheme, m: int)
    requires
        0 <= m < classify_nodes(d, idxs, scheme).len(),
    ensures
        exists|k: int|
            0 <= k < idxs.len() && (#[trigger] idxs[k]) == classify_nodes(d, idxs, scheme)[m].0
                && scheme_category(scheme, attr_or_empty(d[idxs[k] as int], "class"@)) == Some(
                classify_nodes(d, idxs, scheme)[m].1,
            ),
    decreases idxs.len(),
{
    let prev = classify_nodes(d, idxs.drop_last(), scheme);
    let cur = classify_nodes(d, idxs, scheme);
    let last = idxs.len() - 1;
    if m < prev.len() {
        assert(cur[m] == prev[m]);
        lemma_classify_nodes_sound(d, idxs.drop_last(), scheme, m);
        let k = choose|k: int|
            0 <= k < idxs.drop_last().len() && (#[trigger] idxs.drop_last()[k]) == prev[m].0
                && scheme_category(scheme, attr_or_empty(d[idxs.drop_last()[k] as int], "class"@))
                == Some(prev[m].1);
        assert(idxs[k] == idxs.drop_last()[k]);
    } else {
        assert(idxs[last] == idxs.last());
    }
}

/// The tag lists among the nodes `idxs`, each with its kind.
pub fn classify_containers(doc: &HtmlDoc, idxs: &Vec<usize>, scheme: TagScheme) -> (r: Vec<
    (usize, TagCategory),
>)
    requires
        in_doc(doc@, idxs@),
    ensures
        r@ == classify_nodes(doc@, idxs@, scheme),
        forall|k: int| 0 <= k < r@.len() ==> (#[trigger] r@[k]).0 < doc@.len(),
{
    let mut r: Vec<(usize, TagCategory)> = Vec::new();
    let mut k: usize = 0;
    while k < idxs.len()
        invariant
            in_doc(doc@, idxs@),
            k <= idxs@.len(),
            r@ == classify_nodes(doc@, idxs@.take(k as int), scheme),
        decreases idxs@.len() - k,
    {
        let i = idxs[k];
        proof {
            assert(idxs@.take(k + 1).drop_last() =~= idxs@.take(k as int));
            assert(idxs@.take(k + 1).last() == i);
        }
        let class = attr_or_empty_string(&doc.nodes[i], "class");
        match category_of(scheme, class.as_str()) {
            Some(cat) => r.push((i, cat)),
            None => {},
        }
        k = k + 1;
    }
    proof {
        assert(idxs@.take(idxs@.len() as int) =~= idxs@);
        lemma_classify_nodes_in_doc(doc@, idxs@, scheme);
    }
    r
}

/// The value of attribute `key` of the first of the nodes `idxs` whose
/// value names an image file.
pub open spec fn first_image_attr(d: Seq<NodeView>, idxs: Seq<usize>, key: Seq<char>) -> Option<
    Seq<char>,
>
    decreases idxs.len(),
{
    if idxs.len() == 0 {
        None
    } else {
        match attr_of(d[idxs[0] as int], key) {
            Some(u) => if is_image_link(u) {
                Some(u)
            } else {
                first_image_attr(d, idxs.drop_first(), key)
            },
            None => first_image_attr(d, idxs.drop_first(), key),
        }
    }
}

/// The value of attribute `key` of the first of the nodes `idxs` whose
/// value names an image file.
pub fn first_image_attr_exec(doc: &HtmlDoc, idxs: &Vec<usize>, key: &str) -> (r: Option<String>)
    requires
        in_doc(doc@, idxs@),
    ensures
        opt_view(r) == first_image_attr(doc@, idxs@, key@),
{
    let mut k: usize = 0;
    proof {
        assert(idxs@.skip(0) =~= idxs@);
    }
    while k < idxs.len()
        invariant
            in_doc(doc@, idxs@),
            k <= idxs@.len(),
            first_image_attr(doc@, idxs@, key@) == first_image_attr(doc@, idxs@.skip(k as int), key@),
        decreases idxs@.len() - k,
    {
        let i = idxs[k];
        proof {
            assert(idxs@.skip(k as int).drop_first() =~= idxs@.skip(k + 1));
            assert(idxs@.skip(k as int)[0] == i);
        }
        match attr(&doc.nodes[i], key) {
            Some(u) => {
                if check_image(u.as_str()) {
                    return Some(u);
                }
            },
            None => {},
        }
        k = k + 1;
    }
    None
}

/// Node `i` has attribute `key`, and it names an image file.
pub open spec fn names_image(d: Seq<NodeView>, i: usize, key: Seq<char>) -> bool {
    attr_of(d[i as int], key) matches Some(u) && is_image_link(u)
}

/// The image taken is the attribute `key` of the first of the nodes `idxs`
/// whose attribute names an image file; when none does, there is none.
pub proof fn law_first_image_attr(d: Seq<NodeView>, idxs: Seq<usize>, key: Seq<char>)
    ensures
        first_image_attr(d, idxs, key) matches Some(u) ==> exists|k: int|
            0 <= k < idxs.len() && attr_of(d[(#[trigger] idxs[k]) as int], key) == Some(u)
                && is_image_link(u) && forall|j: int| 0 <= j < k ==> !names_image(d, #[trigger] idxs[j], key),
        first_image_attr(d, idxs, key) is None ==> forall|k: int|
            0 <= k < idxs.len() ==> !names_image(d, #[trigger] idxs[k], key),
    decreases idxs.len(),
{
    if idxs.len() > 0 {
        let rest = idxs.drop_first();
        law_first_image_attr(d, rest, key);
        if names_image(d, idxs[0], key) {
        } else {
            assert(first_image_attr(d, idxs, key) == first_image_attr(d, rest, key));
            if let Some(u) = first_image_attr(d, rest, key) {
                let k = choose|k: int|
                    0 <= k < rest.len() && attr_of(d[(#[trigger] rest[k]) as int], key) == Some(u)
                        && is_image_link(u) && forall|j: int| 0 <= j < k ==> !names_image(d, #[trigger] rest[j], key);
                assert(idxs[k + 1] == rest[k]);
                assert forall|j: int| 0 <= j < k + 1 implies !names_image(d, #[trigger] idxs[j], key) by {
                    if j > 0 {
                        assert(idxs[j] == rest[j - 1]);
                    }
                }
            } else {
                assert forall|k: int| 0 <= k < idxs.len() implies !names_image(d, #[trigger] idxs[k], key) by {
                    if k > 0 {
                        assert(idxs[k] == rest[k - 1]);
                    }
                }
            }
        }
    }
}

/// The `src` of the first `source` inside the first element with id
/// `gelcomVideoPlayer`: the video of a Gelbooru-style page.
pub open spec fn gelcom_video(d: Seq<NodeView>) -> Option<Seq<char>> {
    match first(doc_find(d, NodeTest::AttrIs("id", "gelcomVideoPlayer"))) {
        None => None,
        Some(p) => match first(node_find(d, p as int, NodeTest::Named("source"))) {
            None => None,
            Some(s) => attr_of(d[s as int], "src"@),
        },
    }
}

/// The video link of a Gelbooru-style page.
pub fn gelcom_video_exec(doc: &HtmlDoc) -> (r: Option<String>)
    requires
        doc.wf(),
    ensures
        opt_view(r) == gelcom_video(doc@),
{
    let players = find_in_document(doc, &NodeTest::AttrIs("id", "gelcomVideoPlayer"));
    if players.len() == 0 {
        return None;
    }
    let sources = find_in_node(doc, players[0], &NodeTest::Named("source"));
    if sources.len() == 0 {
        return None;
    }
    attr(&doc.nodes[sources[0]], "src")
}

/// The media of a page from its image and video links: the image when there
/// is one, else the video, else nothing.
pub open spec fn media_of(image: Option<Seq<char>>, video: Option<Seq<char>>) -> Media {
    match image {
        Some(link) => Media::Image(link),
        None => match video {
            Some(link) => Media::Video(link),
            None => Media::NotFound,
        },
    }
}

/// A page's image wins over its video; with neither, no media is found.
pub proof fn law_image_before_video(image: Option<Seq<char>>, video: Option<Seq<char>>)
    ensures
        image matches Some(i) ==> media_of(image, video) == Media::Image(i),
        image is None ==> (video matches Some(v) ==> media_of(image, video) == Media::Video(v)),
        image is None && video is None ==> media_of(image, video) == Media::NotFound,
{
}

/// The media of a page from its image and video links.
pub fn media_from(image: Option<String>, video: Option<String>) -> (r: MediaType)
    ensures
        r@ == media_of(opt_view(image), opt_view(video)),
{
    match image {
        Some(link) => MediaType::Image(link),
        None => match video {
            Some(link) => MediaType::Video(link),
            None => MediaType::NotFound,
        },
    }
}

} // verus!
