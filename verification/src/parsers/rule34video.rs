//! rule34video.com pages: tags from the page script, the video through the
//! download links.
use vstd::prelude::*;

use crate::html::{
    attr, doc_find, find_in_document, find_in_node, first, in_doc, node_find, parse_html,
    parsed_html, HtmlDoc, NodeTest, NodeView, attr_of,
};
use crate::models::types::{ImageInfo, Media, MediaType, ScrapeError, TagLists};
use crate::pattern::{capture_group, pattern_compiles, pattern_group};
use crate::text::{
    contains, contains_str, free_of, opt_view, split_on, lemma_trimmed_pieces_clean, split_trimmed, str_eq, trim,
    trim_str, trimmed_pieces, views,
};

verus! {

/// The non-empty strings of `pieces`, in order.
pub open spec fn nonempty(pieces: Seq<Seq<char>>) -> Seq<Seq<char>>
    decreases pieces.len(),
{
    if pieces.len() == 0 {
        Seq::<Seq<char>>::empty()
    } else {
        let prev = nonempty(pieces.drop_last());
        if pieces.last().len() > 0 {
            prev.push(pieces.last())
        } else {
            prev
        }
    }
}

/// The tags of a comma-separated tag list: its entries, trimmed, without empty ones.
pub open spec fn tag_list_entries(text: Seq<char>) -> Seq<Seq<char>> {
    nonempty(trimmed_pieces(text, ','))
}

proof fn lemma_nonempty_keeps(pieces: Seq<Seq<char>>, sep: char)
    requires
        forall|k: int| 0 <= k < pieces.len() ==> trim(#[trigger] pieces[k]) == pieces[k] && free_of(pieces[k], sep),
    ensures
        forall|k: int|
            0 <= k < nonempty(pieces).len() ==> {
                let e = #[trigger] nonempty(pieces)[k];
                e.len() > 0 && trim(e) == e && free_of(e, sep)
            },
    decreases pieces.len(),
{
    if pieces.len() > 0 {
        lemma_nonempty_keeps(pieces.drop_last(), sep);
        let prev = nonempty(pieces.drop_last());
        let cur = nonempty(pieces);
        assert(trim(pieces[pieces.len() - 1]) == pieces[pieces.len() - 1]);
        assert forall|k: int| 0 <= k < cur.len() implies {
            let e = #[trigger] cur[k];
            e.len() > 0 && trim(e) == e && free_of(e, sep)
        } by {
            if k < prev.len() {
                assert(cur[k] == prev[k]);
            }
        }
    }
}

/// Every tag read from a tag list is non-empty, trimmed, and holds no comma.
pub proof fn law_tag_list_entries_clean(text: Seq<char>)
    ensures
        forall|k: int|
            0 <= k < tag_list_entries(text).len() ==> {
                let e = #[trigger] tag_list_entries(text)[k];
                e.len() > 0 && trim(e) == e && free_of(e, ',')
            },
{
    lemma_trimmed_pieces_clean(text, ',');
    lemma_nonempty_keeps(trimmed_pieces(text, ','), ',');
}

proof fn lemma_nonempty_filter(pieces: Seq<Seq<char>>)
    ensures
        nonempty(pieces) == pieces.filter(|t: Seq<char>| t.len() > 0),
    decreases pieces.len(),
{
    reveal(Seq::filter);
    if pieces.len() > 0 {
        lemma_nonempty_filter(pieces.drop_last());
    }
}

/// The tags of a tag list are exactly its comma-separated entries, each
/// trimmed, that are not empty, in the order of the list.
pub proof fn law_tag_list_entries_are_the_entries(text: Seq<char>)
    ensures
        tag_list_entries(text) == split_on(text, ',').map_values(|p: Seq<char>| trim(p)).filter(
            |t: Seq<char>| t.len() > 0,
        ),
{
    lemma_nonempty_filter(trimmed_pieces(text, ','));
}

/// The tags of a comma-separated tag list.
pub fn split_tag_list(text: &str) -> (r: Vec<String>)
    ensures
        views(r@) == tag_list_entries(text@),
{
    let pieces = split_trimmed(text, ',');
    let mut r: Vec<String> = Vec::new();
    let mut k: usize = 0;
    while k < pieces.len()
        invariant
            views(pieces@) == trimmed_pieces(text@, ','),
            k <= pieces@.len(),
            views(r@) == nonempty(views(pieces@).take(k as int)),
        decreases pieces@.len() - k,
    {
        proof {
            assert(views(pieces@).take(k + 1).drop_last() =~= views(pieces@).take(k as int));
            assert(views(pieces@).take(k + 1).last() == pieces@[k as int]@);
        }
        let ghost before = r@;
        if !pieces[k].as_str().is_empty() {
            r.push(pieces[k].clone());
            assert(views(r@) =~= views(before).push(pieces@[k as int]@));
        }
        k = k + 1;
    }
    proof {
        assert(views(pieces@).take(pieces@.len() as int) =~= views(pieces@));
    }
    r
}

/// The pattern that finds the tag list in the page script.
pub open spec fn video_tags_pattern() -> Seq<char> {
    "video_tags:\\s*'([^']+)'"@
}

/// The tags of a rule34video page, from what the pattern search gave: the
/// entries of the captured list as general tags, none when nothing matched.
pub open spec fn video_page_tags(compiles: bool, list: Option<Seq<char>>) -> Result<
    TagLists,
    ScrapeError,
> {
    if !compiles {
        Err(ScrapeError::InvalidPattern)
    } else {
        match list {
            Some(text) => Ok(TagLists { general: tag_list_entries(text), ..TagLists::empty() }),
            None => Ok(TagLists::empty()),
        }
    }
}

/// The view of a result that carries tags.
pub open spec fn tags_result_view(r: Result<ImageInfo, ScrapeError>) -> Result<
    TagLists,
    ScrapeError,
> {
    match r {
        Ok(info) => Ok(info@),
        Err(e) => Err(e),
    }
}

/// The tags of a rule34video page: the `video_tags: '...'` list of its script.
pub fn extract_tags(html_content: &str) -> (r: Result<ImageInfo, ScrapeError>)
    ensures
        tags_result_view(r) == video_page_tags(
            pattern_compiles(video_tags_pattern()),
            pattern_group(video_tags_pattern(), html_content@, 1),
        ),
{
    let mut info = ImageInfo::new();
    match capture_group("video_tags:\\s*'([^']+)'", html_content, 1) {
        Err(_) => Err(ScrapeError::InvalidPattern),
        Ok(None) => Ok(info),
        Ok(Some(list)) => {
            info.general = split_tag_list(list.as_str());
            assert(info@ =~= (TagLists { general: tag_list_entries(list@), ..TagLists::empty() }));
            Ok(info)
        },
    }
}

/// The text of the first `label` inside node `w`, or nothing.
pub open spec fn label_of(d: Seq<NodeView>, w: int) -> Seq<char> {
    match first(node_find(d, w, NodeTest::Class("label"))) {
        Some(l) => d[l as int].text,
        None => Seq::<char>::empty(),
    }
}

/// The links `items` that have an `href`, as (text, href) pairs, in order.
pub open spec fn links_of(d: Seq<NodeView>, items: Seq<usize>) -> Seq<(Seq<char>, Seq<char>)>
    decreases items.len(),
{
    if items.len() == 0 {
        Seq::<(Seq<char>, Seq<char>)>::empty()
    } else {
        let prev = links_of(d, items.drop_last());
        let n = d[items.last() as int];
        match attr_of(n, "href"@) {
            Some(h) => prev.push((n.text, h)),
            None => prev,
        }
    }
}

/// The href of the first link whose text mentions `quality`.
pub open spec fn link_with(links: Seq<(Seq<char>, Seq<char>)>, quality: Seq<char>) -> Option<
    Seq<char>,
>
    decreases links.len(),
{
    if links.len() == 0 {
        None
    } else if contains(links[0].0, quality) {
        Some(links[0].1)
    } else {
        link_with(links.drop_first(), quality)
    }
}

/// The download link to follow: the first one that mentions 2160, else 1080,
/// else 720, else 480, else the first one; none when there are no links.
pub open spec fn preferred_link(links: Seq<(Seq<char>, Seq<char>)>) -> Option<Seq<char>> {
    if link_with(links, "2160"@) is Some {
        link_with(links, "2160"@)
    } else if link_with(links, "1080"@) is Some {
        link_with(links, "1080"@)
    } else if link_with(links, "720"@) is Some {
        link_with(links, "720"@)
    } else if link_with(links, "480"@) is Some {
        link_with(links, "480"@)
    } else if links.len() > 0 {
        Some(links[0].1)
    } else {
        None
    }
}

proof fn lemma_link_with(links: Seq<(Seq<char>, Seq<char>)>, quality: Seq<char>)
    ensures
        link_with(links, quality) matches Some(h) ==> exists|i: int|
            0 <= i < links.len() && contains(links[i].0, quality) && #[trigger] links[i].1 == h,
        (exists|i: int| 0 <= i < links.len() && #[trigger] contains(links[i].0, quality)) ==> link_with(
            links,
            quality,
        ) is Some,
    decreases links.len(),
{
    if links.len() > 0 {
        lemma_link_with(links.drop_first(), quality);
        if !contains(links[0].0, quality) {
            if let Some(h) = link_with(links, quality) {
                let i = choose|i: int|
                    0 <= i < links.drop_first().len() && contains(links.drop_first()[i].0, quality)
                        && #[trigger] links.drop_first()[i].1 == h;
                assert(links[i + 1] == links.drop_first()[i]);
            }
            if exists|i: int| 0 <= i < links.len() && #[trigger] contains(links[i].0, quality) {
                let i = choose|i: int| 0 <= i < links.len() && #[trigger] contains(links[i].0, quality);
                assert(i > 0);
                assert(links.drop_first()[i - 1] == links[i]);
            }
        }
    }
}

/// The download link that is followed is one of the links offered, and when
/// a link offers 2160p, the link followed offers it too.
pub proof fn law_preferred_link_is_offered(links: Seq<(Seq<char>, Seq<char>)>)
    ensures
        preferred_link(links) matches Some(h) ==> exists|i: int|
            0 <= i < links.len() && #[trigger] links[i].1 == h,
        (exists|i: int| 0 <= i < links.len() && #[trigger] contains(links[i].0, "2160"@))
            ==> (preferred_link(links) matches Some(h) && exists|i: int|
            0 <= i < links.len() && contains(links[i].0, "2160"@) && #[trigger] links[i].1 == h),
{
    lemma_link_with(links, "2160"@);
    lemma_link_with(links, "1080"@);
    lemma_link_with(links, "720"@);
    lemma_link_with(links, "480"@);
}

/// Some link's text mentions `quality`.
pub open spec fn offers(links: Seq<(Seq<char>, Seq<char>)>, quality: Seq<char>) -> bool {
    exists|i: int| 0 <= i < links.len() && #[trigger] contains(links[i].0, quality)
}

/// `h` is the href of the first link whose text mentions `quality`.
pub open spec fn first_offer(links: Seq<(Seq<char>, Seq<char>)>, quality: Seq<char>, h: Seq<char>) -> bool {
    exists|i: int|
        0 <= i < links.len() && contains(links[i].0, quality) && #[trigger] links[i].1 == h
            && forall|j: int| 0 <= j < i ==> !#[trigger] contains(links[j].0, quality)
}

proof fn lemma_link_with_first(links: Seq<(Seq<char>, Seq<char>)>, quality: Seq<char>)
    ensures
        offers(links, quality) ==> (link_with(links, quality) matches Some(h) && first_offer(
            links,
            quality,
            h,
        )),
        !offers(links, quality) ==> link_with(links, quality) is None,
    decreases links.len(),
{
    if links.len() > 0 {
        let rest = links.drop_first();
        lemma_link_with_first(rest, quality);
        if contains(links[0].0, quality) {
            assert(first_offer(links, quality, links[0].1));
        } else {
            if offers(links, quality) {
                let i = choose|i: int| 0 <= i < links.len() && #[trigger] contains(links[i].0, quality);
                assert(i > 0);
                assert(rest[i - 1] == links[i]);
                assert(offers(rest, quality));
                let h = link_with(rest, quality)->0;
                let i2 = choose|i2: int|
                    0 <= i2 < rest.len() && contains(rest[i2].0, quality) && #[trigger] rest[i2].1 == h
                        && forall|j: int| 0 <= j < i2 ==> !#[trigger] contains(rest[j].0, quality);
                assert(links[i2 + 1] == rest[i2]);
                assert forall|j: int| 0 <= j < i2 + 1 implies !#[trigger] contains(links[j].0, quality) by {
                    if j > 0 {
                        assert(links[j] == rest[j - 1]);
                    }
                }
                assert(first_offer(links, quality, h));
            } else {
                assert forall|i: int| 0 <= i < rest.len() implies !#[trigger] contains(rest[i].0, quality) by {
                    assert(rest[i] == links[i + 1]);
                }
            }
        }
    }
}

/// The download link followed is the first link of the highest quality
/// offered, in the order 2160p, 1080p, 720p, 480p: a link of a higher quality
/// always wins over one of a lower quality. When no link mentions any of
/// these qualities, the first link is followed, and nothing when there is no
/// link.
pub proof fn law_preferred_link_by_quality(links: Seq<(Seq<char>, Seq<char>)>)
    ensures
        offers(links, "2160"@) ==> (preferred_link(links) matches Some(h) && first_offer(
            links,
            "2160"@,
            h,
        )),
        !offers(links, "2160"@) && offers(links, "1080"@) ==> (preferred_link(links) matches Some(h)
            && first_offer(links, "1080"@, h)),
        !offers(links, "2160"@) && !offers(links, "1080"@) && offers(links, "720"@) ==> (
        preferred_link(links) matches Some(h) && first_offer(links, "720"@, h)),
        !offers(links, "2160"@) && !offers(links, "1080"@) && !offers(links, "720"@) && offers(
            links,
            "480"@,
        ) ==> (preferred_link(links) matches Some(h) && first_offer(links, "480"@, h)),
        !offers(links, "2160"@) && !offers(links, "1080"@) && !offers(links, "720"@) && !offers(
            links,
            "480"@,
        ) ==> preferred_link(links) == (if links.len() > 0 {
            Some(links[0].1)
        } else {
            None
        }),
{
    lemma_link_with_first(links, "2160"@);
    lemma_link_with_first(links, "1080"@);
    lemma_link_with_first(links, "720"@);
    lemma_link_with_first(links, "480"@);
}

/// The download link of the first of the sections `wraps` whose label reads
/// `Download` (trimmed) and that holds a link.
pub open spec fn download_link_from(d: Seq<NodeView>, wraps: Seq<usize>) -> Option<Seq<char>>
    decreases wraps.len(),
{
    if wraps.len() == 0 {
        None
    } else {
        let w = wraps[0] as int;
        let here = if trim(label_of(d, w)) == "Download"@ {
            preferred_link(links_of(d, node_find(d, w, NodeTest::Named("a"))))
        } else {
            None
        };
        match here {
            Some(h) => Some(h),
            None => download_link_from(d, wraps.drop_first()),
        }
    }
}

/// The download link of a rule34video page: searched in its `wrap` sections.
/// Section `w` is labelled `Download` (trimmed) and offers at least one link.
pub open spec fn offers_download(d: Seq<NodeView>, w: usize) -> bool {
    trim(label_of(d, w as int)) == "Download"@ && links_of(d, node_find(d, w as int, NodeTest::Named("a"))).len() > 0
}

/// The link followed comes from the first of the sections `wraps` that is
/// labelled `Download` and offers a link, chosen among that section's links
/// by quality; when no section does, there is none.
pub proof fn law_download_link_from_first_download_section(d: Seq<NodeView>, wraps: Seq<usize>)
    ensures
        download_link_from(d, wraps) matches Some(h) ==> exists|k: int|
            0 <= k < wraps.len() && offers_download(d, #[trigger] wraps[k]) && preferred_link(
                links_of(d, node_find(d, wraps[k] as int, NodeTest::Named("a"))),
            ) == Some(h) && forall|j: int| 0 <= j < k ==> !offers_download(d, #[trigger] wraps[j]),
        download_link_from(d, wraps) is None ==> forall|k: int|
            0 <= k < wraps.len() ==> !offers_download(d, #[trigger] wraps[k]),
    decreases wraps.len(),
{
    if wraps.len() > 0 {
        let w = wraps[0];
        let rest = wraps.drop_first();
        let links = links_of(d, node_find(d, w as int, NodeTest::Named("a")));
        law_preferred_link_by_quality(links);
        assert(offers(links, "2160"@) ==> links.len() > 0);
        assert(offers(links, "1080"@) ==> links.len() > 0);
        assert(offers(links, "720"@) ==> links.len() > 0);
        assert(offers(links, "480"@) ==> links.len() > 0);
        assert(preferred_link(links) is Some <==> links.len() > 0);
        law_download_link_from_first_download_section(d, rest);
        if offers_download(d, w) {
            assert(download_link_from(d, wraps) == preferred_link(links));
        } else {
            assert(download_link_from(d, wraps) == download_link_from(d, rest));
            if let Some(h) = download_link_from(d, rest) {
                let k = choose|k: int|
                    0 <= k < rest.len() && offers_download(d, #[trigger] rest[k]) && preferred_link(
                        links_of(d, node_find(d, rest[k] as int, NodeTest::Named("a"))),
                    ) == Some(h) && forall|j: int| 0 <= j < k ==> !offers_download(d, #[trigger] rest[j]);
                assert(wraps[k + 1] == rest[k]);
                assert forall|j: int| 0 <= j < k + 1 implies !offers_download(d, #[trigger] wraps[j]) by {
                    if j > 0 {
                        assert(wraps[j] == rest[j - 1]);
                    }
                }
            } else {
                assert forall|k: int| 0 <= k < wraps.len() implies !offers_download(d, #[trigger] wraps[k]) by {
                    if k > 0 {
                        assert(wraps[k] == rest[k - 1]);
                    }
                }
            }
        }
    }
}

pub open spec fn download_link(d: Seq<NodeView>) -> Option<Seq<char>> {
    download_link_from(d, doc_find(d, NodeTest::Class("wrap")))
}

fn label_text(doc: &HtmlDoc, w: usize) -> (r: String)
    requires
        doc.wf(),
        w < doc@.len(),
    ensures
        r@ == label_of(doc@, w as int),
{
    let labels = find_in_node(doc, w, &NodeTest::Class("label"));
    if labels.len() == 0 {
        String::new()
    } else {
        doc.nodes[labels[0]].text.clone()
    }
}

fn links_in(doc: &HtmlDoc, items: &Vec<usize>) -> (r: Vec<(String, String)>)
    requires
        in_doc(doc@, items@),
    ensures
        r@.map_values(|p: (String, String)| (p.0@, p.1@)) == links_of(doc@, items@),
{
    let mut r: Vec<(String, String)> = Vec::new();
    let mut k: usize = 0;
    while k < items.len()
        invariant
            in_doc(doc@, items@),
            k <= items@.len(),
            r@.map_values(|p: (String, String)| (p.0@, p.1@)) == links_of(doc@, items@.take(k as int)),
        decreases items@.len() - k,
    {
        let i = items[k];
        proof {
            assert(items@.take(k + 1).drop_last() =~= items@.take(k as int));
            assert(items@.take(k + 1).last() == i);
        }
        let ghost before = r@;
        match attr(&doc.nodes[i], "href") {
            Some(h) => {
                r.push((doc.nodes[i].text.clone(), h));
                assert(r@.map_values(|p: (String, String)| (p.0@, p.1@)) =~= before.map_values(
                    |p: (String, String)| (p.0@, p.1@),
                ).push((doc@[i as int].text, h@)));
            },
            None => {},
        }
        k = k + 1;
    }
    proof {
        assert(items@.take(items@.len() as int) =~= items@);
    }
    r
}

fn link_with_exec(links: &Vec<(String, String)>, quality: &str) -> (r: Option<String>)
    ensures
        opt_view(r) == link_with(links@.map_values(|p: (String, String)| (p.0@, p.1@)), quality@),
{
    let ghost ls = links@.map_values(|p: (String, String)| (p.0@, p.1@));
    let mut k: usize = 0;
    proof {
        assert(ls.skip(0) =~= ls);
    }
    while k < links.len()
        invariant
            ls == links@.map_values(|p: (String, String)| (p.0@, p.1@)),
            k <= links@.len(),
            link_with(ls, quality@) == link_with(ls.skip(k as int), quality@),
        decreases links@.len() - k,
    {
        proof {
            assert(ls.skip(k as int).drop_first() =~= ls.skip(k + 1));
            assert(ls.skip(k as int)[0] == ls[k as int]);
        }
        if contains_str(links[k].0.as_str(), quality) {
            return Some(links[k].1.clone());
        }
        k = k + 1;
    }
    None
}

fn preferred_link_exec(links: &Vec<(String, String)>) -> (r: Option<String>)
    ensures
        opt_view(r) == preferred_link(links@.map_values(|p: (String, String)| (p.0@, p.1@))),
{
    let hit = link_with_exec(links, "2160");
    if hit.is_some() {
        return hit;
    }
    let hit = link_with_exec(links, "1080");
    if hit.is_some() {
        return hit;
    }
    let hit = link_with_exec(links, "720");
    if hit.is_some() {
        return hit;
    }
    let hit = link_with_exec(links, "480");
    if hit.is_some() {
        return hit;
    }
    if links.len() > 0 {
        Some(links[0].1.clone())
    } else {
        None
    }
}

/// The download link of a parsed rule34video page.
pub fn download_link_in(doc: &HtmlDoc) -> (r: Option<String>)
    requires
        doc.wf(),
    ensures
        opt_view(r) == download_link(doc@),
{
    let wraps = find_in_document(doc, &NodeTest::Class("wrap"));
    let mut k: usize = 0;
    proof {
        assert(wraps@.skip(0) =~= wraps@);
    }
    while k < wraps.len()
        invariant
            doc.wf(),
            in_doc(doc@, wraps@),
            k <= wraps@.len(),
            download_link(doc@) == download_link_from(doc@, wraps@.skip(k as int)),
        decreases wraps@.len() - k,
    {
        let w = wraps[k];
        proof {
            assert(wraps@.skip(k as int).drop_first() =~= wraps@.skip(k + 1));
            assert(wraps@.skip(k as int)[0] == w);
        }
        let label = label_text(doc, w);
        let label = trim_str(label.as_str());
        if str_eq(label.as_str(), "Download") {
            let anchors = find_in_node(doc, w, &NodeTest::Named("a"));
            let links = links_in(doc, &anchors);
            let hit = preferred_link_exec(&links);
            if hit.is_some() {
                return hit;
            }
        }
        k = k + 1;
    }
    None
}

/// The download link of a rule34video page, to be resolved by a request.
pub fn find_download_link(html_content: &str) -> (r: Option<String>)
    ensures
        opt_view(r) == download_link(parsed_html(html_content@)),
{
    let doc = parse_html(html_content);
    download_link_in(&doc)
}

/// What a request for a download link gives: a redirect names the video in
/// its `Location` header (`location` is `None` when the header is absent and
/// `Some(None)` when it is not visible ASCII); a success means the link
/// itself is the video; any other status is an error.
pub open spec fn hidden_link_outcome(
    href: Seq<char>,
    status: u16,
    location: Option<Option<Seq<char>>>,
) -> Result<Media, ScrapeError> {
    if 300 <= status < 400 {
        match location {
            Some(Some(l)) => Ok(Media::Video(l)),
            Some(None) => Err(ScrapeError::InvalidLocation),
            None => Err(ScrapeError::MissingLocation(status)),
        }
    } else if 200 <= status < 300 {
        Ok(Media::Video(href))
    } else {
        Err(ScrapeError::UnexpectedStatus(status))
    }
}

/// A redirect (3xx) gives the video that its `Location` header names, and
/// fails when the header is missing or unreadable; a success (2xx) means the
/// link itself is the video; any other status is an error that carries it.
pub proof fn law_hidden_link_by_status(href: Seq<char>, status: u16, location: Option<Option<Seq<char>>>)
    ensures
        300 <= status <= 399 ==> (location matches Some(Some(l)) ==> hidden_link_outcome(
            href,
            status,
            location,
        ) == Ok::<Media, ScrapeError>(Media::Video(l))),
        300 <= status <= 399 && location == Some(None::<Seq<char>>) ==> hidden_link_outcome(href, status, location)
            == Err::<Media, ScrapeError>(ScrapeError::InvalidLocation),
        300 <= status <= 399 && location is None ==> hidden_link_outcome(href, status, location)
            == Err::<Media, ScrapeError>(ScrapeError::MissingLocation(status)),
        200 <= status <= 299 ==> hidden_link_outcome(href, status, location) == Ok::<Media, ScrapeError>(
            Media::Video(href),
        ),
        !(200 <= status <= 399) ==> hidden_link_outcome(href, status, location) == Err::<Media, ScrapeError>(
            ScrapeError::UnexpectedStatus(status),
        ),
{
}

/// The view of a location header as the request reported it.
pub open spec fn location_view(location: Option<Option<String>>) -> Option<Option<Seq<char>>> {
    match location {
        Some(l) => Some(opt_view(l)),
        None => None,
    }
}

/// The view of a result that carries media.
pub open spec fn media_result_view(r: Result<MediaType, ScrapeError>) -> Result<Media, ScrapeError> {
    match r {
        Ok(m) => Ok(m@),
        Err(e) => Err(e),
    }
}

/// The media that a request for a download link gives, from its status code
/// and `Location` header.
pub fn hidden_link_result(href: &str, status: u16, location: Option<Option<String>>) -> (r: Result<
    MediaType,
    ScrapeError,
>)
    ensures
        media_result_view(r) == hidden_link_outcome(href@, status, location_view(location)),
{
    if 300 <= status && status < 400 {
        match location {
            Some(Some(l)) => Ok(MediaType::Video(l)),
            Some(None) => Err(ScrapeError::InvalidLocation),
            None => Err(ScrapeError::MissingLocation(status)),
        }
    } else if 200 <= status && status < 300 {
        Ok(MediaType::Video(href.to_owned()))
    } else {
        Err(ScrapeError::UnexpectedStatus(status))
    }
}

} // verus!
