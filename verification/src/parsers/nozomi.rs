//! nozomi.la posts, read from their JSON record.
use vstd::prelude::*;

use crate::html::{parse_html, parsed_html, HtmlDoc, NodeView};
use crate::models::types::{DataType, ImageInfo, Media, MediaType, ScrapeError, TagLists};
use crate::parsers::common::{gelcom_video, gelcom_video_exec, media_from, media_of};
use crate::text::{opt_view, views};
use crate::utility::utils::{generate_nozomi_link_from_id, nozomi_link};

verus! {

/// A tag of the JSON record (its `tagname_display` field).
#[derive(Debug)]
pub struct InnerTag {
    pub name: String,
}

/// An image of the JSON record.
#[derive(Debug)]
pub struct InnerImage {
    pub dataid: String,
}

/// The JSON record of a nozomi post, as far as the scraper reads it.
#[derive(Debug)]
pub struct ApiJson {
    pub artist: Option<Vec<InnerTag>>,
    pub copyright: Option<Vec<InnerTag>>,
    pub character: Option<Vec<InnerTag>>,
    pub general: Option<Vec<InnerTag>>,
    pub imageurls: Option<Vec<InnerImage>>,
}

/// The names of a tag list of the record, in order; none when the list is absent.
pub open spec fn tag_names(tags: Option<Vec<InnerTag>>) -> Seq<Seq<char>> {
    match tags {
        Some(v) => v@.map_values(|t: InnerTag| t.name@),
        None => Seq::<Seq<char>>::empty(),
    }
}

/// The tags of a nozomi post: artists, copyrights, characters and general
/// tags of the record, names kept as they are.
pub open spec fn nozomi_tags(data: ApiJson) -> TagLists {
    TagLists {
        authors: tag_names(data.artist),
        titles: tag_names(data.copyright),
        characters: tag_names(data.character),
        general: tag_names(data.general),
    }
}

fn names_of(tags: &Option<Vec<InnerTag>>) -> (r: Vec<String>)
    ensures
        views(r@) == tag_names(*tags),
{
    let mut r: Vec<String> = Vec::new();
    match tags {
        Some(v) => {
            let ghost tv = v@.map_values(|t: InnerTag| t.name@);
            let mut k: usize = 0;
            while k < v.len()
                invariant
                    tv == v@.map_values(|t: InnerTag| t.name@),
                    k <= v@.len(),
                    views(r@) == tv.take(k as int),
                decreases v@.len() - k,
            {
                let ghost before = r@;
                let name = v[k].name.clone();
                r.push(name);
                assert(tv[k as int] == v@[k as int].name@);
                assert(views(r@) =~= views(before).push(name@));
                assert(tv.take(k + 1) =~= tv.take(k as int).push(tv[k as int]));
                k = k + 1;
            }
            assert(tv.take(v@.len() as int) =~= tv);
        },
        None => {
            assert(views(r@) =~= Seq::<Seq<char>>::empty());
        },
    }
    r
}

/// The tags of a nozomi post from its decoded JSON record.
pub fn extract_tags(data: &ApiJson) -> (r: ImageInfo)
    ensures
        r@ == nozomi_tags(*data),
{
    let mut info = ImageInfo::new();
    info.authors = names_of(&data.artist);
    info.titles = names_of(&data.copyright);
    info.characters = names_of(&data.character);
    info.general = names_of(&data.general);
    info
}

/// The image of a nozomi post: the content-server image link of the first
/// image of the record.
pub open spec fn nozomi_image(data: ApiJson) -> Option<Seq<char>> {
    match data.imageurls {
        Some(v) => if v@.len() > 0 {
            Some(nozomi_link(v@[0].dataid@, DataType::Image))
        } else {
            None
        },
        None => None,
    }
}

/// The media of a nozomi post: its first image, else a Gelbooru-style video
/// found when the record text is read as HTML.
pub open spec fn nozomi_media(data: ApiJson, d: Seq<NodeView>) -> Media {
    media_of(nozomi_image(data), gelcom_video(d))
}

fn image_of(data: &ApiJson) -> (r: Option<String>)
    ensures
        opt_view(r) == nozomi_image(*data),
{
    match &data.imageurls {
        Some(images) => {
            if images.len() > 0 {
                match generate_nozomi_link_from_id(images[0].dataid.as_str(), DataType::Image) {
                    Ok(link) => Some(link),
                    Err(_) => None,
                }
            } else {
                None
            }
        },
        None => None,
    }
}

/// The media of a parsed nozomi record.
pub fn media_from_document(data: &ApiJson, doc: &HtmlDoc) -> (r: MediaType)
    requires
        doc.wf(),
    ensures
        r@ == nozomi_media(*data, doc@),
{
    let image = image_of(data);
    let video = gelcom_video_exec(doc);
    media_from(image, video)
}

/// The media of a nozomi post; `json_content` is the record text and `data`
/// its decoding.
pub fn extract_media_link(json_content: &str, data: &ApiJson) -> (r: Result<MediaType, ScrapeError>)
    ensures
        r matches Ok(m) && m@ == nozomi_media(*data, parsed_html(json_content@)),
{
    let doc = parse_html(json_content);
    Ok(media_from_document(data, &doc))
}

} // verus!
