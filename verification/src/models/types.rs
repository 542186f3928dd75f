//! The values that the scrapers produce and exchange.
use vstd::prelude::*;

use crate::text::{trim, utf8_len, views};

verus! {

/// The sites whose pages the library can read.
#[derive(Debug, Clone, Copy, PartialEq, Eq, Structural)]
pub enum Site {
    Rule34xxx,
    Rule34us,
    Rule34Video,
    Gelbooru,
    Danbooru,
    Nozomi,
    Unknown,
}

/// The media file that a page offers.
#[derive(Debug)]
pub enum MediaType {
    Image(String),
    Video(String),
    NotFound,
}

/// The model of a [`MediaType`]: the link as a character sequence.
pub enum Media {
    Image(Seq<char>),
    Video(Seq<char>),
    NotFound,
}

impl View for MediaType {
    type V = Media;

    open spec fn view(&self) -> Media {
        match self {
            MediaType::Image(link) => Media::Image(link@),
            MediaType::Video(link) => Media::Video(link@),
            MediaType::NotFound => Media::NotFound,
        }
    }
}

impl MediaType {
    /// The link to download and the file extension to save it under:
    /// `png` for an image, `mp4` for a video, nothing when no media was found.
    pub fn get_link_and_extension(&self) -> (r: Option<(String, &'static str)>)
        ensures
            match self@ {
                Media::Image(link) => r matches Some(p) && p.0@ == link && p.1@ == "png"@,
                Media::Video(link) => r matches Some(p) && p.0@ == link && p.1@ == "mp4"@,
                Media::NotFound => r is None,
            },
    {
        match self {
            MediaType::Image(link) => Some((link.clone(), "png")),
            MediaType::Video(link) => Some((link.clone(), "mp4")),
            _ => None,
        }
    }
}

/// The kind of a tag.
#[derive(Debug, Clone, Copy, PartialEq, Eq, Structural)]
pub enum TagCategory {
    Author,
    Title,
    Character,
    General,
}

/// The tags of a post, by kind.
#[derive(Debug)]
pub struct ImageInfo {
    pub authors: Vec<String>,
    pub titles: Vec<String>,
    pub characters: Vec<String>,
    pub general: Vec<String>,
}

/// The model of an [`ImageInfo`].
pub struct TagLists {
    pub authors: Seq<Seq<char>>,
    pub titles: Seq<Seq<char>>,
    pub characters: Seq<Seq<char>>,
    pub general: Seq<Seq<char>>,
}

impl TagLists {
    /// No tags of any kind.
    pub open spec fn empty() -> TagLists {
        TagLists {
            authors: Seq::empty(),
            titles: Seq::empty(),
            characters: Seq::empty(),
            general: Seq::empty(),
        }
    }

    /// The tags of kind `cat`.
    pub open spec fn of_kind(self, cat: TagCategory) -> Seq<Seq<char>> {
        match cat {
            TagCategory::Author => self.authors,
            TagCategory::Title => self.titles,
            TagCategory::Character => self.characters,
            TagCategory::General => self.general,
        }
    }

    /// `tags` appended to the list of kind `cat`.
    pub open spec fn extend(self, cat: TagCategory, tags: Seq<Seq<char>>) -> TagLists {
        match cat {
            TagCategory::Author => TagLists { authors: self.authors + tags, ..self },
            TagCategory::Title => TagLists { titles: self.titles + tags, ..self },
            TagCategory::Character => TagLists { characters: self.characters + tags, ..self },
            TagCategory::General => TagLists { general: self.general + tags, ..self },
        }
    }
}

/// A tag name as the page scrapers deliver it: trimmed, and longer than one byte.
pub open spec fn clean_tag(t: Seq<char>) -> bool {
    trim(t) == t && utf8_len(t) > 1
}

/// Every tag in `tags` is clean.
pub open spec fn all_clean(tags: Seq<Seq<char>>) -> bool {
    forall|i: int| 0 <= i < tags.len() ==> clean_tag(#[trigger] tags[i])
}

impl TagLists {
    /// Every tag of every kind is clean.
    pub open spec fn clean(self) -> bool {
        &&& all_clean(self.authors)
        &&& all_clean(self.titles)
        &&& all_clean(self.characters)
        &&& all_clean(self.general)
    }
}

/// Appending clean tags keeps a tag collection clean.
pub proof fn lemma_extend_clean(info: TagLists, cat: TagCategory, tags: Seq<Seq<char>>)
    requires
        info.clean(),
        all_clean(tags),
    ensures
        info.extend(cat, tags).clean(),
{
    assert forall|a: Seq<Seq<char>>, b: Seq<Seq<char>>| all_clean(a) && all_clean(b) implies
        #[trigger] all_clean(a + b) by {
        assert forall|i: int| 0 <= i < (a + b).len() implies clean_tag(#[trigger] (a + b)[i]) by {
            if i < a.len() {
                assert((a + b)[i] == a[i]);
            } else {
                assert((a + b)[i] == b[i - a.len()]);
            }
        }
    }
}

impl View for ImageInfo {
    type V = TagLists;

    open spec fn view(&self) -> TagLists {
        TagLists {
            authors: views(self.authors@),
            titles: views(self.titles@),
            characters: views(self.characters@),
            general: views(self.general@),
        }
    }
}

impl ImageInfo {
    /// An `ImageInfo` without tags.
    pub fn new() -> (r: ImageInfo)
        ensures
            r@ == TagLists::empty(),
    {
        let r = ImageInfo {
            authors: Vec::new(),
            titles: Vec::new(),
            characters: Vec::new(),
            general: Vec::new(),
        };
        assert(r@.authors =~= Seq::<Seq<char>>::empty());
        assert(r@.titles =~= Seq::<Seq<char>>::empty());
        assert(r@.characters =~= Seq::<Seq<char>>::empty());
        assert(r@.general =~= Seq::<Seq<char>>::empty());
        r
    }

    /// Appends `tags` to the list of kind `cat`.
    pub fn add_tags(&mut self, cat: TagCategory, tags: Vec<String>)
        ensures
            final(self)@ == old(self)@.extend(cat, views(tags@)),
    {
        let mut tags = tags;
        let ghost added = views(tags@);
        match cat {
            TagCategory::Author => {
                let ghost before = self.authors@;
                self.authors.append(&mut tags);
                assert(views(self.authors@) =~= views(before) + added);
            },
            TagCategory::Title => {
                let ghost before = self.titles@;
                self.titles.append(&mut tags);
                assert(views(self.titles@) =~= views(before) + added);
            },
            TagCategory::Character => {
                let ghost before = self.characters@;
                self.characters.append(&mut tags);
                assert(views(self.characters@) =~= views(before) + added);
            },
            TagCategory::General => {
                let ghost before = self.general@;
                self.general.append(&mut tags);
                assert(views(self.general@) =~= views(before) + added);
            },
        }
    }
}

impl Default for ImageInfo {
    fn default() -> (r: ImageInfo)
        ensures
            r@ == TagLists::empty(),
    {
        ImageInfo::new()
    }
}

/// The image record that rule34.xxx embeds in its pages as a script object.
#[derive(Debug)]
pub struct Rule34Parse {
    pub domain: String,
    pub dir: i32,
    pub img: String,
    pub base_dir: String,
}

/// What a nozomi link points at.
#[derive(Debug, Clone, Copy, PartialEq, Eq, Structural)]
pub enum DataType {
    Image,
    Json,
}

/// The ways in which scraping a page can fail.
#[derive(Debug, PartialEq, Eq)]
pub enum ScrapeError {
    /// A search pattern was refused by the regular-expression engine.
    InvalidPattern,
    /// The link holds no nozomi post id.
    NozomiIdNotFound,
    /// A redirect came without a `Location` header; the status code is kept.
    MissingLocation(u16),
    /// A `Location` header held characters that are not visible ASCII.
    InvalidLocation,
    /// The server answered with a status that is neither success nor redirect.
    UnexpectedStatus(u16),
}

} // verus!
