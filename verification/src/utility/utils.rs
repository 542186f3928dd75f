//! Link classification and link construction.
use vstd::prelude::*;

use crate::models::types::{DataType, ImageInfo, ScrapeError, Site, TagLists};
use crate::pattern::{capture_group, pattern_compiles, pattern_group};
use crate::text::{
    byte_offset, chars_of, contains, contains_str, ends_with, ends_with_str, find_chars_from,
    find_from, is_char_boundary_at, lemma_byte_offset_strict, lemma_utf8_len_push, starts_with,
    push_char, starts_with_str, string_of, utf8_width, append_joined, join, split_trimmed, trim,
    trim_str, trimmed_pieces, views, free_of, is_ws, lemma_trim_end_nonempty,
    lemma_trimmed_pieces_clean, trim_start, lemma_ascii_utf8_len, lemma_find_from,
    lemma_find_from_first, occurs_at, lemma_join_part_at, lemma_occurs_in_concat,
    lemma_occurs_survives_trim, lemma_trim_shape, split_on,
};
use vstd::string::StringExecFns;

verus! {

/// The site that `url` belongs to, by the host name it mentions.
pub open spec fn site_of(url: Seq<char>) -> Site {
    if contains(url, "/rule34.xxx"@) {
        Site::Rule34xxx
    } else if contains(url, "/rule34.us"@) {
        Site::Rule34us
    } else if contains(url, "/rule34video.com"@) {
        Site::Rule34Video
    } else if contains(url, "/gelbooru.com"@) {
        Site::Gelbooru
    } else if contains(url, "/danbooru.donmai.us"@) {
        Site::Danbooru
    } else if contains(url, "/nozomi.la"@) {
        Site::Nozomi
    } else {
        Site::Unknown
    }
}

/// Recognises the site of a post link; the first host that the link mentions
/// in the order rule34.xxx, rule34.us, rule34video.com, gelbooru.com,
/// danbooru.donmai.us, nozomi.la decides.
pub fn detect_site(url: &str) -> (s: Site)
    ensures
        s == site_of(url@),
{
    if contains_str(url, "/rule34.xxx") {
        Site::Rule34xxx
    } else if contains_str(url, "/rule34.us") {
        Site::Rule34us
    } else if contains_str(url, "/rule34video.com") {
        Site::Rule34Video
    } else if contains_str(url, "/gelbooru.com") {
        Site::Gelbooru
    } else if contains_str(url, "/danbooru.donmai.us") {
        Site::Danbooru
    } else if contains_str(url, "/nozomi.la") {
        Site::Nozomi
    } else {
        Site::Unknown
    }
}

/// The link names an image file: it ends in `.png`, `.jpg`, `.jpeg`, `.gif` or `.webp`.
pub open spec fn is_image_link(link: Seq<char>) -> bool {
    ||| ends_with(link, ".png"@)
    ||| ends_with(link, ".jpg"@)
    ||| ends_with(link, ".jpeg"@)
    ||| ends_with(link, ".gif"@)
    ||| ends_with(link, ".webp"@)
}

/// Whether `link` names an image file.
pub fn check_image(link: &str) -> (b: bool)
    ensures
        b == is_image_link(link@),
{
    ends_with_str(link, ".png") || ends_with_str(link, ".jpg") || ends_with_str(link, ".jpeg")
        || ends_with_str(link, ".gif") || ends_with_str(link, ".webp")
}

/// A link belongs to the first site, in the order rule34.xxx, rule34.us,
/// rule34video.com, gelbooru.com, danbooru.donmai.us, nozomi.la, whose host
/// (with the `/` before it) it mentions, wherever in the link and whatever
/// else the link holds; a link that mentions none of them belongs to no
/// known site.
pub proof fn law_site_by_host(url: Seq<char>)
    ensures
        contains(url, "/rule34.xxx"@) ==> site_of(url) == Site::Rule34xxx,
        !contains(url, "/rule34.xxx"@) && contains(url, "/rule34.us"@) ==> site_of(url)
            == Site::Rule34us,
        !contains(url, "/rule34.xxx"@) && !contains(url, "/rule34.us"@) && contains(
            url,
            "/rule34video.com"@,
        ) ==> site_of(url) == Site::Rule34Video,
        !contains(url, "/rule34.xxx"@) && !contains(url, "/rule34.us"@) && !contains(
            url,
            "/rule34video.com"@,
        ) && contains(url, "/gelbooru.com"@) ==> site_of(url) == Site::Gelbooru,
        !contains(url, "/rule34.xxx"@) && !contains(url, "/rule34.us"@) && !contains(
            url,
            "/rule34video.com"@,
        ) && !contains(url, "/gelbooru.com"@) && contains(url, "/danbooru.donmai.us"@)
            ==> site_of(url) == Site::Danbooru,
        !contains(url, "/rule34.xxx"@) && !contains(url, "/rule34.us"@) && !contains(
            url,
            "/rule34video.com"@,
        ) && !contains(url, "/gelbooru.com"@) && !contains(url, "/danbooru.donmai.us"@)
            && contains(url, "/nozomi.la"@) ==> site_of(url) == Site::Nozomi,
        !contains(url, "/rule34.xxx"@) && !contains(url, "/rule34.us"@) && !contains(
            url,
            "/rule34video.com"@,
        ) && !contains(url, "/gelbooru.com"@) && !contains(url, "/danbooru.donmai.us"@)
            && !contains(url, "/nozomi.la"@) ==> site_of(url) == Site::Unknown,
{
}

/// A link is an image link exactly when it ends in one of `.png`, `.jpg`,
/// `.jpeg`, `.gif`, `.webp`.
pub proof fn law_image_link_by_extension(link: Seq<char>)
    ensures
        ends_with(link, ".png"@) ==> is_image_link(link),
        ends_with(link, ".jpg"@) ==> is_image_link(link),
        ends_with(link, ".jpeg"@) ==> is_image_link(link),
        ends_with(link, ".gif"@) ==> is_image_link(link),
        ends_with(link, ".webp"@) ==> is_image_link(link),
        !ends_with(link, ".png"@) && !ends_with(link, ".jpg"@) && !ends_with(link, ".jpeg"@)
            && !ends_with(link, ".gif"@) && !ends_with(link, ".webp"@) ==> !is_image_link(link),
{
}

/// The byte at which the search for the end of the host starts: just after
/// `https://`, or after seven bytes for any other link.
pub open spec fn domain_search_start(url: Seq<char>) -> nat {
    if starts_with(url, "https://"@) {
        8
    } else {
        7
    }
}

/// The character index of the byte where the search for the end of the host starts.
pub open spec fn domain_search_index(url: Seq<char>) -> int {
    choose|k: int| 0 <= k <= url.len() && byte_offset(url, k) == domain_search_start(url)
}

/// The scheme and host of `url` with a closing `/`: the prefix of `url` up to
/// the first `/` after the scheme, or `url` and a `/` when it has none.
pub open spec fn base_domain(url: Seq<char>) -> Seq<char> {
    match find_from(url, "/"@, domain_search_index(url)) {
        Some(j) => url.take(j + 1),
        None => url + "/"@,
    }
}

/// Where `get_base_domain` does not panic: the byte where the search starts
/// lies within `url` on a character boundary.
pub open spec fn base_domain_defined(url: Seq<char>) -> bool {
    is_char_boundary_at(url, domain_search_start(url))
}

/// The character index whose byte offset in `s` is `b`.
fn char_index_at_byte(v: &Vec<char>, b: usize) -> (k: usize)
    requires
        is_char_boundary_at(v@, b as nat),
    ensures
        k <= v@.len(),
        byte_offset(v@, k as int) == b,
        forall|j: int| 0 <= j <= v@.len() && byte_offset(v@, j) == b ==> j == k,
{
    let ghost w = choose|kk: int| 0 <= kk <= v@.len() && byte_offset(v@, kk) == b;
    let mut k: usize = 0;
    let mut off: usize = 0;
    proof {
        assert(v@.take(0) =~= Seq::<char>::empty());
    }
    while off < b
        invariant
            0 <= w <= v@.len(),
            byte_offset(v@, w) == b,
            k <= v@.len(),
            off == byte_offset(v@, k as int),
            off <= b,
        decreases b - off,
    {
        proof {
            if w <= k {
                lemma_byte_offset_strict(v@, w, k as int);
            }
        }
        assert(k < v.len());
        let c = v[k];
        let width = utf8_width(c);
        proof {
            assert(v@.take(k + 1) =~= v@.take(k as int).push(c));
            lemma_utf8_len_push(v@.take(k as int), c);
            lemma_byte_offset_strict(v@, k + 1, w);
        }
        off = off + width;
        k = k + 1;
    }
    proof {
        assert forall|j: int| 0 <= j <= v@.len() && byte_offset(v@, j) == b implies j == k by {
            if j < k {
                lemma_byte_offset_strict(v@, j, k as int);
            } else if j > k {
                lemma_byte_offset_strict(v@, k as int, j);
            }
        }
    }
    k
}

/// The scheme and host of `url` with a closing `/`.
pub fn get_base_domain(url: &str) -> (r: String)
    requires
        base_domain_defined(url@),
    ensures
        r@ == base_domain(url@),
{
    let start: usize = if starts_with_str(url, "https://") {
        8
    } else {
        7
    };
    let v = chars_of(url);
    let k = char_index_at_byte(&v, start);
    let slash = chars_of("/");
    proof {
        reveal_strlit("/");
    }
    match find_chars_from(&v, &slash, k) {
        Some(j) => {
            assert(j + 1 <= v.len());
            proof {
                assert(v@.subrange(0, j + 1) =~= v@.take(j + 1));
            }
            string_of(&v, 0, j + 1)
        },
        None => {
            let mut r = string_of(&v, 0, v.len());
            proof {
                assert(v@.subrange(0, v@.len() as int) =~= v@);
            }
            r.append("/");
            r
        },
    }
}

/// The pattern that finds the post id in a nozomi post link.
pub open spec fn nozomi_post_pattern() -> Seq<char> {
    "/post/(\\d+)\\.html"@
}

/// What `get_nozomi_id_from_link` gives, from what the pattern search gave.
pub open spec fn nozomi_id_result(compiles: bool, group: Option<Seq<char>>) -> Result<
    Seq<char>,
    ScrapeError,
> {
    if !compiles {
        Err(ScrapeError::InvalidPattern)
    } else {
        match group {
            Some(id) => Ok(id),
            None => Err(ScrapeError::NozomiIdNotFound),
        }
    }
}

/// The view of a result that carries a string.
pub open spec fn result_view(r: Result<String, ScrapeError>) -> Result<Seq<char>, ScrapeError> {
    match r {
        Ok(s) => Ok(s@),
        Err(e) => Err(e),
    }
}

/// The digits of the post id in a nozomi link `.../post/<digits>.html`.
pub fn get_nozomi_id_from_link(original_link: &str) -> (r: Result<String, ScrapeError>)
    ensures
        result_view(r) == nozomi_id_result(
            pattern_compiles(nozomi_post_pattern()),
            pattern_group(nozomi_post_pattern(), original_link@, 1),
        ),
{
    match capture_group("/post/(\\d+)\\.html", original_link, 1) {
        Err(_) => Err(ScrapeError::InvalidPattern),
        Ok(Some(id)) => Ok(id),
        Ok(None) => Err(ScrapeError::NozomiIdNotFound),
    }
}

/// The nozomi content-server link for post `id`: the image (`w` host, `.webp`)
/// or the JSON record (`j` host, under `post/`, `.json`). Ids of three or more
/// characters are filed under their last character and the two before it.
pub open spec fn nozomi_link(id: Seq<char>, data_type: DataType) -> Seq<char> {
    let prefix = match data_type {
        DataType::Image => "w"@,
        DataType::Json => "j"@,
    };
    let postfix = match data_type {
        DataType::Image => "webp"@,
        DataType::Json => "json"@,
    };
    let additional = match data_type {
        DataType::Image => ""@,
        DataType::Json => "post/"@,
    };
    let len = id.len() as int;
    if len < 3 {
        "https://"@ + prefix + ".gold-usergeneratedcontent.net/"@ + id + "."@ + postfix
    } else {
        "https://"@ + prefix + ".gold-usergeneratedcontent.net/"@ + additional + seq![id[len - 1]]
            + "/"@ + seq![id[len - 3], id[len - 2]] + "/"@ + id + "."@ + postfix
    }
}

/// The content-server link for a nozomi post id; it never fails.
pub fn generate_nozomi_link_from_id(id: &str, data_type: DataType) -> (r: Result<String, ScrapeError>)
    ensures
        result_view(r) == Ok::<Seq<char>, ScrapeError>(nozomi_link(id@, data_type)),
{
    let (link_prefix, link_postfix, link_additional) = match data_type {
        DataType::Image => ("w", "webp", ""),
        DataType::Json => ("j", "json", "post/"),
    };
    let chars = chars_of(id);
    let len = chars.len();
    let mut s = String::new();
    s.append("https://");
    s.append(link_prefix);
    s.append(".gold-usergeneratedcontent.net/");
    if len < 3 {
        s.append(id);
        s.append(".");
        s.append(link_postfix);
        return Ok(s);
    }
    s.append(link_additional);
    push_char(&mut s, chars[len - 1]);
    s.append("/");
    push_char(&mut s, chars[len - 3]);
    push_char(&mut s, chars[len - 2]);
    s.append("/");
    s.append(id);
    s.append(".");
    s.append(link_postfix);
    assert(s@ =~= nozomi_link(id@, data_type));
    Ok(s)
}

/// A line of the link list names a link when it is not empty and not a
/// `#` comment (after trimming).
pub open spec fn is_link_line(t: Seq<char>) -> bool {
    t.len() > 0 && !starts_with(t, "#"@)
}

/// The trimmed lines that name links, in order.
pub open spec fn link_lines(lines: Seq<Seq<char>>) -> Seq<Seq<char>>
    decreases lines.len(),
{
    if lines.len() == 0 {
        Seq::<Seq<char>>::empty()
    } else {
        let prev = link_lines(lines.drop_last());
        if is_link_line(lines.last()) {
            prev.push(lines.last())
        } else {
            prev
        }
    }
}

/// The links of a link list file: its lines, trimmed, without empty lines
/// and `#` comments, in order.
pub open spec fn links_in_text(content: Seq<char>) -> Seq<Seq<char>> {
    link_lines(trimmed_pieces(content, '\n'))
}

/// The links of a link list file, from its text.
pub fn links_from_text(content: &str) -> (r: Vec<String>)
    ensures
        views(r@) == links_in_text(content@),
{
    let lines = split_trimmed(content, '\n');
    let mut r: Vec<String> = Vec::new();
    let mut k: usize = 0;
    while k < lines.len()
        invariant
            views(lines@) == trimmed_pieces(content@, '\n'),
            k <= lines@.len(),
            views(r@) == link_lines(views(lines@).take(k as int)),
        decreases lines@.len() - k,
    {
        proof {
            assert(views(lines@).take(k + 1).drop_last() =~= views(lines@).take(k as int));
            assert(views(lines@).take(k + 1).last() == lines@[k as int]@);
        }
        let ghost before = r@;
        let line = lines[k].as_str();
        if !line.is_empty() && !starts_with_str(line, "#") {
            r.push(lines[k].clone());
            assert(views(r@) =~= views(before).push(lines@[k as int]@));
        }
        k = k + 1;
    }
    proof {
        assert(views(lines@).take(lines@.len() as int) =~= views(lines@));
    }
    r
}

proof fn lemma_link_lines_filter(lines: Seq<Seq<char>>)
    ensures
        link_lines(lines) == lines.filter(|t: Seq<char>| t.len() > 0 && !starts_with(t, "#"@)),
    decreases lines.len(),
{
    reveal(Seq::filter);
    if lines.len() > 0 {
        lemma_link_lines_filter(lines.drop_last());
    }
}

/// The links of a link list are exactly its lines (the pieces between
/// newlines), each trimmed, that are not empty and do not start with `#`,
/// in the order of the list.
pub proof fn law_links_are_the_link_lines(content: Seq<char>)
    ensures
        links_in_text(content) == split_on(content, '\n').map_values(|l: Seq<char>| trim(l)).filter(
            |t: Seq<char>| t.len() > 0 && !starts_with(t, "#"@),
        ),
{
    lemma_link_lines_filter(trimmed_pieces(content, '\n'));
}

/// One section of a tags file: `[title]`, then the tags one per line, then a
/// blank line; nothing for an empty list.
pub open spec fn tags_section(title: Seq<char>, tags: Seq<Seq<char>>) -> Seq<char> {
    if tags.len() == 0 {
        Seq::<char>::empty()
    } else {
        "["@ + title + "]\n"@ + join(tags, "\n"@) + "\n\n"@
    }
}

/// The text of the tags file of a post: the author, title, character and
/// general sections, trimmed.
pub open spec fn tags_file(info: TagLists) -> Seq<char> {
    trim(
        tags_section("author"@, info.authors) + tags_section("title"@, info.titles) + tags_section(
            "character"@,
            info.characters,
        ) + tags_section("general"@, info.general),
    )
}

fn append_section(content: &mut String, title: &str, tags: &Vec<String>)
    ensures
        final(content)@ == old(content)@ + tags_section(title@, views(tags@)),
{
    if tags.len() > 0 {
        content.append("[");
        content.append(title);
        content.append("]\n");
        append_joined(content, tags, "\n");
        content.append("\n\n");
        assert(content@ =~= old(content)@ + tags_section(title@, views(tags@)));
    } else {
        assert(content@ =~= old(content)@ + tags_section(title@, views(tags@)));
    }
}

/// The text of the tags file of a post.
pub fn tags_file_content(tags_info: &ImageInfo) -> (r: String)
    ensures
        r@ == tags_file(tags_info@),
{
    let mut content = String::new();
    append_section(&mut content, "author", &tags_info.authors);
    append_section(&mut content, "title", &tags_info.titles);
    append_section(&mut content, "character", &tags_info.characters);
    append_section(&mut content, "general", &tags_info.general);
    assert(content@ =~= tags_section("author"@, tags_info@.authors) + tags_section(
        "title"@,
        tags_info@.titles,
    ) + tags_section("character"@, tags_info@.characters) + tags_section(
        "general"@,
        tags_info@.general,
    ));
    trim_str(content.as_str())
}

proof fn lemma_link_lines_keep(lines: Seq<Seq<char>>)
    requires
        forall|k: int| 0 <= k < lines.len() ==> trim(#[trigger] lines[k]) == lines[k] && free_of(lines[k], '\n'),
    ensures
        forall|k: int|
            0 <= k < link_lines(lines).len() ==> {
                let l = #[trigger] link_lines(lines)[k];
                is_link_line(l) && trim(l) == l && free_of(l, '\n')
            },
    decreases lines.len(),
{
    if lines.len() > 0 {
        lemma_link_lines_keep(lines.drop_last());
        let prev = link_lines(lines.drop_last());
        let cur = link_lines(lines);
        assert(trim(lines[lines.len() - 1]) == lines[lines.len() - 1]);
        assert forall|k: int| 0 <= k < cur.len() implies {
            let l = #[trigger] cur[k];
            is_link_line(l) && trim(l) == l && free_of(l, '\n')
        } by {
            if k < prev.len() {
                assert(cur[k] == prev[k]);
            }
        }
    }
}

/// Every link read from a link list is a single trimmed, non-empty line that
/// is not a `#` comment.
pub proof fn law_links_are_clean(content: Seq<char>)
    ensures
        forall|k: int|
            0 <= k < links_in_text(content).len() ==> {
                let l = #[trigger] links_in_text(content)[k];
                &&& l.len() > 0
                &&& !starts_with(l, "#"@)
                &&& trim(l) == l
                &&& free_of(l, '\n')
            },
{
    lemma_trimmed_pieces_clean(content, '\n');
    lemma_link_lines_keep(trimmed_pieces(content, '\n'));
}

/// The image links that nozomi posts get are recognised as image links.
pub proof fn law_nozomi_image_links_are_images(id: Seq<char>)
    ensures
        is_image_link(nozomi_link(id, DataType::Image)),
{
    reveal_strlit(".webp");
    reveal_strlit(".");
    reveal_strlit("webp");
    let l = nozomi_link(id, DataType::Image);
    assert(l.skip(l.len() - 5) =~= ".webp"@);
}

/// The tags file of a post is empty exactly when the post has no tags.
pub proof fn law_tags_file_empty_iff_no_tags(info: TagLists)
    ensures
        tags_file(info).len() == 0 <==> (info.authors.len() == 0 && info.titles.len() == 0
            && info.characters.len() == 0 && info.general.len() == 0),
{
    reveal_strlit("[");
    let a = tags_section("author"@, info.authors);
    let b = tags_section("title"@, info.titles);
    let c = tags_section("character"@, info.characters);
    let g = tags_section("general"@, info.general);
    let all = a + b + c + g;
    if info.authors.len() == 0 && info.titles.len() == 0 && info.characters.len() == 0
        && info.general.len() == 0 {
        assert(all =~= Seq::<char>::empty());
    } else {
        // The first section present starts the text with `[`.
        let first_section = if info.authors.len() > 0 {
            a
        } else if info.titles.len() > 0 {
            b
        } else if info.characters.len() > 0 {
            c
        } else {
            g
        };
        assert(first_section[0] == '[');
        assert(all[0] == '[');
        assert(!is_ws(all[0]));
        assert(trim_start(all) == all);
        lemma_trim_end_nonempty(all);
    }
}

/// `t` is a tag as the readers deliver it: not empty, and trimmed.
pub open spec fn plain_tag(t: Seq<char>) -> bool {
    t.len() > 0 && trim(t) == t
}

/// The `[title]` header and every tag of a non-empty section occur in it,
/// each tag right after a newline.
proof fn lemma_section_holds(title: Seq<char>, tags: Seq<Seq<char>>, k: int) -> (r: (int, int))
    requires
        0 <= k < tags.len(),
    ensures
        occurs_at(tags_section(title, tags), "["@ + title + "]"@, r.0),
        occurs_at(tags_section(title, tags), "\n"@ + tags[k], r.1),
{
    reveal_strlit("]\n");
    reveal_strlit("]");
    reveal_strlit("\n");
    let head = "["@ + title + "]"@;
    let body = "\n"@ + join(tags, "\n"@);
    let sec = tags_section(title, tags);
    assert(sec =~= head + body + "\n\n"@);
    let j = lemma_join_part_at(tags, "\n"@, k);
    lemma_occurs_in_concat(head, body, "\n\n"@, "\n"@ + tags[k], j);
    assert(sec.subrange(0, head.len() as int) =~= head);
    (0, head.len() + j)
}

/// Something that occurs in one section of a post's tags file, and ends in
/// a character that is not whitespace, occurs in the file.
proof fn lemma_in_tags_file(info: TagLists, which: int, needle: Seq<char>, i: int)
    requires
        0 <= which < 4,
        needle.len() > 0,
        !is_ws(needle.last()),
        occurs_at(
            (if which == 0 {
                tags_section("author"@, info.authors)
            } else if which == 1 {
                tags_section("title"@, info.titles)
            } else if which == 2 {
                tags_section("character"@, info.characters)
            } else {
                tags_section("general"@, info.general)
            }),
            needle,
            i,
        ),
    ensures
        contains(tags_file(info), needle),
{
    reveal_strlit("[");
    let a = tags_section("author"@, info.authors);
    let b = tags_section("title"@, info.titles);
    let c = tags_section("character"@, info.characters);
    let g = tags_section("general"@, info.general);
    let all = a + b + c + g;
    let e = Seq::<char>::empty();
    let pos = if which == 0 {
        assert(all =~= e + a + (b + c + g));
        lemma_occurs_in_concat(e, a, b + c + g, needle, i);
        i
    } else if which == 1 {
        assert(all =~= a + b + (c + g));
        lemma_occurs_in_concat(a, b, c + g, needle, i);
        a.len() + i
    } else if which == 2 {
        assert(all =~= (a + b) + c + g);
        lemma_occurs_in_concat(a + b, c, g, needle, i);
        a.len() + b.len() + i
    } else {
        assert(all =~= (a + b + c) + g + e);
        lemma_occurs_in_concat(a + b + c, g, e, needle, i);
        a.len() + b.len() + c.len() + i
    };
    assert(occurs_at(all, needle, pos));
    // The section that holds the needle is not empty, so the file starts with `[`.
    let first_section = if info.authors.len() > 0 {
        a
    } else if info.titles.len() > 0 {
        b
    } else if info.characters.len() > 0 {
        c
    } else {
        g
    };
    assert(first_section.len() > 0);
    assert(first_section[0] == '[');
    assert(all[0] == '[');
    lemma_occurs_survives_trim(all, needle, pos);
}

/// The tags file names every tag of the post: each kind of tag that the post
/// has gets its `[kind]` header, and every tag (not empty and trimmed, as the
/// readers deliver them) stands in the file right after a newline, that is,
/// at the start of a line of its own.
pub proof fn law_tags_file_lists_every_tag(info: TagLists)
    ensures
        info.authors.len() > 0 ==> contains(tags_file(info), "[author]"@),
        info.titles.len() > 0 ==> contains(tags_file(info), "[title]"@),
        info.characters.len() > 0 ==> contains(tags_file(info), "[character]"@),
        info.general.len() > 0 ==> contains(tags_file(info), "[general]"@),
        forall|k: int|
            0 <= k < info.authors.len() && plain_tag(#[trigger] info.authors[k]) ==> contains(
                tags_file(info),
                "\n"@ + info.authors[k],
            ),
        forall|k: int|
            0 <= k < info.titles.len() && plain_tag(#[trigger] info.titles[k]) ==> contains(
                tags_file(info),
                "\n"@ + info.titles[k],
            ),
        forall|k: int|
            0 <= k < info.characters.len() && plain_tag(#[trigger] info.characters[k]) ==> contains(
                tags_file(info),
                "\n"@ + info.characters[k],
            ),
        forall|k: int|
            0 <= k < info.general.len() && plain_tag(#[trigger] info.general[k]) ==> contains(
                tags_file(info),
                "\n"@ + info.general[k],
            ),
{
    reveal_strlit("[author]");
    reveal_strlit("[title]");
    reveal_strlit("[character]");
    reveal_strlit("[general]");
    reveal_strlit("[");
    reveal_strlit("]");
    reveal_strlit("author");
    reveal_strlit("title");
    reveal_strlit("character");
    reveal_strlit("general");
    let lists = seq![info.authors, info.titles, info.characters, info.general];
    let titles = seq!["author"@, "title"@, "character"@, "general"@];
    assert forall|w: int, k: int| 0 <= w < 4 && 0 <= k < lists[w].len() implies {
        &&& contains(tags_file(info), "["@ + titles[w] + "]"@)
        &&& plain_tag(#[trigger] lists[w][k]) ==> contains(tags_file(info), "\n"@ + lists[w][k])
    } by {
        let (h, p) = lemma_section_holds(titles[w], lists[w], k);
        let hdr = "["@ + titles[w] + "]"@;
        assert(hdr.last() == ']');
        lemma_in_tags_file(info, w, hdr, h);
        if plain_tag(lists[w][k]) {
            let t = lists[w][k];
            lemma_trim_shape(t);
            assert(("\n"@ + t).last() == t.last());
            lemma_in_tags_file(info, w, "\n"@ + t, p);
        }
    }
    assert("["@ + titles[0] + "]"@ =~= "[author]"@);
    assert("["@ + titles[1] + "]"@ =~= "[title]"@);
    assert("["@ + titles[2] + "]"@ =~= "[character]"@);
    assert("["@ + titles[3] + "]"@ =~= "[general]"@);
    if info.authors.len() > 0 {
        assert(lists[0].len() > 0);
    }
    if info.titles.len() > 0 {
        assert(lists[1].len() > 0);
    }
    if info.characters.len() > 0 {
        assert(lists[2].len() > 0);
    }
    if info.general.len() > 0 {
        assert(lists[3].len() > 0);
    }
    assert forall|k: int| 0 <= k < info.authors.len() && plain_tag(#[trigger] info.authors[k]) implies contains(tags_file(info), "\n"@ + info.authors[k]) by {
        assert(lists[0][k] == info.authors[k]);
    }
    assert forall|k: int| 0 <= k < info.titles.len() && plain_tag(#[trigger] info.titles[k]) implies contains(tags_file(info), "\n"@ + info.titles[k]) by {
        assert(lists[1][k] == info.titles[k]);
    }
    assert forall|k: int| 0 <= k < info.characters.len() && plain_tag(#[trigger] info.characters[k]) implies contains(tags_file(info), "\n"@ + info.characters[k]) by {
        assert(lists[2][k] == info.characters[k]);
    }
    assert forall|k: int| 0 <= k < info.general.len() && plain_tag(#[trigger] info.general[k]) implies contains(tags_file(info), "\n"@ + info.general[k]) by {
        assert(lists[3][k] == info.general[k]);
    }
}

/// The search index of a link is the one character index at its search byte.
proof fn lemma_search_index(url: Seq<char>)
    requires
        base_domain_defined(url),
    ensures
        0 <= domain_search_index(url) <= url.len(),
        byte_offset(url, domain_search_index(url)) == domain_search_start(url),
        forall|k: int|
            0 <= k <= url.len() && byte_offset(url, k) == domain_search_start(url) ==> k
                == domain_search_index(url),
{
    let k0 = domain_search_index(url);
    assert forall|k: int|
        0 <= k <= url.len() && byte_offset(url, k) == domain_search_start(url) implies k == k0 by {
        if k < k0 {
            lemma_byte_offset_strict(url, k, k0);
        } else if k > k0 {
            lemma_byte_offset_strict(url, k0, k);
        }
    }
}

/// After `https://` the search starts at the ninth character.
proof fn lemma_https_index(url: Seq<char>)
    requires
        starts_with(url, "https://"@),
    ensures
        byte_offset(url, 8) == 8,
{
    reveal_strlit("https://");
    let p = url.take(8);
    assert(p =~= "https://"@);
    assert forall|i: int| 0 <= i < p.len() implies (#[trigger] p[i] as u32) < 0x80 by {}
    lemma_ascii_utf8_len(p);
}

/// After `http://` the search starts at the eighth character.
proof fn lemma_http_index(url: Seq<char>)
    requires
        starts_with(url, "http://"@),
    ensures
        byte_offset(url, 7) == 7,
        !starts_with(url, "https://"@),
{
    reveal_strlit("http://");
    reveal_strlit("https://");
    let p = url.take(7);
    assert(p =~= "http://"@);
    assert forall|i: int| 0 <= i < p.len() implies (#[trigger] p[i] as u32) < 0x80 by {}
    lemma_ascii_utf8_len(p);
    if url.len() >= 8 {
        assert(url.take(8)[4] == ':');
    }
}

/// The base domain of a web link (`https://` or `http://`) is the link up
/// to the first `/` after the scheme, that `/` included, or the whole link
/// and a `/` when no `/` follows the scheme: it begins like the link, goes
/// past the scheme, ends with `/`, and holds no other `/` after the scheme.
pub proof fn law_base_domain_of_web_link(url: Seq<char>)
    requires
        starts_with(url, "https://"@) || starts_with(url, "http://"@),
    ensures
        base_domain_defined(url),
        ({
            let b = base_domain(url);
            let scheme: int = if starts_with(url, "https://"@) { 8 } else { 7 };
            &&& b.len() > scheme
            &&& b.last() == '/'
            &&& b == (url + "/"@).take(b.len() as int)
            &&& forall|i: int| scheme <= i < b.len() - 1 ==> b[i] != '/'
        }),
{
    reveal_strlit("/");
    reveal_strlit("https://");
    reveal_strlit("http://");
    let scheme: int = if starts_with(url, "https://"@) {
        lemma_https_index(url);
        8
    } else {
        lemma_http_index(url);
        7
    };
    assert(url.len() >= scheme);
    assert(byte_offset(url, scheme) == domain_search_start(url));
    assert(base_domain_defined(url));
    lemma_search_index(url);
    assert(domain_search_index(url) == scheme);
    lemma_find_from(url, "/"@, scheme);
    let b = base_domain(url);
    match find_from(url, "/"@, scheme) {
        Some(j) => {
            assert(b == url.take(j + 1));
            assert(url.subrange(j, j + 1) == "/"@);
            assert(url.subrange(j, j + 1)[0] == url[j]);
            assert(b =~= (url + "/"@).take(b.len() as int));
            assert forall|i: int| scheme <= i < b.len() - 1 implies b[i] != '/' by {
                assert(!occurs_at(url, "/"@, i));
                if b[i] == '/' {
                    assert(url.subrange(i, i + 1) =~= "/"@);
                }
            }
        },
        None => {
            assert(b == url + "/"@);
            assert(b =~= (url + "/"@).take(b.len() as int));
            assert forall|i: int| scheme <= i < b.len() - 1 implies b[i] != '/' by {
                assert(!occurs_at(url, "/"@, i));
                if b[i] == '/' {
                    assert(url.subrange(i, i + 1) =~= "/"@);
                }
            }
        },
    }
}

/// The base domain of a link ends with `/`, and taking the base domain again
/// changes nothing. The one link for which the second call differs is
/// `https:/`, whose base domain `https://` reads as a secure link with an
/// empty host.
pub proof fn law_base_domain_idempotent(url: Seq<char>)
    requires
        base_domain_defined(url),
        url != "https:/"@,
    ensures
        base_domain(url).len() > 0,
        base_domain(url).last() == '/',
        base_domain_defined(base_domain(url)),
        base_domain(base_domain(url)) == base_domain(url),
{
    reveal_strlit("/");
    reveal_strlit("https://");
    reveal_strlit("https:/");
    lemma_search_index(url);
    let k0 = domain_search_index(url);
    let st = domain_search_start(url);
    let r = base_domain(url);
    lemma_find_from(url, "/"@, k0);
    if starts_with(url, "https://"@) {
        lemma_https_index(url);
        assert(k0 == 8);
    }
    match find_from(url, "/"@, k0) {
        Some(j) => {
            assert(r == url.take(j + 1));
            assert(url.subrange(j, j + 1) == "/"@);
            assert(url.subrange(j, j + 1)[0] == url[j]);
            assert("/"@[0] == '/');
            assert(url[j] == '/');
            assert(r.last() == '/');
            // Both texts start alike, so the search starts at the same byte.
            if starts_with(url, "https://"@) {
                assert(r.take(8) =~= url.take(8));
            }
            if starts_with(r, "https://"@) {
                assert(r.take(8) =~= url.take(8));
            }
            assert(domain_search_start(r) == st);
            assert(r.take(k0) =~= url.take(k0));
            assert(byte_offset(r, k0) == st);
            assert(base_domain_defined(r));
            lemma_search_index(r);
            assert(domain_search_index(r) == k0);
            assert forall|m: int| k0 <= m < j implies !occurs_at(r, "/"@, m) by {
                assert(!occurs_at(url, "/"@, m));
                assert(r.subrange(m, m + 1) =~= url.subrange(m, m + 1));
            }
            assert(r.subrange(j, j + 1) =~= url.subrange(j, j + 1));
            lemma_find_from_first(r, "/"@, k0, j);
            assert(r.take(j + 1) =~= r);
        },
        None => {
            let n = url.len() as int;
            assert(r == url + "/"@);
            assert(r.last() == '/');
            if starts_with(url, "https://"@) {
                assert(r.take(8) =~= url.take(8));
            }
            if starts_with(r, "https://"@) && !starts_with(url, "https://"@) {
                if url.len() >= 8 {
                    assert(r.take(8) =~= url.take(8));
                } else {
                    assert(url.len() == 7);
                    assert(url =~= r.take(7));
                    assert(url =~= "https:/"@);
                }
            }
            assert(domain_search_start(r) == st);
            assert(r.take(k0) =~= url.take(k0));
            assert(byte_offset(r, k0) == st);
            assert(base_domain_defined(r));
            lemma_search_index(r);
            assert(domain_search_index(r) == k0);
            assert forall|m: int| k0 <= m < n implies !occurs_at(r, "/"@, m) by {
                assert(!occurs_at(url, "/"@, m));
                assert(r.subrange(m, m + 1) =~= url.subrange(m, m + 1));
            }
            assert(r.subrange(n, n + 1) =~= "/"@);
            lemma_find_from_first(r, "/"@, k0, n);
            assert(r.take(n + 1) =~= r);
        },
    }
}

} // verus!
