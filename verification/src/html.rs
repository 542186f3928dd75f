//! A model of a parsed HTML document and the queries that the scrapers make
//! on it. Parsing is done by the `select` crate; what its `Document` holds is
//! copied, node by node, into an [`HtmlDoc`], on which the queries are verified.
use vstd::prelude::*;

use crate::models::types::{all_clean, clean_tag, lemma_extend_clean, TagCategory, TagLists};
use crate::text::{
    chars_of, is_whitespace, is_ws, matches_at, occurs_at, str_eq, string_of, trim, trim_bounds,
    utf8_len, views,
};

verus! {

/// One node of a parsed document, as `select::node::Node` shows it.
pub struct HtmlNode {
    /// The local name of an element; `None` for text and comment nodes.
    pub name: Option<String>,
    /// The attributes of an element, in document order.
    pub attrs: Vec<(String, String)>,
    /// The text of the node and of all its descendants (`Node::text`).
    pub text: String,
    /// The indices of the descendants, in the order `Node::descendants` visits them.
    pub descendants: Vec<usize>,
}

/// The model of an [`HtmlNode`].
pub struct NodeView {
    pub name: Option<Seq<char>>,
    pub attrs: Seq<(Seq<char>, Seq<char>)>,
    pub text: Seq<char>,
    pub descendants: Seq<usize>,
}

impl View for HtmlNode {
    type V = NodeView;

    open spec fn view(&self) -> NodeView {
        NodeView {
            name: match self.name {
                Some(n) => Some(n@),
                None => None,
            },
            attrs: self.attrs@.map_values(|p: (String, String)| (p.0@, p.1@)),
            text: self.text@,
            descendants: self.descendants@,
        }
    }
}

/// A parsed document: its nodes in the order `select::document::Document` stores them.
pub struct HtmlDoc {
    pub nodes: Vec<HtmlNode>,
}

impl View for HtmlDoc {
    type V = Seq<NodeView>;

    open spec fn view(&self) -> Seq<NodeView> {
        self.nodes@.map_values(|n: HtmlNode| n@)
    }
}

/// Every descendant index names a node of the document.
pub open spec fn doc_wf(d: Seq<NodeView>) -> bool {
    forall|i: int, k: int|
        0 <= i < d.len() && 0 <= k < d[i].descendants.len() ==> #[trigger] d[i].descendants[k]
            < d.len()
}

impl HtmlDoc {
    pub open spec fn wf(&self) -> bool {
        doc_wf(self@)
    }
}

/// The nodes that `select` makes of `html` (html5ever's parse of the text).
pub uninterp spec fn parsed_html(html: Seq<char>) -> Seq<NodeView>;

/// Parses `html` with `select::document::Document::from` and copies each node
/// (name, attributes, `text()`, descendant indices). Trusted: the contract
/// claims that the result is `parsed_html` of the text, which holds because
/// parsing depends on the text alone, and that descendant indices lie within
/// the document, which holds because `select` only hands out indices of its
/// own nodes. What html5ever makes of a text is not stated.
#[verifier::external_body]
pub(crate) fn parse_html(html: &str) -> (doc: HtmlDoc)
    ensures
        doc@ == parsed_html(html@),
        doc.wf(),
{
    let d = select::document::Document::from(html);
    let nodes = d.find(select::predicate::Any).map(|n| HtmlNode {
        name: n.name().map(|s| s.to_string()),
        attrs: n.attrs().map(|(k, v)| (k.to_string(), v.to_string())).collect(),
        text: n.text(),
        descendants: n.descendants().map(|x| x.index()).collect(),
    }).collect();
    HtmlDoc { nodes }
}

/// The value of the first attribute named `key` (`Node::attr`).
pub open spec fn attr_lookup(attrs: Seq<(Seq<char>, Seq<char>)>, key: Seq<char>) -> Option<
    Seq<char>,
>
    decreases attrs.len(),
{
    if attrs.len() == 0 {
        None
    } else if attrs[0].0 == key {
        Some(attrs[0].1)
    } else {
        attr_lookup(attrs.drop_first(), key)
    }
}

pub open spec fn attr_of(n: NodeView, key: Seq<char>) -> Option<Seq<char>> {
    attr_lookup(n.attrs, key)
}

/// `node.attr(key).unwrap_or("")`.
pub open spec fn attr_or_empty(n: NodeView, key: Seq<char>) -> Seq<char> {
    match attr_of(n, key) {
        Some(v) => v,
        None => Seq::<char>::empty(),
    }
}

/// `token` occurs in `classes` at `i` as a whole whitespace-separated word.
pub open spec fn word_at(classes: Seq<char>, token: Seq<char>, i: int) -> bool {
    &&& occurs_at(classes, token, i)
    &&& (i == 0 || is_ws(classes[i - 1]))
    &&& (i + token.len() == classes.len() || is_ws(classes[i + token.len()]))
}

/// `classes.split_whitespace().any(|c| c == token)`.
pub open spec fn has_word(classes: Seq<char>, token: Seq<char>) -> bool {
    &&& token.len() > 0
    &&& forall|k: int| 0 <= k < token.len() ==> !is_ws(#[trigger] token[k])
    &&& exists|i: int| word_at(classes, token, i)
}

/// The node predicates that the scrapers use (`select::predicate`).
pub enum NodeTest<'a> {
    /// `Name(name)`: an element with that name.
    Named(&'a str),
    /// `Class(class)`: an element whose `class` attribute lists that class.
    Class(&'a str),
    /// `Attr(key, value)`: an element whose attribute `key` equals `value`.
    AttrIs(&'a str, &'a str),
    /// `Name(name).and(Class(class))`.
    NamedClass(&'a str, &'a str),
}

pub open spec fn name_is(n: NodeView, name: Seq<char>) -> bool {
    n.name == Some(name)
}

pub open spec fn class_is(n: NodeView, class: Seq<char>) -> bool {
    match attr_of(n, "class"@) {
        Some(c) => has_word(c, class),
        None => false,
    }
}

/// `test.matches(n)`.
pub open spec fn passes(test: NodeTest, n: NodeView) -> bool {
    match test {
        NodeTest::Named(name) => name_is(n, name@),
        NodeTest::Class(class) => class_is(n, class@),
        NodeTest::AttrIs(key, value) => attr_of(n, key@) == Some(value@),
        NodeTest::NamedClass(name, class) => name_is(n, name@) && class_is(n, class@),
    }
}

/// The indices among `idxs` whose nodes pass `test`, in order.
pub open spec fn matching(d: Seq<NodeView>, idxs: Seq<usize>, test: NodeTest) -> Seq<usize>
    decreases idxs.len(),
{
    if idxs.len() == 0 {
        Seq::<usize>::empty()
    } else {
        let prev = matching(d, idxs.drop_last(), test);
        if passes(test, d[idxs.last() as int]) {
            prev.push(idxs.last())
        } else {
            prev
        }
    }
}

/// All node indices, in document order.
pub open spec fn all_nodes(d: Seq<NodeView>) -> Seq<usize> {
    Seq::new(d.len(), |i: int| i as usize)
}

/// `document.find(test)`: the nodes of the document that pass `test`, in order.
pub open spec fn doc_find(d: Seq<NodeView>, test: NodeTest) -> Seq<usize> {
    matching(d, all_nodes(d), test)
}

/// `node.find(test)`: the descendants of node `i` that pass `test`, in order.
pub open spec fn node_find(d: Seq<NodeView>, i: int, test: NodeTest) -> Seq<usize> {
    matching(d, d[i].descendants, test)
}

/// The first element of a sequence of indices.
pub open spec fn first(s: Seq<usize>) -> Option<usize> {
    if s.len() > 0 {
        Some(s[0])
    } else {
        None
    }
}

/// All indices lie within the document.
pub open spec fn in_doc(d: Seq<NodeView>, idxs: Seq<usize>) -> bool {
    forall|k: int| 0 <= k < idxs.len() ==> #[trigger] idxs[k] < d.len()
}

/// The trimmed texts of the nodes `items` that are longer than one byte, in
/// order: the tag names that a tag list holds.
pub open spec fn item_tags(d: Seq<NodeView>, items: Seq<usize>) -> Seq<Seq<char>>
    decreases items.len(),
{
    if items.len() == 0 {
        Seq::<Seq<char>>::empty()
    } else {
        let prev = item_tags(d, items.drop_last());
        let t = trim(d[items.last() as int].text);
        if utf8_len(t) > 1 {
            prev.push(t)
        } else {
            prev
        }
    }
}

/// The tags that the tag lists `containers` hold, each list read through the
/// descendants that pass `item` and filed under its kind.
pub open spec fn gather_tags(
    d: Seq<NodeView>,
    containers: Seq<(usize, TagCategory)>,
    item: NodeTest,
) -> TagLists
    decreases containers.len(),
{
    if containers.len() == 0 {
        TagLists::empty()
    } else {
        let (c, cat) = containers.last();
        gather_tags(d, containers.drop_last(), item).extend(
            cat,
            item_tags(d, node_find(d, c as int, item)),
        )
    }
}


/// The element name of node `n`, when it is `name`.
pub fn is_named(n: &HtmlNode, name: &str) -> (b: bool)
    ensures
        b == name_is(n@, name@),
{
    match &n.name {
        Some(s) => str_eq(s.as_str(), name),
        None => false,
    }
}

/// `node.attr(key)`.
pub fn attr(n: &HtmlNode, key: &str) -> (r: Option<String>)
    ensures
        match r {
            Some(v) => attr_of(n@, key@) == Some(v@),
            None => attr_of(n@, key@) is None,
        },
{
    let ghost a = n@.attrs;
    let mut k: usize = 0;
    assert(a.skip(0) =~= a);
    while k < n.attrs.len()
        invariant
            a == n@.attrs,
            a.len() == n.attrs@.len(),
            k <= a.len(),
            attr_lookup(a, key@) == attr_lookup(a.skip(k as int), key@),
        decreases a.len() - k,
    {
        proof {
            assert(a.skip(k as int).drop_first() =~= a.skip(k + 1));
            assert(a.skip(k as int)[0] == a[k as int]);
        }
        if str_eq(n.attrs[k].0.as_str(), key) {
            return Some(n.attrs[k].1.clone());
        }
        k = k + 1;
    }
    None
}

/// `node.attr(key).unwrap_or("")`, owned.
pub fn attr_or_empty_string(n: &HtmlNode, key: &str) -> (r: String)
    ensures
        r@ == attr_or_empty(n@, key@),
{
    match attr(n, key) {
        Some(v) => v,
        None => String::new(),
    }
}

/// Whether `token` is one of the whitespace-separated words of `classes`.
pub fn has_word_exec(classes: &str, token: &str) -> (b: bool)
    ensures
        b == has_word(classes@, token@),
{
    let c = chars_of(classes);
    let t = chars_of(token);
    if t.len() == 0 {
        return false;
    }
    let mut k: usize = 0;
    while k < t.len()
        invariant
            t@ == token@,
            k <= t@.len(),
            forall|m: int| 0 <= m < k ==> !is_ws(#[trigger] t@[m]),
        decreases t@.len() - k,
    {
        if is_whitespace(t[k]) {
            return false;
        }
        k = k + 1;
    }
    if t.len() > c.len() {
        proof {
            assert forall|i: int| !word_at(classes@, token@, i) by {}
        }
        return false;
    }
    let last = c.len() - t.len();
    let mut i: usize = 0;
    loop
        invariant
            c@ == classes@,
            t@ == token@,
            t@.len() > 0,
            forall|m: int| 0 <= m < t@.len() ==> !is_ws(#[trigger] t@[m]),
            last + t@.len() == c@.len(),
            i <= last,
            forall|j: int| 0 <= j < i ==> !word_at(classes@, token@, j),
        decreases last - i,
    {
        let before_ok = i == 0 || is_whitespace(c[i - 1]);
        let after_ok = if i == last {
            true
        } else {
            assert(i + t.len() < c.len());
            is_whitespace(c[i + t.len()])
        };
        if before_ok && after_ok && matches_at(&c, &t, i) {
            assert(word_at(classes@, token@, i as int));
            return true;
        }
        if i == last {
            proof {
                assert forall|j: int| !word_at(classes@, token@, j) by {
                    if j > i {
                        assert(!occurs_at(classes@, token@, j));
                    }
                }
            }
            return false;
        }
        i = i + 1;
    }
}

/// `test.matches(n)`.
pub fn test_node(test: &NodeTest, n: &HtmlNode) -> (b: bool)
    ensures
        b == passes(*test, n@),
{
    match test {
        NodeTest::Named(name) => is_named(n, name),
        NodeTest::Class(class) => match attr(n, "class") {
            Some(c) => has_word_exec(c.as_str(), class),
            None => false,
        },
        NodeTest::AttrIs(key, value) => match attr(n, key) {
            Some(v) => str_eq(v.as_str(), value),
            None => false,
        },
        NodeTest::NamedClass(name, class) => {
            if !is_named(n, name) {
                return false;
            }
            match attr(n, "class") {
                Some(c) => has_word_exec(c.as_str(), class),
                None => false,
            }
        },
    }
}

proof fn lemma_matching_in_doc(d: Seq<NodeView>, idxs: Seq<usize>, test: NodeTest)
    requires
        in_doc(d, idxs),
    ensures
        in_doc(d, matching(d, idxs, test)),
    decreases idxs.len(),
{
    if idxs.len() > 0 {
        lemma_matching_in_doc(d, idxs.drop_last(), test);
    }
}

/// The indices among `idxs` whose nodes pass `test`.
pub fn select_matching(doc: &HtmlDoc, idxs: &Vec<usize>, test: &NodeTest) -> (r: Vec<usize>)
    requires
        in_doc(doc@, idxs@),
    ensures
        r@ == matching(doc@, idxs@, *test),
        in_doc(doc@, r@),
{
    let mut r: Vec<usize> = Vec::new();
    let mut k: usize = 0;
    while k < idxs.len()
        invariant
            in_doc(doc@, idxs@),
            k <= idxs@.len(),
            r@ == matching(doc@, idxs@.take(k as int), *test),
        decreases idxs@.len() - k,
    {
        let i = idxs[k];
        proof {
            assert(idxs@.take(k + 1).drop_last() =~= idxs@.take(k as int));
            assert(idxs@.take(k + 1).last() == i);
        }
        if test_node(test, &doc.nodes[i]) {
            r.push(i);
        }
        k = k + 1;
    }
    proof {
        assert(idxs@.take(idxs@.len() as int) =~= idxs@);
        lemma_matching_in_doc(doc@, idxs@, *test);
    }
    r
}

/// `document.find(test)`, as node indices.
pub fn find_in_document(doc: &HtmlDoc, test: &NodeTest) -> (r: Vec<usize>)
    ensures
        r@ == doc_find(doc@, *test),
        in_doc(doc@, r@),
{
    let mut all: Vec<usize> = Vec::new();
    let mut i: usize = 0;
    while i < doc.nodes.len()
        invariant
            i <= doc@.len(),
            doc@.len() == doc.nodes@.len(),
            all@ == all_nodes(doc@).take(i as int),
        decreases doc@.len() - i,
    {
        all.push(i);
        i = i + 1;
        proof {
            assert(all@ =~= all_nodes(doc@).take(i as int));
        }
    }
    proof {
        assert(all_nodes(doc@).take(doc@.len() as int) =~= all_nodes(doc@));
    }
    select_matching(doc, &all, test)
}

/// `node.find(test)` for node `i`, as node indices.
pub fn find_in_node(doc: &HtmlDoc, i: usize, test: &NodeTest) -> (r: Vec<usize>)
    requires
        doc.wf(),
        i < doc@.len(),
    ensures
        r@ == node_find(doc@, i as int, *test),
        in_doc(doc@, r@),
{
    let ds = &doc.nodes[i].descendants;
    proof {
        assert forall|k: int| 0 <= k < ds@.len() implies #[trigger] ds@[k] < doc@.len() by {
            assert(doc@[i as int].descendants[k] < doc@.len());
        }
    }
    select_matching(doc, ds, test)
}

/// The trimmed text of node `i`, when it is longer than one byte.
fn tag_text(doc: &HtmlDoc, i: usize) -> (r: Option<String>)
    requires
        i < doc@.len(),
    ensures
        ({
            let t = trim(doc@[i as int].text);
            match r {
                Some(s) => s@ == t && utf8_len(t) > 1,
                None => utf8_len(t) <= 1,
            }
        }),
{
    let v = chars_of(doc.nodes[i].text.as_str());
    let (a, b) = trim_bounds(&v, 0, v.len());
    proof {
        assert(v@.subrange(0, v@.len() as int) =~= v@);
    }
    let ghost t = v@.subrange(a as int, b as int);
    let long = if b - a >= 2 {
        proof {
            crate::text::lemma_utf8_len_at_least_len(t);
        }
        true
    } else if b - a == 1 {
        let c = v[a];
        proof {
            crate::text::lemma_utf8_len_single(t);
        }
        (c as u32) >= 0x80
    } else {
        proof {
            crate::text::lemma_utf8_len_at_least_len(t);
            assert(t =~= Seq::<char>::empty());
            assert(vstd::utf8::encode_utf8(t) =~= Seq::<u8>::empty());
        }
        false
    };
    if long {
        Some(string_of(&v, a, b))
    } else {
        None
    }
}

/// The tag names that the nodes `items` hold.
pub fn tags_of_nodes(doc: &HtmlDoc, items: &Vec<usize>) -> (r: Vec<String>)
    requires
        in_doc(doc@, items@),
    ensures
        views(r@) == item_tags(doc@, items@),
{
    let mut r: Vec<String> = Vec::new();
    let mut k: usize = 0;
    while k < items.len()
        invariant
            in_doc(doc@, items@),
            k <= items@.len(),
            views(r@) == item_tags(doc@, items@.take(k as int)),
        decreases items@.len() - k,
    {
        let i = items[k];
        proof {
            assert(items@.take(k + 1).drop_last() =~= items@.take(k as int));
            assert(items@.take(k + 1).last() == i);
        }
        let ghost before = r@;
        match tag_text(doc, i) {
            Some(t) => {
                r.push(t);
                assert(views(r@) =~= views(before).push(r@.last()@));
            },
            None => {},
        }
        k = k + 1;
    }
    proof {
        assert(items@.take(items@.len() as int) =~= items@);
    }
    r
}

/// The tags of the tag lists `containers`, read through the descendants that pass `item`.
pub fn collect_tags(doc: &HtmlDoc, containers: &Vec<(usize, TagCategory)>, item: &NodeTest) -> (r:
    crate::models::types::ImageInfo)
    requires
        doc.wf(),
        forall|k: int| 0 <= k < containers@.len() ==> (#[trigger] containers@[k]).0 < doc@.len(),
    ensures
        r@ == gather_tags(doc@, containers@, *item),
{
    let mut info = crate::models::types::ImageInfo::new();
    let mut k: usize = 0;
    while k < containers.len()
        invariant
            doc.wf(),
            forall|m: int| 0 <= m < containers@.len() ==> (#[trigger] containers@[m]).0 < doc@.len(),
            k <= containers@.len(),
            info@ == gather_tags(doc@, containers@.take(k as int), *item),
        decreases containers@.len() - k,
    {
        let (c, cat) = containers[k];
        proof {
            assert(containers@.take(k + 1).drop_last() =~= containers@.take(k as int));
            assert(containers@.take(k + 1).last() == (c, cat));
        }
        let items = find_in_node(doc, c, item);
        let tags = tags_of_nodes(doc, &items);
        info.add_tags(cat, tags);
        k = k + 1;
    }
    proof {
        assert(containers@.take(containers@.len() as int) =~= containers@);
    }
    info
}

/// Every tag that a tag list holds is gathered under the kind of the list.
pub proof fn lemma_gather_tags_complete(
    d: Seq<NodeView>,
    containers: Seq<(usize, TagCategory)>,
    item: NodeTest,
    k: int,
    j: int,
)
    requires
        0 <= k < containers.len(),
        0 <= j < item_tags(d, node_find(d, containers[k].0 as int, item)).len(),
    ensures
        gather_tags(d, containers, item).of_kind(containers[k].1).contains(
            item_tags(d, node_find(d, containers[k].0 as int, item))[j],
        ),
    decreases containers.len(),
{
    let prev = gather_tags(d, containers.drop_last(), item);
    let (c, cat) = containers.last();
    let tags = item_tags(d, node_find(d, c as int, item));
    let cur = gather_tags(d, containers, item);
    assert(cur == prev.extend(cat, tags));
    let want = item_tags(d, node_find(d, containers[k].0 as int, item))[j];
    if k == containers.len() - 1 {
        let base = prev.of_kind(cat);
        assert(cur.of_kind(cat) == base + tags);
        assert((base + tags)[base.len() + j] == tags[j]);
    } else {
        assert(containers.drop_last()[k] == containers[k]);
        lemma_gather_tags_complete(d, containers.drop_last(), item, k, j);
        let kind = containers[k].1;
        let base = prev.of_kind(kind);
        let i = choose|i: int| 0 <= i < base.len() && base[i] == want;
        if kind == cat {
            assert(cur.of_kind(kind) == base + tags);
            assert((base + tags)[i] == want);
        } else {
            assert(cur.of_kind(kind) == base);
        }
    }
}

proof fn lemma_item_tags_filter(d: Seq<NodeView>, items: Seq<usize>)
    ensures
        item_tags(d, items) == items.map_values(|i: usize| trim(d[i as int].text)).filter(
            |t: Seq<char>| utf8_len(t) > 1,
        ),
    decreases items.len(),
{
    reveal(Seq::filter);
    let texts = items.map_values(|i: usize| trim(d[i as int].text));
    if items.len() > 0 {
        lemma_item_tags_filter(d, items.drop_last());
        assert(texts.drop_last() =~= items.drop_last().map_values(|i: usize| trim(d[i as int].text)));
    }
}

/// The tags that a tag list holds are exactly the texts of its items, each
/// trimmed, that are longer than one byte, in document order.
pub proof fn law_item_tags_are_the_long_texts(d: Seq<NodeView>, items: Seq<usize>)
    ensures
        item_tags(d, items) == items.map_values(|i: usize| trim(d[i as int].text)).filter(
            |t: Seq<char>| utf8_len(t) > 1,
        ),
{
    lemma_item_tags_filter(d, items);
}

/// Every tag gathered under a kind comes from a tag list of that kind.
pub proof fn lemma_gather_tags_sound(
    d: Seq<NodeView>,
    containers: Seq<(usize, TagCategory)>,
    item: NodeTest,
    cat: TagCategory,
    t: Seq<char>,
)
    requires
        gather_tags(d, containers, item).of_kind(cat).contains(t),
    ensures
        exists|k: int|
            0 <= k < containers.len() && (#[trigger] containers[k]).1 == cat && item_tags(
                d,
                node_find(d, containers[k].0 as int, item),
            ).contains(t),
    decreases containers.len(),
{
    if containers.len() == 0 {
        assert(TagLists::empty().of_kind(cat) =~= Seq::<Seq<char>>::empty());
    } else {
        let prev = gather_tags(d, containers.drop_last(), item);
        let (c, ccat) = containers.last();
        let tags = item_tags(d, node_find(d, c as int, item));
        let cur = gather_tags(d, containers, item);
        assert(cur == prev.extend(ccat, tags));
        let base = prev.of_kind(cat);
        let i = choose|i: int| 0 <= i < cur.of_kind(cat).len() && cur.of_kind(cat)[i] == t;
        let last = containers.len() - 1;
        if cat == ccat && i >= base.len() {
            assert(cur.of_kind(cat) == base + tags);
            assert(tags[i - base.len()] == t);
            assert(containers[last] == (c, ccat));
        } else {
            if cat == ccat {
                assert(cur.of_kind(cat) == base + tags);
            } else {
                assert(cur.of_kind(cat) == base);
            }
            assert(base[i] == t);
            lemma_gather_tags_sound(d, containers.drop_last(), item, cat, t);
            let k = choose|k: int|
                0 <= k < containers.drop_last().len() && (#[trigger] containers.drop_last()[k]).1 == cat
                    && item_tags(d, node_find(d, containers.drop_last()[k].0 as int, item)).contains(t);
            assert(containers[k] == containers.drop_last()[k]);
        }
    }
}

/// The tag names read from nodes are clean.
pub proof fn lemma_item_tags_clean(d: Seq<NodeView>, items: Seq<usize>)
    ensures
        all_clean(item_tags(d, items)),
    decreases items.len(),
{
    if items.len() > 0 {
        lemma_item_tags_clean(d, items.drop_last());
        let prev = item_tags(d, items.drop_last());
        let t = trim(d[items.last() as int].text);
        crate::text::lemma_trim_idempotent(d[items.last() as int].text);
        let cur = item_tags(d, items);
        assert forall|i: int| 0 <= i < cur.len() implies clean_tag(#[trigger] cur[i]) by {
            if i < prev.len() {
                assert(cur[i] == prev[i]);
            }
        }
    }
}

/// All tags gathered from tag lists are clean: trimmed and longer than one byte.
pub proof fn lemma_gather_tags_clean(
    d: Seq<NodeView>,
    containers: Seq<(usize, TagCategory)>,
    item: NodeTest,
)
    ensures
        gather_tags(d, containers, item).clean(),
    decreases containers.len(),
{
    if containers.len() == 0 {
        assert(TagLists::empty().clean());
    } else {
        let (c, cat) = containers.last();
        lemma_gather_tags_clean(d, containers.drop_last(), item);
        lemma_item_tags_clean(d, node_find(d, c as int, item));
        lemma_extend_clean(
            gather_tags(d, containers.drop_last(), item),
            cat,
            item_tags(d, node_find(d, c as int, item)),
        );
    }
}

} // verus!
