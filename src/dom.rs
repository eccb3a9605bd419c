//! Reading pages with scraper: the HTML parser and CSS selection are
//! scraper's; what the records need is copied out into the plain models of
//! `page` and `taxonomy`.
//!
//! Every element that scraper hands out carries its path from the document:
//! the selections and child positions that reached it. What scraper reads at
//! a path is a function of the HTML text alone, and is named below over the
//! text and the path.

use vstd::prelude::*;
use scraper::{ElementRef, Html, Node, Selector};
use crate::assets::ImageAttrs;
use crate::page::{
    CoverAnchor, GalleryPage, SearchCard, card_records, gallery_from_page, gallery_record,
    lemma_card_records_same, lemma_gallery_record_same, next_page, same_card, same_image,
    same_opt_image, same_page, search_results,
};
use crate::taxonomy::{no_page_count_label, same_anchor, same_container, same_node};
use crate::record::strs;
use crate::record::{NhentaiGallery, seq_of_gallery_views};
use crate::ident::opt_view;
use crate::text::{chars_of, decimal, push_decimal, string_of};
use crate::taxonomy::{LabelNode, TagAnchor, TagContainer};

verus! {

#[verifier::external_type_specification]
#[verifier::external_body]
pub struct ExHtml(Html);

#[verifier::external_type_specification]
#[verifier::external_body]
pub struct ExElementRef<'a>(ElementRef<'a>);

/// One step of a path from the document to an element.
pub enum Step {
    /// The match of this index among those of a selector: in the whole
    /// document for the first step, among the descendants of the element
    /// reached so far for the others.
    Select(String, usize),
    /// The child node of this index of the element reached so far.
    Child(usize),
}

/// A step of a path, with its selector as characters.
pub enum StepView {
    Select(Seq<char>, int),
    Child(int),
}

impl View for Step {
    type V = StepView;

    open spec fn view(&self) -> StepView {
        match self {
            Step::Select(s, i) => StepView::Select(s@, *i as int),
            Step::Child(k) => StepView::Child(*k as int),
        }
    }
}

pub open spec fn path_view(p: Seq<Step>) -> Seq<StepView> {
    p.map_values(|s: Step| s@)
}

/// A parsed document, with the text it was parsed from.
pub struct Document<'a> {
    tree: Html,
    html: &'a str,
}

/// An element of a parsed document, with the text of the document and the
/// path that reached it.
pub struct Element<'a> {
    node: ElementRef<'a>,
    html: &'a str,
    path: Vec<Step>,
}

impl<'a> Element<'a> {
    /// The text of the document that the element belongs to.
    pub closed spec fn source(&self) -> Seq<char> {
        self.html@
    }

    /// The path that reached the element.
    pub closed spec fn at(&self) -> Seq<StepView> {
        path_view(self.path@)
    }
}

impl<'a> Document<'a> {
    /// The text that the document was parsed from.
    pub closed spec fn source(&self) -> Seq<char> {
        self.html@
    }
}

/// The number of elements that `scraper::Html::select` yields for
/// `selector` in the document parsed from `html`; zero where
/// `scraper::Selector::parse` refuses the selector.
pub uninterp spec fn doc_matches(html: Seq<char>, selector: Seq<char>) -> nat;

/// The number of elements that `scraper::ElementRef::select` yields for
/// `selector` below the element at `path`; zero where the selector is refused.
pub uninterp spec fn elem_matches(html: Seq<char>, path: Seq<StepView>, selector: Seq<char>) -> nat;

/// The text of the element at `path`, as `scraper::ElementRef::text` gives it, joined.
pub uninterp spec fn text_at(html: Seq<char>, path: Seq<StepView>) -> Seq<char>;

/// The attribute `name` of the element at `path`.
pub uninterp spec fn attr_at(html: Seq<char>, path: Seq<StepView>, name: Seq<char>) -> Option<
    Seq<char>,
>;

/// The local name of the element at `path`.
pub uninterp spec fn name_at(html: Seq<char>, path: Seq<StepView>) -> Seq<char>;

/// The classes of the element at `path`, in the order scraper lists them.
pub uninterp spec fn classes_at(html: Seq<char>, path: Seq<StepView>) -> Seq<Seq<char>>;

/// The child nodes of the element at `path`: for each, the text of a text
/// node, and whether it is an element.
pub uninterp spec fn children_at(html: Seq<char>, path: Seq<StepView>) -> Seq<
    (Option<Seq<char>>, bool),
>;

/// The number of matches of `selector` in the scope `path`: the whole
/// document for the empty path.
pub open spec fn scope_matches(html: Seq<char>, path: Seq<StepView>, selector: Seq<char>) -> nat {
    if path.len() == 0 {
        doc_matches(html, selector)
    } else {
        elem_matches(html, path, selector)
    }
}

/// The path one selection below `path`.
pub open spec fn below(path: Seq<StepView>, selector: Seq<char>, i: int) -> Seq<StepView> {
    path.push(StepView::Select(selector, i))
}

/// A copy of a path.
fn copy_path(path: &Vec<Step>) -> (r: Vec<Step>)
    ensures
        path_view(r@) == path_view(path@),
{
    let mut out: Vec<Step> = Vec::new();
    let mut k: usize = 0;
    while k < path.len()
        invariant
            k <= path.len(),
            path_view(out@) == path_view(path@.subrange(0, k as int)),
        decreases path.len() - k,
    {
        let s = match &path[k] {
            Step::Select(sel, j) => Step::Select(sel.clone(), *j),
            Step::Child(j) => Step::Child(*j),
        };
        let ghost before = out@;
        out.push(s);
        assert(path_view(out@) =~= path_view(path@.subrange(0, k as int + 1))) by {
            assert(path_view(out@) =~= path_view(before).push(s@));
        }
        k = k + 1;
    }
    assert(path@.subrange(0, path.len() as int) =~= path@);
    out
}

/// The path `path` followed by one selection step.
fn step_below(path: &Vec<Step>, selector: &str, i: usize) -> (r: Vec<Step>)
    ensures
        path_view(r@) == below(path_view(path@), selector@, i as int),
{
    let mut out = copy_path(path);
    let ghost before = out@;
    let sel = string_of(&chars_of(selector));
    out.push(Step::Select(sel, i));
    assert(path_view(out@) =~= path_view(before).push(StepView::Select(selector@, i as int)));
    out
}

/// The path `path` followed by one child step.
fn child_below(path: &Vec<Step>, k: usize) -> (r: Vec<Step>)
    ensures
        path_view(r@) == path_view(path@).push(StepView::Child(k as int)),
{
    let mut out = copy_path(path);
    let ghost before = out@;
    out.push(Step::Child(k));
    assert(path_view(out@) =~= path_view(before).push(StepView::Child(k as int)));
    out
}

/// Relies on `scraper::Html::parse_document`: the document tree of `html`.
#[verifier::external_body]
fn parse_document<'a>(html: &'a str) -> (r: Document<'a>)
    ensures
        r.source() == html@,
{
    Document { tree: Html::parse_document(html), html }
}

/// Relies on `scraper::Selector::parse` and `scraper::Html::select`: the
/// elements of the document that match `selector`, in the order scraper
/// yields them; none where the selector is refused.
#[verifier::external_body]
fn select_in_document<'a>(doc: &'a Document<'a>, selector: &str) -> (r: Vec<Element<'a>>)
    ensures
        r.len() == doc_matches(doc.source(), selector@),
        forall|i: int|
            0 <= i < r.len() ==> (#[trigger] r@[i]).source() == doc.source() && r@[i].at()
                == below(Seq::empty(), selector@, i),
{
    match Selector::parse(selector) {
        Ok(s) => doc.tree.select(&s).enumerate().map(
            |(i, node)| Element { node, html: doc.html, path: step_below(&Vec::new(), selector, i) },
        ).collect(),
        Err(_) => Vec::new(),
    }
}

/// Relies on `scraper::Selector::parse` and `scraper::ElementRef::select`:
/// the descendants of `el` that match `selector`, in the order scraper
/// yields them; none where the selector is refused.
#[verifier::external_body]
fn select_in_element<'a>(el: &Element<'a>, selector: &str) -> (r: Vec<Element<'a>>)
    ensures
        r.len() == elem_matches(el.source(), el.at(), selector@),
        forall|i: int|
            0 <= i < r.len() ==> (#[trigger] r@[i]).source() == el.source() && r@[i].at()
                == below(el.at(), selector@, i),
{
    match Selector::parse(selector) {
        Ok(s) => el.node.select(&s).enumerate().map(
            |(i, node)| Element { node, html: el.html, path: step_below(&el.path, selector, i) },
        ).collect(),
        Err(_) => Vec::new(),
    }
}

/// Relies on `scraper::ElementRef::text`: the text of `el`'s descendants, joined.
#[verifier::external_body]
fn element_text(el: &Element) -> (r: String)
    ensures
        r@ == text_at(el.source(), el.at()),
{
    el.node.text().collect()
}

/// Relies on `scraper::ElementRef::attr`: the value of the attribute `name`.
#[verifier::external_body]
fn element_attr(el: &Element, name: &str) -> (r: Option<String>)
    ensures
        opt_view(r) == attr_at(el.source(), el.at(), name@),
{
    el.node.attr(name).map(|v| v.to_string())
}

/// Relies on `scraper::node::Element::name`: the element's local name.
#[verifier::external_body]
fn element_name(el: &Element) -> (r: String)
    ensures
        r@ == name_at(el.source(), el.at()),
{
    el.node.value().name().to_string()
}

/// Relies on `scraper::node::Element::classes`: the element's classes.
#[verifier::external_body]
fn element_classes(el: &Element) -> (r: Vec<String>)
    ensures
        crate::record::strs(r@) == classes_at(el.source(), el.at()),
{
    el.node.value().classes().map(|c| c.to_string()).collect()
}

/// Relies on ego_tree's `NodeRef::children` through `ElementRef`: each child
/// of `el` as the text of a text node, or as an element, or as neither.
#[verifier::external_body]
fn element_children<'a>(el: &Element<'a>) -> (r: Vec<(Option<String>, Option<Element<'a>>)>)
    ensures
        r.len() == children_at(el.source(), el.at()).len(),
        forall|k: int|
            0 <= k < r.len() ==> opt_view((#[trigger] r@[k]).0) == children_at(
                el.source(),
                el.at(),
            )[k].0 && (r@[k].1 is Some <==> children_at(el.source(), el.at())[k].1) && (
            r@[k].1 matches Some(c) ==> c.source() == el.source() && c.at() == el.at().push(
                StepView::Child(k),
            )),
{
    el.node.children().enumerate().map(
        |(k, child)|
            (
                match child.value() {
                    Node::Text(t) => Some(t.to_string()),
                    _ => None,
                },
                ElementRef::wrap(child).map(
                    |node| Element { node, html: el.html, path: child_below(&el.path, k) },
                ),
            ),
    ).collect()
}


/// The text of the first match of `selector` in the scope `path`.
pub open spec fn first_text_at(html: Seq<char>, path: Seq<StepView>, selector: Seq<char>) -> Option<
    Seq<char>,
> {
    if scope_matches(html, path, selector) > 0 {
        Some(text_at(html, below(path, selector, 0)))
    } else {
        None
    }
}

/// The attribute `name` of the first match of `selector` in the scope `path`.
pub open spec fn first_attr_at(
    html: Seq<char>,
    path: Seq<StepView>,
    selector: Seq<char>,
    name: Seq<char>,
) -> Option<Seq<char>> {
    if scope_matches(html, path, selector) > 0 {
        attr_at(html, below(path, selector, 0), name)
    } else {
        None
    }
}

/// Whether `a` holds the `data-src` and `src` of the element at `path`.
pub open spec fn image_at(a: ImageAttrs, html: Seq<char>, path: Seq<StepView>) -> bool {
    opt_view(a.data_src) == attr_at(html, path, "data-src"@) && opt_view(a.src) == attr_at(
        html,
        path,
        "src"@,
    )
}

/// Whether `o` holds the image attributes of the first match of `selector`
/// in the scope `path`, and nothing where there is none.
pub open spec fn first_image_at(
    o: Option<ImageAttrs>,
    html: Seq<char>,
    path: Seq<StepView>,
    selector: Seq<char>,
) -> bool {
    if scope_matches(html, path, selector) > 0 {
        (o matches Some(a) && image_at(a, html, below(path, selector, 0)))
    } else {
        o is None
    }
}

/// Whether `c` holds what the listing card at `path` shows: its first
/// caption's text, its first cover link's `href` and first image, and its
/// first image.
pub open spec fn card_at(c: SearchCard, html: Seq<char>, path: Seq<StepView>) -> bool {
    &&& opt_view(c.caption) == first_text_at(html, path, ".caption"@)
    &&& first_image_at(c.image, html, path, "img"@)
    &&& if scope_matches(html, path, "a.cover"@) > 0 {
        (c.anchor matches Some(a) && opt_view(a.href) == attr_at(
            html,
            below(path, "a.cover"@, 0),
            "href"@,
        ) && first_image_at(a.image, html, below(path, "a.cover"@, 0), "img"@))
    } else {
        c.anchor is None
    }
}

/// Whether `cs` holds the cards of the listing page `html`, in document order.
pub open spec fn listing_at(cs: Seq<SearchCard>, html: Seq<char>) -> bool {
    cs.len() == doc_matches(html, ".gallery"@) && forall|i: int|
        0 <= i < cs.len() ==> card_at(#[trigger] cs[i], html, below(Seq::empty(), ".gallery"@, i))
}

/// The records of the listing page `html`.
pub open spec fn listing_records(html: Seq<char>) -> Seq<crate::record::GalleryView> {
    card_records(choose|cs: Seq<SearchCard>| listing_at(cs, html))
}

/// Whether the listing page `html` has a next-page link.
pub open spec fn has_next_link(html: Seq<char>) -> bool {
    doc_matches(html, "a.next"@) > 0
}

proof fn lemma_image_at_same(a: ImageAttrs, b: ImageAttrs, html: Seq<char>, path: Seq<StepView>)
    requires
        image_at(a, html, path),
        image_at(b, html, path),
    ensures
        same_image(a, b),
{
}

proof fn lemma_first_image_same(
    a: Option<ImageAttrs>,
    b: Option<ImageAttrs>,
    html: Seq<char>,
    path: Seq<StepView>,
    selector: Seq<char>,
)
    requires
        first_image_at(a, html, path, selector),
        first_image_at(b, html, path, selector),
    ensures
        same_opt_image(a, b),
{
}

proof fn lemma_card_at_same(a: SearchCard, b: SearchCard, html: Seq<char>, path: Seq<StepView>)
    requires
        card_at(a, html, path),
        card_at(b, html, path),
    ensures
        same_card(a, b),
{
    lemma_first_image_same(a.image, b.image, html, path, "img"@);
    if scope_matches(html, path, "a.cover"@) > 0 {
        lemma_first_image_same(
            a.anchor->0.image,
            b.anchor->0.image,
            html,
            below(path, "a.cover"@, 0),
            "img"@,
        );
    }
}

proof fn lemma_listing_same(a: Seq<SearchCard>, b: Seq<SearchCard>, html: Seq<char>)
    requires
        listing_at(a, html),
        listing_at(b, html),
    ensures
        card_records(a) == card_records(b),
{
    assert forall|i: int| 0 <= i < a.len() implies same_card(#[trigger] a[i], b[i]) by {
        lemma_card_at_same(a[i], b[i], html, below(Seq::empty(), ".gallery"@, i));
    }
    lemma_card_records_same(a, b);
}

fn first_text(els: &Vec<Element>) -> (r: Option<String>)
    ensures
        els.len() > 0 ==> opt_view(r) == Some(text_at(els@[0].source(), els@[0].at())),
        els.len() == 0 ==> r is None,
{
    if els.len() > 0 {
        Some(element_text(&els[0]))
    } else {
        None
    }
}

fn image_attrs(el: &Element) -> (r: ImageAttrs)
    ensures
        image_at(r, el.source(), el.at()),
{
    ImageAttrs { data_src: element_attr(el, "data-src"), src: element_attr(el, "src") }
}

fn first_image(els: &Vec<Element>) -> (r: Option<ImageAttrs>)
    ensures
        els.len() > 0 ==> (r matches Some(a) && image_at(a, els@[0].source(), els@[0].at())),
        els.len() == 0 ==> r is None,
{
    if els.len() > 0 {
        Some(image_attrs(&els[0]))
    } else {
        None
    }
}

fn first_attr(els: &Vec<Element>, name: &str) -> (r: Option<String>)
    ensures
        els.len() > 0 ==> opt_view(r) == attr_at(els@[0].source(), els@[0].at(), name@),
        els.len() == 0 ==> r is None,
{
    if els.len() > 0 {
        element_attr(&els[0], name)
    } else {
        None
    }
}

/// What the listing card `g` shows.
fn read_card(g: &Element) -> (c: SearchCard)
    requires
        g.at().len() > 0,
    ensures
        card_at(c, g.source(), g.at()),
{
    let caption = first_text(&select_in_element(g, ".caption"));
    let anchors = select_in_element(g, "a.cover");
    let anchor = if anchors.len() > 0 {
        let a = &anchors[0];
        Some(
            CoverAnchor {
                href: element_attr(a, "href"),
                image: first_image(&select_in_element(a, "img")),
            },
        )
    } else {
        None
    };
    let image = first_image(&select_in_element(g, "img"));
    SearchCard { caption, anchor, image }
}

/// The cards of a listing page, in document order.
fn read_search_cards(doc: &Document) -> (r: Vec<SearchCard>)
    ensures
        listing_at(r@, doc.source()),
{
    let galleries = select_in_document(doc, ".gallery");
    let mut cards: Vec<SearchCard> = Vec::new();
    let mut i: usize = 0;
    while i < galleries.len()
        invariant
            i <= galleries.len(),
            cards.len() == i,
            galleries.len() == doc_matches(doc.source(), ".gallery"@),
            forall|j: int|
                0 <= j < galleries.len() ==> (#[trigger] galleries@[j]).source() == doc.source()
                    && galleries@[j].at() == below(Seq::empty(), ".gallery"@, j),
            forall|j: int|
                0 <= j < i ==> card_at(
                    #[trigger] cards@[j],
                    doc.source(),
                    below(Seq::empty(), ".gallery"@, j),
                ),
        decreases galleries.len() - i,
    {
        let c = read_card(&galleries[i]);
        cards.push(c);
        i = i + 1;
    }
    cards
}

/// The records of a listing page: those of its cards, as `search_results`
/// makes them.
pub fn parse_search_html(html: &str) -> (r: Vec<NhentaiGallery>)
    ensures
        seq_of_gallery_views(r@) == listing_records(html@),
{
    let doc = parse_document(html);
    let cards = read_search_cards(&doc);
    let r = search_results(&cards);
    proof {
        let cs = choose|cs: Seq<SearchCard>| listing_at(cs, html@);
        lemma_listing_same(cards@, cs, html@);
    }
    r
}

/// The index of the listing page after `current_page`, where the page has
/// a next-page link.
pub fn parse_search_next_page(html: &str, current_page: u32) -> (r: Option<u32>)
    requires
        current_page < u32::MAX,
    ensures
        r == (if has_next_link(html@) {
            Some((current_page + 1) as u32)
        } else {
            None
        }),
{
    let doc = parse_document(html);
    let links = select_in_document(&doc, "a.next");
    next_page(links.len() > 0, current_page)
}

/// The records of listing page `page` (page one where none is given), and
/// the key of the page after it where the page has records and a next-page
/// link.
pub fn search_page(html: &str, page: Option<u32>) -> (r: (Vec<NhentaiGallery>, Option<String>))
    ensures
        seq_of_gallery_views(r.0@) == listing_records(html@),
        ({
            let current = match page {
                Some(p) => p,
                None => 1u32,
            };
            opt_view(r.1) == if r.0.len() > 0 && current < u32::MAX && has_next_link(html@) {
                Some(decimal(current as nat + 1))
            } else {
                None
            }
        }),
{
    let galleries = parse_search_html(html);
    let current: u32 = match page {
        Some(p) => p,
        None => 1,
    };
    if galleries.len() == 0 || current == u32::MAX {
        return (galleries, None);
    }
    let key = match parse_search_next_page(html, current) {
        Some(n) => {
            let mut digits: Vec<char> = Vec::new();
            push_decimal(&mut digits, n as u64);
            Some(string_of(&digits))
        },
        None => None,
    };
    (galleries, key)
}


/// Whether `a` holds what the tag link at `path` shows.
pub open spec fn anchor_at(a: TagAnchor, html: Seq<char>, path: Seq<StepView>) -> bool {
    &&& opt_view(a.name_text) == first_text_at(html, path, "span.name"@)
    &&& a.text@ == text_at(html, path)
    &&& opt_view(a.href) == attr_at(html, path, "href"@)
}

/// Whether `n` holds what child `k` of the element at `path` is: a text
/// node's text, an element's name, classes and text, or neither.
pub open spec fn node_at(n: LabelNode, html: Seq<char>, path: Seq<StepView>, k: int) -> bool {
    let c = children_at(html, path)[k];
    let p = path.push(StepView::Child(k));
    match c.0 {
        Some(t) => (n matches LabelNode::Text(s) && s@ == t),
        None => if c.1 {
            (n matches LabelNode::Element { tag, classes, text } && tag@ == name_at(html, p) && strs(
                classes@,
            ) == classes_at(html, p) && text@ == text_at(html, p))
        } else {
            n is Other
        },
    }
}

/// Whether `c` holds what the tag container at `path` shows.
pub open spec fn container_at(c: TagContainer, html: Seq<char>, path: Seq<StepView>) -> bool {
    &&& c.children.len() == children_at(html, path).len()
    &&& forall|k: int|
        0 <= k < c.children.len() ==> node_at(#[trigger] c.children@[k], html, path, k)
    &&& c.anchors.len() == elem_matches(html, path, "a.tag"@)
    &&& forall|j: int|
        0 <= j < c.anchors.len() ==> anchor_at(
            #[trigger] c.anchors@[j],
            html,
            below(path, "a.tag"@, j),
        )
}

pub open spec fn containers_selector() -> Seq<char> {
    "#tags .tag-container, .tag-container"@
}

pub open spec fn thumbs_selector() -> Seq<char> {
    "#thumbnail-container img, .thumb-container img"@
}

/// Whether `p` holds what the detail page `html` shows.
pub open spec fn page_at(p: GalleryPage, html: Seq<char>) -> bool {
    let top = Seq::<StepView>::empty();
    &&& opt_view(p.info_title) == first_text_at(html, top, "#info h1.title"@)
    &&& opt_view(p.heading_title) == first_text_at(html, top, "h1.title"@)
    &&& opt_view(p.meta_title) == first_attr_at(
        html,
        top,
        "meta[property=\"og:title\"]"@,
        "content"@,
    )
    &&& first_image_at(p.cover_image, html, top, "#cover img, img#cover"@)
    &&& opt_view(p.meta_image) == first_attr_at(
        html,
        top,
        "meta[property=\"og:image\"]"@,
        "content"@,
    )
    &&& p.containers.len() == doc_matches(html, containers_selector())
    &&& forall|i: int|
        0 <= i < p.containers.len() ==> container_at(
            #[trigger] p.containers@[i],
            html,
            below(top, containers_selector(), i),
        )
    &&& p.scripts.len() == doc_matches(html, "script"@)
    &&& forall|i: int|
        0 <= i < p.scripts.len() ==> (#[trigger] p.scripts@[i])@ == text_at(
            html,
            below(top, "script"@, i),
        )
    &&& p.thumbnails.len() == doc_matches(html, thumbs_selector())
    &&& forall|i: int|
        0 <= i < p.thumbnails.len() ==> image_at(
            #[trigger] p.thumbnails@[i],
            html,
            below(top, thumbs_selector(), i),
        )
}

/// The record of the detail page `html` for the gallery `id`.
pub open spec fn detail_record(html: Seq<char>, id: Seq<char>) -> crate::record::GalleryView {
    gallery_record(choose|p: GalleryPage| page_at(p, html), id)
}

proof fn lemma_node_at_same(a: LabelNode, b: LabelNode, html: Seq<char>, path: Seq<StepView>, k: int)
    requires
        node_at(a, html, path, k),
        node_at(b, html, path, k),
    ensures
        same_node(a, b),
{
}

proof fn lemma_container_at_same(
    a: TagContainer,
    b: TagContainer,
    html: Seq<char>,
    path: Seq<StepView>,
)
    requires
        container_at(a, html, path),
        container_at(b, html, path),
    ensures
        same_container(a, b),
{
    assert forall|k: int| 0 <= k < a.children.len() implies same_node(
        #[trigger] a.children@[k],
        b.children@[k],
    ) by {
        lemma_node_at_same(a.children@[k], b.children@[k], html, path, k);
    }
    assert forall|j: int| 0 <= j < a.anchors.len() implies same_anchor(
        #[trigger] a.anchors@[j],
        b.anchors@[j],
    ) by {
        assert(anchor_at(a.anchors@[j], html, below(path, "a.tag"@, j)));
        assert(anchor_at(b.anchors@[j], html, below(path, "a.tag"@, j)));
    }
}

proof fn lemma_page_at_same(a: GalleryPage, b: GalleryPage, html: Seq<char>)
    requires
        page_at(a, html),
        page_at(b, html),
    ensures
        same_page(a, b),
{
    let top = Seq::<StepView>::empty();
    lemma_first_image_same(a.cover_image, b.cover_image, html, top, "#cover img, img#cover"@);
    assert forall|i: int| 0 <= i < a.containers.len() implies same_container(
        #[trigger] a.containers@[i],
        b.containers@[i],
    ) by {
        lemma_container_at_same(
            a.containers@[i],
            b.containers@[i],
            html,
            below(top, containers_selector(), i),
        );
    }
    assert(strs(a.scripts@) =~= strs(b.scripts@)) by {
        assert forall|i: int| 0 <= i < a.scripts.len() implies strs(a.scripts@)[i] == strs(
            b.scripts@,
        )[i] by {
            assert(a.scripts@[i]@ == text_at(html, below(top, "script"@, i)));
            assert(b.scripts@[i]@ == text_at(html, below(top, "script"@, i)));
        }
    }
    assert forall|i: int| 0 <= i < a.thumbnails.len() implies same_image(
        #[trigger] a.thumbnails@[i],
        b.thumbnails@[i],
    ) by {
        lemma_image_at_same(
            a.thumbnails@[i],
            b.thumbnails@[i],
            html,
            below(top, thumbs_selector(), i),
        );
    }
}

fn label_nodes(el: &Element) -> (r: Vec<LabelNode>)
    ensures
        r.len() == children_at(el.source(), el.at()).len(),
        forall|k: int| 0 <= k < r.len() ==> node_at(#[trigger] r@[k], el.source(), el.at(), k),
{
    let children = element_children(el);
    let mut out: Vec<LabelNode> = Vec::new();
    let mut i: usize = 0;
    while i < children.len()
        invariant
            i <= children.len(),
            out.len() == i,
            children.len() == children_at(el.source(), el.at()).len(),
            forall|k: int|
                0 <= k < children.len() ==> opt_view((#[trigger] children@[k]).0) == children_at(
                    el.source(),
                    el.at(),
                )[k].0 && (children@[k].1 is Some <==> children_at(el.source(), el.at())[k].1)
                    && (children@[k].1 matches Some(c) ==> c.source() == el.source() && c.at()
                    == el.at().push(StepView::Child(k))),
            forall|k: int| 0 <= k < i ==> node_at(#[trigger] out@[k], el.source(), el.at(), k),
        decreases children.len() - i,
    {
        let node = match &children[i] {
            (Some(t), _) => LabelNode::Text(t.clone()),
            (None, Some(e)) => LabelNode::Element {
                tag: element_name(e),
                classes: element_classes(e),
                text: element_text(e),
            },
            (None, None) => LabelNode::Other,
        };
        assert(node_at(node, el.source(), el.at(), i as int));
        out.push(node);
        i = i + 1;
    }
    out
}

fn tag_container(el: &Element) -> (r: TagContainer)
    requires
        el.at().len() > 0,
    ensures
        container_at(r, el.source(), el.at()),
{
    let links = select_in_element(el, "a.tag");
    let mut anchors: Vec<TagAnchor> = Vec::new();
    let mut i: usize = 0;
    while i < links.len()
        invariant
            i <= links.len(),
            anchors.len() == i,
            el.at().len() > 0,
            links.len() == elem_matches(el.source(), el.at(), "a.tag"@),
            forall|j: int|
                0 <= j < links.len() ==> (#[trigger] links@[j]).source() == el.source()
                    && links@[j].at() == below(el.at(), "a.tag"@, j),
            forall|j: int|
                0 <= j < i ==> anchor_at(
                    #[trigger] anchors@[j],
                    el.source(),
                    below(el.at(), "a.tag"@, j),
                ),
        decreases links.len() - i,
    {
        let a = &links[i];
        anchors.push(
            TagAnchor {
                name_text: first_text(&select_in_element(a, "span.name")),
                text: element_text(a),
                href: element_attr(a, "href"),
            },
        );
        i = i + 1;
    }
    TagContainer { children: label_nodes(el), anchors }
}

/// What a detail page holds, read in document order.
fn read_gallery_page(doc: &Document) -> (r: GalleryPage)
    ensures
        page_at(r, doc.source()),
{
    let ghost h = doc.source();
    let ghost top = Seq::<StepView>::empty();
    let found = select_in_document(doc, "#tags .tag-container, .tag-container");
    let mut containers: Vec<TagContainer> = Vec::new();
    let mut i: usize = 0;
    while i < found.len()
        invariant
            i <= found.len(),
            containers.len() == i,
            found.len() == doc_matches(h, containers_selector()),
            forall|j: int|
                0 <= j < found.len() ==> (#[trigger] found@[j]).source() == h && found@[j].at()
                    == below(top, containers_selector(), j),
            forall|j: int|
                0 <= j < i ==> container_at(
                    #[trigger] containers@[j],
                    h,
                    below(top, containers_selector(), j),
                ),
        decreases found.len() - i,
    {
        containers.push(tag_container(&found[i]));
        i = i + 1;
    }
    let script_els = select_in_document(doc, "script");
    let mut scripts: Vec<String> = Vec::new();
    let mut j: usize = 0;
    while j < script_els.len()
        invariant
            j <= script_els.len(),
            scripts.len() == j,
            script_els.len() == doc_matches(h, "script"@),
            forall|k: int|
                0 <= k < script_els.len() ==> (#[trigger] script_els@[k]).source() == h
                    && script_els@[k].at() == below(top, "script"@, k),
            forall|k: int|
                0 <= k < j ==> (#[trigger] scripts@[k])@ == text_at(h, below(top, "script"@, k)),
        decreases script_els.len() - j,
    {
        scripts.push(element_text(&script_els[j]));
        j = j + 1;
    }
    let thumb_els = select_in_document(doc, "#thumbnail-container img, .thumb-container img");
    let mut thumbnails: Vec<ImageAttrs> = Vec::new();
    let mut k: usize = 0;
    while k < thumb_els.len()
        invariant
            k <= thumb_els.len(),
            thumbnails.len() == k,
            thumb_els.len() == doc_matches(h, thumbs_selector()),
            forall|m: int|
                0 <= m < thumb_els.len() ==> (#[trigger] thumb_els@[m]).source() == h
                    && thumb_els@[m].at() == below(top, thumbs_selector(), m),
            forall|m: int|
                0 <= m < k ==> image_at(
                    #[trigger] thumbnails@[m],
                    h,
                    below(top, thumbs_selector(), m),
                ),
        decreases thumb_els.len() - k,
    {
        thumbnails.push(image_attrs(&thumb_els[k]));
        k = k + 1;
    }
    GalleryPage {
        info_title: first_text(&select_in_document(doc, "#info h1.title")),
        heading_title: first_text(&select_in_document(doc, "h1.title")),
        meta_title: first_attr(
            &select_in_document(doc, "meta[property=\"og:title\"]"),
            "content",
        ),
        cover_image: first_image(&select_in_document(doc, "#cover img, img#cover")),
        meta_image: first_attr(
            &select_in_document(doc, "meta[property=\"og:image\"]"),
            "content",
        ),
        containers,
        scripts,
        thumbnails,
    }
}

/// The record of a detail page for the gallery `gallery_id`, as
/// `gallery_from_page` makes it from what the page holds.
pub fn parse_gallery_html(html: &str, gallery_id: &str) -> (r: Option<NhentaiGallery>)
    ensures
        r matches Some(g) && g@ == detail_record(html@, gallery_id@),
{
    let doc = parse_document(html);
    let page = read_gallery_page(&doc);
    let g = gallery_from_page(&page, gallery_id);
    proof {
        let p = choose|p: GalleryPage| page_at(p, html@);
        lemma_page_at_same(page, p, html@);
        lemma_gallery_record_same(page, p, gallery_id@);
    }
    Some(g)
}


/// The page as read from the detail page `html`.
pub open spec fn detail_page(html: Seq<char>) -> GalleryPage {
    choose|p: GalleryPage| page_at(p, html)
}

/// On a detail page with no container labelled `pages`, the page count is
/// the number of images where there are any (and it fits in `u32`), else unset.
pub proof fn detail_page_count_follows_images(html: Seq<char>, id: Seq<char>)
    requires
        no_page_count_label(detail_page(html).containers@),
        detail_record(html, id).images.len() <= u32::MAX,
    ensures
        detail_record(html, id).pages == (if detail_record(html, id).images.len() > 0 {
            Some(detail_record(html, id).images.len() as u32)
        } else {
            None
        }),
{
    crate::page::page_count_follows_images(detail_page(html), id);
}

} // verus!
