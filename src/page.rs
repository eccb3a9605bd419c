//! Records from the plain content of listing and detail pages.

use vstd::prelude::*;
use crate::text::{
    absolute_url, append_chars, chars_of, normalize, normalize_text, normalize_url, same_chars,
    slice_chars, string_of,
};
use crate::ident::{build_gallery_url, extract_gallery_id, gallery_id_in, gallery_url};
use crate::record::{
    GalleryView, NhentaiGallery, NhentaiRelation, Rel, ids_of,
    lemma_append_unique_distinct, rels, seq_of_gallery_views, strs,
};
use crate::taxonomy::{
    TagContainer, classify, classify_distinct, lemma_classify_same, lemma_no_page_count,
    no_page_count_label, parse_tag_buckets, relation_ids_follow_links, same_links,
    same_container,
};
use crate::ident::opt_view;
use crate::assets::{
    ImageAttrs, image_source, image_source_of, lemma_resolved_images_same, resolve_images,
    resolved_images,
};

verus! {

/// The cover link of a listing card: its `href` and its first image.
pub struct CoverAnchor {
    pub href: Option<String>,
    pub image: Option<ImageAttrs>,
}

/// A listing card: the text of its first caption, its first cover link, and
/// its first image anywhere in it.
pub struct SearchCard {
    pub caption: Option<String>,
    pub anchor: Option<CoverAnchor>,
    pub image: Option<ImageAttrs>,
}

pub open spec fn text_or_empty(o: Option<String>) -> Seq<char> {
    match o {
        Some(s) => s@,
        None => Seq::empty(),
    }
}

/// The `href` of a card's cover link; empty without one.
pub open spec fn card_href(c: SearchCard) -> Seq<char> {
    match c.anchor {
        Some(a) => text_or_empty(a.href),
        None => Seq::empty(),
    }
}

/// The image of a card: the cover link's, else the card's own.
pub open spec fn card_image(c: SearchCard) -> Option<ImageAttrs> {
    match c.anchor {
        Some(a) if a.image is Some => a.image,
        _ => c.image,
    }
}

/// The cover of a card: its image's source as an absolute URL.
pub open spec fn card_cover(c: SearchCard) -> Seq<char> {
    match card_image(c) {
        Some(i) => match image_source(i) {
            Some(s) => absolute_url(s),
            None => Seq::empty(),
        },
        None => Seq::empty(),
    }
}

/// A record with nothing but the fields that a listing gives.
pub open spec fn stub(
    id: Option<Seq<char>>,
    title: Seq<char>,
    cover: Seq<char>,
    url: Seq<char>,
) -> GalleryView {
    GalleryView {
        id,
        title,
        cover_url: cover,
        gallery_url: url,
        images: seq![cover],
        tags: Seq::empty(),
        artists: Seq::empty(),
        groups: Seq::empty(),
        parodies: Seq::empty(),
        characters: Seq::empty(),
        languages: Seq::empty(),
        categories: Seq::empty(),
        pages: None,
        people_ids: Seq::empty(),
        tag_ids: Seq::empty(),
        people_details: Seq::empty(),
        tag_details: Seq::empty(),
        parody_details: Seq::empty(),
    }
}

/// The record of a listing card: none without a caption, a cover link or
/// an image source; the id where the link is a detail page link.
pub open spec fn card_record(c: SearchCard) -> Option<GalleryView> {
    let title = normalize(text_or_empty(c.caption));
    let url = absolute_url(card_href(c));
    let cover = card_cover(c);
    if title.len() == 0 || url.len() == 0 || cover.len() == 0 {
        None
    } else {
        Some(stub(gallery_id_in(card_href(c)), title, cover, url))
    }
}

/// The records of the cards that have one, in document order.
pub open spec fn card_records(cs: Seq<SearchCard>) -> Seq<GalleryView>
    decreases cs.len(),
{
    if cs.len() == 0 {
        Seq::empty()
    } else {
        match card_record(cs.last()) {
            Some(g) => card_records(cs.drop_last()).push(g),
            None => card_records(cs.drop_last()),
        }
    }
}

fn empty_strings() -> (r: Vec<String>)
    ensures
        strs(r@) == Seq::<Seq<char>>::empty(),
{
    let r: Vec<String> = Vec::new();
    assert(strs(r@) =~= Seq::<Seq<char>>::empty());
    r
}

fn empty_relations() -> (r: Vec<NhentaiRelation>)
    ensures
        rels(r@) == Seq::<Rel>::empty(),
{
    let r: Vec<NhentaiRelation> = Vec::new();
    assert(rels(r@) =~= Seq::<Rel>::empty());
    r
}

/// Whether two images have the same attributes.
pub open spec fn same_image(a: ImageAttrs, b: ImageAttrs) -> bool {
    opt_view(a.data_src) == opt_view(b.data_src) && opt_view(a.src) == opt_view(b.src)
}

/// Whether two optional images are both absent or have the same attributes.
pub open spec fn same_opt_image(a: Option<ImageAttrs>, b: Option<ImageAttrs>) -> bool {
    match (a, b) {
        (Some(x), Some(y)) => same_image(x, y),
        (None, None) => true,
        _ => false,
    }
}

/// Whether two listing cards hold the same content.
pub open spec fn same_card(a: SearchCard, b: SearchCard) -> bool {
    &&& opt_view(a.caption) == opt_view(b.caption)
    &&& same_opt_image(a.image, b.image)
    &&& match (a.anchor, b.anchor) {
        (Some(x), Some(y)) => opt_view(x.href) == opt_view(y.href) && same_opt_image(
            x.image,
            y.image,
        ),
        (None, None) => true,
        _ => false,
    }
}

proof fn lemma_image_source_same(a: Option<ImageAttrs>, b: Option<ImageAttrs>)
    requires
        same_opt_image(a, b),
    ensures
        a is Some == b is Some,
        a is Some ==> image_source(a->0) == image_source(b->0),
{
    if a is Some {
        let (x, y) = (a->0, b->0);
        assert(image_source(x) == image_source(y)) by {
            match x.data_src {
                Some(d) => {
                    assert(opt_view(y.data_src) == Some(d@));
                },
                None => {
                    assert(opt_view(y.data_src) is None);
                },
            }
        }
    }
}

proof fn lemma_card_record_same(a: SearchCard, b: SearchCard)
    requires
        same_card(a, b),
    ensures
        card_record(a) == card_record(b),
{
    assert(text_or_empty(a.caption) == text_or_empty(b.caption));
    assert(card_href(a) == card_href(b)) by {
        if a.anchor is Some {
            assert(text_or_empty(a.anchor->0.href) == text_or_empty(b.anchor->0.href));
        }
    }
    let ia = card_image(a);
    let ib = card_image(b);
    assert(same_opt_image(ia, ib)) by {
        if a.anchor is Some {
            lemma_image_source_same(a.anchor->0.image, b.anchor->0.image);
        }
    }
    lemma_image_source_same(ia, ib);
    assert(card_cover(a) == card_cover(b));
}

/// Cards with the same content give the same records.
pub proof fn lemma_card_records_same(a: Seq<SearchCard>, b: Seq<SearchCard>)
    requires
        a.len() == b.len(),
        forall|i: int| 0 <= i < a.len() ==> same_card(#[trigger] a[i], b[i]),
    ensures
        card_records(a) == card_records(b),
    decreases a.len(),
{
    if a.len() > 0 {
        assert forall|i: int| 0 <= i < a.drop_last().len() implies same_card(
            #[trigger] a.drop_last()[i],
            b.drop_last()[i],
        ) by {
            assert(same_card(a[i], b[i]));
        }
        lemma_card_records_same(a.drop_last(), b.drop_last());
        lemma_card_record_same(a.last(), b.last());
    }
}

/// The record of one listing card, as `card_record` states it.
pub fn card_to_gallery(c: &SearchCard) -> (r: Option<NhentaiGallery>)
    ensures
        r matches Some(g) ==> card_record(*c) == Some(g@),
        r is None ==> card_record(*c) is None,
{
    let title = match &c.caption {
        Some(t) => normalize_text(t.as_str()),
        None => String::new(),
    };
    if title.as_str().is_empty() {
        return None;
    }
    let href = match &c.anchor {
        Some(a) => match &a.href {
            Some(h) => h.clone(),
            None => String::new(),
        },
        None => String::new(),
    };
    let url = normalize_url(href.as_str());
    if url.as_str().is_empty() {
        return None;
    }
    let image: Option<&ImageAttrs> = match &c.anchor {
        Some(a) if a.image.is_some() => a.image.as_ref(),
        _ => c.image.as_ref(),
    };
    let cover = match image {
        Some(i) => match image_source_of(i) {
            Some(s) => normalize_url(s.as_str()),
            None => String::new(),
        },
        None => String::new(),
    };
    if cover.as_str().is_empty() {
        return None;
    }
    let mut images: Vec<String> = Vec::new();
    images.push(cover.clone());
    assert(strs(images@) =~= seq![cover@]);
    let g = NhentaiGallery {
        id: extract_gallery_id(href.as_str()),
        title,
        cover_url: cover,
        gallery_url: url,
        images,
        tags: empty_strings(),
        artists: empty_strings(),
        groups: empty_strings(),
        parodies: empty_strings(),
        characters: empty_strings(),
        languages: empty_strings(),
        categories: empty_strings(),
        pages: None,
        people_ids: empty_strings(),
        tag_ids: empty_strings(),
        people_details: empty_relations(),
        tag_details: empty_relations(),
        parody_details: empty_relations(),
    };
    assert(g@ =~= stub(gallery_id_in(card_href(*c)), g.title@, g.cover_url@, g.gallery_url@));
    Some(g)
}

/// The records of the listing cards that have a caption, a cover link and
/// an image source, in document order; the others are left out whole.
pub fn search_results(cards: &Vec<SearchCard>) -> (r: Vec<NhentaiGallery>)
    ensures
        seq_of_gallery_views(r@) == card_records(cards@),
{
    let mut out: Vec<NhentaiGallery> = Vec::new();
    let mut i: usize = 0;
    assert(seq_of_gallery_views(out@) =~= Seq::<GalleryView>::empty());
    while i < cards.len()
        invariant
            i <= cards.len(),
            seq_of_gallery_views(out@) == card_records(cards@.subrange(0, i as int)),
        decreases cards.len() - i,
    {
        proof {
            let p = cards@.subrange(0, i as int + 1);
            assert(p.drop_last() =~= cards@.subrange(0, i as int));
            assert(p.last() == cards@[i as int]);
        }
        if let Some(g) = card_to_gallery(&cards[i]) {
            let ghost before = out@;
            out.push(g);
            assert(seq_of_gallery_views(out@) =~= seq_of_gallery_views(before).push(g@));
        }
        i = i + 1;
    }
    assert(cards@.subrange(0, cards.len() as int) =~= cards@);
    out
}

/// The successor of a listing page: the next index where the page has a
/// next-page link, else none.
pub fn next_page(has_next_link: bool, current_page: u32) -> (r: Option<u32>)
    requires
        current_page < u32::MAX,
    ensures
        r == (if has_next_link {
            Some((current_page + 1) as u32)
        } else {
            None
        }),
{
    if has_next_link {
        Some(current_page + 1)
    } else {
        None
    }
}


/// What a detail page holds, as the record is made from it.
pub struct GalleryPage {
    /// The text of the first `#info h1.title`.
    pub info_title: Option<String>,
    /// The text of the first `h1.title`.
    pub heading_title: Option<String>,
    /// The content of the first `og:title` meta element.
    pub meta_title: Option<String>,
    /// The first image of `#cover`, or the image `#cover`.
    pub cover_image: Option<ImageAttrs>,
    /// The content of the first `og:image` meta element.
    pub meta_image: Option<String>,
    /// The tag containers, in document order.
    pub containers: Vec<TagContainer>,
    /// The text of each script, in document order.
    pub scripts: Vec<String>,
    /// The thumbnail images, in document order.
    pub thumbnails: Vec<ImageAttrs>,
}

/// `s` with every trailing copy of the non-empty `suffix` taken off.
pub open spec fn strip_suffixes(s: Seq<char>, suffix: Seq<char>) -> Seq<char>
    decreases s.len(),
{
    if suffix.len() > 0 && suffix.len() <= s.len() && s.subrange(
        s.len() - suffix.len(),
        s.len() as int,
    ) == suffix {
        strip_suffixes(s.subrange(0, s.len() - suffix.len()), suffix)
    } else {
        s
    }
}

/// A title candidate with the site's name after it taken off, words joined
/// by single spaces.
pub open spec fn title_candidate(o: Option<String>) -> Seq<char> {
    match o {
        Some(t) => normalize(strip_suffixes(t@, " - nhentai"@)),
        None => Seq::empty(),
    }
}

/// The title of a detail page: the first non-empty candidate among the
/// info heading, any title heading and the `og:title` meta element.
pub open spec fn page_title(p: GalleryPage) -> Seq<char> {
    if title_candidate(p.info_title).len() > 0 {
        title_candidate(p.info_title)
    } else if title_candidate(p.heading_title).len() > 0 {
        title_candidate(p.heading_title)
    } else {
        title_candidate(p.meta_title)
    }
}

/// The cover of a detail page: the cover image's source, else the
/// `og:image` meta element's content, as an absolute URL.
pub open spec fn page_cover(p: GalleryPage) -> Seq<char> {
    let primary = match p.cover_image {
        Some(i) => match image_source(i) {
            Some(s) => absolute_url(s),
            None => Seq::empty(),
        },
        None => Seq::empty(),
    };
    if primary.len() > 0 {
        primary
    } else {
        match p.meta_image {
            Some(m) => absolute_url(m@),
            None => Seq::empty(),
        }
    }
}

/// The page count from the image list, where it is not empty.
pub open spec fn count_of(images: Seq<Seq<char>>) -> Option<u32> {
    if 0 < images.len() <= u32::MAX {
        Some(images.len() as u32)
    } else {
        None
    }
}

/// The record of a detail page for the gallery `id`.
pub open spec fn gallery_record(p: GalleryPage, id: Seq<char>) -> GalleryView {
    let title = page_title(p);
    let cover = page_cover(p);
    let b = classify(p.containers@);
    let images = resolved_images(p.scripts@, p.thumbnails@, cover);
    GalleryView {
        id: Some(id),
        title: if title.len() == 0 {
            "nhentai "@ + id
        } else {
            title
        },
        cover_url: if cover.len() > 0 {
            cover
        } else if images.len() > 0 {
            images[0]
        } else {
            Seq::empty()
        },
        gallery_url: gallery_url(id),
        images,
        tags: b.tags,
        artists: b.artists,
        groups: b.groups,
        parodies: b.parodies,
        characters: b.characters,
        languages: b.languages,
        categories: b.categories,
        pages: if b.pages is Some {
            b.pages
        } else {
            count_of(images)
        },
        people_ids: b.people_ids,
        tag_ids: b.tag_ids,
        people_details: b.people_details,
        tag_details: b.tag_details,
        parody_details: b.parody_details,
    }
}

proof fn lemma_strip_suffixes_step(s: Seq<char>, suffix: Seq<char>, n: int)
    requires
        suffix.len() > 0,
        0 <= n <= s.len(),
        strip_suffixes(s, suffix) == strip_suffixes(s.subrange(0, n), suffix),
        suffix.len() <= n,
        s.subrange(n - suffix.len(), n) == suffix,
    ensures
        strip_suffixes(s, suffix) == strip_suffixes(s.subrange(0, n - suffix.len()), suffix),
{
    let t = s.subrange(0, n);
    assert(t.subrange(t.len() - suffix.len(), t.len() as int) =~= suffix);
    assert(t.subrange(0, t.len() - suffix.len()) =~= s.subrange(0, n - suffix.len()));
}

fn strip_suffixes_chars(v: &Vec<char>, suffix: &Vec<char>) -> (r: Vec<char>)
    requires
        suffix.len() > 0,
    ensures
        r@ == strip_suffixes(v@, suffix@),
{
    let mut n: usize = v.len();
    assert(v@.subrange(0, n as int) =~= v@);
    loop
        invariant
            n <= v.len(),
            suffix.len() > 0,
            strip_suffixes(v@, suffix@) == strip_suffixes(v@.subrange(0, n as int), suffix@),
        ensures
            n <= v.len(),
            strip_suffixes(v@, suffix@) == v@.subrange(0, n as int),
        decreases n,
    {
        if suffix.len() > n {
            assert(strip_suffixes(v@.subrange(0, n as int), suffix@) == v@.subrange(0, n as int));
            break;
        }
        let tail = slice_chars(v, n - suffix.len(), n);
        if !same_chars(&tail, suffix) {
            assert(v@.subrange(0, n as int).subrange(n - suffix.len(), n as int) =~= tail@);
            assert(strip_suffixes(v@.subrange(0, n as int), suffix@) == v@.subrange(0, n as int));
            break;
        }
        proof {
            lemma_strip_suffixes_step(v@, suffix@, n as int);
        }
        n = n - suffix.len();
    }
    slice_chars(v, 0, n)
}

fn title_candidate_of(o: &Option<String>) -> (r: String)
    ensures
        r@ == title_candidate(*o),
{
    match o {
        Some(t) => {
            let v = chars_of(t.as_str());
            let suffix = chars_of(" - nhentai");
            proof {
                reveal_strlit(" - nhentai");
            }
            let stripped = strip_suffixes_chars(&v, &suffix);
            let ss = string_of(&stripped);
            normalize_text(ss.as_str())
        },
        None => String::new(),
    }
}

/// The cover URL of a detail page, as `page_cover` states it.
pub fn parse_gallery_cover_url(p: &GalleryPage) -> (r: String)
    ensures
        r@ == page_cover(*p),
{
    let primary = match &p.cover_image {
        Some(i) => match image_source_of(i) {
            Some(s) => normalize_url(s.as_str()),
            None => String::new(),
        },
        None => String::new(),
    };
    if !primary.as_str().is_empty() {
        primary
    } else {
        match &p.meta_image {
            Some(m) => normalize_url(m.as_str()),
            None => String::new(),
        }
    }
}

/// The title of a detail page, as `page_title` states it; empty where no
/// candidate gives one.
pub fn parse_gallery_title(p: &GalleryPage) -> (r: String)
    ensures
        r@ == page_title(*p),
{
    let t1 = title_candidate_of(&p.info_title);
    if !t1.as_str().is_empty() {
        return t1;
    }
    let t2 = title_candidate_of(&p.heading_title);
    if !t2.as_str().is_empty() {
        return t2;
    }
    title_candidate_of(&p.meta_title)
}

/// The record of a detail page for the gallery `gallery_id`: its title
/// (else `nhentai <id>`), its cover (else its first image), its taxonomy,
/// its images through the three tiers, and its page count, where the
/// page's own count wins over the number of images.
pub fn gallery_from_page(page: &GalleryPage, gallery_id: &str) -> (r: NhentaiGallery)
    ensures
        r@ == gallery_record(*page, gallery_id@),
{
    let title = parse_gallery_title(page);
    let cover = parse_gallery_cover_url(page);
    let buckets = parse_tag_buckets(&page.containers);
    let images = resolve_images(&page.scripts, &page.thumbnails, &cover);
    let resolved_cover = if !cover.as_str().is_empty() {
        cover
    } else if images.len() > 0 {
        images[0].clone()
    } else {
        String::new()
    };
    let title = if title.as_str().is_empty() {
        let mut t = chars_of("nhentai ");
        append_chars(&mut t, &chars_of(gallery_id));
        string_of(&t)
    } else {
        title
    };
    let image_pages: Option<u32> = if images.len() > 0 && images.len() <= u32::MAX as usize {
        Some(images.len() as u32)
    } else {
        None
    };
    let pages = if buckets.pages.is_some() {
        buckets.pages
    } else {
        image_pages
    };
    let id = string_of(&chars_of(gallery_id));
    NhentaiGallery {
        id: Some(id),
        title,
        cover_url: resolved_cover,
        gallery_url: build_gallery_url(gallery_id),
        images,
        tags: buckets.tags,
        artists: buckets.artists,
        groups: buckets.groups,
        parodies: buckets.parodies,
        characters: buckets.characters,
        languages: buckets.languages,
        categories: buckets.categories,
        pages,
        people_ids: buckets.people_ids,
        tag_ids: buckets.tag_ids,
        people_details: buckets.people_details,
        tag_details: buckets.tag_details,
        parody_details: buckets.parody_details,
    }
}

/// Whether two detail pages hold the same content.
pub open spec fn same_page(a: GalleryPage, b: GalleryPage) -> bool {
    &&& opt_view(a.info_title) == opt_view(b.info_title)
    &&& opt_view(a.heading_title) == opt_view(b.heading_title)
    &&& opt_view(a.meta_title) == opt_view(b.meta_title)
    &&& same_opt_image(a.cover_image, b.cover_image)
    &&& opt_view(a.meta_image) == opt_view(b.meta_image)
    &&& a.containers.len() == b.containers.len()
    &&& forall|i: int|
        0 <= i < a.containers.len() ==> same_container(
            #[trigger] a.containers@[i],
            b.containers@[i],
        )
    &&& strs(a.scripts@) == strs(b.scripts@)
    &&& a.thumbnails.len() == b.thumbnails.len()
    &&& forall|i: int|
        0 <= i < a.thumbnails.len() ==> same_image(#[trigger] a.thumbnails@[i], b.thumbnails@[i])
}

proof fn lemma_title_candidate_same(a: Option<String>, b: Option<String>)
    requires
        opt_view(a) == opt_view(b),
    ensures
        title_candidate(a) == title_candidate(b),
{
    if a is Some {
        assert(a->0@ == b->0@);
    }
}

/// Detail pages with the same content give the same record.
pub proof fn lemma_gallery_record_same(a: GalleryPage, b: GalleryPage, id: Seq<char>)
    requires
        same_page(a, b),
    ensures
        gallery_record(a, id) == gallery_record(b, id),
{
    lemma_title_candidate_same(a.info_title, b.info_title);
    lemma_title_candidate_same(a.heading_title, b.heading_title);
    lemma_title_candidate_same(a.meta_title, b.meta_title);
    lemma_image_source_same(a.cover_image, b.cover_image);
    assert(page_cover(a) == page_cover(b)) by {
        if a.meta_image is Some {
            assert(a.meta_image->0@ == b.meta_image->0@);
        }
    }
    lemma_classify_same(a.containers@, b.containers@);
    assert forall|i: int| 0 <= i < a.thumbnails@.len() implies image_source(
        #[trigger] a.thumbnails@[i],
    ) == image_source(b.thumbnails@[i]) by {
        lemma_image_source_same(Some(a.thumbnails@[i]), Some(b.thumbnails@[i]));
    }
    lemma_resolved_images_same(
        a.scripts@,
        b.scripts@,
        a.thumbnails@,
        b.thumbnails@,
        page_cover(a),
    );
}

/// Without a container labelled `pages`, a detail page's count is the
/// number of its images where there are any (and it fits in `u32`), else unset.
pub proof fn page_count_follows_images(p: GalleryPage, id: Seq<char>)
    requires
        no_page_count_label(p.containers@),
        gallery_record(p, id).images.len() <= u32::MAX,
    ensures
        gallery_record(p, id).pages == (if gallery_record(p, id).images.len() > 0 {
            Some(gallery_record(p, id).images.len() as u32)
        } else {
            None
        }),
{
    lemma_no_page_count(p.containers@);
}

/// Two detail pages whose tag containers differ only in the display text of
/// their tag links (white space or otherwise), every link naming a path
/// segment, give records with the same relation ids in the same order.
pub proof fn record_relation_ids_follow_links(p: GalleryPage, q: GalleryPage, id: Seq<char>)
    requires
        p.containers.len() == q.containers.len(),
        forall|i: int|
            0 <= i < p.containers.len() ==> same_links(
                #[trigger] p.containers@[i],
                q.containers@[i],
            ),
    ensures
        gallery_record(p, id).people_ids == gallery_record(q, id).people_ids,
        gallery_record(p, id).tag_ids == gallery_record(q, id).tag_ids,
        ids_of(gallery_record(p, id).people_details) == ids_of(
            gallery_record(q, id).people_details,
        ),
        ids_of(gallery_record(p, id).tag_details) == ids_of(gallery_record(q, id).tag_details),
        ids_of(gallery_record(p, id).parody_details) == ids_of(
            gallery_record(q, id).parody_details,
        ),
{
    relation_ids_follow_links(p.containers@, q.containers@);
}

/// A record from a detail page repeats nothing: not an image, not a value
/// of any bucket, not a relation id, and no relation id twice in a list.
pub proof fn gallery_record_distinct(p: GalleryPage, id: Seq<char>)
    ensures
        gallery_record(p, id).images.no_duplicates(),
        gallery_record(p, id).tags.no_duplicates(),
        gallery_record(p, id).artists.no_duplicates(),
        gallery_record(p, id).groups.no_duplicates(),
        gallery_record(p, id).parodies.no_duplicates(),
        gallery_record(p, id).characters.no_duplicates(),
        gallery_record(p, id).languages.no_duplicates(),
        gallery_record(p, id).categories.no_duplicates(),
        gallery_record(p, id).people_ids.no_duplicates(),
        gallery_record(p, id).tag_ids.no_duplicates(),
        ids_of(gallery_record(p, id).people_details).no_duplicates(),
        ids_of(gallery_record(p, id).tag_details).no_duplicates(),
        ids_of(gallery_record(p, id).parody_details).no_duplicates(),
{
    classify_distinct(p.containers@);
    let cover = page_cover(p);
    let first = match crate::assets::script_images(p.scripts@) {
        Some(u) => u,
        None => Seq::empty(),
    };
    let second = if first.len() == 0 {
        crate::assets::thumb_images(p.thumbnails@)
    } else {
        first
    };
    let third = if second.len() == 0 && cover.len() > 0 {
        seq![cover]
    } else {
        second
    };
    lemma_append_unique_distinct(Seq::empty(), third);
}

/// Listing records repeat no image: each has its cover alone, and no
/// taxonomy or relations.
pub proof fn card_records_distinct(cs: Seq<SearchCard>)
    ensures
        forall|i: int|
            0 <= i < card_records(cs).len() ==> (#[trigger] card_records(cs)[i]).images.len()
                == 1 && card_records(cs)[i].images.no_duplicates(),
    decreases cs.len(),
{
    if cs.len() > 0 {
        card_records_distinct(cs.drop_last());
    }
}

} // verus!
