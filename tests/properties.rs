use plugin_nhentai::{
    gallery_from_page, parse_gallery_html, parse_lookup_gallery_id, parse_relation_search_term,
    parse_search_html, parse_tag_buckets, resolve_book_lookup_target, BookIds, BookQuery,
    GalleryPage, ImageAttrs, LabelNode, LookupTarget, TagAnchor, TagContainer,
};

const DETAIL: &str = r#"
<html><body>
  <h1 class="title">Repeat Gallery</h1>
  <div id="tags">
    <div class="tag-container">
      Tags:
      <span class="tags">
        <a class="tag" href="/tag/full-color/"><span class="name">full color</span></a>
        <a class="tag" href="/tag/full-color/"><span class="name">full color</span></a>
        <a class="tag" href="/tag/sole-female/"><span class="name">sole female</span></a>
      </span>
    </div>
    <div class="tag-container">
      Artists:
      <span class="tags">
        <a class="tag" href="/artist/bai-asuka/"><span class="name">bai asuka</span></a>
      </span>
    </div>
    <div class="tag-container">
      Groups:
      <span class="tags">
        <a class="tag" href="/artist/bai-asuka/"><span class="name">bai   asuka</span></a>
      </span>
    </div>
  </div>
  <div id="thumbnail-container">
    <img data-src="https://t2.nhentai.net/galleries/42/1t.jpg" />
    <img data-src="https://t3.nhentai.net/galleries/42/1t.jpg" />
    <img data-src="https://t2.nhentai.net/galleries/42/2t.png" />
  </div>
</body></html>
"#;

#[test]
fn same_html_gives_same_record() {
    let a = parse_gallery_html(DETAIL, "42").expect("record");
    let b = parse_gallery_html(DETAIL, "42").expect("record");
    assert_eq!(a, b);
    let listing = r#"<div class="gallery"><a class="cover" href="/g/9/"><img src="/c.jpg"/></a><div class="caption">Nine</div></div>"#;
    assert_eq!(parse_search_html(listing), parse_search_html(listing));
}

#[test]
fn lists_hold_no_repeats() {
    let g = parse_gallery_html(DETAIL, "42").expect("record");
    assert_eq!(
        g.images,
        vec![
            "https://i.nhentai.net/galleries/42/1.jpg".to_string(),
            "https://i.nhentai.net/galleries/42/2.png".to_string()
        ]
    );
    assert_eq!(g.tags, vec!["full color".to_string(), "sole female".to_string()]);
    assert_eq!(
        g.tag_ids,
        vec!["nhentai-tags:full-color".to_string(), "nhentai-tags:sole-female".to_string()]
    );
    assert_eq!(g.people_ids, vec!["nhentai-artist:bai-asuka".to_string()]);
    assert_eq!(g.people_details.len(), 1);
    assert_eq!(g.artists, vec!["bai asuka".to_string()]);
    assert_eq!(g.groups, vec!["bai asuka".to_string()]);
}

#[test]
fn direct_id_wins_over_relation_term() {
    let book = BookQuery {
        name: Some("nhentai-group:maiju".to_string()),
        ids: Some(BookIds {
            redseat: Some("nhentai-artist:x".to_string()),
            slug: None,
            other_ids: Some(vec!["nhentai-tags:y".to_string(), "nhentai:777".to_string()]),
        }),
    };
    match resolve_book_lookup_target(&book) {
        Some(LookupTarget::DirectGallery(id)) => assert_eq!(id, "777"),
        _ => panic!("expected a direct gallery"),
    }
}

fn anchor(name: &str, href: &str) -> TagAnchor {
    TagAnchor {
        name_text: Some(name.to_string()),
        text: name.to_string(),
        href: Some(href.to_string()),
    }
}

fn container(label: &str, anchors: Vec<TagAnchor>) -> TagContainer {
    TagContainer {
        children: vec![LabelNode::Text(label.to_string())],
        anchors,
    }
}

#[test]
fn same_href_gives_same_relation_id() {
    let buckets = parse_tag_buckets(&vec![
        container("Artists:", vec![anchor("bai asuka", "/artist/bai-asuka/")]),
        container("Characters:", vec![anchor("  Bai \n Asuka ", "/artist/bai-asuka/")]),
    ]);
    assert_eq!(buckets.people_ids, vec!["nhentai-artist:bai-asuka".to_string()]);
    assert_eq!(buckets.artists, vec!["bai asuka".to_string()]);
    assert_eq!(buckets.characters, vec!["Bai Asuka".to_string()]);
}

fn page(thumbs: Vec<&str>, containers: Vec<TagContainer>) -> GalleryPage {
    GalleryPage {
        info_title: None,
        heading_title: Some("A Title".to_string()),
        meta_title: None,
        cover_image: None,
        meta_image: None,
        containers,
        scripts: vec![],
        thumbnails: thumbs
            .into_iter()
            .map(|t| ImageAttrs { data_src: Some(t.to_string()), src: None })
            .collect(),
    }
}

#[test]
fn page_count_follows_images_without_explicit_count() {
    let g = gallery_from_page(
        &page(
            vec![
                "https://t.nhentai.net/galleries/5/1t.jpg",
                "https://t.nhentai.net/galleries/5/2t.jpg",
                "https://t.nhentai.net/galleries/5/3t.jpg",
            ],
            vec![],
        ),
        "5",
    );
    assert_eq!(g.images.len(), 3);
    assert_eq!(g.pages, Some(3));
    let empty = gallery_from_page(&page(vec![], vec![]), "6");
    assert!(empty.images.is_empty());
    assert_eq!(empty.pages, None);
    assert_eq!(empty.cover_url, "");
}

#[test]
fn explicit_page_count_wins() {
    let pages = TagContainer {
        children: vec![LabelNode::Element {
            tag: "span".to_string(),
            classes: vec!["name".to_string()],
            text: "Pages:".to_string(),
        }],
        anchors: vec![TagAnchor { name_text: Some("24".to_string()), text: "24".to_string(), href: None }],
    };
    let g = gallery_from_page(
        &page(vec!["https://t.nhentai.net/galleries/5/1t.jpg"], vec![pages]),
        "5",
    );
    assert_eq!(g.pages, Some(24));
    assert_eq!(g.images.len(), 1);
}

#[test]
fn listing_keeps_cards_in_order_and_ids_only_for_detail_links() {
    let html = r#"
    <div class="gallery"><a class="cover" href="/g/1/"><img data-src="//t.nhentai.net/a.jpg"/></a><div class="caption">First</div></div>
    <div class="gallery"><a class="cover"><img src="/b.jpg"/></a><div class="caption">No Href</div></div>
    <div class="gallery"><a class="cover" href="/artist/x/"><img src="/c.jpg"/></a><div class="caption">  Third   One </div></div>
    "#;
    let results = parse_search_html(html);
    assert_eq!(results.len(), 2);
    assert_eq!(results[0].title, "First");
    assert_eq!(results[0].id, Some("1".to_string()));
    assert_eq!(results[0].images, vec!["https://t.nhentai.net/a.jpg".to_string()]);
    assert_eq!(results[1].title, "Third One");
    assert_eq!(results[1].id, None);
    assert_eq!(results[1].gallery_url, "https://nhentai.net/artist/x/");
}

#[test]
fn detail_page_with_payload_and_explicit_pages() {
    let html = r#"
    <html><body>
      <div id="tags">
        <div class="tag-container"><span class="name">Pages:</span><span class="tags"><a class="tag"><span class="name">24</span></a></span></div>
      </div>
      <script>var x = {"media_id": "555", "images": {"pages": [{"t": "j"}, {"t": "p"}]}};</script>
      <div id="thumbnail-container"><img data-src="https://t.nhentai.net/galleries/9/1t.jpg"/></div>
    </body></html>
    "#;
    let g = parse_gallery_html(html, "12").expect("record");
    assert_eq!(
        g.images,
        vec![
            "https://i.nhentai.net/galleries/555/1.jpg".to_string(),
            "https://i.nhentai.net/galleries/555/2.png".to_string()
        ]
    );
    assert_eq!(g.pages, Some(24));
    assert_eq!(g.title, "nhentai 12");
    assert_eq!(g.cover_url, "https://i.nhentai.net/galleries/555/1.jpg");
}

#[test]
fn thumbnail_only_page_is_rewritten() {
    let html = r#"<div class="thumb-container"><img src="//t7.nhentai.net/galleries/31/4t.gif"/></div>"#;
    let g = parse_gallery_html(html, "31").expect("record");
    assert_eq!(g.images, vec!["https://i.nhentai.net/galleries/31/4.gif".to_string()]);
    assert_eq!(g.pages, Some(1));
}

#[test]
fn identifiers_resolve_to_their_strategies() {
    assert_eq!(parse_lookup_gallery_id("nhentai:12345"), Some("12345".to_string()));
    assert_eq!(parse_relation_search_term("nhentai-group:maiju"), Some("group:maiju".to_string()));
    assert_eq!(
        parse_relation_search_term("nhentai-tags:full-color"),
        Some("tag:full-color".to_string())
    );
    assert_eq!(parse_relation_search_term("nhentai-group:"), None);
    assert_eq!(parse_relation_search_term("nhentai-:x"), None);
    assert_eq!(parse_relation_search_term("group:maiju"), None);
}

#[test]
fn artist_link_gives_people_relation() {
    let html = r#"<div class="tag-container">Artists: <a class="tag" href="/artist/bai-asuka/"><span class="name">bai asuka</span></a></div>"#;
    let g = parse_gallery_html(html, "1").expect("record");
    assert_eq!(g.artists, vec!["bai asuka".to_string()]);
    assert_eq!(g.people_details.len(), 1);
    assert_eq!(g.people_details[0].id, "nhentai-artist:bai-asuka");
    assert_eq!(g.people_details[0].name, "bai asuka");
}

#[test]
fn whitespace_in_link_text_keeps_relation_ids() {
    let tight = r#"<div class="tag-container">Tags: <a class="tag" href="/tag/full-color/"><span class="name">full color</span></a><a class="tag" href="/artist/x/">x</a></div>
    <div class="tag-container">Artists: <a class="tag" href="/artist/bai-asuka/"><span class="name">bai asuka</span></a></div>"#;
    let loose = r#"<div class="tag-container">Tags: <a class="tag" href="/tag/full-color/"><span class="name">
        full    color </span></a><a class="tag" href="/artist/x/">  x
        </a></div>
    <div class="tag-container">Artists: <a class="tag" href="/artist/bai-asuka/"><span class="name"> bai
        asuka</span></a></div>"#;
    let a = parse_gallery_html(tight, "1").expect("record");
    let b = parse_gallery_html(loose, "1").expect("record");
    assert_eq!(a.tag_ids, b.tag_ids);
    assert_eq!(a.people_ids, b.people_ids);
    let ids = |v: &Vec<plugin_nhentai::NhentaiRelation>| v.iter().map(|r| r.id.clone()).collect::<Vec<_>>();
    assert_eq!(ids(&a.tag_details), ids(&b.tag_details));
    assert_eq!(ids(&a.people_details), ids(&b.people_details));
    assert_eq!(a.tag_ids, vec!["nhentai-tags:full-color".to_string(), "nhentai-artist:x".to_string()]);
}
