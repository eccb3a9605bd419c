use plugin_nhentai::{
    build_gallery_url, build_search_url, default_language_code, encode_query_component,
    extract_gallery_id, extract_page_data, fallback_local_id,
    gallery_image_urls, gallery_to_infos, image_extension, image_mime, is_valid_gallery_id,
    normalize_text, normalize_url, parse_page_key, parse_relation_key_from_href,
    parse_relation_slug_from_href, parse_search_next_page, parse_tag_buckets, parse_u32_from_text,
    published_gallery_images, publishable_relations, publishable_series, push_all_unique,
    push_all_unique_relations, relation_details_to_lookup_names, relation_details_to_media_refs,
    relation_details_to_series_lookup_names, relation_details_to_series_refs,
    relation_key_for_label, search_page, slugify_identifier, thumbnail_to_image_url,
    deduplicate_strings, LabelNode, NhentaiGallery, NhentaiRelation, TagAnchor,
    TagContainer, BookQuery, LookupAction, lookup_after_gallery, lookup_start,
};

fn rel(id: &str, name: &str) -> NhentaiRelation {
    NhentaiRelation { id: id.to_string(), name: name.to_string() }
}

#[test]
fn search_url_encodes_and_rejects_blank() {
    assert_eq!(build_search_url("   ", None), None);
    assert_eq!(
        build_search_url("  a b ", Some(2)),
        Some("https://nhentai.net/search/?q=language%3Aenglish+a+b&page=2".to_string())
    );
    assert_eq!(
        build_search_url("soft", Some(0)),
        Some("https://nhentai.net/search/?q=language%3Aenglish+soft".to_string())
    );
    assert_eq!(encode_query_component("a-_.~Z9"), "a-_.~Z9");
    assert_eq!(encode_query_component("é/&"), "%C3%A9%2F%26");
    assert_eq!(build_gallery_url("42"), "https://nhentai.net/g/42/");
}

#[test]
fn gallery_ids_from_links() {
    assert_eq!(extract_gallery_id("  /g/5/ "), Some("5".to_string()));
    assert_eq!(extract_gallery_id("http://www.nhentai.net/g/77"), Some("77".to_string()));
    assert_eq!(extract_gallery_id("nhentai.net/g/8/extra"), Some("8".to_string()));
    assert_eq!(extract_gallery_id("/g/"), None);
    assert_eq!(extract_gallery_id("/g/12a/"), None);
    assert_eq!(extract_gallery_id("/artist/5/"), None);
    assert_eq!(extract_gallery_id(""), None);
    assert_eq!(parse_lookup_gallery_id_case(), Some("9".to_string()));
    assert!(is_valid_gallery_id("0123"));
    assert!(!is_valid_gallery_id(""));
    assert!(!is_valid_gallery_id("1 2"));
}

fn parse_lookup_gallery_id_case() -> Option<String> {
    plugin_nhentai::parse_lookup_gallery_id("  NHentai:9 ")
}

#[test]
fn text_and_url_normalisation() {
    assert_eq!(normalize_text("  a \t b\n\nc  "), "a b c");
    assert_eq!(normalize_text(" \u{3000} "), "");
    assert_eq!(normalize_url("  "), "");
    assert_eq!(normalize_url("http://x.y/z"), "http://x.y/z");
    assert_eq!(normalize_url("//t.nhentai.net/a.jpg"), "https://t.nhentai.net/a.jpg");
    assert_eq!(normalize_url("/g/1/"), "https://nhentai.net/g/1/");
    assert_eq!(normalize_url("g/1/"), "https://nhentai.net/g/1/");
}

#[test]
fn slugs_and_numbers() {
    assert_eq!(slugify_identifier("  Bai  Asuka!! "), Some("bai-asuka".to_string()));
    assert_eq!(slugify_identifier("--!!--"), None);
    assert_eq!(parse_u32_from_text("Pages: 2 4"), Some(24));
    assert_eq!(parse_u32_from_text("none"), None);
    assert_eq!(parse_u32_from_text("4294967295"), Some(u32::MAX));
    assert_eq!(parse_u32_from_text("4294967296"), None);
    assert_eq!(parse_page_key("+7"), Some(7));
    assert_eq!(parse_page_key("7x"), None);
    assert_eq!(parse_page_key("+"), None);
    assert_eq!(parse_page_key("99999999999"), None);
}

#[test]
fn relation_keys_and_slugs_from_links() {
    assert_eq!(relation_key_for_label("tag"), Some("tags"));
    assert_eq!(relation_key_for_label("characters"), Some("character"));
    assert_eq!(relation_key_for_label("pages"), None);
    assert_eq!(parse_relation_key_from_href("/Tag/Full-Color/"), Some("tags".to_string()));
    assert_eq!(parse_relation_slug_from_href("/Tag/Full-Color/"), Some("full-color".to_string()));
    assert_eq!(parse_relation_key_from_href("https://nhentai.net/artist/x/?page=2"), Some("artist".to_string()));
    assert_eq!(parse_relation_slug_from_href("https://nhentai.net/artist/x/?page=2#top"), Some("x".to_string()));
    assert_eq!(parse_relation_key_from_href(""), None);
    assert_eq!(parse_relation_slug_from_href("/"), None);
}

#[test]
fn unlabelled_and_slugless_anchors() {
    let buckets = parse_tag_buckets(&vec![
        TagContainer {
            children: vec![LabelNode::Other],
            anchors: vec![TagAnchor { name_text: None, text: "lost".to_string(), href: Some("/tag/lost/".to_string()) }],
        },
        TagContainer {
            children: vec![LabelNode::Text("  ".to_string()), LabelNode::Text("Languages:".to_string())],
            anchors: vec![
                TagAnchor { name_text: None, text: "English Text".to_string(), href: None },
                TagAnchor { name_text: Some(" ".to_string()), text: "!!!".to_string(), href: None },
            ],
        },
        TagContainer {
            children: vec![LabelNode::Text("Uploaded:".to_string())],
            anchors: vec![TagAnchor { name_text: None, text: "today".to_string(), href: None }],
        },
    ]);
    assert!(buckets.tags.is_empty());
    assert_eq!(buckets.languages, vec!["English Text".to_string(), "!!!".to_string()]);
    assert_eq!(buckets.tag_ids, vec!["nhentai-language:english-text".to_string()]);
    assert_eq!(buckets.tag_details, vec![rel("nhentai-language:english-text", "English Text")]);
    assert_eq!(buckets.pages, None);
}

#[test]
fn relation_named_by_slug_when_value_blank() {
    let buckets = parse_tag_buckets(&vec![TagContainer {
        children: vec![LabelNode::Text("Tags:".to_string())],
        anchors: vec![TagAnchor { name_text: None, text: "  ".to_string(), href: Some("/tag/big-eyes/".to_string()) }],
    }]);
    assert!(buckets.tags.is_empty());
    assert_eq!(buckets.tag_details, vec![rel("nhentai-tags:big-eyes", "big eyes")]);
}

#[test]
fn payload_and_extensions() {
    let d = extract_page_data(r#"{"media_id" : "31", "pages":[{"t":"g"},{"t":"w"},{"t":"x"}]}"#)
        .expect("page data");
    assert_eq!(d.media_id, "31");
    assert_eq!(d.page_types, vec!['g', 'w', 'x']);
    assert!(extract_page_data(r#"{"media_id":"31"}"#).is_none());
    assert!(extract_page_data(r#"{"media_id":"","pages":[{"t":"j"}]}"#).is_none());
    assert!(extract_page_data(r#"{"media_id":"3","pages":[]}"#).is_none());
    assert_eq!(image_extension("p"), "png");
    assert_eq!(image_extension("g"), "gif");
    assert_eq!(image_extension("w"), "webp");
    assert_eq!(image_extension("j"), "jpg");
    assert_eq!(image_extension("pp"), "jpg");
}

#[test]
fn thumbnail_rewrites() {
    assert_eq!(
        thumbnail_to_image_url("http://t.nhentai.net/galleries/1/10t.png"),
        Some("https://i.nhentai.net/galleries/1/10.png".to_string())
    );
    assert_eq!(thumbnail_to_image_url("https://t.nhentai.net/galleries/1/10.png"), None);
    assert_eq!(thumbnail_to_image_url("https://x.nhentai.net/galleries/1/1t.png"), None);
    assert_eq!(thumbnail_to_image_url("https://t1.nhentai.net/galleries/1/1t.bmp"), None);
    assert_eq!(thumbnail_to_image_url("https://t1.nhentai.net/galleries/1/1t.jpg."), None);
}

#[test]
fn unique_pushes_keep_first_occurrence() {
    let mut target = vec!["a".to_string()];
    push_all_unique(&mut target, vec!["b".to_string(), "a".to_string(), "b".to_string()]);
    assert_eq!(target, vec!["a".to_string(), "b".to_string()]);
    let mut rels = vec![rel("x", "one")];
    push_all_unique_relations(&mut rels, vec![rel("x", "two"), rel("y", "three")]);
    assert_eq!(rels, vec![rel("x", "one"), rel("y", "three")]);
    assert_eq!(
        deduplicate_strings(vec!["c".to_string(), "c".to_string(), "d".to_string()]),
        vec!["c".to_string(), "d".to_string()]
    );
}

#[test]
fn publishing_helpers() {
    assert_eq!(default_language_code(&[]), Some("en".to_string()));
    assert_eq!(
        default_language_code(&["latin".to_string(), "Japanese".to_string()]),
        Some("ja".to_string())
    );
    assert_eq!(default_language_code(&["latin".to_string()]), None);
    assert_eq!(fallback_local_id("Soft Sample!"), "nhentai-title-soft-sample");
    assert_eq!(fallback_local_id("!!!"), "nhentai-title");
    let details = vec![rel(" a ", " Bai "), rel("a", "bai"), rel("", "x"), rel("p", "Original")];
    assert_eq!(relation_details_to_media_refs(&details), vec!["a".to_string(), "p".to_string()]);
    assert_eq!(relation_details_to_series_refs(&details), vec!["a".to_string()]);
    assert_eq!(
        relation_details_to_lookup_names(&details),
        vec!["Bai".to_string(), "bai".to_string(), "x".to_string(), "Original".to_string()]
    );
    assert_eq!(
        relation_details_to_series_lookup_names(&details),
        vec!["Bai".to_string(), "bai".to_string(), "x".to_string()]
    );
    assert_eq!(publishable_relations(&details).len(), 3);
    assert_eq!(publishable_series(&details).len(), 2);
    assert_eq!(image_mime("https://i.nhentai.net/galleries/5/2.webp"), "image/webp");
    assert_eq!(image_mime("noext"), "image/noext");
}

fn gallery(images: Vec<&str>, cover: &str) -> NhentaiGallery {
    NhentaiGallery {
        images: images.into_iter().map(|s| s.to_string()).collect(),
        cover_url: cover.to_string(),
        ..Default::default()
    }
}

#[test]
fn published_images_mark_posters_and_skip_repeats() {
    assert_eq!(gallery_image_urls(&gallery(vec![], "c.jpg")), vec!["c.jpg".to_string()]);
    assert!(gallery_image_urls(&gallery(vec![], "  ")).is_empty());
    let out = published_gallery_images(&vec![
        gallery(vec!["1.jpg", " ", "2.jpg"], "c.jpg"),
        gallery(vec!["2.jpg", "3.jpg"], ""),
    ]);
    let urls: Vec<(String, bool)> = out.into_iter().map(|p| (p.url, p.poster)).collect();
    assert_eq!(
        urls,
        vec![
            ("1.jpg".to_string(), true),
            ("2.jpg".to_string(), false),
            ("3.jpg".to_string(), false)
        ]
    );
}

#[test]
fn infos_only_where_relations_exist() {
    assert!(gallery_to_infos(&gallery(vec!["1.jpg"], "")).is_none());
    let mut g = gallery(vec!["1.jpg"], "");
    g.parody_details = vec![rel("nhentai-parody:naruto", "naruto"), rel("nhentai-parody:original", "original")];
    let infos = gallery_to_infos(&g).expect("infos");
    assert_eq!(infos.series_refs, vec!["nhentai-parody:naruto".to_string()]);
    assert_eq!(infos.series_lookup, vec!["naruto".to_string()]);
    assert!(infos.people_refs.is_empty());
}

#[test]
fn next_page_key_needs_results_and_link() {
    let html = r#"<div class="gallery"><a class="cover" href="/g/1/"><img src="/a.jpg"/></a><div class="caption">One</div></div><a class="next" href="?page=3">next</a>"#;
    assert_eq!(parse_search_next_page(html, 2), Some(3));
    assert_eq!(parse_search_next_page("<p>no link</p>", 2), None);
    let (results, key) = search_page(html, Some(2));
    assert_eq!(results.len(), 1);
    assert_eq!(key, Some("3".to_string()));
    let (_, first) = search_page(html, None);
    assert_eq!(first, Some("2".to_string()));
    let (none, no_key) = search_page(r#"<a class="next">next</a>"#, None);
    assert!(none.is_empty());
    assert_eq!(no_key, None);
}

#[test]
fn lookup_steps_fall_back_to_the_name() {
    let q = BookQuery { name: Some("  nhentai:5 ".to_string()), ids: None };
    assert!(matches!(lookup_start(&q), LookupAction::FetchGallery(ref id) if id == "5"));
    assert!(matches!(lookup_after_gallery(&q, true), LookupAction::Done));
    assert!(matches!(lookup_after_gallery(&q, false), LookupAction::Search(ref n) if n == "nhentai:5"));
    let blank = BookQuery { name: Some(" ".to_string()), ids: None };
    assert!(matches!(lookup_start(&blank), LookupAction::Unsupported));
    assert!(matches!(lookup_after_gallery(&blank, false), LookupAction::Done));
    let text = BookQuery { name: Some("soft".to_string()), ids: None };
    assert!(matches!(lookup_start(&text), LookupAction::Search(ref s) if s == "soft"));
}
