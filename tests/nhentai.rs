use plugin_nhentai::{
    build_search_url, parse_gallery_html, parse_lookup_gallery_id, parse_search_html,
    NhentaiRelation,
};

#[test]
fn build_search_url_adds_english_prefix() {
    let url = build_search_url("soft", None).expect("url");
    assert_eq!(url, "https://nhentai.net/search/?q=language%3Aenglish+soft");
}

#[test]
fn build_search_url_appends_page() {
    let url = build_search_url("soft", Some(3)).expect("url");
    assert_eq!(
        url,
        "https://nhentai.net/search/?q=language%3Aenglish+soft&page=3"
    );
}

#[test]
fn build_search_url_page_one_omits_param() {
    let url = build_search_url("soft", Some(1)).expect("url");
    assert_eq!(url, "https://nhentai.net/search/?q=language%3Aenglish+soft");
}

#[test]
fn parse_lookup_gallery_id_supports_prefix_and_url() {
    assert_eq!(
        parse_lookup_gallery_id("nhentai:12345"),
        Some("12345".to_string())
    );
    assert_eq!(
        parse_lookup_gallery_id("https://nhentai.net/g/67890/"),
        Some("67890".to_string())
    );
    assert_eq!(parse_lookup_gallery_id("soft sample"), None);
}

#[test]
fn parse_search_html_reads_title_cover_and_id() {
    let html = r#"
    <div class="gallery">
      <a class="cover" href="/g/12345/">
        <img data-src="//t3.nhentai.net/galleries/111/thumb.jpg" />
      </a>
      <div class="caption">Soft Sample</div>
    </div>
    <div class="gallery">
      <a class="cover" href="/g/67890/">
        <img src="/galleries/222/thumb.jpg" />
      </a>
      <div class="caption">Another Work</div>
    </div>
    "#;

    let results = parse_search_html(html);
    assert_eq!(results.len(), 2);

    assert_eq!(results[0].id, Some("12345".to_string()));
    assert_eq!(results[0].title, "Soft Sample");
    assert_eq!(
        results[0].cover_url,
        "https://t3.nhentai.net/galleries/111/thumb.jpg"
    );
    assert_eq!(results[0].gallery_url, "https://nhentai.net/g/12345/");

    assert_eq!(results[1].id, Some("67890".to_string()));
    assert_eq!(results[1].title, "Another Work");
    assert_eq!(
        results[1].cover_url,
        "https://nhentai.net/galleries/222/thumb.jpg"
    );
    assert_eq!(results[1].gallery_url, "https://nhentai.net/g/67890/");
}

#[test]
fn parse_search_html_skips_invalid_rows() {
    let html = r#"
    <div class="gallery">
      <a class="cover" href="/g/12345/"></a>
      <div class="caption">No Image</div>
    </div>
    <div class="gallery">
      <a class="cover" href="/g/98765/">
        <img src="/galleries/333/thumb.jpg" />
      </a>
    </div>
    "#;

    let results = parse_search_html(html);
    assert!(results.is_empty());
}

#[test]
fn parse_gallery_html_extracts_rich_metadata_and_images() {
    let html = r#"
    <html>
      <head>
        <meta property="og:image" content="https://t.nhentai.net/galleries/555/cover.jpg" />
      </head>
      <body>
        <div id="info">
          <h1 class="title">Sample Gallery</h1>
        </div>
        <div id="tags">
          <div class="tag-container field-name">
            <span class="name">Artists:</span>
            <span class="tags"><a class="tag" href="/artist/artist-one/"><span class="name">artist-one</span></a></span>
          </div>
          <div class="tag-container field-name">
            <span class="name">Groups:</span>
            <span class="tags"><a class="tag" href="/group/group-one/"><span class="name">group-one</span></a></span>
          </div>
          <div class="tag-container field-name">
            <span class="name">Tags:</span>
            <span class="tags"><a class="tag" href="/tag/full-color/"><span class="name">full color</span></a></span>
          </div>
          <div class="tag-container field-name">
            <span class="name">Languages:</span>
            <span class="tags"><a class="tag" href="/language/english/"><span class="name">english</span></a></span>
          </div>
          <div class="tag-container field-name">
            <span class="name">Categories:</span>
            <span class="tags"><a class="tag" href="/category/doujinshi/"><span class="name">doujinshi</span></a></span>
          </div>
          <div class="tag-container field-name">
            <span class="name">Pages:</span>
            <span class="tags"><a class="tag"><span class="name">24</span></a></span>
          </div>
        </div>
        <script>
          window._gallery = {"media_id":"555","images":{"pages":[{"t":"j"},{"t":"p"}]}};
        </script>
      </body>
    </html>
    "#;

    let result = parse_gallery_html(html, "12345").expect("gallery should parse");
    assert_eq!(result.id, Some("12345".to_string()));
    assert_eq!(result.title, "Sample Gallery");
    assert_eq!(result.gallery_url, "https://nhentai.net/g/12345/");
    assert_eq!(
        result.cover_url,
        "https://t.nhentai.net/galleries/555/cover.jpg"
    );
    assert_eq!(result.artists, vec!["artist-one".to_string()]);
    assert_eq!(result.groups, vec!["group-one".to_string()]);
    assert_eq!(result.tags, vec!["full color".to_string()]);
    assert_eq!(result.languages, vec!["english".to_string()]);
    assert_eq!(result.categories, vec!["doujinshi".to_string()]);
    assert_eq!(
        result.people_ids,
        vec![
            "nhentai-artist:artist-one".to_string(),
            "nhentai-group:group-one".to_string()
        ]
    );
    assert_eq!(
        result.people_details,
        vec![
            NhentaiRelation {
                id: "nhentai-artist:artist-one".to_string(),
                name: "artist-one".to_string()
            },
            NhentaiRelation {
                id: "nhentai-group:group-one".to_string(),
                name: "group-one".to_string()
            }
        ]
    );
    assert_eq!(
        result.tag_ids,
        vec![
            "nhentai-tags:full-color".to_string(),
            "nhentai-language:english".to_string(),
            "nhentai-category:doujinshi".to_string()
        ]
    );
    assert_eq!(
        result.tag_details,
        vec![
            NhentaiRelation {
                id: "nhentai-tags:full-color".to_string(),
                name: "full color".to_string()
            },
            NhentaiRelation {
                id: "nhentai-language:english".to_string(),
                name: "english".to_string()
            },
            NhentaiRelation {
                id: "nhentai-category:doujinshi".to_string(),
                name: "doujinshi".to_string()
            }
        ]
    );
    assert_eq!(result.pages, Some(24));
    assert_eq!(
        result.images,
        vec![
            "https://i.nhentai.net/galleries/555/1.jpg".to_string(),
            "https://i.nhentai.net/galleries/555/2.png".to_string()
        ]
    );
}

#[test]
fn parse_gallery_html_uses_thumbnail_fallback() {
    let html = r#"
    <html>
      <body>
        <h1 class="title">Fallback Gallery</h1>
        <div id="thumbnail-container">
          <img data-src="https://t5.nhentai.net/galleries/987/1t.jpg" />
        </div>
      </body>
    </html>
    "#;

    let result = parse_gallery_html(html, "987").expect("gallery should parse");
    assert_eq!(
        result.images,
        vec!["https://i.nhentai.net/galleries/987/1.jpg".to_string()]
    );
}

#[test]
fn parse_gallery_html_thumbnail_fallback_handles_double_extension() {
    let html = r#"
    <html>
      <body>
        <h1 class="title">Double Ext Gallery</h1>
        <div id="thumbnail-container">
          <img data-src="https://t4.nhentai.net/galleries/123/1t.webp" />
          <img data-src="https://t4.nhentai.net/galleries/123/2t.webp.webp" />
        </div>
      </body>
    </html>
    "#;

    let result = parse_gallery_html(html, "123").expect("gallery should parse");
    assert_eq!(
        result.images,
        vec![
            "https://i.nhentai.net/galleries/123/1.webp".to_string(),
            "https://i.nhentai.net/galleries/123/2.webp".to_string(),
        ]
    );
}

#[test]
fn parse_gallery_html_reads_escaped_script_json() {
    let html = r#"
    <html>
      <body>
        <h1 class="title">Escaped Script</h1>
        <script>
          window._n_app = JSON.parse("{\"media_id\":\"700\",\"images\":{\"pages\":[{\"t\":\"j\"},{\"t\":\"w\"}]}}");
        </script>
      </body>
    </html>
    "#;

    let result = parse_gallery_html(html, "700").expect("gallery should parse");
    assert_eq!(
        result.images,
        vec![
            "https://i.nhentai.net/galleries/700/1.jpg".to_string(),
            "https://i.nhentai.net/galleries/700/2.webp".to_string()
        ]
    );
}

#[test]
fn parse_gallery_html_reads_artist_from_plain_text_label() {
    let html = r#"
    <html>
      <body>
        <h1 class="title">Plain Text Label</h1>
        <div id="tags">
          <div class="tag-container field-name ">
            Artists:
            <span class="tags">
              <a href="/artist/bai-asuka/" class="tag tag-32383 ">
                <span class="name">bai asuka</span>
                <span class="count">574</span>
              </a>
            </span>
          </div>
        </div>
      </body>
    </html>
    "#;

    let result = parse_gallery_html(html, "629637").expect("gallery should parse");
    assert_eq!(result.artists, vec!["bai asuka".to_string()]);
    assert_eq!(
        result.people_ids,
        vec!["nhentai-artist:bai-asuka".to_string()]
    );
    assert_eq!(
        result.people_details,
        vec![NhentaiRelation {
            id: "nhentai-artist:bai-asuka".to_string(),
            name: "bai asuka".to_string()
        }]
    );
}

#[test]
fn parse_gallery_html_reads_parody_into_parody_details() {
    let html = r#"
    <html>
      <body>
        <h1 class="title">Parody Work</h1>
        <div id="tags">
          <div class="tag-container field-name">
            Parodies:
            <span class="tags">
              <a href="/parody/naruto/" class="tag">
                <span class="name">naruto</span>
              </a>
            </span>
          </div>
        </div>
      </body>
    </html>
    "#;

    let result = parse_gallery_html(html, "282849").expect("gallery should parse");
    assert_eq!(result.parodies, vec!["naruto".to_string()]);
    assert_eq!(
        result.parody_details,
        vec![NhentaiRelation {
            id: "nhentai-parody:naruto".to_string(),
            name: "naruto".to_string()
        }]
    );
    assert!(result.tag_details.is_empty());
    assert!(result.tag_ids.is_empty());
}
