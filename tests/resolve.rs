use plugin_nhentai::{resolve_book_lookup_target, BookIds, BookQuery, LookupTarget};

fn ids_with_other(values: Vec<&str>) -> Option<BookIds> {
    Some(BookIds {
        redseat: None,
        slug: None,
        other_ids: Some(values.into_iter().map(|v| v.to_string()).collect()),
    })
}

#[test]
fn resolve_target_prefers_direct_name_id() {
    let book = BookQuery {
        name: Some("nhentai:12345".to_string()),
        ids: None,
    };

    let target = resolve_book_lookup_target(&book);
    match target {
        Some(LookupTarget::DirectGallery(id)) => assert_eq!(id, "12345"),
        _ => panic!("Expected direct gallery target"),
    }
}

#[test]
fn resolve_target_reads_ids_other_ids() {
    let book = BookQuery {
        name: Some("ignored text".to_string()),
        ids: ids_with_other(vec!["nhentai:67890"]),
    };

    let target = resolve_book_lookup_target(&book);
    match target {
        Some(LookupTarget::DirectGallery(id)) => assert_eq!(id, "67890"),
        _ => panic!("Expected direct gallery target from ids"),
    }
}

#[test]
fn resolve_target_relation_id_in_name() {
    let book = BookQuery {
        name: Some("nhentai-group:maiju".to_string()),
        ids: None,
    };

    let target = resolve_book_lookup_target(&book);
    match target {
        Some(LookupTarget::Search(term)) => assert_eq!(term, "group:maiju"),
        _ => panic!("Expected Search target for relation ID in name"),
    }
}

#[test]
fn resolve_target_relation_id_in_other_ids() {
    let book = BookQuery {
        name: Some("some book name".to_string()),
        ids: ids_with_other(vec!["nhentai-artist:sasaki-musashi"]),
    };

    let target = resolve_book_lookup_target(&book);
    match target {
        Some(LookupTarget::Search(term)) => assert_eq!(term, "artist:sasaki-musashi"),
        _ => panic!("Expected Search target for relation ID in other_ids"),
    }
}

#[test]
fn resolve_target_gallery_id_preferred_over_relation() {
    let book = BookQuery {
        name: Some("nhentai:12345".to_string()),
        ids: ids_with_other(vec!["nhentai-artist:bai-asuka"]),
    };

    let target = resolve_book_lookup_target(&book);
    match target {
        Some(LookupTarget::DirectGallery(id)) => assert_eq!(id, "12345"),
        _ => panic!("Expected DirectGallery to win over relation ID"),
    }
}

#[test]
fn resolve_target_relation_id_in_name_tags_maps_to_tag() {
    let book = BookQuery {
        name: Some("nhentai-tags:full-color".to_string()),
        ids: None,
    };

    let target = resolve_book_lookup_target(&book);
    match target {
        Some(LookupTarget::Search(term)) => assert_eq!(term, "tag:full-color"),
        _ => panic!("Expected Search target with tag: prefix"),
    }
}

#[test]
fn direct_id_in_slot_wins_over_relation_in_name() {
    let book = BookQuery {
        name: Some("nhentai-artist:bai-asuka".to_string()),
        ids: Some(BookIds {
            redseat: None,
            slug: Some("https://www.nhentai.net/g/4242/".to_string()),
            other_ids: None,
        }),
    };
    match resolve_book_lookup_target(&book) {
        Some(LookupTarget::DirectGallery(id)) => assert_eq!(id, "4242"),
        _ => panic!("expected a direct gallery"),
    }
}

#[test]
fn redseat_slot_comes_before_other_ids() {
    let book = BookQuery {
        name: None,
        ids: Some(BookIds {
            redseat: Some("NHENTAI:11".to_string()),
            slug: None,
            other_ids: Some(vec!["nhentai:22".to_string()]),
        }),
    };
    match resolve_book_lookup_target(&book) {
        Some(LookupTarget::DirectGallery(id)) => assert_eq!(id, "11"),
        _ => panic!("expected a direct gallery"),
    }
}

#[test]
fn free_text_name_is_trimmed_search() {
    let book = BookQuery {
        name: Some("  soft sample ".to_string()),
        ids: None,
    };
    match resolve_book_lookup_target(&book) {
        Some(LookupTarget::Search(term)) => assert_eq!(term, "soft sample"),
        _ => panic!("expected a free-text search"),
    }
}

#[test]
fn blank_query_is_unsupported() {
    let blank = BookQuery {
        name: Some("   ".to_string()),
        ids: None,
    };
    assert!(resolve_book_lookup_target(&blank).is_none());
    let empty = BookQuery { name: None, ids: None };
    assert!(resolve_book_lookup_target(&empty).is_none());
}
