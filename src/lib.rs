//! Metadata extraction for nhentai gallery pages: identifier resolution,
//! listing and detail page parsing, taxonomy classification and asset
//! resolution, each stated over a plain model of what a page holds.

pub mod text;
pub mod ident;
pub mod record;
pub mod taxonomy;
pub mod assets;
pub mod page;
pub mod dom;
pub mod publish;

pub use assets::{extract_page_data, image_extension, thumbnail_to_image_url, ImageAttrs, PageData};
pub use dom::{parse_gallery_html, parse_search_html, parse_search_next_page, search_page};
pub use ident::{
    build_gallery_url, build_search_url, extract_gallery_id, parse_lookup_gallery_id,
    parse_relation_search_term, resolve_book_lookup_target, lookup_start, lookup_after_gallery,
    BookIds, BookQuery, LookupAction, LookupTarget,
};
pub use page::{gallery_from_page, search_results, CoverAnchor, GalleryPage, SearchCard};
pub use publish::{
    default_language_code, fallback_local_id, gallery_image_urls,
    gallery_to_infos, image_mime, parse_page_key, published_gallery_images, publishable_relations,
    publishable_series, relation_details_to_lookup_names, relation_details_to_media_refs,
    relation_details_to_series_lookup_names, relation_details_to_series_refs, PublishedImage,
    RelationInfos,
};
pub use record::{deduplicate_strings, push_all_unique, push_all_unique_relations, NhentaiGallery, NhentaiRelation};
pub use taxonomy::{
    parse_relation_key_from_href, parse_relation_slug_from_href, parse_tag_buckets,
    relation_key_for_label, LabelNode, TagAnchor, TagBuckets, TagContainer,
};
pub use text::{
    encode_query_component, is_valid_gallery_id, normalize_text, normalize_url,
    parse_u32_from_text, slugify_identifier,
};
