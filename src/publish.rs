//! What the publishing side takes from a record: language code, local id,
//! filtered relations, image list and download details.

use vstd::prelude::*;
use crate::text::{
    append_chars, chars_of, is_gallery_id, lower_seq, number_in, parse_u32_from_text,
    slugify, slugify_identifier, string_of, trim, trim_chars, all_digits,
    slice_chars,
};
use crate::ident::lower_chars;
use crate::record::{NhentaiGallery, NhentaiRelation, contains_string, rels, strs};
use crate::taxonomy::after_last;
use crate::text::eq_lit;

verus! {

/// The language code of a language name, in any case.
pub open spec fn code_of(l: Seq<char>) -> Option<Seq<char>> {
    let x = lower_seq(l);
    if x == "english"@ {
        Some("en"@)
    } else if x == "japanese"@ {
        Some("ja"@)
    } else if x == "chinese"@ {
        Some("zh"@)
    } else if x == "korean"@ {
        Some("ko"@)
    } else {
        None
    }
}

/// The code of the first language that has one.
pub open spec fn first_code(ls: Seq<String>) -> Option<Seq<char>>
    decreases ls.len(),
{
    if ls.len() == 0 {
        None
    } else if code_of(ls[0]@) is Some {
        code_of(ls[0]@)
    } else {
        first_code(ls.drop_first())
    }
}

/// The language of a record: the first known one, English where none is
/// given, unset where only unknown ones are.
pub open spec fn language_code(ls: Seq<String>) -> Option<Seq<char>> {
    if first_code(ls) is Some {
        first_code(ls)
    } else if ls.len() == 0 {
        Some("en"@)
    } else {
        None
    }
}

fn code_of_exec(l: &String) -> (r: Option<String>)
    ensures
        r matches Some(c) ==> code_of(l@) == Some(c@),
        r is None ==> code_of(l@) is None,
{
    let x = lower_chars(&chars_of(l.as_str()));
    if eq_lit(&x, "english") {
        Some(string_of(&chars_of("en")))
    } else if eq_lit(&x, "japanese") {
        Some(string_of(&chars_of("ja")))
    } else if eq_lit(&x, "chinese") {
        Some(string_of(&chars_of("zh")))
    } else if eq_lit(&x, "korean") {
        Some(string_of(&chars_of("ko")))
    } else {
        None
    }
}

/// The language code of a record's languages.
pub fn default_language_code(languages: &[String]) -> (r: Option<String>)
    ensures
        r matches Some(c) ==> language_code(languages@) == Some(c@),
        r is None ==> language_code(languages@) is None,
{
    let mut i: usize = 0;
    assert(languages@.subrange(0, languages@.len() as int) =~= languages@);
    while i < languages.len()
        invariant
            i <= languages@.len(),
            first_code(languages@) == first_code(
                languages@.subrange(i as int, languages@.len() as int),
            ),
        decreases languages@.len() - i,
    {
        proof {
            let rest = languages@.subrange(i as int, languages@.len() as int);
            assert(rest[0] == languages@[i as int]);
            assert(rest.drop_first() =~= languages@.subrange(
                i as int + 1,
                languages@.len() as int,
            ));
        }
        let c = code_of_exec(&languages[i]);
        if c.is_some() {
            return c;
        }
        i = i + 1;
    }
    if languages.len() == 0 {
        Some(string_of(&chars_of("en")))
    } else {
        None
    }
}

/// The local id of a record without a gallery id, from its title's slug.
pub open spec fn local_id(title: Seq<char>) -> Seq<char> {
    match slugify(title) {
        Some(s) => "nhentai-title-"@ + s,
        None => "nhentai-title"@,
    }
}

/// `nhentai-title-<slug of the title>`, or `nhentai-title` where the slug is empty.
pub fn fallback_local_id(title: &str) -> (r: String)
    ensures
        r@ == local_id(title@),
{
    match slugify_identifier(title) {
        Some(s) => {
            let mut out = chars_of("nhentai-title-");
            append_chars(&mut out, &chars_of(s.as_str()));
            string_of(&out)
        },
        None => string_of(&chars_of("nhentai-title")),
    }
}

/// Whether a name is `original`, in any case.
pub open spec fn is_original(n: Seq<char>) -> bool {
    lower_seq(n) == "original"@
}

/// The ids of the relations that have a non-blank id and name (for series,
/// a name other than `original`), trimmed, each id once.
pub open spec fn ref_ids(vs: Seq<NhentaiRelation>, series: bool) -> Seq<Seq<char>>
    decreases vs.len(),
{
    if vs.len() == 0 {
        Seq::empty()
    } else {
        let out = ref_ids(vs.drop_last(), series);
        let id = trim(vs.last().id@);
        let name = trim(vs.last().name@);
        if id.len() == 0 || name.len() == 0 || (series && is_original(name)) || out.contains(id) {
            out
        } else {
            out.push(id)
        }
    }
}

/// The names of the relations, trimmed, non-blank (for series, other than
/// `original`), each once.
pub open spec fn lookup_names(vs: Seq<NhentaiRelation>, series: bool) -> Seq<Seq<char>>
    decreases vs.len(),
{
    if vs.len() == 0 {
        Seq::empty()
    } else {
        let out = lookup_names(vs.drop_last(), series);
        let name = trim(vs.last().name@);
        if name.len() == 0 || (series && is_original(name)) || out.contains(name) {
            out
        } else {
            out.push(name)
        }
    }
}

fn trimmed(s: &String) -> (r: String)
    ensures
        r@ == trim(s@),
{
    string_of(&trim_chars(&chars_of(s.as_str())))
}

fn is_original_exec(n: &String) -> (r: bool)
    ensures
        r == is_original(n@),
{
    eq_lit(&lower_chars(&chars_of(n.as_str())), "original")
}

fn collect_ref_ids(values: &[NhentaiRelation], series: bool) -> (r: Vec<String>)
    ensures
        strs(r@) == ref_ids(values@, series),
{
    let mut out: Vec<String> = Vec::new();
    let mut i: usize = 0;
    assert(strs(out@) =~= Seq::<Seq<char>>::empty());
    while i < values.len()
        invariant
            i <= values@.len(),
            strs(out@) == ref_ids(values@.subrange(0, i as int), series),
        decreases values@.len() - i,
    {
        proof {
            let p = values@.subrange(0, i as int + 1);
            assert(p.drop_last() =~= values@.subrange(0, i as int));
            assert(p.last() == values@[i as int]);
        }
        let id = trimmed(&values[i].id);
        let name = trimmed(&values[i].name);
        if !(id.as_str().is_empty() || name.as_str().is_empty() || (series && is_original_exec(
            &name,
        )) || contains_string(&out, &id)) {
            out.push(id);
            assert(strs(out@) =~= strs(out@.drop_last()).push(id@));
        }
        i = i + 1;
    }
    assert(values@.subrange(0, values@.len() as int) =~= values@);
    out
}

fn collect_lookup_names(values: &[NhentaiRelation], series: bool) -> (r: Vec<String>)
    ensures
        strs(r@) == lookup_names(values@, series),
{
    let mut out: Vec<String> = Vec::new();
    let mut i: usize = 0;
    assert(strs(out@) =~= Seq::<Seq<char>>::empty());
    while i < values.len()
        invariant
            i <= values@.len(),
            strs(out@) == lookup_names(values@.subrange(0, i as int), series),
        decreases values@.len() - i,
    {
        proof {
            let p = values@.subrange(0, i as int + 1);
            assert(p.drop_last() =~= values@.subrange(0, i as int));
            assert(p.last() == values@[i as int]);
        }
        let name = trimmed(&values[i].name);
        if !(name.as_str().is_empty() || (series && is_original_exec(&name)) || contains_string(
            &out,
            &name,
        )) {
            out.push(name);
            assert(strs(out@) =~= strs(out@.drop_last()).push(name@));
        }
        i = i + 1;
    }
    assert(values@.subrange(0, values@.len() as int) =~= values@);
    out
}

/// The ids to attach for people or tags: trimmed, non-blank with a
/// non-blank name, each once.
pub fn relation_details_to_media_refs(values: &[NhentaiRelation]) -> (r: Vec<String>)
    ensures
        strs(r@) == ref_ids(values@, false),
{
    collect_ref_ids(values, false)
}

/// The ids to attach for series: as for people and tags, without the
/// series named `original`.
pub fn relation_details_to_series_refs(values: &[NhentaiRelation]) -> (r: Vec<String>)
    ensures
        strs(r@) == ref_ids(values@, true),
{
    collect_ref_ids(values, true)
}

/// The names to look people or tags up by: trimmed, non-blank, each once.
pub fn relation_details_to_lookup_names(values: &[NhentaiRelation]) -> (r: Vec<String>)
    ensures
        strs(r@) == lookup_names(values@, false),
{
    collect_lookup_names(values, false)
}

/// The names to look series up by: as for people and tags, without `original`.
pub fn relation_details_to_series_lookup_names(values: &[NhentaiRelation]) -> (r: Vec<String>)
    ensures
        strs(r@) == lookup_names(values@, true),
{
    collect_lookup_names(values, true)
}

/// Whether a relation can be published: a non-blank id and name (for
/// series, a name other than `original` in any case).
pub open spec fn publishable(v: NhentaiRelation, series: bool) -> bool {
    trim(v.id@).len() > 0 && trim(v.name@).len() > 0 && !(series && is_original(v.name@))
}

/// The relations that can be published, in order.
pub open spec fn publishable_rels(vs: Seq<NhentaiRelation>, series: bool) -> Seq<NhentaiRelation>
    decreases vs.len(),
{
    if vs.len() == 0 {
        Seq::empty()
    } else if publishable(vs.last(), series) {
        publishable_rels(vs.drop_last(), series).push(vs.last())
    } else {
        publishable_rels(vs.drop_last(), series)
    }
}

fn collect_publishable(values: &[NhentaiRelation], series: bool) -> (r: Vec<NhentaiRelation>)
    ensures
        rels(r@) == rels(publishable_rels(values@, series)),
{
    let mut out: Vec<NhentaiRelation> = Vec::new();
    let mut i: usize = 0;
    assert(rels(out@) =~= rels(publishable_rels(values@.subrange(0, 0), series)));
    while i < values.len()
        invariant
            i <= values@.len(),
            rels(out@) == rels(publishable_rels(values@.subrange(0, i as int), series)),
        decreases values@.len() - i,
    {
        let v = &values[i];
        proof {
            let p = values@.subrange(0, i as int + 1);
            assert(p.drop_last() =~= values@.subrange(0, i as int));
            assert(p.last() == values@[i as int]);
        }
        let id = trimmed(&v.id);
        let name = trimmed(&v.name);
        if !id.as_str().is_empty() && !name.as_str().is_empty() && !(series && is_original_exec(
            &v.name,
        )) {
            let ghost before = out@;
            out.push(NhentaiRelation { id: v.id.clone(), name: v.name.clone() });
            assert(rels(out@) =~= rels(before).push((v.id@, v.name@)));
            assert(rels(publishable_rels(values@.subrange(0, i as int + 1), series)) =~= rels(
                publishable_rels(values@.subrange(0, i as int), series),
            ).push((v.id@, v.name@)));
        }
        i = i + 1;
    }
    assert(values@.subrange(0, values@.len() as int) =~= values@);
    out
}

/// The people or tag relations to publish: those with a non-blank id and name.
pub fn publishable_relations(values: &[NhentaiRelation]) -> (r: Vec<NhentaiRelation>)
    ensures
        rels(r@) == rels(publishable_rels(values@, false)),
{
    collect_publishable(values, false)
}

/// The series relations to publish: as for people and tags, without `original`.
pub fn publishable_series(values: &[NhentaiRelation]) -> (r: Vec<NhentaiRelation>)
    ensures
        rels(r@) == rels(publishable_rels(values@, true)),
{
    collect_publishable(values, true)
}

/// The non-blank URLs among `urls`, in order.
pub open spec fn non_blank(urls: Seq<Seq<char>>) -> Seq<Seq<char>>
    decreases urls.len(),
{
    if urls.len() == 0 {
        Seq::empty()
    } else if trim(urls.last()).len() > 0 {
        non_blank(urls.drop_last()).push(urls.last())
    } else {
        non_blank(urls.drop_last())
    }
}

/// The images to publish for a record: its images, or its cover where it
/// has none; blank URLs left out.
pub open spec fn published_images(images: Seq<Seq<char>>, cover: Seq<char>) -> Seq<Seq<char>> {
    non_blank(
        if images.len() == 0 {
            seq![cover]
        } else {
            images
        },
    )
}

/// The image URLs to publish for a record; the first one is its poster.
pub fn gallery_image_urls(item: &NhentaiGallery) -> (r: Vec<String>)
    ensures
        strs(r@) == published_images(strs(item.images@), item.cover_url@),
{
    let mut urls: Vec<String> = Vec::new();
    if item.images.len() == 0 {
        urls.push(item.cover_url.clone());
        assert(strs(urls@) =~= seq![item.cover_url@]);
    } else {
        let mut i: usize = 0;
        while i < item.images.len()
            invariant
                i <= item.images.len(),
                urls@ == item.images@.subrange(0, i as int),
            decreases item.images.len() - i,
        {
            urls.push(item.images[i].clone());
            assert(urls@ =~= item.images@.subrange(0, i as int + 1));
            i = i + 1;
        }
        assert(item.images@.subrange(0, item.images.len() as int) =~= item.images@);
    }
    let ghost all = strs(urls@);
    let mut out: Vec<String> = Vec::new();
    let mut j: usize = 0;
    assert(strs(out@) =~= Seq::<Seq<char>>::empty());
    while j < urls.len()
        invariant
            j <= urls.len(),
            all == strs(urls@),
            strs(out@) == non_blank(all.subrange(0, j as int)),
        decreases urls.len() - j,
    {
        proof {
            let p = all.subrange(0, j as int + 1);
            assert(p.drop_last() =~= all.subrange(0, j as int));
            assert(p.last() == urls@[j as int]@);
        }
        let t = trimmed(&urls[j]);
        if !t.as_str().is_empty() {
            out.push(urls[j].clone());
            assert(strs(out@) =~= strs(out@.drop_last()).push(urls@[j as int]@));
        }
        j = j + 1;
    }
    assert(all.subrange(0, urls.len() as int) =~= all);
    out
}

/// The MIME type of an image URL: `image/` and what follows its last dot.
pub open spec fn mime_of(url: Seq<char>) -> Seq<char> {
    "image/"@ + after_last(url, '.')
}

/// The MIME type of an image URL, from its extension.
pub fn image_mime(url: &str) -> (r: String)
    ensures
        r@ == mime_of(url@),
{
    let v = chars_of(url);
    let mut j: usize = v.len();
    assert(v@.subrange(0, v.len() as int) =~= v@);
    assert(v@.subrange(v.len() as int, v.len() as int) =~= Seq::<char>::empty());
    assert(after_last(v@, '.') =~= after_last(v@, '.') + Seq::<char>::empty());
    while j > 0 && v[j - 1] != '.'
        invariant
            j <= v.len(),
            after_last(v@, '.') == after_last(v@.subrange(0, j as int), '.') + v@.subrange(
                j as int,
                v.len() as int,
            ),
        decreases j,
    {
        proof {
            let p = v@.subrange(0, j as int);
            assert(p.drop_last() =~= v@.subrange(0, j - 1));
            assert(v@.subrange(j - 1, v.len() as int) =~= seq![v@[j - 1]] + v@.subrange(
                j as int,
                v.len() as int,
            ));
        }
        j = j - 1;
    }
    proof {
        assert(v@.subrange(0, v.len() as int) =~= v@);
    }
    let mut out = chars_of("image/");
    append_chars(&mut out, &slice_chars(&v, j, v.len()));
    string_of(&out)
}

/// The page number of a page key: digits, possibly after a `+`, that fit in `u32`.
pub open spec fn page_key_value(s: Seq<char>) -> Option<u32> {
    let d = if s.len() > 0 && s[0] == '+' {
        s.drop_first()
    } else {
        s
    };
    if is_gallery_id(d) {
        number_in(d)
    } else {
        None
    }
}

/// The page number that a page key holds, as `u32`'s decimal form writes it.
pub fn parse_page_key(key: &str) -> (r: Option<u32>)
    ensures
        r == page_key_value(key@),
{
    let v = chars_of(key);
    let d = if v.len() > 0 && v[0] == '+' {
        slice_chars(&v, 1, v.len())
    } else {
        slice_chars(&v, 0, v.len())
    };
    assert(v@.subrange(0, v.len() as int) =~= v@);
    assert(v.len() > 0 ==> v@.subrange(1, v.len() as int) =~= v@.drop_first());
    if all_digits(&d) {
        parse_u32_from_text(string_of(&d).as_str())
    } else {
        None
    }
}


/// What a download carries about a gallery's relations.
pub struct RelationInfos {
    pub people_refs: Vec<String>,
    pub tag_refs: Vec<String>,
    pub series_refs: Vec<String>,
    pub people_lookup: Vec<String>,
    pub tags_lookup: Vec<String>,
    pub series_lookup: Vec<String>,
}

/// The relation details of a gallery as a download carries them; `None`
/// where every list would be empty.
pub fn gallery_to_infos(g: &NhentaiGallery) -> (r: Option<RelationInfos>)
    ensures
        r is None <==> (ref_ids(g.people_details@, false).len() == 0 && ref_ids(
            g.tag_details@,
            false,
        ).len() == 0 && ref_ids(g.parody_details@, true).len() == 0 && lookup_names(
            g.people_details@,
            false,
        ).len() == 0 && lookup_names(g.tag_details@, false).len() == 0 && lookup_names(
            g.parody_details@,
            true,
        ).len() == 0),
        r matches Some(i) ==> strs(i.people_refs@) == ref_ids(g.people_details@, false) && strs(
            i.tag_refs@,
        ) == ref_ids(g.tag_details@, false) && strs(i.series_refs@) == ref_ids(
            g.parody_details@,
            true,
        ) && strs(i.people_lookup@) == lookup_names(g.people_details@, false) && strs(
            i.tags_lookup@,
        ) == lookup_names(g.tag_details@, false) && strs(i.series_lookup@) == lookup_names(
            g.parody_details@,
            true,
        ),
{
    let people_refs = relation_details_to_media_refs(g.people_details.as_slice());
    let tag_refs = relation_details_to_media_refs(g.tag_details.as_slice());
    let series_refs = relation_details_to_series_refs(g.parody_details.as_slice());
    let people_lookup = relation_details_to_lookup_names(g.people_details.as_slice());
    let tags_lookup = relation_details_to_lookup_names(g.tag_details.as_slice());
    let series_lookup = relation_details_to_series_lookup_names(g.parody_details.as_slice());
    if people_refs.len() == 0 && tag_refs.len() == 0 && series_refs.len() == 0
        && people_lookup.len() == 0 && tags_lookup.len() == 0 && series_lookup.len() == 0 {
        None
    } else {
        Some(
            RelationInfos {
                people_refs,
                tag_refs,
                series_refs,
                people_lookup,
                tags_lookup,
                series_lookup,
            },
        )
    }
}

/// An image to publish: its URL, and whether it is its gallery's poster.
pub struct PublishedImage {
    pub url: String,
    pub poster: bool,
}

/// The images of one gallery with the first marked as poster.
pub open spec fn marked(urls: Seq<Seq<char>>) -> Seq<(Seq<char>, bool)> {
    Seq::new(urls.len(), |k: int| (urls[k], k == 0))
}

/// The published images of galleries, gallery after gallery.
pub open spec fn all_marked(gs: Seq<NhentaiGallery>) -> Seq<(Seq<char>, bool)>
    decreases gs.len(),
{
    if gs.len() == 0 {
        Seq::empty()
    } else {
        all_marked(gs.drop_last()) + marked(
            published_images(strs(gs.last().images@), gs.last().cover_url@),
        )
    }
}

/// `target` followed by the images whose URL it does not hold yet.
pub open spec fn unique_by_url(target: Seq<(Seq<char>, bool)>, values: Seq<(Seq<char>, bool)>) -> Seq<
    (Seq<char>, bool),
>
    decreases values.len(),
{
    if values.len() == 0 {
        target
    } else {
        let t = unique_by_url(target, values.drop_last());
        if t.map_values(|p: (Seq<char>, bool)| p.0).contains(values.last().0) {
            t
        } else {
            t.push(values.last())
        }
    }
}

/// Published images as pairs of URL and poster mark.
pub open spec fn images_view(v: Seq<PublishedImage>) -> Seq<(Seq<char>, bool)> {
    v.map_values(|p: PublishedImage| (p.url@, p.poster))
}

fn has_url(v: &Vec<PublishedImage>, url: &String) -> (r: bool)
    ensures
        r == images_view(v@).map_values(|p: (Seq<char>, bool)| p.0).contains(url@),
{
    let ghost urls = images_view(v@).map_values(|p: (Seq<char>, bool)| p.0);
    let mut i: usize = 0;
    while i < v.len()
        invariant
            i <= v.len(),
            urls == images_view(v@).map_values(|p: (Seq<char>, bool)| p.0),
            forall|k: int| 0 <= k < i ==> v@[k].url@ != url@,
        decreases v.len() - i,
    {
        if v[i].url == *url {
            assert(urls[i as int] == url@);
            return true;
        }
        i = i + 1;
    }
    proof {
        if urls.contains(url@) {
            let k = choose|k: int| 0 <= k < urls.len() && urls[k] == url@;
            assert(v@[k].url@ == url@);
        }
    }
    false
}

/// The images to publish for galleries: each gallery's images (or cover),
/// blank URLs left out, its first one marked as poster; an image whose URL
/// came before is left out.
pub fn published_gallery_images(galleries: &Vec<NhentaiGallery>) -> (r: Vec<PublishedImage>)
    ensures
        images_view(r@) == unique_by_url(Seq::empty(), all_marked(galleries@)),
{
    let mut out: Vec<PublishedImage> = Vec::new();
    let mut i: usize = 0;
    assert(images_view(out@) =~= Seq::<(Seq<char>, bool)>::empty());
    while i < galleries.len()
        invariant
            i <= galleries.len(),
            images_view(out@) == unique_by_url(
                Seq::empty(),
                all_marked(galleries@.subrange(0, i as int)),
            ),
        decreases galleries.len() - i,
    {
        let urls = gallery_image_urls(&galleries[i]);
        let ghost before = all_marked(galleries@.subrange(0, i as int));
        let ghost m = marked(strs(urls@));
        proof {
            let p = galleries@.subrange(0, i as int + 1);
            assert(p.drop_last() =~= galleries@.subrange(0, i as int));
            assert(p.last() == galleries@[i as int]);
        }
        let mut j: usize = 0;
        while j < urls.len()
            invariant
                j <= urls.len(),
                m == marked(strs(urls@)),
                images_view(out@) == unique_by_url(Seq::empty(), before + m.subrange(0, j as int)),
            decreases urls.len() - j,
        {
            let url = urls[j].clone();
            proof {
                let q = before + m.subrange(0, j as int + 1);
                assert(q.drop_last() =~= before + m.subrange(0, j as int));
                assert(q.last() == (url@, j == 0));
            }
            if !has_url(&out, &url) {
                let ghost prev = out@;
                out.push(PublishedImage { url, poster: j == 0 });
                assert(images_view(out@) =~= images_view(prev).push((url@, j == 0)));
            }
            j = j + 1;
        }
        assert(m.subrange(0, urls.len() as int) =~= m);
        i = i + 1;
    }
    assert(galleries@.subrange(0, galleries.len() as int) =~= galleries@);
    out
}

} // verus!
