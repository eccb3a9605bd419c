//! The parsed record of a gallery, and order-keeping deduplication.

use vstd::prelude::*;

verus! {

/// A named entity that a gallery refers to, with its stable id.
#[derive(Debug, Clone, PartialEq, Eq, Default)]
pub struct NhentaiRelation {
    pub id: String,
    pub name: String,
}

/// One gallery as parsed from a listing or detail page.
#[derive(Debug, Clone, PartialEq, Eq, Default)]
pub struct NhentaiGallery {
    pub id: Option<String>,
    pub title: String,
    pub cover_url: String,
    pub gallery_url: String,
    pub images: Vec<String>,
    pub tags: Vec<String>,
    pub artists: Vec<String>,
    pub groups: Vec<String>,
    pub parodies: Vec<String>,
    pub characters: Vec<String>,
    pub languages: Vec<String>,
    pub categories: Vec<String>,
    pub pages: Option<u32>,
    pub people_ids: Vec<String>,
    pub tag_ids: Vec<String>,
    pub people_details: Vec<NhentaiRelation>,
    pub tag_details: Vec<NhentaiRelation>,
    pub parody_details: Vec<NhentaiRelation>,
}

/// A relation as a pair of id and display name.
pub type Rel = (Seq<char>, Seq<char>);

/// A gallery record with every string as its characters.
pub struct GalleryView {
    pub id: Option<Seq<char>>,
    pub title: Seq<char>,
    pub cover_url: Seq<char>,
    pub gallery_url: Seq<char>,
    pub images: Seq<Seq<char>>,
    pub tags: Seq<Seq<char>>,
    pub artists: Seq<Seq<char>>,
    pub groups: Seq<Seq<char>>,
    pub parodies: Seq<Seq<char>>,
    pub characters: Seq<Seq<char>>,
    pub languages: Seq<Seq<char>>,
    pub categories: Seq<Seq<char>>,
    pub pages: Option<u32>,
    pub people_ids: Seq<Seq<char>>,
    pub tag_ids: Seq<Seq<char>>,
    pub people_details: Seq<Rel>,
    pub tag_details: Seq<Rel>,
    pub parody_details: Seq<Rel>,
}

impl View for NhentaiGallery {
    type V = GalleryView;

    open spec fn view(&self) -> GalleryView {
        GalleryView {
            id: match self.id {
                Some(s) => Some(s@),
                None => None,
            },
            title: self.title@,
            cover_url: self.cover_url@,
            gallery_url: self.gallery_url@,
            images: strs(self.images@),
            tags: strs(self.tags@),
            artists: strs(self.artists@),
            groups: strs(self.groups@),
            parodies: strs(self.parodies@),
            characters: strs(self.characters@),
            languages: strs(self.languages@),
            categories: strs(self.categories@),
            pages: self.pages,
            people_ids: strs(self.people_ids@),
            tag_ids: strs(self.tag_ids@),
            people_details: rels(self.people_details@),
            tag_details: rels(self.tag_details@),
            parody_details: rels(self.parody_details@),
        }
    }
}

/// Records as their views.
pub open spec fn seq_of_gallery_views(v: Seq<NhentaiGallery>) -> Seq<GalleryView> {
    v.map_values(|g: NhentaiGallery| g@)
}

/// Strings as their characters.
pub open spec fn strs(v: Seq<String>) -> Seq<Seq<char>> {
    v.map_values(|s: String| s@)
}

/// Relations as pairs of id and name.
pub open spec fn rels(v: Seq<NhentaiRelation>) -> Seq<Rel> {
    v.map_values(|r: NhentaiRelation| (r.id@, r.name@))
}

/// The ids of a list of relations.
pub open spec fn ids_of(v: Seq<Rel>) -> Seq<Seq<char>> {
    v.map_values(|r: Rel| r.0)
}

/// `target` followed by the values not yet in it, each at its first occurrence.
pub open spec fn append_unique(target: Seq<Seq<char>>, values: Seq<Seq<char>>) -> Seq<Seq<char>>
    decreases values.len(),
{
    if values.len() == 0 {
        target
    } else {
        let t = append_unique(target, values.drop_last());
        if t.contains(values.last()) {
            t
        } else {
            t.push(values.last())
        }
    }
}

/// `target` followed by the relations whose id is not yet in it, each at the
/// first occurrence of its id.
pub open spec fn append_unique_rels(target: Seq<Rel>, values: Seq<Rel>) -> Seq<Rel>
    decreases values.len(),
{
    if values.len() == 0 {
        target
    } else {
        let t = append_unique_rels(target, values.drop_last());
        if ids_of(t).contains(values.last().0) {
            t
        } else {
            t.push(values.last())
        }
    }
}

/// Whether `v` holds a string equal to `s`.
pub fn contains_string(v: &Vec<String>, s: &String) -> (r: bool)
    ensures
        r == strs(v@).contains(s@),
{
    let mut i: usize = 0;
    while i < v.len()
        invariant
            i <= v.len(),
            forall|k: int| 0 <= k < i ==> v@[k]@ != s@,
        decreases v.len() - i,
    {
        if v[i] == *s {
            assert(strs(v@)[i as int] == s@);
            return true;
        }
        i = i + 1;
    }
    proof {
        if strs(v@).contains(s@) {
            let k = choose|k: int| 0 <= k < strs(v@).len() && strs(v@)[k] == s@;
            assert(v@[k]@ == s@);
        }
    }
    false
}

/// Whether `v` holds a relation with the id `id`.
pub fn contains_id(v: &Vec<NhentaiRelation>, id: &String) -> (r: bool)
    ensures
        r == ids_of(rels(v@)).contains(id@),
{
    let mut i: usize = 0;
    while i < v.len()
        invariant
            i <= v.len(),
            forall|k: int| 0 <= k < i ==> v@[k].id@ != id@,
        decreases v.len() - i,
    {
        if v[i].id == *id {
            assert(ids_of(rels(v@))[i as int] == id@);
            return true;
        }
        i = i + 1;
    }
    proof {
        if ids_of(rels(v@)).contains(id@) {
            let k = choose|k: int|
                0 <= k < ids_of(rels(v@)).len() && ids_of(rels(v@))[k] == id@;
            assert(v@[k].id@ == id@);
        }
    }
    false
}

/// Appends to `target` each of `values` that it does not hold yet, in order.
pub fn push_all_unique(target: &mut Vec<String>, values: Vec<String>)
    ensures
        strs(final(target)@) == append_unique(strs(old(target)@), strs(values@)),
{
    let mut i: usize = 0;
    while i < values.len()
        invariant
            i <= values.len(),
            strs(target@) == append_unique(strs(old(target)@), strs(values@.subrange(0, i as int))),
        decreases values.len() - i,
    {
        let value = values[i].clone();
        proof {
            let p = strs(values@.subrange(0, i as int + 1));
            assert(p.drop_last() =~= strs(values@.subrange(0, i as int)));
            assert(p.last() == value@);
        }
        if !contains_string(target, &value) {
            target.push(value);
            assert(strs(target@) =~= append_unique(
                strs(old(target)@),
                strs(values@.subrange(0, i as int)),
            ).push(value@));
        }
        i = i + 1;
    }
    assert(values@.subrange(0, values.len() as int) =~= values@);
}

/// Appends to `target` each of `values` whose id it does not hold yet, in order.
pub fn push_all_unique_relations(target: &mut Vec<NhentaiRelation>, values: Vec<NhentaiRelation>)
    ensures
        rels(final(target)@) == append_unique_rels(rels(old(target)@), rels(values@)),
{
    let mut i: usize = 0;
    while i < values.len()
        invariant
            i <= values.len(),
            rels(target@) == append_unique_rels(
                rels(old(target)@),
                rels(values@.subrange(0, i as int)),
            ),
        decreases values.len() - i,
    {
        let value = NhentaiRelation { id: values[i].id.clone(), name: values[i].name.clone() };
        proof {
            let p = rels(values@.subrange(0, i as int + 1));
            assert(p.drop_last() =~= rels(values@.subrange(0, i as int)));
            assert(p.last() == (value.id@, value.name@));
        }
        if !contains_id(target, &value.id) {
            let ghost before = target@;
            target.push(value);
            assert(rels(target@) =~= rels(before).push((value.id@, value.name@)));
        }
        i = i + 1;
    }
    assert(values@.subrange(0, values.len() as int) =~= values@);
}

/// `values` with every repeated value after its first occurrence left out.
pub fn deduplicate_strings(values: Vec<String>) -> (r: Vec<String>)
    ensures
        strs(r@) == append_unique(Seq::empty(), strs(values@)),
{
    let mut out: Vec<String> = Vec::new();
    assert(strs(out@) =~= Seq::<Seq<char>>::empty());
    push_all_unique(&mut out, values);
    out
}

/// Order-keeping union keeps a list free of repeats.
pub proof fn lemma_append_unique_distinct(target: Seq<Seq<char>>, values: Seq<Seq<char>>)
    requires
        target.no_duplicates(),
    ensures
        append_unique(target, values).no_duplicates(),
    decreases values.len(),
{
    if values.len() > 0 {
        lemma_append_unique_distinct(target, values.drop_last());
    }
}

/// Order-keeping union by id keeps the ids of a list free of repeats.
pub proof fn lemma_append_unique_rels_distinct(target: Seq<Rel>, values: Seq<Rel>)
    requires
        ids_of(target).no_duplicates(),
    ensures
        ids_of(append_unique_rels(target, values)).no_duplicates(),
    decreases values.len(),
{
    if values.len() > 0 {
        lemma_append_unique_rels_distinct(target, values.drop_last());
        let t = append_unique_rels(target, values.drop_last());
        if !ids_of(t).contains(values.last().0) {
            assert(ids_of(t.push(values.last())) =~= ids_of(t).push(values.last().0));
        }
    }
}

} // verus!
