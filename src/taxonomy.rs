//! Classification of a detail page's tag containers into taxonomy buckets,
//! with stable relation ids.

use vstd::prelude::*;
use crate::text::{
    eq_lit,
    absolute_url, chars_of, lower_seq, normalize, normalize_url, same_chars, slice_chars,
    strip_end_of, strip_start_of, string_of, normalize_text,
};
use crate::ident::{find_char, lower_chars, strip_or_keep, take_until};
use crate::text::{has_prefix, strip_prefix, append_chars, slugify, slugify_identifier, number_in, parse_u32_from_text};
use crate::record::{
    lemma_append_unique_distinct, lemma_append_unique_rels_distinct,
    NhentaiRelation, Rel, append_unique, append_unique_rels, contains_id, contains_string, ids_of,
    push_all_unique, push_all_unique_relations, rels, strs,
};

verus! {

/// The relation category that a container label stands for.
pub open spec fn key_for_label(label: Seq<char>) -> Option<Seq<char>> {
    if label == "tags"@ || label == "tag"@ {
        Some("tags"@)
    } else if label == "artists"@ || label == "artist"@ {
        Some("artist"@)
    } else if label == "groups"@ || label == "group"@ {
        Some("group"@)
    } else if label == "parodies"@ || label == "parody"@ {
        Some("parody"@)
    } else if label == "characters"@ || label == "character"@ {
        Some("character"@)
    } else if label == "languages"@ || label == "language"@ {
        Some("language"@)
    } else if label == "categories"@ || label == "category"@ {
        Some("category"@)
    } else {
        None
    }
}

/// The relation category for a container label, singular or plural; `None`
/// for a label outside the table, such as the page count's.
pub fn relation_key_for_label(label: &str) -> (r: Option<&'static str>)
    ensures
        r matches Some(k) ==> key_for_label(label@) == Some(k@),
        r is None ==> key_for_label(label@) is None,
{
    let l = chars_of(label);
    if eq_lit(&l, "tags") || eq_lit(&l, "tag") {
        Some("tags")
    } else if eq_lit(&l, "artists") || eq_lit(&l, "artist") {
        Some("artist")
    } else if eq_lit(&l, "groups") || eq_lit(&l, "group") {
        Some("group")
    } else if eq_lit(&l, "parodies") || eq_lit(&l, "parody") {
        Some("parody")
    } else if eq_lit(&l, "characters") || eq_lit(&l, "character") {
        Some("character")
    } else if eq_lit(&l, "languages") || eq_lit(&l, "language") {
        Some("language")
    } else if eq_lit(&l, "categories") || eq_lit(&l, "category") {
        Some("category")
    } else {
        None
    }
}

/// The path of a link: made absolute, the site's origin taken off, and cut
/// before its query and its fragment.
pub open spec fn href_path(href: Seq<char>) -> Seq<char> {
    let n = absolute_url(href);
    let p = if has_prefix(n, "https://nhentai.net/"@) {
        strip_or_keep(n, "https://nhentai.net/"@)
    } else if has_prefix(n, "http://nhentai.net/"@) {
        strip_or_keep(n, "http://nhentai.net/"@)
    } else if has_prefix(n, "https://www.nhentai.net/"@) {
        strip_or_keep(n, "https://www.nhentai.net/"@)
    } else {
        strip_or_keep(n, "http://www.nhentai.net/"@)
    };
    take_until(take_until(p, '?'), '#')
}

/// The characters of `s` after its last `ch`, or all of `s`.
pub open spec fn after_last(s: Seq<char>, ch: char) -> Seq<char>
    decreases s.len(),
{
    if s.len() == 0 || s.last() == ch {
        Seq::empty()
    } else {
        after_last(s.drop_last(), ch).push(s.last())
    }
}

/// The first non-empty segment of a path.
pub open spec fn first_segment(p: Seq<char>) -> Option<Seq<char>> {
    let q = strip_start_of(p, '/');
    if q.len() == 0 {
        None
    } else {
        Some(take_until(q, '/'))
    }
}

/// The last non-empty segment of a path.
pub open spec fn last_segment(p: Seq<char>) -> Option<Seq<char>> {
    let q = strip_end_of(p, '/');
    if q.len() == 0 {
        None
    } else {
        Some(after_last(q, '/'))
    }
}

/// The relation category that a link names: its first path segment in lower
/// case, with `tag` stored as `tags`.
pub open spec fn key_from_href(href: Seq<char>) -> Option<Seq<char>> {
    match first_segment(href_path(href)) {
        Some(k) => if lower_seq(k) == "tag"@ {
            Some("tags"@)
        } else {
            Some(lower_seq(k))
        },
        None => None,
    }
}

/// The relation slug that a link names: its last path segment in lower case.
pub open spec fn slug_from_href(href: Seq<char>) -> Option<Seq<char>> {
    match last_segment(href_path(href)) {
        Some(s) => Some(lower_seq(s)),
        None => None,
    }
}

proof fn lemma_after_last(s: Seq<char>, ch: char)
    ensures
        after_last(s, ch).len() <= s.len(),
        after_last(s, ch) == s.subrange(s.len() - after_last(s, ch).len(), s.len() as int),
        after_last(s, ch).len() < s.len() ==> s[s.len() - after_last(s, ch).len() - 1] == ch,
        forall|k: int|
            s.len() - after_last(s, ch).len() <= k < s.len() ==> #[trigger] s[k] != ch,
    decreases s.len(),
{
    if s.len() > 0 && s.last() != ch {
        lemma_after_last(s.drop_last(), ch);
        let a = after_last(s, ch);
        assert(a =~= s.subrange(s.len() - a.len(), s.len() as int));
        assert forall|k: int| s.len() - a.len() <= k < s.len() implies #[trigger] s[k] != ch by {
            if k < s.len() - 1 {
                assert(s[k] == s.drop_last()[k]);
            }
        }
    } else {
        assert(after_last(s, ch) =~= s.subrange(s.len() as int, s.len() as int));
    }
}

/// The index just after the last `ch` in `v`, or zero.
fn after_last_index(v: &Vec<char>, ch: char) -> (r: usize)
    ensures
        r <= v.len(),
        v@.subrange(r as int, v.len() as int) == after_last(v@, ch),
{
    proof {
        lemma_after_last(v@, ch);
    }
    let ghost a = after_last(v@, ch);
    let mut j: usize = v.len();
    while j > 0 && v[j - 1] != ch
        invariant
            j <= v.len(),
            forall|k: int| j <= k < v.len() ==> v@[k] != ch,
            v.len() - a.len() <= j,
            a == after_last(v@, ch),
            a.len() <= v.len(),
            a == v@.subrange(v.len() - a.len(), v.len() as int),
            a.len() < v.len() ==> v@[v.len() - a.len() - 1] == ch,
        decreases j,
    {
        j = j - 1;
    }
    j
}

fn strip_start_chars(v: &Vec<char>, ch: char) -> (r: Vec<char>)
    ensures
        r@ == strip_start_of(v@, ch),
{
    let mut i: usize = 0;
    while i < v.len() && v[i] == ch
        invariant
            i <= v.len(),
            forall|k: int| 0 <= k < i ==> #[trigger] v@[k] == ch,
        decreases v.len() - i,
    {
        i = i + 1;
    }
    proof {
        lemma_strip_start_at(v@, ch, i as int);
    }
    slice_chars(v, i, v.len())
}

proof fn lemma_strip_start_at(s: Seq<char>, ch: char, i: int)
    requires
        0 <= i <= s.len(),
        forall|k: int| 0 <= k < i ==> #[trigger] s[k] == ch,
        i == s.len() || s[i] != ch,
    ensures
        strip_start_of(s, ch) == s.subrange(i, s.len() as int),
    decreases i,
{
    if i > 0 {
        assert(s.drop_first().subrange(i - 1, s.drop_first().len() as int) =~= s.subrange(
            i,
            s.len() as int,
        ));
        assert forall|k: int| 0 <= k < i - 1 implies #[trigger] s.drop_first()[k] == ch by {
            assert(s.drop_first()[k] == s[k + 1]);
        }
        lemma_strip_start_at(s.drop_first(), ch, i - 1);
    } else {
        assert(s.subrange(0, s.len() as int) =~= s);
    }
}

proof fn lemma_strip_end_at(s: Seq<char>, ch: char, j: int)
    requires
        0 <= j <= s.len(),
        forall|k: int| j <= k < s.len() ==> #[trigger] s[k] == ch,
        j == 0 || s[j - 1] != ch,
    ensures
        strip_end_of(s, ch) == s.subrange(0, j),
    decreases s.len() - j,
{
    if j < s.len() {
        assert(s.drop_last().subrange(0, j) =~= s.subrange(0, j));
        lemma_strip_end_at(s.drop_last(), ch, j);
    } else {
        assert(s.subrange(0, j) =~= s);
    }
}

fn strip_end_chars(v: &Vec<char>, ch: char) -> (r: Vec<char>)
    ensures
        r@ == strip_end_of(v@, ch),
{
    let mut j: usize = v.len();
    while j > 0 && v[j - 1] == ch
        invariant
            j <= v.len(),
            forall|k: int| j <= k < v.len() ==> #[trigger] v@[k] == ch,
        decreases j,
    {
        j = j - 1;
    }
    proof {
        lemma_strip_end_at(v@, ch, j as int);
    }
    slice_chars(v, 0, j)
}

/// The path of `href` as `href_path` gives it.
fn href_path_chars(href: &str) -> (r: Vec<char>)
    ensures
        r@ == href_path(href@),
{
    let ns = normalize_url(href);
    let n = chars_of(ns.as_str());
    let p = if let Some(rest) = strip_prefix(&n, "https://nhentai.net/") {
        rest
    } else if let Some(rest) = strip_prefix(&n, "http://nhentai.net/") {
        rest
    } else if let Some(rest) = strip_prefix(&n, "https://www.nhentai.net/") {
        rest
    } else if let Some(rest) = strip_prefix(&n, "http://www.nhentai.net/") {
        rest
    } else {
        n
    };
    let q_end = find_char(&p, '?');
    let q = slice_chars(&p, 0, q_end);
    let f_end = find_char(&q, '#');
    slice_chars(&q, 0, f_end)
}

/// The relation category that a link names, from its first path segment.
pub fn parse_relation_key_from_href(href: &str) -> (r: Option<String>)
    ensures
        r matches Some(k) ==> key_from_href(href@) == Some(k@),
        r is None ==> key_from_href(href@) is None,
{
    let p = href_path_chars(href);
    let q = strip_start_chars(&p, '/');
    if q.len() == 0 {
        return None;
    }
    let end = find_char(&q, '/');
    let seg = slice_chars(&q, 0, end);
    let key = lower_chars(&seg);
    if eq_lit(&key, "tag") {
        Some(string_of(&chars_of("tags")))
    } else {
        Some(string_of(&key))
    }
}

/// The relation slug that a link names, from its last path segment.
pub fn parse_relation_slug_from_href(href: &str) -> (r: Option<String>)
    ensures
        r matches Some(s) ==> slug_from_href(href@) == Some(s@),
        r is None ==> slug_from_href(href@) is None,
{
    let p = href_path_chars(href);
    let q = strip_end_chars(&p, '/');
    if q.len() == 0 {
        return None;
    }
    let start = after_last_index(&q, '/');
    let seg = slice_chars(&q, start, q.len());
    Some(string_of(&lower_chars(&seg)))
}


/// A child of a tag container, as far as its label is read from it.
pub enum LabelNode {
    /// A text node.
    Text(String),
    /// An element: its tag name, its classes and its text.
    Element { tag: String, classes: Vec<String>, text: String },
    /// Anything else, such as a comment.
    Other,
}

/// A tag link in a container: the text of its first `span.name`, its own
/// text, and its `href`.
pub struct TagAnchor {
    pub name_text: Option<String>,
    pub text: String,
    pub href: Option<String>,
}

/// A tag container: its children, and its tag links in document order.
pub struct TagContainer {
    pub children: Vec<LabelNode>,
    pub anchors: Vec<TagAnchor>,
}

/// A label as written, made comparable: words joined by single spaces, the
/// colons at its end taken off, in lower case.
pub open spec fn label_text(t: Seq<char>) -> Seq<char> {
    lower_seq(strip_end_of(normalize(t), ':'))
}

pub open spec fn has_class(classes: Seq<Seq<char>>, c: Seq<char>) -> bool {
    classes.contains(c)
}

/// The label that one child gives: a text node's text, or the text of a
/// `span` of class `name`; empty for anything else.
pub open spec fn node_label(n: LabelNode) -> Seq<char> {
    match n {
        LabelNode::Text(t) => label_text(t@),
        LabelNode::Element { tag, classes, text } => if tag@ == "span"@ && has_class(
            strs(classes@),
            "name"@,
        ) {
            label_text(text@)
        } else {
            Seq::empty()
        },
        LabelNode::Other => Seq::empty(),
    }
}

/// The first non-empty label among the children.
pub open spec fn first_label(ns: Seq<LabelNode>) -> Option<Seq<char>>
    decreases ns.len(),
{
    if ns.len() == 0 {
        None
    } else if node_label(ns[0]).len() > 0 {
        Some(node_label(ns[0]))
    } else {
        first_label(ns.drop_first())
    }
}

fn label_text_chars(t: &String) -> (r: Vec<char>)
    ensures
        r@ == label_text(t@),
{
    let n = normalize_text(t.as_str());
    let nv = chars_of(n.as_str());
    let stripped = strip_end_chars(&nv, ':');
    lower_chars(&stripped)
}

fn has_class_exec(classes: &Vec<String>, c: &str) -> (r: bool)
    ensures
        r == has_class(strs(classes@), c@),
{
    let w = chars_of(c);
    let mut i: usize = 0;
    while i < classes.len()
        invariant
            i <= classes.len(),
            w@ == c@,
            forall|k: int| 0 <= k < i ==> classes@[k]@ != c@,
        decreases classes.len() - i,
    {
        let cv = chars_of(classes[i].as_str());
        if same_chars(&cv, &w) {
            assert(strs(classes@)[i as int] == c@);
            return true;
        }
        i = i + 1;
    }
    proof {
        if strs(classes@).contains(c@) {
            let k = choose|k: int| 0 <= k < strs(classes@).len() && strs(classes@)[k] == c@;
            assert(classes@[k]@ == c@);
        }
    }
    false
}

fn node_label_chars(n: &LabelNode) -> (r: Vec<char>)
    ensures
        r@ == node_label(*n),
{
    match n {
        LabelNode::Text(t) => label_text_chars(t),
        LabelNode::Element { tag, classes, text } => {
            let tv = chars_of(tag.as_str());
            if eq_lit(&tv, "span") && has_class_exec(classes, "name") {
                label_text_chars(text)
            } else {
                Vec::new()
            }
        },
        LabelNode::Other => Vec::new(),
    }
}

/// The label of a container: the first child that gives a non-empty one.
pub fn parse_tag_container_label(children: &Vec<LabelNode>) -> (r: Option<String>)
    ensures
        r matches Some(l) ==> first_label(children@) == Some(l@),
        r is None ==> first_label(children@) is None,
{
    let mut i: usize = 0;
    assert(children@.subrange(0, children.len() as int) =~= children@);
    while i < children.len()
        invariant
            i <= children.len(),
            first_label(children@) == first_label(
                children@.subrange(i as int, children.len() as int),
            ),
        decreases children.len() - i,
    {
        let l = node_label_chars(&children[i]);
        proof {
            let rest = children@.subrange(i as int, children.len() as int);
            assert(rest[0] == children@[i as int]);
            assert(rest.drop_first() =~= children@.subrange(i as int + 1, children.len() as int));
        }
        if l.len() > 0 {
            return Some(string_of(&l));
        }
        i = i + 1;
    }
    None
}

/// The display value of a tag link: its name's text, else its own text,
/// words joined by single spaces.
pub open spec fn anchor_value(a: TagAnchor) -> Seq<char> {
    let n = match a.name_text {
        Some(t) => normalize(t@),
        None => Seq::empty(),
    };
    if n.len() == 0 {
        normalize(a.text@)
    } else {
        n
    }
}

/// The `href` of a tag link; empty without one.
pub open spec fn href_text(a: TagAnchor) -> Seq<char> {
    match a.href {
        Some(h) => h@,
        None => ""@,
    }
}

pub open spec fn dashes_to_spaces(s: Seq<char>) -> Seq<char> {
    s.map_values(|c: char| if c == '-' { ' ' } else { c })
}

/// The stable id of a relation: `nhentai-<category>:<slug>`.
pub open spec fn relation_id(key: Seq<char>, slug: Seq<char>) -> Seq<char> {
    "nhentai-"@ + key + ":"@ + slug
}

/// The category of a tag link: from its link, else from its container's label.
pub open spec fn anchor_key(a: TagAnchor, label: Seq<char>) -> Seq<char> {
    match key_from_href(href_text(a)) {
        Some(k) => k,
        None => match key_for_label(label) {
            Some(k) => k,
            None => Seq::empty(),
        },
    }
}

/// The slug of a tag link: from its link, else from its display value.
pub open spec fn anchor_slug(a: TagAnchor) -> Option<Seq<char>> {
    match slug_from_href(href_text(a)) {
        Some(s) => Some(s),
        None => slugify(anchor_value(a)),
    }
}

/// The relation that a tag link in a container with `label` stands for:
/// none without a category or a slug; named by its display value, else by
/// its slug with dashes as spaces.
pub open spec fn anchor_relation(a: TagAnchor, label: Seq<char>) -> Option<Rel> {
    let key = anchor_key(a, label);
    if key.len() == 0 || anchor_slug(a) is None {
        None
    } else {
        let slug = anchor_slug(a)->0;
        let v = anchor_value(a);
        Some((relation_id(key, slug), if v.len() == 0 { dashes_to_spaces(slug) } else { v }))
    }
}

/// What the tag links of a container give: their distinct non-empty values,
/// their distinct relation ids, and their relations distinct by id.
pub open spec fn scan_anchors(anchors: Seq<TagAnchor>, label: Seq<char>) -> (
    Seq<Seq<char>>,
    Seq<Seq<char>>,
    Seq<Rel>,
)
    decreases anchors.len(),
{
    if anchors.len() == 0 {
        (Seq::empty(), Seq::empty(), Seq::empty())
    } else {
        let (vals, ids, rs) = scan_anchors(anchors.drop_last(), label);
        let a = anchors.last();
        let v = anchor_value(a);
        let vals2 = if v.len() > 0 && !vals.contains(v) {
            vals.push(v)
        } else {
            vals
        };
        match anchor_relation(a, label) {
            None => (vals2, ids, rs),
            Some(r) => (
                vals2,
                if ids.contains(r.0) {
                    ids
                } else {
                    ids.push(r.0)
                },
                if ids_of(rs).contains(r.0) {
                    rs
                } else {
                    rs.push(r)
                },
            ),
        }
    }
}

fn dashes_to_spaces_chars(v: &Vec<char>) -> (r: Vec<char>)
    ensures
        r@ == dashes_to_spaces(v@),
{
    let mut out: Vec<char> = Vec::new();
    let mut i: usize = 0;
    while i < v.len()
        invariant
            i <= v.len(),
            out.len() == i,
            forall|k: int| 0 <= k < i ==> out@[k] == (if v@[k] == '-' { ' ' } else { v@[k] }),
        decreases v.len() - i,
    {
        let c = v[i];
        out.push(if c == '-' { ' ' } else { c });
        i = i + 1;
    }
    assert(out@ =~= dashes_to_spaces(v@));
    out
}

fn anchor_value_chars(a: &TagAnchor) -> (r: Vec<char>)
    ensures
        r@ == anchor_value(*a),
{
    let n: Vec<char> = match &a.name_text {
        Some(t) => {
            let s = normalize_text(t.as_str());
            chars_of(s.as_str())
        },
        None => Vec::new(),
    };
    if n.len() == 0 {
        let s = normalize_text(a.text.as_str());
        chars_of(s.as_str())
    } else {
        n
    }
}

fn anchor_relation_exec(a: &TagAnchor, label: &String, value: &Vec<char>) -> (r: Option<
    NhentaiRelation,
>)
    requires
        value@ == anchor_value(*a),
    ensures
        r matches Some(x) ==> anchor_relation(*a, label@) == Some((x.id@, x.name@)),
        r is None ==> anchor_relation(*a, label@) is None,
{
    let href: &str = match &a.href {
        Some(h) => h.as_str(),
        None => "",
    };
    let key: Vec<char> = match parse_relation_key_from_href(href) {
        Some(k) => chars_of(k.as_str()),
        None => match relation_key_for_label(label.as_str()) {
            Some(k) => chars_of(k),
            None => Vec::new(),
        },
    };
    if key.len() == 0 {
        return None;
    }
    let slug: Vec<char> = match parse_relation_slug_from_href(href) {
        Some(s) => chars_of(s.as_str()),
        None => {
            let vs = string_of(value);
            match slugify_identifier(vs.as_str()) {
                Some(s) => chars_of(s.as_str()),
                None => return None,
            }
        },
    };
    let mut id = chars_of("nhentai-");
    append_chars(&mut id, &key);
    append_chars(&mut id, &chars_of(":"));
    append_chars(&mut id, &slug);
    let name = if value.len() == 0 {
        dashes_to_spaces_chars(&slug)
    } else {
        slice_chars(value, 0, value.len())
    };
    assert(value@.subrange(0, value.len() as int) =~= value@);
    Some(NhentaiRelation { id: string_of(&id), name: string_of(&name) })
}

/// What the tag links of a container give, as `scan_anchors` states it.
fn scan_anchors_exec(anchors: &Vec<TagAnchor>, label: &String) -> (r: (
    Vec<String>,
    Vec<String>,
    Vec<NhentaiRelation>,
))
    ensures
        (strs(r.0@), strs(r.1@), rels(r.2@)) == scan_anchors(anchors@, label@),
{
    let mut values: Vec<String> = Vec::new();
    let mut ids: Vec<String> = Vec::new();
    let mut details: Vec<NhentaiRelation> = Vec::new();
    let mut i: usize = 0;
    assert(strs(values@) =~= Seq::<Seq<char>>::empty());
    assert(strs(ids@) =~= Seq::<Seq<char>>::empty());
    assert(rels(details@) =~= Seq::<Rel>::empty());
    while i < anchors.len()
        invariant
            i <= anchors.len(),
            (strs(values@), strs(ids@), rels(details@)) == scan_anchors(
                anchors@.subrange(0, i as int),
                label@,
            ),
        decreases anchors.len() - i,
    {
        let a = &anchors[i];
        proof {
            let p = anchors@.subrange(0, i as int + 1);
            assert(p.drop_last() =~= anchors@.subrange(0, i as int));
            assert(p.last() == *a);
        }
        let v = anchor_value_chars(a);
        let vs = string_of(&v);
        if v.len() > 0 && !contains_string(&values, &vs) {
            values.push(vs);
            assert(strs(values@) =~= strs(values@.drop_last()).push(v@));
        }
        match anchor_relation_exec(a, label, &v) {
            Some(rel) => {
                if !contains_string(&ids, &rel.id) {
                    ids.push(rel.id.clone());
                    assert(strs(ids@) =~= strs(ids@.drop_last()).push(rel.id@));
                }
                if !contains_id(&details, &rel.id) {
                    let ghost before = details@;
                    details.push(rel);
                    assert(rels(details@) =~= rels(before).push((rel.id@, rel.name@)));
                }
            },
            None => {},
        }
        i = i + 1;
    }
    assert(anchors@.subrange(0, anchors.len() as int) =~= anchors@);
    (values, ids, details)
}


/// The taxonomy of a detail page, bucket by bucket.
pub struct TagBuckets {
    pub tags: Vec<String>,
    pub artists: Vec<String>,
    pub groups: Vec<String>,
    pub parodies: Vec<String>,
    pub characters: Vec<String>,
    pub languages: Vec<String>,
    pub categories: Vec<String>,
    pub pages: Option<u32>,
    pub people_ids: Vec<String>,
    pub tag_ids: Vec<String>,
    pub people_details: Vec<NhentaiRelation>,
    pub tag_details: Vec<NhentaiRelation>,
    pub parody_details: Vec<NhentaiRelation>,
}

/// The taxonomy buckets with every string as its characters.
pub struct BucketsView {
    pub tags: Seq<Seq<char>>,
    pub artists: Seq<Seq<char>>,
    pub groups: Seq<Seq<char>>,
    pub parodies: Seq<Seq<char>>,
    pub characters: Seq<Seq<char>>,
    pub languages: Seq<Seq<char>>,
    pub categories: Seq<Seq<char>>,
    pub pages: Option<u32>,
    pub people_ids: Seq<Seq<char>>,
    pub tag_ids: Seq<Seq<char>>,
    pub people_details: Seq<Rel>,
    pub tag_details: Seq<Rel>,
    pub parody_details: Seq<Rel>,
}

impl View for TagBuckets {
    type V = BucketsView;

    open spec fn view(&self) -> BucketsView {
        BucketsView {
            tags: strs(self.tags@),
            artists: strs(self.artists@),
            groups: strs(self.groups@),
            parodies: strs(self.parodies@),
            characters: strs(self.characters@),
            languages: strs(self.languages@),
            categories: strs(self.categories@),
            pages: self.pages,
            people_ids: strs(self.people_ids@),
            tag_ids: strs(self.tag_ids@),
            people_details: rels(self.people_details@),
            tag_details: rels(self.tag_details@),
            parody_details: rels(self.parody_details@),
        }
    }
}

/// Buckets with nothing in them.
pub open spec fn empty_buckets() -> BucketsView {
    BucketsView {
        tags: Seq::empty(),
        artists: Seq::empty(),
        groups: Seq::empty(),
        parodies: Seq::empty(),
        characters: Seq::empty(),
        languages: Seq::empty(),
        categories: Seq::empty(),
        pages: None,
        people_ids: Seq::empty(),
        tag_ids: Seq::empty(),
        people_details: Seq::empty(),
        tag_details: Seq::empty(),
        parody_details: Seq::empty(),
    }
}

/// Whether a label is the plural or the singular of a bucket's name.
pub open spec fn is_label(l: Seq<char>, plural: Seq<char>, singular: Seq<char>) -> bool {
    l == plural || l == singular
}

/// The buckets after one more container: its values and relations go where
/// its label says; `pages` sets the page count from its first value; a
/// container without a label, or with neither values nor relation ids, or
/// with another label, changes nothing.
pub open spec fn route(b: BucketsView, c: TagContainer) -> BucketsView {
    match first_label(c.children@) {
        None => b,
        Some(label) => {
            let (vals, ids, rs) = scan_anchors(c.anchors@, label);
            if vals.len() == 0 && ids.len() == 0 {
                b
            } else if is_label(label, "tags"@, "tag"@) {
                BucketsView {
                    tags: append_unique(b.tags, vals),
                    tag_ids: append_unique(b.tag_ids, ids),
                    tag_details: append_unique_rels(b.tag_details, rs),
                    ..b
                }
            } else if is_label(label, "artists"@, "artist"@) {
                BucketsView {
                    artists: append_unique(b.artists, vals),
                    people_ids: append_unique(b.people_ids, ids),
                    people_details: append_unique_rels(b.people_details, rs),
                    ..b
                }
            } else if is_label(label, "groups"@, "group"@) {
                BucketsView {
                    groups: append_unique(b.groups, vals),
                    people_ids: append_unique(b.people_ids, ids),
                    people_details: append_unique_rels(b.people_details, rs),
                    ..b
                }
            } else if is_label(label, "parodies"@, "parody"@) {
                BucketsView {
                    parodies: append_unique(b.parodies, vals),
                    parody_details: append_unique_rels(b.parody_details, rs),
                    ..b
                }
            } else if is_label(label, "characters"@, "character"@) {
                BucketsView {
                    characters: append_unique(b.characters, vals),
                    people_ids: append_unique(b.people_ids, ids),
                    people_details: append_unique_rels(b.people_details, rs),
                    ..b
                }
            } else if is_label(label, "languages"@, "language"@) {
                BucketsView {
                    languages: append_unique(b.languages, vals),
                    tag_ids: append_unique(b.tag_ids, ids),
                    tag_details: append_unique_rels(b.tag_details, rs),
                    ..b
                }
            } else if is_label(label, "categories"@, "category"@) {
                BucketsView {
                    categories: append_unique(b.categories, vals),
                    tag_ids: append_unique(b.tag_ids, ids),
                    tag_details: append_unique_rels(b.tag_details, rs),
                    ..b
                }
            } else if label == "pages"@ {
                BucketsView {
                    pages: if vals.len() > 0 {
                        number_in(vals[0])
                    } else {
                        None
                    },
                    ..b
                }
            } else {
                b
            }
        },
    }
}

/// The buckets that the containers of a page give, taken in document order.
pub open spec fn classify(cs: Seq<TagContainer>) -> BucketsView
    decreases cs.len(),
{
    if cs.len() == 0 {
        empty_buckets()
    } else {
        route(classify(cs.drop_last()), cs.last())
    }
}

fn route_exec(out: &mut TagBuckets, c: &TagContainer)
    ensures
        final(out)@ == route(old(out)@, *c),
{
    let label = match parse_tag_container_label(&c.children) {
        Some(l) => l,
        None => return ,
    };
    let (values, ids, details) = scan_anchors_exec(&c.anchors, &label);
    if values.len() == 0 && ids.len() == 0 {
        return ;
    }
    let l = chars_of(label.as_str());
    if eq_lit(&l, "tags") || eq_lit(&l, "tag") {
        push_all_unique(&mut out.tags, values);
        push_all_unique(&mut out.tag_ids, ids);
        push_all_unique_relations(&mut out.tag_details, details);
    } else if eq_lit(&l, "artists") || eq_lit(&l, "artist") {
        push_all_unique(&mut out.artists, values);
        push_all_unique(&mut out.people_ids, ids);
        push_all_unique_relations(&mut out.people_details, details);
    } else if eq_lit(&l, "groups") || eq_lit(&l, "group") {
        push_all_unique(&mut out.groups, values);
        push_all_unique(&mut out.people_ids, ids);
        push_all_unique_relations(&mut out.people_details, details);
    } else if eq_lit(&l, "parodies") || eq_lit(&l, "parody") {
        push_all_unique(&mut out.parodies, values);
        push_all_unique_relations(&mut out.parody_details, details);
    } else if eq_lit(&l, "characters") || eq_lit(&l, "character") {
        push_all_unique(&mut out.characters, values);
        push_all_unique(&mut out.people_ids, ids);
        push_all_unique_relations(&mut out.people_details, details);
    } else if eq_lit(&l, "languages") || eq_lit(&l, "language") {
        push_all_unique(&mut out.languages, values);
        push_all_unique(&mut out.tag_ids, ids);
        push_all_unique_relations(&mut out.tag_details, details);
    } else if eq_lit(&l, "categories") || eq_lit(&l, "category") {
        push_all_unique(&mut out.categories, values);
        push_all_unique(&mut out.tag_ids, ids);
        push_all_unique_relations(&mut out.tag_details, details);
    } else if eq_lit(&l, "pages") {
        out.pages = if values.len() > 0 {
            parse_u32_from_text(values[0].as_str())
        } else {
            None
        };
    }
}

/// The taxonomy of a detail page from its tag containers in document order:
/// each labelled container's values and relations go to the buckets of its
/// label, singular or plural; `tags`, `languages` and `categories` share the
/// tag relations, `artists`, `groups` and `characters` the people relations,
/// and `parodies` has its own; `pages` gives the page count.
pub fn parse_tag_buckets(containers: &Vec<TagContainer>) -> (r: TagBuckets)
    ensures
        r@ == classify(containers@),
{
    let mut out = TagBuckets {
        tags: Vec::new(),
        artists: Vec::new(),
        groups: Vec::new(),
        parodies: Vec::new(),
        characters: Vec::new(),
        languages: Vec::new(),
        categories: Vec::new(),
        pages: None,
        people_ids: Vec::new(),
        tag_ids: Vec::new(),
        people_details: Vec::new(),
        tag_details: Vec::new(),
        parody_details: Vec::new(),
    };
    assert(out@ =~= empty_buckets()) by {
        assert(strs(Seq::<String>::empty()) =~= Seq::<Seq<char>>::empty());
        assert(rels(Seq::<NhentaiRelation>::empty()) =~= Seq::<Rel>::empty());
    }
    let mut i: usize = 0;
    while i < containers.len()
        invariant
            i <= containers.len(),
            out@ == classify(containers@.subrange(0, i as int)),
        decreases containers.len() - i,
    {
        proof {
            let p = containers@.subrange(0, i as int + 1);
            assert(p.drop_last() =~= containers@.subrange(0, i as int));
            assert(p.last() == containers@[i as int]);
        }
        route_exec(&mut out, &containers[i]);
        i = i + 1;
    }
    assert(containers@.subrange(0, containers.len() as int) =~= containers@);
    out
}


proof fn lemma_strip_start_shape(s: Seq<char>, ch: char)
    ensures
        strip_start_of(s, ch).len() <= s.len(),
        strip_start_of(s, ch) == s.subrange(
            s.len() - strip_start_of(s, ch).len(),
            s.len() as int,
        ),
        forall|k: int| 0 <= k < s.len() - strip_start_of(s, ch).len() ==> #[trigger] s[k] == ch,
        strip_start_of(s, ch).len() > 0 ==> strip_start_of(s, ch)[0] != ch,
    decreases s.len(),
{
    if s.len() > 0 && s[0] == ch {
        lemma_strip_start_shape(s.drop_first(), ch);
        let q = strip_start_of(s, ch);
        assert(q =~= s.subrange(s.len() - q.len(), s.len() as int));
        assert forall|k: int| 0 <= k < s.len() - q.len() implies #[trigger] s[k] == ch by {
            if k > 0 {
                assert(s[k] == s.drop_first()[k - 1]);
            }
        }
    } else {
        assert(s =~= s.subrange(0, s.len() as int));
    }
}

proof fn lemma_strip_end_shape(s: Seq<char>, ch: char)
    ensures
        strip_end_of(s, ch).len() <= s.len(),
        strip_end_of(s, ch) == s.subrange(0, strip_end_of(s, ch).len() as int),
        strip_end_of(s, ch).len() > 0 ==> s[strip_end_of(s, ch).len() - 1] != ch,
    decreases s.len(),
{
    if s.len() > 0 && s.last() == ch {
        lemma_strip_end_shape(s.drop_last(), ch);
        let q = strip_end_of(s, ch);
        assert(q =~= s.subrange(0, q.len() as int));
    } else {
        assert(s =~= s.subrange(0, s.len() as int));
    }
}

proof fn lemma_segments_together(p: Seq<char>)
    requires
        last_segment(p) is Some,
    ensures
        first_segment(p) matches Some(k) && k.len() > 0,
{
    lemma_strip_start_shape(p, '/');
    lemma_strip_end_shape(p, '/');
    let e = strip_end_of(p, '/');
    let q = strip_start_of(p, '/');
    let k = e.len() - 1;
    assert(p[k] != '/');
    if q.len() == 0 {
        assert(p[k] == '/');
    }
    assert(take_until(q, '/') == seq![q[0]] + take_until(q.drop_first(), '/'));
}

/// Relation ids follow the link alone: two tag links whose `href` is the same
/// and names a path segment get relations with the same id, whatever their
/// display text (white space included) and whatever their containers' labels.
pub proof fn relation_id_follows_href(a: TagAnchor, b: TagAnchor, la: Seq<char>, lb: Seq<char>)
    requires
        href_text(a) == href_text(b),
        slug_from_href(href_text(a)) is Some,
    ensures
        anchor_relation(a, la) is Some,
        anchor_relation(b, lb) is Some,
        (anchor_relation(a, la)->0).0 == (anchor_relation(b, lb)->0).0,
        (anchor_relation(a, la)->0).0 == relation_id(
            key_from_href(href_text(a))->0,
            slug_from_href(href_text(a))->0,
        ),
{
    let p = href_path(href_text(a));
    lemma_segments_together(p);
    let k = first_segment(p)->0;
    assert(lower_seq(k).len() == k.len());
    assert(key_from_href(href_text(a)) is Some);
    assert(key_from_href(href_text(a))->0.len() > 0) by {
        if lower_seq(k) == "tag"@ {
            reveal_strlit("tags");
        }
    }
}

/// Every list that classification builds is free of repeats: values and
/// relation ids by equality, relations by id.
pub proof fn classify_distinct(cs: Seq<TagContainer>)
    ensures
        classify(cs).tags.no_duplicates(),
        classify(cs).artists.no_duplicates(),
        classify(cs).groups.no_duplicates(),
        classify(cs).parodies.no_duplicates(),
        classify(cs).characters.no_duplicates(),
        classify(cs).languages.no_duplicates(),
        classify(cs).categories.no_duplicates(),
        classify(cs).people_ids.no_duplicates(),
        classify(cs).tag_ids.no_duplicates(),
        ids_of(classify(cs).people_details).no_duplicates(),
        ids_of(classify(cs).tag_details).no_duplicates(),
        ids_of(classify(cs).parody_details).no_duplicates(),
    decreases cs.len(),
{
    if cs.len() == 0 {
        assert(ids_of(Seq::<Rel>::empty()) =~= Seq::<Seq<char>>::empty());
    } else {
        classify_distinct(cs.drop_last());
        let b = classify(cs.drop_last());
        let c = cs.last();
        if let Some(label) = first_label(c.children@) {
            let (vals, ids, rs) = scan_anchors(c.anchors@, label);
            lemma_append_unique_distinct(b.tags, vals);
            lemma_append_unique_distinct(b.artists, vals);
            lemma_append_unique_distinct(b.groups, vals);
            lemma_append_unique_distinct(b.parodies, vals);
            lemma_append_unique_distinct(b.characters, vals);
            lemma_append_unique_distinct(b.languages, vals);
            lemma_append_unique_distinct(b.categories, vals);
            lemma_append_unique_distinct(b.people_ids, ids);
            lemma_append_unique_distinct(b.tag_ids, ids);
            lemma_append_unique_rels_distinct(b.people_details, rs);
            lemma_append_unique_rels_distinct(b.tag_details, rs);
            lemma_append_unique_rels_distinct(b.parody_details, rs);
        }
    }
}


/// Whether two children of a container hold the same content.
pub open spec fn same_node(a: LabelNode, b: LabelNode) -> bool {
    match (a, b) {
        (LabelNode::Text(x), LabelNode::Text(y)) => x@ == y@,
        (
            LabelNode::Element { tag: t1, classes: c1, text: x1 },
            LabelNode::Element { tag: t2, classes: c2, text: x2 },
        ) => t1@ == t2@ && strs(c1@) == strs(c2@) && x1@ == x2@,
        (LabelNode::Other, LabelNode::Other) => true,
        _ => false,
    }
}

/// Whether two tag links hold the same content.
pub open spec fn same_anchor(a: TagAnchor, b: TagAnchor) -> bool {
    crate::ident::opt_view(a.name_text) == crate::ident::opt_view(b.name_text) && a.text@
        == b.text@ && crate::ident::opt_view(a.href) == crate::ident::opt_view(b.href)
}

/// Whether two containers hold the same content, child by child and link by link.
pub open spec fn same_container(a: TagContainer, b: TagContainer) -> bool {
    &&& a.children.len() == b.children.len()
    &&& forall|k: int|
        0 <= k < a.children.len() ==> same_node(#[trigger] a.children@[k], b.children@[k])
    &&& a.anchors.len() == b.anchors.len()
    &&& forall|j: int|
        0 <= j < a.anchors.len() ==> same_anchor(#[trigger] a.anchors@[j], b.anchors@[j])
}

proof fn lemma_first_label_same(a: Seq<LabelNode>, b: Seq<LabelNode>)
    requires
        a.len() == b.len(),
        forall|k: int| 0 <= k < a.len() ==> same_node(#[trigger] a[k], b[k]),
    ensures
        first_label(a) == first_label(b),
    decreases a.len(),
{
    if a.len() > 0 {
        assert(same_node(a[0], b[0]));
        assert(node_label(a[0]) == node_label(b[0]));
        assert forall|k: int| 0 <= k < a.drop_first().len() implies same_node(
            #[trigger] a.drop_first()[k],
            b.drop_first()[k],
        ) by {
            assert(same_node(a[k + 1], b[k + 1]));
        }
        lemma_first_label_same(a.drop_first(), b.drop_first());
    }
}

proof fn lemma_anchor_same(a: TagAnchor, b: TagAnchor, label: Seq<char>)
    requires
        same_anchor(a, b),
    ensures
        anchor_value(a) == anchor_value(b),
        anchor_relation(a, label) == anchor_relation(b, label),
{
    assert(href_text(a) == href_text(b));
    assert(anchor_value(a) == anchor_value(b)) by {
        if a.name_text is Some {
            assert(normalize(a.name_text->0@) == normalize(b.name_text->0@));
        }
    }
}

proof fn lemma_scan_anchors_same(a: Seq<TagAnchor>, b: Seq<TagAnchor>, label: Seq<char>)
    requires
        a.len() == b.len(),
        forall|j: int| 0 <= j < a.len() ==> same_anchor(#[trigger] a[j], b[j]),
    ensures
        scan_anchors(a, label) == scan_anchors(b, label),
    decreases a.len(),
{
    if a.len() > 0 {
        assert forall|j: int| 0 <= j < a.drop_last().len() implies same_anchor(
            #[trigger] a.drop_last()[j],
            b.drop_last()[j],
        ) by {
            assert(same_anchor(a[j], b[j]));
        }
        lemma_scan_anchors_same(a.drop_last(), b.drop_last(), label);
        lemma_anchor_same(a.last(), b.last(), label);
    }
}

/// Containers with the same content, in the same order, give the same buckets.
pub proof fn lemma_classify_same(a: Seq<TagContainer>, b: Seq<TagContainer>)
    requires
        a.len() == b.len(),
        forall|i: int| 0 <= i < a.len() ==> same_container(#[trigger] a[i], b[i]),
    ensures
        classify(a) == classify(b),
    decreases a.len(),
{
    if a.len() > 0 {
        assert forall|i: int| 0 <= i < a.drop_last().len() implies same_container(
            #[trigger] a.drop_last()[i],
            b.drop_last()[i],
        ) by {
            assert(same_container(a[i], b[i]));
        }
        lemma_classify_same(a.drop_last(), b.drop_last());
        let (x, y) = (a.last(), b.last());
        assert(same_container(x, y));
        lemma_first_label_same(x.children@, y.children@);
        if let Some(label) = first_label(x.children@) {
            lemma_scan_anchors_same(x.anchors@, y.anchors@, label);
        }
    }
}


/// Whether no container is labelled `pages`.
pub open spec fn no_page_count_label(cs: Seq<TagContainer>) -> bool {
    forall|i: int| 0 <= i < cs.len() ==> first_label((#[trigger] cs[i]).children@) != Some("pages"@)
}

/// Without a container labelled `pages`, classification sets no page count.
pub proof fn lemma_no_page_count(cs: Seq<TagContainer>)
    requires
        no_page_count_label(cs),
    ensures
        classify(cs).pages is None,
    decreases cs.len(),
{
    if cs.len() > 0 {
        assert forall|i: int| 0 <= i < cs.drop_last().len() implies first_label(
            (#[trigger] cs.drop_last()[i]).children@,
        ) != Some("pages"@) by {
            assert(cs.drop_last()[i] == cs[i]);
        }
        lemma_no_page_count(cs.drop_last());
        assert(first_label(cs.last().children@) != Some("pages"@));
    }
}


/// Whether two containers differ at most in the display text of their tag
/// links, every link having an `href` that names a path segment.
pub open spec fn same_links(a: TagContainer, b: TagContainer) -> bool {
    &&& a.children.len() == b.children.len()
    &&& forall|k: int|
        0 <= k < a.children.len() ==> same_node(#[trigger] a.children@[k], b.children@[k])
    &&& a.anchors.len() == b.anchors.len()
    &&& forall|j: int|
        0 <= j < a.anchors.len() ==> href_text(#[trigger] a.anchors@[j]) == href_text(
            b.anchors@[j],
        ) && slug_from_href(href_text(a.anchors@[j])) is Some
}

proof fn lemma_ids_of_push(rs: Seq<Rel>, r: Rel)
    ensures
        ids_of(rs.push(r)) == ids_of(rs).push(r.0),
{
    assert(ids_of(rs.push(r)) =~= ids_of(rs).push(r.0));
}

/// Order-keeping union by id keeps ids that follow from the ids alone.
proof fn lemma_append_unique_rels_ids(t1: Seq<Rel>, t2: Seq<Rel>, r1: Seq<Rel>, r2: Seq<Rel>)
    requires
        ids_of(t1) == ids_of(t2),
        ids_of(r1) == ids_of(r2),
    ensures
        ids_of(append_unique_rels(t1, r1)) == ids_of(append_unique_rels(t2, r2)),
    decreases r1.len(),
{
    assert(r1.len() == ids_of(r1).len() && r2.len() == ids_of(r2).len());
    if r1.len() > 0 {
        assert(ids_of(r1.drop_last()) =~= ids_of(r1).drop_last());
        assert(ids_of(r2.drop_last()) =~= ids_of(r2).drop_last());
        lemma_append_unique_rels_ids(t1, t2, r1.drop_last(), r2.drop_last());
        assert(r1.last().0 == ids_of(r1).last());
        assert(r2.last().0 == ids_of(r2).last());
        let u1 = append_unique_rels(t1, r1.drop_last());
        let u2 = append_unique_rels(t2, r2.drop_last());
        lemma_ids_of_push(u1, r1.last());
        lemma_ids_of_push(u2, r2.last());
    }
}

proof fn lemma_scan_ids_same(a: Seq<TagAnchor>, b: Seq<TagAnchor>, label: Seq<char>)
    requires
        a.len() == b.len(),
        forall|j: int|
            0 <= j < a.len() ==> href_text(#[trigger] a[j]) == href_text(b[j]) && slug_from_href(
                href_text(a[j]),
            ) is Some,
    ensures
        scan_anchors(a, label).1 == scan_anchors(b, label).1,
        ids_of(scan_anchors(a, label).2) == ids_of(scan_anchors(b, label).2),
        a.len() > 0 ==> scan_anchors(a, label).1.len() > 0,
    decreases a.len(),
{
    if a.len() == 0 {
        assert(ids_of(Seq::<Rel>::empty()) =~= Seq::<Seq<char>>::empty());
    } else {
        assert forall|j: int| 0 <= j < a.drop_last().len() implies href_text(
            #[trigger] a.drop_last()[j],
        ) == href_text(b.drop_last()[j]) && slug_from_href(href_text(a.drop_last()[j])) is Some by {
            assert(a.drop_last()[j] == a[j] && b.drop_last()[j] == b[j]);
        }
        lemma_scan_ids_same(a.drop_last(), b.drop_last(), label);
        let (x, y) = (a.last(), b.last());
        assert(href_text(x) == href_text(y) && slug_from_href(href_text(x)) is Some);
        relation_id_follows_href(x, y, label, label);
        let (v1, i1, r1) = scan_anchors(a.drop_last(), label);
        let (v2, i2, r2) = scan_anchors(b.drop_last(), label);
        let ra = anchor_relation(x, label)->0;
        let rb = anchor_relation(y, label)->0;
        lemma_ids_of_push(r1, ra);
        lemma_ids_of_push(r2, rb);
    }
}

/// The relation-id part of a bucket set.
pub open spec fn bucket_ids(b: BucketsView) -> (
    Seq<Seq<char>>,
    Seq<Seq<char>>,
    Seq<Seq<char>>,
    Seq<Seq<char>>,
    Seq<Seq<char>>,
) {
    (
        b.people_ids,
        b.tag_ids,
        ids_of(b.people_details),
        ids_of(b.tag_details),
        ids_of(b.parody_details),
    )
}

proof fn lemma_route_ids_same(b1: BucketsView, b2: BucketsView, c1: TagContainer, c2: TagContainer)
    requires
        bucket_ids(b1) == bucket_ids(b2),
        same_links(c1, c2),
    ensures
        bucket_ids(route(b1, c1)) == bucket_ids(route(b2, c2)),
{
    lemma_first_label_same(c1.children@, c2.children@);
    if let Some(label) = first_label(c1.children@) {
        lemma_scan_ids_same(c1.anchors@, c2.anchors@, label);
        let (v1, i1, r1) = scan_anchors(c1.anchors@, label);
        let (v2, i2, r2) = scan_anchors(c2.anchors@, label);
        if c1.anchors@.len() == 0 {
            assert(v1.len() == 0 && v2.len() == 0);
        }
        lemma_append_unique_rels_ids(b1.people_details, b2.people_details, r1, r2);
        lemma_append_unique_rels_ids(b1.tag_details, b2.tag_details, r1, r2);
        lemma_append_unique_rels_ids(b1.parody_details, b2.parody_details, r1, r2);
    }
}

/// Relation ids follow the links alone: containers that differ only in the
/// display text of their tag links, every link naming a path segment, give
/// the same relation ids, list by list and in the same order.
pub proof fn relation_ids_follow_links(a: Seq<TagContainer>, b: Seq<TagContainer>)
    requires
        a.len() == b.len(),
        forall|i: int| 0 <= i < a.len() ==> same_links(#[trigger] a[i], b[i]),
    ensures
        bucket_ids(classify(a)) == bucket_ids(classify(b)),
    decreases a.len(),
{
    if a.len() > 0 {
        assert forall|i: int| 0 <= i < a.drop_last().len() implies same_links(
            #[trigger] a.drop_last()[i],
            b.drop_last()[i],
        ) by {
            assert(a.drop_last()[i] == a[i] && b.drop_last()[i] == b[i]);
        }
        relation_ids_follow_links(a.drop_last(), b.drop_last());
        lemma_route_ids_same(classify(a.drop_last()), classify(b.drop_last()), a.last(), b.last());
    }
}

} // verus!
