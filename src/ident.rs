//! Outbound URLs, and the resolution of a query into a lookup strategy.

use vstd::prelude::*;
use vstd::utf8::encode_utf8;
use crate::text::{
    append_chars, chars_of, decimal, encode_bytes, encode_query_component, has_prefix,
    is_gallery_id, lower, lower_char, lower_seq, push_decimal, slice_chars, string_of, strip,
    strip_prefix, trim, trim_chars, same_chars, trim_matches, trim_matches_chars, all_digits,
};

verus! {

/// The listing URL for `search`, restricted to English, with the page number
/// where it is above one.
pub open spec fn search_url(search: Seq<char>, page: Option<u32>) -> Option<Seq<char>> {
    let t = trim(search);
    if t.len() == 0 {
        None
    } else {
        let base = "https://nhentai.net/search/?q="@ + encode_bytes(
            encode_utf8("language:english "@ + t),
        );
        match page {
            Some(p) if p > 1 => Some(base + "&page="@ + decimal(p as nat)),
            _ => Some(base),
        }
    }
}

/// The listing URL for a search phrase; `None` where the phrase is blank.
pub fn build_search_url(search: &str, page: Option<u32>) -> (r: Option<String>)
    ensures
        r matches Some(u) ==> search_url(search@, page) == Some(u@),
        r is None ==> search_url(search@, page) is None,
{
    let v = chars_of(search);
    let t = trim_chars(&v);
    if t.len() == 0 {
        return None;
    }
    let mut q = chars_of("language:english ");
    append_chars(&mut q, &t);
    let query = string_of(&q);
    let encoded = encode_query_component(query.as_str());
    let mut url = chars_of("https://nhentai.net/search/?q=");
    let ev = chars_of(encoded.as_str());
    append_chars(&mut url, &ev);
    if let Some(p) = page {
        if p > 1 {
            let amp = chars_of("&page=");
            append_chars(&mut url, &amp);
            push_decimal(&mut url, p as u64);
        }
    }
    Some(string_of(&url))
}

/// The detail page URL of a gallery id.
pub open spec fn gallery_url(id: Seq<char>) -> Seq<char> {
    "https://nhentai.net/g/"@ + id + "/"@
}

/// The detail page URL of a gallery.
pub fn build_gallery_url(gallery_id: &str) -> (r: String)
    ensures
        r@ == gallery_url(gallery_id@),
{
    let mut out = chars_of("https://nhentai.net/g/");
    let id = chars_of(gallery_id);
    append_chars(&mut out, &id);
    let tail = chars_of("/");
    append_chars(&mut out, &tail);
    string_of(&out)
}

/// The characters of `s` before its first `ch`, or all of `s`.
pub open spec fn take_until(s: Seq<char>, ch: char) -> Seq<char>
    decreases s.len(),
{
    if s.len() == 0 || s[0] == ch {
        Seq::empty()
    } else {
        seq![s[0]] + take_until(s.drop_first(), ch)
    }
}

proof fn lemma_take_until_len(s: Seq<char>, ch: char)
    ensures
        take_until(s, ch).len() <= s.len(),
        take_until(s, ch) == s.subrange(0, take_until(s, ch).len() as int),
        take_until(s, ch).len() < s.len() ==> s[take_until(s, ch).len() as int] == ch,
        forall|k: int| 0 <= k < take_until(s, ch).len() ==> s[k] != ch,
    decreases s.len(),
{
    if s.len() > 0 && s[0] != ch {
        lemma_take_until_len(s.drop_first(), ch);
        assert(take_until(s, ch) =~= s.subrange(0, take_until(s, ch).len() as int));
        assert forall|k: int| 0 <= k < take_until(s, ch).len() implies s[k] != ch by {
            if k > 0 {
                assert(s[k] == s.drop_first()[k - 1]);
            }
        }
    } else {
        assert(take_until(s, ch) =~= s.subrange(0, 0));
    }
}

/// The index of the first `ch` in `v`, or its length.
pub fn find_char(v: &Vec<char>, ch: char) -> (r: usize)
    ensures
        r == take_until(v@, ch).len(),
        r <= v.len(),
        v@.subrange(0, r as int) == take_until(v@, ch),
{
    proof {
        lemma_take_until_len(v@, ch);
    }
    let mut i: usize = 0;
    while i < v.len() && v[i] != ch
        invariant
            i <= v.len(),
            forall|k: int| 0 <= k < i ==> v@[k] != ch,
            i <= take_until(v@, ch).len(),
            take_until(v@, ch).len() <= v.len(),
            take_until(v@, ch) == v@.subrange(0, take_until(v@, ch).len() as int),
            take_until(v@, ch).len() < v.len() ==> v@[take_until(v@, ch).len() as int] == ch,
            forall|k: int| 0 <= k < take_until(v@, ch).len() ==> v@[k] != ch,
        decreases v.len() - i,
    {
        i = i + 1;
    }
    i
}

/// `s` without the prefix `p` where it has it.
pub open spec fn strip_or_keep(s: Seq<char>, p: Seq<char>) -> Seq<char> {
    match strip(s, p) {
        Some(r) => r,
        None => s,
    }
}

fn strip_or_keep_chars(v: Vec<char>, p: &str) -> (r: Vec<char>)
    ensures
        r@ == strip_or_keep(v@, p@),
{
    match strip_prefix(&v, p) {
        Some(w) => w,
        None => v,
    }
}

/// The path of a link on the site: scheme and host taken off, and the
/// slashes at either end.
pub open spec fn site_path(v: Seq<char>) -> Seq<char> {
    let t = trim(v);
    let a = if has_prefix(t, "https://"@) {
        strip_or_keep(t, "https://"@)
    } else {
        strip_or_keep(t, "http://"@)
    };
    let b = if has_prefix(a, "nhentai.net/"@) {
        strip_or_keep(a, "nhentai.net/"@)
    } else {
        strip_or_keep(a, "www.nhentai.net/"@)
    };
    trim_matches(b, '/')
}

/// The gallery id of a detail page link `/g/<id>/`.
pub open spec fn gallery_id_in(v: Seq<char>) -> Option<Seq<char>> {
    let p = site_path(v);
    if has_prefix(p, "g/"@) && is_gallery_id(take_until(strip_or_keep(p, "g/"@), '/')) {
        Some(take_until(strip_or_keep(p, "g/"@), '/'))
    } else {
        None
    }
}

/// The gallery id in a link to a detail page, with or without scheme and host.
pub fn extract_gallery_id(value: &str) -> (r: Option<String>)
    ensures
        r matches Some(s) ==> gallery_id_in(value@) == Some(s@),
        r is None ==> gallery_id_in(value@) is None,
{
    let v = chars_of(value);
    let t = trim_chars(&v);
    let a = if strip_prefix(&t, "https://").is_some() {
        strip_or_keep_chars(t, "https://")
    } else {
        strip_or_keep_chars(t, "http://")
    };
    let b = if strip_prefix(&a, "nhentai.net/").is_some() {
        strip_or_keep_chars(a, "nhentai.net/")
    } else {
        strip_or_keep_chars(a, "www.nhentai.net/")
    };
    let p = trim_matches_chars(&b, '/');
    match strip_prefix(&p, "g/") {
        Some(rest) => {
            let end = find_char(&rest, '/');
            let id = slice_chars(&rest, 0, end);
            if all_digits(&id) {
                Some(string_of(&id))
            } else {
                None
            }
        },
        None => None,
    }
}

/// `v` in ASCII lower case.
pub fn lower_chars(v: &Vec<char>) -> (r: Vec<char>)
    ensures
        r@ == lower_seq(v@),
{
    let mut out: Vec<char> = Vec::new();
    let mut i: usize = 0;
    while i < v.len()
        invariant
            i <= v.len(),
            out.len() == i,
            forall|k: int| 0 <= k < i ==> out@[k] == lower(#[trigger] v@[k]),
        decreases v.len() - i,
    {
        out.push(lower_char(v[i]));
        i = i + 1;
    }
    assert(out@ =~= lower_seq(v@));
    out
}

/// The gallery id that a query names: `nhentai:<digits>` in any case, or a
/// link to a detail page.
pub open spec fn lookup_gallery_id(v: Seq<char>) -> Option<Seq<char>> {
    let t = trim(v);
    if t.len() == 0 {
        None
    } else if strip(lower_seq(t), "nhentai:"@) is Some && is_gallery_id(
        strip_or_keep(lower_seq(t), "nhentai:"@),
    ) {
        Some(strip_or_keep(lower_seq(t), "nhentai:"@))
    } else {
        gallery_id_in(t)
    }
}

/// The gallery id named by `value`, as `nhentai:<digits>` or as a detail page link.
pub fn parse_lookup_gallery_id(value: &str) -> (r: Option<String>)
    ensures
        r matches Some(s) ==> lookup_gallery_id(value@) == Some(s@),
        r is None ==> lookup_gallery_id(value@) is None,
{
    let v = chars_of(value);
    let t = trim_chars(&v);
    if t.len() == 0 {
        return None;
    }
    let lower = lower_chars(&t);
    if let Some(id) = strip_prefix(&lower, "nhentai:") {
        if all_digits(&id) {
            return Some(string_of(&id));
        }
    }
    let ts = string_of(&t);
    extract_gallery_id(ts.as_str())
}

/// The category of a relation id as the search syntax writes it.
pub open spec fn search_category(cat: Seq<char>) -> Seq<char> {
    if cat == "tags"@ {
        "tag"@
    } else {
        cat
    }
}

/// The search term for a relation id `nhentai-<category>:<slug>`:
/// `<category>:<slug>`, with the category `tags` searched as `tag`.
pub open spec fn relation_term(v: Seq<char>) -> Option<Seq<char>> {
    let t = trim(v);
    if strip(t, "nhentai-"@) is None {
        None
    } else {
        let rest = strip_or_keep(t, "nhentai-"@);
        let cat = take_until(rest, ':');
        if cat.len() == 0 || cat.len() >= rest.len() || cat.len() + 1 == rest.len() {
            None
        } else {
            Some(search_category(cat) + ":"@ + rest.subrange(cat.len() + 1 as int, rest.len() as int))
        }
    }
}

/// The search term for a relation id such as `nhentai-group:maiju`.
pub fn parse_relation_search_term(value: &str) -> (r: Option<String>)
    ensures
        r matches Some(s) ==> relation_term(value@) == Some(s@),
        r is None ==> relation_term(value@) is None,
{
    let v = chars_of(value);
    let t = trim_chars(&v);
    let rest = match strip_prefix(&t, "nhentai-") {
        Some(r) => r,
        None => return None,
    };
    let end = find_char(&rest, ':');
    if end == 0 || end >= rest.len() || end + 1 == rest.len() {
        return None;
    }
    let cat = slice_chars(&rest, 0, end);
    let tags = chars_of("tags");
    let mut out = if same_chars(&cat, &tags) {
        chars_of("tag")
    } else {
        cat
    };
    let colon = chars_of(":");
    append_chars(&mut out, &colon);
    let slug = slice_chars(&rest, end + 1, rest.len());
    append_chars(&mut out, &slug);
    Some(string_of(&out))
}


pub open spec fn gallery_finder() -> spec_fn(Seq<char>) -> Option<Seq<char>> {
    |s: Seq<char>| lookup_gallery_id(s)
}

pub open spec fn relation_finder() -> spec_fn(Seq<char>) -> Option<Seq<char>> {
    |s: Seq<char>| relation_term(s)
}

/// The identifier slots of a book query.
pub struct BookIds {
    pub redseat: Option<String>,
    pub slug: Option<String>,
    pub other_ids: Option<Vec<String>>,
}

/// A book query: a free-text name and identifier slots.
pub struct BookQuery {
    pub name: Option<String>,
    pub ids: Option<BookIds>,
}

/// The strategy that a query resolves into.
pub enum LookupTarget {
    DirectGallery(String),
    Search(String),
}

/// A lookup strategy with its string as characters.
pub enum TargetView {
    DirectGallery(Seq<char>),
    Search(Seq<char>),
}

impl View for LookupTarget {
    type V = TargetView;

    open spec fn view(&self) -> TargetView {
        match self {
            LookupTarget::DirectGallery(id) => TargetView::DirectGallery(id@),
            LookupTarget::Search(term) => TargetView::Search(term@),
        }
    }
}

/// An optional string as its characters.
pub open spec fn opt_view(o: Option<String>) -> Option<Seq<char>> {
    match o {
        Some(s) => Some(s@),
        None => None,
    }
}

pub open spec fn then_apply(
    o: Option<Seq<char>>,
    f: spec_fn(Seq<char>) -> Option<Seq<char>>,
) -> Option<Seq<char>> {
    match o {
        Some(s) => f(s),
        None => None,
    }
}

pub open spec fn or_else(a: Option<Seq<char>>, b: Option<Seq<char>>) -> Option<Seq<char>> {
    if a is Some {
        a
    } else {
        b
    }
}

/// The first result that `f` gives on the strings of `vs`, in order.
pub open spec fn first_result(
    vs: Seq<String>,
    f: spec_fn(Seq<char>) -> Option<Seq<char>>,
) -> Option<Seq<char>>
    decreases vs.len(),
{
    if vs.len() == 0 {
        None
    } else if f(vs[0]@) is Some {
        f(vs[0]@)
    } else {
        first_result(vs.drop_first(), f)
    }
}

/// What `f` finds in the identifier slots, in their fixed order.
pub open spec fn in_ids(ids: Option<BookIds>, f: spec_fn(Seq<char>) -> Option<Seq<char>>) -> Option<
    Seq<char>,
> {
    match ids {
        Some(ids) => or_else(
            then_apply(opt_view(ids.redseat), f),
            or_else(
                then_apply(opt_view(ids.slug), f),
                match ids.other_ids {
                    Some(vs) => first_result(vs@, f),
                    None => None,
                },
            ),
        ),
        None => None,
    }
}

/// What `f` finds in the name, else in the identifier slots.
pub open spec fn in_query(q: BookQuery, f: spec_fn(Seq<char>) -> Option<Seq<char>>) -> Option<
    Seq<char>,
> {
    or_else(then_apply(opt_view(q.name), f), in_ids(q.ids, f))
}

/// The strategy for a query: a gallery id in any field, else a relation id
/// in any field, else the trimmed name as free text; nothing for a blank name.
pub open spec fn resolve(q: BookQuery) -> Option<TargetView> {
    let direct = in_query(q, gallery_finder());
    let relation = in_query(q, relation_finder());
    if direct is Some {
        Some(TargetView::DirectGallery(direct->0))
    } else if relation is Some {
        Some(TargetView::Search(relation->0))
    } else {
        match q.name {
            Some(n) if trim(n@).len() > 0 => Some(TargetView::Search(trim(n@))),
            _ => None,
        }
    }
}

pub open spec fn target_opt_view(r: Option<LookupTarget>) -> Option<TargetView> {
    match r {
        Some(t) => Some(t@),
        None => None,
    }
}

fn gallery_id_of(o: &Option<String>) -> (r: Option<String>)
    ensures
        opt_view(r) == then_apply(opt_view(*o), gallery_finder()),
{
    match o {
        Some(s) => parse_lookup_gallery_id(s.as_str()),
        None => None,
    }
}

fn relation_term_of(o: &Option<String>) -> (r: Option<String>)
    ensures
        opt_view(r) == then_apply(opt_view(*o), relation_finder()),
{
    match o {
        Some(s) => parse_relation_search_term(s.as_str()),
        None => None,
    }
}

fn first_gallery_id(vs: &Vec<String>) -> (r: Option<String>)
    ensures
        opt_view(r) == first_result(vs@, gallery_finder()),
{
    let mut i: usize = 0;
    assert(vs@.subrange(0, vs.len() as int) =~= vs@);
    while i < vs.len()
        invariant
            i <= vs.len(),
            first_result(vs@, gallery_finder()) == first_result(vs@.subrange(i as int, vs.len() as int), gallery_finder()),
        decreases vs.len() - i,
    {
        let found = parse_lookup_gallery_id(vs[i].as_str());
        proof {
            let rest = vs@.subrange(i as int, vs.len() as int);
            assert(rest[0] == vs@[i as int]);
            assert(rest.drop_first() =~= vs@.subrange(i as int + 1, vs.len() as int));
            assert(gallery_finder()(rest[0]@) == lookup_gallery_id(vs@[i as int]@));
            assert(first_result(rest, gallery_finder()) == if gallery_finder()(rest[0]@) is Some {
                gallery_finder()(rest[0]@)
            } else {
                first_result(rest.drop_first(), gallery_finder())
            });
        }
        if found.is_some() {
            return found;
        }
        i = i + 1;
    }
    None
}

fn first_relation_term(vs: &Vec<String>) -> (r: Option<String>)
    ensures
        opt_view(r) == first_result(vs@, relation_finder()),
{
    let mut i: usize = 0;
    assert(vs@.subrange(0, vs.len() as int) =~= vs@);
    while i < vs.len()
        invariant
            i <= vs.len(),
            first_result(vs@, relation_finder()) == first_result(vs@.subrange(i as int, vs.len() as int), relation_finder()),
        decreases vs.len() - i,
    {
        let found = parse_relation_search_term(vs[i].as_str());
        proof {
            let rest = vs@.subrange(i as int, vs.len() as int);
            assert(rest[0] == vs@[i as int]);
            assert(rest.drop_first() =~= vs@.subrange(i as int + 1, vs.len() as int));
            assert(relation_finder()(rest[0]@) == relation_term(vs@[i as int]@));
            assert(first_result(rest, relation_finder()) == if relation_finder()(rest[0]@) is Some {
                relation_finder()(rest[0]@)
            } else {
                first_result(rest.drop_first(), relation_finder())
            });
        }
        if found.is_some() {
            return found;
        }
        i = i + 1;
    }
    None
}

fn gallery_id_in_ids(ids: &Option<BookIds>) -> (r: Option<String>)
    ensures
        opt_view(r) == in_ids(*ids, gallery_finder()),
{
    match ids {
        Some(ids) => {
            let a = gallery_id_of(&ids.redseat);
            if a.is_some() {
                return a;
            }
            let b = gallery_id_of(&ids.slug);
            if b.is_some() {
                return b;
            }
            match &ids.other_ids {
                Some(vs) => first_gallery_id(vs),
                None => None,
            }
        },
        None => None,
    }
}

fn relation_term_in_ids(ids: &Option<BookIds>) -> (r: Option<String>)
    ensures
        opt_view(r) == in_ids(*ids, relation_finder()),
{
    match ids {
        Some(ids) => {
            let a = relation_term_of(&ids.redseat);
            if a.is_some() {
                return a;
            }
            let b = relation_term_of(&ids.slug);
            if b.is_some() {
                return b;
            }
            match &ids.other_ids {
                Some(vs) => first_relation_term(vs),
                None => None,
            }
        },
        None => None,
    }
}

/// The lookup strategy for a book query: a gallery id named in any field
/// (name first, then the identifier slots in order) wins; else a relation id
/// in any field becomes a search; else the trimmed name is searched as free
/// text; a blank or missing name with nothing else gives `None`.
pub fn resolve_book_lookup_target(book: &BookQuery) -> (r: Option<LookupTarget>)
    ensures
        target_opt_view(r) == resolve(*book),
{
    let a = gallery_id_of(&book.name);
    if let Some(id) = a {
        return Some(LookupTarget::DirectGallery(id));
    }
    let b = gallery_id_in_ids(&book.ids);
    if let Some(id) = b {
        return Some(LookupTarget::DirectGallery(id));
    }
    let c = relation_term_of(&book.name);
    if let Some(term) = c {
        return Some(LookupTarget::Search(term));
    }
    let d = relation_term_in_ids(&book.ids);
    if let Some(term) = d {
        return Some(LookupTarget::Search(term));
    }
    match &book.name {
        Some(n) => {
            let v = chars_of(n.as_str());
            let t = trim_chars(&v);
            if t.len() == 0 {
                None
            } else {
                Some(LookupTarget::Search(string_of(&t)))
            }
        },
        None => None,
    }
}

proof fn lemma_first_result_found(
    vs: Seq<String>,
    f: spec_fn(Seq<char>) -> Option<Seq<char>>,
    i: int,
)
    requires
        0 <= i < vs.len(),
        f(vs[i]@) is Some,
    ensures
        first_result(vs, f) is Some,
    decreases i,
{
    if i > 0 && f(vs[0]@) is None {
        assert(vs.drop_first()[i - 1] == vs[i]);
        lemma_first_result_found(vs.drop_first(), f, i - 1);
    }
}

/// Whether `s` is one of the strings that a query offers: its name, an
/// identifier slot, or one of its other ids.
pub open spec fn offers(q: BookQuery, s: Seq<char>) -> bool {
    opt_view(q.name) == Some(s) || match q.ids {
        Some(ids) => opt_view(ids.redseat) == Some(s) || opt_view(ids.slug) == Some(s) || match ids.other_ids {
            Some(vs) => exists|i: int| 0 <= i < vs@.len() && (#[trigger] vs@[i])@ == s,
            None => false,
        },
        None => false,
    }
}

/// A gallery id anywhere in a query wins over relation ids and free text:
/// where any string that the query offers names a gallery, the query
/// resolves to a direct gallery lookup.
pub proof fn direct_gallery_wins(q: BookQuery, s: Seq<char>)
    requires
        offers(q, s),
        lookup_gallery_id(s) is Some,
    ensures
        resolve(q) matches Some(TargetView::DirectGallery(_)),
{
    let f = gallery_finder();
    if opt_view(q.name) != Some(s) {
        let ids = q.ids->0;
        if opt_view(ids.redseat) != Some(s) && opt_view(ids.slug) != Some(s) {
            let vs = ids.other_ids->0;
            let i = choose|i: int| 0 <= i < vs@.len() && (#[trigger] vs@[i])@ == s;
            lemma_first_result_found(vs@, f, i);
        }
    }
}


/// What a book lookup does next.
pub enum LookupAction {
    /// Fetch the detail page of this gallery.
    FetchGallery(String),
    /// Fetch the listing for this search phrase.
    Search(String),
    /// Stop with what has been found.
    Done,
    /// Stop: the query names nothing that can be looked up.
    Unsupported,
}

/// A lookup action with its string as characters.
pub enum ActionView {
    FetchGallery(Seq<char>),
    Search(Seq<char>),
    Done,
    Unsupported,
}

impl View for LookupAction {
    type V = ActionView;

    open spec fn view(&self) -> ActionView {
        match self {
            LookupAction::FetchGallery(id) => ActionView::FetchGallery(id@),
            LookupAction::Search(s) => ActionView::Search(s@),
            LookupAction::Done => ActionView::Done,
            LookupAction::Unsupported => ActionView::Unsupported,
        }
    }
}

/// The first action of a lookup: fetch the gallery or search for the term
/// that the query resolves to; unsupported where it resolves to nothing.
pub open spec fn first_action(q: BookQuery) -> ActionView {
    match resolve(q) {
        Some(TargetView::DirectGallery(id)) => ActionView::FetchGallery(id),
        Some(TargetView::Search(term)) => ActionView::Search(term),
        None => ActionView::Unsupported,
    }
}

/// The action after a gallery fetch: done where it found a gallery, else a
/// search for the trimmed name where the name is not blank, else done.
pub open spec fn action_after_gallery(q: BookQuery, found: bool) -> ActionView {
    if found {
        ActionView::Done
    } else {
        match q.name {
            Some(n) if trim(n@).len() > 0 => ActionView::Search(trim(n@)),
            _ => ActionView::Done,
        }
    }
}

/// The first action of a lookup for `book`.
pub fn lookup_start(book: &BookQuery) -> (r: LookupAction)
    ensures
        r@ == first_action(*book),
{
    match resolve_book_lookup_target(book) {
        Some(LookupTarget::DirectGallery(id)) => LookupAction::FetchGallery(id),
        Some(LookupTarget::Search(term)) => LookupAction::Search(term),
        None => LookupAction::Unsupported,
    }
}

/// The action after fetching the gallery that `book` named, given whether
/// the fetch gave a gallery.
pub fn lookup_after_gallery(book: &BookQuery, found: bool) -> (r: LookupAction)
    ensures
        r@ == action_after_gallery(*book, found),
{
    if found {
        return LookupAction::Done;
    }
    match &book.name {
        Some(n) => {
            let t = trim_chars(&chars_of(n.as_str()));
            if t.len() == 0 {
                LookupAction::Done
            } else {
                LookupAction::Search(string_of(&t))
            }
        },
        None => LookupAction::Done,
    }
}

} // verus!
