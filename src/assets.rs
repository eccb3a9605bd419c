//! Full-resolution image URLs of a gallery: from the page data embedded in
//! a script, else from rewritten thumbnails, else the cover alone.

use vstd::prelude::*;
use crate::text::{
    append_chars, chars_of, decimal, is_digit, is_digit_char, is_space, is_space_char,
    push_decimal, slice_chars, string_of, same_chars, is_alnum, is_alnum_char, absolute_url,
    normalize_url,
};
use crate::record::{append_unique, contains_string, deduplicate_strings, strs};

verus! {

/// The position after a quote at `i`, the quote possibly escaped by a backslash.
pub open spec fn quote_end(s: Seq<char>, i: int) -> Option<int> {
    if 0 <= i < s.len() && s[i] == '"' {
        Some(i + 1)
    } else if 0 <= i && i + 1 < s.len() && s[i] == '\\' && s[i + 1] == '"' {
        Some(i + 2)
    } else {
        None
    }
}

/// Whether `w` stands in `s` at `i`.
pub open spec fn word_at(s: Seq<char>, i: int, w: Seq<char>) -> bool {
    0 <= i && i + w.len() <= s.len() && s.subrange(i, i + w.len()) == w
}

/// The position after the white space that starts at `i`.
pub open spec fn skip_space(s: Seq<char>, i: int) -> int
    decreases s.len() - i,
{
    if 0 <= i < s.len() && is_space(s[i]) {
        skip_space(s, i + 1)
    } else {
        i
    }
}

/// The position after the ASCII digits that start at `i`.
pub open spec fn digit_run(s: Seq<char>, i: int) -> int
    decreases s.len() - i,
{
    if 0 <= i < s.len() && is_digit(s[i]) {
        digit_run(s, i + 1)
    } else {
        i
    }
}

/// The position after `"key" :` (quotes possibly escaped, white space
/// around the colon) at `i`.
pub open spec fn keyed(s: Seq<char>, i: int, key: Seq<char>) -> Option<int> {
    match quote_end(s, i) {
        None => None,
        Some(j) => if !word_at(s, j, key) {
            None
        } else {
            match quote_end(s, j + key.len()) {
                None => None,
                Some(k) => {
                    let m = skip_space(s, k);
                    if 0 <= m < s.len() && s[m] == ':' {
                        Some(skip_space(s, m + 1))
                    } else {
                        None
                    }
                },
            }
        },
    }
}

/// The media id of `"media_id": "<digits>"` at `i`.
pub open spec fn media_at(s: Seq<char>, i: int) -> Option<Seq<char>> {
    match keyed(s, i, "media_id"@) {
        None => None,
        Some(p) => match quote_end(s, p) {
            None => None,
            Some(q) => {
                let e = digit_run(s, q);
                if e > q && quote_end(s, e) is Some {
                    Some(s.subrange(q, e))
                } else {
                    None
                }
            },
        },
    }
}

/// The first index at or after `i` of a `]` in `s`, if any.
pub open spec fn close_bracket(s: Seq<char>, i: int) -> Option<int>
    decreases s.len() - i,
{
    if i < 0 || i >= s.len() {
        None
    } else if s[i] == ']' {
        Some(i)
    } else {
        close_bracket(s, i + 1)
    }
}

/// What stands between the brackets of `"pages": [ ... ]` at `i`, up to
/// the first closing bracket.
pub open spec fn pages_at(s: Seq<char>, i: int) -> Option<Seq<char>> {
    match keyed(s, i, "pages"@) {
        None => None,
        Some(p) => if 0 <= p < s.len() && s[p] == '[' {
            match close_bracket(s, p + 1) {
                Some(e) => Some(s.subrange(p + 1, e)),
                None => None,
            }
        } else {
            None
        },
    }
}

/// The page type letter of `"t": "<a-z>"` at `i`, and the position after it.
pub open spec fn type_at(s: Seq<char>, i: int) -> Option<(char, int)> {
    match keyed(s, i, "t"@) {
        None => None,
        Some(p) => match quote_end(s, p) {
            None => None,
            Some(q) => if 0 <= q < s.len() && 'a' <= s[q] && s[q] <= 'z' {
                match quote_end(s, q + 1) {
                    Some(e) => Some((s[q], e)),
                    None => None,
                }
            } else {
                None
            },
        },
    }
}

/// The leftmost media id at or after `i`.
pub open spec fn find_media(s: Seq<char>, i: int) -> Option<Seq<char>>
    decreases s.len() - i,
{
    if i < 0 || i >= s.len() {
        None
    } else if media_at(s, i) is Some {
        media_at(s, i)
    } else {
        find_media(s, i + 1)
    }
}

/// The leftmost page list at or after `i`.
pub open spec fn find_pages(s: Seq<char>, i: int) -> Option<Seq<char>>
    decreases s.len() - i,
{
    if i < 0 || i >= s.len() {
        None
    } else if pages_at(s, i) is Some {
        pages_at(s, i)
    } else {
        find_pages(s, i + 1)
    }
}

/// The page type letters at or after `i`, each match taken after the end
/// of the one before.
pub open spec fn page_types(s: Seq<char>, i: int) -> Seq<char>
    decreases s.len() - i,
{
    if i < 0 || i >= s.len() {
        Seq::empty()
    } else {
        match type_at(s, i) {
            Some((c, e)) => if e > i {
                seq![c] + page_types(s, e)
            } else {
                Seq::empty()
            },
            None => page_types(s, i + 1),
        }
    }
}

fn quote_end_exec(v: &Vec<char>, i: usize) -> (r: Option<usize>)
    ensures
        r matches Some(j) ==> quote_end(v@, i as int) == Some(j as int),
        r is None ==> quote_end(v@, i as int) is None,
{
    if i < v.len() && v[i] == '"' {
        Some(i + 1)
    } else if i < v.len() && i + 1 < v.len() && v[i] == '\\' && v[i + 1] == '"' {
        Some(i + 2)
    } else {
        None
    }
}

fn word_at_exec(v: &Vec<char>, i: usize, w: &Vec<char>) -> (r: bool)
    ensures
        r == word_at(v@, i as int, w@),
{
    if i > v.len() || w.len() > v.len() - i {
        return false;
    }
    let part = slice_chars(v, i, i + w.len());
    same_chars(&part, w)
}

fn skip_space_exec(v: &Vec<char>, i: usize) -> (r: usize)
    ensures
        r as int == skip_space(v@, i as int),
{
    let mut j = i;
    while j < v.len() && is_space_char(v[j])
        invariant
            i <= j,
            skip_space(v@, i as int) == skip_space(v@, j as int),
        decreases v.len() - j,
    {
        j = j + 1;
    }
    j
}

fn digit_run_exec(v: &Vec<char>, i: usize) -> (r: usize)
    ensures
        r as int == digit_run(v@, i as int),
        i <= r,
        r > i ==> r <= v.len(),
{
    let mut j = i;
    while j < v.len() && is_digit_char(v[j])
        invariant
            i <= j,
            j > i ==> j <= v.len(),
            digit_run(v@, i as int) == digit_run(v@, j as int),
        decreases v.len() - j,
    {
        j = j + 1;
    }
    j
}

fn keyed_exec(v: &Vec<char>, i: usize, key: &Vec<char>) -> (r: Option<usize>)
    ensures
        r matches Some(p) ==> keyed(v@, i as int, key@) == Some(p as int),
        r is None ==> keyed(v@, i as int, key@) is None,
{
    let j = match quote_end_exec(v, i) {
        Some(j) => j,
        None => return None,
    };
    if !word_at_exec(v, j, key) {
        return None;
    }
    let n = v.len();
    assert(j + key@.len() <= n);
    let after: usize = j + key.len();
    let k = match quote_end_exec(v, after) {
        Some(k) => k,
        None => return None,
    };
    let m = skip_space_exec(v, k);
    if m < v.len() && v[m] == ':' {
        Some(skip_space_exec(v, m + 1))
    } else {
        None
    }
}

fn media_at_exec(v: &Vec<char>, i: usize, key: &Vec<char>) -> (r: Option<Vec<char>>)
    requires
        key@ == "media_id"@,
    ensures
        r matches Some(m) ==> media_at(v@, i as int) == Some(m@),
        r is None ==> media_at(v@, i as int) is None,
{
    let p = match keyed_exec(v, i, key) {
        Some(p) => p,
        None => return None,
    };
    let q = match quote_end_exec(v, p) {
        Some(q) => q,
        None => return None,
    };
    let e = digit_run_exec(v, q);
    if e > q && quote_end_exec(v, e).is_some() {
        Some(slice_chars(v, q, e))
    } else {
        None
    }
}

fn pages_at_exec(v: &Vec<char>, i: usize, key: &Vec<char>) -> (r: Option<Vec<char>>)
    requires
        key@ == "pages"@,
    ensures
        r matches Some(m) ==> pages_at(v@, i as int) == Some(m@),
        r is None ==> pages_at(v@, i as int) is None,
{
    let p = match keyed_exec(v, i, key) {
        Some(p) => p,
        None => return None,
    };
    if !(p < v.len() && v[p] == '[') {
        return None;
    }
    let mut e = p + 1;
    while e < v.len() && v[e] != ']'
        invariant
            p + 1 <= e,
            p < v.len(),
            close_bracket(v@, p + 1) == close_bracket(v@, e as int),
        decreases v.len() - e,
    {
        e = e + 1;
    }
    if e < v.len() {
        Some(slice_chars(v, p + 1, e))
    } else {
        None
    }
}

fn type_at_exec(v: &Vec<char>, i: usize, key: &Vec<char>) -> (r: Option<(char, usize)>)
    requires
        key@ == "t"@,
    ensures
        r matches Some((c, e)) ==> type_at(v@, i as int) == Some((c, e as int)),
        r is None ==> type_at(v@, i as int) is None,
{
    let p = match keyed_exec(v, i, key) {
        Some(p) => p,
        None => return None,
    };
    let q = match quote_end_exec(v, p) {
        Some(q) => q,
        None => return None,
    };
    if q < v.len() && 'a' <= v[q] && v[q] <= 'z' {
        match quote_end_exec(v, q + 1) {
            Some(e) => Some((v[q], e)),
            None => None,
        }
    } else {
        None
    }
}


fn find_media_exec(v: &Vec<char>) -> (r: Option<Vec<char>>)
    ensures
        r matches Some(m) ==> find_media(v@, 0) == Some(m@),
        r is None ==> find_media(v@, 0) is None,
{
    let key = chars_of("media_id");
    let mut i: usize = 0;
    while i < v.len()
        invariant
            key@ == "media_id"@,
            find_media(v@, 0) == find_media(v@, i as int),
        decreases v.len() - i,
    {
        let found = media_at_exec(v, i, &key);
        if found.is_some() {
            return found;
        }
        i = i + 1;
    }
    None
}

fn find_pages_exec(v: &Vec<char>) -> (r: Option<Vec<char>>)
    ensures
        r matches Some(m) ==> find_pages(v@, 0) == Some(m@),
        r is None ==> find_pages(v@, 0) is None,
{
    let key = chars_of("pages");
    let mut i: usize = 0;
    while i < v.len()
        invariant
            key@ == "pages"@,
            find_pages(v@, 0) == find_pages(v@, i as int),
        decreases v.len() - i,
    {
        let found = pages_at_exec(v, i, &key);
        if found.is_some() {
            return found;
        }
        i = i + 1;
    }
    None
}

fn page_types_exec(v: &Vec<char>) -> (r: Vec<char>)
    ensures
        r@ == page_types(v@, 0),
{
    let key = chars_of("t");
    let mut out: Vec<char> = Vec::new();
    let mut i: usize = 0;
    while i < v.len()
        invariant
            key@ == "t"@,
            page_types(v@, 0) == out@ + page_types(v@, i as int),
        decreases v.len() - i,
    {
        match type_at_exec(v, i, &key) {
            Some((c, e)) => {
                if e > i {
                    out.push(c);
                    assert(page_types(v@, 0) == out@ + page_types(v@, e as int));
                    i = e;
                } else {
                    assert(page_types(v@, i as int) == Seq::<char>::empty());
                    i = v.len();
                }
            },
            None => {
                i = i + 1;
            },
        }
    }
    assert(page_types(v@, i as int) == Seq::<char>::empty());
    out
}

/// The page data embedded in a script: its media id and one type letter per page.
pub struct PageData {
    pub media_id: String,
    pub page_types: Vec<char>,
}

/// The media id and the page type letters of a script, where it has both
/// and at least one page.
pub open spec fn script_pages(s: Seq<char>) -> Option<(Seq<char>, Seq<char>)> {
    match find_media(s, 0) {
        None => None,
        Some(m) => match find_pages(s, 0) {
            None => None,
            Some(blob) => if page_types(blob, 0).len() == 0 {
                None
            } else {
                Some((m, page_types(blob, 0)))
            },
        },
    }
}

/// The page data embedded in a script's text: the leftmost `"media_id":
/// "<digits>"`, and the type letters of `"t": "<a-z>"` inside the leftmost
/// `"pages": [...]`; quotes may be escaped. `None` where either is missing
/// or no page has a type.
pub fn extract_page_data(script: &str) -> (r: Option<PageData>)
    ensures
        r matches Some(d) ==> script_pages(script@) == Some((d.media_id@, d.page_types@)),
        r is None ==> script_pages(script@) is None,
{
    let v = chars_of(script);
    let media = match find_media_exec(&v) {
        Some(m) => m,
        None => return None,
    };
    let blob = match find_pages_exec(&v) {
        Some(b) => b,
        None => return None,
    };
    let types = page_types_exec(&blob);
    if types.len() == 0 {
        None
    } else {
        Some(PageData { media_id: string_of(&media), page_types: types })
    }
}

/// The file extension of a page type.
pub open spec fn ext_of(t: Seq<char>) -> Seq<char> {
    if t == "p"@ {
        "png"@
    } else if t == "g"@ {
        "gif"@
    } else if t == "w"@ {
        "webp"@
    } else {
        "jpg"@
    }
}

/// The file extension of a page type: `p` png, `g` gif, `w` webp, else jpg.
pub fn image_extension(token: &str) -> (r: &'static str)
    ensures
        r@ == ext_of(token@),
{
    let t = chars_of(token);
    if same_chars(&t, &chars_of("p")) {
        "png"
    } else if same_chars(&t, &chars_of("g")) {
        "gif"
    } else if same_chars(&t, &chars_of("w")) {
        "webp"
    } else {
        "jpg"
    }
}

/// The full-resolution URL of page `k` (from one) of a media id.
pub open spec fn image_url(media: Seq<char>, k: nat, t: char) -> Seq<char> {
    "https://i.nhentai.net/galleries/"@ + media + "/"@ + decimal(k) + "."@ + ext_of(seq![t])
}

/// One URL per page type, pages numbered from one.
pub open spec fn payload_urls(media: Seq<char>, types: Seq<char>) -> Seq<Seq<char>> {
    Seq::new(types.len(), |k: int| image_url(media, (k + 1) as nat, types[k]))
}

fn payload_urls_exec(d: &PageData) -> (r: Vec<String>)
    ensures
        strs(r@) == payload_urls(d.media_id@, d.page_types@),
{
    let media = chars_of(d.media_id.as_str());
    let mut out: Vec<String> = Vec::new();
    let mut i: usize = 0;
    while i < d.page_types.len()
        invariant
            i <= d.page_types.len(),
            media@ == d.media_id@,
            out.len() == i,
            forall|k: int|
                0 <= k < i ==> (#[trigger] out@[k])@ == image_url(
                    d.media_id@,
                    (k + 1) as nat,
                    d.page_types@[k],
                ),
        decreases d.page_types.len() - i,
    {
        let t = d.page_types[i];
        let mut url = chars_of("https://i.nhentai.net/galleries/");
        append_chars(&mut url, &media);
        append_chars(&mut url, &chars_of("/"));
        push_decimal(&mut url, (i as u64) + 1);
        append_chars(&mut url, &chars_of("."));
        let mut tv: Vec<char> = Vec::new();
        tv.push(t);
        let ts = string_of(&tv);
        let ext = image_extension(ts.as_str());
        append_chars(&mut url, &chars_of(ext));
        assert(tv@ =~= seq![t]);
        out.push(string_of(&url));
        i = i + 1;
    }
    assert(strs(out@) =~= payload_urls(d.media_id@, d.page_types@));
    out
}

/// The image URLs of the first script that holds page data.
pub open spec fn script_images(scripts: Seq<String>) -> Option<Seq<Seq<char>>>
    decreases scripts.len(),
{
    if scripts.len() == 0 {
        None
    } else if script_pages(scripts[0]@) is Some {
        Some(
            payload_urls((script_pages(scripts[0]@)->0).0, (script_pages(scripts[0]@)->0).1),
        )
    } else {
        script_images(scripts.drop_first())
    }
}

/// The image URLs of the first script, in document order, that holds page data.
pub fn parse_script_image_urls(scripts: &Vec<String>) -> (r: Option<Vec<String>>)
    ensures
        r matches Some(u) ==> script_images(scripts@) == Some(strs(u@)),
        r is None ==> script_images(scripts@) is None,
{
    let mut i: usize = 0;
    assert(scripts@.subrange(0, scripts.len() as int) =~= scripts@);
    while i < scripts.len()
        invariant
            i <= scripts.len(),
            script_images(scripts@) == script_images(
                scripts@.subrange(i as int, scripts.len() as int),
            ),
        decreases scripts.len() - i,
    {
        proof {
            let rest = scripts@.subrange(i as int, scripts.len() as int);
            assert(rest[0] == scripts@[i as int]);
            assert(rest.drop_first() =~= scripts@.subrange(i as int + 1, scripts.len() as int));
        }
        if let Some(d) = extract_page_data(scripts[i].as_str()) {
            return Some(payload_urls_exec(&d));
        }
        i = i + 1;
    }
    None
}


/// A word character: an ASCII letter or digit, or `_`.
pub open spec fn is_word(c: char) -> bool {
    is_alnum(c) || c == '_'
}

/// The position after the word characters that start at `i`.
pub open spec fn word_run(s: Seq<char>, i: int) -> int
    decreases s.len() - i,
{
    if 0 <= i < s.len() && is_word(s[i]) {
        word_run(s, i + 1)
    } else {
        i
    }
}

/// The extension among jpg, png, gif and webp that stands at `i`.
pub open spec fn ext_at(s: Seq<char>, i: int) -> Seq<char> {
    if word_at(s, i, "jpg"@) {
        "jpg"@
    } else if word_at(s, i, "png"@) {
        "png"@
    } else if word_at(s, i, "gif"@) {
        "gif"@
    } else if word_at(s, i, "webp"@) {
        "webp"@
    } else {
        Seq::empty()
    }
}

/// The full-resolution URL for a thumbnail URL of the shape
/// `http(s)://t<digits>.nhentai.net/galleries/<gallery>/<page>t.<ext>`,
/// `<ext>` one of jpg, png, gif, webp, possibly followed by one more
/// `.<word>`; the result is `https://i.nhentai.net/galleries/<gallery>/<page>.<ext>`.
pub open spec fn thumb_rewrite(s: Seq<char>) -> Option<Seq<char>> {
    let a: int = if word_at(s, 0, "https://"@) {
        "https://"@.len() as int
    } else if word_at(s, 0, "http://"@) {
        "http://"@.len() as int
    } else {
        -1
    };
    if a < 0 || !(a < s.len() && s[a] == 't') {
        None
    } else {
        let g0 = digit_run(s, a + 1) + ".nhentai.net/galleries/"@.len();
        let g1 = digit_run(s, g0);
        let page_end = digit_run(s, g1 + 1);
        let e0 = page_end + "t."@.len();
        let ext = ext_at(s, e0);
        let r = e0 + ext.len();
        if word_at(s, digit_run(s, a + 1), ".nhentai.net/galleries/"@) && g1 > g0 && g1 < s.len()
            && s[g1] == '/' && page_end > g1 + 1 && word_at(s, page_end, "t."@) && ext.len() > 0 && (r
            == s.len() || (r + 1 < s.len() && s[r] == '.' && word_run(s, r + 1) == s.len())) {
            Some(
                "https://i.nhentai.net/galleries/"@ + s.subrange(g0, g1) + "/"@ + s.subrange(
                    g1 + 1,
                    page_end,
                ) + "."@ + ext,
            )
        } else {
            None
        }
    }
}

fn word_run_exec(v: &Vec<char>, i: usize) -> (r: usize)
    ensures
        r as int == word_run(v@, i as int),
        i <= r,
{
    let mut j = i;
    while j < v.len() && (is_alnum_char(v[j]) || v[j] == '_')
        invariant
            i <= j,
            word_run(v@, i as int) == word_run(v@, j as int),
        decreases v.len() - j,
    {
        j = j + 1;
    }
    j
}

fn ext_at_exec(v: &Vec<char>, i: usize) -> (r: Vec<char>)
    ensures
        r@ == ext_at(v@, i as int),
{
    let jpg = chars_of("jpg");
    let png = chars_of("png");
    let gif = chars_of("gif");
    let webp = chars_of("webp");
    if word_at_exec(v, i, &jpg) {
        jpg
    } else if word_at_exec(v, i, &png) {
        png
    } else if word_at_exec(v, i, &gif) {
        gif
    } else if word_at_exec(v, i, &webp) {
        webp
    } else {
        Vec::new()
    }
}

/// The full-resolution URL for a thumbnail URL, where it has the thumbnail shape.
pub fn thumbnail_to_image_url(thumbnail_url: &str) -> (r: Option<String>)
    ensures
        r matches Some(u) ==> thumb_rewrite(thumbnail_url@) == Some(u@),
        r is None ==> thumb_rewrite(thumbnail_url@) is None,
{
    let v = chars_of(thumbnail_url);
    let n = v.len();
    let https = chars_of("https://");
    let http = chars_of("http://");
    let a: usize = if word_at_exec(&v, 0, &https) {
        https.len()
    } else if word_at_exec(&v, 0, &http) {
        http.len()
    } else {
        return None;
    };
    if !(a < n && v[a] == 't') {
        return None;
    }
    let host = chars_of(".nhentai.net/galleries/");
    let h = digit_run_exec(&v, a + 1);
    if !word_at_exec(&v, h, &host) {
        return None;
    }
    let g0 = h + host.len();
    let g1 = digit_run_exec(&v, g0);
    if !(g1 > g0 && g1 < n && v[g1] == '/') {
        return None;
    }
    let page_end = digit_run_exec(&v, g1 + 1);
    let tdot = chars_of("t.");
    if !(page_end > g1 + 1 && word_at_exec(&v, page_end, &tdot)) {
        return None;
    }
    let e0 = page_end + tdot.len();
    let ext = ext_at_exec(&v, e0);
    if ext.len() == 0 {
        return None;
    }
    let r = e0 + ext.len();
    if !(r == n || (r + 1 < n && v[r] == '.' && word_run_exec(&v, r + 1) == n)) {
        return None;
    }
    let mut out = chars_of("https://i.nhentai.net/galleries/");
    append_chars(&mut out, &slice_chars(&v, g0, g1));
    append_chars(&mut out, &chars_of("/"));
    append_chars(&mut out, &slice_chars(&v, g1 + 1, page_end));
    append_chars(&mut out, &chars_of("."));
    append_chars(&mut out, &ext);
    Some(string_of(&out))
}

/// The `data-src` and `src` attributes of an image element.
pub struct ImageAttrs {
    pub data_src: Option<String>,
    pub src: Option<String>,
}

/// The source of an image: its `data-src`, else its `src`.
pub open spec fn image_source(a: ImageAttrs) -> Option<Seq<char>> {
    match a.data_src {
        Some(d) => Some(d@),
        None => match a.src {
            Some(s) => Some(s@),
            None => None,
        },
    }
}

/// The source of an image, as `image_source` states it.
pub fn image_source_of(a: &ImageAttrs) -> (r: Option<&String>)
    ensures
        r matches Some(s) ==> image_source(*a) == Some(s@),
        r is None ==> image_source(*a) is None,
{
    match &a.data_src {
        Some(d) => Some(d),
        None => match &a.src {
            Some(s) => Some(s),
            None => None,
        },
    }
}

/// The thumbnails as full-resolution URLs, in document order and without
/// repeats; a source that does not have the thumbnail shape is kept as it is.
pub open spec fn thumb_images(imgs: Seq<ImageAttrs>) -> Seq<Seq<char>>
    decreases imgs.len(),
{
    if imgs.len() == 0 {
        Seq::empty()
    } else {
        let out = thumb_images(imgs.drop_last());
        match image_source(imgs.last()) {
            None => out,
            Some(src) => {
                let n = absolute_url(src);
                let full = match thumb_rewrite(n) {
                    Some(f) => f,
                    None => n,
                };
                if n.len() == 0 || out.contains(full) {
                    out
                } else {
                    out.push(full)
                }
            },
        }
    }
}

/// The full-resolution URLs of the thumbnails, in document order, without repeats.
pub fn parse_thumbnail_image_urls(thumbs: &Vec<ImageAttrs>) -> (r: Vec<String>)
    ensures
        strs(r@) == thumb_images(thumbs@),
{
    let mut out: Vec<String> = Vec::new();
    let mut i: usize = 0;
    assert(strs(out@) =~= Seq::<Seq<char>>::empty());
    while i < thumbs.len()
        invariant
            i <= thumbs.len(),
            strs(out@) == thumb_images(thumbs@.subrange(0, i as int)),
        decreases thumbs.len() - i,
    {
        proof {
            let p = thumbs@.subrange(0, i as int + 1);
            assert(p.drop_last() =~= thumbs@.subrange(0, i as int));
            assert(p.last() == thumbs@[i as int]);
        }
        if let Some(src) = image_source_of(&thumbs[i]) {
            let n = normalize_url(src.as_str());
            if !n.as_str().is_empty() {
                let full = match thumbnail_to_image_url(n.as_str()) {
                    Some(f) => f,
                    None => n,
                };
                if !contains_string(&out, &full) {
                    out.push(full);
                    assert(strs(out@) =~= strs(out@.drop_last()).push(full@));
                }
            }
        }
        i = i + 1;
    }
    assert(thumbs@.subrange(0, thumbs.len() as int) =~= thumbs@);
    out
}

/// The images of a detail page: the embedded page data's, else the
/// thumbnails', else the cover alone where there is one; without repeats.
pub open spec fn resolved_images(
    scripts: Seq<String>,
    thumbs: Seq<ImageAttrs>,
    cover: Seq<char>,
) -> Seq<Seq<char>> {
    let first = match script_images(scripts) {
        Some(u) => u,
        None => Seq::empty(),
    };
    let second = if first.len() == 0 {
        thumb_images(thumbs)
    } else {
        first
    };
    let third = if second.len() == 0 && cover.len() > 0 {
        seq![cover]
    } else {
        second
    };
    append_unique(Seq::empty(), third)
}

/// The images of a detail page through the three tiers of `resolved_images`.
pub fn resolve_images(scripts: &Vec<String>, thumbs: &Vec<ImageAttrs>, cover: &String) -> (r: Vec<
    String,
>)
    ensures
        strs(r@) == resolved_images(scripts@, thumbs@, cover@),
{
    let mut images = match parse_script_image_urls(scripts) {
        Some(u) => u,
        None => Vec::new(),
    };
    if images.len() == 0 {
        images = parse_thumbnail_image_urls(thumbs);
    }
    if images.len() == 0 && !cover.as_str().is_empty() {
        images.push(cover.clone());
        assert(strs(images@) =~= seq![cover@]);
    }
    proof {
        assert(strs(Seq::<String>::empty()) =~= Seq::<Seq<char>>::empty());
    }
    deduplicate_strings(images)
}


proof fn lemma_script_images_same(a: Seq<String>, b: Seq<String>)
    requires
        strs(a) == strs(b),
    ensures
        script_images(a) == script_images(b),
    decreases a.len(),
{
    assert(a.len() == strs(a).len());
    if a.len() > 0 {
        assert(a[0]@ == strs(a)[0]);
        assert(strs(a.drop_first()) =~= strs(a).drop_first());
        assert(strs(b.drop_first()) =~= strs(b).drop_first());
        lemma_script_images_same(a.drop_first(), b.drop_first());
    }
}

proof fn lemma_thumb_images_same(a: Seq<ImageAttrs>, b: Seq<ImageAttrs>)
    requires
        a.len() == b.len(),
        forall|i: int| 0 <= i < a.len() ==> image_source(#[trigger] a[i]) == image_source(b[i]),
    ensures
        thumb_images(a) == thumb_images(b),
    decreases a.len(),
{
    if a.len() > 0 {
        assert forall|i: int| 0 <= i < a.drop_last().len() implies image_source(
            #[trigger] a.drop_last()[i],
        ) == image_source(b.drop_last()[i]) by {
            assert(image_source(a[i]) == image_source(b[i]));
        }
        lemma_thumb_images_same(a.drop_last(), b.drop_last());
        assert(image_source(a.last()) == image_source(b.last()));
    }
}

/// Scripts with the same text and thumbnails with the same sources give
/// the same images.
pub proof fn lemma_resolved_images_same(
    s1: Seq<String>,
    s2: Seq<String>,
    t1: Seq<ImageAttrs>,
    t2: Seq<ImageAttrs>,
    cover: Seq<char>,
)
    requires
        strs(s1) == strs(s2),
        t1.len() == t2.len(),
        forall|i: int| 0 <= i < t1.len() ==> image_source(#[trigger] t1[i]) == image_source(t2[i]),
    ensures
        resolved_images(s1, t1, cover) == resolved_images(s2, t2, cover),
{
    lemma_script_images_same(s1, s2);
    lemma_thumb_images_same(t1, t2);
}

} // verus!
