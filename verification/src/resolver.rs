use vstd::prelude::*;
use vstd::string::StringExecFns;
use crate::naming::str_to_chars;
use crate::naming::chars_to_string;
use crate::naming::dec_digits;
use crate::naming::lower_char;
use crate::naming::to_lower;
use crate::naming::sanitized;
use crate::naming::is_identity_char;
use crate::media::MediaItem;
use crate::media::ResolveResult;
use crate::media::ResolveError;
use crate::json::Json;
use crate::json::json_parse;
use crate::json::json_get;
use crate::json::json_as_str;
use crate::json::str_elems;

verus! {

// ---------------------------------------------------------------------------
// Post keys in URLs
// ---------------------------------------------------------------------------

/// A character that may appear in a post key.
pub open spec fn is_key_char(c: char) -> bool {
    ('A' <= c && c <= 'Z') || ('a' <= c && c <= 'z') || ('0' <= c && c <= '9') || c == '_' || c
        == '-'
}

/// The literal `lit` occurs in `s` at position `i`.
pub open spec fn lit_at(s: Seq<char>, i: int, lit: Seq<char>) -> bool {
    0 <= i && i + lit.len() <= s.len() && s.subrange(i, i + lit.len()) == lit
}

/// The leftmost occurrence of `lit` in `s` at or after `i`.
pub open spec fn find_lit_from(s: Seq<char>, i: int, lit: Seq<char>) -> Option<int>
    decreases s.len() - i,
    when 0 <= i <= s.len() && lit.len() >= 1
{
    if i + lit.len() > s.len() {
        None
    } else if lit_at(s, i, lit) {
        Some(i)
    } else {
        find_lit_from(s, i + 1, lit)
    }
}

/// Where the URL's authority component begins: after the first `://`,
/// or at the start for a scheme-less URL.
pub open spec fn url_authority_start(s: Seq<char>) -> int {
    match find_lit_from(s, 0, seq![':', '/', '/']) {
        Some(i) => i + 3,
        None => 0,
    }
}

/// A character that ends the authority component.
pub open spec fn is_authority_end_char(c: char) -> bool {
    c == '/' || c == '?' || c == '#'
}

/// The first authority-ending character at or after `i`, or the end.
pub open spec fn scan_authority_end(s: Seq<char>, i: int) -> int
    decreases s.len() - i,
    when 0 <= i <= s.len()
{
    if i >= s.len() {
        i
    } else if is_authority_end_char(s[i]) {
        i
    } else {
        scan_authority_end(s, i + 1)
    }
}

/// The URL's authority component: `userinfo@host:port`.
pub open spec fn url_authority(s: Seq<char>) -> Seq<char> {
    s.subrange(url_authority_start(s), scan_authority_end(s, url_authority_start(s)))
}

/// The rightmost `@` at or before `i`, if any: the end of the userinfo.
pub open spec fn last_at_sign(a: Seq<char>, i: int) -> Option<int>
    decreases i + 1,
    when i < a.len()
{
    if i < 0 {
        None
    } else if a[i] == '@' {
        Some(i)
    } else {
        last_at_sign(a, i - 1)
    }
}

/// The first `:` at or after `i`, or the end: where the port begins.
pub open spec fn scan_colon(a: Seq<char>, i: int) -> int
    decreases a.len() - i,
    when 0 <= i <= a.len()
{
    if i >= a.len() {
        i
    } else if a[i] == ':' {
        i
    } else {
        scan_colon(a, i + 1)
    }
}

/// The URL's host: the authority without its userinfo and port.
pub open spec fn url_host(s: Seq<char>) -> Seq<char> {
    let a = url_authority(s);
    let hs = match last_at_sign(a, a.len() - 1) {
        Some(j) => j + 1,
        None => 0int,
    };
    a.subrange(hs, scan_colon(a, hs))
}

/// Each character lowercased (host names compare case-insensitively).
pub open spec fn lower_seq(s: Seq<char>) -> Seq<char> {
    Seq::new(s.len(), |i: int| lower_char(s[i]))
}

/// The provider's domain.
pub open spec fn provider_domain() -> Seq<char> {
    seq!['i', 'n', 's', 't', 'a', 'g', 'r', 'a', 'm', '.', 'c', 'o', 'm']
}

/// The host matches the provider's domain: it is the domain itself or a
/// subdomain of it.
pub open spec fn host_matches_domain(host: Seq<char>) -> bool {
    let h = lower_seq(host);
    let d = provider_domain();
    ||| h == d
    ||| (h.len() > d.len() && h.subrange(h.len() - d.len(), h.len() as int) == d && h[h.len()
        - d.len() - 1] == '.')
}

/// A character that ends the path component.
pub open spec fn is_path_end_char(c: char) -> bool {
    c == '?' || c == '#'
}

/// The first path-ending character at or after `i`, or the end.
pub open spec fn scan_path_end(s: Seq<char>, i: int) -> int
    decreases s.len() - i,
    when 0 <= i <= s.len()
{
    if i >= s.len() {
        i
    } else if is_path_end_char(s[i]) {
        i
    } else {
        scan_path_end(s, i + 1)
    }
}

/// The URL's path: from the end of the authority to the query or
/// fragment.
pub open spec fn url_path(s: Seq<char>) -> Seq<char> {
    let ae = scan_authority_end(s, url_authority_start(s));
    s.subrange(ae, scan_path_end(s, ae))
}

pub open spec fn p_path_prefix() -> Seq<char> {
    seq!['/', 'p', '/']
}

pub open spec fn reel_path_prefix() -> Seq<char> {
    seq!['/', 'r', 'e', 'e', 'l', '/']
}

/// Where the post key starts in a path shaped `/p/<key>` or
/// `/reel/<key>`, if the path has that shape.
pub open spec fn path_key_start(path: Seq<char>) -> Option<int> {
    if lit_at(path, 0, p_path_prefix()) {
        Some(3int)
    } else if lit_at(path, 0, reel_path_prefix()) {
        Some(6int)
    } else {
        None
    }
}

/// The length of the run of key characters starting at `j` (greedy
/// matching).
pub open spec fn key_run(s: Seq<char>, j: int) -> int
    decreases s.len() - j,
    when 0 <= j <= s.len()
{
    if j >= s.len() {
        0
    } else if is_key_char(s[j]) {
        1 + key_run(s, j + 1)
    } else {
        0
    }
}

/// The post key of a URL: present exactly when the URL's host is the
/// provider's domain (or a subdomain) and its path has the shape
/// `/p/<key>` or `/reel/<key>`; the key is the greedy run of key
/// characters after the prefix, and must be non-empty.
pub open spec fn spec_shortcode(s: Seq<char>) -> Option<Seq<char>> {
    if !host_matches_domain(url_host(s)) {
        None
    } else {
        let path = url_path(s);
        match path_key_start(path) {
            None => None,
            Some(ks) => {
                let r = key_run(path, ks);
                if r == 0 {
                    None
                } else {
                    Some(path.subrange(ks, ks + r))
                }
            },
        }
    }
}

fn key_char(c: char) -> (r: bool)
    ensures
        r == is_key_char(c),
{
    let u: u32 = c as u32;
    (65 <= u && u <= 90) || (97 <= u && u <= 122) || (48 <= u && u <= 57) || u == 95 || u == 45
}

fn scheme_sep_chars() -> (r: Vec<char>)
    ensures
        r@ == seq![':', '/', '/'],
{
    let v = vec![':', '/', '/'];
    proof {
        assert(v@ =~= seq![':', '/', '/']);
    }
    v
}

fn domain_chars() -> (r: Vec<char>)
    ensures
        r@ == provider_domain(),
{
    let v = vec!['i', 'n', 's', 't', 'a', 'g', 'r', 'a', 'm', '.', 'c', 'o', 'm'];
    proof {
        assert(v@ =~= provider_domain());
    }
    v
}

fn p_path_chars() -> (r: Vec<char>)
    ensures
        r@ == p_path_prefix(),
{
    let v = vec!['/', 'p', '/'];
    proof {
        assert(v@ =~= p_path_prefix());
    }
    v
}

fn reel_path_chars() -> (r: Vec<char>)
    ensures
        r@ == reel_path_prefix(),
{
    let v = vec!['/', 'r', 'e', 'e', 'l', '/'];
    proof {
        assert(v@ =~= reel_path_prefix());
    }
    v
}

/// Compares the characters at `i..` against a literal.
fn lit_at_exec(v: &Vec<char>, i: usize, lit: &Vec<char>) -> (r: bool)
    ensures
        r == lit_at(v@, i as int, lit@),
{
    if lit.len() > v.len() || i > v.len() - lit.len() {
        return false;
    }
    let mut k: usize = 0;
    while k < lit.len()
        invariant
            k <= lit@.len(),
            i + lit@.len() <= v@.len(),
            v@.len() <= usize::MAX,
            forall|t: int| 0 <= t < k ==> v@[i + t] == lit@[t],
        decreases lit@.len() - k,
    {
        if v[i + k] != lit[k] {
            proof {
                assert(v@.subrange(i as int, i as int + lit@.len())[k as int] == v@[i + k]);
            }
            return false;
        }
        k = k + 1;
    }
    proof {
        assert(v@.subrange(i as int, i as int + lit@.len()) =~= lit@);
    }
    true
}

// ---------------------------------------------------------------------------
// The page's structured-data blocks
// ---------------------------------------------------------------------------

/// The inner HTML of the elements a CSS selector picks out of a
/// document, in document order: the name for what the HTML parser
/// returns. `None` exactly when the selector text is invalid.
pub uninterp spec fn selected_inner_html(html: Seq<char>, selector: Seq<char>) -> Option<
    Vec<String>,
>;

/// Relies on `scraper::Selector::parse`, `scraper::Html::parse_document`,
/// `Html::select` and `ElementRef::inner_html`: the inner HTML of the
/// elements the selector picks, in document order — a deterministic
/// function of the document text and the selector text alone. `None`
/// exactly when the selector text is not a valid CSS selector.
#[verifier::external_body]
fn select_inner_html(html: &str, selector: &str) -> (r: Option<Vec<String>>)
    ensures
        r == selected_inner_html(html@, selector@),
{
    let sel = match scraper::Selector::parse(selector) {
        Ok(s) => s,
        Err(_) => return None,
    };
    let doc = scraper::Html::parse_document(html);
    Some(doc.select(&sel).map(|el| el.inner_html()).collect())
}


// ---------------------------------------------------------------------------
// Models of the resolved data
// ---------------------------------------------------------------------------

/// The mathematical view of a `MediaItem`.
#[verifier::ext_equal]
pub struct MediaItemModel {
    pub id: Seq<char>,
    pub media_type: Seq<char>,
    pub preview_url: Seq<char>,
    pub download_url: Seq<char>,
    pub extension: Seq<char>,
    pub index: Option<int>,
}

impl View for MediaItem {
    type V = MediaItemModel;

    open spec fn view(&self) -> MediaItemModel {
        MediaItemModel {
            id: self.id@,
            media_type: self.media_type@,
            preview_url: self.preview_url@,
            download_url: self.download_url@,
            extension: self.extension@,
            index: match self.index {
                Some(i) => Some(i as int),
                None => None,
            },
        }
    }
}

pub open spec fn items_view(items: Seq<MediaItem>) -> Seq<MediaItemModel> {
    items.map_values(|m: MediaItem| m@)
}

/// The mathematical view of a `ResolveResult`.
#[verifier::ext_equal]
pub struct ResolveResultModel {
    pub username: Seq<char>,
    pub shortcode: Seq<char>,
    pub media_items: Seq<MediaItemModel>,
}

impl View for ResolveResult {
    type V = ResolveResultModel;

    open spec fn view(&self) -> ResolveResultModel {
        ResolveResultModel {
            username: self.username@,
            shortcode: self.shortcode@,
            media_items: items_view(self.media_items@),
        }
    }
}

// ---------------------------------------------------------------------------
// Reading the structured-data block
// ---------------------------------------------------------------------------

/// A block is the post's data when its declared type is exactly
/// `ImageObject`.
pub open spec fn is_image_object(j: Json) -> bool {
    match json_get(j, "@type"@) {
        Some(t) => json_as_str(t) == Some("ImageObject"@),
        None => false,
    }
}

/// The first block that parses as JSON and is `ImageObject`-tagged.
pub open spec fn first_image_object(blocks: Seq<String>) -> Option<Json>
    decreases blocks.len(),
{
    if blocks.len() == 0 {
        None
    } else {
        match json_parse(blocks[0]@) {
            Some(j) => if is_image_object(j) {
                Some(j)
            } else {
                first_image_object(blocks.drop_first())
            },
            None => first_image_object(blocks.drop_first()),
        }
    }
}

/// The post's author: the string at `author.identifier.value`, or
/// `author` itself when that is a plain string.
pub open spec fn author_of(j: Json) -> Option<Seq<char>> {
    match json_get(j, "author"@) {
        None => None,
        Some(a) => {
            let deep = match json_get(a, "identifier"@) {
                Some(idf) => match json_get(idf, "value"@) {
                    Some(v) => json_as_str(v),
                    None => None,
                },
                None => None,
            };
            match deep {
                Some(s) => Some(s),
                None => json_as_str(a),
            }
        },
    }
}

/// The image URLs of the block: all string elements when `image` is an
/// array, the single URL when it is a string, nothing otherwise.
pub open spec fn image_url_list(j: Json) -> Seq<Seq<char>> {
    match json_get(j, "image"@) {
        Some(v) => match v {
            Json::Arr(a) => str_elems(a@),
            Json::Str(s) => seq![s@],
            _ => Seq::<Seq<char>>::empty(),
        },
        None => Seq::<Seq<char>>::empty(),
    }
}

/// Image items carry sequence indices exactly when `image` was an array.
pub open spec fn image_indexed(j: Json) -> bool {
    match json_get(j, "image"@) {
        Some(v) => v is Arr,
        None => false,
    }
}

/// The video URLs of the block, as `image_url_list`.
pub open spec fn video_url_list(j: Json) -> Seq<Seq<char>> {
    match json_get(j, "video"@) {
        Some(v) => match v {
            Json::Arr(a) => str_elems(a@),
            Json::Str(s) => seq![s@],
            _ => Seq::<Seq<char>>::empty(),
        },
        None => Seq::<Seq<char>>::empty(),
    }
}

pub open spec fn video_indexed(j: Json) -> bool {
    match json_get(j, "video"@) {
        Some(v) => v is Arr,
        None => false,
    }
}

/// The identifier of the item at overall position `p` (0-based): the post
/// key alone for a single-item post, else the key with the 1-based
/// position appended.
pub open spec fn item_id(sc: Seq<char>, total: int, p: int) -> Seq<char> {
    if total == 1 {
        sc
    } else {
        sc + seq!['_'] + dec_digits(p + 1)
    }
}

/// The full ordered media list of a block: images first, then videos.
/// Sequence indices are dense, 1-based, in discovery order, and present
/// exactly on items whose source field was an array.
pub open spec fn media_models(j: Json, sc: Seq<char>) -> Seq<MediaItemModel> {
    let imgs = image_url_list(j);
    let vids = video_url_list(j);
    let n_img = imgs.len() as int;
    let total = n_img + vids.len() as int;
    let img_base: int = if image_indexed(j) {
        n_img
    } else {
        0
    };
    Seq::new(
        (imgs.len() + vids.len()) as nat,
        |p: int|
            if p < n_img {
                MediaItemModel {
                    id: item_id(sc, total, p),
                    media_type: "image"@,
                    preview_url: imgs[p],
                    download_url: imgs[p],
                    extension: "jpg"@,
                    index: if image_indexed(j) {
                        Some(p + 1)
                    } else {
                        None
                    },
                }
            } else {
                MediaItemModel {
                    id: item_id(sc, total, p),
                    media_type: "video"@,
                    preview_url: vids[p - n_img],
                    download_url: vids[p - n_img],
                    extension: "mp4"@,
                    index: if video_indexed(j) {
                        Some(img_base + (p - n_img) + 1)
                    } else {
                        None
                    },
                }
            },
    )
}

/// The CSS selector for the page's structured-data blocks.
pub open spec fn ld_json_selector() -> Seq<char> {
    "script[type='application/ld+json']"@
}

/// What resolving a post URL against a fetched page yields: the whole
/// resolver, as a function of the URL, the page text, and the two named
/// parser results.
pub open spec fn spec_resolve(url: Seq<char>, html: Seq<char>) -> Result<
    ResolveResultModel,
    ResolveError,
> {
    match spec_shortcode(url) {
        None => Err(ResolveError::InvalidUrl),
        Some(sc) => match selected_inner_html(html, ld_json_selector()) {
            None => Err(ResolveError::NoStructuredData),
            Some(blocks) => match first_image_object(blocks@) {
                None => Err(ResolveError::NoStructuredData),
                Some(j) => match author_of(j) {
                    None => Err(ResolveError::MissingAuthor),
                    Some(a) => {
                        let items = media_models(j, sc);
                        if items.len() == 0 {
                            Err(ResolveError::NoMediaFound)
                        } else {
                            Ok(
                                ResolveResultModel {
                                    username: sanitized(a),
                                    shortcode: sc,
                                    media_items: items,
                                },
                            )
                        }
                    },
                },
            },
        },
    }
}

// ---------------------------------------------------------------------------
// Well-formedness of a resolve result
// ---------------------------------------------------------------------------

/// How many of the first `upto` items carry a sequence index.
pub open spec fn num_indexed(items: Seq<MediaItemModel>, upto: int) -> int
    decreases upto,
{
    if upto <= 0 {
        0
    } else {
        num_indexed(items, upto - 1) + if 0 <= upto - 1 < items.len() && items[upto - 1].index
            is Some {
            1int
        } else {
            0int
        }
    }
}

pub open spec fn item_kind_ok(it: MediaItemModel) -> bool {
    (it.media_type == "image"@ && it.extension == "jpg"@) || (it.media_type == "video"@
        && it.extension == "mp4"@)
}

/// The data-model invariant of a resolve result: a non-empty item list,
/// pairwise-distinct identifiers, an identity made only of identity
/// characters, extensions that follow the kind, and sequence indices
/// that are dense and 1-based in discovery order.
pub open spec fn wf_model(m: ResolveResultModel) -> bool {
    &&& m.media_items.len() > 0
    &&& (forall|a: int, b: int|
        0 <= a < b < m.media_items.len() ==> m.media_items[a].id != m.media_items[b].id)
    &&& (forall|k: int|
        0 <= k < m.username.len() ==> is_identity_char(#[trigger] m.username[k]))
    &&& (forall|a: int| 0 <= a < m.media_items.len() ==> item_kind_ok(#[trigger] m.media_items[a]))
    &&& (forall|a: int|
        0 <= a < m.media_items.len() ==> ((#[trigger] m.media_items[a].index) is Some
            ==> m.media_items[a].index == Some(num_indexed(m.media_items, a) + 1)))
}

impl ResolveResult {
    /// The data-model invariant, stated on the executable type.
    pub open spec fn wf(&self) -> bool {
        wf_model(self@)
    }
}


// ---------------------------------------------------------------------------
// Scanning URLs
// ---------------------------------------------------------------------------

/// Finds the leftmost occurrence of a literal.
fn find_lit(v: &Vec<char>, lit: &Vec<char>) -> (r: Option<usize>)
    requires
        lit@.len() >= 1,
    ensures
        match r {
            Some(i) => find_lit_from(v@, 0, lit@) == Some(i as int) && i + lit@.len() <= v@.len(),
            None => find_lit_from(v@, 0, lit@) is None,
        },
{
    let n = v.len();
    if lit.len() > n {
        return None;
    }
    let mut i: usize = 0;
    while i <= n - lit.len()
        invariant
            1 <= lit@.len() <= n,
            i <= n - lit@.len() + 1,
            n == v@.len(),
            find_lit_from(v@, 0, lit@) == find_lit_from(v@, i as int, lit@),
        decreases n - i,
    {
        if lit_at_exec(v, i, lit) {
            return Some(i);
        }
        proof {
            assert(find_lit_from(v@, i as int, lit@) == find_lit_from(v@, i as int + 1, lit@));
        }
        i = i + 1;
    }
    proof {
        assert(find_lit_from(v@, i as int, lit@) is None);
    }
    None
}

fn scan_authority_end_exec(v: &Vec<char>, from: usize) -> (r: usize)
    requires
        from <= v@.len(),
    ensures
        r as int == scan_authority_end(v@, from as int),
        from <= r <= v@.len(),
{
    let n = v.len();
    let mut j: usize = from;
    while j < n
        invariant
            from <= j <= n,
            n == v@.len(),
            scan_authority_end(v@, from as int) == scan_authority_end(v@, j as int),
        decreases n - j,
    {
        let c = v[j];
        if c == '/' || c == '?' || c == '#' {
            return j;
        }
        proof {
            assert(scan_authority_end(v@, j as int) == scan_authority_end(v@, j as int + 1));
        }
        j = j + 1;
    }
    j
}

fn scan_path_end_exec(v: &Vec<char>, from: usize) -> (r: usize)
    requires
        from <= v@.len(),
    ensures
        r as int == scan_path_end(v@, from as int),
        from <= r <= v@.len(),
{
    let n = v.len();
    let mut j: usize = from;
    while j < n
        invariant
            from <= j <= n,
            n == v@.len(),
            scan_path_end(v@, from as int) == scan_path_end(v@, j as int),
        decreases n - j,
    {
        let c = v[j];
        if c == '?' || c == '#' {
            return j;
        }
        proof {
            assert(scan_path_end(v@, j as int) == scan_path_end(v@, j as int + 1));
        }
        j = j + 1;
    }
    j
}

fn scan_colon_exec(v: &Vec<char>, from: usize) -> (r: usize)
    requires
        from <= v@.len(),
    ensures
        r as int == scan_colon(v@, from as int),
        from <= r <= v@.len(),
{
    let n = v.len();
    let mut j: usize = from;
    while j < n
        invariant
            from <= j <= n,
            n == v@.len(),
            scan_colon(v@, from as int) == scan_colon(v@, j as int),
        decreases n - j,
    {
        if v[j] == ':' {
            return j;
        }
        proof {
            assert(scan_colon(v@, j as int) == scan_colon(v@, j as int + 1));
        }
        j = j + 1;
    }
    j
}

fn find_last_at(v: &Vec<char>) -> (r: Option<usize>)
    ensures
        match r {
            Some(j) => last_at_sign(v@, v@.len() - 1) == Some(j as int) && j < v@.len(),
            None => last_at_sign(v@, v@.len() - 1) is None,
        },
{
    let n = v.len();
    let mut j: usize = n;
    while j > 0
        invariant
            j <= n,
            n == v@.len(),
            last_at_sign(v@, n as int - 1) == last_at_sign(v@, j as int - 1),
        decreases j,
    {
        j = j - 1;
        if v[j] == '@' {
            return Some(j);
        }
        proof {
            assert(last_at_sign(v@, j as int) == last_at_sign(v@, j as int - 1));
        }
    }
    None
}

/// Lowercases every character.
fn lower_chars(v: &Vec<char>) -> (r: Vec<char>)
    ensures
        r@ == lower_seq(v@),
{
    let mut r: Vec<char> = Vec::new();
    let mut i: usize = 0;
    while i < v.len()
        invariant
            i <= v@.len(),
            r@.len() == i,
            forall|k: int| 0 <= k < i ==> r@[k] == lower_char(v@[k]),
        decreases v@.len() - i,
    {
        let c = to_lower(v[i]);
        r.push(c);
        i = i + 1;
    }
    proof {
        assert(r@ =~= lower_seq(v@));
    }
    r
}

/// Whether the host is the provider's domain or a subdomain of it.
fn host_matches_exec(host: &Vec<char>) -> (r: bool)
    ensures
        r == host_matches_domain(host@),
{
    let h = lower_chars(host);
    let d = domain_chars();
    if h.len() == d.len() {
        let eq = lit_at_exec(&h, 0, &d);
        proof {
            if eq {
                assert(h@.subrange(0, d@.len() as int) =~= h@);
            } else {
                if h@ == d@ {
                    assert(h@.subrange(0, d@.len() as int) =~= d@);
                }
            }
        }
        eq
    } else if h.len() > d.len() {
        let off = h.len() - d.len();
        let suffix_ok = lit_at_exec(&h, off, &d);
        if suffix_ok {
            h[off - 1] == '.'
        } else {
            false
        }
    } else {
        proof {
            assert(h@.len() < d@.len());
        }
        false
    }
}
fn run_end(v: &Vec<char>, ks: usize) -> (e: usize)
    requires
        ks <= v@.len(),
    ensures
        ks <= e <= v@.len(),
        key_run(v@, ks as int) == e - ks,
{
    let n = v.len();
    let mut e: usize = ks;
    while e < n
        invariant
            ks <= e <= n,
            n == v@.len(),
            key_run(v@, ks as int) == (e - ks) + key_run(v@, e as int),
        decreases n - e,
    {
        if !key_char(v[e]) {
            return e;
        }
        e = e + 1;
    }
    e
}

fn copy_range(v: &Vec<char>, a: usize, b: usize) -> (r: Vec<char>)
    requires
        a <= b <= v@.len(),
    ensures
        r@ == v@.subrange(a as int, b as int),
{
    let mut r: Vec<char> = Vec::new();
    let mut i: usize = a;
    while i < b
        invariant
            a <= i <= b <= v@.len(),
            r@ == v@.subrange(a as int, i as int),
        decreases b - i,
    {
        r.push(v[i]);
        proof {
            assert(v@.subrange(a as int, i as int + 1) =~= v@.subrange(a as int, i as int).push(
                v@[i as int],
            ));
        }
        i = i + 1;
    }
    r
}

// ---------------------------------------------------------------------------
// The provider
// ---------------------------------------------------------------------------

/// The capability a media provider offers: a stable identifier,
/// recognizing its post URLs, and resolving a fetched post page into an
/// ordered media list. Fetching the page is the caller's part; the page
/// text comes in as an argument.
pub trait Provider {
    /// The provider's stable identifier, which namespaces its download
    /// subdirectory.
    spec fn spec_id(&self) -> Seq<char>;

    /// Whether `url` is one of this provider's post URLs.
    spec fn spec_matches(&self, url: Seq<char>) -> bool;

    /// What resolving `url` against the page text `html` yields.
    spec fn spec_resolve(&self, url: Seq<char>, html: Seq<char>) -> Result<
        ResolveResultModel,
        ResolveError,
    >;

    fn id(&self) -> (r: &'static str)
        ensures
            r@ == self.spec_id(),
    ;

    fn matches(&self, url: &str) -> (r: bool)
        ensures
            r == self.spec_matches(url@),
    ;

    fn resolve(&self, url: &str, html: &str) -> (r: Result<ResolveResult, ResolveError>)
        ensures
            match r {
                Ok(res) => self.spec_resolve(url@, html@) == Ok::<
                    ResolveResultModel,
                    ResolveError,
                >(res@) && res.wf(),
                Err(e) => self.spec_resolve(url@, html@) == Err::<
                    ResolveResultModel,
                    ResolveError,
                >(e),
            },
    ;
}

/// The one provider implemented: resolves posts of the source site from
/// the `ImageObject` structured-data block embedded in the post page.
pub struct InstagramProvider {}

impl InstagramProvider {
    pub fn new() -> (r: InstagramProvider) {
        InstagramProvider {  }
    }

    /// Extracts the post key from a post URL: the URL's host must be the
    /// provider's domain (or a subdomain), and the key comes greedily
    /// from a path shaped `/p/<key>` or `/reel/<key>`.
    pub fn extract_shortcode(&self, url: &str) -> (r: Option<String>)
        ensures
            match r {
                Some(sc) => spec_shortcode(url@) == Some(sc@),
                None => spec_shortcode(url@) is None,
            },
    {
        let v = str_to_chars(url);
        let n = v.len();
        let sep = scheme_sep_chars();
        let astart: usize;
        match find_lit(&v, &sep) {
            Some(i) => {
                proof {
                    assert(sep@.len() == 3);
                    assert(i + 3 <= n);
                }
                astart = i + 3;
            },
            None => {
                astart = 0;
            },
        }
        proof {
            assert(astart as int == url_authority_start(v@));
        }
        let aend = scan_authority_end_exec(&v, astart);
        let authority = copy_range(&v, astart, aend);
        proof {
            assert(authority@ == url_authority(v@));
        }
        let hstart: usize = match find_last_at(&authority) {
            Some(j) => j + 1,
            None => 0,
        };
        let hend = scan_colon_exec(&authority, hstart);
        let host = copy_range(&authority, hstart, hend);
        proof {
            assert(host@ == url_host(v@));
        }
        if !host_matches_exec(&host) {
            return None;
        }
        let pend = scan_path_end_exec(&v, aend);
        let path = copy_range(&v, aend, pend);
        proof {
            assert(path@ == url_path(v@));
        }
        let pp = p_path_chars();
        let rp = reel_path_chars();
        let ks: usize = if lit_at_exec(&path, 0, &pp) {
            3
        } else if lit_at_exec(&path, 0, &rp) {
            6
        } else {
            return None;
        };
        proof {
            assert(path_key_start(path@) == Some(ks as int));
        }
        let e = run_end(&path, ks);
        if e == ks {
            return None;
        }
        let kc = copy_range(&path, ks, e);
        let sc = chars_to_string(&kc);
        Some(sc)
    }

    /// The canonical page URL of a post, built from its key.
    pub fn post_page_url(&self, shortcode: &str) -> (r: String)
        ensures
            r@ == "https://www.instagram.com/p/"@ + shortcode@ + "/"@,
    {
        let mut s = String::from_str("https://www.instagram.com/p/");
        s.append(shortcode);
        s.append("/");
        s
    }
}

// ---------------------------------------------------------------------------
// Reading the block (executable)
// ---------------------------------------------------------------------------

fn is_image_object_exec(j: &Json) -> (r: bool)
    ensures
        r == is_image_object(*j),
{
    let k = String::from_str("@type");
    match crate::json::get_field(j, &k) {
        Some(t) => match crate::json::as_str_value(t) {
            Some(s) => {
                let want = String::from_str("ImageObject");
                *s == want
            },
            None => false,
        },
        None => false,
    }
}

fn find_image_object(blocks: &Vec<String>) -> (r: Option<Json>)
    ensures
        r == first_image_object(blocks@),
{
    proof {
        assert(blocks@.skip(0) =~= blocks@);
    }
    let mut i: usize = 0;
    while i < blocks.len()
        invariant
            i <= blocks@.len(),
            first_image_object(blocks@) == first_image_object(blocks@.skip(i as int)),
        decreases blocks@.len() - i,
    {
        proof {
            assert(blocks@.skip(i as int)[0] == blocks@[i as int]);
            assert(blocks@.skip(i as int).drop_first() =~= blocks@.skip(i as int + 1));
        }
        match crate::json::parse_json(blocks[i].as_str()) {
            Some(j) => {
                if is_image_object_exec(&j) {
                    return Some(j);
                }
            },
            None => {},
        }
        i = i + 1;
    }
    proof {
        assert(blocks@.skip(blocks@.len() as int).len() == 0);
    }
    None
}

/// Reads the author out of a block: `author.identifier.value` first,
/// the plain `author` string as the fallback.
pub fn extract_author<'a>(j: &'a Json) -> (r: Option<&'a String>)
    ensures
        match r {
            Some(s) => author_of(*j) == Some(s@),
            None => author_of(*j) is None,
        },
{
    let k_author = String::from_str("author");
    match crate::json::get_field(j, &k_author) {
        None => None,
        Some(a) => {
            let k_id = String::from_str("identifier");
            let deep = match crate::json::get_field(a, &k_id) {
                Some(idf) => {
                    let k_val = String::from_str("value");
                    match crate::json::get_field(idf, &k_val) {
                        Some(v) => crate::json::as_str_value(v),
                        None => None,
                    }
                },
                None => None,
            };
            match deep {
                Some(s) => Some(s),
                None => crate::json::as_str_value(a),
            }
        },
    }
}


// ---------------------------------------------------------------------------
// Building the media list (executable)
// ---------------------------------------------------------------------------

/// Builds the ordered media list of a block: one image item per entry of
/// the `image` field, then one video item per entry of `video`, with
/// identifiers and sequence indices exactly as `media_models` states.
pub fn build_media_items(j: &Json, sc: &String) -> (r: Vec<MediaItem>)
    ensures
        items_view(r@) == media_models(*j, sc@),
{
    let ghost imgs = image_url_list(*j);
    let ghost vids = video_url_list(*j);
    let ghost iidx = image_indexed(*j);
    let ghost vidx = video_indexed(*j);

    let k_image = String::from_str("image");
    let mut img_urls: Vec<String> = Vec::new();
    let mut img_indexed = false;
    match crate::json::get_field(j, &k_image) {
        Some(v) => match v {
            Json::Arr(a) => {
                img_urls = crate::json::collect_str_elems(a);
                img_indexed = true;
                proof {
                    assert(crate::naming::name_views(img_urls@) == imgs);
                    assert(img_indexed == iidx);
                }
            },
            Json::Str(s) => {
                let c = s.clone();
                img_urls.push(c);
                proof {
                    assert(crate::naming::name_views(img_urls@) =~= seq![s@]);
                    assert(crate::naming::name_views(img_urls@) == imgs);
                    assert(img_indexed == iidx);
                }
            },
            _ => {
                proof {
                    assert(crate::naming::name_views(img_urls@) =~= imgs);
                    assert(img_indexed == iidx);
                }
            },
        },
        None => {
            proof {
                assert(crate::naming::name_views(img_urls@) =~= imgs);
                assert(img_indexed == iidx);
            }
        },
    }
    let k_video = String::from_str("video");
    let mut vid_urls: Vec<String> = Vec::new();
    let mut vid_indexed = false;
    match crate::json::get_field(j, &k_video) {
        Some(v) => match v {
            Json::Arr(a) => {
                vid_urls = crate::json::collect_str_elems(a);
                vid_indexed = true;
                proof {
                    assert(crate::naming::name_views(vid_urls@) == vids);
                    assert(vid_indexed == vidx);
                }
            },
            Json::Str(s) => {
                let c = s.clone();
                vid_urls.push(c);
                proof {
                    assert(crate::naming::name_views(vid_urls@) =~= seq![s@]);
                    assert(crate::naming::name_views(vid_urls@) == vids);
                    assert(vid_indexed == vidx);
                }
            },
            _ => {
                proof {
                    assert(crate::naming::name_views(vid_urls@) =~= vids);
                    assert(vid_indexed == vidx);
                }
            },
        },
        None => {
            proof {
                assert(crate::naming::name_views(vid_urls@) =~= vids);
                assert(vid_indexed == vidx);
            }
        },
    }

    let n_img = img_urls.len();
    let mut all: Vec<(String, bool)> = Vec::new();
    let mut t: usize = 0;
    while t < img_urls.len()
        invariant
            t <= img_urls@.len(),
            all@.len() == t,
            crate::naming::name_views(img_urls@) == imgs,
            forall|q: int|
                0 <= q < t ==> (#[trigger] all@[q]).0@ == imgs[q] && all@[q].1 == false,
        decreases img_urls@.len() - t,
    {
        let c = img_urls[t].clone();
        all.push((c, false));
        t = t + 1;
    }
    let mut u: usize = 0;
    while u < vid_urls.len()
        invariant
            u <= vid_urls@.len(),
            n_img == img_urls@.len(),
            all@.len() == n_img + u,
            crate::naming::name_views(img_urls@) == imgs,
            crate::naming::name_views(vid_urls@) == vids,
            forall|q: int|
                0 <= q < n_img ==> (#[trigger] all@[q]).0@ == imgs[q] && all@[q].1 == false,
            forall|q: int|
                n_img <= q < n_img + u ==> (#[trigger] all@[q]).0@ == vids[q - n_img]
                    && all@[q].1 == true,
        decreases vid_urls@.len() - u,
    {
        let c = vid_urls[u].clone();
        all.push((c, true));
        u = u + 1;
    }

    let total = all.len();
    let img_base: usize = if img_indexed {
        n_img
    } else {
        0
    };
    let ghost models = media_models(*j, sc@);
    proof {
        assert(models.len() == total);
    }
    let mut items: Vec<MediaItem> = Vec::new();
    let mut p: usize = 0;
    while p < total
        invariant
            p <= total,
            total == all@.len(),
            n_img <= total,
            models == media_models(*j, sc@),
            models.len() == total,
            imgs == image_url_list(*j),
            vids == video_url_list(*j),
            n_img == imgs.len(),
            total == imgs.len() + vids.len(),
            img_indexed == image_indexed(*j),
            vid_indexed == video_indexed(*j),
            img_base == if img_indexed { n_img as int } else { 0int },
            forall|q: int| 0 <= q < n_img ==> (#[trigger] all@[q]).0@ == imgs[q] && all@[q].1 == false,
            forall|q: int|
                n_img <= q < total ==> (#[trigger] all@[q]).0@ == vids[q - n_img] && all@[q].1
                    == true,
            items_view(items@) == models.take(p as int),
        decreases total - p,
    {
        let is_vid = all[p].1;
        let url = all[p].0.clone();
        let url2 = all[p].0.clone();
        let id: String = if total == 1 {
            sc.clone()
        } else {
            let mut ids = sc.clone();
            ids.append("_");
            let d = crate::naming::dec_chars((p + 1) as u64);
            let dsv = chars_to_string(&d);
            ids.append(dsv.as_str());
            proof {
                reveal_strlit("_");
                assert(ids@ =~= sc@ + seq!['_'] + dec_digits(p as int + 1));
            }
            ids
        };
        proof {
            assert(id@ == item_id(sc@, total as int, p as int));
        }
        let mt: String;
        let ext: String;
        let idx: Option<usize>;
        if is_vid {
            mt = String::from_str("video");
            ext = String::from_str("mp4");
            idx = if vid_indexed {
                Some(img_base + (p - n_img) + 1)
            } else {
                None
            };
        } else {
            mt = String::from_str("image");
            ext = String::from_str("jpg");
            idx = if img_indexed {
                Some(p + 1)
            } else {
                None
            };
        }
        let item = MediaItem {
            id,
            media_type: mt,
            preview_url: url,
            download_url: url2,
            extension: ext,
            index: idx,
        };
        proof {
            assert(item@ =~= models[p as int]);
        }
        let ghost pre = items@;
        items.push(item);
        proof {
            assert(items@ == pre.push(item));
            assert(items_view(pre).len() == pre.len());
            assert(pre.len() == p as int);
            assert forall|k: int| 0 <= k < p + 1 implies items_view(items@)[k] == models.take(
                p as int + 1,
            )[k] by {
                if k < p {
                    assert(pre.push(item)[k] == pre[k]);
                    assert(items_view(pre)[k] == models.take(p as int)[k]);
                } else {
                    assert(items@[k] == item);
                }
            }
            assert(items_view(items@) =~= models.take(p as int + 1));
        }
        p = p + 1;
    }
    proof {
        assert(models.take(total as int) =~= models);
    }
    items
}

// ---------------------------------------------------------------------------
// Laws of the media list
// ---------------------------------------------------------------------------

proof fn lemma_num_indexed_models(j: Json, sc: Seq<char>, upto: int)
    requires
        0 <= upto <= media_models(j, sc).len(),
    ensures
        num_indexed(media_models(j, sc), upto) == (if image_indexed(j) {
            if upto <= image_url_list(j).len() {
                upto
            } else {
                image_url_list(j).len() as int
            }
        } else {
            0int
        }) + (if video_indexed(j) {
            if upto > image_url_list(j).len() {
                upto - image_url_list(j).len()
            } else {
                0int
            }
        } else {
            0int
        }),
    decreases upto,
{
    if upto > 0 {
        lemma_num_indexed_models(j, sc, upto - 1);
    }
}

/// Every non-empty media list, joined with a sanitized identity and its
/// post key, satisfies the data-model invariant: distinct identifiers,
/// kind-derived extensions, and dense 1-based sequence indices in
/// discovery order.
pub proof fn lemma_media_models_wf(j: Json, sc: Seq<char>, a: Seq<char>)
    requires
        media_models(j, sc).len() > 0,
    ensures
        wf_model(
            ResolveResultModel {
                username: sanitized(a),
                shortcode: sc,
                media_items: media_models(j, sc),
            },
        ),
{
    let items = media_models(j, sc);
    let total = items.len() as int;
    crate::naming::lemma_sanitized_chars_ok(a);
    assert forall|x: int, y: int| 0 <= x < y < total implies items[x].id != items[y].id by {
        if total == 1 {
        } else {
            if items[x].id == items[y].id {
                crate::naming::lemma_dec_suffix_injective(sc + seq!['_'], x + 1, y + 1);
            }
        }
    }
    assert forall|x: int|
        0 <= x < total implies ((#[trigger] items[x].index) is Some ==> items[x].index == Some(
        num_indexed(items, x) + 1,
    )) by {
        lemma_num_indexed_models(j, sc, x);
    }
}

// ---------------------------------------------------------------------------
// Resolving a fetched page
// ---------------------------------------------------------------------------

impl Provider for InstagramProvider {
    open spec fn spec_id(&self) -> Seq<char> {
        "instagram"@
    }

    open spec fn spec_matches(&self, url: Seq<char>) -> bool {
        spec_shortcode(url) is Some
    }

    open spec fn spec_resolve(&self, url: Seq<char>, html: Seq<char>) -> Result<
        ResolveResultModel,
        ResolveError,
    > {
        spec_resolve(url, html)
    }

    fn id(&self) -> (r: &'static str) {
        "instagram"
    }

    /// A URL matches exactly when a post key can be extracted from it.
    fn matches(&self, url: &str) -> (r: bool) {
        self.extract_shortcode(url).is_some()
    }

    /// Resolves a post URL against its fetched page text: re-extracts the
    /// post key, finds the first `ImageObject` structured-data block,
    /// reads the author, and builds the ordered media list.
    fn resolve(&self, url: &str, html: &str) -> (r: Result<ResolveResult, ResolveError>) {
        let sc = match self.extract_shortcode(url) {
            Some(s) => s,
            None => {
                return Err(ResolveError::InvalidUrl);
            },
        };
        let blocks = match select_inner_html(html, "script[type='application/ld+json']") {
            Some(b) => b,
            None => {
                return Err(ResolveError::NoStructuredData);
            },
        };
        let jv = match find_image_object(&blocks) {
            Some(x) => x,
            None => {
                return Err(ResolveError::NoStructuredData);
            },
        };
        let author = match extract_author(&jv) {
            Some(s) => s.clone(),
            None => {
                return Err(ResolveError::MissingAuthor);
            },
        };
        let username = crate::naming::sanitize_username(author.as_str());
        let items = build_media_items(&jv, &sc);
        if items.len() == 0 {
            return Err(ResolveError::NoMediaFound);
        }
        let res = ResolveResult { username, shortcode: sc, media_items: items };
        proof {
            let m = ResolveResultModel {
                username: sanitized(author@),
                shortcode: res.shortcode@,
                media_items: media_models(jv, res.shortcode@),
            };
            assert(res@ =~= m);
            assert(spec_resolve(url@, html@) == Ok::<ResolveResultModel, ResolveError>(m));
            lemma_media_models_wf(jv, res.shortcode@, author@);
        }
        Ok(res)
    }
}

} // verus!
