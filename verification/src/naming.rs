use vstd::prelude::*;
use vstd::string::StrSliceExecFns;
use vstd::string::StringExecFns;

verus! {

// ---------------------------------------------------------------------------
// Characters and sanitization
// ---------------------------------------------------------------------------

/// A character that may appear in a sanitized identity: lowercase ASCII
/// letters, digits, underscore and hyphen.
pub open spec fn is_identity_char(c: char) -> bool {
    ('a' <= c && c <= 'z') || ('0' <= c && c <= '9') || c == '_' || c == '-'
}

/// ASCII lowercasing of a single character; everything but `'A'..='Z'`
/// is left alone.
pub open spec fn lower_char(c: char) -> char {
    if 'A' <= c && c <= 'Z' {
        ((c as u32) + 32) as char
    } else {
        c
    }
}

/// The sanitized form of a character sequence: each character lowercased,
/// then only identity characters kept, in order.
pub open spec fn sanitized(s: Seq<char>) -> Seq<char>
    decreases s.len(),
{
    if s.len() == 0 {
        Seq::<char>::empty()
    } else {
        let prior = sanitized(s.drop_last());
        let c = lower_char(s.last());
        if is_identity_char(c) {
            prior.push(c)
        } else {
            prior
        }
    }
}

pub fn identity_char(c: char) -> (r: bool)
    ensures
        r == is_identity_char(c),
{
    let u: u32 = c as u32;
    (97 <= u && u <= 122) || (48 <= u && u <= 57) || u == 95 || u == 45
}

pub fn to_lower(c: char) -> (r: char)
    ensures
        r == lower_char(c),
{
    let u: u32 = c as u32;
    if 65 <= u && u <= 90 {
        (((u as u8) + 32) as char)
    } else {
        c
    }
}

/// Collects the characters of a string slice into a vector.
pub fn str_to_chars(s: &str) -> (r: Vec<char>)
    ensures
        r@ == s@,
{
    let n: usize = s.unicode_len();
    let mut r: Vec<char> = Vec::new();
    let mut i: usize = 0;
    while i < n
        invariant
            i <= n,
            n == s@.len(),
            r@ == s@.take(i as int),
        decreases n - i,
    {
        let c = s.get_char(i);
        r.push(c);
        proof {
            assert(s@.take(i + 1 as int) =~= s@.take(i as int).push(s@[i as int]));
        }
        i = i + 1;
    }
    proof {
        assert(s@.take(n as int) =~= s@);
    }
    r
}

/// Relies on `String::push`: appends one character to the string.
#[verifier::external_body]
fn push_char(s: &mut String, c: char)
    ensures
        final(s)@ == old(s)@.push(c),
{
    s.push(c);
}

/// Builds a string from a vector of characters.
pub fn chars_to_string(v: &Vec<char>) -> (r: String)
    ensures
        r@ == v@,
{
    let mut r = String::new();
    let mut i: usize = 0;
    while i < v.len()
        invariant
            i <= v@.len(),
            r@ == v@.take(i as int),
        decreases v@.len() - i,
    {
        push_char(&mut r, v[i]);
        proof {
            assert(v@.take(i + 1 as int) =~= v@.take(i as int).push(v@[i as int]));
        }
        i = i + 1;
    }
    proof {
        assert(v@.take(v@.len() as int) =~= v@);
    }
    r
}

pub fn sanitize_chars(v: &Vec<char>) -> (r: Vec<char>)
    ensures
        r@ == sanitized(v@),
{
    let mut r: Vec<char> = Vec::new();
    let mut i: usize = 0;
    while i < v.len()
        invariant
            i <= v@.len(),
            r@ == sanitized(v@.take(i as int)),
        decreases v@.len() - i,
    {
        let c = to_lower(v[i]);
        proof {
            assert(v@.take(i + 1 as int).drop_last() =~= v@.take(i as int));
            assert(v@.take(i + 1 as int).last() == v@[i as int]);
        }
        if identity_char(c) {
            r.push(c);
        }
        i = i + 1;
    }
    proof {
        assert(v@.take(v@.len() as int) =~= v@);
    }
    r
}

/// Lowercases the account handle and keeps only the characters in
/// `[a-z0-9_-]`; everything else is dropped. An empty result is legal.
pub fn sanitize_username(username: &str) -> (r: String)
    ensures
        r@ == sanitized(username@),
{
    let v = str_to_chars(username);
    let s = sanitize_chars(&v);
    chars_to_string(&s)
}

// ---------------------------------------------------------------------------
// Laws of sanitization
// ---------------------------------------------------------------------------

/// Every character of a sanitized sequence is an identity character.
pub proof fn lemma_sanitized_chars_ok(s: Seq<char>)
    ensures
        forall|k: int| 0 <= k < sanitized(s).len() ==> is_identity_char(#[trigger] sanitized(s)[k]),
    decreases s.len(),
{
    if s.len() > 0 {
        lemma_sanitized_chars_ok(s.drop_last());
        let prior = sanitized(s.drop_last());
        let c = lower_char(s.last());
        if is_identity_char(c) {
            assert(sanitized(s) == prior.push(c));
            assert forall|k: int| 0 <= k < sanitized(s).len() implies is_identity_char(
                sanitized(s)[k],
            ) by {
                if k < prior.len() {
                    assert(sanitized(s)[k] == prior[k]);
                } else {
                    assert(sanitized(s)[k] == c);
                }
            }
        } else {
            assert(sanitized(s) == prior);
        }
    }
}

/// A sequence made only of identity characters is already sanitized.
pub proof fn lemma_sanitized_fixed(s: Seq<char>)
    requires
        forall|k: int| 0 <= k < s.len() ==> is_identity_char(#[trigger] s[k]),
    ensures
        sanitized(s) == s,
    decreases s.len(),
{
    if s.len() > 0 {
        lemma_sanitized_fixed(s.drop_last());
        assert(is_identity_char(s.last()));
        assert(lower_char(s.last()) == s.last());
        assert(s.drop_last().push(s.last()) =~= s);
    }
}

/// Sanitization is idempotent: sanitizing a sanitized sequence changes
/// nothing.
pub proof fn lemma_sanitize_idempotent(s: Seq<char>)
    ensures
        sanitized(sanitized(s)) == sanitized(s),
{
    lemma_sanitized_chars_ok(s);
    lemma_sanitized_fixed(sanitized(s));
}

// ---------------------------------------------------------------------------
// Decimal digits
// ---------------------------------------------------------------------------

/// The character for one decimal digit value.
pub open spec fn digit_char(d: int) -> char {
    (48 + d) as char
}

/// The decimal digit string of a non-negative number, most significant
/// digit first.
pub open spec fn dec_digits(n: int) -> Seq<char>
    decreases n,
{
    if n < 10 {
        seq![digit_char(if n < 0 { 0 } else { n })]
    } else {
        dec_digits(n / 10).push(digit_char(n % 10))
    }
}

/// The decimal string padded on the left with `'0'` to at least two
/// digits, as a two-digit sequence slot in a filename.
pub open spec fn padded2(n: int) -> Seq<char> {
    if n < 10 {
        seq!['0'] + dec_digits(n)
    } else {
        dec_digits(n)
    }
}

fn push_dec(n: u64, out: &mut Vec<char>)
    ensures
        final(out)@ == old(out)@ + dec_digits(n as int),
    decreases n,
{
    if n < 10 {
        let d: u8 = 48 + (n as u8);
        out.push(d as char);
        proof {
            assert(out@ =~= old(out)@ + dec_digits(n as int));
        }
    } else {
        push_dec(n / 10, out);
        let d: u8 = 48 + ((n % 10) as u8);
        out.push(d as char);
        proof {
            assert(out@ =~= old(out)@ + dec_digits(n as int));
        }
    }
}

/// The decimal digit characters of `n`.
pub fn dec_chars(n: u64) -> (r: Vec<char>)
    ensures
        r@ == dec_digits(n as int),
{
    let mut r: Vec<char> = Vec::new();
    push_dec(n, &mut r);
    proof {
        assert(Seq::<char>::empty() + dec_digits(n as int) =~= dec_digits(n as int));
    }
    r
}

// ---------------------------------------------------------------------------
// Filenames
// ---------------------------------------------------------------------------

/// The filename for one asset: `identity_postkey.ext`, or
/// `identity_postkey_NN.ext` when the asset carries a sequence index.
pub open spec fn spec_filename(
    username: Seq<char>,
    shortcode: Seq<char>,
    extension: Seq<char>,
    index: Option<usize>,
) -> Seq<char> {
    let base = sanitized(username) + seq!['_'] + shortcode;
    match index {
        None => base + seq!['.'] + extension,
        Some(i) => base + seq!['_'] + padded2(i as int) + seq!['.'] + extension,
    }
}

/// Builds the filename for one asset. The identity is sanitized here as
/// well, so an unsanitized handle still yields a safe name.
pub fn generate_filename(
    username: &str,
    shortcode: &str,
    extension: &str,
    index: Option<usize>,
) -> (r: String)
    ensures
        r@ == spec_filename(username@, shortcode@, extension@, index),
{
    let mut s = sanitize_username(username);
    s.append("_");
    s.append(shortcode);
    proof {
        reveal_strlit("_");
        assert(s@ =~= sanitized(username@) + seq!['_'] + shortcode@);
    }
    if let Some(i) = index {
        s.append("_");
        if i < 10 {
            s.append("0");
        }
        let d = dec_chars(i as u64);
        let ds = chars_to_string(&d);
        s.append(ds.as_str());
        proof {
            reveal_strlit("_");
            reveal_strlit("0");
            assert(s@ =~= sanitized(username@) + seq!['_'] + shortcode@ + seq!['_']
                + padded2(i as int));
        }
    }
    s.append(".");
    s.append(extension);
    proof {
        reveal_strlit(".");
        assert(s@ =~= spec_filename(username@, shortcode@, extension@, index));
    }
    s
}


// ---------------------------------------------------------------------------
// Unique filenames
// ---------------------------------------------------------------------------

/// The position of the rightmost `'.'` at an index in `1..=i`, if any.
/// Index 0 is never a split point, so a leading-dot name keeps its dot in
/// the stem.
pub open spec fn last_dot_at_or_before(s: Seq<char>, i: int) -> Option<int>
    decreases i,
{
    if i <= 0 {
        None
    } else if i < s.len() && s[i] == '.' {
        Some(i)
    } else {
        last_dot_at_or_before(s, i - 1)
    }
}

pub open spec fn last_dot(s: Seq<char>) -> Option<int> {
    last_dot_at_or_before(s, s.len() - 1)
}

/// The filename up to (excluding) its last dot, or all of it when it has
/// no extension.
pub open spec fn stem_of(s: Seq<char>) -> Seq<char> {
    match last_dot(s) {
        Some(j) => s.take(j),
        None => s,
    }
}

/// The filename's extension, without the dot; empty when there is none.
pub open spec fn ext_of(s: Seq<char>) -> Seq<char> {
    match last_dot(s) {
        Some(j) => s.subrange(j + 1, s.len() as int),
        None => Seq::<char>::empty(),
    }
}

/// The `n`-th collision probe for a filename: `stem__dupN.ext`, or
/// `stem__dupN` when the name has no extension.
pub open spec fn dup_candidate(s: Seq<char>, n: int) -> Seq<char> {
    let tail = if ext_of(s).len() > 0 {
        seq!['.'] + ext_of(s)
    } else {
        Seq::<char>::empty()
    };
    stem_of(s) + seq!['_', '_', 'd', 'u', 'p'] + dec_digits(n) + tail
}

/// The numeric value of a digit string, used to show that distinct
/// numbers have distinct digit strings.
pub open spec fn digits_val(s: Seq<char>) -> int
    decreases s.len(),
{
    if s.len() == 0 {
        0
    } else {
        digits_val(s.drop_last()) * 10 + (s.last() as int - 48)
    }
}

proof fn lemma_dec_val(n: int)
    requires
        n >= 0,
    ensures
        digits_val(dec_digits(n)) == n,
    decreases n,
{
    if n < 10 {
        let s1 = seq![digit_char(n)];
        assert(dec_digits(n) == s1);
        assert(s1.drop_last() =~= Seq::<char>::empty());
        assert(s1.last() == digit_char(n));
        assert(digits_val(Seq::<char>::empty()) == 0);
        assert(digit_char(n) as int == 48 + n);
        assert(digits_val(s1) == 0 * 10 + (48 + n - 48));
    } else {
        lemma_dec_val(n / 10);
        vstd::arithmetic::div_mod::lemma_fundamental_div_mod(n, 10);
        let s2 = dec_digits(n / 10).push(digit_char(n % 10));
        assert(dec_digits(n) == s2);
        assert(s2.drop_last() =~= dec_digits(n / 10));
        assert(s2.last() == digit_char(n % 10));
        assert(digit_char(n % 10) as int == 48 + n % 10);
        assert(digits_val(s2) == (n / 10) * 10 + (48 + n % 10 - 48));
    }
}

proof fn lemma_dec_injective(a: int, b: int)
    requires
        a >= 0,
        b >= 0,
        dec_digits(a) == dec_digits(b),
    ensures
        a == b,
{
    lemma_dec_val(a);
    lemma_dec_val(b);
}

proof fn lemma_dup_candidate_injective(s: Seq<char>, a: int, b: int)
    requires
        a >= 0,
        b >= 0,
        dup_candidate(s, a) == dup_candidate(s, b),
    ensures
        a == b,
{
    let pre = stem_of(s) + seq!['_', '_', 'd', 'u', 'p'];
    let tail = if ext_of(s).len() > 0 {
        seq!['.'] + ext_of(s)
    } else {
        Seq::<char>::empty()
    };
    assert(dup_candidate(s, a).len() == pre.len() + dec_digits(a).len() + tail.len());
    assert(dup_candidate(s, b).len() == pre.len() + dec_digits(b).len() + tail.len());
    let la = dec_digits(a).len() as int;
    assert(dec_digits(a) =~= dup_candidate(s, a).subrange(pre.len() as int, pre.len() + la));
    assert(dec_digits(b) =~= dup_candidate(s, b).subrange(pre.len() as int, pre.len() + la));
    lemma_dec_injective(a, b);
}

/// Appending distinct numbers to one prefix gives distinct strings.
pub proof fn lemma_dec_suffix_injective(pre: Seq<char>, a: int, b: int)
    requires
        a >= 0,
        b >= 0,
        pre + dec_digits(a) == pre + dec_digits(b),
    ensures
        a == b,
{
    let la = dec_digits(a).len() as int;
    assert((pre + dec_digits(a)).len() == pre.len() + la);
    assert(dec_digits(b).len() == la);
    assert(dec_digits(a) =~= (pre + dec_digits(a)).subrange(pre.len() as int, pre.len() + la));
    assert(dec_digits(b) =~= (pre + dec_digits(b)).subrange(pre.len() as int, pre.len() + la));
    lemma_dec_injective(a, b);
}

/// The views of a list of filename strings.
pub open spec fn name_views(v: Seq<String>) -> Seq<Seq<char>> {
    v.map_values(|s: String| s@)
}

/// Pigeonhole bound for the probe loop: if every probe below `n` is
/// taken by an existing name, there are at least `n - 2` existing names.
proof fn lemma_chain_bound(ex: Seq<Seq<char>>, f: Seq<char>, n: int)
    requires
        2 <= n,
        forall|m: int| 2 <= m < n ==> ex.contains(#[trigger] dup_candidate(f, m)),
    ensures
        n - 2 <= ex.len(),
{
    broadcast use vstd::seq_lib::seq_to_set_is_finite;

    let c = Seq::new((n - 2) as nat, |k: int| dup_candidate(f, k + 2));
    assert(c.no_duplicates()) by {
        assert forall|i: int, j: int|
            0 <= i < c.len() && 0 <= j < c.len() && i != j implies c[i] != c[j] by {
            if c[i] == c[j] {
                lemma_dup_candidate_injective(f, i + 2, j + 2);
            }
        }
    }
    c.unique_seq_to_set();
    assert(c.to_set().subset_of(ex.to_set())) by {
        assert forall|x: Seq<char>| c.to_set().contains(x) implies ex.to_set().contains(x) by {
            let k = choose|k: int| 0 <= k < c.len() && c[k] == x;
            assert(ex.contains(x));
        }
    }
    ex.lemma_cardinality_of_set();
    vstd::set_lib::lemma_len_subset(c.to_set(), ex.to_set());
}

/// True iff some entry of `existing` equals `name`.
pub fn contains_name(existing: &Vec<String>, name: &String) -> (r: bool)
    ensures
        r == name_views(existing@).contains(name@),
{
    let mut i: usize = 0;
    while i < existing.len()
        invariant
            i <= existing@.len(),
            forall|j: int| 0 <= j < i ==> existing@[j]@ != name@,
        decreases existing@.len() - i,
    {
        if *name == existing[i] {
            proof {
                assert(name_views(existing@)[i as int] == name@);
            }
            return true;
        }
        i = i + 1;
    }
    proof {
        assert forall|j: int| 0 <= j < name_views(existing@).len()
            implies name_views(existing@)[j] != name@ by {
            assert(name_views(existing@)[j] == existing@[j]@);
        }
    }
    false
}

fn find_last_dot(chars: &Vec<char>) -> (r: Option<usize>)
    ensures
        match r {
            Some(j) => last_dot(chars@) == Some(j as int) && 0 < j < chars@.len(),
            None => last_dot(chars@) is None,
        },
{
    let n = chars.len();
    if n == 0 {
        return None;
    }
    let mut j: usize = n - 1;
    loop
        invariant
            j <= n - 1,
            n == chars@.len(),
            n >= 1,
            last_dot(chars@) == last_dot_at_or_before(chars@, j as int),
        decreases j,
    {
        if j == 0 {
            return None;
        }
        if chars[j] == '.' {
            return Some(j);
        }
        proof {
            assert(last_dot_at_or_before(chars@, j as int)
                == last_dot_at_or_before(chars@, j as int - 1));
        }
        j = j - 1;
    }
}

fn push_all(dst: &mut Vec<char>, src: &Vec<char>)
    ensures
        final(dst)@ == old(dst)@ + src@,
{
    let mut i: usize = 0;
    while i < src.len()
        invariant
            i <= src@.len(),
            dst@ == old(dst)@ + src@.take(i as int),
        decreases src@.len() - i,
    {
        dst.push(src[i]);
        proof {
            assert(old(dst)@ + src@.take(i + 1 as int)
                =~= (old(dst)@ + src@.take(i as int)).push(src@[i as int]));
        }
        i = i + 1;
    }
    proof {
        assert(src@.take(src@.len() as int) =~= src@);
    }
}

fn build_candidate(stem: &Vec<char>, ext: &Vec<char>, n: u64) -> (r: String)
    ensures
        r@ == stem@ + seq!['_', '_', 'd', 'u', 'p'] + dec_digits(n as int) + (if ext@.len() > 0 {
            seq!['.'] + ext@
        } else {
            Seq::<char>::empty()
        }),
{
    let mut v: Vec<char> = Vec::new();
    push_all(&mut v, stem);
    v.push('_');
    v.push('_');
    v.push('d');
    v.push('u');
    v.push('p');
    let d = dec_chars(n);
    push_all(&mut v, &d);
    if ext.len() > 0 {
        v.push('.');
        push_all(&mut v, ext);
    }
    proof {
        assert(v@ =~= stem@ + seq!['_', '_', 'd', 'u', 'p'] + dec_digits(n as int) + (
        if ext@.len() > 0 {
            seq!['.'] + ext@
        } else {
            Seq::<char>::empty()
        }));
    }
    chars_to_string(&v)
}

/// The round trip of building a name and resolving it: against a fresh,
/// empty directory no name is taken, so `ensure_unique_filename` keeps
/// every filename — in particular every generated one — unchanged, by
/// its own contract.
pub proof fn lemma_fresh_directory_round_trip(
    existing: Seq<String>,
    username: Seq<char>,
    shortcode: Seq<char>,
    extension: Seq<char>,
    index: Option<usize>,
)
    requires
        existing.len() == 0,
    ensures
        !name_views(existing).contains(
            spec_filename(username, shortcode, extension, index),
        ),
{
    assert(name_views(existing).len() == 0);
}

/// The stem of a filename, as a character vector.
pub fn stem_chars(chars: &Vec<char>) -> (r: Vec<char>)
    ensures
        r@ == stem_of(chars@),
{
    let dot = find_last_dot(chars);
    match dot {
        Some(j) => {
            let mut stem: Vec<char> = Vec::new();
            let mut i: usize = 0;
            while i < j
                invariant
                    i <= j,
                    j < chars@.len(),
                    stem@ == chars@.take(i as int),
                decreases j - i,
            {
                stem.push(chars[i]);
                proof {
                    assert(chars@.take(i + 1 as int) =~= chars@.take(i as int).push(
                        chars@[i as int],
                    ));
                }
                i = i + 1;
            }
            stem
        },
        None => {
            let mut stem: Vec<char> = Vec::new();
            push_all(&mut stem, chars);
            proof {
                assert(Seq::<char>::empty() + chars@ =~= chars@);
            }
            stem
        },
    }
}

/// The extension of a filename, as a character vector; empty when there
/// is none.
pub fn ext_chars(chars: &Vec<char>) -> (r: Vec<char>)
    ensures
        r@ == ext_of(chars@),
{
    let n = chars.len();
    let dot = find_last_dot(chars);
    match dot {
        Some(j) => {
            let mut ext: Vec<char> = Vec::new();
            let mut k: usize = j + 1;
            while k < n
                invariant
                    n == chars@.len(),
                    j + 1 <= k <= chars@.len(),
                    ext@ == chars@.subrange(j + 1 as int, k as int),
                decreases chars@.len() - k,
            {
                ext.push(chars[k]);
                proof {
                    assert(chars@.subrange(j + 1 as int, k + 1 as int) =~= chars@.subrange(
                        j + 1 as int,
                        k as int,
                    ).push(chars@[k as int]));
                }
                k = k + 1;
            }
            ext
        },
        None => Vec::new(),
    }
}

/// Resolves a filename against the names already present: the name itself
/// when it is free, otherwise the first free probe `stem__dup2.ext`,
/// `stem__dup3.ext`, and so on.
pub fn ensure_unique_filename(existing: &Vec<String>, filename: &str) -> (r: String)
    requires
        existing@.len() + 2 <= u64::MAX,
    ensures
        !name_views(existing@).contains(r@),
        !name_views(existing@).contains(filename@) ==> r@ == filename@,
        name_views(existing@).contains(filename@) ==> (exists|n: int|
            2 <= n && r@ == dup_candidate(filename@, n) && (forall|m: int|
                2 <= m < n ==> name_views(existing@).contains(#[trigger] dup_candidate(
                    filename@,
                    m,
                )))),
{
    let f = String::from_str(filename);
    if !contains_name(existing, &f) {
        return f;
    }
    let chars = str_to_chars(filename);
    let stem = stem_chars(&chars);
    let ext = ext_chars(&chars);
    let ghost ex = name_views(existing@);
    let mut n: u64 = 2;
    loop
        invariant
            2 <= n,
            n <= existing@.len() + 2,
            existing@.len() + 2 <= u64::MAX,
            ex == name_views(existing@),
            ex.contains(filename@),
            stem@ == stem_of(filename@),
            ext@ == ext_of(filename@),
            forall|m: int| 2 <= m < n ==> ex.contains(#[trigger] dup_candidate(filename@, m)),
        decreases existing@.len() + 2 - n,
    {
        let cand = build_candidate(&stem, &ext, n);
        proof {
            assert(cand@ =~= dup_candidate(filename@, n as int));
        }
        if !contains_name(existing, &cand) {
            proof {
                assert(2 <= n as int && cand@ == dup_candidate(filename@, n as int)
                    && (forall|m: int|
                    2 <= m < n as int ==> name_views(existing@).contains(#[trigger] dup_candidate(
                        filename@,
                        m,
                    ))));
            }
            return cand;
        }
        proof {
            assert forall|m: int| 2 <= m < n + 1 implies ex.contains(#[trigger] dup_candidate(
                filename@,
                m,
            )) by {
                if m == n as int {
                    assert(ex.contains(cand@));
                }
            }
            lemma_chain_bound(ex, filename@, n as int + 1);
        }
        n = n + 1;
    }
}

} // verus!
