//! Result URLs: query parameters, search-engine redirects, internal pages.
use vstd::prelude::*;
use base64::Engine;
use crate::json::string_opt;
use crate::search_text::{slice_chars, take_chars};
use crate::text::{
    chars_of, contains, ends_with, find, find_in, lower, lower_vec, occurs_here, same_text, seq_starts_with,
    starts_with, string_of, trim, trim_vec,
};

verus! {

// ---------------------------------------------------------------------
// Percent encoding (urlencoding)
// ---------------------------------------------------------------------

pub open spec fn hex_value(b: u8) -> Option<u8> {
    if 48 <= b <= 57 {
        Some((b - 48) as u8)
    } else if 65 <= b <= 70 {
        Some((b - 55) as u8)
    } else if 97 <= b <= 102 {
        Some((b - 87) as u8)
    } else {
        None
    }
}

/// The bytes of a percent-encoded text: each `%` followed by two hex
/// digits becomes the byte they spell; every other byte stays, a lone `%` too.
pub open spec fn percent_decoded(b: Seq<u8>) -> Seq<u8>
    decreases b.len(),
{
    if b.len() == 0 {
        Seq::empty()
    } else if b[0] == 37 && b.len() >= 3 && hex_value(b[1]) is Some && hex_value(b[2]) is Some {
        seq![(hex_value(b[1])->0 * 16 + hex_value(b[2])->0) as u8] + percent_decoded(b.skip(3))
    } else {
        seq![b[0]] + percent_decoded(b.skip(1))
    }
}

/// `urlencoding::decode`: the text that the percent-decoded bytes of `s`
/// spell, when they are valid UTF-8.
pub open spec fn url_decoded(s: Seq<char>) -> Option<Seq<char>> {
    let b = percent_decoded(vstd::utf8::encode_utf8(s));
    if vstd::utf8::valid_utf8(b) {
        Some(vstd::utf8::decode_utf8(b))
    } else {
        None
    }
}

/// `urlencoding::decode`, whose source decodes each `%` with two hex digits
/// after it to that byte, keeps every other byte, and then reads the bytes as
/// UTF-8, failing where they are not.
#[verifier::external_body]
fn url_decode(s: &str) -> (r: Option<String>)
    ensures
        string_opt(r) == url_decoded(s@),
{
    match urlencoding::decode(s) {
        Ok(d) => Some(d.into_owned()),
        Err(_) => None,
    }
}

/// The bytes that percent encoding keeps: ASCII letters, digits and `- . _ ~`.
pub open spec fn unreserved(b: u8) -> bool {
    (48 <= b <= 57) || (65 <= b <= 90) || (97 <= b <= 122) || b == 45 || b == 46 || b == 95 || b == 126
}

pub open spec fn hex_upper(d: u8) -> char {
    if d < 10 {
        (48 + d) as char
    } else {
        (55 + d) as char
    }
}

/// The percent encoding of bytes: kept bytes as they are, others as `%XX`
/// in upper-case hex.
pub open spec fn percent_encoded(b: Seq<u8>) -> Seq<char>
    decreases b.len(),
{
    if b.len() == 0 {
        Seq::empty()
    } else {
        let head = if unreserved(b[0]) {
            seq![b[0] as char]
        } else {
            seq!['%', hex_upper(b[0] / 16), hex_upper(b[0] % 16)]
        };
        head + percent_encoded(b.drop_first())
    }
}

/// `urlencoding::encode`, whose source keeps ASCII letters, digits and
/// `- . _ ~` of the UTF-8 bytes and writes every other byte as `%` and two
/// upper-case hex digits.
#[verifier::external_body]
fn url_encode(s: &str) -> (r: String)
    ensures
        r@ == percent_encoded(vstd::utf8::encode_utf8(s@)),
{
    urlencoding::encode(s).into_owned()
}

// ---------------------------------------------------------------------
// Base64 and UTF-8 (base64, std)
// ---------------------------------------------------------------------

pub open spec fn bytes_opt(o: Option<Vec<u8>>) -> Option<Seq<u8>> {
    match o {
        Some(b) => Some(b@),
        None => None,
    }
}

/// What `URL_SAFE_NO_PAD.decode` gives for a text.
pub uninterp spec fn base64_url_safe_no_pad(input: Seq<char>) -> Option<Seq<u8>>;

/// What `URL_SAFE.decode` gives for a text.
pub uninterp spec fn base64_url_safe(input: Seq<char>) -> Option<Seq<u8>>;

/// What `STANDARD_NO_PAD.decode` gives for a text.
pub uninterp spec fn base64_standard_no_pad(input: Seq<char>) -> Option<Seq<u8>>;

/// What `STANDARD.decode` gives for a text.
pub uninterp spec fn base64_standard(input: Seq<char>) -> Option<Seq<u8>>;

/// `base64::engine::general_purpose::URL_SAFE_NO_PAD.decode`: the bytes, or
/// nothing on a decode error. The decoding itself is left to the name.
#[verifier::external_body]
fn decode_url_safe_no_pad(input: &str) -> (r: Option<Vec<u8>>)
    ensures
        bytes_opt(r) == base64_url_safe_no_pad(input@),
{
    match base64::engine::general_purpose::URL_SAFE_NO_PAD.decode(input) {
        Ok(b) => Some(b),
        Err(_) => None,
    }
}

/// `base64::engine::general_purpose::URL_SAFE.decode`: the bytes, or nothing
/// on a decode error. The decoding itself is left to the name.
#[verifier::external_body]
fn decode_url_safe(input: &str) -> (r: Option<Vec<u8>>)
    ensures
        bytes_opt(r) == base64_url_safe(input@),
{
    match base64::engine::general_purpose::URL_SAFE.decode(input) {
        Ok(b) => Some(b),
        Err(_) => None,
    }
}

/// `base64::engine::general_purpose::STANDARD_NO_PAD.decode`: the bytes, or
/// nothing on a decode error. The decoding itself is left to the name.
#[verifier::external_body]
fn decode_standard_no_pad(input: &str) -> (r: Option<Vec<u8>>)
    ensures
        bytes_opt(r) == base64_standard_no_pad(input@),
{
    match base64::engine::general_purpose::STANDARD_NO_PAD.decode(input) {
        Ok(b) => Some(b),
        Err(_) => None,
    }
}

/// `base64::engine::general_purpose::STANDARD.decode`: the bytes, or nothing
/// on a decode error. The decoding itself is left to the name.
#[verifier::external_body]
fn decode_standard(input: &str) -> (r: Option<Vec<u8>>)
    ensures
        bytes_opt(r) == base64_standard(input@),
{
    match base64::engine::general_purpose::STANDARD.decode(input) {
        Ok(b) => Some(b),
        Err(_) => None,
    }
}

/// `String::from_utf8`: the text the bytes spell when they are valid UTF-8,
/// as its documentation says, else nothing.
#[verifier::external_body]
fn utf8_text(bytes: Vec<u8>) -> (r: Option<String>)
    ensures
        match r {
            Some(t) => vstd::utf8::valid_utf8(bytes@) && t@ == vstd::utf8::decode_utf8(bytes@),
            None => !vstd::utf8::valid_utf8(bytes@),
        },
{
    match String::from_utf8(bytes) {
        Ok(t) => Some(t),
        Err(_) => None,
    }
}

// ---------------------------------------------------------------------
// Query parameters
// ---------------------------------------------------------------------

/// The pieces between the separators `c` (`str::split`), empty ones included.
pub open spec fn pieces_acc(s: Seq<char>, c: char) -> (Seq<Seq<char>>, Seq<char>)
    decreases s.len(),
{
    if s.len() == 0 {
        (Seq::empty(), Seq::empty())
    } else {
        let (done, cur) = pieces_acc(s.drop_last(), c);
        if s.last() == c {
            (done.push(cur), Seq::empty())
        } else {
            (done, cur.push(s.last()))
        }
    }
}

pub open spec fn pieces(s: Seq<char>, c: char) -> Seq<Seq<char>> {
    pieces_acc(s, c).0.push(pieces_acc(s, c).1)
}

/// The text before the first `c`, or all of it.
pub open spec fn before_char(s: Seq<char>, c: char) -> Seq<char> {
    match find(s, seq![c]) {
        Some(i) => s.take(i),
        None => s,
    }
}

/// The query of a URL: what follows its first `?`, up to a `#`.
pub open spec fn query_of(url: Seq<char>) -> Option<Seq<char>> {
    match find(url, seq!['?']) {
        Some(i) => Some(before_char(url.skip(i + 1), '#')),
        None => None,
    }
}

/// A query part split at its first `=`; a part without one is all key.
pub open spec fn key_value(part: Seq<char>) -> (Seq<char>, Seq<char>) {
    match find(part, seq!['=']) {
        Some(i) => (part.take(i), part.skip(i + 1)),
        None => (part, Seq::empty()),
    }
}

/// The decoded value of the first part whose key is `name`.
pub open spec fn param_in(parts: Seq<Seq<char>>, name: Seq<char>) -> Option<Seq<char>>
    decreases parts.len(),
{
    if parts.len() == 0 {
        None
    } else if key_value(parts[0]).0 == name {
        url_decoded(key_value(parts[0]).1)
    } else {
        param_in(parts.drop_first(), name)
    }
}

/// The decoded value of query parameter `name`, if the URL has one.
pub open spec fn query_param_value(url: Seq<char>, name: Seq<char>) -> Option<Seq<char>> {
    match query_of(url) {
        Some(q) => param_in(pieces(q, '&'), name),
        None => None,
    }
}

fn pieces_of(s: &Vec<char>, c: char) -> (r: Vec<Vec<char>>)
    ensures
        r@.len() == pieces(s@, c).len(),
        forall|i: int| 0 <= i < r@.len() ==> #[trigger] r@[i]@ == pieces(s@, c)[i],
{
    let mut done: Vec<Vec<char>> = Vec::new();
    let mut cur: Vec<char> = Vec::new();
    let mut i: usize = 0;
    while i < s.len()
        invariant
            i <= s.len(),
            done@.len() == pieces_acc(s@.take(i as int), c).0.len(),
            forall|j: int| 0 <= j < done@.len() ==> #[trigger] done@[j]@ == pieces_acc(s@.take(i as int), c).0[j],
            cur@ == pieces_acc(s@.take(i as int), c).1,
        decreases s.len() - i,
    {
        assert(s@.take(i + 1).drop_last() =~= s@.take(i as int));
        if s[i] == c {
            let ghost before = done@;
            done.push(cur);
            cur = Vec::new();
            assert(cur@ =~= Seq::<char>::empty());
        } else {
            cur.push(s[i]);
        }
        i += 1;
    }
    assert(s@.take(s.len() as int) =~= s@);
    done.push(cur);
    done
}

fn find_char(s: &Vec<char>, c: char) -> (r: Option<usize>)
    ensures
        match r {
            Some(i) => find(s@, seq![c]) == Some(i as int) && i < s.len(),
            None => find(s@, seq![c]) is None,
        },
{
    let p = vec![c];
    let r = find_in(s, &p, 0);
    proof {
        if r is Some {
            crate::text::lemma_find_from_some(s@, p@, 0);
        }
    }
    assert(p@ =~= seq![c]);
    r
}

fn split_key_value(part: &Vec<char>) -> (r: (Vec<char>, Vec<char>))
    ensures
        (r.0@, r.1@) == key_value(part@),
{
    match find_char(part, '=') {
        Some(i) => (take_chars(part, i), {
            let v = slice_chars(part, i + 1, part.len());
            assert(v@ =~= part@.skip(i + 1));
            v
        }),
        None => {
            let k = slice_chars(part, 0, part.len());
            assert(k@ =~= part@);
            (k, Vec::new())
        },
    }
}

/// The decoded value of query parameter `name` of `url`; nothing if the URL
/// has no such parameter or its value does not decode.
pub fn query_param(url: &str, name: &str) -> (r: Option<String>)
    ensures
        string_opt(r) == query_param_value(url@, name@),
{
    let u = chars_of(url);
    let q = match find_char(&u, '?') {
        Some(i) => {
            let rest = slice_chars(&u, i + 1, u.len());
            assert(rest@ =~= u@.skip(i + 1));
            match find_char(&rest, '#') {
                Some(h) => take_chars(&rest, h),
                None => rest,
            }
        },
        None => {
            return None;
        },
    };
    assert(query_of(url@) == Some(q@));
    let parts = pieces_of(&q, '&');
    let ghost ps = pieces(q@, '&');
    assert(ps.skip(0) =~= ps);
    let n = chars_of(name);
    let mut i: usize = 0;
    while i < parts.len()
        invariant
            i <= parts.len(),
            parts@.len() == ps.len(),
            forall|j: int| 0 <= j < parts@.len() ==> #[trigger] parts@[j]@ == ps[j],
            n@ == name@,
            query_param_value(url@, name@) == param_in(ps.skip(i as int), name@),
        decreases parts.len() - i,
    {
        assert(ps.skip(i as int)[0] == parts@[i as int]@);
        assert(ps.skip(i as int).drop_first() =~= ps.skip(i + 1));
        let (key, value) = split_key_value(&parts[i]);
        let same = key.len() == n.len() && seq_starts_with(&key, &n);
        assert(same == (key@ == n@)) by {
            if key.len() == n.len() {
                assert(key@.subrange(0, n.len() as int) =~= key@);
            }
        }
        if same {
            let v = string_of(value.as_slice());
            return url_decode(v.as_str());
        }
        i += 1;
    }
    None
}

// ---------------------------------------------------------------------
// Result URLs
// ---------------------------------------------------------------------

pub open spec fn is_http(s: Seq<char>) -> bool {
    starts_with(s, "http://"@) || starts_with(s, "https://"@)
}

/// The first of the values that is present.
pub open spec fn first_present<T>(a: Option<T>, b: Option<T>, c: Option<T>, d: Option<T>) -> Option<T> {
    if a is Some {
        a
    } else if b is Some {
        b
    } else if c is Some {
        c
    } else {
        d
    }
}

/// The target of a Bing `u` redirect parameter: a plain URL as it is, else
/// base64 (after an optional `a1`) in the first of the four alphabets and
/// paddings that decodes, read as UTF-8.
pub open spec fn bing_target(value: Seq<char>) -> Option<Seq<char>> {
    if is_http(value) {
        Some(value)
    } else {
        let enc = if starts_with(value, "a1"@) {
            value.skip(2)
        } else {
            value
        };
        match first_present(
            base64_url_safe_no_pad(enc),
            base64_url_safe(enc),
            base64_standard_no_pad(enc),
            base64_standard(enc),
        ) {
            Some(b) => utf8_target(Some(b)),
            None => None,
        }
    }
}

/// The redirect target that decoded bytes spell: their text when they are
/// valid UTF-8, else none.
pub open spec fn utf8_target(decoded: Option<Seq<u8>>) -> Option<Seq<char>> {
    match decoded {
        Some(b) => if vstd::utf8::valid_utf8(b) {
            Some(vstd::utf8::decode_utf8(b))
        } else {
            None
        },
        None => None,
    }
}

/// The redirect target from the bytes that base64 gave (`None` when no
/// alphabet decoded the parameter).
pub fn bing_target_from_bytes(decoded: Option<Vec<u8>>) -> (r: Option<String>)
    ensures
        string_opt(r) == utf8_target(bytes_opt(decoded)),
{
    match decoded {
        Some(b) => utf8_text(b),
        None => None,
    }
}

fn text_is_http(s: &Vec<char>) -> (r: bool)
    ensures
        r == is_http(s@),
{
    let a = chars_of("http://");
    let b = chars_of("https://");
    seq_starts_with(s, &a) || seq_starts_with(s, &b)
}

pub fn decode_bing_u_param(value: &str) -> (r: Option<String>)
    ensures
        string_opt(r) == bing_target(value@),
{
    let v = chars_of(value);
    if text_is_http(&v) {
        return Some(String::from_str(value));
    }
    let a1 = chars_of("a1");
    proof {
        reveal_strlit("a1");
    }
    let enc = if seq_starts_with(&v, &a1) {
        let e = slice_chars(&v, 2, v.len());
        assert(e@ =~= v@.skip(2));
        string_of(e.as_slice())
    } else {
        String::from_str(value)
    };
    let bytes = match decode_url_safe_no_pad(enc.as_str()) {
        Some(b) => Some(b),
        None => match decode_url_safe(enc.as_str()) {
            Some(b) => Some(b),
            None => match decode_standard_no_pad(enc.as_str()) {
                Some(b) => Some(b),
                None => decode_standard(enc.as_str()),
            },
        },
    };
    bing_target_from_bytes(bytes)
}

/// The host of a URL: after `://`, up to the first `/`.
pub open spec fn host_part(url: Seq<char>) -> Option<Seq<char>> {
    match find(url, "://"@) {
        Some(i) => Some(before_char(url.skip(i + 3), '/')),
        None => None,
    }
}

/// Whether a URL is one of the search engine's own pages.
pub open spec fn internal_url(url: Seq<char>) -> bool {
    let l = lower(url);
    let host = match host_part(l) {
        Some(h) => h,
        None => l,
    };
    ends_with(host, "bing.com"@) || ends_with(host, "bing.net"@) || ends_with(host, "microsoft.com"@)
        || contains(l, "/search?"@) || contains(l, "/images/search"@) || contains(l, "/videos/search"@)
        || contains(l, "/maps"@) || contains(l, "/ck/a"@) || contains(l, "/aclick"@)
}

pub fn host_of(url: &Vec<char>) -> (r: Option<Vec<char>>)
    ensures
        match r {
            Some(h) => host_part(url@) == Some(h@),
            None => host_part(url@) is None,
        },
{
    let sep = chars_of("://");
    proof {
        reveal_strlit("://");
    }
    match find_in(url, &sep, 0) {
        Some(i) => {
            proof {
                crate::text::lemma_find_from_some(url@, sep@, 0);
                assert(sep@.len() == 3);
                assert(i + 3 <= url.len());
            }
            let rest = slice_chars(url, i + 3, url.len());
            assert(rest@ =~= url@.skip(i + 3));
            match find_char(&rest, '/') {
                Some(j) => Some(take_chars(&rest, j)),
                None => Some(rest),
            }
        },
        None => None,
    }
}

fn vec_ends_with(s: &Vec<char>, p: &str) -> (r: bool)
    ensures
        r == ends_with(s@, p@),
{
    let q = chars_of(p);
    if q.len() > s.len() {
        return false;
    }
    occurs_here(s, &q, s.len() - q.len())
}

fn vec_contains(s: &Vec<char>, p: &str) -> (r: bool)
    ensures
        r == contains(s@, p@),
{
    let q = chars_of(p);
    find_in(s, &q, 0).is_some()
}

pub fn is_search_engine_internal_url(url: &str) -> (r: bool)
    ensures
        r == internal_url(url@),
{
    let u = chars_of(url);
    let l = lower_vec(&u);
    let host = match host_of(&l) {
        Some(h) => h,
        None => slice_chars(&l, 0, l.len()),
    };
    assert(l@.subrange(0, l@.len() as int) =~= l@);
    vec_ends_with(&host, "bing.com") || vec_ends_with(&host, "bing.net") || vec_ends_with(
        &host,
        "microsoft.com",
    ) || vec_contains(&l, "/search?") || vec_contains(&l, "/images/search") || vec_contains(
        &l,
        "/videos/search",
    ) || vec_contains(&l, "/maps") || vec_contains(&l, "/ck/a") || vec_contains(&l, "/aclick")
}

/// The URL a browser link leads to: the trimmed link when it is `http(s)`,
/// unless its `url` parameter, or else the target of its Bing `u` redirect,
/// is an `http(s)` URL, which then stands instead; nothing for the search
/// engine's own pages.
pub open spec fn result_url(raw: Seq<char>) -> Option<Seq<char>> {
    let r = trim(raw);
    if !is_http(r) {
        None
    } else {
        let found = match query_param_value(r, "url"@) {
            Some(x) => Some(x),
            None => match query_param_value(r, "u"@) {
                Some(u) => bing_target(u),
                None => None,
            },
        };
        let candidate = match found {
            Some(x) => if is_http(x) {
                x
            } else {
                r
            },
            None => r,
        };
        if internal_url(candidate) {
            None
        } else {
            Some(candidate)
        }
    }
}

pub fn normalize_browser_result_url(raw: &str) -> (r: Option<String>)
    ensures
        string_opt(r) == result_url(raw@),
{
    let cs = chars_of(raw);
    let t = trim_vec(&cs);
    if !text_is_http(&t) {
        return None;
    }
    let r = string_of(t.as_slice());
    let found = match query_param(r.as_str(), "url") {
        Some(x) => Some(x),
        None => match query_param(r.as_str(), "u") {
            Some(u) => decode_bing_u_param(u.as_str()),
            None => None,
        },
    };
    let candidate = match found {
        Some(x) => {
            let xc = chars_of(x.as_str());
            if text_is_http(&xc) {
                x
            } else {
                r
            }
        },
        None => r,
    };
    if is_search_engine_internal_url(candidate.as_str()) {
        None
    } else {
        Some(candidate)
    }
}

/// The Bing home page in language `language`, from which a search is typed
/// into the visible field.
pub open spec fn bing_home_url(language: Seq<char>) -> Seq<char> {
    "https://cn.bing.com/?setlang="@ + percent_encoded(vstd::utf8::encode_utf8(language)) + "&cc="@
}

pub fn browser_bing_home_url(language: &str) -> (r: String)
    ensures
        r@ == bing_home_url(language@),
{
    let enc = url_encode(language);
    let a = crate::history::cat("https://cn.bing.com/?setlang=", enc.as_str());
    crate::history::cat(a.as_str(), "&cc=")
}

/// Bing's time filter for a freshness of `day`, `week` or `month` (results
/// of the last day, week or month), as a query parameter; none for any other
/// freshness.
pub open spec fn freshness_filter(freshness: Seq<char>) -> Seq<char> {
    if freshness == "day"@ {
        "&filters=ex1%3a%22ez1%22"@
    } else if freshness == "week"@ {
        "&filters=ex1%3a%22ez2%22"@
    } else if freshness == "month"@ {
        "&filters=ex1%3a%22ez3%22"@
    } else {
        ""@
    }
}

/// The page a search is typed on: Bing's home page in `language`, carrying
/// the time filter of `freshness`.
pub open spec fn bing_search_page_url(language: Seq<char>, freshness: Seq<char>) -> Seq<char> {
    bing_home_url(language) + freshness_filter(freshness)
}

pub fn browser_bing_search_page_url(language: &str, freshness: &str) -> (r: String)
    ensures
        r@ == bing_search_page_url(language@, freshness@),
{
    let home = browser_bing_home_url(language);
    let filter = if same_text(freshness, "day") {
        "&filters=ex1%3a%22ez1%22"
    } else if same_text(freshness, "week") {
        "&filters=ex1%3a%22ez2%22"
    } else if same_text(freshness, "month") {
        "&filters=ex1%3a%22ez3%22"
    } else {
        ""
    };
    proof {
        reveal_strlit("&filters=ex1%3a%22ez1%22");
        reveal_strlit("&filters=ex1%3a%22ez2%22");
        reveal_strlit("&filters=ex1%3a%22ez3%22");
        reveal_strlit("");
    }
    crate::history::cat(home.as_str(), filter)
}

} // verus!
