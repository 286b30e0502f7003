//! Text heuristics for reading search results off a browser page.
use vstd::prelude::*;
use crate::history::{join, join_strings};
use crate::json::str_views;
use crate::text::{
    chars_of, contains, find, find_in, is_alnum, is_alpha, is_whitespace, is_ws, lower, lower_vec,
    occurs_here, seq_starts_with, starts_with, ends_with, string_of, trim, trim_end, trim_vec,
};

verus! {

// ---------------------------------------------------------------------
// Words
// ---------------------------------------------------------------------

/// The words read so far and the word being read, scanning `s` left to right.
pub open spec fn words_acc(s: Seq<char>) -> (Seq<Seq<char>>, Seq<char>)
    decreases s.len(),
{
    if s.len() == 0 {
        (Seq::empty(), Seq::empty())
    } else {
        let (ws, cur) = words_acc(s.drop_last());
        let c = s.last();
        if is_ws(c) {
            if cur.len() > 0 {
                (ws.push(cur), Seq::empty())
            } else {
                (ws, Seq::empty())
            }
        } else {
            (ws, cur.push(c))
        }
    }
}

/// `str::split_whitespace`: the maximal runs of non-whitespace characters.
pub open spec fn words(s: Seq<char>) -> Seq<Seq<char>> {
    let (ws, cur) = words_acc(s);
    if cur.len() > 0 {
        ws.push(cur)
    } else {
        ws
    }
}

/// The first word, or nothing.
pub open spec fn first_word(s: Seq<char>) -> Seq<char> {
    if words(s).len() > 0 {
        words(s)[0]
    } else {
        Seq::empty()
    }
}

/// The words of `s`.
pub fn words_of(s: &Vec<char>) -> (r: Vec<String>)
    ensures
        str_views(r@) == words(s@),
{
    let mut ws: Vec<String> = Vec::new();
    let mut cur: Vec<char> = Vec::new();
    let mut i: usize = 0;
    while i < s.len()
        invariant
            i <= s.len(),
            (str_views(ws@), cur@) == words_acc(s@.take(i as int)),
        decreases s.len() - i,
    {
        assert(s@.take(i + 1).drop_last() =~= s@.take(i as int));
        let c = s[i];
        if is_whitespace(c) {
            if cur.len() > 0 {
                let w = string_of(cur.as_slice());
                let ghost before = ws@;
                ws.push(w);
                assert(str_views(ws@) =~= str_views(before).push(cur@));
                cur = Vec::new();
            } else {
                cur = Vec::new();
            }
            assert(cur@ =~= Seq::<char>::empty());
        } else {
            cur.push(c);
        }
        i += 1;
    }
    assert(s@.take(s.len() as int) =~= s@);
    if cur.len() > 0 {
        let w = string_of(cur.as_slice());
        let ghost before = ws@;
        ws.push(w);
        assert(str_views(ws@) =~= str_views(before).push(cur@));
    }
    ws
}

/// `clean_browser_text`: the words of `s` joined by single spaces.
pub open spec fn clean_text(s: Seq<char>) -> Seq<char> {
    join(words(s), seq![' '])
}

/// Collapses every run of whitespace in `text` to one space and trims the ends.
pub fn clean_browser_text(text: &str) -> (r: String)
    ensures
        r@ == clean_text(text@),
{
    let cs = chars_of(text);
    let ws = words_of(&cs);
    let r = join_strings(&ws, " ");
    proof {
        reveal_strlit(" ");
    }
    assert(" "@ =~= seq![' ']);
    r
}

/// Whether a text is a label said twice: two equal words, or an even
/// number of words whose halves are equal.
pub open spec fn repeated_label(text: Seq<char>) -> bool {
    let parts = words(text);
    if parts.len() == 2 && parts[0] == parts[1] {
        true
    } else if parts.len() > 2 && parts.len() % 2 == 0 {
        parts.take((parts.len() / 2) as int) == parts.skip((parts.len() / 2) as int)
    } else {
        false
    }
}

fn same_string_seqs(a: &Vec<String>, lo: usize, b_lo: usize, n: usize) -> (r: bool)
    requires
        lo + n <= a.len(),
        b_lo + n <= a.len(),
    ensures
        r == (str_views(a@).subrange(lo as int, lo + n) == str_views(a@).subrange(b_lo as int, b_lo + n)),
{
    let ghost v = str_views(a@);
    let mut k: usize = 0;
    while k < n
        invariant
            k <= n,
            lo + n <= a.len(),
            b_lo + n <= a.len(),
            v == str_views(a@),
            v.subrange(lo as int, lo + k) == v.subrange(b_lo as int, b_lo + k),
        decreases n - k,
    {
        if !crate::text::same_text(a[lo + k].as_str(), a[b_lo + k].as_str()) {
            assert(v.subrange(lo as int, lo + n)[k as int] != v.subrange(b_lo as int, b_lo + n)[k as int]);
            return false;
        }
        assert(v.subrange(lo as int, lo + k + 1) =~= v.subrange(lo as int, lo + k).push(v[lo + k]));
        assert(v.subrange(b_lo as int, b_lo + k + 1) =~= v.subrange(b_lo as int, b_lo + k).push(v[b_lo + k]));
        k += 1;
    }
    true
}

pub fn looks_like_repeated_label(text: &str) -> (r: bool)
    ensures
        r == repeated_label(text@),
{
    let cs = chars_of(text);
    let parts = words_of(&cs);
    let ghost v = str_views(parts@);
    let n = parts.len();
    if n == 2 {
        return crate::text::same_text(parts[0].as_str(), parts[1].as_str());
    }
    if n > 2 && n % 2 == 0 {
        let half = n / 2;
        let same = same_string_seqs(&parts, 0, half, half);
        assert(v.take(half as int) =~= v.subrange(0, half as int));
        assert(v.skip(half as int) =~= v.subrange(half as int, half + half));
        return same;
    }
    false
}

// ---------------------------------------------------------------------
// Trimming by character class
// ---------------------------------------------------------------------

/// The characters that `trim_matches` removes in each use.
pub enum CharClass {
    /// `/`.
    Slash,
    /// Punctuation around a leading domain: `, ; : 。 ， ； ：`.
    EdgePunct,
    /// What separates a title from the rest of a snippet: `- — : |` and space.
    SnippetLead,
}

pub open spec fn in_class(k: CharClass, c: char) -> bool {
    match k {
        CharClass::Slash => c == '/',
        CharClass::EdgePunct => c == ',' || c == ';' || c == ':' || c == '。' || c == '，' || c == '；'
            || c == '：',
        CharClass::SnippetLead => c == '-' || c == '—' || c == ':' || c == '|' || c == ' ',
    }
}

fn is_in_class(k: &CharClass, c: char) -> (r: bool)
    ensures
        r == in_class(*k, c),
{
    match k {
        CharClass::Slash => c == '/',
        CharClass::EdgePunct => c == ',' || c == ';' || c == ':' || c == '。' || c == '，' || c == '；'
            || c == '：',
        CharClass::SnippetLead => c == '-' || c == '—' || c == ':' || c == '|' || c == ' ',
    }
}

/// `trim_start_matches` of a character class.
pub open spec fn strip_start(s: Seq<char>, k: CharClass) -> Seq<char>
    decreases s.len(),
{
    if s.len() > 0 && in_class(k, s[0]) {
        strip_start(s.drop_first(), k)
    } else {
        s
    }
}

/// `trim_end_matches` of a character class.
pub open spec fn strip_end(s: Seq<char>, k: CharClass) -> Seq<char>
    decreases s.len(),
{
    if s.len() > 0 && in_class(k, s.last()) {
        strip_end(s.drop_last(), k)
    } else {
        s
    }
}

proof fn lemma_strip_start_skip(s: Seq<char>, k: CharClass, i: int)
    requires
        0 <= i <= s.len(),
        forall|j: int| 0 <= j < i ==> in_class(k, #[trigger] s[j]),
    ensures
        strip_start(s, k) == strip_start(s.skip(i), k),
    decreases i,
{
    if i > 0 {
        assert(s.drop_first().skip(i - 1) =~= s.skip(i));
        assert forall|j: int| 0 <= j < i - 1 implies in_class(k, #[trigger] s.drop_first()[j]) by {
            assert(s.drop_first()[j] == s[j + 1]);
        }
        lemma_strip_start_skip(s.drop_first(), k, i - 1);
    } else {
        assert(s.skip(0) =~= s);
    }
}

proof fn lemma_strip_end_take(s: Seq<char>, k: CharClass, j: int)
    requires
        0 <= j <= s.len(),
        forall|m: int| j <= m < s.len() ==> in_class(k, #[trigger] s[m]),
    ensures
        strip_end(s, k) == strip_end(s.take(j), k),
    decreases s.len() - j,
{
    if j < s.len() {
        assert(s.drop_last().take(j) =~= s.take(j));
        assert forall|m: int| j <= m < s.len() - 1 implies in_class(k, #[trigger] s.drop_last()[m]) by {
            assert(s.drop_last()[m] == s[m]);
        }
        lemma_strip_end_take(s.drop_last(), k, j);
    } else {
        assert(s.take(j) =~= s);
    }
}

pub fn strip_start_vec(s: &Vec<char>, k: &CharClass) -> (r: Vec<char>)
    ensures
        r@ == strip_start(s@, *k),
{
    let mut i: usize = 0;
    while i < s.len() && is_in_class(k, s[i])
        invariant
            i <= s.len(),
            forall|j: int| 0 <= j < i ==> in_class(*k, #[trigger] s@[j]),
        decreases s.len() - i,
    {
        i += 1;
    }
    proof {
        lemma_strip_start_skip(s@, *k, i as int);
    }
    let mut r: Vec<char> = Vec::new();
    let mut m: usize = i;
    while m < s.len()
        invariant
            i <= m <= s.len(),
            r@ == s@.subrange(i as int, m as int),
        decreases s.len() - m,
    {
        r.push(s[m]);
        m += 1;
        assert(r@ =~= s@.subrange(i as int, m as int));
    }
    assert(r@ =~= s@.skip(i as int));
    r
}

pub fn strip_end_vec(s: &Vec<char>, k: &CharClass) -> (r: Vec<char>)
    ensures
        r@ == strip_end(s@, *k),
{
    let mut j: usize = s.len();
    while j > 0 && is_in_class(k, s[j - 1])
        invariant
            j <= s.len(),
            forall|m: int| j <= m < s.len() ==> in_class(*k, #[trigger] s@[m]),
        decreases j,
    {
        j -= 1;
    }
    proof {
        lemma_strip_end_take(s@, *k, j as int);
        let t = s@.take(j as int);
        assert(!(t.len() > 0 && in_class(*k, t.last())));
    }
    take_chars(s, j)
}

/// The first `n` characters.
pub fn take_chars(s: &Vec<char>, n: usize) -> (r: Vec<char>)
    requires
        n <= s.len(),
    ensures
        r@ == s@.take(n as int),
{
    slice_chars(s, 0, n)
}

/// The characters from `lo` up to `hi`.
pub fn slice_chars(s: &Vec<char>, lo: usize, hi: usize) -> (r: Vec<char>)
    requires
        lo <= hi <= s.len(),
    ensures
        r@ == s@.subrange(lo as int, hi as int),
{
    let mut r: Vec<char> = Vec::new();
    let mut m: usize = lo;
    while m < hi
        invariant
            lo <= m <= hi,
            hi <= s.len(),
            r@ == s@.subrange(lo as int, m as int),
        decreases hi - m,
    {
        r.push(s[m]);
        m += 1;
        assert(r@ =~= s@.subrange(lo as int, m as int));
    }
    r
}

// ---------------------------------------------------------------------
// Domains and URLs in visible text
// ---------------------------------------------------------------------

/// The position of the last occurrence of `c`.
pub open spec fn last_index_of(s: Seq<char>, c: char) -> Option<int>
    decreases s.len(),
{
    if s.len() == 0 {
        None
    } else if s.last() == c {
        Some(s.len() - 1)
    } else {
        last_index_of(s.drop_last(), c)
    }
}

fn last_index(s: &Vec<char>, c: char) -> (r: Option<usize>)
    ensures
        match r {
            Some(i) => last_index_of(s@, c) == Some(i as int),
            None => last_index_of(s@, c) is None,
        },
{
    let mut j: usize = s.len();
    assert(s@.take(s.len() as int) =~= s@);
    while j > 0
        invariant
            j <= s.len(),
            last_index_of(s@, c) == last_index_of(s@.take(j as int), c),
        decreases j,
    {
        assert(s@.take(j as int).drop_last() =~= s@.take(j - 1));
        if s[j - 1] == c {
            return Some(j - 1);
        }
        j -= 1;
    }
    None
}

pub open spec fn host_char(c: char) -> bool {
    is_alnum(c) || c == '-' || c == '.'
}

/// Whether a token reads as a bare domain such as `example.com`: without
/// trailing slashes and in lower case, at least four characters, no `/` or
/// `@`, and a last dot with a non-empty host of letters, digits, `-` and `.`
/// before it and two or more letters after it.
pub open spec fn domain_like(token: Seq<char>) -> bool {
    let t = lower(strip_end(token, CharClass::Slash));
    if crate::text::has_char(t, '/') || crate::text::has_char(t, '@') || t.len() < 4 {
        false
    } else {
        match last_index_of(t, '.') {
            Some(d) => {
                let host = t.take(d);
                let tld = t.skip(d + 1);
                &&& host.len() > 0
                &&& tld.len() >= 2
                &&& forall|i: int| 0 <= i < tld.len() ==> is_alpha(#[trigger] tld[i])
                &&& forall|i: int| 0 <= i < host.len() ==> host_char(#[trigger] host[i])
            },
            None => false,
        }
    }
}

fn has_char_vec(s: &Vec<char>, c: char) -> (r: bool)
    ensures
        r == crate::text::has_char(s@, c),
{
    let mut i: usize = 0;
    while i < s.len()
        invariant
            i <= s.len(),
            forall|j: int| 0 <= j < i ==> s@[j] != c,
        decreases s.len() - i,
    {
        if s[i] == c {
            return true;
        }
        i += 1;
    }
    false
}

pub fn looks_like_domain_vec(token: &Vec<char>) -> (r: bool)
    ensures
        r == domain_like(token@),
{
    let stripped = strip_end_vec(token, &CharClass::Slash);
    let t = lower_vec(&stripped);
    if has_char_vec(&t, '/') || has_char_vec(&t, '@') || t.len() < 4 {
        return false;
    }
    match last_index(&t, '.') {
        Some(d) => {
            proof {
                crate::search_text::lemma_last_index_bound(t@, '.');
            }
            if d == 0 || t.len() - (d + 1) < 2 {
                return false;
            }
            let ghost host = t@.take(d as int);
            let ghost tld = t@.skip(d + 1);
            let tld_ok = all_alpha_from(&t, d + 1);
            assert(tld_ok == forall|i: int| 0 <= i < tld.len() ==> is_alpha(#[trigger] tld[i])) by {
                if tld_ok {
                    assert forall|i: int| 0 <= i < tld.len() implies is_alpha(#[trigger] tld[i]) by {
                        assert(tld[i] == t@[d + 1 + i]);
                    }
                } else {
                    let m = choose|m: int| d + 1 <= m < t.len() && !is_alpha(#[trigger] t@[m]);
                    assert(tld[m - (d + 1)] == t@[m]);
                }
            }
            let host_ok = all_host_chars_before(&t, d);
            assert(host_ok == forall|i: int| 0 <= i < host.len() ==> host_char(#[trigger] host[i])) by {
                if !host_ok {
                    let m = choose|m: int| 0 <= m < d && !host_char(#[trigger] t@[m]);
                    assert(host[m] == t@[m]);
                }
            }
            tld_ok && host_ok
        },
        None => false,
    }
}

fn all_alpha_from(t: &Vec<char>, lo: usize) -> (r: bool)
    ensures
        r == forall|m: int| lo <= m < t.len() ==> is_alpha(#[trigger] t@[m]),
{
    let mut i: usize = lo;
    while i < t.len()
        invariant
            lo <= i,
            forall|m: int| lo <= m < i ==> is_alpha(#[trigger] t@[m]),
        decreases t.len() - i,
    {
        let c = t[i];
        if !(('a' <= c && c <= 'z') || ('A' <= c && c <= 'Z')) {
            return false;
        }
        i += 1;
    }
    true
}

fn all_host_chars_before(t: &Vec<char>, hi: usize) -> (r: bool)
    requires
        hi <= t.len(),
    ensures
        r == forall|m: int| 0 <= m < hi ==> host_char(#[trigger] t@[m]),
{
    let mut j: usize = 0;
    while j < hi
        invariant
            j <= hi,
            hi <= t.len(),
            forall|m: int| 0 <= m < j ==> host_char(#[trigger] t@[m]),
        decreases hi - j,
    {
        let c = t[j];
        if !(('a' <= c && c <= 'z') || ('A' <= c && c <= 'Z') || ('0' <= c && c <= '9') || c == '-' || c
            == '.') {
            return false;
        }
        j += 1;
    }
    true
}

pub proof fn lemma_last_index_bound(s: Seq<char>, c: char)
    ensures
        last_index_of(s, c) matches Some(i) ==> 0 <= i < s.len() && s[i] == c,
    decreases s.len(),
{
    if s.len() > 0 && s.last() != c {
        lemma_last_index_bound(s.drop_last(), c);
    }
}

pub fn looks_like_domain(token: &str) -> (r: bool)
    ensures
        r == domain_like(token@),
{
    let cs = chars_of(token);
    looks_like_domain_vec(&cs)
}

/// Where a URL that starts at the front of `s` ends: at the first
/// whitespace or `› > 。 ， , ; ；`.
pub open spec fn url_stop(c: char) -> bool {
    is_ws(c) || c == '›' || c == '>' || c == '。' || c == '，' || c == ',' || c == ';' || c == '；'
}

pub open spec fn first_stop(s: Seq<char>) -> int
    decreases s.len(),
{
    if s.len() == 0 {
        0
    } else if url_stop(s[0]) {
        0
    } else {
        1 + first_stop(s.drop_first())
    }
}

/// The first `https://` URL in the text, else the first `http://` one, up
/// to where it stops and without trailing slashes.
pub open spec fn first_url(text: Seq<char>) -> Option<Seq<char>> {
    let start = match find(text, "https://"@) {
        Some(i) => Some(i),
        None => find(text, "http://"@),
    };
    match start {
        Some(i) => {
            let rest = text.skip(i);
            Some(strip_end(rest.take(first_stop(rest)), CharClass::Slash))
        },
        None => None,
    }
}

proof fn lemma_first_stop(s: Seq<char>, i: int)
    requires
        0 <= i <= s.len(),
        forall|j: int| 0 <= j < i ==> !url_stop(#[trigger] s[j]),
        i == s.len() || url_stop(s[i]),
    ensures
        first_stop(s) == i,
    decreases i,
{
    if i > 0 {
        assert forall|j: int| 0 <= j < i - 1 implies !url_stop(#[trigger] s.drop_first()[j]) by {
            assert(s.drop_first()[j] == s[j + 1]);
        }
        lemma_first_stop(s.drop_first(), i - 1);
    }
}

fn is_url_stop(c: char) -> (r: bool)
    ensures
        r == url_stop(c),
{
    is_whitespace(c) || c == '›' || c == '>' || c == '。' || c == '，' || c == ',' || c == ';' || c == '；'
}

pub fn first_http_url_vec(text: &Vec<char>) -> (r: Option<Vec<char>>)
    ensures
        match r {
            Some(u) => first_url(text@) == Some(u@),
            None => first_url(text@) is None,
        },
{
    let https = chars_of("https://");
    let http = chars_of("http://");
    let start = match find_in(text, &https, 0) {
        Some(i) => {
            proof {
                crate::text::lemma_find_from_some(text@, https@, 0);
            }
            Some(i)
        },
        None => match find_in(text, &http, 0) {
            Some(i) => {
                proof {
                    crate::text::lemma_find_from_some(text@, http@, 0);
                }
                Some(i)
            },
            None => None,
        },
    };
    match start {
        Some(i) => {
            assert(i <= text.len());
            let rest = slice_chars(text, i, text.len());
            assert(rest@ =~= text@.skip(i as int));
            let mut e: usize = 0;
            while e < rest.len() && !is_url_stop(rest[e])
                invariant
                    e <= rest.len(),
                    forall|j: int| 0 <= j < e ==> !url_stop(#[trigger] rest@[j]),
                decreases rest.len() - e,
            {
                e += 1;
            }
            proof {
                lemma_first_stop(rest@, e as int);
            }
            let head = take_chars(&rest, e);
            Some(strip_end_vec(&head, &CharClass::Slash))
        },
        None => None,
    }
}

/// The first `http(s)` URL in a text, up to where it stops, without trailing slashes.
pub fn first_http_url(text: &str) -> (r: Option<String>)
    ensures
        crate::json::string_opt(r) == first_url(text@),
{
    let t = chars_of(text);
    match first_http_url_vec(&t) {
        Some(u) => Some(string_of(u.as_slice())),
        None => None,
    }
}

/// The URL that a visible text block shows: its first `http(s)://` URL,
/// else its first word, without edge punctuation, made `https://` when it
/// reads as a domain.
pub open spec fn visible_url(text: Seq<char>) -> Option<Seq<char>> {
    let t = trim(text);
    if t.len() == 0 {
        None
    } else if first_url(t) is Some {
        first_url(t)
    } else {
        let token = strip_end(strip_start(first_word(t), CharClass::EdgePunct), CharClass::EdgePunct);
        if domain_like(token) {
            Some("https://"@ + token)
        } else {
            None
        }
    }
}

fn first_word_vec(s: &Vec<char>) -> (r: Vec<char>)
    ensures
        r@ == first_word(s@),
{
    let ws = words_of(s);
    if ws.len() > 0 {
        chars_of(ws[0].as_str())
    } else {
        Vec::new()
    }
}

pub fn visible_text_result_url(text: &str) -> (r: Option<String>)
    ensures
        crate::json::string_opt(r) == visible_url(text@),
{
    let cs = chars_of(text);
    let t = trim_vec(&cs);
    if t.len() == 0 {
        return None;
    }
    match first_http_url_vec(&t) {
        Some(u) => Some(string_of(u.as_slice())),
        None => {
            let w = first_word_vec(&t);
            let a = strip_start_vec(&w, &CharClass::EdgePunct);
            let token = strip_end_vec(&a, &CharClass::EdgePunct);
            if looks_like_domain_vec(&token) {
                let mut out = chars_of("https://");
                let ghost pre = out@;
                let mut k: usize = 0;
                while k < token.len()
                    invariant
                        k <= token.len(),
                        out@ == pre + token@.take(k as int),
                    decreases token.len() - k,
                {
                    out.push(token[k]);
                    k += 1;
                    assert(out@ =~= pre + token@.take(k as int));
                }
                assert(token@.take(token.len() as int) =~= token@);
                Some(string_of(out.as_slice()))
            } else {
                None
            }
        },
    }
}

pub fn visible_text_has_search_url(text: &str) -> (r: bool)
    ensures
        r == (visible_url(text@) is Some),
{
    visible_text_result_url(text).is_some()
}


// ---------------------------------------------------------------------
// Labels that are not results
// ---------------------------------------------------------------------

fn lower_text(s: &str) -> (r: Vec<char>)
    ensures
        r@ == lower(s@),
{
    let cs = chars_of(s);
    lower_vec(&cs)
}

fn vec_is(s: &Vec<char>, t: &str) -> (r: bool)
    ensures
        r == (s@ == t@),
{
    let u = chars_of(t);
    if s.len() != u.len() {
        return false;
    }
    let r = seq_starts_with(s, &u);
    assert(r ==> s@ =~= u@) by {
        if r {
            assert(s@.subrange(0, u.len() as int) =~= s@);
        }
    }
    assert(s@ == u@ ==> r) by {
        if s@ == u@ {
            assert(s@.subrange(0, u.len() as int) =~= s@);
        }
    }
    r
}

/// Whether a title is one of the search engine's own tabs.
pub open spec fn navigation_title(title: Seq<char>) -> bool {
    let l = lower(title);
    l == "images"@ || l == "videos"@ || l == "maps"@ || l == "news"@ || l == "shopping"@ || l == "search"@
        || l == "bing"@ || title == "图片"@ || title == "视频"@ || title == "地图"@ || title == "新闻"@
        || title == "购物"@ || title == "搜索"@
}

pub fn looks_like_search_navigation_title(title: &str) -> (r: bool)
    ensures
        r == navigation_title(title@),
{
    let l = lower_text(title);
    let t = chars_of(title);
    vec_is(&l, "images") || vec_is(&l, "videos") || vec_is(&l, "maps") || vec_is(&l, "news") || vec_is(
        &l,
        "shopping",
    ) || vec_is(&l, "search") || vec_is(&l, "bing") || vec_is(&t, "图片") || vec_is(&t, "视频")
        || vec_is(&t, "地图") || vec_is(&t, "新闻") || vec_is(&t, "购物") || vec_is(&t, "搜索")
}

/// Whether a visible text block is the metadata of a result rather than
/// its title or snippet: a URL, a label said twice, a leading domain, or
/// one of the search engine's tabs.
pub open spec fn result_metadata(text: Seq<char>) -> bool {
    let l = lower(text);
    starts_with(l, "http://"@) || starts_with(l, "https://"@) || repeated_label(text) || domain_like(
        first_word(text),
    ) || l == "网页"@ || l == "图片"@ || l == "视频"@ || l == "学术"@ || l == "词典"@ || l == "地图"@
        || l == "更多"@
}

pub fn looks_like_visible_result_metadata(text: &str) -> (r: bool)
    ensures
        r == result_metadata(text@),
{
    let l = lower_text(text);
    let http = chars_of("http://");
    let https = chars_of("https://");
    let t = chars_of(text);
    let w = first_word_vec(&t);
    seq_starts_with(&l, &http) || seq_starts_with(&l, &https) || looks_like_repeated_label(text)
        || looks_like_domain_vec(&w) || vec_is(&l, "网页") || vec_is(&l, "图片") || vec_is(&l, "视频")
        || vec_is(&l, "学术") || vec_is(&l, "词典") || vec_is(&l, "地图") || vec_is(&l, "更多")
}

// ---------------------------------------------------------------------
// Clipping to a byte budget
// ---------------------------------------------------------------------

/// How many bytes UTF-8 takes for a character.
pub open spec fn char_bytes(c: char) -> nat {
    let u = c as u32;
    if u < 0x80 {
        1
    } else if u < 0x800 {
        2
    } else if u < 0x10000 {
        3
    } else {
        4
    }
}

/// How many bytes UTF-8 takes for a text (`str::len`).
pub open spec fn utf8_len(s: Seq<char>) -> nat
    decreases s.len(),
{
    if s.len() == 0 {
        0
    } else {
        char_bytes(s[0]) + utf8_len(s.drop_first())
    }
}

/// How many leading characters fit in `n` bytes.
pub open spec fn fitting(s: Seq<char>, n: nat) -> nat
    decreases s.len(),
{
    if s.len() == 0 || char_bytes(s[0]) > n {
        0
    } else {
        1 + fitting(s.drop_first(), (n - char_bytes(s[0])) as nat)
    }
}

proof fn lemma_fitting(s: Seq<char>, n: nat)
    ensures
        fitting(s, n) <= s.len(),
        (fitting(s, n) == s.len()) == (utf8_len(s) <= n),
    decreases s.len(),
{
    if s.len() > 0 && char_bytes(s[0]) <= n {
        lemma_fitting(s.drop_first(), (n - char_bytes(s[0])) as nat);
    }
}

proof fn lemma_take_fitting(s: Seq<char>, n: nat)
    ensures
        fitting(s, n) <= s.len(),
        utf8_len(s.take(fitting(s, n) as int)) <= n,
    decreases s.len(),
{
    lemma_fitting(s, n);
    if s.len() == 0 || char_bytes(s[0]) > n {
        assert(s.take(fitting(s, n) as int) =~= Seq::<char>::empty());
    } else {
        let rest = s.drop_first();
        let m = (n - char_bytes(s[0])) as nat;
        lemma_take_fitting(rest, m);
        let t = s.take(fitting(s, n) as int);
        assert(t.len() > 0);
        assert(t[0] == s[0]);
        assert(t.drop_first() =~= rest.take(fitting(rest, m) as int));
    }
}

proof fn lemma_prefix_utf8_len(s: Seq<char>, k: int)
    requires
        0 <= k <= s.len(),
    ensures
        utf8_len(s.take(k)) <= utf8_len(s),
    decreases s.len(),
{
    if k == 0 {
        assert(s.take(k) =~= Seq::<char>::empty());
    } else {
        let t = s.take(k);
        assert(t[0] == s[0]);
        assert(t.drop_first() =~= s.drop_first().take(k - 1));
        lemma_prefix_utf8_len(s.drop_first(), k - 1);
    }
}

proof fn lemma_trim_end_utf8_len(s: Seq<char>)
    ensures
        utf8_len(trim_end(s)) <= utf8_len(s),
    decreases s.len(),
{
    if s.len() > 0 && is_ws(s[s.len() - 1]) {
        let init = s.subrange(0, s.len() - 1);
        lemma_trim_end_utf8_len(init);
        assert(init =~= s.take(s.len() - 1));
        lemma_prefix_utf8_len(s, s.len() - 1);
    }
}

/// A clipped text takes at most 360 bytes.
pub proof fn lemma_clip360_bound(s: Seq<char>)
    ensures
        utf8_len(clip360(s)) <= 360,
{
    lemma_fitting(s, 360);
    if utf8_len(s) > 360 {
        lemma_take_fitting(s, 360);
        lemma_trim_end_utf8_len(s.take(fitting(s, 360) as int));
    }
}

/// A text cut to at most 360 bytes: when longer, the longest prefix of
/// whole characters that fits, with trailing whitespace trimmed.
pub open spec fn clip360(s: Seq<char>) -> Seq<char> {
    if utf8_len(s) > 360 {
        trim_end(s.take(fitting(s, 360) as int))
    } else {
        s
    }
}

fn bytes_of(c: char) -> (r: usize)
    ensures
        r == char_bytes(c),
{
    let u = c as u32;
    if u < 0x80 {
        1
    } else if u < 0x800 {
        2
    } else if u < 0x10000 {
        3
    } else {
        4
    }
}

pub fn clip_to_360_bytes(s: &Vec<char>) -> (r: Vec<char>)
    ensures
        r@ == clip360(s@),
{
    let mut i: usize = 0;
    let mut used: usize = 0;
    assert(s@.skip(0) =~= s@);
    while i < s.len() && used + bytes_of(s[i]) <= 360
        invariant
            i <= s.len(),
            used <= 360,
            fitting(s@, 360) == i + fitting(s@.skip(i as int), (360 - used) as nat),
        decreases s.len() - i,
    {
        let b = bytes_of(s[i]);
        assert(s@.skip(i as int).drop_first() =~= s@.skip(i + 1));
        used = used + b;
        i += 1;
    }
    proof {
        assert(s@.skip(0) =~= s@);
        lemma_fitting(s@, 360);
        if i < s.len() {
            assert(s@.skip(i as int)[0] == s@[i as int]);
        } else {
            assert(s@.skip(i as int).len() == 0);
        }
        assert(fitting(s@, 360) == i);
    }
    if i < s.len() {
        let head = take_chars(s, i);
        crate::text::trim_end_vec(&head)
    } else {
        let r = slice_chars(s, 0, s.len());
        assert(r@ =~= s@);
        r
    }
}

// ---------------------------------------------------------------------
// Titles and snippets among visible text blocks
// ---------------------------------------------------------------------

/// A block that can be a result's title.
pub open spec fn title_block(t: Seq<char>) -> bool {
    visible_url(t) is None && !navigation_title(t) && !result_metadata(t) && t.len() >= 4
}

pub open spec fn next_title_from(texts: Seq<Seq<char>>, i: int, end: int) -> Option<int>
    decreases end - i,
{
    if i >= end {
        None
    } else if title_block(texts[i]) {
        Some(i)
    } else {
        next_title_from(texts, i + 1, end)
    }
}

pub open spec fn window_end(len: int, start: int, width: int) -> int {
    if start + width < len {
        start + width
    } else {
        len
    }
}

/// The first block among the five from `start` that can be a title.
pub open spec fn next_title(texts: Seq<Seq<char>>, start: int) -> Option<int> {
    next_title_from(texts, start, window_end(texts.len() as int, start, 5))
}

pub fn find_next_result_title(texts: &Vec<String>, start: usize) -> (r: Option<usize>)
    requires
        start <= texts.len(),
    ensures
        match r {
            Some(i) => next_title(str_views(texts@), start as int) == Some(i as int),
            None => next_title(str_views(texts@), start as int) is None,
        },
{
    let ghost v = str_views(texts@);
    let end: usize = if texts.len() - start < 5 { texts.len() } else { start + 5 };
    let mut i: usize = start;
    while i < end
        invariant
            start <= i <= end,
            end <= texts.len(),
            end as int == window_end(texts.len() as int, start as int, 5),
            v == str_views(texts@),
            next_title(v, start as int) == next_title_from(v, i as int, end as int),
        decreases end - i,
    {
        let t = texts[i].as_str();
        let is_title = !visible_text_has_search_url(t) && !looks_like_search_navigation_title(t)
            && !looks_like_visible_result_metadata(t) && chars_of(t).len() >= 4;
        assert(v[i as int] == t@);
        if is_title {
            return Some(i);
        }
        i += 1;
    }
    None
}

pub open spec fn snippet_from(texts: Seq<Seq<char>>, i: int, end: int) -> Seq<char>
    decreases end - i,
{
    if i >= end {
        Seq::empty()
    } else {
        let t = texts[i];
        if visible_url(t) is Some {
            Seq::empty()
        } else if navigation_title(t) || result_metadata(t) {
            snippet_from(texts, i + 1, end)
        } else if t.len() >= 8 {
            clip360(t)
        } else {
            snippet_from(texts, i + 1, end)
        }
    }
}

/// A snippet found among the blocks takes at most 360 bytes.
pub proof fn lemma_snippet_from_bound(texts: Seq<Seq<char>>, i: int, end: int)
    requires
        0 <= i,
        end <= texts.len(),
    ensures
        utf8_len(snippet_from(texts, i, end)) <= 360,
    decreases end - i,
{
    if i >= end {
        assert(utf8_len(Seq::<char>::empty()) == 0);
    } else {
        let t = texts[i];
        if visible_url(t) is Some {
            assert(utf8_len(Seq::<char>::empty()) == 0);
        } else if navigation_title(t) || result_metadata(t) || t.len() < 8 {
            lemma_snippet_from_bound(texts, i + 1, end);
        } else {
            lemma_clip360_bound(t);
        }
    }
}

/// The snippet of a result: the first long enough block among the three
/// from `start`, before any block with a URL, clipped.
pub open spec fn next_snippet(texts: Seq<Seq<char>>, start: int) -> Seq<char> {
    snippet_from(texts, start, window_end(texts.len() as int, start, 3))
}

pub fn find_next_result_snippet(texts: &Vec<String>, start: usize) -> (r: String)
    requires
        start <= texts.len(),
    ensures
        r@ == next_snippet(str_views(texts@), start as int),
{
    let ghost v = str_views(texts@);
    let end: usize = if texts.len() - start < 3 { texts.len() } else { start + 3 };
    let mut i: usize = start;
    while i < end
        invariant
            start <= i <= end,
            end <= texts.len(),
            end as int == window_end(texts.len() as int, start as int, 3),
            v == str_views(texts@),
            next_snippet(v, start as int) == snippet_from(v, i as int, end as int),
        decreases end - i,
    {
        let t = texts[i].as_str();
        assert(v[i as int] == t@);
        if visible_text_has_search_url(t) {
            return String::new();
        }
        if !looks_like_search_navigation_title(t) && !looks_like_visible_result_metadata(t) {
            let cs = chars_of(t);
            if cs.len() >= 8 {
                let clipped = clip_to_360_bytes(&cs);
                return string_of(clipped.as_slice());
            }
        }
        i += 1;
    }
    String::new()
}

} // verus!
