//! The web search tool: reading results off browser observations and
//! reporting them.
use vstd::prelude::*;
use crate::history::cat;
use crate::json::{as_arr, as_str, as_str_opt, get, get_opt, key_views, str_views, string_opt, views, Json, JsonV};
use crate::search_text::{
    clean_browser_text, clean_text, clip360, clip_to_360_bytes, find_next_result_snippet,
    find_next_result_title, looks_like_repeated_label, looks_like_search_navigation_title,
    navigation_title, next_snippet, next_title, repeated_label, slice_chars, strip_start,
    strip_start_vec, take_chars, visible_text_has_search_url, visible_text_result_url, visible_url,
    CharClass,
};
use crate::search_url::{host_of, host_part, normalize_browser_result_url, result_url};
use crate::text::{
    chars_of, contains, find, find_in, has_char, lower, lower_vec, seq_starts_with, starts_with,
    string_of, trim, trim_vec,
};

verus! {

/// One search result.
pub struct SearchResult {
    pub title: String,
    pub url: String,
    pub snippet: String,
}

pub struct ResultV {
    pub title: Seq<char>,
    pub url: Seq<char>,
    pub snippet: Seq<char>,
}

impl View for SearchResult {
    type V = ResultV;

    open spec fn view(&self) -> ResultV {
        ResultV { title: self.title@, url: self.url@, snippet: self.snippet@ }
    }
}

pub open spec fn result_views(v: Seq<SearchResult>) -> Seq<ResultV> {
    Seq::new(v.len(), |i: int| v[i]@)
}

// ---------------------------------------------------------------------
// Titles
// ---------------------------------------------------------------------

/// A text without its leading `www.` prefixes.
pub open spec fn strip_www(s: Seq<char>) -> Seq<char>
    decreases s.len(),
{
    if s.len() >= 4 && starts_with(s, "www."@) {
        strip_www(s.skip(4))
    } else {
        s
    }
}

/// The host a title is compared with: the URL's host without `www.`, in
/// lower case; empty for a URL without `://`.
pub open spec fn title_host(url: Seq<char>) -> Seq<char> {
    match host_part(url) {
        Some(h) => lower(strip_www(h)),
        None => Seq::empty(),
    }
}

/// A result title cleaned of what mobile Bing puts around it: a leading
/// `网页` tab, a trailing URL, a leading or trailing host; a title that is a
/// label said twice is dropped.
pub open spec fn clean_title(title: Seq<char>, url: Seq<char>) -> Seq<char> {
    let host = title_host(url);
    let c0 = clean_text(title);
    let c1 = if starts_with(c0, "网页 "@) {
        trim(c0.skip(3))
    } else {
        c0
    };
    let cut = match find(c1, " http://"@) {
        Some(i) => Some(i),
        None => find(c1, " https://"@),
    };
    let c2 = match cut {
        Some(i) => trim(c1.take(i)),
        None => c1,
    };
    let c4 = if host.len() > 0 {
        let l = lower(c2);
        let c3 = if l == host || starts_with(l, host + " "@) {
            trim(c2.skip(host.len() as int))
        } else {
            c2
        };
        let l2 = lower(c3);
        if contains(l2, host) && (has_char(l2, '›') || has_char(l2, '>')) {
            trim(c3.take(find(l2, host)->0))
        } else {
            c3
        }
    } else {
        c2
    };
    if repeated_label(c4) {
        Seq::empty()
    } else {
        c4
    }
}

fn strip_www_vec(s: &Vec<char>) -> (r: Vec<char>)
    ensures
        r@ == strip_www(s@),
{
    let www = chars_of("www.");
    proof {
        reveal_strlit("www.");
    }
    let mut i: usize = 0;
    assert(s@.skip(0) =~= s@);
    while s.len() - i >= 4 && crate::text::occurs_here(s, &www, i)
        invariant
            i <= s.len(),
            www@ == "www."@,
            strip_www(s@) == strip_www(s@.skip(i as int)),
        decreases s.len() - i,
    {
        proof {
            reveal_strlit("www.");
        }
        assert(s@.skip(i as int).subrange(0, 4) =~= s@.subrange(i as int, i + 4));
        assert(s@.skip(i as int).skip(4) =~= s@.skip(i + 4));
        assert(starts_with(s@.skip(i as int), "www."@));
        assert(strip_www(s@.skip(i as int)) == strip_www(s@.skip(i as int).skip(4)));
        i += 4;
    }
    proof {
        reveal_strlit("www.");
        if s.len() - i >= 4 {
            assert(s@.skip(i as int).subrange(0, 4) =~= s@.subrange(i as int, i + 4));
        }
    }
    let r = slice_chars(s, i, s.len());
    assert(r@ =~= s@.skip(i as int));
    r
}

fn title_host_vec(url: &Vec<char>) -> (r: Vec<char>)
    ensures
        r@ == title_host(url@),
{
    match host_of(url) {
        Some(h) => {
            let w = strip_www_vec(&h);
            lower_vec(&w)
        },
        None => Vec::new(),
    }
}

fn find_text(s: &Vec<char>, p: &str) -> (r: Option<usize>)
    ensures
        match r {
            Some(i) => find(s@, p@) == Some(i as int) && i + p@.len() <= s.len(),
            None => find(s@, p@) is None,
        },
{
    let q = chars_of(p);
    let r = find_in(s, &q, 0);
    proof {
        if r is Some {
            crate::text::lemma_find_from_some(s@, q@, 0);
        }
    }
    r
}

fn find_vec(s: &Vec<char>, p: &Vec<char>) -> (r: Option<usize>)
    ensures
        match r {
            Some(i) => find(s@, p@) == Some(i as int) && i + p@.len() <= s.len(),
            None => find(s@, p@) is None,
        },
{
    let r = find_in(s, p, 0);
    proof {
        if r is Some {
            crate::text::lemma_find_from_some(s@, p@, 0);
        }
    }
    r
}

fn has_char_in(s: &Vec<char>, c: char) -> (r: bool)
    ensures
        r == has_char(s@, c),
{
    let mut i: usize = 0;
    while i < s.len()
        invariant
            i <= s.len(),
            forall|j: int| 0 <= j < i ==> s@[j] != c,
        decreases s.len() - i,
    {
        if s[i] == c {
            return true;
        }
        i += 1;
    }
    false
}

fn same_chars(a: &Vec<char>, b: &Vec<char>) -> (r: bool)
    ensures
        r == (a@ == b@),
{
    if a.len() != b.len() {
        return false;
    }
    let r = seq_starts_with(a, b);
    assert(r == (a@ == b@)) by {
        assert(a@.subrange(0, b.len() as int) =~= a@);
    }
    r
}

pub fn clean_search_result_title(title: &str, url: &str) -> (r: String)
    ensures
        r@ == clean_title(title@, url@),
{
    let u = chars_of(url);
    let host = title_host_vec(&u);
    let c0 = chars_of(clean_browser_text(title).as_str());
    let web = chars_of("网页 ");
    proof {
        reveal_strlit("网页 ");
    }
    let c1 = if seq_starts_with(&c0, &web) {
        let rest = slice_chars(&c0, 3, c0.len());
        assert(rest@ =~= c0@.skip(3));
        trim_vec(&rest)
    } else {
        c0
    };
    let cut = match find_text(&c1, " http://") {
        Some(i) => Some(i),
        None => find_text(&c1, " https://"),
    };
    let c2 = match cut {
        Some(i) => {
            let head = take_chars(&c1, i);
            trim_vec(&head)
        },
        None => c1,
    };
    let c4 = if host.len() > 0 {
        let l = lower_vec(&c2);
        let mut host_sp = host.clone();
        host_sp.push(' ');
        proof {
            reveal_strlit(" ");
        }
        assert(host_sp@ =~= host@ + " "@);
        let c3 = if same_chars(&l, &host) || seq_starts_with(&l, &host_sp) {
            let rest = slice_chars(&c2, host.len(), c2.len());
            assert(rest@ =~= c2@.skip(host.len() as int));
            trim_vec(&rest)
        } else {
            c2
        };
        let l2 = lower_vec(&c3);
        match find_vec(&l2, &host) {
            Some(i) => {
                if has_char_in(&l2, '›') || has_char_in(&l2, '>') {
                    assert(l2@.len() == c3@.len());
                    let head = take_chars(&c3, i);
                    trim_vec(&head)
                } else {
                    c3
                }
            },
            None => c3,
        }
    } else {
        c2
    };
    let out = string_of(c4.as_slice());
    if looks_like_repeated_label(out.as_str()) {
        String::new()
    } else {
        out
    }
}

// ---------------------------------------------------------------------
// Fields of browser records
// ---------------------------------------------------------------------

/// `value_at_path`: the value reached by following the keys in turn.
pub open spec fn at_path(v: JsonV, path: Seq<Seq<char>>) -> Option<JsonV>
    decreases path.len(),
{
    if path.len() == 0 {
        Some(v)
    } else {
        match get(v, path[0]) {
            Some(x) => at_path(x, path.drop_first()),
            None => None,
        }
    }
}

pub fn value_at_path<'a>(value: &'a Json, path: &Vec<&str>) -> (r: Option<&'a Json>)
    ensures
        crate::json::view_opt(r) == at_path(value@, key_views(path@)),
{
    let ghost ks = key_views(path@);
    let mut current = value;
    let mut i: usize = 0;
    assert(ks.skip(0) =~= ks);
    while i < path.len()
        invariant
            i <= path.len(),
            ks == key_views(path@),
            at_path(value@, ks) == at_path(current@, ks.skip(i as int)),
        decreases path.len() - i,
    {
        assert(ks.skip(i as int)[0] == path@[i as int]@);
        assert(ks.skip(i as int).drop_first() =~= ks.skip(i + 1));
        match current.get(path[i]) {
            Some(x) => {
                current = x;
            },
            None => {
                return None;
            },
        }
        i += 1;
    }
    assert(ks.skip(path.len() as int) =~= Seq::<Seq<char>>::empty());
    Some(current)
}

/// A field of a record as trimmed text; empty when it is not a string.
pub open spec fn field_text(element: JsonV, field: Seq<char>) -> Seq<char> {
    match as_str_opt(get(element, field)) {
        Some(t) => trim(t),
        None => Seq::empty(),
    }
}

pub fn string_field(element: &Json, field: &str) -> (r: String)
    ensures
        r@ == field_text(element@, field@),
{
    match element.get(field) {
        Some(x) => match x.as_str() {
            Some(t) => crate::text::text_trim(t.as_str()),
            None => String::new(),
        },
        None => String::new(),
    }
}

/// The first of the fields that is not empty.
pub open spec fn first_field(element: JsonV, fields: Seq<Seq<char>>) -> Seq<char>
    decreases fields.len(),
{
    if fields.len() == 0 {
        Seq::empty()
    } else if field_text(element, fields[0]).len() > 0 {
        field_text(element, fields[0])
    } else {
        first_field(element, fields.drop_first())
    }
}

pub fn first_non_empty_field(element: &Json, fields: &Vec<&str>) -> (r: String)
    ensures
        r@ == first_field(element@, key_views(fields@)),
{
    let ghost ks = key_views(fields@);
    let mut i: usize = 0;
    assert(ks.skip(0) =~= ks);
    while i < fields.len()
        invariant
            i <= fields.len(),
            ks == key_views(fields@),
            first_field(element@, ks) == first_field(element@, ks.skip(i as int)),
        decreases fields.len() - i,
    {
        assert(ks.skip(i as int)[0] == fields@[i as int]@);
        assert(ks.skip(i as int).drop_first() =~= ks.skip(i + 1));
        let t = string_field(element, fields[i]);
        if chars_of(t.as_str()).len() > 0 {
            return t;
        }
        i += 1;
    }
    String::new()
}

/// The snippet of a link element: its nearby or parent text, cleaned,
/// without the title it starts with, clipped; empty when it is the title.
pub open spec fn element_snippet(element: JsonV, title: Seq<char>) -> Seq<char> {
    let s = clean_text(first_field(element, seq!["nearby_text"@, "parent_text"@]));
    if s == title {
        Seq::empty()
    } else if starts_with(s, title) {
        clip360(strip_start(s.skip(title.len() as int), CharClass::SnippetLead))
    } else {
        clip360(s)
    }
}

pub fn browser_snippet_from_element(element: &Json, title: &str) -> (r: String)
    ensures
        r@ == element_snippet(element@, title@),
{
    let fields = vec!["nearby_text", "parent_text"];
    assert(key_views(fields@) =~= seq!["nearby_text"@, "parent_text"@]);
    let raw = first_non_empty_field(element, &fields);
    let s = chars_of(clean_browser_text(raw.as_str()).as_str());
    let t = chars_of(title);
    if same_chars(&s, &t) {
        return String::new();
    }
    let body = if seq_starts_with(&s, &t) {
        let rest = slice_chars(&s, t.len(), s.len());
        assert(rest@ =~= s@.skip(t.len() as int));
        strip_start_vec(&rest, &CharClass::SnippetLead)
    } else {
        s
    };
    let clipped = clip_to_360_bytes(&body);
    string_of(clipped.as_slice())
}


// ---------------------------------------------------------------------
// Collecting results
// ---------------------------------------------------------------------

pub open spec fn collected(results: Seq<SearchResult>, seen: Seq<String>) -> (Seq<ResultV>, Seq<Seq<char>>) {
    (result_views(results), str_views(seen))
}

pub open spec fn arr_at(v: JsonV, path: Seq<Seq<char>>) -> Seq<JsonV> {
    match crate::json::as_arr_opt(at_path(v, path)) {
        Some(xs) => xs,
        None => Seq::empty(),
    }
}

/// One structured search record, taken when it has a result URL not seen
/// before and a usable title.
pub open spec fn structured_step(st: (Seq<ResultV>, Seq<Seq<char>>), item: JsonV, max: nat) -> (
    Seq<ResultV>,
    Seq<Seq<char>>,
) {
    let (rs, seen) = st;
    if rs.len() >= max || !(item is Obj) {
        st
    } else {
        match result_url(first_field(item, seq!["url"@, "href"@, "link"@])) {
            None => st,
            Some(url) => if seen.contains(url) {
                st
            } else {
                let seen2 = seen.push(url);
                let title = clean_title(first_field(item, seq!["title"@, "text"@, "label"@]), url);
                if title.len() == 0 || navigation_title(title) {
                    (rs, seen2)
                } else {
                    let s0 = clean_text(
                        first_field(item, seq!["snippet"@, "description"@, "summary"@, "nearby_text"@]),
                    );
                    let s1 = if s0 == title {
                        Seq::empty()
                    } else {
                        s0
                    };
                    (rs.push(ResultV { title, url, snippet: clip360(s1) }), seen2)
                }
            },
        }
    }
}

pub open spec fn structured_fold(st: (Seq<ResultV>, Seq<Seq<char>>), items: Seq<JsonV>, max: nat) -> (
    Seq<ResultV>,
    Seq<Seq<char>>,
)
    decreases items.len(),
{
    if items.len() == 0 {
        st
    } else {
        structured_step(structured_fold(st, items.drop_last(), max), items.last(), max)
    }
}

/// The structured search records of an observation: those at
/// `search_results`, or, when they give nothing, at `page_state.search_results`.
pub open spec fn structured(v: JsonV, max: nat) -> (Seq<ResultV>, Seq<Seq<char>>) {
    let st1 = structured_fold((Seq::empty(), Seq::empty()), arr_at(v, seq!["search_results"@]), max);
    if st1.0.len() > 0 {
        st1
    } else {
        structured_fold(st1, arr_at(v, seq!["page_state"@, "search_results"@]), max)
    }
}

fn contains_string(seen: &Vec<String>, url: &str) -> (r: bool)
    ensures
        r == str_views(seen@).contains(url@),
{
    let mut i: usize = 0;
    while i < seen.len()
        invariant
            i <= seen.len(),
            forall|j: int| 0 <= j < i ==> seen@[j]@ != url@,
        decreases seen.len() - i,
    {
        if crate::text::same_text(seen[i].as_str(), url) {
            assert(str_views(seen@)[i as int] == url@);
            return true;
        }
        i += 1;
    }
    assert forall|j: int| 0 <= j < str_views(seen@).len() implies str_views(seen@)[j] != url@ by {
        assert(str_views(seen@)[j] == seen@[j]@);
    }
    false
}

fn push_result(results: &mut Vec<SearchResult>, r: SearchResult)
    ensures
        result_views(final(results)@) == result_views(old(results)@).push(r@),
{
    let ghost before = results@;
    results.push(r);
    assert(result_views(results@) =~= result_views(before).push(r@));
}

fn push_seen(seen: &mut Vec<String>, url: String)
    ensures
        str_views(final(seen)@) == str_views(old(seen)@).push(url@),
{
    let ghost before = seen@;
    seen.push(url);
    assert(str_views(seen@) =~= str_views(before).push(url@));
}

fn structured_item(item: &Json, results: &mut Vec<SearchResult>, seen: &mut Vec<String>, max: usize)
    ensures
        collected(final(results)@, final(seen)@) == structured_step(
            collected(old(results)@, old(seen)@),
            item@,
            max as nat,
        ),
{
    if results.len() >= max {
        return;
    }
    if item.as_object().is_none() {
        return;
    }
    let k_url = vec!["url", "href", "link"];
    assert(key_views(k_url@) =~= seq!["url"@, "href"@, "link"@]);
    let raw_url = first_non_empty_field(item, &k_url);
    let url = match normalize_browser_result_url(raw_url.as_str()) {
        Some(u) => u,
        None => {
            return;
        },
    };
    if contains_string(seen, url.as_str()) {
        return;
    }
    push_seen(seen, url.clone());
    let k_title = vec!["title", "text", "label"];
    assert(key_views(k_title@) =~= seq!["title"@, "text"@, "label"@]);
    let title = clean_search_result_title(first_non_empty_field(item, &k_title).as_str(), url.as_str());
    if chars_of(title.as_str()).len() == 0 || looks_like_search_navigation_title(title.as_str()) {
        return;
    }
    let k_snip = vec!["snippet", "description", "summary", "nearby_text"];
    assert(key_views(k_snip@) =~= seq!["snippet"@, "description"@, "summary"@, "nearby_text"@]);
    let s0 = chars_of(clean_browser_text(first_non_empty_field(item, &k_snip).as_str()).as_str());
    let t = chars_of(title.as_str());
    let s1 = if same_chars(&s0, &t) {
        Vec::new()
    } else {
        s0
    };
    assert(s1@ == (if s0@ == t@ { Seq::<char>::empty() } else { s0@ }));
    let snippet = string_of(clip_to_360_bytes(&s1).as_slice());
    push_result(results, SearchResult { title, url, snippet });
}

fn structured_path(
    value: &Json,
    path: &Vec<&str>,
    results: &mut Vec<SearchResult>,
    seen: &mut Vec<String>,
    max: usize,
)
    ensures
        collected(final(results)@, final(seen)@) == structured_fold(
            collected(old(results)@, old(seen)@),
            arr_at(value@, key_views(path@)),
            max as nat,
        ),
{
    match value_at_path(value, path) {
        Some(x) => match x.as_array() {
            Some(items) => {
                let ghost xs = views(items@);
                let mut i: usize = 0;
                assert(xs.take(0) =~= Seq::<JsonV>::empty());
                while i < items.len()
                    invariant
                        i <= items.len(),
                        xs == views(items@),
                        collected(results@, seen@) == structured_fold(
                            collected(old(results)@, old(seen)@),
                            xs.take(i as int),
                            max as nat,
                        ),
                    decreases items.len() - i,
                {
                    assert(xs.take(i + 1).drop_last() =~= xs.take(i as int));
                    assert(xs.take(i + 1).last() == items@[i as int]@);
                    structured_item(&items[i], results, seen, max);
                    i += 1;
                }
                assert(xs.take(items.len() as int) =~= xs);
            },
            None => {},
        },
        None => {},
    }
}

pub fn collect_browser_structured_results(
    value: &Json,
    results: &mut Vec<SearchResult>,
    seen: &mut Vec<String>,
    max: usize,
)
    requires
        old(results)@.len() == 0,
        old(seen)@.len() == 0,
    ensures
        collected(final(results)@, final(seen)@) == structured(value@, max as nat),
{
    assert(result_views(results@) =~= Seq::<ResultV>::empty());
    assert(str_views(seen@) =~= Seq::<Seq<char>>::empty());
    let p1 = vec!["search_results"];
    assert(key_views(p1@) =~= seq!["search_results"@]);
    structured_path(value, &p1, results, seen, max);
    if results.len() > 0 {
        return;
    }
    let p2 = vec!["page_state", "search_results"];
    assert(key_views(p2@) =~= seq!["page_state"@, "search_results"@]);
    structured_path(value, &p2, results, seen, max);
}


// ---------------------------------------------------------------------
// Visible text blocks
// ---------------------------------------------------------------------

/// The text of a block: its `text`, cleaned; empty when it has none.
pub open spec fn block_text(block: JsonV) -> Seq<char> {
    match as_str_opt(get(block, "text"@)) {
        Some(t) => clean_text(t),
        None => Seq::empty(),
    }
}

/// The texts of blocks, skipping empty ones and repeats of the one before.
pub open spec fn block_texts(blocks: Seq<JsonV>) -> Seq<Seq<char>>
    decreases blocks.len(),
{
    if blocks.len() == 0 {
        Seq::empty()
    } else {
        let ts = block_texts(blocks.drop_last());
        let t = block_text(blocks.last());
        if t.len() == 0 || (ts.len() > 0 && ts.last() == t) {
            ts
        } else {
            ts.push(t)
        }
    }
}

/// The visible text blocks of an observation's viewport map, or of its page state's.
pub open spec fn visible_blocks(v: JsonV) -> Seq<Seq<char>> {
    let t1 = block_texts(arr_at(v, seq!["viewport_map"@, "visible_text_blocks"@]));
    if t1.len() > 0 {
        t1
    } else {
        block_texts(arr_at(v, seq!["page_state"@, "viewport_map"@, "visible_text_blocks"@]))
    }
}

fn block_texts_at(value: &Json, path: &Vec<&str>) -> (r: Vec<String>)
    ensures
        str_views(r@) == block_texts(arr_at(value@, key_views(path@))),
{
    let mut texts: Vec<String> = Vec::new();
    match value_at_path(value, path) {
        Some(x) => match x.as_array() {
            Some(blocks) => {
                let ghost bs = views(blocks@);
                let mut i: usize = 0;
                assert(bs.take(0) =~= Seq::<JsonV>::empty());
                while i < blocks.len()
                    invariant
                        i <= blocks.len(),
                        bs == views(blocks@),
                        str_views(texts@) == block_texts(bs.take(i as int)),
                    decreases blocks.len() - i,
                {
                    assert(bs.take(i + 1).drop_last() =~= bs.take(i as int));
                    assert(bs.take(i + 1).last() == blocks@[i as int]@);
                    let text = match blocks[i].get("text") {
                        Some(t) => match t.as_str() {
                            Some(t) => clean_browser_text(t.as_str()),
                            None => String::new(),
                        },
                        None => String::new(),
                    };
                    let ghost tv = str_views(texts@);
                    let skip = chars_of(text.as_str()).len() == 0 || (texts.len() > 0
                        && crate::text::same_text(texts[texts.len() - 1].as_str(), text.as_str()));
                    proof {
                        if texts.len() > 0 {
                            assert(tv.last() == texts@[texts.len() - 1]@);
                        }
                    }
                    if !skip {
                        let ghost before = texts@;
                        texts.push(text);
                        assert(str_views(texts@) =~= str_views(before).push(str_views(texts@).last()));
                    }
                    i += 1;
                }
                assert(bs.take(blocks.len() as int) =~= bs);
            },
            None => {},
        },
        None => {},
    }
    proof {
        if arr_at(value@, key_views(path@)).len() == 0 {
            assert(str_views(texts@) =~= Seq::<Seq<char>>::empty());
        }
    }
    texts
}

pub fn browser_visible_text_blocks(value: &Json) -> (r: Vec<String>)
    ensures
        str_views(r@) == visible_blocks(value@),
{
    let p1 = vec!["viewport_map", "visible_text_blocks"];
    assert(key_views(p1@) =~= seq!["viewport_map"@, "visible_text_blocks"@]);
    let t1 = block_texts_at(value, &p1);
    if t1.len() > 0 {
        return t1;
    }
    let p2 = vec!["page_state", "viewport_map", "visible_text_blocks"];
    assert(key_views(p2@) =~= seq!["page_state"@, "viewport_map"@, "visible_text_blocks"@]);
    block_texts_at(value, &p2)
}

/// The block at `i` as the URL of a result, with its title among the next
/// blocks and its snippet after that; a URL followed directly by another is
/// only a breadcrumb.
pub open spec fn viewport_step(st: (Seq<ResultV>, Seq<Seq<char>>), blocks: Seq<Seq<char>>, i: int, max: nat) -> (
    Seq<ResultV>,
    Seq<Seq<char>>,
) {
    let (rs, seen) = st;
    if rs.len() >= max {
        st
    } else if visible_url(blocks[i]) is Some && i + 1 < blocks.len() && visible_url(blocks[i + 1]) is Some {
        st
    } else {
        match visible_url(blocks[i]) {
            None => st,
            Some(u0) => match result_url(u0) {
                None => st,
                Some(url) => if seen.contains(url) {
                    st
                } else {
                    match next_title(blocks, i + 1) {
                        None => (rs, seen.push(url)),
                        Some(ti) => (
                            rs.push(ResultV { title: blocks[ti], url, snippet: next_snippet(blocks, ti + 1) }),
                            seen.push(url),
                        ),
                    }
                },
            },
        }
    }
}

pub open spec fn viewport_fold(st: (Seq<ResultV>, Seq<Seq<char>>), blocks: Seq<Seq<char>>, n: nat, max: nat) -> (
    Seq<ResultV>,
    Seq<Seq<char>>,
)
    decreases n,
{
    if n == 0 {
        st
    } else {
        viewport_step(viewport_fold(st, blocks, (n - 1) as nat, max), blocks, n - 1, max)
    }
}

pub fn collect_browser_viewport_results(
    value: &Json,
    results: &mut Vec<SearchResult>,
    seen: &mut Vec<String>,
    max: usize,
)
    ensures
        collected(final(results)@, final(seen)@) == ({
            let blocks = visible_blocks(value@);
            viewport_fold(collected(old(results)@, old(seen)@), blocks, blocks.len(), max as nat)
        }),
{
    let blocks = browser_visible_text_blocks(value);
    let ghost bs = str_views(blocks@);
    let mut i: usize = 0;
    while i < blocks.len()
        invariant
            i <= blocks.len(),
            bs == str_views(blocks@),
            bs == visible_blocks(value@),
            collected(results@, seen@) == viewport_fold(
                collected(old(results)@, old(seen)@),
                bs,
                i as nat,
                max as nat,
            ),
        decreases blocks.len() - i,
    {
        viewport_block(&blocks, i, results, seen, max);
        i += 1;
    }
}

fn viewport_block(blocks: &Vec<String>, i: usize, results: &mut Vec<SearchResult>, seen: &mut Vec<String>, max: usize)
    requires
        i < blocks.len(),
    ensures
        collected(final(results)@, final(seen)@) == viewport_step(
            collected(old(results)@, old(seen)@),
            str_views(blocks@),
            i as int,
            max as nat,
        ),
{
    let ghost bs = str_views(blocks@);
    if results.len() >= max {
        return;
    }
    let current = blocks[i].as_str();
    assert(bs[i as int] == current@);
    if visible_text_has_search_url(current) && i + 1 < blocks.len() && visible_text_has_search_url(
        blocks[i + 1].as_str(),
    ) {
        assert(bs[i + 1] == blocks@[i + 1]@);
        return;
    }
    proof {
        if i + 1 < blocks.len() {
            assert(bs[i + 1] == blocks@[i + 1]@);
        }
    }
    let u0 = match visible_text_result_url(current) {
        Some(u) => u,
        None => {
            return;
        },
    };
    let url = match normalize_browser_result_url(u0.as_str()) {
        Some(u) => u,
        None => {
            return;
        },
    };
    if contains_string(seen, url.as_str()) {
        return;
    }
    match find_next_result_title(blocks, i + 1) {
        None => {
            push_seen(seen, url);
        },
        Some(ti) => {
            proof {
                match next_title(bs, i + 1) {
                    Some(t) => {
                        crate::web_search::lemma_next_title_bound(bs, i + 1);
                    },
                    None => {},
                }
            }
            let title = blocks[ti].clone();
            assert(title@ == bs[ti as int]);
            let snippet = find_next_result_snippet(blocks, ti + 1);
            push_seen(seen, url.clone());
            push_result(results, SearchResult { title, url, snippet });
        },
    }
}

pub proof fn lemma_next_title_bound(texts: Seq<Seq<char>>, start: int)
    requires
        0 <= start <= texts.len(),
    ensures
        next_title(texts, start) matches Some(t) ==> start <= t < texts.len(),
{
    lemma_next_title_from_bound(
        texts,
        start,
        crate::search_text::window_end(texts.len() as int, start, 5),
    );
}

proof fn lemma_next_title_from_bound(texts: Seq<Seq<char>>, i: int, end: int)
    requires
        0 <= i,
        end <= texts.len(),
    ensures
        crate::search_text::next_title_from(texts, i, end) matches Some(t) ==> i <= t < end
            && crate::search_text::title_block(texts[t]),
    decreases end - i,
{
    if i < end && !crate::search_text::title_block(texts[i]) {
        lemma_next_title_from_bound(texts, i + 1, end);
    }
}


// ---------------------------------------------------------------------
// Link elements
// ---------------------------------------------------------------------

/// One link element of an observation, taken when it is a link with a
/// result URL not seen before and a usable title.
pub open spec fn element_step(st: (Seq<ResultV>, Seq<Seq<char>>), e: JsonV, max: nat) -> (
    Seq<ResultV>,
    Seq<Seq<char>>,
) {
    let (rs, seen) = st;
    let role = lower(field_text(e, "role"@));
    let tag = lower(field_text(e, "tag"@));
    let href = field_text(e, "href"@);
    if rs.len() >= max || !(e is Obj) {
        st
    } else if href.len() == 0 || (role != "link"@ && tag != "a"@) {
        st
    } else {
        match result_url(href) {
            None => st,
            Some(url) => if seen.contains(url) {
                st
            } else {
                let title = clean_title(first_field(e, seq!["text"@, "label"@]), url);
                if title.len() == 0 || navigation_title(title) {
                    (rs, seen.push(url))
                } else {
                    (rs.push(ResultV { title, url, snippet: element_snippet(e, title) }), seen.push(url))
                }
            },
        }
    }
}

pub open spec fn element_fold(st: (Seq<ResultV>, Seq<Seq<char>>), xs: Seq<JsonV>, max: nat) -> (
    Seq<ResultV>,
    Seq<Seq<char>>,
)
    decreases xs.len(),
{
    if xs.len() == 0 {
        st
    } else {
        element_step(element_fold(st, xs.drop_last(), max), xs.last(), max)
    }
}

/// The link elements of an observation: its `links`, its page state's
/// `links`, its `elements`, its page state's `elements`, in that order.
pub open spec fn element_lists(v: JsonV) -> Seq<Seq<JsonV>> {
    seq![
        arr_at(v, seq!["links"@]),
        arr_at(v, seq!["page_state"@, "links"@]),
        arr_at(v, seq!["elements"@]),
        arr_at(v, seq!["page_state"@, "elements"@]),
    ]
}

pub open spec fn elements_fold(st: (Seq<ResultV>, Seq<Seq<char>>), v: JsonV, max: nat) -> (
    Seq<ResultV>,
    Seq<Seq<char>>,
) {
    let ls = element_lists(v);
    element_fold(element_fold(element_fold(element_fold(st, ls[0], max), ls[1], max), ls[2], max), ls[3], max)
}

fn vec_is_text(s: &Vec<char>, t: &str) -> (r: bool)
    ensures
        r == (s@ == t@),
{
    let u = chars_of(t);
    same_chars(s, &u)
}

fn element_item(e: &Json, results: &mut Vec<SearchResult>, seen: &mut Vec<String>, max: usize)
    ensures
        collected(final(results)@, final(seen)@) == element_step(
            collected(old(results)@, old(seen)@),
            e@,
            max as nat,
        ),
{
    if results.len() >= max || e.as_object().is_none() {
        return;
    }
    let role = lower_vec(&chars_of(string_field(e, "role").as_str()));
    let tag = lower_vec(&chars_of(string_field(e, "tag").as_str()));
    let href = string_field(e, "href");
    if chars_of(href.as_str()).len() == 0 || (!vec_is_text(&role, "link") && !vec_is_text(&tag, "a")) {
        return;
    }
    let url = match normalize_browser_result_url(href.as_str()) {
        Some(u) => u,
        None => {
            return;
        },
    };
    if contains_string(seen, url.as_str()) {
        return;
    }
    push_seen(seen, url.clone());
    let k_title = vec!["text", "label"];
    assert(key_views(k_title@) =~= seq!["text"@, "label"@]);
    let title = clean_search_result_title(first_non_empty_field(e, &k_title).as_str(), url.as_str());
    if chars_of(title.as_str()).len() == 0 || looks_like_search_navigation_title(title.as_str()) {
        return;
    }
    let snippet = browser_snippet_from_element(e, title.as_str());
    push_result(results, SearchResult { title, url, snippet });
}

fn elements_at(value: &Json, path: &Vec<&str>, results: &mut Vec<SearchResult>, seen: &mut Vec<String>, max: usize)
    ensures
        collected(final(results)@, final(seen)@) == element_fold(
            collected(old(results)@, old(seen)@),
            arr_at(value@, key_views(path@)),
            max as nat,
        ),
{
    match value_at_path(value, path) {
        Some(x) => match x.as_array() {
            Some(items) => {
                let ghost xs = views(items@);
                let mut i: usize = 0;
                assert(xs.take(0) =~= Seq::<JsonV>::empty());
                while i < items.len()
                    invariant
                        i <= items.len(),
                        xs == views(items@),
                        collected(results@, seen@) == element_fold(
                            collected(old(results)@, old(seen)@),
                            xs.take(i as int),
                            max as nat,
                        ),
                    decreases items.len() - i,
                {
                    assert(xs.take(i + 1).drop_last() =~= xs.take(i as int));
                    assert(xs.take(i + 1).last() == items@[i as int]@);
                    element_item(&items[i], results, seen, max);
                    i += 1;
                }
                assert(xs.take(items.len() as int) =~= xs);
            },
            None => {},
        },
        None => {},
    }
}

pub fn collect_browser_elements(value: &Json, results: &mut Vec<SearchResult>, seen: &mut Vec<String>, max: usize)
    ensures
        collected(final(results)@, final(seen)@) == elements_fold(
            collected(old(results)@, old(seen)@),
            value@,
            max as nat,
        ),
{
    let p1 = vec!["links"];
    assert(key_views(p1@) =~= seq!["links"@]);
    elements_at(value, &p1, results, seen, max);
    let p2 = vec!["page_state", "links"];
    assert(key_views(p2@) =~= seq!["page_state"@, "links"@]);
    elements_at(value, &p2, results, seen, max);
    let p3 = vec!["elements"];
    assert(key_views(p3@) =~= seq!["elements"@]);
    elements_at(value, &p3, results, seen, max);
    let p4 = vec!["page_state", "elements"];
    assert(key_views(p4@) =~= seq!["page_state"@, "elements"@]);
    elements_at(value, &p4, results, seen, max);
}

// ---------------------------------------------------------------------
// Reading an observation
// ---------------------------------------------------------------------

/// The results read off a browser observation (`None` when its text was
/// not JSON): none for a failed one; else structured records first, then
/// the viewport's visible text, then link elements, at most `max`, each
/// URL once.
pub open spec fn browser_results(parsed: Option<JsonV>, max: nat) -> Seq<ResultV> {
    match parsed {
        None => Seq::empty(),
        Some(v) => if crate::json::as_bool_opt(get(v, "success"@)) == Some(false) {
            Seq::empty()
        } else {
            let st1 = structured(v, max);
            let st2 = if st1.0.len() < max {
                let blocks = visible_blocks(v);
                viewport_fold(st1, blocks, blocks.len(), max)
            } else {
                st1
            };
            elements_fold(st2, v, max).0
        },
    }
}

pub fn parse_browser_search_results(parsed: Option<&Json>, max: usize) -> (r: Vec<SearchResult>)
    ensures
        result_views(r@) == browser_results(crate::json::view_opt(parsed), max as nat),
{
    let value = match parsed {
        Some(v) => v,
        None => {
            let r: Vec<SearchResult> = Vec::new();
            assert(result_views(r@) =~= Seq::<ResultV>::empty());
            return r;
        },
    };
    match value.get("success") {
        Some(b) => match b.as_bool() {
            Some(false) => {
                let r: Vec<SearchResult> = Vec::new();
                assert(result_views(r@) =~= Seq::<ResultV>::empty());
                return r;
            },
            _ => {},
        },
        None => {},
    }
    let mut results: Vec<SearchResult> = Vec::new();
    let mut seen: Vec<String> = Vec::new();
    collect_browser_structured_results(value, &mut results, &mut seen, max);
    if results.len() < max {
        collect_browser_viewport_results(value, &mut results, &mut seen, max);
    }
    collect_browser_elements(value, &mut results, &mut seen, max);
    results
}

/// A browser tool's own failure: for an observation whose `success` is
/// false, its `error`, else `blocked_or_approval_reason`, else
/// `failure_code` (the first present), when that is a string.
pub open spec fn tool_error(parsed: Option<JsonV>) -> Option<Seq<char>> {
    match parsed {
        None => None,
        Some(v) => if crate::json::as_bool_opt(get(v, "success"@)) == Some(false) {
            let found = if get(v, "error"@) is Some {
                get(v, "error"@)
            } else if get(v, "blocked_or_approval_reason"@) is Some {
                get(v, "blocked_or_approval_reason"@)
            } else {
                get(v, "failure_code"@)
            };
            match as_str_opt(found) {
                Some(t) => Some(t),
                None => Some("browser tool returned success=false"@),
            }
        } else {
            None
        },
    }
}

pub fn host_tool_error(parsed: Option<&Json>) -> (r: Option<String>)
    ensures
        string_opt(r) == tool_error(crate::json::view_opt(parsed)),
{
    let v = match parsed {
        Some(v) => v,
        None => {
            return None;
        },
    };
    let failed = match v.get("success") {
        Some(b) => match b.as_bool() {
            Some(x) => !x,
            None => false,
        },
        None => false,
    };
    if !failed {
        return None;
    }
    let found = match v.get("error") {
        Some(x) => Some(x),
        None => match v.get("blocked_or_approval_reason") {
            Some(x) => Some(x),
            None => v.get("failure_code"),
        },
    };
    match found {
        Some(x) => match x.as_str() {
            Some(t) => Some(t.clone()),
            None => Some(String::from_str("browser tool returned success=false")),
        },
        None => Some(String::from_str("browser tool returned success=false")),
    }
}


// ---------------------------------------------------------------------
// Reporting
// ---------------------------------------------------------------------

/// A field of an observation, or of its page state when it has none there.
pub open spec fn page_field(v: JsonV, field: Seq<char>) -> Option<JsonV> {
    if get(v, field) is Some {
        get(v, field)
    } else {
        at_path(v, seq!["page_state"@, field])
    }
}

pub open spec fn str_or_empty(o: Option<JsonV>) -> Seq<char> {
    match as_str_opt(o) {
        Some(t) => t,
        None => Seq::empty(),
    }
}

/// A one-line account of an observation: its URL, title and the first 160
/// characters of its cleaned text.
pub open spec fn observation_diagnostics(parsed: Option<JsonV>) -> Seq<char> {
    match parsed {
        None => "unparseable browser output"@,
        Some(v) => {
            let text = match as_str_opt(page_field(v, "text"@)) {
                Some(t) => clean_text(t),
                None => Seq::empty(),
            };
            let preview = if text.len() > 160 {
                text.take(160)
            } else {
                text
            };
            "url="@ + str_or_empty(page_field(v, "url"@)) + "; title="@ + str_or_empty(page_field(v, "title"@))
                + "; text="@ + preview
        },
    }
}

fn page_field_of<'a>(v: &'a Json, field: &str) -> (r: Option<&'a Json>)
    ensures
        crate::json::view_opt(r) == page_field(v@, field@),
{
    match v.get(field) {
        Some(x) => Some(x),
        None => {
            let path = vec!["page_state", field];
            assert(key_views(path@) =~= seq!["page_state"@, field@]);
            value_at_path(v, &path)
        },
    }
}

fn str_or_empty_of(o: Option<&Json>) -> (r: String)
    ensures
        r@ == str_or_empty(crate::json::view_opt(o)),
{
    match o {
        Some(x) => match x.as_str() {
            Some(t) => t.clone(),
            None => String::new(),
        },
        None => String::new(),
    }
}

pub fn browser_observation_diagnostics(parsed: Option<&Json>) -> (r: String)
    ensures
        r@ == observation_diagnostics(crate::json::view_opt(parsed)),
{
    let v = match parsed {
        Some(v) => v,
        None => {
            return String::from_str("unparseable browser output");
        },
    };
    let url = str_or_empty_of(page_field_of(v, "url"));
    let title = str_or_empty_of(page_field_of(v, "title"));
    let text = match page_field_of(v, "text") {
        Some(x) => match x.as_str() {
            Some(t) => clean_browser_text(t.as_str()),
            None => String::new(),
        },
        None => String::new(),
    };
    let tc = chars_of(text.as_str());
    let preview = if tc.len() > 160 {
        take_chars(&tc, 160)
    } else {
        tc
    };
    let p = string_of(preview.as_slice());
    let a = cat("url=", url.as_str());
    let b = cat(a.as_str(), "; title=");
    let c = cat(b.as_str(), title.as_str());
    let d = cat(c.as_str(), "; text=");
    cat(d.as_str(), p.as_str())
}

/// The JSON record of result `i` (counted from 1 in `index`).
pub open spec fn result_value(r: ResultV, index: int) -> JsonV {
    JsonV::Obj(
        seq![
            ("index"@, crate::json::int_value(index)),
            ("snippet"@, JsonV::Str(r.snippet)),
            ("title"@, JsonV::Str(r.title)),
            ("url"@, JsonV::Str(r.url)),
        ],
    )
}

/// The tool's answer: the query, the diagnostics, how many results, and the
/// results numbered from 1, pretty-printed.
pub open spec fn results_value(query: Seq<char>, results: Seq<ResultV>, diagnostics: Seq<char>) -> JsonV {
    JsonV::Obj(
        seq![
            ("diagnostics"@, JsonV::Str(diagnostics)),
            ("query"@, JsonV::Str(query)),
            ("result_count"@, crate::json::int_value(results.len() as int)),
            ("results"@, JsonV::Arr(Seq::new(results.len(), |i: int| result_value(results[i], i + 1)))),
        ],
    )
}

/// The tool's answer carries the query, the diagnostics and the number of
/// results, and, in the order given, each result numbered from 1 with its
/// own title, URL and snippet.
pub proof fn law_answer_lists_each_result(query: Seq<char>, results: Seq<ResultV>, diagnostics: Seq<char>)
    ensures
        get(results_value(query, results, diagnostics), "query"@) == Some(JsonV::Str(query)),
        get(results_value(query, results, diagnostics), "diagnostics"@) == Some(JsonV::Str(diagnostics)),
        get(results_value(query, results, diagnostics), "result_count"@) == Some(
            crate::json::int_value(results.len() as int),
        ),
        match get(results_value(query, results, diagnostics), "results"@) {
            Some(JsonV::Arr(xs)) => xs.len() == results.len() && forall|i: int|
                0 <= i < xs.len() ==> {
                    &&& get(#[trigger] xs[i], "title"@) == Some(JsonV::Str(results[i].title))
                    &&& get(xs[i], "url"@) == Some(JsonV::Str(results[i].url))
                    &&& get(xs[i], "snippet"@) == Some(JsonV::Str(results[i].snippet))
                    &&& get(xs[i], "index"@) == Some(crate::json::int_value(i + 1))
                },
            _ => false,
        },
{
    reveal_strlit("query");
    reveal_strlit("diagnostics");
    reveal_strlit("result_count");
    reveal_strlit("results");
    reveal_strlit("index");
    reveal_strlit("snippet");
    reveal_strlit("title");
    reveal_strlit("url");
    let v = results_value(query, results, diagnostics);
    let es = match v {
        JsonV::Obj(es) => es,
        _ => Seq::empty(),
    };
    assert("query"@[0] != "diagnostics"@[0]);
    assert("result_count"@.len() != "diagnostics"@.len() && "result_count"@.len() != "query"@.len());
    assert("results"@.len() != "diagnostics"@.len() && "results"@.len() != "query"@.len()
        && "results"@.len() != "result_count"@.len());
    crate::json::lemma_lookup_at(es, "diagnostics"@, 0);
    crate::json::lemma_lookup_at(es, "query"@, 1);
    crate::json::lemma_lookup_at(es, "result_count"@, 2);
    crate::json::lemma_lookup_at(es, "results"@, 3);
    let xs = Seq::new(results.len(), |i: int| result_value(results[i], i + 1));
    assert forall|i: int| 0 <= i < xs.len() implies {
        &&& get(#[trigger] xs[i], "title"@) == Some(JsonV::Str(results[i].title))
        &&& get(xs[i], "url"@) == Some(JsonV::Str(results[i].url))
        &&& get(xs[i], "snippet"@) == Some(JsonV::Str(results[i].snippet))
        &&& get(xs[i], "index"@) == Some(crate::json::int_value(i + 1))
    } by {
        let r = results[i];
        let ms = seq![
            ("index"@, crate::json::int_value(i + 1)),
            ("snippet"@, JsonV::Str(r.snippet)),
            ("title"@, JsonV::Str(r.title)),
            ("url"@, JsonV::Str(r.url)),
        ];
        assert(xs[i] == JsonV::Obj(ms));
        assert("snippet"@.len() != "index"@.len());
        assert("title"@[0] != "index"@[0] && "title"@.len() != "snippet"@.len());
        assert("url"@.len() != "index"@.len() && "url"@.len() != "snippet"@.len() && "url"@.len() != "title"@.len());
        crate::json::lemma_lookup_at(ms, "index"@, 0);
        crate::json::lemma_lookup_at(ms, "snippet"@, 1);
        crate::json::lemma_lookup_at(ms, "title"@, 2);
        crate::json::lemma_lookup_at(ms, "url"@, 3);
    }
}

pub fn format_results_with_diagnostics(query: &str, results: &Vec<SearchResult>, diagnostics: &str) -> (r: String)
    ensures
        r@ == crate::json::json_pretty_text(results_value(query@, result_views(results@), diagnostics@)),
{
    let ghost rv = result_views(results@);
    let mut items: Vec<Json> = Vec::new();
    let mut i: usize = 0;
    while i < results.len()
        invariant
            i <= results.len(),
            rv == result_views(results@),
            views(items@) == Seq::new(i as nat, |k: int| result_value(rv[k], k + 1)),
        decreases results.len() - i,
    {
        let r = &results[i];
        let rec = crate::json::obj4(
            "index",
            crate::json::num_u64((i + 1) as u64),
            "snippet",
            Json::string(r.snippet.as_str()),
            "title",
            Json::string(r.title.as_str()),
            "url",
            Json::string(r.url.as_str()),
        );
        assert(rec@ == result_value(rv[i as int], i + 1));
        proof {
            crate::web_search::lemma_result_nesting(rv[i as int], i + 1);
        }
        let ghost before = items@;
        items.push(rec);
        assert(views(items@) =~= Seq::new((i + 1) as nat, |k: int| result_value(rv[k], k + 1))) by {
            assert(views(items@) =~= views(before).push(rec@));
        }
        i += 1;
    }
    let n = items.len();
    let arr = crate::json::arr(items);
    let doc = crate::json::obj4(
        "diagnostics",
        Json::string(diagnostics),
        "query",
        Json::string(query),
        "result_count",
        crate::json::num_u64(n as u64),
        "results",
        arr,
    );
    assert(doc@ == results_value(query@, rv, diagnostics@));
    proof {
        crate::web_search::lemma_results_nesting(query@, rv, diagnostics@);
    }
    doc.to_pretty_text()
}

proof fn lemma_result_nesting(r: ResultV, index: int)
    ensures
        crate::json::nesting(result_value(r, index)) <= 1,
{
    let es = seq![
        ("index"@, crate::json::int_value(index)),
        ("snippet"@, JsonV::Str(r.snippet)),
        ("title"@, JsonV::Str(r.title)),
        ("url"@, JsonV::Str(r.url)),
    ];
    assert forall|i: int| 0 <= i < 4 implies crate::json::nesting(#[trigger] es[i].1) <= 0 by {}
    crate::json::lemma_members_bound(es, 4, 0);
}

proof fn lemma_results_nesting(query: Seq<char>, results: Seq<ResultV>, diagnostics: Seq<char>)
    ensures
        crate::json::nesting(results_value(query, results, diagnostics)) <= 3,
{
    let xs = Seq::new(results.len(), |i: int| result_value(results[i], i + 1));
    assert forall|i: int| 0 <= i < xs.len() implies crate::json::nesting(#[trigger] xs[i]) <= 1 by {
        lemma_result_nesting(results[i], i + 1);
    }
    crate::json::lemma_items_bound(xs, xs.len(), 1);
    let es = seq![
        ("diagnostics"@, JsonV::Str(diagnostics)),
        ("query"@, JsonV::Str(query)),
        ("result_count"@, crate::json::int_value(results.len() as int)),
        ("results"@, JsonV::Arr(xs)),
    ];
    assert forall|i: int| 0 <= i < 4 implies crate::json::nesting(#[trigger] es[i].1) <= 2 by {}
    crate::json::lemma_members_bound(es, 4, 2);
}


// ---------------------------------------------------------------------
// What holds of every reading
// ---------------------------------------------------------------------

/// A URL fit to be a result: `http(s)` and not one of the search engine's own pages.
pub open spec fn good_url(u: Seq<char>) -> bool {
    crate::search_url::is_http(u) && !crate::search_url::internal_url(u)
}

/// The shape of a result: a title that is not empty and not one of the
/// search engine's tabs, and a snippet of at most 360 bytes.
pub open spec fn result_shape(r: ResultV) -> bool {
    &&& r.title.len() > 0
    &&& !navigation_title(r.title)
    &&& crate::search_text::utf8_len(r.snippet) <= 360
}

/// Results so far within the limit, each with a fit URL that was seen, no
/// URL twice, each of the right shape.
pub open spec fn results_ok(st: (Seq<ResultV>, Seq<Seq<char>>), max: nat) -> bool {
    &&& st.0.len() <= max
    &&& forall|i: int| 0 <= i < st.0.len() ==> result_shape(#[trigger] st.0[i])
    &&& forall|i: int, j: int| 0 <= i < j < st.0.len() ==> st.0[i].url != st.0[j].url
    &&& forall|i: int| 0 <= i < st.0.len() ==> st.1.contains(#[trigger] st.0[i].url)
    &&& forall|i: int| 0 <= i < st.0.len() ==> good_url(#[trigger] st.0[i].url)
}

proof fn lemma_result_url_good(raw: Seq<char>)
    ensures
        result_url(raw) matches Some(u) ==> good_url(u),
{
}

proof fn lemma_seen_more(st: (Seq<ResultV>, Seq<Seq<char>>), url: Seq<char>, max: nat)
    requires
        results_ok(st, max),
    ensures
        results_ok((st.0, st.1.push(url)), max),
{
    assert forall|i: int| 0 <= i < st.0.len() implies st.1.push(url).contains(#[trigger] st.0[i].url) by {
        let j = choose|j: int| 0 <= j < st.1.len() && st.1[j] == st.0[i].url;
        assert(st.1.push(url)[j] == st.0[i].url);
    }
}

proof fn lemma_take_new(st: (Seq<ResultV>, Seq<Seq<char>>), r: ResultV, max: nat)
    requires
        results_ok(st, max),
        !st.1.contains(r.url),
        st.0.len() < max,
        good_url(r.url),
        result_shape(r),
    ensures
        results_ok((st.0.push(r), st.1.push(r.url)), max),
{
    let rs = st.0.push(r);
    let seen = st.1.push(r.url);
    lemma_seen_more(st, r.url, max);
    assert forall|i: int, j: int| 0 <= i < j < rs.len() implies rs[i].url != rs[j].url by {
        if j == rs.len() - 1 {
            assert(rs[i] == st.0[i]);
            assert(st.1.contains(st.0[i].url));
        } else {
            assert(rs[i] == st.0[i] && rs[j] == st.0[j]);
        }
    }
    assert forall|i: int| 0 <= i < rs.len() implies seen.contains(#[trigger] rs[i].url) by {
        if i == rs.len() - 1 {
            assert(seen[seen.len() - 1] == r.url);
        } else {
            assert(rs[i] == st.0[i]);
        }
    }
    assert forall|i: int| 0 <= i < rs.len() implies good_url(#[trigger] rs[i].url) by {
        if i < rs.len() - 1 {
            assert(rs[i] == st.0[i]);
        }
    }
    assert forall|i: int| 0 <= i < rs.len() implies result_shape(#[trigger] rs[i]) by {
        if i < rs.len() - 1 {
            assert(rs[i] == st.0[i]);
        }
    }
}

proof fn lemma_structured_step_ok(st: (Seq<ResultV>, Seq<Seq<char>>), item: JsonV, max: nat)
    requires
        results_ok(st, max),
    ensures
        results_ok(structured_step(st, item, max), max),
{
    let raw = first_field(item, seq!["url"@, "href"@, "link"@]);
    lemma_result_url_good(raw);
    if st.0.len() < max && item is Obj {
        if let Some(url) = result_url(raw) {
            if !st.1.contains(url) {
                let title = clean_title(first_field(item, seq!["title"@, "text"@, "label"@]), url);
                if title.len() == 0 || navigation_title(title) {
                    lemma_seen_more(st, url, max);
                } else {
                    let s0 = clean_text(
                        first_field(item, seq!["snippet"@, "description"@, "summary"@, "nearby_text"@]),
                    );
                    let s1 = if s0 == title {
                        Seq::empty()
                    } else {
                        s0
                    };
                    crate::search_text::lemma_clip360_bound(s1);
                    lemma_take_new(st, ResultV { title, url, snippet: clip360(s1) }, max);
                }
            }
        }
    }
}

proof fn lemma_structured_fold_ok(st: (Seq<ResultV>, Seq<Seq<char>>), items: Seq<JsonV>, max: nat)
    requires
        results_ok(st, max),
    ensures
        results_ok(structured_fold(st, items, max), max),
    decreases items.len(),
{
    if items.len() > 0 {
        lemma_structured_fold_ok(st, items.drop_last(), max);
        lemma_structured_step_ok(structured_fold(st, items.drop_last(), max), items.last(), max);
    }
}

proof fn lemma_viewport_step_ok(st: (Seq<ResultV>, Seq<Seq<char>>), blocks: Seq<Seq<char>>, i: int, max: nat)
    requires
        results_ok(st, max),
        0 <= i < blocks.len(),
    ensures
        results_ok(viewport_step(st, blocks, i, max), max),
{
    if let Some(u0) = visible_url(blocks[i]) {
        lemma_result_url_good(u0);
        if let Some(url) = result_url(u0) {
            lemma_seen_more(st, url, max);
            if st.0.len() < max && !st.1.contains(url) {
                if let Some(ti) = next_title(blocks, i + 1) {
                    lemma_next_title_from_bound(
                        blocks,
                        i + 1,
                        crate::search_text::window_end(blocks.len() as int, i + 1, 5),
                    );
                    crate::search_text::lemma_snippet_from_bound(
                        blocks,
                        ti + 1,
                        crate::search_text::window_end(blocks.len() as int, ti + 1, 3),
                    );
                    lemma_take_new(
                        st,
                        ResultV { title: blocks[ti], url, snippet: next_snippet(blocks, ti + 1) },
                        max,
                    );
                }
            }
        }
    }
}

proof fn lemma_viewport_fold_ok(st: (Seq<ResultV>, Seq<Seq<char>>), blocks: Seq<Seq<char>>, n: nat, max: nat)
    requires
        results_ok(st, max),
        n <= blocks.len(),
    ensures
        results_ok(viewport_fold(st, blocks, n, max), max),
    decreases n,
{
    if n > 0 {
        lemma_viewport_fold_ok(st, blocks, (n - 1) as nat, max);
        lemma_viewport_step_ok(viewport_fold(st, blocks, (n - 1) as nat, max), blocks, n - 1, max);
    }
}

proof fn lemma_element_snippet_bound(e: JsonV, title: Seq<char>)
    ensures
        crate::search_text::utf8_len(element_snippet(e, title)) <= 360,
{
    let s = clean_text(first_field(e, seq!["nearby_text"@, "parent_text"@]));
    if s == title {
        assert(crate::search_text::utf8_len(Seq::<char>::empty()) == 0);
    } else if starts_with(s, title) {
        crate::search_text::lemma_clip360_bound(strip_start(s.skip(title.len() as int), CharClass::SnippetLead));
    } else {
        crate::search_text::lemma_clip360_bound(s);
    }
}

proof fn lemma_element_step_ok(st: (Seq<ResultV>, Seq<Seq<char>>), e: JsonV, max: nat)
    requires
        results_ok(st, max),
    ensures
        results_ok(element_step(st, e, max), max),
{
    let href = field_text(e, "href"@);
    lemma_result_url_good(href);
    if let Some(url) = result_url(href) {
        lemma_seen_more(st, url, max);
        if st.0.len() < max && !st.1.contains(url) {
            let title = clean_title(first_field(e, seq!["text"@, "label"@]), url);
            if title.len() > 0 && !navigation_title(title) {
                lemma_element_snippet_bound(e, title);
                lemma_take_new(st, ResultV { title, url, snippet: element_snippet(e, title) }, max);
            }
        }
    }
}

proof fn lemma_element_fold_ok(st: (Seq<ResultV>, Seq<Seq<char>>), xs: Seq<JsonV>, max: nat)
    requires
        results_ok(st, max),
    ensures
        results_ok(element_fold(st, xs, max), max),
    decreases xs.len(),
{
    if xs.len() > 0 {
        lemma_element_fold_ok(st, xs.drop_last(), max);
        lemma_element_step_ok(element_fold(st, xs.drop_last(), max), xs.last(), max);
    }
}

/// Reading an observation gives at most `max` results, no URL twice, each
/// URL `http(s)` and none of the search engine's own pages, each title
/// neither empty nor one of the search engine's tabs, each snippet at most
/// 360 bytes.
pub proof fn law_results_distinct_and_bounded(parsed: Option<JsonV>, max: nat)
    ensures
        ({
            let rs = browser_results(parsed, max);
            &&& rs.len() <= max
            &&& forall|i: int, j: int| 0 <= i < j < rs.len() ==> rs[i].url != rs[j].url
            &&& forall|i: int| 0 <= i < rs.len() ==> good_url(#[trigger] rs[i].url)
            &&& forall|i: int| 0 <= i < rs.len() ==> result_shape(#[trigger] rs[i])
        }),
{
    if let Some(v) = parsed {
        if crate::json::as_bool_opt(get(v, "success"@)) != Some(false) {
            let st0: (Seq<ResultV>, Seq<Seq<char>>) = (Seq::empty(), Seq::empty());
            assert(results_ok(st0, max));
            lemma_structured_fold_ok(st0, arr_at(v, seq!["search_results"@]), max);
            let st1a = structured_fold(st0, arr_at(v, seq!["search_results"@]), max);
            lemma_structured_fold_ok(st1a, arr_at(v, seq!["page_state"@, "search_results"@]), max);
            let st1 = structured(v, max);
            assert(results_ok(st1, max));
            let blocks = visible_blocks(v);
            lemma_viewport_fold_ok(st1, blocks, blocks.len(), max);
            let st2 = if st1.0.len() < max {
                viewport_fold(st1, blocks, blocks.len(), max)
            } else {
                st1
            };
            let ls = element_lists(v);
            lemma_element_fold_ok(st2, ls[0], max);
            let e1 = element_fold(st2, ls[0], max);
            lemma_element_fold_ok(e1, ls[1], max);
            let e2 = element_fold(e1, ls[1], max);
            lemma_element_fold_ok(e2, ls[2], max);
            let e3 = element_fold(e2, ls[2], max);
            lemma_element_fold_ok(e3, ls[3], max);
            assert(elements_fold(st2, v, max) == element_fold(e3, ls[3], max));
        }
    }
}

// ---------------------------------------------------------------------
// Every new link is read
// ---------------------------------------------------------------------

/// The result URL of a link element: an object whose role is `link` or
/// whose tag is `a`, with a non-empty `href` that makes a result URL.
pub open spec fn link_url(e: JsonV) -> Option<Seq<char>> {
    let href = field_text(e, "href"@);
    if e is Obj && href.len() > 0 && (lower(field_text(e, "role"@)) == "link"@ || lower(field_text(e, "tag"@))
        == "a"@) {
        result_url(href)
    } else {
        None
    }
}

/// The title a link element gives a result with URL `url`.
pub open spec fn link_title(e: JsonV, url: Seq<char>) -> Seq<char> {
    clean_title(first_field(e, seq!["text"@, "label"@]), url)
}

/// The link elements of an observation, in the order they are read: its
/// `links`, its page state's `links`, its `elements`, its page state's
/// `elements`.
pub open spec fn observation_links(v: JsonV) -> Seq<JsonV> {
    arr_at(v, seq!["links"@]) + arr_at(v, seq!["page_state"@, "links"@]) + arr_at(v, seq!["elements"@]) + arr_at(
        v,
        seq!["page_state"@, "elements"@],
    )
}

/// Whether `u` is the URL of some result among `rs`, with title `t`.
pub open spec fn has_result(rs: Seq<ResultV>, u: Seq<char>, t: Seq<char>) -> bool {
    exists|j: int| 0 <= j < rs.len() && (#[trigger] rs[j]).url == u && rs[j].title == t
}

/// Whether `u` is the result URL of one of the first `g` link elements.
pub open spec fn earlier_link(links: Seq<JsonV>, g: int, u: Seq<char>) -> bool {
    exists|j: int| 0 <= j < g && link_url(#[trigger] links[j]) == Some(u)
}

/// Whether `u` is the result URL of one of the structured records `xs`.
pub open spec fn record_offers(xs: Seq<JsonV>, u: Seq<char>) -> bool {
    exists|i: int| 0 <= i < xs.len() && result_url(first_field(#[trigger] xs[i], seq!["url"@, "href"@, "link"@])) == Some(u)
}

/// Whether `u` is the result URL of one of the visible text blocks.
pub open spec fn block_offers(blocks: Seq<Seq<char>>, u: Seq<char>) -> bool {
    exists|i: int|
        0 <= i < blocks.len() && match visible_url(#[trigger] blocks[i]) {
            Some(u0) => result_url(u0) == Some(u),
            None => false,
        }
}

/// Whether `u` is a URL that an observation offers before its link
/// elements: that of a structured search record, or of a visible text block.
pub open spec fn offered_before_links(v: JsonV, u: Seq<char>) -> bool {
    ||| record_offers(arr_at(v, seq!["search_results"@]), u)
    ||| record_offers(arr_at(v, seq!["page_state"@, "search_results"@]), u)
    ||| block_offers(visible_blocks(v), u)
}

proof fn lemma_element_fold_concat(
    st: (Seq<ResultV>, Seq<Seq<char>>),
    a: Seq<JsonV>,
    b: Seq<JsonV>,
    max: nat,
)
    ensures
        element_fold(st, a + b, max) == element_fold(element_fold(st, a, max), b, max),
    decreases b.len(),
{
    if b.len() == 0 {
        assert(a + b =~= a);
    } else {
        lemma_element_fold_concat(st, a, b.drop_last(), max);
        assert((a + b).drop_last() =~= a + b.drop_last());
        assert((a + b).last() == b.last());
    }
}

proof fn lemma_elements_fold_links(st: (Seq<ResultV>, Seq<Seq<char>>), v: JsonV, max: nat)
    ensures
        elements_fold(st, v, max) == element_fold(st, observation_links(v), max),
{
    let ls = element_lists(v);
    lemma_element_fold_concat(st, ls[0], ls[1], max);
    lemma_element_fold_concat(st, ls[0] + ls[1], ls[2], max);
    lemma_element_fold_concat(st, ls[0] + ls[1] + ls[2], ls[3], max);
}

/// Reading link elements keeps the results taken before, in place.
proof fn lemma_element_fold_keeps(st: (Seq<ResultV>, Seq<Seq<char>>), xs: Seq<JsonV>, max: nat)
    ensures
        element_fold(st, xs, max).0.len() >= st.0.len(),
        forall|j: int| 0 <= j < st.0.len() ==> element_fold(st, xs, max).0[j] == st.0[j],
    decreases xs.len(),
{
    if xs.len() > 0 {
        lemma_element_fold_keeps(st, xs.drop_last(), max);
    }
}

/// Reading link elements only marks as seen the URLs of those elements.
proof fn lemma_element_fold_seen(
    st: (Seq<ResultV>, Seq<Seq<char>>),
    xs: Seq<JsonV>,
    max: nat,
    allowed: Set<Seq<char>>,
)
    requires
        forall|x: Seq<char>| st.1.contains(x) ==> allowed.contains(x),
        forall|j: int| 0 <= j < xs.len() && link_url(#[trigger] xs[j]) is Some ==> allowed.contains(link_url(xs[j])->0),
    ensures
        forall|x: Seq<char>| element_fold(st, xs, max).1.contains(x) ==> allowed.contains(x),
    decreases xs.len(),
{
    if xs.len() > 0 {
        let init = xs.drop_last();
        assert forall|j: int| 0 <= j < init.len() && link_url(#[trigger] init[j]) is Some implies allowed.contains(link_url(init[j])->0) by {
            assert(init[j] == xs[j]);
        }
        lemma_element_fold_seen(st, init, max, allowed);
        let st1 = element_fold(st, init, max);
        let e = xs.last();
        assert(xs[xs.len() - 1] == e);
        assert forall|x: Seq<char>| element_step(st1, e, max).1.contains(x) implies allowed.contains(x) by {
            if !st1.1.contains(x) {
                let s2 = element_step(st1, e, max).1;
                if s2 != st1.1 {
                    assert(s2 == st1.1.push(link_url(e)->0));
                    let k = choose|k: int| 0 <= k < s2.len() && s2[k] == x;
                    if k < st1.1.len() {
                        assert(st1.1[k] == x);
                    }
                }
            }
        }
    }
}

proof fn lemma_structured_fold_seen(
    st: (Seq<ResultV>, Seq<Seq<char>>),
    xs: Seq<JsonV>,
    max: nat,
    allowed: Set<Seq<char>>,
)
    requires
        forall|x: Seq<char>| st.1.contains(x) ==> allowed.contains(x),
        forall|j: int|
            0 <= j < xs.len() && result_url(first_field(#[trigger] xs[j], seq!["url"@, "href"@, "link"@])) is Some
                ==> allowed.contains(result_url(first_field(xs[j], seq!["url"@, "href"@, "link"@]))->0),
    ensures
        forall|x: Seq<char>| structured_fold(st, xs, max).1.contains(x) ==> allowed.contains(x),
    decreases xs.len(),
{
    if xs.len() > 0 {
        let init = xs.drop_last();
        assert forall|j: int|
            0 <= j < init.len() && result_url(first_field(#[trigger] init[j], seq!["url"@, "href"@, "link"@]))
                is Some implies allowed.contains(result_url(first_field(init[j], seq!["url"@, "href"@, "link"@]))->0) by {
            assert(init[j] == xs[j]);
        }
        lemma_structured_fold_seen(st, init, max, allowed);
        let st1 = structured_fold(st, init, max);
        let e = xs.last();
        assert(xs[xs.len() - 1] == e);
        assert forall|x: Seq<char>| structured_step(st1, e, max).1.contains(x) implies allowed.contains(x) by {
            if !st1.1.contains(x) {
                let s2 = structured_step(st1, e, max).1;
                if s2 != st1.1 {
                    let u = result_url(first_field(e, seq!["url"@, "href"@, "link"@]))->0;
                    assert(s2 == st1.1.push(u));
                    let k = choose|k: int| 0 <= k < s2.len() && s2[k] == x;
                    if k < st1.1.len() {
                        assert(st1.1[k] == x);
                    }
                }
            }
        }
    }
}

proof fn lemma_viewport_fold_seen(
    st: (Seq<ResultV>, Seq<Seq<char>>),
    blocks: Seq<Seq<char>>,
    n: nat,
    max: nat,
    allowed: Set<Seq<char>>,
)
    requires
        n <= blocks.len(),
        forall|x: Seq<char>| st.1.contains(x) ==> allowed.contains(x),
        forall|j: int|
            0 <= j < blocks.len() && visible_url(#[trigger] blocks[j]) is Some && result_url(visible_url(blocks[j])->0)
                is Some ==> allowed.contains(result_url(visible_url(blocks[j])->0)->0),
    ensures
        forall|x: Seq<char>| viewport_fold(st, blocks, n, max).1.contains(x) ==> allowed.contains(x),
    decreases n,
{
    if n > 0 {
        lemma_viewport_fold_seen(st, blocks, (n - 1) as nat, max, allowed);
        let st1 = viewport_fold(st, blocks, (n - 1) as nat, max);
        let i = n - 1;
        assert forall|x: Seq<char>| viewport_step(st1, blocks, i, max).1.contains(x) implies allowed.contains(x) by {
            if !st1.1.contains(x) {
                let s2 = viewport_step(st1, blocks, i, max).1;
                if s2 != st1.1 {
                    let u0 = visible_url(blocks[i])->0;
                    let u = result_url(u0)->0;
                    assert(s2 == st1.1.push(u));
                    let k = choose|k: int| 0 <= k < s2.len() && s2[k] == x;
                    if k < st1.1.len() {
                        assert(st1.1[k] == x);
                    }
                }
            }
        }
    }
}

/// Reading the link elements of an observation from a state `st`: every
/// link element with a result URL and a usable title (neither empty nor
/// one of the search engine's tabs) gives a result with that URL and
/// title, unless the results are full, or its URL was seen before it, in
/// `st` or at an earlier link element.
pub proof fn law_every_new_link_is_read(st: (Seq<ResultV>, Seq<Seq<char>>), v: JsonV, max: nat, g: int, u: Seq<char>)
    requires
        results_ok(st, max),
        0 <= g < observation_links(v).len(),
        link_url(observation_links(v)[g]) == Some(u),
        link_title(observation_links(v)[g], u).len() > 0,
        !navigation_title(link_title(observation_links(v)[g], u)),
    ensures
        ({
            let rs = elements_fold(st, v, max).0;
            ||| rs.len() == max
            ||| st.1.contains(u)
            ||| earlier_link(observation_links(v), g, u)
            ||| has_result(rs, u, link_title(observation_links(v)[g], u))
        }),
{
    let links = observation_links(v);
    let e = links[g];
    let t = link_title(e, u);
    lemma_elements_fold_links(st, v, max);
    assert(links =~= links.take(g) + (seq![e] + links.skip(g + 1)));
    lemma_element_fold_concat(st, links.take(g), seq![e] + links.skip(g + 1), max);
    let sb = element_fold(st, links.take(g), max);
    lemma_element_fold_concat(sb, seq![e], links.skip(g + 1), max);
    let sa = element_fold(sb, seq![e], max);
    assert(seq![e].drop_last() =~= Seq::<JsonV>::empty());
    assert(seq![e].last() == e);
    assert(element_fold(sb, Seq::<JsonV>::empty(), max) == sb);
    assert(sa == element_step(sb, e, max));
    let fin = element_fold(sa, links.skip(g + 1), max);
    assert(elements_fold(st, v, max) == fin);
    lemma_element_fold_ok(st, links, max);
    lemma_element_fold_keeps(sa, links.skip(g + 1), max);
    lemma_element_fold_keeps(sb, seq![e], max);
    lemma_element_fold_ok(st, links.take(g), max);
    let allowed = Set::new(|x: Seq<char>| st.1.contains(x) || earlier_link(links, g, x));
    assert forall|j: int| 0 <= j < links.take(g).len() && link_url(#[trigger] links.take(g)[j]) is Some implies allowed.contains(link_url(links.take(g)[j])->0) by {
        assert(links.take(g)[j] == links[j]);
    }
    lemma_element_fold_seen(st, links.take(g), max, allowed);
    if sb.0.len() < max && !sb.1.contains(u) {
        assert(sa.0 == sb.0.push(ResultV { title: t, url: u, snippet: element_snippet(e, t) }));
        assert(fin.0[sb.0.len() as int] == sa.0[sb.0.len() as int]);
        assert(has_result(fin.0, u, t));
    } else if sb.1.contains(u) {
        assert(allowed.contains(u));
    }
}

/// Reading an observation: every link element (at `links`,
/// `page_state.links`, `elements` or `page_state.elements`) with a result
/// URL and a usable title gives a result with that URL and title, unless
/// the results are full, or its URL was offered before it (by a structured
/// record, a visible text block, or an earlier link element).
pub proof fn law_observation_links_are_read(v: JsonV, max: nat, g: int, u: Seq<char>)
    requires
        crate::json::as_bool_opt(get(v, "success"@)) != Some(false),
        0 <= g < observation_links(v).len(),
        link_url(observation_links(v)[g]) == Some(u),
        link_title(observation_links(v)[g], u).len() > 0,
        !navigation_title(link_title(observation_links(v)[g], u)),
    ensures
        ({
            let rs = browser_results(Some(v), max);
            ||| rs.len() == max
            ||| offered_before_links(v, u)
            ||| earlier_link(observation_links(v), g, u)
            ||| has_result(rs, u, link_title(observation_links(v)[g], u))
        }),
{
    let allowed = Set::new(|x: Seq<char>| offered_before_links(v, x));
    let st0: (Seq<ResultV>, Seq<Seq<char>>) = (Seq::empty(), Seq::empty());
    let a = arr_at(v, seq!["search_results"@]);
    let b = arr_at(v, seq!["page_state"@, "search_results"@]);
    assert forall|j: int|
        0 <= j < a.len() && result_url(first_field(#[trigger] a[j], seq!["url"@, "href"@, "link"@])) is Some
            implies allowed.contains(result_url(first_field(a[j], seq!["url"@, "href"@, "link"@]))->0) by {
        assert(record_offers(a, result_url(first_field(a[j], seq!["url"@, "href"@, "link"@]))->0));
    }
    assert forall|j: int|
        0 <= j < b.len() && result_url(first_field(#[trigger] b[j], seq!["url"@, "href"@, "link"@])) is Some
            implies allowed.contains(result_url(first_field(b[j], seq!["url"@, "href"@, "link"@]))->0) by {
        assert(record_offers(b, result_url(first_field(b[j], seq!["url"@, "href"@, "link"@]))->0));
    }
    lemma_structured_fold_seen(st0, a, max, allowed);
    let st1a = structured_fold(st0, a, max);
    lemma_structured_fold_seen(st1a, b, max, allowed);
    let st1 = structured(v, max);
    let blocks = visible_blocks(v);
    assert forall|j: int|
        0 <= j < blocks.len() && visible_url(#[trigger] blocks[j]) is Some && result_url(visible_url(blocks[j])->0)
            is Some implies allowed.contains(result_url(visible_url(blocks[j])->0)->0) by {
        assert(block_offers(blocks, result_url(visible_url(blocks[j])->0)->0));
    }
    lemma_viewport_fold_seen(st1, blocks, blocks.len(), max, allowed);
    assert(results_ok(st0, max));
    lemma_structured_fold_ok(st0, a, max);
    lemma_structured_fold_ok(st1a, b, max);
    lemma_viewport_fold_ok(st1, blocks, blocks.len(), max);
    let st2 = if st1.0.len() < max {
        viewport_fold(st1, blocks, blocks.len(), max)
    } else {
        st1
    };
    assert(results_ok(st1, max));
    assert(results_ok(st2, max));
    assert(forall|x: Seq<char>| st1.1.contains(x) ==> allowed.contains(x));
    assert(forall|x: Seq<char>| st2.1.contains(x) ==> allowed.contains(x));
    assert(browser_results(Some(v), max) == elements_fold(st2, v, max).0);
    law_every_new_link_is_read(st2, v, max, g, u);
    if st2.1.contains(u) {
        assert(allowed.contains(u));
    }
}

} // verus!
