//! Codex native history: requests, and the mapping of app-server threads
//! and items to the engine's history schema.
use vstd::prelude::*;
use crate::json::{
    arr, as_arr, as_arr_opt, as_bool, as_i64, as_str, get, get_opt, json_text, obj1, obj2, obj3,
    str_views, string_opt, view_opt, view_own, views, Json, JsonNumber, JsonV, NumV,
};
use crate::protocol::s;
use crate::text::{
    blank, is_blank, lower, same_text, starts_with, string_of, chars_of, text_contains, text_starts_with,
    text_trim, to_lower, trim, contains,
};

verus! {

/// A history query, as the host sends it; absent fields are empty.
pub struct CodexHistoryRequest {
    pub operation: String,
    pub thread_id: String,
    pub account_id: String,
    pub agent_id: String,
    pub session_key_json: String,
}

/// Whether a request names a history operation (`history_...`).
pub open spec fn is_history(request: Option<JsonV>) -> bool {
    match request {
        Some(r) => match get(r, "operation"@) {
            Some(JsonV::Str(op)) => starts_with(op, "history_"@),
            _ => false,
        },
        None => false,
    }
}

/// Whether the parsed request (`None` when it is not JSON) asks for a history operation.
pub fn is_history_request(request: Option<&Json>) -> (r: bool)
    ensures
        r == is_history(view_opt(request)),
{
    match request {
        Some(r) => match r.get("operation") {
            Some(op) => match op.as_str() {
                Some(op) => text_starts_with(op.as_str(), "history_"),
                None => false,
            },
            None => false,
        },
        None => false,
    }
}

/// The reply to a history request that failed.
pub open spec fn history_error(provider_available: bool, code: Seq<char>, error: Seq<char>) -> JsonV {
    JsonV::Obj(
        seq![
            ("error"@, s(error)),
            ("errorCode"@, s(code)),
            ("messages"@, JsonV::Arr(Seq::empty())),
            ("nativeThreadId"@, s(Seq::empty())),
            ("providerAvailable"@, JsonV::Bool(provider_available)),
            ("success"@, JsonV::Bool(false)),
            ("threads"@, JsonV::Arr(Seq::empty())),
        ],
    )
}

/// The reply to a history request that succeeded.
pub open spec fn history_success(
    threads: Seq<JsonV>,
    messages: Seq<JsonV>,
    native_thread_id: Seq<char>,
) -> JsonV {
    JsonV::Obj(
        seq![
            ("error"@, JsonV::Null),
            ("errorCode"@, JsonV::Null),
            ("messages"@, JsonV::Arr(messages)),
            ("nativeThreadId"@, s(native_thread_id)),
            ("providerAvailable"@, JsonV::Bool(true)),
            ("success"@, JsonV::Bool(true)),
            ("threads"@, JsonV::Arr(threads)),
        ],
    )
}

fn members7(
    k: [&str; 7],
    v0: Json,
    v1: Json,
    v2: Json,
    v3: Json,
    v4: Json,
    v5: Json,
    v6: Json,
) -> (r: Json)
    ensures
        r@ == JsonV::Obj(
            seq![
                (k[0]@, v0@),
                (k[1]@, v1@),
                (k[2]@, v2@),
                (k[3]@, v3@),
                (k[4]@, v4@),
                (k[5]@, v5@),
                (k[6]@, v6@),
            ],
        ),
{
    let ghost w = seq![v0@, v1@, v2@, v3@, v4@, v5@, v6@];
    let e = vec![
        (String::from_str(k[0]), v0),
        (String::from_str(k[1]), v1),
        (String::from_str(k[2]), v2),
        (String::from_str(k[3]), v3),
        (String::from_str(k[4]), v4),
        (String::from_str(k[5]), v5),
        (String::from_str(k[6]), v6),
    ];
    assert(crate::json::member_views(e@) =~= seq![
        (k[0]@, w[0]),
        (k[1]@, w[1]),
        (k[2]@, w[2]),
        (k[3]@, w[3]),
        (k[4]@, w[4]),
        (k[5]@, w[5]),
        (k[6]@, w[6]),
    ]);
    crate::protocol::obj(e)
}

pub fn history_error_value(provider_available: bool, code: &str, error: &str) -> (r: Json)
    ensures
        r@ == history_error(provider_available, code@, error@),
{
    proof {
        reveal_strlit("");
    }
    let r = members7(
        ["error", "errorCode", "messages", "nativeThreadId", "providerAvailable", "success", "threads"],
        Json::string(error),
        Json::string(code),
        arr(Vec::new()),
        Json::string(""),
        Json::Bool(provider_available),
        Json::Bool(false),
        arr(Vec::new()),
    );
    assert(views(Seq::<Json>::empty()) =~= Seq::<JsonV>::empty());
    assert(""@ =~= Seq::<char>::empty());
    r
}

pub fn history_success_value(threads: Vec<Json>, messages: Vec<Json>, native_thread_id: &str) -> (r:
    Json)
    ensures
        r@ == history_success(views(threads@), views(messages@), native_thread_id@),
{
    members7(
        ["error", "errorCode", "messages", "nativeThreadId", "providerAvailable", "success", "threads"],
        Json::Null,
        Json::Null,
        arr(messages),
        Json::string(native_thread_id),
        Json::Bool(true),
        Json::Bool(true),
        arr(threads),
    )
}

/// `value.as_str()`, else the value's JSON text.
pub open spec fn value_text(v: JsonV) -> Seq<char> {
    match v {
        JsonV::Str(t) => t,
        _ => json_text(v),
    }
}

/// A member as text: strings as they are, nothing for null or absent, the
/// JSON text of anything else.
pub open spec fn string_field(v: JsonV, k: Seq<char>) -> Seq<char> {
    match get(v, k) {
        Some(JsonV::Str(t)) => t,
        Some(JsonV::Null) => Seq::empty(),
        None => Seq::empty(),
        Some(x) => value_text(x),
    }
}

pub fn value_text_of(v: &Json) -> (r: String)
    ensures
        r@ == value_text(v@),
{
    match v {
        Json::Str(t) => t.clone(),
        _ => v.to_text(),
    }
}

pub fn string_field_of(v: &Json, k: &str) -> (r: String)
    ensures
        r@ == string_field(v@, k@),
{
    match v.get(k) {
        Some(x) => match x {
            Json::Str(t) => t.clone(),
            Json::Null => String::new(),
            _ => value_text_of(x),
        },
        None => String::new(),
    }
}

pub fn cat(a: &str, b: &str) -> (r: String)
    ensures
        r@ == a@ + b@,
{
    String::from_str(a).concat(b)
}

/// An account id, with `default` standing for a blank one.
pub open spec fn normalized_account_id(v: Seq<char>) -> Seq<char> {
    if blank(v) {
        "default"@
    } else {
        v
    }
}

/// An agent id, with `engine.codex` standing for a blank one.
pub open spec fn normalized_agent_id(v: Seq<char>) -> Seq<char> {
    if blank(v) {
        "engine.codex"@
    } else {
        v
    }
}

pub fn normalized_account_id_of(v: &str) -> (r: String)
    ensures
        r@ == normalized_account_id(v@),
{
    if is_blank(v) {
        String::from_str("default")
    } else {
        String::from_str(v)
    }
}

pub fn normalized_agent_id_of(v: &str) -> (r: String)
    ensures
        r@ == normalized_agent_id(v@),
{
    if is_blank(v) {
        String::from_str("engine.codex")
    } else {
        String::from_str(v)
    }
}

pub open spec fn i64_min() -> int {
    -9223372036854775808
}

pub open spec fn i64_max() -> int {
    9223372036854775807
}

/// A thread timestamp in milliseconds: values above 10^12 are taken as
/// milliseconds already, smaller ones as seconds; the result is cut toward
/// zero and held within the bounds of `i64`. A number with a fraction or an
/// exponent counts by the decimal value of its text; anything but a number
/// counts as zero.
pub open spec fn timestamp_millis(v: Option<JsonV>) -> int {
    match v {
        Some(JsonV::Num(NumV::Float(t))) => crate::number_text::float_millis(t),
        _ => {
            let raw: int = match v {
                Some(JsonV::Num(NumV::PosInt(u))) => u as int,
                Some(JsonV::Num(NumV::NegInt(i))) => i as int,
                _ => 0,
            };
            if raw > 1000000000000 {
                if raw > i64_max() {
                    i64_max()
                } else {
                    raw
                }
            } else if raw * 1000 < i64_min() {
                i64_min()
            } else {
                raw * 1000
            }
        },
    }
}

pub fn timestamp_millis_of(v: Option<&Json>) -> (r: i64)
    ensures
        r as int == timestamp_millis(view_opt(v)),
{
    if let Some(Json::Number(JsonNumber::Float(t))) = v {
        return crate::number_text::float_millis_of(t.as_str());
    }
    let raw: i128 = match v {
        Some(Json::Number(JsonNumber::PosInt(u))) => *u as i128,
        Some(Json::Number(JsonNumber::NegInt(i))) => *i as i128,
        _ => 0,
    };
    if raw > 1000000000000 {
        if raw > 9223372036854775807 {
            9223372036854775807
        } else {
            raw as i64
        }
    } else if raw * 1000 < -9223372036854775808 {
        -9223372036854775807 - 1
    } else {
        (raw * 1000) as i64
    }
}

/// The summary of a native thread, when it has a non-blank id.
pub open spec fn thread_summary(v: JsonV) -> Option<JsonV> {
    match get(v, "id"@) {
        Some(JsonV::Str(raw)) => {
            let id = trim(raw);
            if id.len() == 0 {
                None
            } else {
                Some(
                    JsonV::Obj(
                        seq![
                            ("createdAt"@, crate::json::int_value(timestamp_millis(get(v, "createdAt"@)))),
                            ("id"@, s(id)),
                            ("name"@, s(string_field(v, "name"@))),
                            ("preview"@, s(string_field(v, "preview"@))),
                            ("updatedAt"@, crate::json::int_value(timestamp_millis(get(v, "updatedAt"@)))),
                        ],
                    ),
                )
            }
        },
        _ => None,
    }
}

pub fn map_thread_summary(v: &Json) -> (r: Option<Json>)
    ensures
        view_own(r) == thread_summary(v@),
{
    let raw = match v.get("id") {
        Some(x) => match x.as_str() {
            Some(t) => t,
            None => {
                return None;
            },
        },
        None => {
            return None;
        },
    };
    let id = text_trim(raw.as_str());
    if id.as_str().is_empty() {
        return None;
    }
    let created = crate::json::num_i64(timestamp_millis_of(v.get("createdAt")));
    let updated = crate::json::num_i64(timestamp_millis_of(v.get("updatedAt")));
    let ghost w = (created@, updated@);
    let name = string_field_of(v, "name");
    let preview = string_field_of(v, "preview");
    let e = vec![
        (String::from_str("createdAt"), created),
        (String::from_str("id"), Json::string(id.as_str())),
        (String::from_str("name"), Json::string(name.as_str())),
        (String::from_str("preview"), Json::string(preview.as_str())),
        (String::from_str("updatedAt"), updated),
    ];
    assert(crate::json::member_views(e@) =~= seq![
        ("createdAt"@, w.0),
        ("id"@, s(id@)),
        ("name"@, s(name@)),
        ("preview"@, s(preview@)),
        ("updatedAt"@, w.1),
    ]);
    Some(crate::protocol::obj(e))
}

pub open spec fn has_type(v: JsonV) -> bool {
    get(v, "type"@) is Some
}

/// The items that carry a `type`, in order.
pub open spec fn typed(xs: Seq<JsonV>) -> Seq<JsonV>
    decreases xs.len(),
{
    if xs.len() == 0 {
        Seq::empty()
    } else {
        typed(xs.subrange(0, xs.len() - 1)) + if has_type(xs[xs.len() - 1]) {
            seq![xs[xs.len() - 1]]
        } else {
            Seq::empty()
        }
    }
}

pub open spec fn arr_or_empty(v: Option<JsonV>) -> Seq<JsonV> {
    match as_arr_opt(v) {
        Some(xs) => xs,
        None => Seq::empty(),
    }
}

/// The typed items of all turns, turn after turn.
pub open spec fn turn_items(turns: Seq<JsonV>) -> Seq<JsonV>
    decreases turns.len(),
{
    if turns.len() == 0 {
        Seq::empty()
    } else {
        turn_items(turns.subrange(0, turns.len() - 1)) + typed(
            arr_or_empty(get(turns[turns.len() - 1], "items"@)),
        )
    }
}

/// The first of `/thread/items`, `/thread/content`, `/items` that is an array.
pub open spec fn flat_items(r: JsonV) -> Option<Seq<JsonV>> {
    match as_arr_opt(get_opt(get(r, "thread"@), "items"@)) {
        Some(xs) => Some(xs),
        None => match as_arr_opt(get_opt(get(r, "thread"@), "content"@)) {
            Some(xs) => Some(xs),
            None => as_arr_opt(get(r, "items"@)),
        },
    }
}

/// The history items of a thread read or resume result: the typed items of
/// its turns, else the typed items of its flat item list.
pub open spec fn thread_items(result: Option<JsonV>) -> Seq<JsonV> {
    match result {
        None => Seq::empty(),
        Some(r) => {
            let from_turns = turn_items(arr_or_empty(get_opt(get(r, "thread"@), "turns"@)));
            if from_turns.len() > 0 {
                from_turns
            } else {
                match flat_items(r) {
                    Some(xs) => typed(xs),
                    None => Seq::empty(),
                }
            }
        },
    }
}

fn append_typed(out: &mut Vec<Json>, items: &Vec<Json>)
    ensures
        views(final(out)@) == views(old(out)@) + typed(views(items@)),
{
    let ghost start = views(out@);
    let ghost xs = views(items@);
    let mut i: usize = 0;
    assert(xs.subrange(0, 0) =~= Seq::<JsonV>::empty());
    assert(start + typed(Seq::<JsonV>::empty()) =~= start);
    while i < items.len()
        invariant
            i <= items.len(),
            xs == views(items@),
            views(out@) == start + typed(xs.subrange(0, i as int)),
        decreases items.len() - i,
    {
        let ghost before = out@;
        assert(xs.subrange(0, i + 1).subrange(0, i as int) =~= xs.subrange(0, i as int));
        if items[i].get("type").is_some() {
            out.push(items[i].copy());
            assert(views(out@) =~= views(before).push(xs[i as int]));
        }
        i += 1;
        assert(views(out@) =~= start + typed(xs.subrange(0, i as int)));
    }
    assert(xs.subrange(0, xs.len() as int) =~= xs);
}

fn array_at<'a>(v: Option<&'a Json>) -> (r: Option<&'a Vec<Json>>)
    ensures
        match r {
            Some(x) => as_arr_opt(view_opt(v)) == Some(views(x@)),
            None => as_arr_opt(view_opt(v)) is None,
        },
{
    match v {
        Some(x) => x.as_array(),
        None => None,
    }
}

fn get_at<'a>(v: Option<&'a Json>, k: &str) -> (r: Option<&'a Json>)
    ensures
        view_opt(r) == get_opt(view_opt(v), k@),
{
    match v {
        Some(x) => x.get(k),
        None => None,
    }
}

/// The history items of a thread read or resume result.
pub fn extract_thread_items(result: Option<&Json>) -> (r: Vec<Json>)
    ensures
        views(r@) == thread_items(view_opt(result)),
{
    let result = match result {
        Some(x) => x,
        None => {
            assert(views(Seq::<Json>::empty()) =~= Seq::<JsonV>::empty());
            return Vec::new();
        },
    };
    let mut items: Vec<Json> = Vec::new();
    assert(views(items@) =~= Seq::<JsonV>::empty());
    match array_at(get_at(result.get("thread"), "turns")) {
        Some(turns) => {
            let ghost ts = views(turns@);
            let mut i: usize = 0;
            while i < turns.len()
                invariant
                    i <= turns.len(),
                    ts == views(turns@),
                    views(items@) == turn_items(ts.subrange(0, i as int)),
                decreases turns.len() - i,
            {
                assert(ts.subrange(0, i + 1).subrange(0, i as int) =~= ts.subrange(0, i as int));
                assert(ts.subrange(0, i + 1)[i as int] == ts[i as int]);
                match array_at(turns[i].get("items")) {
                    Some(xs) => append_typed(&mut items, xs),
                    None => {
                        assert(typed(Seq::<JsonV>::empty()) =~= Seq::<JsonV>::empty());
                    },
                }
                i += 1;
            }
            assert(ts.subrange(0, ts.len() as int) =~= ts);
        },
        None => {},
    }
    if items.len() > 0 {
        return items;
    }
    let flat = match array_at(get_at(result.get("thread"), "items")) {
        Some(xs) => Some(xs),
        None => match array_at(get_at(result.get("thread"), "content")) {
            Some(xs) => Some(xs),
            None => array_at(result.get("items")),
        },
    };
    let mut out: Vec<Json> = Vec::new();
    assert(views(out@) =~= Seq::<JsonV>::empty());
    match flat {
        Some(xs) => {
            append_typed(&mut out, xs);
            assert(Seq::<JsonV>::empty() + typed(views(xs@)) =~= typed(views(xs@)));
        },
        None => {},
    }
    out
}

/// What one entry of a user message's content contributes.
pub open spec fn user_part(e: JsonV) -> Seq<char> {
    match e {
        JsonV::Str(t) => t,
        _ => if get(e, "type"@) == Some(JsonV::Str("text"@)) {
            string_field(e, "text"@)
        } else {
            Seq::empty()
        },
    }
}

pub open spec fn user_parts(xs: Seq<JsonV>) -> Seq<char>
    decreases xs.len(),
{
    if xs.len() == 0 {
        Seq::empty()
    } else {
        user_parts(xs.subrange(0, xs.len() - 1)) + user_part(xs[xs.len() - 1])
    }
}

/// `text`, else `content`, as text; nothing when neither is there.
pub open spec fn text_or_content(item: JsonV) -> Seq<char> {
    match get(item, "text"@) {
        Some(x) => value_text(x),
        None => match get(item, "content"@) {
            Some(x) => value_text(x),
            None => Seq::empty(),
        },
    }
}

/// The text of a user message: the trimmed concatenation of its text
/// content entries, or its `text`/`content` when content is not a list.
pub open spec fn user_message_text(item: JsonV) -> Seq<char> {
    match as_arr_opt(get(item, "content"@)) {
        Some(xs) => trim(user_parts(xs)),
        None => text_or_content(item),
    }
}

/// The non-blank texts of a list of values.
pub open spec fn nonblank_texts(xs: Seq<JsonV>) -> Seq<Seq<char>>
    decreases xs.len(),
{
    if xs.len() == 0 {
        Seq::empty()
    } else {
        let rest = nonblank_texts(xs.subrange(0, xs.len() - 1));
        let t = value_text(xs[xs.len() - 1]);
        if blank(t) {
            rest
        } else {
            rest.push(t)
        }
    }
}

/// The strings of `parts` with `sep` between them.
pub open spec fn join(parts: Seq<Seq<char>>, sep: Seq<char>) -> Seq<char>
    decreases parts.len(),
{
    if parts.len() == 0 {
        Seq::empty()
    } else if parts.len() == 1 {
        parts[0]
    } else {
        join(parts.subrange(0, parts.len() - 1), sep) + sep + parts[parts.len() - 1]
    }
}

/// The text of a reasoning item: the non-blank entries of its `summary`
/// and `content` lists, one per line.
pub open spec fn reasoning_text(item: JsonV) -> Seq<char> {
    join(
        nonblank_texts(arr_or_empty(get(item, "summary"@)) + arr_or_empty(get(item, "content"@))),
        seq!['\n'],
    )
}

fn text_or_content_of(item: &Json) -> (r: String)
    ensures
        r@ == text_or_content(item@),
{
    match item.get("text") {
        Some(x) => value_text_of(x),
        None => match item.get("content") {
            Some(x) => value_text_of(x),
            None => String::new(),
        },
    }
}

pub fn user_message_text_of(item: &Json) -> (r: String)
    ensures
        r@ == user_message_text(item@),
{
    match array_at(item.get("content")) {
        Some(xs) => {
            let ghost es = views(xs@);
            let mut acc = String::new();
            let mut i: usize = 0;
            while i < xs.len()
                invariant
                    i <= xs.len(),
                    es == views(xs@),
                    acc@ == user_parts(es.subrange(0, i as int)),
                decreases xs.len() - i,
            {
                assert(es.subrange(0, i + 1).subrange(0, i as int) =~= es.subrange(0, i as int));
                let part: String = match &xs[i] {
                    Json::Str(t) => t.clone(),
                    e => {
                        let is_text = match e.get("type") {
                            Some(Json::Str(t)) => same_text(t.as_str(), "text"),
                            _ => false,
                        };
                        if is_text {
                            string_field_of(e, "text")
                        } else {
                            String::new()
                        }
                    },
                };
                acc = acc.concat(part.as_str());
                i += 1;
            }
            assert(es.subrange(0, es.len() as int) =~= es);
            text_trim(acc.as_str())
        },
        None => text_or_content_of(item),
    }
}

fn push_nonblank_texts(out: &mut Vec<String>, xs: &Vec<Json>)
    ensures
        str_views(final(out)@) == str_views(old(out)@) + nonblank_texts(views(xs@)),
{
    let ghost start = str_views(out@);
    let ghost es = views(xs@);
    let mut i: usize = 0;
    assert(start + nonblank_texts(es.subrange(0, 0)) =~= start);
    while i < xs.len()
        invariant
            i <= xs.len(),
            es == views(xs@),
            str_views(out@) == start + nonblank_texts(es.subrange(0, i as int)),
        decreases xs.len() - i,
    {
        let ghost before = out@;
        assert(es.subrange(0, i + 1).subrange(0, i as int) =~= es.subrange(0, i as int));
        let t = value_text_of(&xs[i]);
        if !is_blank(t.as_str()) {
            out.push(t);
            assert(str_views(out@) =~= str_views(before).push(t@));
        }
        i += 1;
        assert(str_views(out@) =~= start + nonblank_texts(es.subrange(0, i as int)));
    }
    assert(es.subrange(0, es.len() as int) =~= es);
}

proof fn lemma_nonblank_concat(a: Seq<JsonV>, b: Seq<JsonV>)
    ensures
        nonblank_texts(a + b) == nonblank_texts(a) + nonblank_texts(b),
    decreases b.len(),
{
    if b.len() == 0 {
        assert(a + b =~= a);
        assert(nonblank_texts(a) + nonblank_texts(b) =~= nonblank_texts(a));
    } else {
        let b1 = b.subrange(0, b.len() - 1);
        lemma_nonblank_concat(a, b1);
        assert((a + b).subrange(0, (a + b).len() - 1) =~= a + b1);
        assert((a + b)[(a + b).len() - 1] == b[b.len() - 1]);
        let t = value_text(b[b.len() - 1]);
        if !blank(t) {
            assert(nonblank_texts(a) + nonblank_texts(b1).push(t) =~= (nonblank_texts(a)
                + nonblank_texts(b1)).push(t));
        }
    }
}

/// Joins `parts` with `sep` between them.
pub fn join_strings(parts: &Vec<String>, sep: &str) -> (r: String)
    ensures
        r@ == join(str_views(parts@), sep@),
{
    let ghost ps = str_views(parts@);
    let mut acc = String::new();
    let mut i: usize = 0;
    while i < parts.len()
        invariant
            i <= parts.len(),
            ps == str_views(parts@),
            acc@ == join(ps.subrange(0, i as int), sep@),
        decreases parts.len() - i,
    {
        assert(ps.subrange(0, i + 1).subrange(0, i as int) =~= ps.subrange(0, i as int));
        if i == 0 {
            acc = parts[0].clone();
        } else {
            acc = acc.concat(sep).concat(parts[i].as_str());
        }
        i += 1;
    }
    assert(ps.subrange(0, ps.len() as int) =~= ps);
    acc
}

pub fn reasoning_text_of(item: &Json) -> (r: String)
    ensures
        r@ == reasoning_text(item@),
{
    let mut parts: Vec<String> = Vec::new();
    assert(str_views(parts@) =~= Seq::<Seq<char>>::empty());
    let ghost a = arr_or_empty(get(item@, "summary"@));
    let ghost b = arr_or_empty(get(item@, "content"@));
    match array_at(item.get("summary")) {
        Some(xs) => push_nonblank_texts(&mut parts, xs),
        None => {
            assert(nonblank_texts(Seq::<JsonV>::empty()) =~= Seq::<Seq<char>>::empty());
        },
    }
    assert(str_views(parts@) =~= nonblank_texts(a));
    match array_at(item.get("content")) {
        Some(xs) => push_nonblank_texts(&mut parts, xs),
        None => {
            assert(nonblank_texts(Seq::<JsonV>::empty()) =~= Seq::<Seq<char>>::empty());
        },
    }
    proof {
        lemma_nonblank_concat(a, b);
    }
    assert(str_views(parts@) =~= nonblank_texts(a + b));
    proof {
        reveal_strlit("\n");
    }
    assert("\n"@ =~= seq!['\n']);
    join_strings(&parts, "\n")
}

pub struct ToolCallV {
    pub name: Seq<char>,
    pub arguments: Seq<char>,
    pub output: Seq<char>,
    pub failed: bool,
    pub narrative: Seq<char>,
}

pub open spec fn status_failed(item: JsonV) -> bool {
    let status = lower(string_field(item, "status"@));
    status == "failed"@ || status == "rejected"@
}

pub open spec fn nonzero_exit(item: JsonV) -> bool {
    match get(item, "exitCode"@) {
        Some(c) => match as_i64(c) {
            Some(code) => code != 0,
            None => false,
        },
        None => false,
    }
}

pub open spec fn or_null(v: Option<JsonV>) -> JsonV {
    match v {
        Some(x) => x,
        None => JsonV::Null,
    }
}

/// The parts of a tool call item, by the item's kind.
pub open spec fn tool_call_parts(item: JsonV, kind: Seq<char>) -> ToolCallV {
    if kind == "commandExecution"@ {
        ToolCallV {
            name: "shell"@,
            arguments: json_text(
                JsonV::Obj(
                    seq![
                        ("cmd"@, s(string_field(item, "command"@))),
                        ("cwd"@, s(string_field(item, "cwd"@))),
                    ],
                ),
            ),
            output: string_field(item, "aggregatedOutput"@),
            failed: status_failed(item) || nonzero_exit(item),
            narrative: "Ran command"@,
        }
    } else if kind == "dynamicToolCall"@ {
        let namespace = string_field(item, "namespace"@);
        let tool = string_field(item, "tool"@);
        let name = if namespace.len() == 0 {
            tool
        } else {
            namespace + "."@ + tool
        };
        ToolCallV {
            name,
            arguments: json_text(or_null(get(item, "arguments"@))),
            output: match get(item, "contentItems"@) {
                Some(x) => value_text(x),
                None => json_text(item),
            },
            failed: status_failed(item) || match get(item, "success"@) {
                Some(x) => as_bool(x) == Some(false),
                None => false,
            },
            narrative: "Called "@ + name,
        }
    } else if kind == "mcpToolCall"@ {
        let name = string_field(item, "server"@) + "."@ + string_field(item, "tool"@);
        ToolCallV {
            name,
            arguments: json_text(
                match get(item, "arguments"@) {
                    Some(x) => x,
                    None => JsonV::Obj(Seq::empty()),
                },
            ),
            output: match get(item, "result"@) {
                Some(x) => value_text(x),
                None => match get(item, "error"@) {
                    Some(x) => value_text(x),
                    None => Seq::empty(),
                },
            },
            failed: status_failed(item),
            narrative: "Called "@ + name,
        }
    } else if kind == "fileChange"@ {
        ToolCallV {
            name: "fileChange"@,
            arguments: json_text(JsonV::Obj(seq![("changes"@, or_null(get(item, "changes"@)))])),
            output: Seq::empty(),
            failed: status_failed(item),
            narrative: if status_failed(item) {
                "File change failed"@
            } else {
                "File change"@
            },
        }
    } else {
        let query = string_field(item, "query"@);
        ToolCallV {
            name: "web_search"@,
            arguments: json_text(JsonV::Obj(seq![("query"@, s(query))])),
            output: Seq::empty(),
            failed: false,
            narrative: if query.len() == 0 {
                "Searched the web"@
            } else {
                "Searched: "@ + query
            },
        }
    }
}

/// The call record of a tool call: its name, id and arguments, its output as
/// `result`, and `error` when it failed.
pub open spec fn call_record(p: ToolCallV, id: Seq<char>) -> JsonV {
    if p.output.len() > 0 {
        if p.failed {
            JsonV::Obj(
                seq![
                    ("arguments"@, s(p.arguments)),
                    ("call_id"@, s(id)),
                    ("error"@, s(p.output)),
                    ("name"@, s(p.name)),
                    ("result"@, s(p.output)),
                ],
            )
        } else {
            JsonV::Obj(
                seq![
                    ("arguments"@, s(p.arguments)),
                    ("call_id"@, s(id)),
                    ("name"@, s(p.name)),
                    ("result"@, s(p.output)),
                ],
            )
        }
    } else if p.failed {
        JsonV::Obj(
            seq![
                ("arguments"@, s(p.arguments)),
                ("call_id"@, s(id)),
                ("error"@, s("Tool call failed"@)),
                ("name"@, s(p.name)),
            ],
        )
    } else {
        JsonV::Obj(seq![("arguments"@, s(p.arguments)), ("call_id"@, s(id)), ("name"@, s(p.name))])
    }
}

/// The history content of a tool call item: the JSON text of its narrative
/// and its one call record.
pub open spec fn tool_call_content(item: JsonV, kind: Seq<char>, id: Seq<char>) -> Seq<char> {
    let p = tool_call_parts(item, kind);
    json_text(
        JsonV::Obj(
            seq![("calls"@, JsonV::Arr(seq![call_record(p, id)])), ("narrative"@, s(p.narrative))],
        ),
    )
}

/// A call record names its call and tool; a call that failed with output
/// carries that output both as its result and as its error, one that failed
/// without output carries the error `Tool call failed`, and one that did not
/// fail carries no error; any output is its result.
pub proof fn law_call_record_reports_failure(p: ToolCallV, id: Seq<char>)
    ensures
        get(call_record(p, id), "call_id"@) == Some(s(id)),
        get(call_record(p, id), "name"@) == Some(s(p.name)),
        get(call_record(p, id), "arguments"@) == Some(s(p.arguments)),
        p.failed && p.output.len() > 0 ==> get(call_record(p, id), "error"@) == Some(s(p.output)),
        p.failed && p.output.len() == 0 ==> get(call_record(p, id), "error"@) == Some(s("Tool call failed"@)),
        !p.failed ==> get(call_record(p, id), "error"@) is None,
        p.output.len() > 0 ==> get(call_record(p, id), "result"@) == Some(s(p.output)),
        p.output.len() == 0 ==> get(call_record(p, id), "result"@) is None,
{
    reveal_strlit("arguments");
    reveal_strlit("call_id");
    reveal_strlit("error");
    reveal_strlit("name");
    reveal_strlit("result");
    let a = "arguments"@;
    let c = "call_id"@;
    let e = "error"@;
    let n = "name"@;
    let r = "result"@;
    assert(a.len() == 9 && c.len() == 7 && e.len() == 5 && n.len() == 4 && r.len() == 6);
    assert(e[0] != r[0]);
    let es = match call_record(p, id) {
        JsonV::Obj(es) => es,
        _ => Seq::empty(),
    };
    crate::json::lemma_lookup_at(es, a, 0);
    crate::json::lemma_lookup_at(es, c, 1);
    if p.output.len() > 0 && p.failed {
        crate::json::lemma_lookup_at(es, e, 2);
        crate::json::lemma_lookup_at(es, n, 3);
        crate::json::lemma_lookup_at(es, r, 4);
    } else if p.output.len() > 0 {
        crate::json::lemma_lookup_at(es, n, 2);
        crate::json::lemma_lookup_at(es, r, 3);
        lemma_no_key(es, e);
    } else if p.failed {
        crate::json::lemma_lookup_at(es, e, 2);
        crate::json::lemma_lookup_at(es, n, 3);
        lemma_no_key(es, r);
    } else {
        crate::json::lemma_lookup_at(es, n, 2);
        lemma_no_key(es, e);
        lemma_no_key(es, r);
    }
}

proof fn lemma_no_key(es: Seq<(Seq<char>, JsonV)>, k: Seq<char>)
    requires
        forall|j: int| 0 <= j < es.len() ==> es[j].0 != k,
    ensures
        crate::json::lookup(es, k) is None,
    decreases es.len(),
{
    if es.len() > 0 {
        let t = es.subrange(1, es.len() as int);
        assert forall|j: int| 0 <= j < t.len() implies t[j].0 != k by {
            assert(t[j] == es[j + 1]);
        }
        lemma_no_key(t, k);
    }
}

/// A tool call item of any kind but a web search counts as failed when its
/// status is `failed` or `rejected`, and a command also when it exited with
/// a code other than zero; a command's output is its aggregated output.
/// The history content of a tool call item holds, under `calls`, the one
/// record of the call.
pub proof fn law_tool_call_failure(item: JsonV, kind: Seq<char>, id: Seq<char>)
    ensures
        (kind == "commandExecution"@ || kind == "dynamicToolCall"@ || kind == "mcpToolCall"@ || kind
            == "fileChange"@) && status_failed(item) ==> tool_call_parts(item, kind).failed,
        kind == "commandExecution"@ && nonzero_exit(item) ==> tool_call_parts(item, kind).failed,
        kind == "commandExecution"@ ==> tool_call_parts(item, kind).output == string_field(
            item,
            "aggregatedOutput"@,
        ),
        exists|v: JsonV|
            tool_call_content(item, kind, id) == json_text(v) && get(v, "calls"@) == Some(
                JsonV::Arr(seq![call_record(tool_call_parts(item, kind), id)]),
            ),
{
    reveal_strlit("calls");
    reveal_strlit("narrative");
    let p = tool_call_parts(item, kind);
    let v = JsonV::Obj(seq![("calls"@, JsonV::Arr(seq![call_record(p, id)])), ("narrative"@, s(p.narrative))]);
    let es = match v {
        JsonV::Obj(es) => es,
        _ => Seq::empty(),
    };
    crate::json::lemma_lookup_at(es, "calls"@, 0);
    assert(tool_call_content(item, kind, id) == json_text(v));
}

fn status_failed_of(item: &Json) -> (r: bool)
    ensures
        r == status_failed(item@),
{
    let status = to_lower(string_field_of(item, "status").as_str());
    same_text(status.as_str(), "failed") || same_text(status.as_str(), "rejected")
}

fn copy_or_null(v: Option<&Json>) -> (r: Json)
    ensures
        r@ == or_null(view_opt(v)),
{
    match v {
        Some(x) => x.copy(),
        None => Json::Null,
    }
}

pub struct ToolCallParts {
    pub name: String,
    pub arguments: String,
    pub output: String,
    pub failed: bool,
    pub narrative: String,
}

pub open spec fn parts_view(p: ToolCallParts) -> ToolCallV {
    ToolCallV {
        name: p.name@,
        arguments: p.arguments@,
        output: p.output@,
        failed: p.failed,
        narrative: p.narrative@,
    }
}

fn tool_call_parts_of(item: &Json, kind: &str) -> (r: ToolCallParts)
    ensures
        parts_view(r) == tool_call_parts(item@, kind@),
{
    if same_text(kind, "commandExecution") {
        let args = obj2(
            "cmd",
            Json::string(string_field_of(item, "command").as_str()),
            "cwd",
            Json::string(string_field_of(item, "cwd").as_str()),
        );
        let exit_failed = match item.get("exitCode") {
            Some(c) => match c.as_i64() {
                Some(code) => code != 0,
                None => false,
            },
            None => false,
        };
        ToolCallParts {
            name: String::from_str("shell"),
            arguments: args.to_text(),
            output: string_field_of(item, "aggregatedOutput"),
            failed: status_failed_of(item) || exit_failed,
            narrative: String::from_str("Ran command"),
        }
    } else if same_text(kind, "dynamicToolCall") {
        let namespace = string_field_of(item, "namespace");
        let tool = string_field_of(item, "tool");
        let name = if namespace.as_str().is_empty() {
            tool
        } else {
            namespace.concat(".").concat(tool.as_str())
        };
        let success_false = match item.get("success") {
            Some(x) => match x.as_bool() {
                Some(b) => !b,
                None => false,
            },
            None => false,
        };
        let output = match item.get("contentItems") {
            Some(x) => value_text_of(x),
            None => item.to_text(),
        };
        let narrative = cat("Called ", name.as_str());
        ToolCallParts {
            name,
            arguments: copy_or_null(item.get("arguments")).to_text(),
            output,
            failed: status_failed_of(item) || success_false,
            narrative,
        }
    } else if same_text(kind, "mcpToolCall") {
        let name = string_field_of(item, "server").concat(".").concat(
            string_field_of(item, "tool").as_str(),
        );
        let args = match item.get("arguments") {
            Some(x) => x.copy(),
            None => {
                let e: Vec<(String, Json)> = Vec::new();
                assert(crate::json::member_views(e@) =~= Seq::<(Seq<char>, JsonV)>::empty());
                crate::protocol::obj(e)
            },
        };
        let output = match item.get("result") {
            Some(x) => value_text_of(x),
            None => match item.get("error") {
                Some(x) => value_text_of(x),
                None => String::new(),
            },
        };
        let narrative = cat("Called ", name.as_str());
        ToolCallParts {
            name,
            arguments: args.to_text(),
            output,
            failed: status_failed_of(item),
            narrative,
        }
    } else if same_text(kind, "fileChange") {
        let failed = status_failed_of(item);
        ToolCallParts {
            name: String::from_str("fileChange"),
            arguments: obj1("changes", copy_or_null(item.get("changes"))).to_text(),
            output: String::new(),
            failed,
            narrative: if failed {
                String::from_str("File change failed")
            } else {
                String::from_str("File change")
            },
        }
    } else {
        let query = string_field_of(item, "query");
        let narrative = if query.as_str().is_empty() {
            String::from_str("Searched the web")
        } else {
            cat("Searched: ", query.as_str())
        };
        ToolCallParts {
            name: String::from_str("web_search"),
            arguments: obj1("query", Json::string(query.as_str())).to_text(),
            output: String::new(),
            failed: false,
            narrative,
        }
    }
}

fn call_record_of(p: &ToolCallParts, id: &str) -> (r: Json)
    ensures
        r@ == call_record(parts_view(*p), id@),
{
    let mut e: Vec<(String, Json)> = Vec::new();
    let out_nonempty = !p.output.as_str().is_empty();
    e.push((String::from_str("arguments"), Json::string(p.arguments.as_str())));
    e.push((String::from_str("call_id"), Json::string(id)));
    if out_nonempty {
        if p.failed {
            e.push((String::from_str("error"), Json::string(p.output.as_str())));
        }
    } else if p.failed {
        e.push((String::from_str("error"), Json::string("Tool call failed")));
    }
    e.push((String::from_str("name"), Json::string(p.name.as_str())));
    if out_nonempty {
        e.push((String::from_str("result"), Json::string(p.output.as_str())));
    }
    let ghost pv = parts_view(*p);
    proof {
        if pv.output.len() > 0 {
            if pv.failed {
                assert(crate::json::member_views(e@) =~= seq![
                    ("arguments"@, s(pv.arguments)),
                    ("call_id"@, s(id@)),
                    ("error"@, s(pv.output)),
                    ("name"@, s(pv.name)),
                    ("result"@, s(pv.output)),
                ]);
            } else {
                assert(crate::json::member_views(e@) =~= seq![
                    ("arguments"@, s(pv.arguments)),
                    ("call_id"@, s(id@)),
                    ("name"@, s(pv.name)),
                    ("result"@, s(pv.output)),
                ]);
            }
        } else if pv.failed {
            assert(crate::json::member_views(e@) =~= seq![
                ("arguments"@, s(pv.arguments)),
                ("call_id"@, s(id@)),
                ("error"@, s("Tool call failed"@)),
                ("name"@, s(pv.name)),
            ]);
        } else {
            assert(crate::json::member_views(e@) =~= seq![
                ("arguments"@, s(pv.arguments)),
                ("call_id"@, s(id@)),
                ("name"@, s(pv.name)),
            ]);
        }
    }
    crate::protocol::obj(e)
}

pub fn tool_call_content_of(item: &Json, kind: &str, id: &str) -> (r: String)
    ensures
        r@ == tool_call_content(item@, kind@, id@),
{
    let p = tool_call_parts_of(item, kind);
    let call = call_record_of(&p, id);
    let ghost cv = call@;
    let calls = vec![call];
    assert(views(calls@) =~= seq![cv]);
    obj2("calls", arr(calls), "narrative", Json::string(p.narrative.as_str())).to_text()
}

pub open spec fn is_tool_kind(kind: Seq<char>) -> bool {
    kind == "commandExecution"@ || kind == "dynamicToolCall"@ || kind == "mcpToolCall"@ || kind
        == "fileChange"@ || kind == "webSearch"@
}

/// The role and content that an item gets in the history.
pub open spec fn item_role_content(item: JsonV) -> (Seq<char>, Seq<char>) {
    let kind = string_field(item, "type"@);
    let id = string_field(item, "id"@);
    if kind == "agentMessage"@ {
        ("assistant"@, string_field(item, "text"@))
    } else if kind == "userMessage"@ {
        ("user"@, user_message_text(item))
    } else if kind == "reasoning"@ {
        ("reasoning"@, reasoning_text(item))
    } else if is_tool_kind(kind) {
        ("tool_calls"@, tool_call_content(item, kind, id))
    } else {
        (
            if contains(lower(kind), "user"@) {
                "user"@
            } else {
                "assistant"@
            },
            text_or_content(item),
        )
    }
}

/// The history message of an item: its role and content, and its id when it
/// has one; nothing when the content is blank.
pub open spec fn history_message(item: JsonV) -> Option<JsonV> {
    let (role, content) = item_role_content(item);
    let id = string_field(item, "id"@);
    if blank(content) {
        None
    } else if id.len() == 0 {
        Some(JsonV::Obj(seq![("content"@, s(content)), ("role"@, s(role))]))
    } else {
        Some(JsonV::Obj(seq![("content"@, s(content)), ("id"@, s(id)), ("role"@, s(role))]))
    }
}

pub fn map_history_item(item: &Json) -> (r: Option<Json>)
    ensures
        view_own(r) == history_message(item@),
{
    let kind = string_field_of(item, "type");
    let id = string_field_of(item, "id");
    let k = kind.as_str();
    let (role, content): (String, String) = if same_text(k, "agentMessage") {
        (String::from_str("assistant"), string_field_of(item, "text"))
    } else if same_text(k, "userMessage") {
        (String::from_str("user"), user_message_text_of(item))
    } else if same_text(k, "reasoning") {
        (String::from_str("reasoning"), reasoning_text_of(item))
    } else if same_text(k, "commandExecution") || same_text(k, "dynamicToolCall") || same_text(
        k,
        "mcpToolCall",
    ) || same_text(k, "fileChange") || same_text(k, "webSearch") {
        (String::from_str("tool_calls"), tool_call_content_of(item, k, id.as_str()))
    } else {
        let lk = to_lower(k);
        let role = if text_contains(lk.as_str(), "user") {
            String::from_str("user")
        } else {
            String::from_str("assistant")
        };
        (role, text_or_content_of(item))
    };
    if is_blank(content.as_str()) {
        return None;
    }
    if id.as_str().is_empty() {
        Some(obj2("content", Json::string(content.as_str()), "role", Json::string(role.as_str())))
    } else {
        Some(
            obj3(
                "content",
                Json::string(content.as_str()),
                "id",
                Json::string(id.as_str()),
                "role",
                Json::string(role.as_str()),
            ),
        )
    }
}

/// The history messages of a list of items, skipping those with nothing to show.
pub open spec fn history_messages(items: Seq<JsonV>) -> Seq<JsonV>
    decreases items.len(),
{
    if items.len() == 0 {
        Seq::empty()
    } else {
        let rest = history_messages(items.subrange(0, items.len() - 1));
        match history_message(items[items.len() - 1]) {
            Some(m) => rest.push(m),
            None => rest,
        }
    }
}

pub fn map_history_items(items: &Vec<Json>) -> (r: Vec<Json>)
    ensures
        views(r@) == history_messages(views(items@)),
{
    let ghost xs = views(items@);
    let mut out: Vec<Json> = Vec::new();
    let mut i: usize = 0;
    assert(views(out@) =~= history_messages(xs.subrange(0, 0)));
    while i < items.len()
        invariant
            i <= items.len(),
            xs == views(items@),
            views(out@) == history_messages(xs.subrange(0, i as int)),
        decreases items.len() - i,
    {
        let ghost before = out@;
        assert(xs.subrange(0, i + 1).subrange(0, i as int) =~= xs.subrange(0, i as int));
        match map_history_item(&items[i]) {
            Some(m) => {
                let ghost mv = m@;
                out.push(m);
                assert(views(out@) =~= views(before).push(mv));
            },
            None => {},
        }
        i += 1;
    }
    assert(xs.subrange(0, xs.len() as int) =~= xs);
    out
}

/// The summaries of a list of native threads, skipping those without an id.
pub open spec fn thread_summaries(data: Seq<JsonV>) -> Seq<JsonV>
    decreases data.len(),
{
    if data.len() == 0 {
        Seq::empty()
    } else {
        let rest = thread_summaries(data.subrange(0, data.len() - 1));
        match thread_summary(data[data.len() - 1]) {
            Some(m) => rest.push(m),
            None => rest,
        }
    }
}

pub fn map_thread_summaries(data: &Vec<Json>) -> (r: Vec<Json>)
    ensures
        views(r@) == thread_summaries(views(data@)),
{
    let ghost xs = views(data@);
    let mut out: Vec<Json> = Vec::new();
    let mut i: usize = 0;
    assert(views(out@) =~= thread_summaries(xs.subrange(0, 0)));
    while i < data.len()
        invariant
            i <= data.len(),
            xs == views(data@),
            views(out@) == thread_summaries(xs.subrange(0, i as int)),
        decreases data.len() - i,
    {
        let ghost before = out@;
        assert(xs.subrange(0, i + 1).subrange(0, i as int) =~= xs.subrange(0, i as int));
        match map_thread_summary(&data[i]) {
            Some(m) => {
                let ghost mv = m@;
                out.push(m);
                assert(views(out@) =~= views(before).push(mv));
            },
            None => {},
        }
        i += 1;
    }
    assert(xs.subrange(0, xs.len() as int) =~= xs);
    out
}

pub open spec fn unsupported_message() -> Seq<char> {
    "napaxi.agent_engine.codex is unsupported on this platform"@
}

/// The reply to a history request on a platform without the Codex sandbox.
pub open spec fn history_reply(request: Result<CodexHistoryRequest, String>) -> JsonV {
    match request {
        Err(e) => history_error(
            false,
            "history_query_failed"@,
            "Invalid Codex history request: "@ + e@,
        ),
        Ok(_) => history_error(false, "unsupported_platform"@, unsupported_message()),
    }
}

/// Answers a history request, given as the result of reading it (the reading
/// error's text when it is not a history request).
pub fn handle_request_json(handle: i64, request: Result<CodexHistoryRequest, String>) -> (r: Json)
    ensures
        r@ == history_reply(request),
{
    match request {
        Err(e) => {
            let msg = cat("Invalid Codex history request: ", e.as_str());
            history_error_value(false, "history_query_failed", msg.as_str())
        },
        Ok(req) => handle_request(handle, &req),
    }
}

fn handle_request(handle: i64, request: &CodexHistoryRequest) -> (r: Json)
    ensures
        r@ == history_error(false, "unsupported_platform"@, unsupported_message()),
{
    history_error_value(
        false,
        "unsupported_platform",
        "napaxi.agent_engine.codex is unsupported on this platform",
    )
}

/// What a history request asks of the sandbox, where it has one.
pub enum HistoryStep {
    /// Answer at once.
    Reply(Json),
    /// List the native threads of the workspace.
    ListThreads,
    /// Read the messages of a thread.
    ReadThread { thread_id: String },
    /// Bind a native thread to a session.
    BindThread { thread_id: String, account_id: String, agent_id: String, session_key_json: String },
}

pub enum HistoryStepV {
    Reply(JsonV),
    ListThreads,
    ReadThread { thread_id: Seq<char> },
    BindThread {
        thread_id: Seq<char>,
        account_id: Seq<char>,
        agent_id: Seq<char>,
        session_key_json: Seq<char>,
    },
}

impl View for HistoryStep {
    type V = HistoryStepV;

    open spec fn view(&self) -> HistoryStepV {
        match self {
            HistoryStep::Reply(j) => HistoryStepV::Reply(j@),
            HistoryStep::ListThreads => HistoryStepV::ListThreads,
            HistoryStep::ReadThread { thread_id } => HistoryStepV::ReadThread {
                thread_id: thread_id@,
            },
            HistoryStep::BindThread { thread_id, account_id, agent_id, session_key_json } =>
                HistoryStepV::BindThread {
                thread_id: thread_id@,
                account_id: account_id@,
                agent_id: agent_id@,
                session_key_json: session_key_json@,
            },
        }
    }
}

/// What a history request asks of the sandbox, given the engine's files
/// directory (none for an invalid handle).
pub open spec fn history_step(files_dir: Option<Seq<char>>, r: CodexHistoryRequest) -> HistoryStepV {
    if files_dir is None {
        HistoryStepV::Reply(
            history_error(false, "unsupported_platform"@, "invalid engine handle"@),
        )
    } else if r.operation@ == "history_list_threads"@ {
        HistoryStepV::ListThreads
    } else if r.operation@ == "history_read_thread"@ {
        if blank(r.thread_id@) {
            HistoryStepV::Reply(
                history_error(true, "missing_native_thread"@, "Codex thread ID is required"@),
            )
        } else {
            HistoryStepV::ReadThread { thread_id: trim(r.thread_id@) }
        }
    } else if r.operation@ == "history_bind_thread"@ {
        if blank(r.thread_id@) || blank(r.session_key_json@) {
            HistoryStepV::Reply(
                history_error(
                    true,
                    "missing_native_thread"@,
                    "Codex thread ID and session key are required"@,
                ),
            )
        } else {
            HistoryStepV::BindThread {
                thread_id: trim(r.thread_id@),
                account_id: normalized_account_id(r.account_id@),
                agent_id: normalized_agent_id(r.agent_id@),
                session_key_json: r.session_key_json@,
            }
        }
    } else {
        HistoryStepV::Reply(
            history_error(
                true,
                "history_query_failed"@,
                "Unknown Codex history operation: "@ + r.operation@,
            ),
        )
    }
}

pub fn plan_history_request(files_dir: Option<&str>, request: &CodexHistoryRequest) -> (r:
    HistoryStep)
    ensures
        r@ == history_step(
            match files_dir {
                Some(f) => Some(f@),
                None => None,
            },
            *request,
        ),
{
    if files_dir.is_none() {
        return HistoryStep::Reply(
            history_error_value(false, "unsupported_platform", "invalid engine handle"),
        );
    }
    let op = request.operation.as_str();
    if same_text(op, "history_list_threads") {
        HistoryStep::ListThreads
    } else if same_text(op, "history_read_thread") {
        if is_blank(request.thread_id.as_str()) {
            HistoryStep::Reply(
                history_error_value(true, "missing_native_thread", "Codex thread ID is required"),
            )
        } else {
            HistoryStep::ReadThread { thread_id: text_trim(request.thread_id.as_str()) }
        }
    } else if same_text(op, "history_bind_thread") {
        if is_blank(request.thread_id.as_str()) || is_blank(request.session_key_json.as_str()) {
            HistoryStep::Reply(
                history_error_value(
                    true,
                    "missing_native_thread",
                    "Codex thread ID and session key are required",
                ),
            )
        } else {
            HistoryStep::BindThread {
                thread_id: text_trim(request.thread_id.as_str()),
                account_id: normalized_account_id_of(request.account_id.as_str()),
                agent_id: normalized_agent_id_of(request.agent_id.as_str()),
                session_key_json: request.session_key_json.clone(),
            }
        }
    } else {
        let msg = cat("Unknown Codex history operation: ", op);
        HistoryStep::Reply(history_error_value(true, "history_query_failed", msg.as_str()))
    }
}

/// The reply that lists native threads.
pub fn threads_reply(data: &Vec<Json>) -> (r: Json)
    ensures
        r@ == history_success(thread_summaries(views(data@)), Seq::empty(), Seq::empty()),
{
    proof {
        reveal_strlit("");
    }
    let threads = map_thread_summaries(data);
    let r = history_success_value(threads, Vec::new(), "");
    assert(views(Seq::<Json>::empty()) =~= Seq::<JsonV>::empty());
    assert(""@ =~= Seq::<char>::empty());
    r
}

/// The reply that carries the messages of a native thread.
pub fn messages_reply(thread_id: &str, items: &Vec<Json>) -> (r: Json)
    ensures
        r@ == history_success(Seq::empty(), history_messages(views(items@)), thread_id@),
{
    let messages = map_history_items(items);
    let r = history_success_value(Vec::new(), messages, thread_id);
    assert(views(Seq::<Json>::empty()) =~= Seq::<JsonV>::empty());
    r
}

/// The reply after binding a native thread.
pub fn bound_reply(thread_id: &str) -> (r: Json)
    ensures
        r@ == history_success(Seq::empty(), Seq::empty(), thread_id@),
{
    let r = history_success_value(Vec::new(), Vec::new(), thread_id);
    assert(views(Seq::<Json>::empty()) =~= Seq::<JsonV>::empty());
    r
}


/// What a message means for a history call waiting on request `id`:
/// nothing unless it answers that request; then the request's error, or its
/// result (null when it has none).
pub open spec fn call_reply(m: JsonV, id: u64) -> Option<Result<JsonV, Seq<char>>> {
    if crate::protocol::response_id(m) != Some(id) {
        None
    } else {
        match crate::protocol::response_error(m) {
            Some(e) => Some(Err(e)),
            None => Some(
                Ok(
                    match get(m, "result"@) {
                        Some(r) => r,
                        None => JsonV::Null,
                    },
                ),
            ),
        }
    }
}

pub fn history_call_reply(message: &Json, id: u64) -> (r: Option<Result<Json, String>>)
    ensures
        match r {
            None => call_reply(message@, id) is None,
            Some(Ok(v)) => call_reply(message@, id) == Some(Ok::<JsonV, Seq<char>>(v@)),
            Some(Err(e)) => call_reply(message@, id) == Some(Err::<JsonV, Seq<char>>(e@)),
        },
{
    match crate::protocol::response_id_of(message) {
        Some(got) => {
            if got != id {
                return None;
            }
        },
        None => {
            return None;
        },
    }
    match crate::protocol::response_error_of(message) {
        Some(e) => Some(Err(e)),
        None => match message.get("result") {
            Some(r) => Some(Ok(r.copy())),
            None => Some(Ok(Json::Null)),
        },
    }
}

/// The threads that a `thread/list` result lists: its `data` array, or none.
pub fn listed_threads(result: &Json) -> (r: Vec<Json>)
    ensures
        views(r@) == arr_or_empty(get(result@, "data"@)),
{
    match result.get("data") {
        Some(d) => match d.as_array() {
            Some(items) => {
                let mut out: Vec<Json> = Vec::new();
                let mut i: usize = 0;
                while i < items.len()
                    invariant
                        i <= items.len(),
                        views(out@) == views(items@).take(i as int),
                    decreases items.len() - i,
                {
                    let ghost before = out@;
                    out.push(items[i].copy());
                    assert(views(out@) =~= views(items@).take(i + 1)) by {
                        assert(views(out@) =~= views(before).push(items@[i as int]@));
                    }
                    i += 1;
                }
                assert(views(items@).take(items.len() as int) =~= views(items@));
                out
            },
            None => Vec::new(),
        },
        None => Vec::new(),
    }
}


/// Whether a history connection can be opened: the sandbox needs its
/// configuration files, and a native library directory must be known.
/// Returns that directory, or why it cannot.
pub fn history_open_check(config_present: bool, native_library_dir: Option<String>) -> (r: Result<String, String>)
    ensures
        !config_present ==> (r matches Err(e) && e@ == "Codex sandbox configuration is missing"@),
        config_present ==> match native_library_dir {
            Some(d) => r matches Ok(x) && x@ == d@,
            None => r matches Err(e) && e@ == "missing native_library_dir for Android Codex history"@,
        },
{
    if !config_present {
        return Err(String::from_str("Codex sandbox configuration is missing"));
    }
    match native_library_dir {
        Some(d) => Ok(d),
        None => Err(String::from_str("missing native_library_dir for Android Codex history")),
    }
}


/// What listing threads does next.
pub enum ListStep {
    /// Answer with this reply.
    Reply(Json),
    /// The workspace had no threads: list all of them.
    ListAll,
}

/// After listing the threads of the workspace: their reply, or a listing of
/// all threads when the workspace had none.
pub fn after_workspace_list(data: &Vec<Json>) -> (r: ListStep)
    ensures
        data@.len() == 0 ==> r is ListAll,
        data@.len() > 0 ==> (r matches ListStep::Reply(j) && j@ == history_success(
            thread_summaries(views(data@)),
            Seq::empty(),
            Seq::empty(),
        )),
{
    if data.len() == 0 {
        ListStep::ListAll
    } else {
        ListStep::Reply(threads_reply(data))
    }
}

/// What reading a thread does next.
pub enum ReadStep {
    /// Answer with this reply.
    Reply(Json),
    /// Resuming showed no items: read the thread instead.
    Read,
}

/// After resuming thread `thread_id` (`None` when resuming failed): its
/// messages, or a read of the thread when that showed no items.
pub fn after_resume(thread_id: &str, resumed: Option<&Json>) -> (r: ReadStep)
    ensures
        thread_items(view_opt(resumed)).len() == 0 ==> r is Read,
        thread_items(view_opt(resumed)).len() > 0 ==> (r matches ReadStep::Reply(j) && j@ == history_success(
            Seq::empty(),
            history_messages(thread_items(view_opt(resumed))),
            thread_id@,
        )),
{
    let items = extract_thread_items(resumed);
    if items.len() == 0 {
        ReadStep::Read
    } else {
        ReadStep::Reply(messages_reply(thread_id, &items))
    }
}

/// The messages of thread `thread_id` as read.
pub fn after_read(thread_id: &str, read: &Json) -> (r: Json)
    ensures
        r@ == history_success(Seq::empty(), history_messages(thread_items(Some(read@))), thread_id@),
{
    let items = extract_thread_items(Some(read));
    messages_reply(thread_id, &items)
}

/// The reply to binding native thread `thread_id`: it needs the main model
/// configuration to have been synchronized into the sandbox.
pub fn bind_reply(config_synchronized: bool, thread_id: &str) -> (r: Json)
    ensures
        config_synchronized ==> r@ == history_success(Seq::empty(), Seq::empty(), thread_id@),
        !config_synchronized ==> r@ == history_error(
            true,
            "missing_main_model"@,
            "Codex main model configuration must be synchronized before binding history"@,
        ),
{
    if config_synchronized {
        bound_reply(thread_id)
    } else {
        history_error_value(
            true,
            "missing_main_model",
            "Codex main model configuration must be synchronized before binding history",
        )
    }
}

/// The reply when a call to the app-server failed with `error`.
pub fn rpc_failed_reply(error: &str) -> (r: Json)
    ensures
        r@ == history_error(true, "history_query_failed"@, error@),
{
    history_error_value(true, "history_query_failed", error)
}

} // verus!
