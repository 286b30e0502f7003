//! The web search tool's interface: its description, its parameters, the
//! typing attempts it makes, and its answer.
use vstd::prelude::*;
use crate::history::cat;
use crate::json::{
    arr, as_str_opt, as_u64, decimal, get, int_value, json_pretty_text, num_u64, obj1, obj2, obj3,
    obj4, views, Json, JsonV, NumV,
};
use crate::text::{chars_of, text_trim, trim};
use crate::web_search::{format_results_with_diagnostics, result_views, results_value, ResultV, SearchResult};

verus! {

/// The tool's name.
pub const WEB_SEARCH_TOOL_NAME: &'static str = "web_search";

pub const DEFAULT_COUNT: usize = 5;

pub const MAX_COUNT: usize = 10;

// ---------------------------------------------------------------------
// Typing the query
// ---------------------------------------------------------------------

pub open spec fn typed_attempt(field: (Seq<char>, JsonV), query: Seq<char>) -> JsonV {
    JsonV::Obj(
        seq![
            ("clear_first"@, JsonV::Bool(true)),
            field,
            ("submit"@, JsonV::Bool(true)),
            ("submit_selector"@, JsonV::Str("#sb_form"@)),
            ("text"@, JsonV::Str(query)),
        ],
    )
}

/// The ways the query is typed into Bing's visible search field, in order:
/// four selectors, then two accessible labels; each submits the form.
pub open spec fn type_attempts(query: Seq<char>) -> Seq<JsonV> {
    seq![
        typed_attempt(("selector"@, JsonV::Str("#sb_form_q"@)), query),
        typed_attempt(("selector"@, JsonV::Str("input#sb_form_q[name='q']"@)), query),
        typed_attempt(("selector"@, JsonV::Str("input[name='q']"@)), query),
        typed_attempt(("selector"@, JsonV::Str("input[type='search']"@)), query),
        typed_attempt(("label"@, JsonV::Str("搜索网页"@)), query),
        typed_attempt(("label"@, JsonV::Str("输入搜索词"@)), query),
    ]
}

fn typed(key: &str, value: &str, query: &str) -> (r: Json)
    ensures
        r@ == typed_attempt((key@, JsonV::Str(value@)), query@),
{
    let v = Json::string(value);
    let entries = vec![
        crate::protocol::member("clear_first", Json::Bool(true)),
        crate::protocol::member(key, v),
        crate::protocol::member("submit", Json::Bool(true)),
        crate::protocol::member("submit_selector", Json::string("#sb_form")),
        crate::protocol::member("text", Json::string(query)),
    ];
    assert(crate::json::member_views(entries@) =~= seq![
        ("clear_first"@, JsonV::Bool(true)),
        (key@, JsonV::Str(value@)),
        ("submit"@, JsonV::Bool(true)),
        ("submit_selector"@, JsonV::Str("#sb_form"@)),
        ("text"@, JsonV::Str(query@)),
    ]);
    crate::protocol::obj(entries)
}

pub fn browser_search_type_attempts(query: &str) -> (r: Vec<Json>)
    ensures
        views(r@) == type_attempts(query@),
{
    let r = vec![
        typed("selector", "#sb_form_q", query),
        typed("selector", "input#sb_form_q[name='q']", query),
        typed("selector", "input[name='q']", query),
        typed("selector", "input[type='search']", query),
        typed("label", "搜索网页", query),
        typed("label", "输入搜索词", query),
    ];
    assert(views(r@) =~= type_attempts(query@));
    r
}

// ---------------------------------------------------------------------
// The tool's description
// ---------------------------------------------------------------------

/// What running a tool does to the world.
pub enum ToolEffect {
    Read,
}

/// How a tool presents itself to the model.
pub struct ToolDescriptor {
    pub name: String,
    pub description: String,
    pub parameters: Json,
    pub effect: ToolEffect,
}

pub open spec fn description_text() -> Seq<char> {
    "Search the web and return JSON with query, diagnostics, result_count, and a results array of title, url, and snippet. Supports optional count, language, and freshness filters."@
}

pub open spec fn typed_field(kind: Seq<char>, description: Seq<char>) -> JsonV {
    JsonV::Obj(seq![("description"@, JsonV::Str(description)), ("type"@, JsonV::Str(kind))])
}

/// The JSON schema of the tool's parameters.
pub open spec fn parameters_schema() -> JsonV {
    JsonV::Obj(
        seq![
            (
                "properties"@,
                JsonV::Obj(
                    seq![
                        (
                            "count"@,
                            JsonV::Obj(
                                seq![
                                    (
                                        "description"@,
                                        JsonV::Str("Number of results to return, from 1 to 10. Defaults to 5."@),
                                    ),
                                    ("maximum"@, JsonV::Num(NumV::PosInt(10))),
                                    ("minimum"@, JsonV::Num(NumV::PosInt(1))),
                                    ("type"@, JsonV::Str("integer"@)),
                                ],
                            ),
                        ),
                        (
                            "freshness"@,
                            JsonV::Obj(
                                seq![
                                    ("description"@, JsonV::Str("Optional time filter."@)),
                                    (
                                        "enum"@,
                                        JsonV::Arr(
                                            seq![
                                                JsonV::Str("day"@),
                                                JsonV::Str("week"@),
                                                JsonV::Str("month"@),
                                            ],
                                        ),
                                    ),
                                    ("type"@, JsonV::Str("string"@)),
                                ],
                            ),
                        ),
                        (
                            "language"@,
                            typed_field(
                                "string"@,
                                "Preferred search language, such as en or zh-Hans. Defaults to zh-Hans."@,
                            ),
                        ),
                        ("query"@, typed_field("string"@, "The search query."@)),
                    ],
                ),
            ),
            ("required"@, JsonV::Arr(seq![JsonV::Str("query"@)])),
            ("type"@, JsonV::Str("object"@)),
        ],
    )
}

fn typed_field_value(kind: &str, description: &str) -> (r: Json)
    ensures
        r@ == typed_field(kind@, description@),
{
    obj2("description", Json::string(description), "type", Json::string(kind))
}

/// The web search tool's descriptor.
pub fn descriptor() -> (r: ToolDescriptor)
    ensures
        r.name@ == "web_search"@,
        r.description@ == description_text(),
        r.parameters@ == parameters_schema(),
        r.effect is Read,
{
    let count = obj4(
        "description",
        Json::string("Number of results to return, from 1 to 10. Defaults to 5."),
        "maximum",
        num_u64(10),
        "minimum",
        num_u64(1),
        "type",
        Json::string("integer"),
    );
    let kinds = vec![Json::string("day"), Json::string("week"), Json::string("month")];
    assert(views(kinds@) =~= seq![JsonV::Str("day"@), JsonV::Str("week"@), JsonV::Str("month"@)]);
    let freshness = obj3(
        "description",
        Json::string("Optional time filter."),
        "enum",
        arr(kinds),
        "type",
        Json::string("string"),
    );
    let language = typed_field_value(
        "string",
        "Preferred search language, such as en or zh-Hans. Defaults to zh-Hans.",
    );
    let query = typed_field_value("string", "The search query.");
    let properties = obj4("count", count, "freshness", freshness, "language", language, "query", query);
    let required_items = vec![Json::string("query")];
    assert(views(required_items@) =~= seq![JsonV::Str("query"@)]);
    let parameters = obj3(
        "properties",
        properties,
        "required",
        arr(required_items),
        "type",
        Json::string("object"),
    );
    ToolDescriptor {
        name: String::from_str("web_search"),
        description: String::from_str(
            "Search the web and return JSON with query, diagnostics, result_count, and a results array of title, url, and snippet. Supports optional count, language, and freshness filters.",
        ),
        parameters,
        effect: ToolEffect::Read,
    }
}

// ---------------------------------------------------------------------
// The tool's parameters
// ---------------------------------------------------------------------

/// A search the tool was asked for.
pub struct SearchRequest {
    pub query: String,
    pub count: usize,
    pub language: String,
    pub freshness: String,
}

pub open spec fn trimmed_str(params: JsonV, key: Seq<char>) -> Option<Seq<char>> {
    match as_str_opt(get(params, key)) {
        Some(t) => Some(trim(t)),
        None => None,
    }
}

/// The number of results asked for: `count` kept between 1 and 10, else 5.
pub open spec fn requested_count(params: JsonV) -> nat {
    match crate::json::get(params, "count"@) {
        Some(c) => match as_u64(c) {
            Some(n) => if n < 1 {
                1
            } else if n > 10 {
                10
            } else {
                n as nat
            },
            None => 5,
        },
        None => 5,
    }
}

/// The search that a call's parameters ask for, or why they ask for none:
/// the trimmed `query` must not be empty; `language` defaults to `zh-Hans`.
pub open spec fn search_request(params: JsonV) -> Result<(Seq<char>, nat, Seq<char>, Seq<char>), Seq<char>> {
    match trimmed_str(params, "query"@) {
        Some(q) if q.len() > 0 => Ok(
            (
                q,
                requested_count(params),
                match trimmed_str(params, "language"@) {
                    Some(l) if l.len() > 0 => l,
                    _ => "zh-Hans"@,
                },
                match trimmed_str(params, "freshness"@) {
                    Some(f) => f,
                    None => Seq::empty(),
                },
            ),
        ),
        _ => Err("web_search query is required"@),
    }
}

fn trimmed_field(params: &Json, key: &str) -> (r: Option<String>)
    ensures
        crate::json::string_opt(r) == trimmed_str(params@, key@),
{
    match params.get(key) {
        Some(x) => match x.as_str() {
            Some(t) => Some(text_trim(t.as_str())),
            None => None,
        },
        None => None,
    }
}

pub fn read_search_request(params: &Json) -> (r: Result<SearchRequest, String>)
    ensures
        match r {
            Ok(q) => search_request(params@) == Ok::<(Seq<char>, nat, Seq<char>, Seq<char>), Seq<char>>(
                (q.query@, q.count as nat, q.language@, q.freshness@),
            ),
            Err(e) => search_request(params@) == Err::<(Seq<char>, nat, Seq<char>, Seq<char>), Seq<char>>(e@),
        },
{
    let query = match trimmed_field(params, "query") {
        Some(q) => {
            if chars_of(q.as_str()).len() == 0 {
                return Err(String::from_str("web_search query is required"));
            }
            q
        },
        None => {
            return Err(String::from_str("web_search query is required"));
        },
    };
    let count: usize = match params.get("count") {
        Some(c) => match c.as_u64() {
            Some(n) => if n < 1 {
                1
            } else if n > 10 {
                10
            } else {
                n as usize
            },
            None => DEFAULT_COUNT,
        },
        None => DEFAULT_COUNT,
    };
    let language = match trimmed_field(params, "language") {
        Some(l) => if chars_of(l.as_str()).len() > 0 {
            l
        } else {
            String::from_str("zh-Hans")
        },
        None => String::from_str("zh-Hans"),
    };
    let freshness = match trimmed_field(params, "freshness") {
        Some(f) => f,
        None => String::new(),
    };
    Ok(SearchRequest { query, count, language, freshness })
}

/// The cache key of a search: mode, query, count, language and freshness,
/// separated by NUL characters.
pub open spec fn cache_key_text(
    query: Seq<char>,
    count: nat,
    language: Seq<char>,
    freshness: Seq<char>,
    mode: Seq<char>,
) -> Seq<char> {
    mode + seq!['\0'] + query + seq!['\0'] + decimal(count) + seq!['\0'] + language + seq!['\0'] + freshness
}

pub fn cache_key(query: &str, count: usize, language: &str, freshness: &str, mode: &str) -> (r: String)
    ensures
        r@ == cache_key_text(query@, count as nat, language@, freshness@, mode@),
{
    let nul = "\0";
    proof {
        reveal_strlit("\0");
    }
    assert(nul@ =~= seq!['\0']);
    let n = crate::json::u64_text(count as u64);
    let a = cat(mode, nul);
    let b = cat(a.as_str(), query);
    let c = cat(b.as_str(), nul);
    let d = cat(c.as_str(), n.as_str());
    let e = cat(d.as_str(), nul);
    let f = cat(e.as_str(), language);
    let g = cat(f.as_str(), nul);
    cat(g.as_str(), freshness)
}

// ---------------------------------------------------------------------
// The tool's answer
// ---------------------------------------------------------------------

pub open spec fn no_bridge_message() -> Seq<char> {
    "web_search requires a browser host bridge; HTTP fallback is disabled"@
}

/// Why a search without a browser bridge cannot run.
pub fn no_bridge_error() -> (r: String)
    ensures
        r@ == no_bridge_message(),
{
    String::from_str("web_search requires a browser host bridge; HTTP fallback is disabled")
}

pub open spec fn search_diagnostics() -> Seq<char> {
    "source=browser; fallback=disabled"@
}

/// The tool's answer to a finished browser search: the formatted results,
/// or an error when the search failed or found nothing.
pub open spec fn search_answer(query: Seq<char>, outcome: Result<Seq<ResultV>, Seq<char>>) -> Result<
    Seq<char>,
    Seq<char>,
> {
    match outcome {
        Err(e) => Err("web_search browser path failed: "@ + e),
        Ok(rs) => if rs.len() == 0 {
            Err("web_search browser path returned no results; HTTP fallback is disabled"@)
        } else {
            Ok(json_pretty_text(results_value(query, rs, search_diagnostics())))
        },
    }
}

pub fn answer_search(query: &str, outcome: Result<Vec<SearchResult>, String>) -> (r: Result<String, String>)
    ensures
        match r {
            Ok(b) => search_answer(
                query@,
                match outcome {
                    Ok(rs) => Ok(result_views(rs@)),
                    Err(e) => Err(e@),
                },
            ) == Ok::<Seq<char>, Seq<char>>(b@),
            Err(e) => search_answer(
                query@,
                match outcome {
                    Ok(rs) => Ok(result_views(rs@)),
                    Err(e) => Err(e@),
                },
            ) == Err::<Seq<char>, Seq<char>>(e@),
        },
{
    match outcome {
        Err(e) => Err(cat("web_search browser path failed: ", e.as_str())),
        Ok(rs) => {
            if rs.len() == 0 {
                Err(String::from_str("web_search browser path returned no results; HTTP fallback is disabled"))
            } else {
                Ok(format_results_with_diagnostics(query, &rs, "source=browser; fallback=disabled"))
            }
        },
    }
}

} // verus!
