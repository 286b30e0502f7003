//! The JSON documents that the engine reads and writes, with their
//! mathematical model and their text rendering.
use vstd::prelude::*;
use crate::text::{chars_of, same_text, string_of};

verus! {

/// A JSON number as the parser produced it: a non-negative integer, a
/// negative integer, or a non-integer number kept as its decimal text.
pub enum JsonNumber {
    PosInt(u64),
    NegInt(i64),
    Float(String),
}

/// A JSON document. Object members are kept in the order in which they render.
pub enum Json {
    Null,
    Bool(bool),
    Number(JsonNumber),
    Str(String),
    Array(Vec<Json>),
    Object(Vec<(String, Json)>),
}

/// Model of a JSON number.
pub enum NumV {
    PosInt(u64),
    NegInt(i64),
    Float(Seq<char>),
}

/// Model of a JSON document.
pub enum JsonV {
    Null,
    Bool(bool),
    Num(NumV),
    Str(Seq<char>),
    Arr(Seq<JsonV>),
    Obj(Seq<(Seq<char>, JsonV)>),
}

impl View for JsonNumber {
    type V = NumV;

    open spec fn view(&self) -> NumV {
        match self {
            JsonNumber::PosInt(u) => NumV::PosInt(*u),
            JsonNumber::NegInt(i) => NumV::NegInt(*i),
            JsonNumber::Float(t) => NumV::Float(t@),
        }
    }
}

pub open spec fn json_view(j: Json) -> JsonV
    decreases j,
{
    match j {
        Json::Null => JsonV::Null,
        Json::Bool(b) => JsonV::Bool(b),
        Json::Number(n) => JsonV::Num(n@),
        Json::Str(s) => JsonV::Str(s@),
        Json::Array(v) => JsonV::Arr(
            Seq::new(
                v@.len(),
                |i: int|
                    if 0 <= i < v@.len() {
                        json_view(v@[i])
                    } else {
                        JsonV::Null
                    },
            ),
        ),
        Json::Object(v) => JsonV::Obj(
            Seq::new(
                v@.len(),
                |i: int|
                    if 0 <= i < v@.len() {
                        (v@[i].0@, json_view(v@[i].1))
                    } else {
                        (Seq::empty(), JsonV::Null)
                    },
            ),
        ),
    }
}

impl View for Json {
    type V = JsonV;

    open spec fn view(&self) -> JsonV {
        json_view(*self)
    }
}

pub open spec fn view_opt(o: Option<&Json>) -> Option<JsonV> {
    match o {
        Some(j) => Some(j@),
        None => None,
    }
}

pub open spec fn view_own(o: Option<Json>) -> Option<JsonV> {
    match o {
        Some(j) => Some(j@),
        None => None,
    }
}

pub open spec fn views(v: Seq<Json>) -> Seq<JsonV> {
    Seq::new(v.len(), |i: int| v[i]@)
}

pub open spec fn str_views(v: Seq<String>) -> Seq<Seq<char>> {
    Seq::new(v.len(), |i: int| v[i]@)
}

/// The member `k` of an object's members: the first one of that name.
pub open spec fn lookup(es: Seq<(Seq<char>, JsonV)>, k: Seq<char>) -> Option<JsonV>
    decreases es.len(),
{
    if es.len() == 0 {
        None
    } else if es[0].0 == k {
        Some(es[0].1)
    } else {
        lookup(es.subrange(1, es.len() as int), k)
    }
}

/// `value.get(key)`: the member `key` of an object, nothing for other values.
pub open spec fn get(j: JsonV, k: Seq<char>) -> Option<JsonV> {
    match j {
        JsonV::Obj(es) => lookup(es, k),
        _ => None,
    }
}

pub open spec fn get_opt(j: Option<JsonV>, k: Seq<char>) -> Option<JsonV> {
    match j {
        Some(j) => get(j, k),
        None => None,
    }
}

pub open spec fn as_str(j: JsonV) -> Option<Seq<char>> {
    match j {
        JsonV::Str(s) => Some(s),
        _ => None,
    }
}

pub open spec fn as_str_opt(j: Option<JsonV>) -> Option<Seq<char>> {
    match j {
        Some(j) => as_str(j),
        None => None,
    }
}

pub open spec fn as_arr(j: JsonV) -> Option<Seq<JsonV>> {
    match j {
        JsonV::Arr(xs) => Some(xs),
        _ => None,
    }
}

pub open spec fn as_arr_opt(j: Option<JsonV>) -> Option<Seq<JsonV>> {
    match j {
        Some(j) => as_arr(j),
        None => None,
    }
}

pub open spec fn as_u64(j: JsonV) -> Option<u64> {
    match j {
        JsonV::Num(NumV::PosInt(u)) => Some(u),
        _ => None,
    }
}

pub open spec fn as_i64(j: JsonV) -> Option<i64> {
    match j {
        JsonV::Num(NumV::PosInt(u)) => if u <= i64::MAX {
            Some(u as i64)
        } else {
            None
        },
        JsonV::Num(NumV::NegInt(i)) => Some(i),
        _ => None,
    }
}

pub open spec fn as_bool(j: JsonV) -> Option<bool> {
    match j {
        JsonV::Bool(b) => Some(b),
        _ => None,
    }
}

pub open spec fn as_bool_opt(j: Option<JsonV>) -> Option<bool> {
    match j {
        Some(j) => as_bool(j),
        None => None,
    }
}

// ---------------------------------------------------------------------
// Rendering
// ---------------------------------------------------------------------

pub open spec fn digit_char(d: int) -> char {
    if d == 0 { '0' } else if d == 1 { '1' } else if d == 2 { '2' } else if d == 3 { '3' }
    else if d == 4 { '4' } else if d == 5 { '5' } else if d == 6 { '6' } else if d == 7 { '7' }
    else if d == 8 { '8' } else { '9' }
}

/// Decimal digits of a natural number, without leading zeros.
pub open spec fn decimal(n: nat) -> Seq<char>
    decreases n,
{
    if n < 10 {
        seq![digit_char(n as int)]
    } else {
        decimal(n / 10).push(digit_char((n % 10) as int))
    }
}

pub open spec fn hex_char(d: int) -> char {
    if d < 10 { digit_char(d) } else if d == 10 { 'a' } else if d == 11 { 'b' } else if d == 12 { 'c' }
    else if d == 13 { 'd' } else if d == 14 { 'e' } else { 'f' }
}

/// How one character of a string appears inside a JSON string literal.
pub open spec fn escape_char(c: char) -> Seq<char> {
    if c == '"' {
        seq!['\\', '"']
    } else if c == '\\' {
        seq!['\\', '\\']
    } else if c == '\n' {
        seq!['\\', 'n']
    } else if c == '\r' {
        seq!['\\', 'r']
    } else if c == '\t' {
        seq!['\\', 't']
    } else if c as u32 == 8 {
        seq!['\\', 'b']
    } else if c as u32 == 12 {
        seq!['\\', 'f']
    } else if (c as u32) < 32 {
        seq!['\\', 'u', '0', '0', hex_char((c as u32 / 16) as int), hex_char((c as u32 % 16) as int)]
    } else {
        seq![c]
    }
}

/// The escaped form of the first `n` characters of `s`.
pub open spec fn escaped(s: Seq<char>, n: nat) -> Seq<char>
    decreases n,
{
    if n == 0 || n > s.len() {
        Seq::empty()
    } else {
        escaped(s, (n - 1) as nat) + escape_char(s[n - 1])
    }
}

/// A JSON string literal.
pub open spec fn quoted(s: Seq<char>) -> Seq<char> {
    seq!['"'] + escaped(s, s.len()) + seq!['"']
}

pub open spec fn number_text(n: NumV) -> Seq<char> {
    match n {
        NumV::PosInt(u) => decimal(u as nat),
        NumV::NegInt(i) => if i < 0 {
            seq!['-'] + decimal((-i) as nat)
        } else {
            decimal(i as nat)
        },
        NumV::Float(t) => t,
    }
}

/// Two spaces per level of nesting.
pub open spec fn indent(depth: nat) -> Seq<char> {
    Seq::new(2 * depth, |i: int| ' ')
}

/// What goes before the `n`-th member (counting from zero) of an array or object.
pub open spec fn item_sep(n: nat, pretty: bool, depth: nat) -> Seq<char> {
    if pretty {
        (if n == 0 { seq!['\n'] } else { seq![',', '\n'] }) + indent(depth)
    } else if n == 0 {
        Seq::empty()
    } else {
        seq![',']
    }
}

/// What goes before the closing bracket of a non-empty array or object.
pub open spec fn close_sep(pretty: bool, depth: nat) -> Seq<char> {
    if pretty {
        seq!['\n'] + indent(depth)
    } else {
        Seq::empty()
    }
}

pub open spec fn key_sep(pretty: bool) -> Seq<char> {
    if pretty {
        seq![':', ' ']
    } else {
        seq![':']
    }
}

/// The text of a JSON document: compact, or indented by two spaces per level
/// with `depth` the level of the document itself.
pub open spec fn render(j: JsonV, pretty: bool, depth: nat) -> Seq<char>
    decreases j, 0nat,
{
    match j {
        JsonV::Null => seq!['n', 'u', 'l', 'l'],
        JsonV::Bool(b) => if b {
            seq!['t', 'r', 'u', 'e']
        } else {
            seq!['f', 'a', 'l', 's', 'e']
        },
        JsonV::Num(n) => number_text(n),
        JsonV::Str(s) => quoted(s),
        JsonV::Arr(xs) => if xs.len() == 0 {
            seq!['[', ']']
        } else {
            seq!['['] + render_items(xs, xs.len(), pretty, depth + 1) + close_sep(pretty, depth)
                + seq![']']
        },
        JsonV::Obj(es) => if es.len() == 0 {
            seq!['{', '}']
        } else {
            seq!['{'] + render_members(es, es.len(), pretty, depth + 1) + close_sep(pretty, depth)
                + seq!['}']
        },
    }
}

/// The first `n` items of an array, with their separators.
pub open spec fn render_items(xs: Seq<JsonV>, n: nat, pretty: bool, depth: nat) -> Seq<char>
    decreases xs, n,
{
    if n == 0 || n > xs.len() {
        Seq::empty()
    } else {
        render_items(xs, (n - 1) as nat, pretty, depth) + item_sep((n - 1) as nat, pretty, depth)
            + render(xs[n - 1], pretty, depth)
    }
}

/// The first `n` members of an object, with their separators.
pub open spec fn render_members(es: Seq<(Seq<char>, JsonV)>, n: nat, pretty: bool, depth: nat) -> Seq<
    char,
>
    decreases es, n,
{
    if n == 0 || n > es.len() {
        Seq::empty()
    } else {
        render_members(es, (n - 1) as nat, pretty, depth) + item_sep((n - 1) as nat, pretty, depth)
            + quoted(es[n - 1].0) + key_sep(pretty) + render_member_value(es[n - 1], pretty, depth)
    }
}

pub open spec fn render_member_value(e: (Seq<char>, JsonV), pretty: bool, depth: nat) -> Seq<char>
    decreases e, 0nat,
{
    render(e.1, pretty, depth)
}

/// The compact text of a JSON document.
pub open spec fn json_text(j: JsonV) -> Seq<char> {
    render(j, false, 0)
}

/// The pretty-printed text of a JSON document.
pub open spec fn json_pretty_text(j: JsonV) -> Seq<char> {
    render(j, true, 0)
}


/// How deeply arrays and objects nest inside a document.
pub open spec fn nesting(j: JsonV) -> nat
    decreases j, 0nat,
{
    match j {
        JsonV::Arr(xs) => 1 + items_nesting(xs, xs.len()),
        JsonV::Obj(es) => 1 + members_nesting(es, es.len()),
        _ => 0,
    }
}

pub open spec fn items_nesting(xs: Seq<JsonV>, n: nat) -> nat
    decreases xs, n,
{
    if n == 0 || n > xs.len() {
        0
    } else {
        let a = items_nesting(xs, (n - 1) as nat);
        let b = nesting(xs[n - 1]);
        if a < b { b } else { a }
    }
}

pub open spec fn members_nesting(es: Seq<(Seq<char>, JsonV)>, n: nat) -> nat
    decreases es, n,
{
    if n == 0 || n > es.len() {
        0
    } else {
        let a = members_nesting(es, (n - 1) as nat);
        let b = member_nesting(es[n - 1]);
        if a < b { b } else { a }
    }
}

pub open spec fn member_nesting(e: (Seq<char>, JsonV)) -> nat
    decreases e, 0nat,
{
    nesting(e.1)
}

proof fn lemma_items_nesting(xs: Seq<JsonV>, n: nat, i: int)
    requires
        0 <= i < n <= xs.len(),
    ensures
        nesting(xs[i]) <= items_nesting(xs, n),
    decreases n,
{
    if i < n - 1 {
        lemma_items_nesting(xs, (n - 1) as nat, i);
    }
}

/// An array whose items all nest at most `k` deep has items nesting at most `k`.
pub proof fn lemma_items_bound(xs: Seq<JsonV>, n: nat, k: nat)
    requires
        n <= xs.len(),
        forall|i: int| 0 <= i < n ==> nesting(#[trigger] xs[i]) <= k,
    ensures
        items_nesting(xs, n) <= k,
    decreases n,
{
    if n > 0 {
        lemma_items_bound(xs, (n - 1) as nat, k);
    }
}

/// An object whose values all nest at most `k` deep has members nesting at most `k`.
pub proof fn lemma_members_bound(es: Seq<(Seq<char>, JsonV)>, n: nat, k: nat)
    requires
        n <= es.len(),
        forall|i: int| 0 <= i < n ==> nesting(#[trigger] es[i].1) <= k,
    ensures
        members_nesting(es, n) <= k,
    decreases n,
{
    if n > 0 {
        lemma_members_bound(es, (n - 1) as nat, k);
        assert(member_nesting(es[n - 1]) == nesting(es[n - 1].1));
    }
}

proof fn lemma_members_nesting(es: Seq<(Seq<char>, JsonV)>, n: nat, i: int)
    requires
        0 <= i < n <= es.len(),
    ensures
        nesting(es[i].1) <= members_nesting(es, n),
    decreases n,
{
    assert(member_nesting(es[n - 1]) == nesting(es[n - 1].1));
    if i < n - 1 {
        lemma_members_nesting(es, (n - 1) as nat, i);
    }
}

/// In compact form the text does not depend on the nesting level.
proof fn lemma_compact_depth(j: JsonV, d: nat)
    ensures
        render(j, false, d) == render(j, false, 0),
    decreases j, 0nat,
{
    match j {
        JsonV::Arr(xs) => {
            lemma_compact_items(xs, xs.len(), d + 1);
        },
        JsonV::Obj(es) => {
            lemma_compact_members(es, es.len(), d + 1);
        },
        _ => {},
    }
}

proof fn lemma_compact_items(xs: Seq<JsonV>, n: nat, d: nat)
    ensures
        render_items(xs, n, false, d) == render_items(xs, n, false, 1),
    decreases xs, n,
{
    if n == 0 || n > xs.len() {
    } else {
        lemma_compact_items(xs, (n - 1) as nat, d);
        lemma_compact_depth(xs[n - 1], d);
        lemma_compact_depth(xs[n - 1], 1);
    }
}

proof fn lemma_compact_members(es: Seq<(Seq<char>, JsonV)>, n: nat, d: nat)
    ensures
        render_members(es, n, false, d) == render_members(es, n, false, 1),
    decreases es, n,
{
    if n == 0 || n > es.len() {
    } else {
        lemma_compact_members(es, (n - 1) as nat, d);
        lemma_compact_member(es[n - 1], d);
        assert(render_member_value(es[n - 1], false, d) == render(es[n - 1].1, false, d));
        assert(render_member_value(es[n - 1], false, 1) == render(es[n - 1].1, false, 1));
    }
}

proof fn lemma_compact_member(e: (Seq<char>, JsonV), d: nat)
    ensures
        render(e.1, false, d) == render(e.1, false, 1),
    decreases e, 0nat,
{
    lemma_compact_depth(e.1, d);
    lemma_compact_depth(e.1, 1);
}

// ---------------------------------------------------------------------
// Executable reading and writing
// ---------------------------------------------------------------------

fn digit(d: u64) -> (c: char)
    requires
        d < 16,
    ensures
        c == hex_char(d as int),
{
    if d == 0 { '0' } else if d == 1 { '1' } else if d == 2 { '2' } else if d == 3 { '3' }
    else if d == 4 { '4' } else if d == 5 { '5' } else if d == 6 { '6' } else if d == 7 { '7' }
    else if d == 8 { '8' } else if d == 9 { '9' } else if d == 10 { 'a' } else if d == 11 { 'b' }
    else if d == 12 { 'c' } else if d == 13 { 'd' } else if d == 14 { 'e' } else { 'f' }
}

/// Appends the decimal digits of `n`.
pub fn write_decimal(out: &mut Vec<char>, n: u64)
    ensures
        final(out)@ == old(out)@ + decimal(n as nat),
    decreases n,
{
    if n >= 10 {
        write_decimal(out, n / 10);
    }
    out.push(digit(n % 10));
}

/// The decimal text of `n`.
pub fn u64_text(n: u64) -> (r: String)
    ensures
        r@ == decimal(n as nat),
{
    let mut out: Vec<char> = Vec::new();
    write_decimal(&mut out, n);
    string_of(out.as_slice())
}

fn write_escape_char(out: &mut Vec<char>, c: char)
    ensures
        final(out)@ == old(out)@ + escape_char(c),
{
    if c == '"' {
        out.push('\\');
        out.push('"');
    } else if c == '\\' {
        out.push('\\');
        out.push('\\');
    } else if c == '\n' {
        out.push('\\');
        out.push('n');
    } else if c == '\r' {
        out.push('\\');
        out.push('r');
    } else if c == '\t' {
        out.push('\\');
        out.push('t');
    } else if c as u32 == 8 {
        out.push('\\');
        out.push('b');
    } else if c as u32 == 12 {
        out.push('\\');
        out.push('f');
    } else if (c as u32) < 32 {
        let v = c as u32;
        out.push('\\');
        out.push('u');
        out.push('0');
        out.push('0');
        out.push(digit((v / 16) as u64));
        out.push(digit((v % 16) as u64));
    } else {
        out.push(c);
    }
}

/// Appends `s` as a JSON string literal.
pub fn write_quoted(out: &mut Vec<char>, s: &str)
    ensures
        final(out)@ == old(out)@ + quoted(s@),
{
    let cs = chars_of(s);
    let ghost start = out@;
    out.push('"');
    let mut i: usize = 0;
    while i < cs.len()
        invariant
            i <= cs.len(),
            cs@ == s@,
            out@ == start + seq!['"'] + escaped(cs@, i as nat),
        decreases cs.len() - i,
    {
        write_escape_char(out, cs[i]);
        i += 1;
    }
    out.push('"');
}

fn write_number(out: &mut Vec<char>, n: &JsonNumber)
    ensures
        final(out)@ == old(out)@ + number_text(n@),
{
    match n {
        JsonNumber::PosInt(u) => write_decimal(out, *u),
        JsonNumber::NegInt(i) => {
            if *i < 0 {
                out.push('-');
                let m: u64 = if *i == i64::MIN {
                    9223372036854775808u64
                } else {
                    (-*i) as u64
                };
                write_decimal(out, m);
            } else {
                write_decimal(out, *i as u64);
            }
        },
        JsonNumber::Float(t) => {
            let cs = chars_of(t.as_str());
            let mut k: usize = 0;
            let ghost start = out@;
            while k < cs.len()
                invariant
                    k <= cs.len(),
                    out@ == start + cs@.take(k as int),
                decreases cs.len() - k,
            {
                out.push(cs[k]);
                k += 1;
                assert(cs@.take(k as int) == cs@.take((k - 1) as int).push(cs@[k - 1]));
            }
            assert(cs@.take(cs.len() as int) == cs@);
        },
    }
}

fn write_indent(out: &mut Vec<char>, depth: usize)
    ensures
        final(out)@ == old(out)@ + indent(depth as nat),
{
    let ghost start = out@;
    let mut k: usize = 0;
    while k < depth
        invariant
            k <= depth,
            out@ == start + Seq::new(2 * (k as nat), |i: int| ' '),
        decreases depth - k,
    {
        out.push(' ');
        out.push(' ');
        k += 1;
        assert(out@ == start + Seq::new(2 * (k as nat), |i: int| ' '));
    }
}

fn write_item_sep(out: &mut Vec<char>, n: usize, pretty: bool, depth: usize)
    ensures
        final(out)@ == old(out)@ + item_sep(n as nat, pretty, depth as nat),
{
    if pretty {
        if n > 0 {
            out.push(',');
        }
        out.push('\n');
        write_indent(out, depth);
    } else if n > 0 {
        out.push(',');
    }
}

fn write_close_sep(out: &mut Vec<char>, pretty: bool, depth: usize)
    ensures
        final(out)@ == old(out)@ + close_sep(pretty, depth as nat),
{
    if pretty {
        out.push('\n');
        write_indent(out, depth);
    }
}

pub open spec fn member_views(v: Seq<(String, Json)>) -> Seq<(Seq<char>, JsonV)> {
    Seq::new(v.len(), |i: int| (v[i].0@, v[i].1@))
}

pub proof fn lemma_array_view(v: Vec<Json>)
    ensures
        Json::Array(v)@ == JsonV::Arr(views(v@)),
{
    let ys = match json_view(Json::Array(v)) {
        JsonV::Arr(ys) => ys,
        _ => Seq::empty(),
    };
    assert(ys =~= views(v@));
}

pub proof fn lemma_object_view(v: Vec<(String, Json)>)
    ensures
        Json::Object(v)@ == JsonV::Obj(member_views(v@)),
{
    let ys = match json_view(Json::Object(v)) {
        JsonV::Obj(ys) => ys,
        _ => Seq::empty(),
    };
    assert(ys =~= member_views(v@));
}

/// Appends the text of `j`, at nesting level `depth` when `pretty`.
pub fn write_json(out: &mut Vec<char>, j: &Json, pretty: bool, depth: usize)
    requires
        pretty ==> depth + nesting(j@) < usize::MAX,
        !pretty ==> depth == 0,
    ensures
        final(out)@ == old(out)@ + render(j@, pretty, depth as nat),
    decreases j, 1nat,
{
    match j {
        Json::Null => {
            out.push('n');
            out.push('u');
            out.push('l');
            out.push('l');
        },
        Json::Bool(b) => {
            if *b {
                out.push('t');
                out.push('r');
                out.push('u');
                out.push('e');
            } else {
                out.push('f');
                out.push('a');
                out.push('l');
                out.push('s');
                out.push('e');
            }
        },
        Json::Number(n) => write_number(out, n),
        Json::Str(s) => write_quoted(out, s.as_str()),
        Json::Array(v) => {
            proof {
                lemma_array_view(*v);
                assert(decreases_to!(*j => (*j)->Array_0));
            }
            write_array(out, v, pretty, depth);
        },
        Json::Object(v) => {
            proof {
                lemma_object_view(*v);
                assert(decreases_to!(*j => (*j)->Object_0));
            }
            write_object(out, v, pretty, depth);
        },
    }
}

fn write_array(out: &mut Vec<char>, v: &Vec<Json>, pretty: bool, depth: usize)
    requires
        pretty ==> depth + nesting(JsonV::Arr(views(v@))) < usize::MAX,
        !pretty ==> depth == 0,
    ensures
        final(out)@ == old(out)@ + render(JsonV::Arr(views(v@)), pretty, depth as nat),
    decreases v, 0nat,
{
    let ghost xs = views(v@);
    if v.len() == 0 {
        out.push('[');
        out.push(']');
    } else {
        let inner: usize = if pretty { depth + 1 } else { 0 };
        let ghost start = out@;
        out.push('[');
        let mut i: usize = 0;
        while i < v.len()
            invariant
                i <= v.len(),
                xs == views(v@),
                pretty ==> depth + nesting(JsonV::Arr(xs)) < usize::MAX,
                pretty ==> inner == depth + 1,
                !pretty ==> inner == 0,
                out@ == start + seq!['['] + render_items(xs, i as nat, pretty, inner as nat),
            decreases v.len() - i,
        {
            proof {
                lemma_items_nesting(xs, xs.len(), i as int);
                assert(decreases_to!(*v => v@[i as int]));
            }
            write_item_sep(out, i, pretty, inner);
            write_json(out, &v[i], pretty, inner);
            i += 1;
        }
        write_close_sep(out, pretty, depth);
        out.push(']');
        proof {
            if !pretty {
                lemma_compact_items(xs, xs.len(), 0);
                lemma_compact_items(xs, xs.len(), depth as nat + 1);
            }
        }
    }
}

#[verifier::rlimit(40)]
fn write_object(out: &mut Vec<char>, v: &Vec<(String, Json)>, pretty: bool, depth: usize)
    requires
        pretty ==> depth + nesting(JsonV::Obj(member_views(v@))) < usize::MAX,
        !pretty ==> depth == 0,
    ensures
        final(out)@ == old(out)@ + render(JsonV::Obj(member_views(v@)), pretty, depth as nat),
    decreases v, 0nat,
{
    let ghost es = member_views(v@);
    if v.len() == 0 {
        out.push('{');
        out.push('}');
    } else {
        let inner: usize = if pretty { depth + 1 } else { 0 };
        let ghost start = out@;
        out.push('{');
        let mut i: usize = 0;
        while i < v.len()
            invariant
                i <= v.len(),
                es == member_views(v@),
                pretty ==> depth + nesting(JsonV::Obj(es)) < usize::MAX,
                pretty ==> inner == depth + 1,
                !pretty ==> inner == 0,
                out@ == start + seq!['{'] + render_members(es, i as nat, pretty, inner as nat),
            decreases v.len() - i,
        {
            proof {
                lemma_members_nesting(es, es.len(), i as int);
                assert(decreases_to!(*v => v@[i as int]));
                assert(decreases_to!(v@[i as int] => v@[i as int].1));
                assert(render_member_value(es[i as int], pretty, inner as nat) == render(
                    es[i as int].1,
                    pretty,
                    inner as nat,
                ));
            }
            write_item_sep(out, i, pretty, inner);
            write_quoted(out, v[i].0.as_str());
            out.push(':');
            if pretty {
                out.push(' ');
            }
            write_json(out, &v[i].1, pretty, inner);
            i += 1;
        }
        write_close_sep(out, pretty, depth);
        out.push('}');
        proof {
            if !pretty {
                lemma_compact_members(es, es.len(), 0);
                lemma_compact_members(es, es.len(), depth as nat + 1);
            }
        }
    }
}


pub open spec fn str_opt(o: Option<&String>) -> Option<Seq<char>> {
    match o {
        Some(s) => Some(s@),
        None => None,
    }
}

pub open spec fn string_opt(o: Option<String>) -> Option<Seq<char>> {
    match o {
        Some(s) => Some(s@),
        None => None,
    }
}

/// The member `k` of an object is the first entry named `k`.
pub proof fn lemma_lookup_at(es: Seq<(Seq<char>, JsonV)>, k: Seq<char>, i: int)
    requires
        0 <= i < es.len(),
        es[i].0 == k,
        forall|j: int| 0 <= j < i ==> es[j].0 != k,
    ensures
        lookup(es, k) == Some(es[i].1),
    decreases i,
{
    if i > 0 {
        let t = es.subrange(1, es.len() as int);
        assert forall|j: int| 0 <= j < i - 1 implies t[j].0 != k by {
            assert(t[j] == es[j + 1]);
        }
        lemma_lookup_at(t, k, i - 1);
        assert(t[i - 1] == es[i]);
    }
}

proof fn lemma_lookup_step(es: Seq<(Seq<char>, JsonV)>, k: Seq<char>, i: int)
    requires
        0 <= i < es.len(),
        es[i].0 != k,
    ensures
        lookup(es.subrange(i, es.len() as int), k) == lookup(es.subrange(i + 1, es.len() as int), k),
{
    let t = es.subrange(i, es.len() as int);
    assert(t.subrange(1, t.len() as int) =~= es.subrange(i + 1, es.len() as int));
}


/// The first of `keys` whose member is a string, as that string.
pub open spec fn first_string(v: JsonV, keys: Seq<Seq<char>>) -> Option<Seq<char>>
    decreases keys.len(),
{
    if keys.len() == 0 {
        None
    } else {
        match as_str_opt(get(v, keys[0])) {
            Some(s) => Some(s),
            None => first_string(v, keys.subrange(1, keys.len() as int)),
        }
    }
}

pub open spec fn key_views(keys: Seq<&str>) -> Seq<Seq<char>> {
    Seq::new(keys.len(), |i: int| keys[i]@)
}

/// The first of `keys` whose member is a string, as that string.
pub fn first_string_of(value: &Json, keys: &Vec<&str>) -> (r: Option<String>)
    ensures
        string_opt(r) == first_string(value@, key_views(keys@)),
{
    let ghost ks = key_views(keys@);
    assert(ks.subrange(0, ks.len() as int) =~= ks);
    let mut i: usize = 0;
    while i < keys.len()
        invariant
            i <= keys.len(),
            ks == key_views(keys@),
            first_string(value@, ks) == first_string(value@, ks.subrange(i as int, ks.len() as int)),
        decreases keys.len() - i,
    {
        let ghost t = ks.subrange(i as int, ks.len() as int);
        assert(t[0] == keys@[i as int]@);
        assert(t.subrange(1, t.len() as int) =~= ks.subrange(i + 1, ks.len() as int));
        match value.get(keys[i]) {
            Some(v) => match v.as_str() {
                Some(s) => {
                    return Some(s.clone());
                },
                None => {},
            },
            None => {},
        }
        i += 1;
    }
    None
}

/// The string items of an array, skipping the others.
pub open spec fn string_items(xs: Seq<JsonV>) -> Seq<Seq<char>>
    decreases xs.len(),
{
    if xs.len() == 0 {
        Seq::empty()
    } else {
        let rest = string_items(xs.subrange(0, xs.len() - 1));
        match as_str(xs[xs.len() - 1]) {
            Some(s) => rest.push(s),
            None => rest,
        }
    }
}

/// `value.as_array()` mapped to its string items, empty when there is no array.
pub open spec fn string_array(v: Option<JsonV>) -> Seq<Seq<char>> {
    match as_arr_opt(v) {
        Some(xs) => string_items(xs),
        None => Seq::empty(),
    }
}

pub fn string_array_of(v: Option<&Json>) -> (r: Vec<String>)
    ensures
        str_views(r@) == string_array(view_opt(v)),
{
    let mut out: Vec<String> = Vec::new();
    match v {
        Some(v) => match v.as_array() {
            Some(items) => {
                let ghost xs = views(items@);
                let mut i: usize = 0;
                while i < items.len()
                    invariant
                        i <= items.len(),
                        xs == views(items@),
                        str_views(out@) == string_items(xs.subrange(0, i as int)),
                    decreases items.len() - i,
                {
                    let ghost before = out@;
                    assert(xs.subrange(0, i + 1).subrange(0, i as int) =~= xs.subrange(0, i as int));
                    match items[i].as_str() {
                        Some(s) => {
                            out.push(s.clone());
                            assert(str_views(out@) =~= str_views(before).push(s@));
                        },
                        None => {},
                    }
                    i += 1;
                }
                assert(xs.subrange(0, xs.len() as int) =~= xs);
            },
            None => {},
        },
        None => {},
    }
    assert(str_views(Seq::<String>::empty()) =~= Seq::<Seq<char>>::empty());
    out
}

/// An object with one member.
pub fn obj1(k1: &str, v1: Json) -> (r: Json)
    ensures
        r@ == JsonV::Obj(seq![(k1@, v1@)]),
{
    let ghost w1 = v1@;
    let e = vec![(String::from_str(k1), v1)];
    assert(member_views(e@) =~= seq![(k1@, w1)]);
    proof {
        lemma_object_view(e);
    }
    Json::Object(e)
}

/// An object with two members, in this order.
pub fn obj2(k1: &str, v1: Json, k2: &str, v2: Json) -> (r: Json)
    ensures
        r@ == JsonV::Obj(seq![(k1@, v1@), (k2@, v2@)]),
{
    let ghost w = (v1@, v2@);
    let e = vec![(String::from_str(k1), v1), (String::from_str(k2), v2)];
    assert(member_views(e@) =~= seq![(k1@, w.0), (k2@, w.1)]);
    proof {
        lemma_object_view(e);
    }
    Json::Object(e)
}

/// An object with three members, in this order.
pub fn obj3(k1: &str, v1: Json, k2: &str, v2: Json, k3: &str, v3: Json) -> (r: Json)
    ensures
        r@ == JsonV::Obj(seq![(k1@, v1@), (k2@, v2@), (k3@, v3@)]),
{
    let ghost w = (v1@, v2@, v3@);
    let e = vec![(String::from_str(k1), v1), (String::from_str(k2), v2), (String::from_str(k3), v3)];
    assert(member_views(e@) =~= seq![(k1@, w.0), (k2@, w.1), (k3@, w.2)]);
    proof {
        lemma_object_view(e);
    }
    Json::Object(e)
}

/// An object with four members, in this order.
pub fn obj4(k1: &str, v1: Json, k2: &str, v2: Json, k3: &str, v3: Json, k4: &str, v4: Json) -> (r:
    Json)
    ensures
        r@ == JsonV::Obj(seq![(k1@, v1@), (k2@, v2@), (k3@, v3@), (k4@, v4@)]),
{
    let ghost w = (v1@, v2@, v3@, v4@);
    let e = vec![
        (String::from_str(k1), v1),
        (String::from_str(k2), v2),
        (String::from_str(k3), v3),
        (String::from_str(k4), v4),
    ];
    assert(member_views(e@) =~= seq![(k1@, w.0), (k2@, w.1), (k3@, w.2), (k4@, w.3)]);
    proof {
        lemma_object_view(e);
    }
    Json::Object(e)
}

/// An array of the given items.
pub fn arr(items: Vec<Json>) -> (r: Json)
    ensures
        r@ == JsonV::Arr(views(items@)),
{
    proof {
        lemma_array_view(items);
    }
    Json::Array(items)
}

/// An array of strings.
pub fn string_list(items: &Vec<String>) -> (r: Json)
    ensures
        r@ == JsonV::Arr(Seq::new(items@.len(), |i: int| JsonV::Str(items@[i]@))),
{
    let mut out: Vec<Json> = Vec::new();
    let mut i: usize = 0;
    while i < items.len()
        invariant
            i <= items.len(),
            out.len() == i,
            views(out@) =~= Seq::new(i as nat, |k: int| JsonV::Str(items@[k]@)),
        decreases items.len() - i,
    {
        let ghost before = out@;
        out.push(Json::string(items[i].as_str()));
        proof {
            assert forall|k: int| 0 <= k < i implies out@[k]@ == JsonV::Str(items@[k]@) by {
                assert(out@[k] == before[k]);
                assert(views(before)[k] == JsonV::Str(items@[k]@));
            }
        }
        i += 1;
    }
    arr(out)
}

pub fn num_u64(n: u64) -> (r: Json)
    ensures
        r@ == JsonV::Num(NumV::PosInt(n)),
{
    Json::Number(JsonNumber::PosInt(n))
}

/// The JSON number holding `n`, as the parser would produce it.
pub fn num_i64(n: i64) -> (r: Json)
    ensures
        r@ == int_value(n as int),
{
    if n < 0 {
        Json::Number(JsonNumber::NegInt(n))
    } else {
        Json::Number(JsonNumber::PosInt(n as u64))
    }
}

pub open spec fn int_value(n: int) -> JsonV {
    if n < 0 {
        JsonV::Num(NumV::NegInt(n as i64))
    } else {
        JsonV::Num(NumV::PosInt(n as u64))
    }
}


impl Json {
    /// `value.get(key)`.
    pub fn get(&self, key: &str) -> (r: Option<&Json>)
        ensures
            view_opt(r) == get(self@, key@),
    {
        match self {
            Json::Object(v) => {
                proof {
                    lemma_object_view(*v);
                }
                let ghost es = member_views(v@);
                assert(es.subrange(0, es.len() as int) =~= es);
                let mut i: usize = 0;
                while i < v.len()
                    invariant
                        i <= v.len(),
                        es == member_views(v@),
                        self@ == JsonV::Obj(es),
                        lookup(es, key@) == lookup(es.subrange(i as int, es.len() as int), key@),
                    decreases v.len() - i,
                {
                    if same_text(v[i].0.as_str(), key) {
                        proof {
                            let t = es.subrange(i as int, es.len() as int);
                            assert(t[0] == es[i as int]);
                        }
                        return Some(&v[i].1);
                    }
                    proof {
                        lemma_lookup_step(es, key@, i as int);
                    }
                    i += 1;
                }
                None
            },
            _ => None,
        }
    }

    /// `value.as_str()`.
    pub fn as_str(&self) -> (r: Option<&String>)
        ensures
            str_opt(r) == as_str(self@),
    {
        match self {
            Json::Str(s) => Some(s),
            _ => None,
        }
    }

    /// `value.as_array()`.
    pub fn as_array(&self) -> (r: Option<&Vec<Json>>)
        ensures
            match r {
                Some(v) => as_arr(self@) == Some(views(v@)),
                None => as_arr(self@) is None,
            },
    {
        match self {
            Json::Array(v) => {
                proof {
                    lemma_array_view(*v);
                }
                Some(v)
            },
            _ => None,
        }
    }

    /// The members of an object.
    pub fn as_object(&self) -> (r: Option<&Vec<(String, Json)>>)
        ensures
            match r {
                Some(v) => self@ == JsonV::Obj(member_views(v@)),
                None => !(self@ is Obj),
            },
    {
        match self {
            Json::Object(v) => {
                proof {
                    lemma_object_view(*v);
                }
                Some(v)
            },
            _ => None,
        }
    }

    /// `value.as_u64()`.
    pub fn as_u64(&self) -> (r: Option<u64>)
        ensures
            r == as_u64(self@),
    {
        match self {
            Json::Number(JsonNumber::PosInt(u)) => Some(*u),
            _ => None,
        }
    }

    /// `value.as_i64()`.
    pub fn as_i64(&self) -> (r: Option<i64>)
        ensures
            r == as_i64(self@),
    {
        match self {
            Json::Number(JsonNumber::PosInt(u)) => {
                if *u <= 9223372036854775807u64 {
                    Some(*u as i64)
                } else {
                    None
                }
            },
            Json::Number(JsonNumber::NegInt(i)) => Some(*i),
            _ => None,
        }
    }

    /// `value.as_bool()`.
    pub fn as_bool(&self) -> (r: Option<bool>)
        ensures
            r == as_bool(self@),
    {
        match self {
            Json::Bool(b) => Some(*b),
            _ => None,
        }
    }

    pub fn is_null(&self) -> (r: bool)
        ensures
            r == (self@ is Null),
    {
        match self {
            Json::Null => true,
            _ => false,
        }
    }

    /// A string value holding `s`.
    pub fn string(s: &str) -> (r: Json)
        ensures
            r@ == JsonV::Str(s@),
    {
        Json::Str(String::from_str(s))
    }

    /// A copy of this document.
    pub fn copy(&self) -> (r: Json)
        ensures
            r@ == self@,
        decreases self,
    {
        match self {
            Json::Null => Json::Null,
            Json::Bool(b) => Json::Bool(*b),
            Json::Number(n) => Json::Number(
                match n {
                    JsonNumber::PosInt(u) => JsonNumber::PosInt(*u),
                    JsonNumber::NegInt(i) => JsonNumber::NegInt(*i),
                    JsonNumber::Float(t) => JsonNumber::Float(t.clone()),
                },
            ),
            Json::Str(s) => Json::Str(s.clone()),
            Json::Array(v) => {
                let mut out: Vec<Json> = Vec::new();
                let mut i: usize = 0;
                while i < v.len()
                    invariant
                        i <= v.len(),
                        *self == Json::Array(*v),
                        out.len() == i,
                        views(out@) == views(v@).take(i as int),
                    decreases v.len() - i,
                {
                    proof {
                        assert(decreases_to!(*self => (*self)->Array_0));
                        assert(decreases_to!(*v => v@[i as int]));
                    }
                    let ghost before = out@;
                    let x = v[i].copy();
                    out.push(x);
                    proof {
                        assert forall|k: int| 0 <= k < i implies #[trigger] out@[k]@ == v@[k]@ by {
                            assert(out@[k] == before[k]);
                            assert(views(before)[k] == views(v@).take(i as int)[k]);
                        }
                    }
                    i += 1;
                    assert(views(out@) =~= views(v@).take(i as int));
                }
                assert(views(v@).take(v.len() as int) =~= views(v@));
                proof {
                    lemma_array_view(*v);
                    lemma_array_view(out);
                }
                Json::Array(out)
            },
            Json::Object(v) => {
                let mut out: Vec<(String, Json)> = Vec::new();
                let mut i: usize = 0;
                while i < v.len()
                    invariant
                        i <= v.len(),
                        *self == Json::Object(*v),
                        out.len() == i,
                        member_views(out@) == member_views(v@).take(i as int),
                    decreases v.len() - i,
                {
                    proof {
                        assert(decreases_to!(*self => (*self)->Object_0));
                        assert(decreases_to!(*v => v@[i as int]));
                        assert(decreases_to!(v@[i as int] => v@[i as int].1));
                    }
                    let k = v[i].0.clone();
                    let x = v[i].1.copy();
                    let ghost before = out@;
                    out.push((k, x));
                    proof {
                        assert forall|m: int| 0 <= m < i implies #[trigger] out@[m].0@ == v@[m].0@
                            && out@[m].1@ == v@[m].1@ by {
                            assert(out@[m] == before[m]);
                            assert(member_views(before)[m] == member_views(v@).take(i as int)[m]);
                        }
                    }
                    i += 1;
                    assert(member_views(out@) =~= member_views(v@).take(i as int));
                }
                assert(member_views(v@).take(v.len() as int) =~= member_views(v@));
                proof {
                    lemma_object_view(*v);
                    lemma_object_view(out);
                }
                Json::Object(out)
            },
        }
    }

    /// The compact JSON text of this document.
    pub fn to_text(&self) -> (r: String)
        ensures
            r@ == json_text(self@),
    {
        let mut out: Vec<char> = Vec::new();
        write_json(&mut out, self, false, 0);
        string_of(out.as_slice())
    }

    /// The pretty-printed JSON text of this document: two spaces of indent
    /// per level, as `serde_json::to_string_pretty` writes it.
    pub fn to_pretty_text(&self) -> (r: String)
        requires
            nesting(self@) < usize::MAX,
        ensures
            r@ == json_pretty_text(self@),
    {
        let mut out: Vec<char> = Vec::new();
        write_json(&mut out, self, true, 0);
        string_of(out.as_slice())
    }
}

} // verus!
