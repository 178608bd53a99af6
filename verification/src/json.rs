//! JSON documents as values.
use vstd::prelude::*;

use crate::table;
use crate::text;

verus! {

/// A JSON value. The members of an object stand in the order in which they are written.
pub enum Json {
    Null,
    Bool(bool),
    Num(i64),
    /// A number that is no `i64`.
    Real,
    Str(String),
    Arr(Vec<Json>),
    Obj(Vec<(String, Json)>),
}

pub enum JsonView {
    Null,
    Bool(bool),
    Num(int),
    Real,
    Str(Seq<char>),
    Arr(Seq<JsonView>),
    Obj(Seq<(Seq<char>, JsonView)>),
}

impl View for Json {
    type V = JsonView;

    open spec fn view(&self) -> JsonView
        decreases self,
    {
        match *self {
            Json::Null => JsonView::Null,
            Json::Bool(b) => JsonView::Bool(b),
            Json::Num(n) => JsonView::Num(n as int),
            Json::Real => JsonView::Real,
            Json::Str(s) => JsonView::Str(s@),
            Json::Arr(v) => JsonView::Arr(
                Seq::new(
                    v@.len(),
                    |i: int|
                        if 0 <= i < v@.len() {
                            v@[i].view()
                        } else {
                            JsonView::Null
                        },
                ),
            ),
            Json::Obj(v) => JsonView::Obj(
                Seq::new(v@.len(), |i: int| v@[i].0@).zip_with(
                    Seq::new(
                        v@.len(),
                        |i: int|
                            if 0 <= i < v@.len() {
                                v@[i].1.view()
                            } else {
                                JsonView::Null
                            },
                    ),
                ),
            ),
        }
    }
}

/// The values of a list.
pub open spec fn items(v: Seq<Json>) -> Seq<JsonView> {
    Seq::new(v.len(), |i: int| v[i]@)
}

/// The members of an object.
pub open spec fn members(v: Seq<(String, Json)>) -> Seq<(Seq<char>, JsonView)> {
    Seq::new(v.len(), |i: int| (v[i].0@, v[i].1@))
}

/// The member of an object under a key.
pub open spec fn field(j: JsonView, k: Seq<char>) -> Option<JsonView> {
    match j {
        JsonView::Obj(m) => table::lookup(m, k),
        _ => None,
    }
}

proof fn lemma_object_view(j: Json)
    requires
        j is Obj,
    ensures
        j@ == JsonView::Obj(members(j->Obj_0@)),
{
    let v = j->Obj_0;
    assert(j@ is Obj);
    let w = j@->Obj_0;
    assert(w.len() == v@.len());
    let m = members(v@);
    assert forall|i: int| 0 <= i < w.len() implies w[i] == m[i] by {
        assert(w[i].0 == v@[i].0@);
        assert(w[i].1 == v@[i].1@);
    }
    assert(w =~= m);
}

pub open spec fn text_of(j: Option<JsonView>) -> Option<Seq<char>> {
    match j {
        Some(JsonView::Str(s)) => Some(s),
        _ => None,
    }
}

pub open spec fn flag_of(j: Option<JsonView>) -> Option<bool> {
    match j {
        Some(JsonView::Bool(b)) => Some(b),
        _ => None,
    }
}

pub open spec fn number_of(j: Option<JsonView>) -> Option<int> {
    match j {
        Some(JsonView::Num(n)) => Some(n),
        _ => None,
    }
}

/// The values of an array; none where the value is no array.
pub open spec fn list_of(j: Option<JsonView>) -> Seq<JsonView> {
    match j {
        Some(JsonView::Arr(v)) => v,
        _ => Seq::empty(),
    }
}

/// The members of an object; none where the value is no object.
pub open spec fn object_of(j: Option<JsonView>) -> Seq<(Seq<char>, JsonView)> {
    match j {
        Some(JsonView::Obj(v)) => v,
        _ => Seq::empty(),
    }
}

pub open spec fn opt_json(j: Option<&Json>) -> Option<JsonView> {
    match j {
        Some(x) => Some(x@),
        None => None,
    }
}

pub fn get<'a>(j: &'a Json, k: &str) -> (r: Option<&'a Json>)
    ensures
        opt_json(r) == field(j@, k@),
{
    match j {
        Json::Obj(v) => {
            let mut i: usize = 0;
            let ghost m = members(v@);
            proof {
                lemma_object_view(*j);
            }
            assert(m.skip(0) =~= m);
            while i < v.len()
                invariant
                    i <= v@.len(),
                    m == members(v@),
                    field(j@, k@) == table::lookup(m, k@),
                    table::lookup(m, k@) == table::lookup(m.skip(i as int), k@),
                decreases v@.len() - i,
            {
                assert(m.skip(i as int)[0] == m[i as int]);
                assert(m.skip(i as int).skip(1) =~= m.skip(i + 1));
                if text::same(v[i].0.as_str(), k) {
                    return Some(&v[i].1);
                }
                i += 1;
            }
            None
        },
        _ => None,
    }
}

pub fn as_text<'a>(j: Option<&'a Json>) -> (r: Option<&'a str>)
    ensures
        crate::util::opt_view(r) == text_of(opt_json(j)),
{
    match j {
        Some(Json::Str(s)) => Some(s.as_str()),
        _ => None,
    }
}

pub fn as_flag(j: Option<&Json>) -> (r: Option<bool>)
    ensures
        r == flag_of(opt_json(j)),
{
    match j {
        Some(Json::Bool(b)) => Some(*b),
        _ => None,
    }
}

pub fn as_number(j: Option<&Json>) -> (r: Option<i64>)
    ensures
        r is Some == number_of(opt_json(j)) is Some,
        r matches Some(n) ==> number_of(opt_json(j)) == Some(n as int),
{
    match j {
        Some(Json::Num(n)) => Some(*n),
        _ => None,
    }
}

pub fn as_list<'a>(j: Option<&'a Json>) -> (r: Option<&'a Vec<Json>>)
    ensures
        r matches Some(v) ==> items(v@) == list_of(opt_json(j)),
        r is None ==> list_of(opt_json(j)) == Seq::<JsonView>::empty(),
{
    match j {
        Some(x) => match x {
            Json::Arr(v) => {
                assert(x@->Arr_0 =~= items(v@));
                Some(v)
            },
            _ => None,
        },
        None => None,
    }
}

pub fn as_object<'a>(j: Option<&'a Json>) -> (r: Option<&'a Vec<(String, Json)>>)
    ensures
        r matches Some(v) ==> members(v@) == object_of(opt_json(j)),
        r is None ==> object_of(opt_json(j)) == Seq::<(Seq<char>, JsonView)>::empty(),
{
    match j {
        Some(x) => match x {
            Json::Obj(v) => {
                proof {
                    lemma_object_view(*x);
                }
                Some(v)
            },
            _ => None,
        },
        None => None,
    }
}

pub fn string(s: &str) -> (r: Json)
    ensures
        r@ == JsonView::Str(s@),
{
    Json::Str(s.to_owned())
}

pub fn object(m: Vec<(String, Json)>) -> (r: Json)
    ensures
        r@ == JsonView::Obj(members(m@)),
{
    let r: Json = Json::Obj(m);
    proof {
        lemma_object_view(r);
    }
    r
}

pub fn array(v: Vec<Json>) -> (r: Json)
    ensures
        r@ == JsonView::Arr(items(v@)),
{
    let r: Json = Json::Arr(v);
    assert(r@->Arr_0 =~= items(v@));
    r
}

/// An object without members.
pub fn no_members() -> (r: Vec<(String, Json)>)
    ensures
        members(r@) == Seq::<(Seq<char>, JsonView)>::empty(),
{
    let r: Vec<(String, Json)> = Vec::new();
    assert(members(r@) =~= Seq::<(Seq<char>, JsonView)>::empty());
    r
}

/// Append a member to an object.
pub fn member(m: &mut Vec<(String, Json)>, k: &str, v: Json)
    ensures
        members(final(m)@) == members(old(m)@).push((k@, v@)),
{
    m.push((k.to_owned(), v));
    assert(members(m@) =~= members(old(m)@).push((k@, v@)));
}

/// Append a value to an array.
pub fn item(a: &mut Vec<Json>, v: Json)
    ensures
        items(final(a)@) == items(old(a)@).push(v@),
{
    a.push(v);
    assert(items(a@) =~= items(old(a)@).push(v@));
}

// ---------------------------------------------------------------------------
// Reading and quoting
// ---------------------------------------------------------------------------

/// `serde_json::Value`, a parsed JSON document.
#[verifier::external_type_specification]
#[verifier::external_body]
pub struct ExValue(serde_json::Value);

/// What a parsed document holds.
pub uninterp spec fn json_of(v: serde_json::Value) -> JsonView;

/// The document that a text writes; `None` if it writes none.
pub uninterp spec fn json_text(s: Seq<char>) -> Option<JsonView>;

/// `serde_json::from_str` into a `serde_json::Value`: whether the text is a JSON document, and
/// which one, depends on the text alone.
#[verifier::external_body]
fn read(s: &str) -> (r: Option<serde_json::Value>)
    ensures
        r is Some == json_text(s@) is Some,
        r matches Some(v) ==> json_text(s@) == Some(json_of(v)),
{
    serde_json::from_str(s).ok()
}

/// The variants of `serde_json::Value`, one for one: `Number::as_i64` tells an `i64` from the
/// other numbers. The result holds what the document holds.
#[verifier::external_body]
fn plain(v: serde_json::Value) -> (r: Json)
    ensures
        r@ == json_of(v),
{
    match v {
        serde_json::Value::Null => Json::Null,
        serde_json::Value::Bool(b) => Json::Bool(b),
        serde_json::Value::Number(n) => n.as_i64().map_or(Json::Real, Json::Num),
        serde_json::Value::String(s) => Json::Str(s),
        serde_json::Value::Array(a) => Json::Arr(a.into_iter().map(plain).collect()),
        serde_json::Value::Object(o) => {
            Json::Obj(o.into_iter().map(|(k, x)| (k, plain(x))).collect())
        },
    }
}

/// Parse a JSON document.
pub fn parse(s: &str) -> (r: Option<Json>)
    ensures
        r is Some == json_text(s@) is Some,
        r matches Some(j) ==> json_text(s@) == Some(j@),
{
    match read(s) {
        Some(v) => Some(plain(v)),
        None => None,
    }
}

pub open spec fn hex_digit(n: int) -> char {
    if n < 10 {
        (0x30 + n) as char
    } else {
        (0x57 + n) as char
    }
}

/// A character inside a JSON string.
pub open spec fn escaped_char(c: char) -> Seq<char> {
    if c == '"' {
        seq!['\\', '"']
    } else if c == '\\' {
        seq!['\\', '\\']
    } else if c as u32 == 8 {
        seq!['\\', 'b']
    } else if c as u32 == 9 {
        seq!['\\', 't']
    } else if c as u32 == 10 {
        seq!['\\', 'n']
    } else if c as u32 == 12 {
        seq!['\\', 'f']
    } else if c as u32 == 13 {
        seq!['\\', 'r']
    } else if (c as u32) < 32 {
        seq!['\\', 'u', '0', '0', hex_digit(c as int / 16), hex_digit(c as int % 16)]
    } else {
        seq![c]
    }
}

pub open spec fn escaped(s: Seq<char>) -> Seq<char>
    decreases s.len(),
{
    if s.len() == 0 {
        Seq::empty()
    } else {
        escaped(s.drop_last()) + escaped_char(s.last())
    }
}

/// A text as a JSON string.
pub open spec fn json_string(s: Seq<char>) -> Seq<char> {
    seq!['"'] + escaped(s) + seq!['"']
}

/// `serde_json::to_string` of a string: the text in double quotes, with double quotes,
/// backslashes and control characters escaped, and every other character as it is.
#[verifier::external_body]
pub(crate) fn quote(s: &str) -> (r: String)
    ensures
        r@ == json_string(s@),
{
    serde_json::to_string(s).unwrap()
}

proof fn lemma_escaped_char(c: char)
    ensures
        escaped_char(c).len() > 0,
        forall|k: int| 0 <= k < escaped_char(c).len() ==> ' ' <= #[trigger] escaped_char(c)[k],
        forall|k: int|
            0 <= k < escaped_char(c).len() && #[trigger] escaped_char(c)[k] == '"' ==> k == 1
                && escaped_char(c)[0] == '\\',
{
    let x = escaped_char(c);
    let n = c as int;
    if n < 32 && n != 8 && n != 9 && n != 10 && n != 12 && n != 13 {
        let a = hex_digit(n / 16);
        let b = hex_digit(n % 16);
        assert(a == '0' || a == '1');
        assert('0' <= b <= 'f');
        assert(x =~= seq!['\\', 'u', '0', '0', a, b]);
        assert forall|k: int| 0 <= k < x.len() implies ' ' <= #[trigger] x[k] && x[k] != '"' by {
            if k == 4 {
                assert(x[k] == a);
            } else if k == 5 {
                assert(x[k] == b);
            }
        }
    } else if x.len() == 1 {
        assert(x =~= seq![c]);
    } else {
        assert(x.len() == 2);
    }
}

proof fn lemma_escaped_joins(a: Seq<char>, b: Seq<char>)
    ensures
        escaped(a + b) == escaped(a) + escaped(b),
    decreases b.len(),
{
    if b.len() == 0 {
        assert(a + b =~= a);
        assert(escaped(a) + escaped(b) =~= escaped(a));
    } else {
        lemma_escaped_joins(a, b.drop_last());
        assert((a + b).drop_last() =~= a + b.drop_last());
        assert(escaped(a + b) =~= escaped(a) + escaped(b));
    }
}

/// Each character of a text is written in its place: as it is, but for a quote, a backslash and the
/// control characters, which stand behind a backslash.
pub proof fn lemma_every_character_is_written(a: Seq<char>, c: char, b: Seq<char>)
    ensures
        c >= ' ' && c != '"' && c != '\\' ==> json_string(a.push(c) + b) == seq!['"'] + escaped(a)
            + seq![c] + escaped(b) + seq!['"'],
        c == '"' || c == '\\' ==> json_string(a.push(c) + b) == seq!['"'] + escaped(a) + seq![
            '\\',
            c,
        ] + escaped(b) + seq!['"'],
        c == '\n' ==> json_string(a.push(c) + b) == seq!['"'] + escaped(a) + seq!['\\', 'n']
            + escaped(b) + seq!['"'],
        c == '\t' ==> json_string(a.push(c) + b) == seq!['"'] + escaped(a) + seq!['\\', 't']
            + escaped(b) + seq!['"'],
        c == '\r' ==> json_string(a.push(c) + b) == seq!['"'] + escaped(a) + seq!['\\', 'r']
            + escaped(b) + seq!['"'],
        escaped(Seq::empty()).len() == 0,
{
    lemma_escaped_joins(a.push(c), b);
    assert(a.push(c).drop_last() =~= a);
    let all = json_string(a.push(c) + b);
    assert(all =~= seq!['"'] + escaped(a) + escaped_char(c) + escaped(b) + seq!['"']);
}

/// A JSON string holds no control character, and so no line break, and no bare double quote: each
/// `"` inside it follows a backslash.
pub proof fn lemma_escaped_is_one_line(s: Seq<char>)
    ensures
        forall|i: int| 0 <= i < escaped(s).len() ==> ' ' <= #[trigger] escaped(s)[i],
        forall|i: int|
            0 <= i < escaped(s).len() && #[trigger] escaped(s)[i] == '"' ==> i > 0 && escaped(s)[i
                - 1] == '\\',
    decreases s.len(),
{
    if s.len() > 0 {
        lemma_escaped_is_one_line(s.drop_last());
        lemma_escaped_char(s.last());
        let a = escaped(s.drop_last());
        let x = escaped_char(s.last());
        let e = escaped(s);
        assert forall|i: int| 0 <= i < e.len() implies ' ' <= #[trigger] e[i] by {
            if i < a.len() {
                assert(e[i] == a[i]);
            } else {
                assert(e[i] == x[i - a.len()]);
            }
        }
        assert forall|i: int| 0 <= i < e.len() && #[trigger] e[i] == '"' implies i > 0 && e[i - 1]
            == '\\' by {
            if i < a.len() {
                assert(e[i] == a[i]);
                assert(e[i - 1] == a[i - 1]);
            } else {
                assert(e[i] == x[i - a.len()]);
                assert(e[i - 1] == x[0]);
            }
        }
    }
}

} // verus!
