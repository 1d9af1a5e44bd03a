//! JSON documents as plain values.
//!
//! Reading and writing JSON text is serde_json's work; [`Json`] holds what it read
//! or is to write, and everything that looks into a document looks into that.
use vstd::prelude::*;
use vstd::string::*;
use crate::decimal::{decimal_text, normalized, not_finite};
use crate::text::{contains, dec, dec_int, dec_str, int_str, opt, str_eq, strs};

verus! {

/// A JSON value.
#[derive(Debug)]
pub enum Json {
    Null,
    Bool(bool),
    /// A number: its value where it is a whole number of 64 bits, and its numeral.
    Number(Option<i64>, String),
    Text(String),
    List(Vec<Json>),
    /// The members of an object, in the order in which serde_json walks them.
    Object(Vec<(String, Json)>),
}

/// A JSON value as text and numbers.
pub enum JsonView {
    Null,
    Bool(bool),
    Number(Option<i64>, Seq<char>),
    Text(Seq<char>),
    List(Seq<JsonView>),
    Object(Seq<(Seq<char>, JsonView)>),
}

impl Json {
    /// What a value holds.
    pub open spec fn shape(self) -> JsonView
        decreases self,
    {
        match self {
            Json::Null => JsonView::Null,
            Json::Bool(b) => JsonView::Bool(b),
            Json::Number(n, s) => JsonView::Number(n, s@),
            Json::Text(s) => JsonView::Text(s@),
            Json::List(v) => JsonView::List(
                Seq::new(
                    v@.len(),
                    |i: int|
                        if 0 <= i < v@.len() {
                            v@[i].shape()
                        } else {
                            JsonView::Null
                        },
                ),
            ),
            Json::Object(v) => JsonView::Object(
                Seq::new(
                    v@.len(),
                    |i: int|
                        if 0 <= i < v@.len() {
                            (v@[i].0@, v@[i].1.shape())
                        } else {
                            (Seq::empty(), JsonView::Null)
                        },
                ),
            ),
        }
    }
}

/// What an optional value holds.
pub open spec fn shape_of(o: Option<Json>) -> Option<JsonView> {
    match o {
        Some(j) => Some(j.shape()),
        None => None,
    }
}

/// The position of the first member with the key, or -1.
pub open spec fn member_at(m: Seq<(Seq<char>, JsonView)>, key: Seq<char>) -> int
    decreases m.len(),
{
    if m.len() == 0 {
        -1
    } else if member_at(m.drop_last(), key) >= 0 {
        member_at(m.drop_last(), key)
    } else if m.last().0 == key {
        m.len() - 1
    } else {
        -1
    }
}

/// The member of an object, or none.
pub open spec fn member(v: JsonView, key: Seq<char>) -> Option<JsonView> {
    match v {
        JsonView::Object(m) => if 0 <= member_at(m, key) < m.len() {
            Some(m[member_at(m, key)].1)
        } else {
            None
        },
        _ => None,
    }
}

/// The text of a value that is one.
pub open spec fn text_of(v: Option<JsonView>) -> Option<Seq<char>> {
    match v {
        Some(JsonView::Text(s)) => Some(s),
        _ => None,
    }
}

/// The text of a value that is one, or the empty text.
pub open spec fn text_or_empty(v: Option<JsonView>) -> Seq<char> {
    match text_of(v) {
        Some(s) => s,
        None => Seq::empty(),
    }
}

/// The number of a value that is a whole one.
pub open spec fn int_of(v: Option<JsonView>) -> Option<i64> {
    match v {
        Some(JsonView::Number(n, _)) => n,
        _ => None,
    }
}

pub open spec fn int_or_zero(v: Option<JsonView>) -> i64 {
    match int_of(v) {
        Some(n) => n,
        None => 0,
    }
}

/// The numeral of a value that is a number.
pub open spec fn numeral_of(v: Option<JsonView>) -> Option<Seq<char>> {
    match v {
        Some(JsonView::Number(_, s)) => Some(s),
        _ => None,
    }
}

/// The first member with a key is the one that is found.
pub proof fn lemma_member_at_is(m: Seq<(Seq<char>, JsonView)>, key: Seq<char>, i: int)
    requires
        0 <= i < m.len(),
        m[i].0 == key,
        forall|k: int| 0 <= k < i ==> (#[trigger] m[k]).0 != key,
    ensures
        member_at(m, key) == i,
    decreases m.len(),
{
    let init = m.drop_last();
    if i < init.len() {
        assert(init[i] == m[i]);
        assert forall|k: int| 0 <= k < i implies (#[trigger] init[k]).0 != key by {
            assert(init[k] == m[k]);
        }
        lemma_member_at_is(init, key, i);
    } else {
        assert forall|k: int| 0 <= k < init.len() implies (#[trigger] init[k]).0 != key by {
            assert(init[k] == m[k]);
        }
        lemma_member_at_none(init, key);
    }
}

/// No member has a key that none of them has.
pub proof fn lemma_member_at_none(m: Seq<(Seq<char>, JsonView)>, key: Seq<char>)
    requires
        forall|k: int| 0 <= k < m.len() ==> (#[trigger] m[k]).0 != key,
    ensures
        member_at(m, key) == -1,
    decreases m.len(),
{
    if m.len() > 0 {
        let init = m.drop_last();
        assert forall|k: int| 0 <= k < init.len() implies (#[trigger] init[k]).0 != key by {
            assert(init[k] == m[k]);
        }
        lemma_member_at_none(init, key);
        assert(m.last() == m[m.len() - 1]);
    }
}

impl Json {
    /// The member with the key, where the value is an object that has one.
    pub fn get(&self, key: &str) -> (r: Option<&Json>)
        ensures
            match r {
                Some(j) => member(self.shape(), key@) == Some(j.shape()),
                None => member(self.shape(), key@) is None,
            },
    {
        match self {
            Json::Object(m) => {
                let ghost view = self.shape()->Object_0;
                let mut i: usize = 0;
                while i < m.len()
                    invariant
                        i <= m.len(),
                        view.len() == m@.len(),
                        forall|k: int|
                            0 <= k < m@.len() ==> #[trigger] view[k] == (m@[k].0@, m@[k].1.shape()),
                        forall|k: int| 0 <= k < i ==> (#[trigger] view[k]).0 != key@,
                        self.shape() == JsonView::Object(view),
                    decreases m.len() - i,
                {
                    assert(view[i as int] == (m@[i as int].0@, m@[i as int].1.shape()));
                    if str_eq(m[i].0.as_str(), key) {
                        proof {
                            lemma_member_at_is(view, key@, i as int);
                        }
                        return Some(&m[i].1);
                    }
                    i += 1;
                }
                proof {
                    lemma_member_at_none(view, key@);
                }
                None
            },
            _ => None,
        }
    }

    /// The text, where the value is one.
    pub fn as_str(&self) -> (r: Option<&str>)
        ensures
            match r {
                Some(s) => text_of(Some(self.shape())) == Some(s@),
                None => text_of(Some(self.shape())) is None,
            },
    {
        match self {
            Json::Text(s) => Some(s.as_str()),
            _ => None,
        }
    }

    /// The number, where the value is a whole one.
    pub fn as_i64(&self) -> (r: Option<i64>)
        ensures
            r == int_of(Some(self.shape())),
    {
        match self {
            Json::Number(n, _) => *n,
            _ => None,
        }
    }

    /// A whole number.
    pub fn number(n: i64) -> (r: Json)
        ensures
            r.shape() == int_json(n),
    {
        Json::Number(Some(n), int_str(n))
    }

    /// A count.
    pub fn count(n: usize) -> (r: Json)
        ensures
            r.shape() == count_json(n as nat),
    {
        Json::unsigned(n as u64)
    }

    /// A number that is not negative.
    pub fn unsigned(n: u64) -> (r: Json)
        ensures
            r.shape() == count_json(n as nat),
    {
        if n <= i64::MAX as u64 {
            Json::Number(Some(n as i64), dec_str(n))
        } else {
            Json::Number(None, dec_str(n))
        }
    }

    /// A truth value.
    pub fn flag(b: bool) -> (r: Json)
        ensures
            r.shape() == JsonView::Bool(b),
    {
        Json::Bool(b)
    }

    /// A text.
    pub fn text(s: &str) -> (r: Json)
        ensures
            r.shape() == JsonView::Text(s@),
    {
        Json::Text(s.to_owned())
    }

    /// A list of texts.
    pub fn texts(v: &Vec<String>) -> (r: Json)
        ensures
            r.shape() == texts_json(strs(v@)),
    {
        let mut out: Vec<Json> = Vec::new();
        let mut i: usize = 0;
        while i < v.len()
            invariant
                i <= v.len(),
                out@.len() == i,
                forall|k: int| 0 <= k < i ==> (#[trigger] out@[k]).shape() == JsonView::Text(v@[k]@),
            decreases v.len() - i,
        {
            out.push(Json::Text(v[i].clone()));
            i += 1;
        }
        let r = Json::List(out);
        assert(r.shape()->List_0 =~= texts_json(strs(v@))->List_0);
        r
    }
}

/// A whole number as a JSON value.
pub open spec fn int_json(n: i64) -> JsonView {
    JsonView::Number(Some(n), dec_int(n as int))
}

/// A count as a JSON value.
pub open spec fn count_json(n: nat) -> JsonView {
    JsonView::Number(
        if n <= i64::MAX {
            Some(n as i64)
        } else {
            None
        },
        dec(n),
    )
}

/// A list of texts as a JSON value.
pub open spec fn texts_json(v: Seq<Seq<char>>) -> JsonView {
    JsonView::List(v.map_values(|s: Seq<char>| JsonView::Text(s)))
}

/// The member of an optional value, as an optional value.
pub fn get_in<'a>(v: Option<&'a Json>, key: &str) -> (r: Option<&'a Json>)
    ensures
        match v {
            Some(j) => match r {
                Some(m) => member(j.shape(), key@) == Some(m.shape()),
                None => member(j.shape(), key@) is None,
            },
            None => r is None,
        },
{
    match v {
        Some(j) => j.get(key),
        None => None,
    }
}

/// The text of a member, or the empty text.
pub fn text_at(j: &Json, key: &str) -> (r: String)
    ensures
        r@ == text_or_empty(member(j.shape(), key@)),
{
    match j.get(key) {
        Some(m) => match m.as_str() {
            Some(s) => s.to_owned(),
            None => String::new(),
        },
        None => String::new(),
    }
}

/// The whole number of a member, or 0.
pub fn int_at(j: &Json, key: &str) -> (r: i64)
    ensures
        r == int_or_zero(member(j.shape(), key@)),
{
    match j.get(key) {
        Some(m) => match m.as_i64() {
            Some(n) => n,
            None => 0,
        },
        None => 0,
    }
}

/// The numeral of a member that is a number.
pub fn numeral_at(j: &Json, key: &str) -> (r: Option<String>)
    ensures
        opt(r) == numeral_of(member(j.shape(), key@)),
{
    match j.get(key) {
        Some(Json::Number(_, s)) => Some(s.clone()),
        _ => None,
    }
}

// ── serde_json ───────────────────────────────────────────────────────────

/// `serde_json::Value`, carried between the two conversions below.
#[verifier::external_type_specification]
#[verifier::external_body]
pub struct ExValue(serde_json::Value);

/// What `serde_json::from_str` makes of a text: a value, or the words of its error.
pub uninterp spec fn json_read(text: Seq<char>) -> Result<JsonView, Seq<char>>;

/// The value that a text denotes, or none where it is not JSON.
pub open spec fn json_value(text: Seq<char>) -> Option<JsonView> {
    match json_read(text) {
        Ok(v) => Some(v),
        Err(_) => None,
    }
}

/// What the `Display` of a `serde_json::Value` writes: the compact form.
pub uninterp spec fn json_compact(v: JsonView) -> Seq<char>;

/// What `serde_json::to_string_pretty` writes.
pub uninterp spec fn json_pretty(v: JsonView) -> Seq<char>;

/// A `serde_json::Value` as a [`Json`], variant by variant. Nothing is claimed of
/// it: it only serves [`parse_json`].
#[verifier::external_body]
fn import(v: serde_json::Value) -> (r: Json) {
    match v {
        serde_json::Value::Null => Json::Null,
        serde_json::Value::Bool(b) => Json::Bool(b),
        serde_json::Value::Number(n) => Json::Number(n.as_i64(), n.to_string()),
        serde_json::Value::String(s) => Json::Text(s),
        serde_json::Value::Array(a) => Json::List(a.into_iter().map(import).collect()),
        serde_json::Value::Object(m) => Json::Object(
            m.into_iter().map(|(k, v)| (k, import(v))).collect(),
        ),
    }
}

/// A [`Json`] as a `serde_json::Value`, variant by variant; a numeral that
/// serde_json does not take becomes null. Nothing is claimed of it: it only serves
/// [`write_compact`] and [`write_pretty`].
#[verifier::external_body]
fn export(j: &Json) -> (r: serde_json::Value) {
    match j {
        Json::Null => serde_json::Value::Null,
        Json::Bool(b) => serde_json::Value::Bool(*b),
        Json::Number(Some(n), _) => serde_json::Value::from(*n),
        Json::Number(None, s) => serde_json::from_str::<serde_json::Number>(s)
            .map_or(serde_json::Value::Null, serde_json::Value::Number),
        Json::Text(s) => serde_json::Value::String(s.clone()),
        Json::List(v) => serde_json::Value::Array(v.iter().map(export).collect()),
        Json::Object(m) => serde_json::Value::Object(
            m.iter().map(|(k, v)| (k.clone(), export(v))).collect(),
        ),
    }
}

/// Whether no object in a value has a key twice, and whether its lists and objects
/// are nested no deeper than so many.
pub open spec fn tidy(v: JsonView, depth: nat) -> bool
    decreases depth,
{
    match v {
        JsonView::List(l) => {
            &&& depth > 0
            &&& forall|i: int| 0 <= i < l.len() ==> tidy(#[trigger] l[i], (depth - 1) as nat)
        },
        JsonView::Object(m) => {
            &&& depth > 0
            &&& forall|i: int| 0 <= i < m.len() ==> tidy((#[trigger] m[i]).1, (depth - 1) as nat)
            &&& forall|i: int, k: int|
                0 <= i < k < m.len() ==> (#[trigger] m[i]).0 != (#[trigger] m[k]).0
        },
        _ => true,
    }
}

/// Whether a number is shown by a numeral that, in plain digits, reads as the same
/// number.
pub open spec fn shown_again(v: JsonView) -> bool {
    match v {
        JsonView::Number(k, x) => {
            &&& k is None
            &&& normalized(x) is Some
            &&& json_value(decimal_text(normalized(x)->0)) == Some(v)
        },
        _ => true,
    }
}

/// A plain numeral of at most fifteen characters.
pub open spec fn is_short(n: Seq<char>) -> bool {
    n.len() <= 15 && normalized(n) == Some(n) && !not_finite(n)
}

/// Whether a value is a number that is shown by a numeral of the same digits.
pub open spec fn shows_as(v: JsonView, n: Seq<char>) -> bool {
    v is Number && normalized(v->Number_1) == Some(n)
}

/// How deep serde_json reads lists and objects inside one another.
pub open spec fn max_depth() -> nat {
    127
}

/// `serde_json::from_str`: the value that a text denotes, or the words of the error
/// where the text is not JSON. Which it is, the name [`json_read`] says. What was
/// read has no key twice in an object and is nested no deeper than serde_json goes.
/// A numeral with a point is read as the double nearest to it and shown by the
/// fewest digits that give that double again: in plain digits these read as the same
/// number, and a plain numeral of at most fifteen characters is shown by its own.
#[verifier::external_body]
pub(crate) fn parse_json(text: &str) -> (r: Result<Json, String>)
    ensures
        match r {
            Ok(j) => json_read(text@) == Ok::<JsonView, Seq<char>>(j.shape()),
            Err(e) => json_read(text@) == Err::<JsonView, Seq<char>>(e@),
        },
        r matches Ok(j) ==> tidy(j.shape(), max_depth()),
        r matches Ok(j) ==> text@.contains('.') ==> shown_again(j.shape()),
        forall|n: Seq<char>|
            text@ == #[trigger] decimal_text(n) && is_short(n) ==> r is Ok && shows_as(
                r->Ok_0.shape(),
                n,
            ),
{
    serde_json::from_str::<serde_json::Value>(text).map(import).map_err(|e| e.to_string())
}

/// The value that a text denotes.
pub fn read_json(text: &str) -> (r: Option<Json>)
    ensures
        match r {
            Some(j) => json_value(text@) == Some(j.shape()),
            None => json_value(text@) is None,
        },
{
    match parse_json(text) {
        Ok(j) => Some(j),
        Err(_) => None,
    }
}

/// A null, a truth value, a number or a text.
pub open spec fn is_scalar(v: JsonView) -> bool {
    !(v is List) && !(v is Object)
}

/// An object of scalars and of lists of scalars, no key of which stands twice.
pub open spec fn is_record(v: JsonView) -> bool {
    match v {
        JsonView::Object(m) => {
            &&& forall|i: int|
                0 <= i < m.len() ==> match (#[trigger] m[i]).1 {
                    JsonView::List(l) => forall|k: int| 0 <= k < l.len() ==> is_scalar(#[trigger] l[k]),
                    JsonView::Object(_) => false,
                    _ => true,
                }
            &&& forall|i: int, k: int|
                0 <= i < k < m.len() ==> (#[trigger] m[i]).0 != (#[trigger] m[k]).0
        },
        _ => false,
    }
}

/// A text that JSON writes as it is: small letters alone.
pub open spec fn is_plain(s: Seq<char>) -> bool {
    forall|i: int| 0 <= i < s.len() ==> 'a' <= #[trigger] s[i] <= 'z'
}

/// A value that reads back as it was: a null, a truth value, a text, a whole number
/// with its own numeral, a numeral that reads as itself, a list of texts.
pub open spec fn keeps(v: JsonView) -> bool {
    match v {
        JsonView::Null => true,
        JsonView::Bool(_) => true,
        JsonView::Text(_) => true,
        JsonView::Number(Some(n), s) => s == dec_int(n as int),
        JsonView::Number(None, s) => json_value(s) == Some(JsonView::Number(None, s)),
        JsonView::List(l) => forall|k: int| 0 <= k < l.len() ==> #[trigger] l[k] is Text,
        JsonView::Object(_) => false,
    }
}

/// The `Display` of `serde_json::Value`: the compact JSON text of a value, under
/// the name [`json_compact`]. It holds no line feed (a control character inside a
/// string is escaped, and nothing else is put between the tokens). An object is
/// written in braces. A record reads back: it is JSON, and each member that
/// [`keeps`] is that value again. A member whose key and text are small letters
/// stands in it as `"key":"text"`.
#[verifier::external_body]
pub(crate) fn write_compact(j: &Json) -> (r: String)
    ensures
        r@ == json_compact(j.shape()),
        !r@.contains('\n'),
        j.shape() is Object ==> r@.len() >= 2 && r@[0] == '{' && r@.last() == '}',
        is_record(j.shape()) ==> json_value(r@) is Some,
        is_record(j.shape()) ==> forall|k: Seq<char>|
            member(j.shape(), k) is Some && keeps(member(j.shape(), k)->0) ==> #[trigger] member(
                json_value(r@)->0,
                k,
            ) == member(j.shape(), k),
        is_record(j.shape()) ==> forall|k: Seq<char>, t: Seq<char>|
            member(j.shape(), k) == Some(JsonView::Text(t)) && is_plain(k) && is_plain(t)
                ==> #[trigger] contains(r@, "\""@ + k + "\":\""@ + t + "\""@),
{
    export(j).to_string()
}

/// What keys lead to, one inside the other.
pub open spec fn reach(v: JsonView, path: Seq<Seq<char>>) -> Option<JsonView>
    decreases path.len(),
{
    if path.len() == 0 {
        Some(v)
    } else {
        match member(v, path[0]) {
            Some(x) => reach(x, path.skip(1)),
            None => None,
        }
    }
}

/// Whether keys lead somewhere in both values or in neither, and to a text in the
/// second where they do in the first.
pub open spec fn agree_at(v: JsonView, w: JsonView, path: Seq<Seq<char>>) -> bool {
    match reach(v, path) {
        Some(JsonView::Text(t)) => reach(w, path) == Some(JsonView::Text(t)),
        Some(_) => reach(w, path) is Some,
        None => reach(w, path) is None,
    }
}

/// `serde_json::to_string_pretty`: the indented JSON text of a value, under the
/// name [`json_pretty`]. An object is written in braces. With a line feed behind it
/// the text of a value that [`tidy`] holds of reads back: it is JSON, and the same
/// keys lead to the same texts.
#[verifier::external_body]
pub(crate) fn write_pretty(j: &Json) -> (r: String)
    ensures
        r@ == json_pretty(j.shape()),
        j.shape() is Object ==> r@.len() >= 2 && r@[0] == '{' && r@.last() == '}',
        tidy(j.shape(), max_depth()) ==> json_value(r@.push('\n')) is Some,
        tidy(j.shape(), max_depth()) ==> forall|path: Seq<Seq<char>>| #[trigger]
            agree_at(j.shape(), json_value(r@.push('\n'))->0, path),
{
    serde_json::to_string_pretty(&export(j)).unwrap_or_default()
}

} // verus!
