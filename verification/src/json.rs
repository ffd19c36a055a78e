//! JSON values, as they are built for the services and read from the log.

use crate::score::{Score, SIGN_BIT};
use crate::text::same;
use vstd::prelude::*;

verus! {

/// A JSON number: a whole number, a negative one, or a double.
#[derive(Debug, Clone, Copy, PartialEq, Eq, Structural)]
pub enum Num {
    Uint(u64),
    Int(i64),
    Real(Score),
}

impl Num {
    /// The number as a double.
    pub open spec fn number(self) -> Score {
        match self {
            Num::Uint(n) => Score { bits: Score::count_bits(n as nat) as u64 },
            Num::Int(n) => if n >= 0 {
                Score { bits: Score::count_bits(n as nat) as u64 }
            } else {
                Score { bits: (SIGN_BIT + Score::count_bits(-n as nat)) as u64 }
            },
            Num::Real(s) => s,
        }
    }

    /// The number as a double.
    pub fn as_score(self) -> (r: Score)
        ensures
            r == self.number(),
    {
        match self {
            Num::Uint(n) => Score::of_count(n),
            Num::Int(n) => if n >= 0 {
                Score::of_count(n as u64)
            } else {
                let m: u64 = (-(n as i128)) as u64;
                Score { bits: SIGN_BIT + Score::of_count(m).bits }
            },
            Num::Real(s) => s,
        }
    }
}

/// A JSON value. The names in an object are in the order in which they were put there.
#[derive(Debug)]
pub enum Json {
    Null,
    Bool(bool),
    Num(Num),
    Str(String),
    Arr(Vec<Json>),
    Obj(Vec<(String, Json)>),
}

/// What a JSON value stands for.
pub enum JsonV {
    Null,
    Bool(bool),
    Num(Num),
    Str(Seq<char>),
    Arr(Seq<JsonV>),
    Obj(Seq<(Seq<char>, JsonV)>),
}

/// The value of the first field `key`.
pub open spec fn field_in(fields: Seq<(Seq<char>, JsonV)>, key: Seq<char>) -> Option<JsonV>
    decreases fields.len(),
{
    if fields.len() == 0 {
        None
    } else if fields.first().0 == key {
        Some(fields.first().1)
    } else {
        field_in(fields.drop_first(), key)
    }
}

impl JsonV {
    /// The value of the field `key`; none of what is no object.
    pub open spec fn field(self, key: Seq<char>) -> Option<JsonV> {
        match self {
            JsonV::Obj(fields) => field_in(fields, key),
            _ => None,
        }
    }

    pub open spec fn text(self) -> Option<Seq<char>> {
        match self {
            JsonV::Str(s) => Some(s),
            _ => None,
        }
    }

    pub open spec fn flag(self) -> Option<bool> {
        match self {
            JsonV::Bool(b) => Some(b),
            _ => None,
        }
    }

    pub open spec fn number(self) -> Option<Score> {
        match self {
            JsonV::Num(n) => Some(n.number()),
            _ => None,
        }
    }

    pub open spec fn count(self) -> Option<u64> {
        match self {
            JsonV::Num(Num::Uint(n)) => Some(n),
            _ => None,
        }
    }

    pub open spec fn items(self) -> Option<Seq<JsonV>> {
        match self {
            JsonV::Arr(s) => Some(s),
            _ => None,
        }
    }

    /// The text of the field `key`.
    pub open spec fn text_at(self, key: Seq<char>) -> Option<Seq<char>> {
        match self.field(key) {
            Some(v) => v.text(),
            None => None,
        }
    }

    /// The number of the field `key`.
    pub open spec fn number_at(self, key: Seq<char>) -> Option<Score> {
        match self.field(key) {
            Some(v) => v.number(),
            None => None,
        }
    }

    /// The truth value of the field `key`.
    pub open spec fn flag_at(self, key: Seq<char>) -> Option<bool> {
        match self.field(key) {
            Some(v) => v.flag(),
            None => None,
        }
    }

    /// The whole number of the field `key`.
    pub open spec fn count_at(self, key: Seq<char>) -> Option<u64> {
        match self.field(key) {
            Some(v) => v.count(),
            None => None,
        }
    }
}

/// What the fields of an object stand for.
pub open spec fn fields_view(fields: Seq<(String, Json)>) -> Seq<(Seq<char>, JsonV)> {
    Seq::new(fields.len(), |i: int| (fields[i].0@, fields[i].1@))
}

/// What a list of values stands for.
pub open spec fn items_view(items: Seq<Json>) -> Seq<JsonV> {
    Seq::new(items.len(), |i: int| items[i]@)
}

/// One more item stands for one more value.
pub proof fn lemma_items_push(items: Seq<Json>, x: Json)
    ensures
        items_view(items.push(x)) == items_view(items).push(x@),
{
    assert(items_view(items.push(x)) =~= items_view(items).push(x@));
}

impl Json {
    /// What the value stands for.
    pub open spec fn view(&self) -> JsonV
        decreases self,
    {
        match self {
            Json::Null => JsonV::Null,
            Json::Bool(b) => JsonV::Bool(*b),
            Json::Num(n) => JsonV::Num(*n),
            Json::Str(s) => JsonV::Str(s@),
            Json::Arr(v) => JsonV::Arr(
                Seq::new(
                    v@.len(),
                    |i: int|
                        if 0 <= i < v@.len() {
                            v@[i].view()
                        } else {
                            JsonV::Null
                        },
                ),
            ),
            Json::Obj(v) => JsonV::Obj(
                Seq::new(
                    v@.len(),
                    |i: int|
                        if 0 <= i < v@.len() {
                            (v@[i].0@, v@[i].1.view())
                        } else {
                            (Seq::empty(), JsonV::Null)
                        },
                ),
            ),
        }
    }

    /// The value of the field `key`.
    pub fn get(&self, key: &str) -> (r: Option<&Json>)
        ensures
            r is Some <==> self@.field(key@) is Some,
            r matches Some(v) ==> self@.field(key@) == Some(v@),
    {
        match self {
            Json::Obj(fields) => {
                let ghost all = self@->Obj_0;
                assert(all.len() == fields@.len());
                let mut i: usize = 0;
                assert(all.skip(0) =~= all);
                while i < fields.len()
                    invariant
                        i <= fields@.len(),
                        all.len() == fields@.len(),
                        forall|k: int|
                            0 <= k < all.len() ==> #[trigger] all[k] == (
                                fields@[k].0@,
                                fields@[k].1@,
                            ),
                        self@ == JsonV::Obj(all),
                        self@.field(key@) == field_in(all.skip(i as int), key@),
                    decreases fields@.len() - i,
                {
                    assert(all.skip(i as int).first() == all[i as int]);
                    assert(all.skip(i as int).drop_first() =~= all.skip(i + 1));
                    if same(fields[i].0.as_str(), key) {
                        return Some(&fields[i].1);
                    }
                    i = i + 1;
                }
                None
            },
            _ => None,
        }
    }

    pub fn as_str(&self) -> (r: Option<&str>)
        ensures
            r is Some <==> self@.text() is Some,
            r matches Some(s) ==> self@.text() == Some(s@),
    {
        match self {
            Json::Str(s) => Some(s.as_str()),
            _ => None,
        }
    }

    pub fn as_bool(&self) -> (r: Option<bool>)
        ensures
            r == self@.flag(),
    {
        match self {
            Json::Bool(b) => Some(*b),
            _ => None,
        }
    }

    /// The number as a double.
    pub fn as_score(&self) -> (r: Option<Score>)
        ensures
            r == self@.number(),
    {
        match self {
            Json::Num(n) => Some(n.as_score()),
            _ => None,
        }
    }

    /// The number, where it is a whole one and not negative.
    pub fn as_u64(&self) -> (r: Option<u64>)
        ensures
            r == self@.count(),
    {
        match self {
            Json::Num(Num::Uint(n)) => Some(*n),
            _ => None,
        }
    }

    pub fn str_at(&self, key: &str) -> (r: Option<&str>)
        ensures
            r is Some <==> self@.text_at(key@) is Some,
            r matches Some(s) ==> self@.text_at(key@) == Some(s@),
    {
        match self.get(key) {
            Some(v) => v.as_str(),
            None => None,
        }
    }

    pub fn score_at(&self, key: &str) -> (r: Option<Score>)
        ensures
            r == self@.number_at(key@),
    {
        match self.get(key) {
            Some(v) => v.as_score(),
            None => None,
        }
    }

    pub fn bool_at(&self, key: &str) -> (r: Option<bool>)
        ensures
            r == self@.flag_at(key@),
    {
        match self.get(key) {
            Some(v) => v.as_bool(),
            None => None,
        }
    }

    pub fn u64_at(&self, key: &str) -> (r: Option<u64>)
        ensures
            r == self@.count_at(key@),
    {
        match self.get(key) {
            Some(v) => v.as_u64(),
            None => None,
        }
    }

    pub fn text(s: &str) -> (r: Json)
        ensures
            r@ == JsonV::Str(s@),
    {
        Json::Str(s.to_owned())
    }

    pub fn count(n: u64) -> (r: Json)
        ensures
            r@ == JsonV::Num(Num::Uint(n)),
    {
        Json::Num(Num::Uint(n))
    }

    /// A double, or null for what JSON has no number for.
    pub fn double(s: Score) -> (r: Json)
        ensures
            r@ == real_view(s),
    {
        if s.is_finite() {
            Json::Num(Num::Real(s))
        } else {
            Json::Null
        }
    }

    pub fn number(s: Score) -> (r: Json)
        ensures
            r@ == JsonV::Num(Num::Real(s)),
    {
        Json::Num(Num::Real(s))
    }

    pub fn array(items: Vec<Json>) -> (r: Json)
        ensures
            r@ == JsonV::Arr(items_view(items@)),
    {
        let r = Json::Arr(items);
        assert(r@->Arr_0 =~= items_view(items@));
        r
    }

    /// A text, or null.
    pub fn opt_text(s: &Option<String>) -> (r: Json)
        ensures
            r@ == opt_text_view(*s),
    {
        match s {
            Some(t) => Json::text(t.as_str()),
            None => Json::Null,
        }
    }
}

/// What a double stands for: nothing where it is infinite or not a number.
pub open spec fn real_view(s: Score) -> JsonV {
    if s.finite() {
        JsonV::Num(Num::Real(s))
    } else {
        JsonV::Null
    }
}

/// What an optional text stands for.
pub open spec fn opt_text_view(s: Option<String>) -> JsonV {
    match s {
        Some(t) => JsonV::Str(t@),
        None => JsonV::Null,
    }
}

/// An object without fields, to which others are added.
pub open spec fn no_fields() -> Seq<(Seq<char>, JsonV)> {
    Seq::empty()
}

/// An object under construction.
#[derive(Debug)]
pub struct Fields {
    fields: Vec<(String, Json)>,
}

impl Fields {
    /// The fields so far.
    pub closed spec fn view(&self) -> Seq<(Seq<char>, JsonV)> {
        fields_view(self.fields@)
    }

    pub fn new() -> (r: Fields)
        ensures
            r@ == no_fields(),
    {
        let r = Fields { fields: Vec::new() };
        assert(r@ =~= no_fields());
        r
    }

    /// Adds a field.
    pub fn with(self, name: &str, value: Json) -> (r: Fields)
        ensures
            r@ == self@.push((name@, value@)),
    {
        let ghost before = self@;
        let ghost val = value@;
        let mut fields = self.fields;
        fields.push((name.to_owned(), value));
        let r = Fields { fields };
        assert(r@ =~= before.push((name@, val)));
        r
    }

    pub fn done(self) -> (r: Json)
        ensures
            r@ == JsonV::Obj(self@),
    {
        let r = Json::Obj(self.fields);
        assert(r@->Obj_0 =~= self@);
        r
    }
}

// ---------------------------------------------------------------------------------------------
// Parsing
// ---------------------------------------------------------------------------------------------

/// What `serde_json::from_str` makes of a text; none where the text is no JSON.
pub uninterp spec fn json_of(text: Seq<char>) -> Option<JsonV>;

/// `serde_json::from_str` into a `serde_json::Value`, whose parts are moved over one for one. The
/// result is a function of the text.
#[verifier::external_body]
pub(crate) fn parse(text: &str) -> (r: Option<Json>)
    ensures
        r is Some <==> json_of(text@) is Some,
        r matches Some(v) ==> json_of(text@) == Some(v@),
{
    serde_json::from_str(text).ok().map(from_value)
}

#[verifier::external_type_specification]
#[verifier::external_body]
pub struct ExValue(serde_json::Value);

#[verifier::external_type_specification]
#[verifier::external_body]
pub struct ExNumber(serde_json::Number);

/// A `serde_json::Number` in the form it is held in: `as_u64` where it is no negative integer,
/// `as_i64` where it is a negative one, `as_f64` otherwise.
#[verifier::external_body]
fn from_number(n: serde_json::Number) -> Num {
    match (n.as_u64(), n.as_i64()) {
        (Some(u), _) => Num::Uint(u),
        (None, Some(i)) => Num::Int(i),
        _ => Num::Real(Score { bits: n.as_f64().map_or(0, |x| x.to_bits()) }),
    }
}

/// Moves the parts of a `serde_json::Value` over, one for one.
#[verifier::external_body]
fn from_value(v: serde_json::Value) -> Json {
    match v {
        serde_json::Value::Null => Json::Null,
        serde_json::Value::Bool(b) => Json::Bool(b),
        serde_json::Value::Number(n) => Json::Num(from_number(n)),
        serde_json::Value::String(s) => Json::Str(s),
        serde_json::Value::Array(a) => Json::Arr(a.into_iter().map(from_value).collect()),
        serde_json::Value::Object(m) => {
            Json::Obj(m.into_iter().map(|(k, x)| (k, from_value(x))).collect())
        },
    }
}

/// The items of a list that stands in a field, as a list or as the text of one.
pub open spec fn list_of(v: Option<JsonV>) -> Seq<JsonV> {
    match v {
        Some(JsonV::Arr(items)) => items,
        Some(JsonV::Str(s)) => match json_of(s) {
            Some(JsonV::Arr(items)) => items,
            _ => Seq::empty(),
        },
        _ => Seq::empty(),
    }
}

} // verus!
