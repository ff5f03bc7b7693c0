//! JSON values as the rest of the crate reads and builds them.
//!
//! Text is read and written by `serde_json`; everything between is [`Json`].
use vstd::prelude::*;

verus! {

/// A JSON value. Where an object names a key twice, the later field counts.
#[derive(Debug, PartialEq)]
pub enum Json {
    Null,
    Bool(bool),
    Number(serde_json::Number),
    Str(String),
    Array(Vec<Json>),
    Object(Vec<(String, Json)>),
}

/// A JSON number: an integer that is not negative, a negative integer, or any other number.
pub enum NumberView {
    Unsigned(u64),
    Negative(i64),
    Float(serde_json::Number),
}

/// What a [`Json`] stands for: strings are character sequences, objects are maps.
pub enum JsonView {
    Null,
    Bool(bool),
    Number(NumberView),
    Str(Seq<char>),
    Array(Seq<JsonView>),
    Object(Map<Seq<char>, JsonView>),
}

pub open spec fn json_view(j: Json) -> JsonView
    decreases j,
{
    match j {
        Json::Null => JsonView::Null,
        Json::Bool(b) => JsonView::Bool(b),
        Json::Number(n) => JsonView::Number(number_view(n)),
        Json::Str(s) => JsonView::Str(s@),
        Json::Array(items) => JsonView::Array(items_view(items@)),
        Json::Object(fields) => JsonView::Object(fields_view(fields@)),
    }
}

pub open spec fn items_view(items: Seq<Json>) -> Seq<JsonView>
    decreases items,
{
    if items.len() == 0 {
        Seq::empty()
    } else {
        items_view(items.drop_last()).push(json_view(items.last()))
    }
}

pub open spec fn fields_view(fields: Seq<(String, Json)>) -> Map<Seq<char>, JsonView>
    decreases fields,
{
    if fields.len() == 0 {
        Map::empty()
    } else {
        fields_view(fields.drop_last()).insert(fields.last().0@, json_view(fields.last().1))
    }
}

impl View for Json {
    type V = JsonView;

    open spec fn view(&self) -> JsonView {
        json_view(*self)
    }
}

impl NumberView {
    /// The number as a `u64`, where it is one.
    pub open spec fn uint(self) -> Option<u64> {
        match self {
            NumberView::Unsigned(n) => Some(n),
            _ => None,
        }
    }

    /// The number as an `i64`, where it is one.
    pub open spec fn sint(self) -> Option<i64> {
        match self {
            NumberView::Unsigned(n) => if n <= i64::MAX {
                Some(n as i64)
            } else {
                None
            },
            NumberView::Negative(n) => Some(n),
            NumberView::Float(_) => None,
        }
    }

    /// The number that is this integer.
    pub open spec fn of(n: i64) -> NumberView {
        if n < 0 {
            NumberView::Negative(n)
        } else {
            NumberView::Unsigned(n as u64)
        }
    }
}

/// Reading a value: each of these is `None` where the value is of another kind.
impl JsonView {
    pub open spec fn get(self, key: Seq<char>) -> Option<JsonView> {
        match self {
            JsonView::Object(m) => if m.contains_key(key) {
                Some(m[key])
            } else {
                None
            },
            _ => None,
        }
    }

    pub open spec fn at(self, i: int) -> Option<JsonView> {
        match self {
            JsonView::Array(a) => if 0 <= i < a.len() {
                Some(a[i])
            } else {
                None
            },
            _ => None,
        }
    }

    pub open spec fn text(self) -> Option<Seq<char>> {
        match self {
            JsonView::Str(s) => Some(s),
            _ => None,
        }
    }

    pub open spec fn array(self) -> Option<Seq<JsonView>> {
        match self {
            JsonView::Array(a) => Some(a),
            _ => None,
        }
    }

    pub open spec fn truth(self) -> Option<bool> {
        match self {
            JsonView::Bool(b) => Some(b),
            _ => None,
        }
    }

    pub open spec fn uint(self) -> Option<u64> {
        match self {
            JsonView::Number(n) => n.uint(),
            _ => None,
        }
    }

    pub open spec fn sint(self) -> Option<i64> {
        match self {
            JsonView::Number(n) => n.sint(),
            _ => None,
        }
    }

    /// The truth value under `key`.
    pub open spec fn truth_at(self, key: Seq<char>) -> Option<bool> {
        match self.get(key) {
            Some(v) => v.truth(),
            None => None,
        }
    }

    /// The string under `key`.
    pub open spec fn text_at(self, key: Seq<char>) -> Option<Seq<char>> {
        match self.get(key) {
            Some(v) => v.text(),
            None => None,
        }
    }

    /// The array under `key`.
    pub open spec fn array_at(self, key: Seq<char>) -> Option<Seq<JsonView>> {
        match self.get(key) {
            Some(v) => v.array(),
            None => None,
        }
    }

    /// The number under `key`, where it is an integer from zero to `u64::MAX`.
    pub open spec fn uint_at(self, key: Seq<char>) -> Option<u64> {
        match self.get(key) {
            Some(v) => v.uint(),
            None => None,
        }
    }

    /// The number under `key`, where it is an integer of the range of `i64`.
    pub open spec fn sint_at(self, key: Seq<char>) -> Option<i64> {
        match self.get(key) {
            Some(v) => v.sint(),
            None => None,
        }
    }
}

// ---------- what serde_json does ----------

#[verifier::external_type_specification]
#[verifier::external_body]
pub struct ExNumber(serde_json::Number);

#[verifier::external_type_specification]
#[verifier::external_body]
pub struct ExValue(serde_json::Value);

/// What a `serde_json::Number` holds: an unsigned integer, a negative one, or a float.
pub uninterp spec fn number_view(n: serde_json::Number) -> NumberView;

/// What a `serde_json::Value` holds.
pub uninterp spec fn value_view(v: serde_json::Value) -> JsonView;

/// What `serde_json::from_str` makes of a text: the value read out of it, or the words of the
/// error.
pub uninterp spec fn json_read(text: Seq<char>) -> Result<JsonView, Seq<char>>;

/// The value in a text, where there is one.
pub open spec fn json_text(text: Seq<char>) -> Option<JsonView> {
    match json_read(text) {
        Ok(v) => Some(v),
        Err(_) => None,
    }
}

/// The compact text of a value, as `serde_json::to_string` writes it.
pub uninterp spec fn json_render(v: JsonView) -> Seq<char>;

/// `serde_json::Number::clone` gives back an equal number.
pub assume_specification[ <serde_json::Number as Clone>::clone ](n: &serde_json::Number) -> (r:
    serde_json::Number)
    ensures
        r == *n,
;

/// `serde_json::Number::as_u64` gives the integer where it is not negative and fits a `u64`.
pub assume_specification[ serde_json::Number::as_u64 ](n: &serde_json::Number) -> (r: Option<u64>)
    ensures
        r == number_view(*n).uint(),
;

/// `serde_json::Number::as_i64` gives the integer where it fits an `i64`.
pub assume_specification[ serde_json::Number::as_i64 ](n: &serde_json::Number) -> (r: Option<i64>)
    ensures
        r == number_view(*n).sint(),
;

/// `serde_json::Number::from` for `u64`: the number that holds this integer.
#[verifier::external_body]
fn number_from_u64(n: u64) -> (r: serde_json::Number)
    ensures
        number_view(r) == NumberView::Unsigned(n),
{
    serde_json::Number::from(n)
}

/// `serde_json::Number::from` for `i64`: the number that holds this integer, which counts as
/// unsigned where it is not below zero.
#[verifier::external_body]
fn number_from_i64(n: i64) -> (r: serde_json::Number)
    ensures
        number_view(r) == NumberView::of(n),
{
    serde_json::Number::from(n)
}

/// `serde_json::from_str`: whether a text is read, the value read and the words of the error rest
/// on the text alone.
#[verifier::external_body]
fn value_from_str(text: &str) -> (r: Result<serde_json::Value, String>)
    ensures
        match r {
            Ok(v) => json_read(text@) == Ok::<JsonView, Seq<char>>(value_view(v)),
            Err(e) => json_read(text@) == Err::<JsonView, Seq<char>>(e@),
        },
{
    match serde_json::from_str::<serde_json::Value>(text) {
        Ok(v) => Ok(v),
        Err(e) => Err(e.to_string()),
    }
}

/// `Display` of a `serde_json::Value`, which writes the same compact text as
/// `serde_json::to_string`: what it writes rests on the value alone, since an object's keys are
/// kept in order of the key.
#[verifier::external_body]
fn value_to_string(v: &serde_json::Value) -> (r: String)
    ensures
        r@ == json_render(value_view(*v)),
{
    v.to_string()
}

/// One layer of a `serde_json::Value`, borrowed.
enum Opened<'a> {
    Null,
    Bool(bool),
    Number(serde_json::Number),
    Str(String),
    Array(&'a Vec<serde_json::Value>),
    Object(Vec<(String, &'a serde_json::Value)>),
}

spec fn opened_fields(fields: Seq<(String, &serde_json::Value)>) -> Map<Seq<char>, JsonView>
    decreases fields.len(),
{
    if fields.len() == 0 {
        Map::empty()
    } else {
        opened_fields(fields.drop_last()).insert(fields.last().0@, value_view(*fields.last().1))
    }
}

spec fn distinct_keys(fields: Seq<(String, &serde_json::Value)>) -> bool {
    forall|i: int, j: int|
        0 <= i < j < fields.len() ==> (#[trigger] fields[i]).0@ != (#[trigger] fields[j]).0@
}

spec fn opened_view(p: Opened) -> JsonView {
    match p {
        Opened::Null => JsonView::Null,
        Opened::Bool(b) => JsonView::Bool(b),
        Opened::Number(n) => JsonView::Number(number_view(n)),
        Opened::Str(s) => JsonView::Str(s@),
        Opened::Array(a) => JsonView::Array(values_view(a@)),
        Opened::Object(f) => JsonView::Object(opened_fields(f@)),
    }
}

spec fn values_view(values: Seq<serde_json::Value>) -> Seq<JsonView> {
    values.map_values(|v: serde_json::Value| value_view(v))
}

/// Tells the variants of `serde_json::Value` apart and hands out what the variant holds; an
/// object's map holds each key once.
#[verifier::external_body]
fn open_value<'a>(v: &'a serde_json::Value) -> (p: Opened<'a>)
    ensures
        opened_view(p) == value_view(*v),
        p matches Opened::Object(f) ==> distinct_keys(f@),
{
    match v {
        serde_json::Value::Null => Opened::Null,
        serde_json::Value::Bool(b) => Opened::Bool(*b),
        serde_json::Value::Number(n) => Opened::Number(n.clone()),
        serde_json::Value::String(s) => Opened::Str(s.clone()),
        serde_json::Value::Array(a) => Opened::Array(a),
        serde_json::Value::Object(m) => Opened::Object(m.iter().map(|(k, v)| (k.clone(), v)).collect()),
    }
}

/// One layer of a `serde_json::Value` to be made.
enum Layer {
    Null,
    Bool(bool),
    Number(serde_json::Number),
    Str(String),
    Array(Vec<serde_json::Value>),
    Object(Vec<(String, serde_json::Value)>),
}

spec fn layer_fields(fields: Seq<(String, serde_json::Value)>) -> Map<Seq<char>, JsonView>
    decreases fields.len(),
{
    if fields.len() == 0 {
        Map::empty()
    } else {
        layer_fields(fields.drop_last()).insert(fields.last().0@, value_view(fields.last().1))
    }
}

spec fn layer_view(p: Layer) -> JsonView {
    match p {
        Layer::Null => JsonView::Null,
        Layer::Bool(b) => JsonView::Bool(b),
        Layer::Number(n) => JsonView::Number(number_view(n)),
        Layer::Str(s) => JsonView::Str(s@),
        Layer::Array(a) => JsonView::Array(values_view(a@)),
        Layer::Object(f) => JsonView::Object(layer_fields(f@)),
    }
}

/// Makes the `serde_json::Value` of this variant; an object's map takes the fields in turn, and a
/// later one replaces an earlier one of the same key.
#[verifier::external_body]
fn close_value(p: Layer) -> (v: serde_json::Value)
    ensures
        value_view(v) == layer_view(p),
{
    match p {
        Layer::Null => serde_json::Value::Null,
        Layer::Bool(b) => serde_json::Value::Bool(b),
        Layer::Number(n) => serde_json::Value::Number(n),
        Layer::Str(s) => serde_json::Value::String(s),
        Layer::Array(a) => serde_json::Value::Array(a),
        Layer::Object(f) => serde_json::Value::Object(f.into_iter().collect()),
    }
}

// ---------- from and to serde_json ----------

proof fn lemma_opened_member(fields: Seq<(String, &serde_json::Value)>, k: int)
    requires
        distinct_keys(fields),
        0 <= k < fields.len(),
    ensures
        opened_fields(fields).dom().finite(),
        opened_fields(fields).contains_key(fields[k].0@),
        opened_fields(fields)[fields[k].0@] == value_view(*fields[k].1),
    decreases fields.len(),
{
    let front = fields.drop_last();
    if fields.len() > 1 {
        let j = if k < front.len() {
            k
        } else {
            front.len() - 1
        };
        assert(distinct_keys(front));
        lemma_opened_member(front, j);
        if k < front.len() {
            assert(fields[k].0@ != fields.last().0@);
        }
    } else {
        assert(opened_fields(front) == Map::<Seq<char>, JsonView>::empty());
    }
}

fn decode(v: &serde_json::Value) -> (j: Json)
    ensures
        j@ == value_view(*v),
    decreases value_view(*v),
{
    match open_value(v) {
        Opened::Null => Json::Null,
        Opened::Bool(b) => Json::Bool(b),
        Opened::Number(n) => Json::Number(n),
        Opened::Str(s) => Json::Str(s),
        Opened::Array(a) => {
            let mut items: Vec<Json> = Vec::new();
            let mut k: usize = 0;
            while k < a.len()
                invariant
                    k <= a@.len(),
                    items_view(items@) == values_view(a@).take(k as int),
                    value_view(*v) == JsonView::Array(values_view(a@)),
                decreases a@.len() - k,
            {
                assert(value_view(*v)->Array_0[k as int] == value_view(a@[k as int]));
                let item = decode(&a[k]);
                let ghost before = items@;
                items.push(item);
                assert(items@.drop_last() =~= before);
                k += 1;
            }
            assert(values_view(a@).take(a@.len() as int) =~= values_view(a@));
            Json::Array(items)
        },
        Opened::Object(f) => {
            let mut fields: Vec<(String, Json)> = Vec::new();
            let mut k: usize = 0;
            while k < f.len()
                invariant
                    k <= f@.len(),
                    fields_view(fields@) == opened_fields(f@.take(k as int)),
                    value_view(*v) == JsonView::Object(opened_fields(f@)),
                    distinct_keys(f@),
                decreases f@.len() - k,
            {
                proof {
                    lemma_opened_member(f@, k as int);
                    let m = value_view(*v)->Object_0;
                    assert(decreases_to!(m => m[f@[k as int].0@]));
                }
                let value = decode(f[k].1);
                let ghost before = fields@;
                fields.push((f[k].0.clone(), value));
                assert(fields@.drop_last() =~= before);
                assert(f@.take(k + 1).drop_last() =~= f@.take(k as int));
                k += 1;
            }
            assert(f@.take(f@.len() as int) =~= f@);
            Json::Object(fields)
        },
    }
}

fn encode(j: &Json) -> (v: serde_json::Value)
    ensures
        value_view(v) == j@,
    decreases j,
{
    match j {
        Json::Null => close_value(Layer::Null),
        Json::Bool(b) => close_value(Layer::Bool(*b)),
        Json::Number(n) => close_value(Layer::Number(n.clone())),
        Json::Str(s) => close_value(Layer::Str(s.clone())),
        Json::Array(items) => {
            let mut values: Vec<serde_json::Value> = Vec::new();
            let mut k: usize = 0;
            while k < items.len()
                invariant
                    k <= items@.len(),
                    values_view(values@) == items_view(items@.take(k as int)),
                    *j == Json::Array(*items),
                decreases items@.len() - k,
            {
                assert(decreases_to!(*j => j->Array_0));
                assert(decreases_to!(*items => items@));
                assert(decreases_to!(items@ => items@[k as int]));
                let value = encode(&items[k]);
                let ghost before = values@;
                values.push(value);
                assert(items@.take(k + 1).drop_last() =~= items@.take(k as int));
                assert(values_view(values@) =~= values_view(before).push(value_view(value)));
                k += 1;
            }
            assert(items@.take(items@.len() as int) =~= items@);
            close_value(Layer::Array(values))
        },
        Json::Object(fields) => {
            let mut out: Vec<(String, serde_json::Value)> = Vec::new();
            let mut k: usize = 0;
            while k < fields.len()
                invariant
                    k <= fields@.len(),
                    layer_fields(out@) == fields_view(fields@.take(k as int)),
                    *j == Json::Object(*fields),
                decreases fields@.len() - k,
            {
                assert(decreases_to!(*j => j->Object_0));
                assert(decreases_to!(*fields => fields@));
                assert(decreases_to!(fields@ => fields@[k as int]));
                let value = encode(&fields[k].1);
                let ghost before = out@;
                out.push((fields[k].0.clone(), value));
                assert(fields@.take(k + 1).drop_last() =~= fields@.take(k as int));
                assert(out@.drop_last() =~= before);
                k += 1;
            }
            assert(fields@.take(fields@.len() as int) =~= fields@);
            close_value(Layer::Object(out))
        },
    }
}

// ---------- values ----------

pub proof fn lemma_items_view(items: Seq<Json>)
    ensures
        items_view(items).len() == items.len(),
        forall|i: int| 0 <= i < items.len() ==> #[trigger] items_view(items)[i] == json_view(items[i]),
    decreases items.len(),
{
    if items.len() > 0 {
        lemma_items_view(items.drop_last());
    }
}

impl Json {
    /// Reads a text; where it is not one JSON value, gives the words of the error.
    pub fn read(text: &str) -> (r: Result<Json, String>)
        ensures
            match r {
                Ok(j) => json_read(text@) == Ok::<JsonView, Seq<char>>(j@),
                Err(e) => json_read(text@) == Err::<JsonView, Seq<char>>(e@),
            },
    {
        match value_from_str(text) {
            Ok(v) => Ok(decode(&v)),
            Err(e) => Err(e),
        }
    }

    /// Reads a text; `None` where it is not one JSON value.
    pub fn parse(text: &str) -> (r: Option<Json>)
        ensures
            match r {
                Some(j) => json_text(text@) == Some(j@),
                None => json_text(text@) is None,
            },
    {
        match Json::read(text) {
            Ok(j) => Some(j),
            Err(_) => None,
        }
    }

    /// The compact text of the value.
    pub fn render(&self) -> (r: String)
        ensures
            r@ == json_render(self@),
    {
        value_to_string(&encode(self))
    }

    pub fn duplicate(&self) -> (r: Json)
        ensures
            r@ == self@,
        decreases self,
    {
        match self {
            Json::Null => Json::Null,
            Json::Bool(b) => Json::Bool(*b),
            Json::Number(n) => Json::Number(n.clone()),
            Json::Str(s) => Json::Str(s.clone()),
            Json::Array(items) => {
                let mut out: Vec<Json> = Vec::new();
                let mut k: usize = 0;
                while k < items.len()
                    invariant
                        k <= items@.len(),
                        items_view(out@) == items_view(items@.take(k as int)),
                        *self == Json::Array(*items),
                    decreases items@.len() - k,
                {
                    assert(decreases_to!(*self => self->Array_0));
                    assert(decreases_to!(*items => items@));
                    assert(decreases_to!(items@ => items@[k as int]));
                    let item = items[k].duplicate();
                    let ghost before = out@;
                    out.push(item);
                    assert(items@.take(k + 1).drop_last() =~= items@.take(k as int));
                    assert(out@.drop_last() =~= before);
                    k += 1;
                }
                assert(items@.take(items@.len() as int) =~= items@);
                Json::Array(out)
            },
            Json::Object(fields) => {
                let mut out: Vec<(String, Json)> = Vec::new();
                let mut k: usize = 0;
                while k < fields.len()
                    invariant
                        k <= fields@.len(),
                        fields_view(out@) == fields_view(fields@.take(k as int)),
                        *self == Json::Object(*fields),
                    decreases fields@.len() - k,
                {
                    assert(decreases_to!(*self => self->Object_0));
                    assert(decreases_to!(*fields => fields@));
                    assert(decreases_to!(fields@ => fields@[k as int]));
                    let value = fields[k].1.duplicate();
                    let ghost before = out@;
                    out.push((fields[k].0.clone(), value));
                    assert(fields@.take(k + 1).drop_last() =~= fields@.take(k as int));
                    assert(out@.drop_last() =~= before);
                    k += 1;
                }
                assert(fields@.take(fields@.len() as int) =~= fields@);
                Json::Object(out)
            },
        }
    }

    pub fn unsigned(n: u64) -> (r: Json)
        ensures
            r@ == JsonView::Number(NumberView::Unsigned(n)),
    {
        Json::Number(number_from_u64(n))
    }

    pub fn signed(n: i64) -> (r: Json)
        ensures
            r@ == JsonView::Number(NumberView::of(n)),
    {
        Json::Number(number_from_i64(n))
    }

    pub fn text(s: &str) -> (r: Json)
        ensures
            r@ == JsonView::Str(s@),
    {
        Json::Str(s.to_owned())
    }

    /// An object without fields.
    pub fn object() -> (r: Json)
        ensures
            r@ == JsonView::Object(Map::empty()),
    {
        Json::Object(Vec::new())
    }

    /// The object with `key` set to `value`.
    pub fn with(self, key: &str, value: Json) -> (r: Json)
        requires
            self@ is Object,
        ensures
            r@ == JsonView::Object(self@->Object_0.insert(key@, value@)),
    {
        match self {
            Json::Object(fields) => {
                let mut fields = fields;
                let ghost before = fields@;
                fields.push((key.to_owned(), value));
                assert(fields@.drop_last() =~= before);
                Json::Object(fields)
            },
            other => other,
        }
    }

    pub fn get(&self, key: &str) -> (r: Option<&Json>)
        ensures
            match r {
                Some(v) => self@.get(key@) == Some(v@),
                None => self@.get(key@) is None,
            },
    {
        match self {
            Json::Object(fields) => {
                let mut k: usize = fields.len();
                assert(fields@.take(k as int) =~= fields@);
                while k > 0
                    invariant
                        k <= fields@.len(),
                        *self == Json::Object(*fields),
                        fields_view(fields@).contains_key(key@) <==> fields_view(fields@.take(k as int)).contains_key(key@),
                        fields_view(fields@).contains_key(key@) ==> fields_view(fields@)[key@]
                            == fields_view(fields@.take(k as int))[key@],
                    decreases k,
                {
                    assert(fields@.take(k as int).drop_last() =~= fields@.take(k - 1));
                    assert(fields@.take(k as int).last() == fields@[k - 1]);
                    k -= 1;
                    if fields[k].0 == key.to_owned() {
                        return Some(&fields[k].1);
                    }
                }
                None
            },
            _ => None,
        }
    }

    /// The item at position `i` of an array.
    pub fn at(&self, i: usize) -> (r: Option<&Json>)
        ensures
            match r {
                Some(v) => self@.at(i as int) == Some(v@),
                None => self@.at(i as int) is None,
            },
    {
        match self {
            Json::Array(items) => {
                proof {
                    lemma_items_view(items@);
                }
                if i < items.len() {
                    Some(&items[i])
                } else {
                    None
                }
            },
            _ => None,
        }
    }

    pub fn as_text(&self) -> (r: Option<&str>)
        ensures
            match r {
                Some(s) => self@.text() == Some(s@),
                None => self@.text() is None,
            },
    {
        match self {
            Json::Str(s) => Some(s.as_str()),
            _ => None,
        }
    }

    pub fn as_array(&self) -> (r: Option<&Vec<Json>>)
        ensures
            match r {
                Some(items) => self@.array() == Some(items_view(items@)),
                None => self@.array() is None,
            },
    {
        match self {
            Json::Array(items) => Some(items),
            _ => None,
        }
    }

    pub fn as_u64(&self) -> (r: Option<u64>)
        ensures
            r == self@.uint(),
    {
        match self {
            Json::Number(n) => n.as_u64(),
            _ => None,
        }
    }

    pub fn as_i64(&self) -> (r: Option<i64>)
        ensures
            r == self@.sint(),
    {
        match self {
            Json::Number(n) => n.as_i64(),
            _ => None,
        }
    }

    /// The truth value under `key`.
    pub fn bool_at(&self, key: &str) -> (r: Option<bool>)
        ensures
            r == self@.truth_at(key@),
    {
        match self.get(key) {
            Some(Json::Bool(b)) => Some(*b),
            _ => None,
        }
    }

    /// The string under `key`.
    pub fn text_at(&self, key: &str) -> (r: Option<&str>)
        ensures
            match r {
                Some(s) => self@.text_at(key@) == Some(s@),
                None => self@.text_at(key@) is None,
            },
    {
        match self.get(key) {
            Some(v) => v.as_text(),
            None => None,
        }
    }

    /// The array under `key`.
    pub fn array_at(&self, key: &str) -> (r: Option<&Vec<Json>>)
        ensures
            match r {
                Some(items) => self@.array_at(key@) == Some(items_view(items@)),
                None => self@.array_at(key@) is None,
            },
    {
        match self.get(key) {
            Some(v) => v.as_array(),
            None => None,
        }
    }

    /// The number under `key` as a `u64`.
    pub fn u64_at(&self, key: &str) -> (r: Option<u64>)
        ensures
            r == self@.uint_at(key@),
    {
        match self.get(key) {
            Some(v) => v.as_u64(),
            None => None,
        }
    }

    /// The number under `key` as an `i64`.
    pub fn i64_at(&self, key: &str) -> (r: Option<i64>)
        ensures
            r == self@.sint_at(key@),
    {
        match self.get(key) {
            Some(v) => v.as_i64(),
            None => None,
        }
    }
}

} // verus!
