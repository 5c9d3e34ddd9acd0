//! JSON values as the model descriptions hold them.
use crate::bits;
use crate::bits::equal_doubles;
use crate::text::same;
use vstd::prelude::*;
use vstd::string::*;

verus! {

/// A JSON value. Numbers keep the form they are written in; the members of an object stand in the
/// order of their names, each name once.
pub enum Json {
    Null,
    Bool(bool),
    /// An integer that is not negative.
    Natural(u64),
    /// An integer below zero.
    Negative(i64),
    /// The bits of a finite double.
    Double(u64),
    Text(String),
    Array(Vec<Json>),
    Object(Vec<(String, Json)>),
}

/// What a [`Json`] holds.
pub enum JsonValue {
    Null,
    Bool(bool),
    Natural(u64),
    Negative(i64),
    Double(u64),
    Text(Seq<char>),
    Array(Seq<JsonValue>),
    Object(Seq<(Seq<char>, JsonValue)>),
}

impl View for Json {
    type V = JsonValue;

    open spec fn view(&self) -> JsonValue {
        json_view(*self)
    }
}

/// The value that `v` stands for.
pub open spec fn json_view(v: Json) -> JsonValue
    decreases v,
{
    match v {
        Json::Null => JsonValue::Null,
        Json::Bool(b) => JsonValue::Bool(b),
        Json::Natural(n) => JsonValue::Natural(n),
        Json::Negative(n) => JsonValue::Negative(n),
        Json::Double(bits) => JsonValue::Double(bits),
        Json::Text(s) => JsonValue::Text(s@),
        Json::Array(xs) => JsonValue::Array(
            Seq::new(
                xs@.len(),
                |i: int| if 0 <= i < xs@.len() { json_view(xs@[i]) } else { JsonValue::Null },
            ),
        ),
        Json::Object(xs) => JsonValue::Object(
            Seq::new(
                xs@.len(),
                |i: int|
                    if 0 <= i < xs@.len() {
                        (xs@[i].0@, json_view(xs@[i].1))
                    } else {
                        (Seq::empty(), JsonValue::Null)
                    },
            ),
        ),
    }
}

/// The values of a sequence, one for one.
pub open spec fn json_views(xs: Seq<Json>) -> Seq<JsonValue> {
    Seq::new(xs.len(), |i: int| json_view(xs[i]))
}

/// The members of a sequence, one for one.
pub open spec fn member_views(xs: Seq<(String, Json)>) -> Seq<(Seq<char>, JsonValue)> {
    Seq::new(xs.len(), |i: int| (xs[i].0@, json_view(xs[i].1)))
}

pub proof fn lemma_json_array(xs: Vec<Json>)
    ensures
        json_view(Json::Array(xs)) == JsonValue::Array(json_views(xs@)),
{
    assert(json_view(Json::Array(xs))->Array_0 =~= json_views(xs@));
}

pub proof fn lemma_json_object(xs: Vec<(String, Json)>)
    ensures
        json_view(Json::Object(xs)) == JsonValue::Object(member_views(xs@)),
{
    assert(json_view(Json::Object(xs))->Object_0 =~= member_views(xs@));
}

/// `serde_json`'s own value.
#[verifier::external_type_specification]
#[verifier::external_body]
pub struct ExValue(serde_json::Value);

/// What a `serde_json` value holds.
pub uninterp spec fn parsed_value(v: serde_json::Value) -> JsonValue;

/// The values of `serde_json` values, one for one.
pub open spec fn parsed_values(xs: Seq<serde_json::Value>) -> Seq<JsonValue> {
    Seq::new(xs.len(), |i: int| parsed_value(xs[i]))
}

/// One level of a `serde_json` value.
enum Node<'a> {
    Null,
    Bool(bool),
    Natural(u64),
    Negative(i64),
    Double(u64),
    Text(String),
    Array(Vec<&'a serde_json::Value>),
    Object(Vec<(&'a String, &'a serde_json::Value)>),
}

/// The variant of a `serde_json::Value` and its parts. A number that is an integer from zero on has
/// an `as_u64`, one below zero an `as_i64` alone, and any other only the finite double that it is.
#[verifier::external_body]
fn node<'a>(v: &'a serde_json::Value) -> (r: Node<'a>)
    ensures
        match r {
            Node::Null => parsed_value(*v) == JsonValue::Null,
            Node::Bool(b) => parsed_value(*v) == JsonValue::Bool(b),
            Node::Natural(n) => parsed_value(*v) == JsonValue::Natural(n),
            Node::Negative(n) => parsed_value(*v) == JsonValue::Negative(n) && n < 0,
            Node::Double(d) => parsed_value(*v) == JsonValue::Double(d) && bits::double_is_finite(d),
            Node::Text(s) => parsed_value(*v) == JsonValue::Text(s@),
            Node::Array(xs) => parsed_value(*v) == JsonValue::Array(
                Seq::new(xs@.len(), |i: int| parsed_value(*xs@[i])),
            ),
            Node::Object(xs) => parsed_value(*v) == JsonValue::Object(
                Seq::new(xs@.len(), |i: int| (xs@[i].0@, parsed_value(*xs@[i].1))),
            ),
        },
{
    match v {
        serde_json::Value::Null => Node::Null,
        serde_json::Value::Bool(b) => Node::Bool(*b),
        serde_json::Value::Number(n) => match (n.as_u64(), n.as_i64(), n.as_f64()) {
            (Some(n), _, _) => Node::Natural(n),
            (_, Some(n), _) => Node::Negative(n),
            (_, _, d) => Node::Double(d.unwrap().to_bits()),
        },
        serde_json::Value::String(s) => Node::Text(s.clone()),
        serde_json::Value::Array(xs) => Node::Array(xs.iter().collect()),
        serde_json::Value::Object(xs) => Node::Object(xs.iter().collect()),
    }
}

/// The same value in the library's own type.
fn plain(v: &serde_json::Value) -> (r: Json)
    ensures
        r@ == parsed_value(*v),
    decreases parsed_value(*v),
{
    match node(v) {
        Node::Null => Json::Null,
        Node::Bool(b) => Json::Bool(b),
        Node::Natural(n) => Json::Natural(n),
        Node::Negative(n) => Json::Negative(n),
        Node::Double(d) => Json::Double(d),
        Node::Text(s) => Json::Text(s),
        Node::Array(xs) => {
            let ghost inner = parsed_value(*v)->Array_0;
            let mut out: Vec<Json> = Vec::new();
            let mut i: usize = 0;
            while i < xs.len()
                invariant
                    i <= xs@.len(),
                    out@.len() == i,
                    parsed_value(*v) == JsonValue::Array(inner),
                    inner == Seq::new(xs@.len(), |j: int| parsed_value(*xs@[j])),
                    forall|j: int| 0 <= j < i ==> json_view(#[trigger] out@[j]) == inner[j],
                decreases xs@.len() - i,
            {
                assert(inner[i as int] == parsed_value(*xs@[i as int]));
                assert(decreases_to!(parsed_value(*v) => parsed_value(*v)->Array_0));
                assert(decreases_to!(inner => inner[i as int]));
                let item = plain(xs[i]);
                out.push(item);
                i += 1;
            }
            proof {
                lemma_json_array(out);
                assert(json_views(out@) =~= inner);
            }
            Json::Array(out)
        },
        Node::Object(xs) => {
            let ghost inner = parsed_value(*v)->Object_0;
            let mut out: Vec<(String, Json)> = Vec::new();
            let mut i: usize = 0;
            while i < xs.len()
                invariant
                    i <= xs@.len(),
                    out@.len() == i,
                    parsed_value(*v) == JsonValue::Object(inner),
                    inner == Seq::new(xs@.len(), |j: int| (xs@[j].0@, parsed_value(*xs@[j].1))),
                    forall|j: int|
                        0 <= j < i ==> (#[trigger] out@[j].0@, json_view(out@[j].1)) == inner[j],
                decreases xs@.len() - i,
            {
                assert(inner[i as int].1 == parsed_value(*xs@[i as int].1));
                assert(decreases_to!(parsed_value(*v) => parsed_value(*v)->Object_0));
                assert(decreases_to!(inner => inner[i as int]));
                assert(decreases_to!(inner[i as int] => inner[i as int].1));
                let (name, value) = xs[i];
                let item = plain(value);
                out.push((name.clone(), item));
                i += 1;
            }
            proof {
                lemma_json_object(out);
                assert(member_views(out@) =~= inner);
            }
            Json::Object(out)
        },
    }
}

/// What `serde_json::from_str` makes of a text that should hold an array.
pub uninterp spec fn json_array(text: Seq<char>) -> Result<Seq<JsonValue>, Seq<char>>;

/// `serde_json::from_str` on an array: its values, or what is wrong with the text.
#[verifier::external_body]
fn array_from_text(text: &str) -> (r: Result<Vec<serde_json::Value>, String>)
    ensures
        match r {
            Ok(xs) => json_array(text@) == Ok::<Seq<JsonValue>, Seq<char>>(parsed_values(xs@)),
            Err(e) => json_array(text@) == Err::<Seq<JsonValue>, Seq<char>>(e@),
        },
{
    serde_json::from_str(text).map_err(|e| e.to_string())
}

/// What `serde_json::from_slice` makes of the bytes of a document.
pub uninterp spec fn json_document(bytes: Seq<u8>) -> Result<JsonValue, Seq<char>>;

/// `serde_json::from_slice`: the value of a document, or what is wrong with it.
#[verifier::external_body]
fn document_from_bytes(bytes: &[u8]) -> (r: Result<serde_json::Value, String>)
    ensures
        match r {
            Ok(v) => json_document(bytes@) == Ok::<JsonValue, Seq<char>>(parsed_value(v)),
            Err(e) => json_document(bytes@) == Err::<JsonValue, Seq<char>>(e@),
        },
{
    serde_json::from_slice(bytes).map_err(|e| e.to_string())
}

/// Reads a text that should hold an array.
pub fn parse_array(text: &str) -> (r: Result<Vec<Json>, String>)
    ensures
        match json_array(text@) {
            Ok(xs) => r matches Ok(ys) && json_views(ys@) == xs,
            Err(e) => r matches Err(m) && m@ == e,
        },
{
    match array_from_text(text) {
        Ok(xs) => {
            let mut out: Vec<Json> = Vec::new();
            let mut i: usize = 0;
            while i < xs.len()
                invariant
                    i <= xs@.len(),
                    out@.len() == i,
                    forall|j: int| 0 <= j < i ==> json_view(#[trigger] out@[j]) == parsed_value(xs@[j]),
                decreases xs@.len() - i,
            {
                let item = plain(&xs[i]);
                out.push(item);
                i += 1;
            }
            assert(json_views(out@) =~= parsed_values(xs@));
            Ok(out)
        },
        Err(e) => Err(e),
    }
}

/// Reads a document.
pub fn parse_document(bytes: &[u8]) -> (r: Result<Json, String>)
    ensures
        match json_document(bytes@) {
            Ok(v) => r matches Ok(w) && w@ == v,
            Err(e) => r matches Err(m) && m@ == e,
        },
{
    match document_from_bytes(bytes) {
        Ok(v) => Ok(plain(&v)),
        Err(e) => Err(e),
    }
}

/// Whether two values are the same: numbers in the same form and equal, everything else part by
/// part.
pub open spec fn json_equal(a: JsonValue, b: JsonValue) -> bool
    decreases a,
{
    match (a, b) {
        (JsonValue::Double(x), JsonValue::Double(y)) => bits::double_equal(x, y),
        (JsonValue::Array(xs), JsonValue::Array(ys)) => {
            &&& xs.len() == ys.len()
            &&& forall|i: int| 0 <= i < xs.len() ==> json_equal(#[trigger] xs[i], ys[i])
        },
        (JsonValue::Object(xs), JsonValue::Object(ys)) => {
            &&& xs.len() == ys.len()
            &&& forall|i: int|
                0 <= i < xs.len() ==> (#[trigger] xs[i]).0 == ys[i].0 && json_equal(
                    xs[i].1,
                    ys[i].1,
                )
        },
        _ => a == b,
    }
}

/// The member `name` of an object: the first of that name, and null where there is none.
pub open spec fn member(v: JsonValue, name: Seq<char>) -> JsonValue {
    match v {
        JsonValue::Object(xs) => member_in(xs, name),
        _ => JsonValue::Null,
    }
}

pub open spec fn member_in(xs: Seq<(Seq<char>, JsonValue)>, name: Seq<char>) -> JsonValue
    decreases xs.len(),
{
    if xs.len() == 0 {
        JsonValue::Null
    } else if xs[0].0 == name {
        xs[0].1
    } else {
        member_in(xs.skip(1), name)
    }
}

/// The first place, from `from` on, of a member.
pub open spec fn place_in(xs: Seq<(Seq<char>, JsonValue)>, name: Seq<char>, from: int) -> int
    decreases xs.len() - from,
{
    if from < 0 || from >= xs.len() || xs[from].0 == name {
        from
    } else {
        place_in(xs, name, from + 1)
    }
}

/// Members with one replaced, or put behind the others where there was none of its name.
pub open spec fn replaced(
    xs: Seq<(Seq<char>, JsonValue)>,
    name: Seq<char>,
    value: JsonValue,
) -> Seq<(Seq<char>, JsonValue)> {
    let at = place_in(xs, name, 0);
    if at < xs.len() {
        xs.update(at, (name, value))
    } else {
        xs.push((name, value))
    }
}

/// An object with a member in the place of the one that it had; no value at all becomes an object.
pub open spec fn with_member(v: JsonValue, name: Seq<char>, value: JsonValue) -> JsonValue {
    match v {
        JsonValue::Object(xs) => JsonValue::Object(replaced(xs, name, value)),
        _ => JsonValue::Object(replaced(Seq::empty(), name, value)),
    }
}

proof fn lemma_place_in(xs: Seq<(Seq<char>, JsonValue)>, name: Seq<char>, from: int)
    requires
        0 <= from <= xs.len(),
    ensures
        from <= place_in(xs, name, from) <= xs.len(),
        place_in(xs, name, from) < xs.len() ==> xs[place_in(xs, name, from)].0 == name,
        forall|i: int| from <= i < place_in(xs, name, from) ==> (#[trigger] xs[i]).0 != name,
        member_in(xs.skip(from), name) == if place_in(xs, name, from) < xs.len() {
            xs[place_in(xs, name, from)].1
        } else {
            JsonValue::Null
        },
    decreases xs.len() - from,
{
    if from < xs.len() {
        assert(xs.skip(from)[0] == xs[from]);
        assert(xs.skip(from).skip(1) =~= xs.skip(from + 1));
        if xs[from].0 != name {
            lemma_place_in(xs, name, from + 1);
        }
    }
}

proof fn lemma_place_in_is(xs: Seq<(Seq<char>, JsonValue)>, name: Seq<char>, at: int)
    requires
        0 <= at < xs.len(),
        xs[at].0 == name,
        forall|i: int| 0 <= i < at ==> (#[trigger] xs[i]).0 != name,
    ensures
        member_in(xs, name) == xs[at].1,
{
    lemma_place_in(xs, name, 0);
    assert(xs.skip(0) =~= xs);
    let found = place_in(xs, name, 0);
    if found < at {
        assert(xs[found].0 != name);
    }
    if found > at {
        assert(xs[at].0 != name);
    }
}

proof fn lemma_replaced(xs: Seq<(Seq<char>, JsonValue)>, name: Seq<char>, value: JsonValue)
    ensures
        member_in(replaced(xs, name, value), name) == value,
{
    lemma_place_in(xs, name, 0);
    let at = place_in(xs, name, 0);
    let all = replaced(xs, name, value);
    assert forall|i: int| 0 <= i < at implies (#[trigger] all[i]).0 != name by {
        assert(all[i] == xs[i]);
    }
    lemma_place_in_is(all, name, at);
}

pub proof fn lemma_other_members_stay(v: JsonValue, name: Seq<char>, value: JsonValue, other: Seq<char>)
    requires
        v is Object,
        other != name,
    ensures
        member(with_member(v, name, value), other) == member(v, other),
{
    lemma_others_stay(v->Object_0, name, value, other);
}

proof fn lemma_others_stay(
    xs: Seq<(Seq<char>, JsonValue)>,
    name: Seq<char>,
    value: JsonValue,
    other: Seq<char>,
)
    requires
        other != name,
    ensures
        member_in(replaced(xs, name, value), other) == member_in(xs, other),
{
    let all = replaced(xs, name, value);
    lemma_place_in(xs, name, 0);
    lemma_place_in(xs, other, 0);
    lemma_place_in(all, other, 0);
    assert(xs.skip(0) =~= xs);
    assert(all.skip(0) =~= all);
    let at = place_in(xs, other, 0);
    if at < xs.len() {
        assert(all[at] == xs[at]);
        assert forall|i: int| 0 <= i < at implies (#[trigger] all[i]).0 != other by {
            assert(xs[i].0 != other);
        }
        lemma_place_in_is(all, other, at);
    } else {
        let found = place_in(all, other, 0);
        if found < all.len() {
            if found < xs.len() {
                assert(xs[found].0 != other);
            }
        }
    }
}

fn equal_arrays(xs: &Vec<Json>, ys: &Vec<Json>) -> (r: bool)
    ensures
        r == json_equal(json_view(Json::Array(*xs)), json_view(Json::Array(*ys))),
    decreases xs,
{
    proof {
        lemma_json_array(*xs);
        lemma_json_array(*ys);
    }
    let ghost a = json_views(xs@);
    let ghost b = json_views(ys@);
    if xs.len() != ys.len() {
        return false;
    }
    let mut i: usize = 0;
    while i < xs.len()
        invariant
            i <= xs@.len() == ys@.len(),
            a == json_views(xs@),
            b == json_views(ys@),
            json_view(Json::Array(*xs)) == JsonValue::Array(a),
            json_view(Json::Array(*ys)) == JsonValue::Array(b),
            forall|j: int| 0 <= j < i ==> json_equal(#[trigger] a[j], b[j]),
        decreases xs@.len() - i,
    {
        if !xs[i].equals(&ys[i]) {
            assert(!json_equal(a[i as int], b[i as int]));
            return false;
        }
        i += 1;
    }
    true
}

fn equal_objects(xs: &Vec<(String, Json)>, ys: &Vec<(String, Json)>) -> (r: bool)
    ensures
        r == json_equal(json_view(Json::Object(*xs)), json_view(Json::Object(*ys))),
    decreases xs,
{
    proof {
        lemma_json_object(*xs);
        lemma_json_object(*ys);
    }
    let ghost a = member_views(xs@);
    let ghost b = member_views(ys@);
    if xs.len() != ys.len() {
        return false;
    }
    let mut i: usize = 0;
    while i < xs.len()
        invariant
            i <= xs@.len() == ys@.len(),
            a == member_views(xs@),
            b == member_views(ys@),
            json_view(Json::Object(*xs)) == JsonValue::Object(a),
            json_view(Json::Object(*ys)) == JsonValue::Object(b),
            forall|j: int|
                0 <= j < i ==> (#[trigger] a[j]).0 == b[j].0 && json_equal(a[j].1, b[j].1),
        decreases xs@.len() - i,
    {
        let x = &xs[i];
        let y = &ys[i];
        if !same(x.0.as_str(), y.0.as_str()) || !x.1.equals(&y.1) {
            assert(!(a[i as int].0 == b[i as int].0 && json_equal(a[i as int].1, b[i as int].1)));
            return false;
        }
        i += 1;
    }
    true
}

impl Json {
    /// Whether the two values are the same.
    pub fn equals(&self, other: &Json) -> (r: bool)
        ensures
            r == json_equal(self@, other@),
        decreases self,
    {
        match (self, other) {
            (Json::Null, Json::Null) => true,
            (Json::Bool(a), Json::Bool(b)) => *a == *b,
            (Json::Natural(a), Json::Natural(b)) => *a == *b,
            (Json::Negative(a), Json::Negative(b)) => *a == *b,
            (Json::Double(a), Json::Double(b)) => equal_doubles(*a, *b),
            (Json::Text(a), Json::Text(b)) => same(a.as_str(), b.as_str()),
            (Json::Array(a), Json::Array(b)) => equal_arrays(a, b),
            (Json::Object(a), Json::Object(b)) => equal_objects(a, b),
            _ => false,
        }
    }

    /// The member `name`, where this is an object that has one.
    pub fn get(&self, name: &str) -> (r: Option<&Json>)
        ensures
            match r {
                Some(v) => v@ == member(self@, name@),
                None => member(self@, name@) == JsonValue::Null,
            },
    {
        match self {
            Json::Object(xs) => {
                proof {
                    lemma_json_object(*xs);
                }
                let ghost all = member_views(xs@);
                assert(all.skip(0) =~= all);
                let mut i: usize = 0;
                while i < xs.len()
                    invariant
                        i <= xs@.len(),
                        all == member_views(xs@),
                        self@ == JsonValue::Object(all),
                        member_in(all, name@) == member_in(all.skip(i as int), name@),
                    decreases xs@.len() - i,
                {
                    let x = &xs[i];
                    proof {
                        assert(all.skip(i as int)[0] == all[i as int]);
                        assert(all.skip(i as int).skip(1) =~= all.skip(i + 1));
                    }
                    if same(x.0.as_str(), name) {
                        return Some(&x.1);
                    }
                    i += 1;
                }
                None
            },
            _ => None,
        }
    }

    /// The object with the member `name`, in the place of the one that it had.
    pub fn with(self, name: &str, value: Json) -> (r: Json)
        requires
            self@ is Object || self@ is Null,
        ensures
            r@ == with_member(self@, name@, value@),
            member(r@, name@) == value@,
            forall|other: Seq<char>|
                other != name@ ==> #[trigger] member(r@, other) == member(self@, other),
    {
        let ghost before = self@;
        let mut members: Vec<(String, Json)> = match self {
            Json::Object(xs) => {
                proof {
                    lemma_json_object(xs);
                }
                xs
            },
            _ => Vec::new(),
        };
        let ghost all = member_views(members@);
        assert(before is Null ==> all =~= Seq::empty());
        let mut i: usize = 0;
        while i < members.len() && !same(members[i].0.as_str(), name)
            invariant
                i <= members@.len(),
                all == member_views(members@),
                place_in(all, name@, 0) == place_in(all, name@, i as int),
            decreases members@.len() - i,
        {
            assert(all[i as int].0 == members@[i as int].0@);
            i += 1;
        }
        let n: usize = members.len();
        if i < n {
            assert(all[i as int].0 == members@[i as int].0@);
            members.set(i, (name.to_owned(), value));
        } else {
            members.push((name.to_owned(), value));
        }
        proof {
            lemma_json_object(members);
            assert(member_views(members@) =~= replaced(all, name@, value@));
            lemma_replaced(all, name@, value@);
            assert(before == JsonValue::Object(all) || before == JsonValue::Null);
            assert forall|other: Seq<char>| other != name@ implies #[trigger] member(
                with_member(before, name@, value@),
                other,
            ) == member(before, other) by {
                lemma_others_stay(all, name@, value@, other);
            }
        }
        Json::Object(members)
    }

    /// Whether the member `name` is the text `value`.
    pub fn has_text(&self, name: &str, value: &str) -> (r: bool)
        ensures
            r == (member(self@, name@) == JsonValue::Text(value@)),
    {
        match self.get(name) {
            Some(Json::Text(s)) => same(s.as_str(), value),
            _ => false,
        }
    }

    /// Whether the member `name` is the integer `value`.
    pub fn has_number(&self, name: &str, value: u64) -> (r: bool)
        ensures
            r == (member(self@, name@) == JsonValue::Natural(value)),
    {
        match self.get(name) {
            Some(Json::Natural(n)) => *n == value,
            _ => false,
        }
    }

    /// Whether the member `name` is true.
    pub fn has_true(&self, name: &str) -> (r: bool)
        ensures
            r == (member(self@, name@) == JsonValue::Bool(true)),
    {
        match self.get(name) {
            Some(Json::Bool(b)) => *b,
            _ => false,
        }
    }
}

/// The member of an object is the value at the first key of its name; nothing else has one.
pub proof fn law_member_is_the_first_of_its_name(xs: Seq<(Seq<char>, JsonValue)>, name: Seq<char>, at: int)
    requires
        0 <= at <= xs.len(),
        forall|i: int| 0 <= i < at ==> (#[trigger] xs[i]).0 != name,
        at < xs.len() ==> xs[at].0 == name,
    ensures
        at < xs.len() ==> member(JsonValue::Object(xs), name) == xs[at].1,
        at == xs.len() ==> member(JsonValue::Object(xs), name) == JsonValue::Null,
        forall|v: JsonValue| !(v is Object) ==> #[trigger] member(v, name) == JsonValue::Null,
{
    if at < xs.len() {
        lemma_place_in_is(xs, name, at);
    } else {
        lemma_place_in(xs, name, 0);
        assert(xs.skip(0) =~= xs);
        let found = place_in(xs, name, 0);
        if found < xs.len() {
            assert(xs[found].0 != name);
        }
    }
}

/// A member that is set reads back, the others stay, and no name is added twice.
pub proof fn law_members_read_back(v: JsonValue, name: Seq<char>, value: JsonValue, other: Seq<char>)
    ensures
        with_member(v, name, value) is Object,
        member(with_member(v, name, value), name) == value,
        v is Object && other != name ==> member(with_member(v, name, value), other) == member(v, other),
        !(v is Object) && other != name ==> member(with_member(v, name, value), other)
            == JsonValue::Null,
        v matches JsonValue::Object(xs) ==> with_member(v, name, value)->Object_0.len() == xs.len() + if (
        exists|i: int| 0 <= i < xs.len() && (#[trigger] xs[i]).0 == name) {
            0int
        } else {
            1
        },
{
    match v {
        JsonValue::Object(xs) => {
            lemma_replaced(xs, name, value);
            lemma_place_in(xs, name, 0);
            if other != name {
                lemma_other_members_stay(v, name, value, other);
            }
            let at = place_in(xs, name, 0);
            if at < xs.len() {
                assert(xs[at].0 == name);
            }
        },
        _ => {
            let none = Seq::<(Seq<char>, JsonValue)>::empty();
            lemma_replaced(none, name, value);
            if other != name {
                lemma_others_stay(none, name, value, other);
            }
        },
    }
}

/// Equal values are of one kind and equal part by part: a natural number only equals the same natural number,
/// and a text only the same text.
pub proof fn law_equal_values_are_equal_part_by_part(a: JsonValue, b: JsonValue)
    ensures
        json_equal(a, b) == json_equal(b, a),
        json_equal(a, b) && a is Natural ==> b == a,
        json_equal(a, b) && a is Negative ==> b == a,
        json_equal(a, b) && a is Text ==> b == a,
        json_equal(a, b) && a is Bool ==> b == a,
        json_equal(a, b) && a is Null ==> b == a,
        json_equal(a, b) && a is Double ==> b is Double && bits::double_equal(a->Double_0, b->Double_0),
        json_equal(a, b) && a is Array ==> b is Array && a->Array_0.len() == b->Array_0.len() && (
        forall|i: int|
            0 <= i < a->Array_0.len() ==> json_equal(#[trigger] a->Array_0[i], b->Array_0[i])),
        json_equal(a, b) && a is Object ==> b is Object && a->Object_0.len() == b->Object_0.len() && (
        forall|i: int|
            0 <= i < a->Object_0.len() ==> (#[trigger] a->Object_0[i]).0 == b->Object_0[i].0
                && json_equal(a->Object_0[i].1, b->Object_0[i].1)),
        a == b && (a is Natural || a is Negative || a is Text || a is Bool || a is Null) ==> json_equal(
            a,
            b,
        ),
    decreases a,
{
    match (a, b) {
        (JsonValue::Array(xs), JsonValue::Array(ys)) => {
            if xs.len() == ys.len() {
                assert forall|i: int| 0 <= i < xs.len() implies json_equal(xs[i], ys[i]) == json_equal(
                    ys[i],
                    xs[i],
                ) by {
                    law_equal_values_are_equal_part_by_part(xs[i], ys[i]);
                }
                if json_equal(a, b) {
                    assert forall|i: int| 0 <= i < ys.len() implies json_equal(#[trigger] ys[i], xs[i]) by {
                        assert(json_equal(xs[i], ys[i]));
                    }
                }
                if json_equal(b, a) {
                    assert forall|i: int| 0 <= i < xs.len() implies json_equal(#[trigger] xs[i], ys[i]) by {
                        assert(json_equal(ys[i], xs[i]));
                    }
                }
            }
        },
        (JsonValue::Object(xs), JsonValue::Object(ys)) => {
            if xs.len() == ys.len() {
                assert forall|i: int| 0 <= i < xs.len() implies json_equal(xs[i].1, ys[i].1) == json_equal(
                    ys[i].1,
                    xs[i].1,
                ) by {
                    assert(decreases_to!(a => xs[i].1));
                    law_equal_values_are_equal_part_by_part(xs[i].1, ys[i].1);
                }
                if json_equal(a, b) {
                    assert forall|i: int| 0 <= i < ys.len() implies (#[trigger] ys[i]).0 == xs[i].0
                        && json_equal(ys[i].1, xs[i].1) by {
                        assert(xs[i].0 == ys[i].0 && json_equal(xs[i].1, ys[i].1));
                    }
                }
                if json_equal(b, a) {
                    assert forall|i: int| 0 <= i < xs.len() implies (#[trigger] xs[i]).0 == ys[i].0
                        && json_equal(xs[i].1, ys[i].1) by {
                        assert(ys[i].0 == xs[i].0 && json_equal(ys[i].1, xs[i].1));
                    }
                }
            }
        },
        _ => {},
    }
}

} // verus!
