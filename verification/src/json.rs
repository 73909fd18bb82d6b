//! JSON values, as the language server and the tool calls exchange them.
use crate::text::same_text;
use serde_json::Value;
use vstd::prelude::*;
use vstd::utf8::encode_utf8;

verus! {

/// `serde_json::Value`: a JSON value as the parser and the serializer hold it.
#[verifier::external_type_specification]
#[verifier::external_body]
pub struct ExValue(serde_json::Value);

/// `serde_json::Number`: a JSON number as the parser and the serializer hold it.
#[verifier::external_type_specification]
#[verifier::external_body]
pub struct ExNumber(serde_json::Number);

/// `serde_json::Error`: why a text is no JSON.
#[verifier::external_type_specification]
#[verifier::external_body]
pub struct ExError(serde_json::Error);

/// A number that is no integer of 64 bits. Nothing here looks into it.
#[derive(Debug)]
pub struct Fraction {
    number: serde_json::Number,
}

/// A JSON number.
#[derive(Debug)]
pub enum JsonNumber {
    Unsigned(u64),
    Signed(i64),
    Fraction(Fraction),
}

/// A JSON value. Of two members of an object with the same name the later one counts.
#[derive(Debug)]
pub enum Json {
    Null,
    Bool(bool),
    Number(JsonNumber),
    Text(String),
    Array(Vec<Json>),
    Object(Vec<(String, Json)>),
}

/// What a JSON number is.
pub enum NumberView {
    Integer(int),
    Fraction(Fraction),
}

/// What a JSON value is: an object is a map from names to values.
#[verifier::ext_equal]
pub enum JsonView {
    Null,
    Bool(bool),
    Number(NumberView),
    Text(Seq<char>),
    Array(Seq<JsonView>),
    Object(Map<Seq<char>, JsonView>),
}

impl View for JsonNumber {
    type V = NumberView;

    open spec fn view(&self) -> NumberView {
        match *self {
            JsonNumber::Unsigned(n) => NumberView::Integer(n as int),
            JsonNumber::Signed(n) => NumberView::Integer(n as int),
            JsonNumber::Fraction(n) => NumberView::Fraction(n),
        }
    }
}

pub open spec fn json_view(value: Json) -> JsonView
    decreases value,
{
    match value {
        Json::Null => JsonView::Null,
        Json::Bool(b) => JsonView::Bool(b),
        Json::Number(n) => JsonView::Number(n@),
        Json::Text(text) => JsonView::Text(text@),
        Json::Array(items) => JsonView::Array(items_view(items@)),
        Json::Object(members) => JsonView::Object(members_view(members@)),
    }
}

/// The items of an array, in order.
pub open spec fn items_view(items: Seq<Json>) -> Seq<JsonView>
    decreases items,
{
    if items.len() == 0 {
        Seq::empty()
    } else {
        items_view(items.drop_last()).push(json_view(items.last()))
    }
}

/// The members of an object, by name.
pub open spec fn members_view(members: Seq<(String, Json)>) -> Map<Seq<char>, JsonView>
    decreases members,
{
    if members.len() == 0 {
        Map::empty()
    } else {
        members_view(members.drop_last()).insert(members.last().0@, json_view(members.last().1))
    }
}

impl View for Json {
    type V = JsonView;

    open spec fn view(&self) -> JsonView {
        json_view(*self)
    }
}

/// The member of that name, where the value is an object that has one.
pub open spec fn json_member(value: JsonView, name: Seq<char>) -> Option<JsonView> {
    match value {
        JsonView::Object(members) => if members.dom().contains(name) {
            Some(members[name])
        } else {
            None
        },
        _ => None,
    }
}

/// The value as an integer from 0 to the largest of 64 bits, where it is one.
pub open spec fn json_u64(value: JsonView) -> Option<u64> {
    match value {
        JsonView::Number(NumberView::Integer(n)) => if 0 <= n <= u64::MAX {
            Some(n as u64)
        } else {
            None
        },
        _ => None,
    }
}

/// The text, where the value is one.
pub open spec fn json_text(value: JsonView) -> Option<Seq<char>> {
    match value {
        JsonView::Text(text) => Some(text),
        _ => None,
    }
}

/// The value with that member set. Null counts as the empty object.
pub open spec fn json_with_member(value: JsonView, name: Seq<char>, member: JsonView) -> JsonView {
    match value {
        JsonView::Object(members) => JsonView::Object(members.insert(name, member)),
        _ => JsonView::Object(Map::empty().insert(name, member)),
    }
}

/// Whether a member can be set in the value.
pub open spec fn takes_members(value: JsonView) -> bool {
    value is Object || value is Null
}

/// Whether arrays and objects lie no more than that many levels deep one inside another.
pub open spec fn nested_within(value: JsonView, levels: nat) -> bool
    decreases levels,
{
    match value {
        JsonView::Array(items) => levels > 0 && forall|i: int|
            0 <= i < items.len() ==> nested_within(#[trigger] items[i], (levels - 1) as nat),
        JsonView::Object(members) => levels > 0 && forall|name: Seq<char>|
            members.dom().contains(name) ==> nested_within(
                #[trigger] members[name],
                (levels - 1) as nat,
            ),
        _ => true,
    }
}

/// How many levels deep arrays and objects may lie in a text that is read.
pub open spec fn readable_levels() -> nat {
    127
}

/// The name by which the parser knows a member that holds JSON in a text.
pub open spec fn raw_name() -> Seq<char> {
    "$serde_json::private::RawValue"@
}

/// Whether no object in a value, at any depth, has a member that the parser takes for JSON in a text.
pub open spec fn plain_names(value: JsonView) -> bool
    decreases value,
{
    match value {
        JsonView::Array(items) => forall|i: int|
            0 <= i < items.len() ==> plain_names(#[trigger] items[i]),
        JsonView::Object(members) => forall|name: Seq<char>|
            #[trigger] members.dom().contains(name) ==> name != raw_name() && plain_names(
                members[name],
            ),
        _ => true,
    }
}

/// A name that does not begin like that of the parser is plain.
pub(crate) proof fn lemma_plain_name(name: Seq<char>)
    requires
        name.len() > 0 ==> name[0] != '$',
    ensures
        name != raw_name(),
{
    reveal_strlit("$serde_json::private::RawValue");
}

/// Whether the text of a value can be read: the value is not nested too deeply, and its names are
/// plain.
pub open spec fn is_readable(value: JsonView) -> bool {
    nested_within(value, readable_levels()) && plain_names(value)
}

/// Whether no text in a value, at any depth, and no name of a member has more than that many bytes.
pub open spec fn texts_within(value: JsonView, bytes: nat) -> bool
    decreases value,
{
    match value {
        JsonView::Text(text) => encode_utf8(text).len() <= bytes,
        JsonView::Array(items) => forall|i: int|
            0 <= i < items.len() ==> texts_within(#[trigger] items[i], bytes),
        JsonView::Object(members) => forall|name: Seq<char>|
            #[trigger] members.dom().contains(name) ==> encode_utf8(name).len() <= bytes
                && texts_within(members[name], bytes),
        _ => true,
    }
}

/// Whether the text of a value is read back as that value. It is not empty then.
pub open spec fn reads_back(value: JsonView) -> bool {
    rendered_json(value).len() > 0 && parsed_json(encode_utf8(rendered_json(value))) == Some(value)
}

/// Whether the list tells the members of an object, each name once.
pub open spec fn lists_members(
    listed: Seq<(Seq<char>, JsonView)>,
    all: Map<Seq<char>, JsonView>,
) -> bool {
    &&& forall|k: int|
        0 <= k < listed.len() ==> all.dom().contains((#[trigger] listed[k]).0)
            && all[listed[k].0] == listed[k].1
    &&& forall|j: int, k: int|
        0 <= j < k < listed.len() ==> (#[trigger] listed[j]).0 != (#[trigger] listed[k]).0
    &&& forall|name: Seq<char>|
        all.dom().contains(name) ==> exists|k: int|
            0 <= k < listed.len() && (#[trigger] listed[k]).0 == name
}

pub(crate) proof fn lemma_items_view(items: Seq<Json>)
    ensures
        items_view(items).len() == items.len(),
        forall|i: int| 0 <= i < items.len() ==> #[trigger] items_view(items)[i] == items[i]@,
    decreases items.len(),
{
    if items.len() > 0 {
        lemma_items_view(items.drop_last());
    }
}

proof fn lemma_texts_of_items(items: Seq<JsonView>, bytes: nat)
    ensures
        texts_within(JsonView::Array(items), bytes) == forall|i: int|
            0 <= i < items.len() ==> texts_within(#[trigger] items[i], bytes),
{
    let value = JsonView::Array(items);
    if texts_within(value, bytes) {
        assert forall|i: int| 0 <= i < items.len() implies texts_within(
            #[trigger] items[i],
            bytes,
        ) by {
            assert(value->Array_0[i] == items[i]);
        }
    }
    if forall|i: int| 0 <= i < items.len() ==> texts_within(#[trigger] items[i], bytes) {
        assert(texts_within(value, bytes));
    }
}

proof fn lemma_texts_of_members(members: Map<Seq<char>, JsonView>, bytes: nat)
    ensures
        texts_within(JsonView::Object(members), bytes) == forall|name: Seq<char>|
            #[trigger] members.dom().contains(name) ==> encode_utf8(name).len() <= bytes
                && texts_within(members[name], bytes),
{
    let value = JsonView::Object(members);
    if texts_within(value, bytes) {
        assert forall|name: Seq<char>| #[trigger] members.dom().contains(name) implies encode_utf8(
            name,
        ).len() <= bytes && texts_within(members[name], bytes) by {
            assert(value->Object_0.dom().contains(name));
        }
    }
    if forall|name: Seq<char>|
        #[trigger] members.dom().contains(name) ==> encode_utf8(name).len() <= bytes
            && texts_within(members[name], bytes) {
        assert(texts_within(value, bytes));
    }
}

/// A member that no later one shadows can be replaced where it stands.
proof fn lemma_members_update(members: Seq<(String, Json)>, at: int, name: String, member: Json)
    requires
        0 <= at < members.len(),
        members[at].0@ == name@,
        forall|j: int| at < j < members.len() ==> (#[trigger] members[j]).0@ != name@,
    ensures
        members_view(members.update(at, (name, member))) == members_view(members).insert(
            name@,
            member@,
        ),
    decreases members.len(),
{
    let updated = members.update(at, (name, member));
    if at == members.len() - 1 {
        assert(updated.drop_last() =~= members.drop_last());
        assert(members_view(updated) =~= members_view(members).insert(name@, member@));
    } else {
        assert(updated.drop_last() =~= members.drop_last().update(at, (name, member)));
        lemma_members_update(members.drop_last(), at, name, member);
        assert(members_view(updated) =~= members_view(members).insert(name@, member@));
    }
}

/// Where the last member of that name ends in the list of members; 0 where there is none.
spec fn is_member_end(members: Seq<(String, Json)>, after: int, name: Seq<char>) -> bool {
    &&& 0 <= after <= members.len()
    &&& after > 0 ==> members[after - 1].0@ == name
    &&& forall|j: int| after <= j < members.len() ==> (#[trigger] members[j]).0@ != name
}

proof fn lemma_member_end(members: Seq<(String, Json)>, after: int, name: Seq<char>)
    requires
        is_member_end(members, after, name),
    ensures
        members_view(members).dom().contains(name) == (after > 0),
        after > 0 ==> members_view(members)[name] == members[after - 1].1@,
    decreases members.len(),
{
    if after < members.len() {
        lemma_member_end(members.drop_last(), after, name);
    }
}

proof fn lemma_one_end(members: Seq<(String, Json)>, one: int, other: int, name: Seq<char>)
    requires
        is_member_end(members, one, name),
        is_member_end(members, other, name),
    ensures
        one == other,
{
    if one < other {
        assert(members[other - 1].0@ == name);
    }
    if other < one {
        assert(members[one - 1].0@ == name);
    }
}

proof fn lemma_has_end(members: Seq<(String, Json)>, name: Seq<char>) -> (after: int)
    ensures
        is_member_end(members, after, name),
    decreases members.len(),
{
    if members.len() == 0 {
        0
    } else if members.last().0@ == name {
        members.len() as int
    } else {
        let after = lemma_has_end(members.drop_last(), name);
        assert forall|j: int| after <= j < members.len() implies (#[trigger] members[j]).0@
            != name by {
            if j < members.len() - 1 {
                assert(members.drop_last()[j].0@ != name);
            }
        }
        assert(after > 0 ==> members[after - 1] == members.drop_last()[after - 1]);
        after
    }
}

fn member_end(members: &Vec<(String, Json)>, name: &str) -> (after: usize)
    ensures
        is_member_end(members@, after as int, name@),
{
    let mut after: usize = members.len();
    while after > 0
        invariant
            after <= members@.len(),
            forall|j: int| after <= j < members@.len() ==> (#[trigger] members@[j]).0@ != name@,
        decreases after,
    {
        if same_text(members[after - 1].0.as_str(), name) {
            return after;
        }
        after -= 1;
    }
    after
}

/// What a `serde_json::Value` holds.
pub uninterp spec fn value_contents(value: serde_json::Value) -> JsonView;

/// The JSON value that bytes spell, where they spell one.
pub uninterp spec fn parsed_json(bytes: Seq<u8>) -> Option<JsonView>;

/// The compact text of a JSON value.
pub uninterp spec fn rendered_json(value: JsonView) -> Seq<char>;

/// `serde_json::from_slice`: whether the bytes are JSON, and which value they spell, depends on
/// the bytes alone.
#[verifier::external_body]
fn value_of_bytes(bytes: &[u8]) -> (value: Result<serde_json::Value, serde_json::Error>)
    ensures
        match value {
            Ok(value) => parsed_json(bytes@) == Some(value_contents(value)),
            Err(_) => parsed_json(bytes@) is None,
        },
{
    serde_json::from_slice(bytes)
}

/// `<serde_json::Value as Display>::to_string`: the text depends on the value alone (members of an
/// object come in the order of their names). It is never empty. `serde_json::from_slice` reads the
/// value back, unless it is nested more deeply than the parser goes or has a member that the parser
/// takes for JSON in a text.
#[verifier::external_body]
fn text_of_value(value: &serde_json::Value) -> (text: String)
    ensures
        text@ == rendered_json(value_contents(*value)),
        text@.len() > 0,
        is_readable(value_contents(*value)) ==> parsed_json(encode_utf8(text@)) == Some(
            value_contents(*value),
        ),
{
    value.to_string()
}

/// The variants of `serde_json::Value`, one for one: the same value in this library's type.
#[verifier::external_body]
fn json_of_value(value: &serde_json::Value) -> (json: Json)
    ensures
        json@ == value_contents(*value),
{
    match value {
        Value::Null => Json::Null,
        Value::Bool(b) => Json::Bool(*b),
        Value::Number(n) => Json::Number(match (n.as_u64(), n.as_i64()) {
            (Some(u), _) => JsonNumber::Unsigned(u),
            (None, Some(i)) => JsonNumber::Signed(i),
            (None, None) => JsonNumber::Fraction(Fraction { number: n.clone() }),
        }),
        Value::String(s) => Json::Text(s.clone()),
        Value::Array(items) => Json::Array(items.iter().map(json_of_value).collect()),
        Value::Object(members) =>
            Json::Object(members.iter().map(|(k, v)| (k.clone(), json_of_value(v))).collect()),
    }
}

/// The variants of `serde_json::Value`, one for one: the same value in the serializer's type. A
/// later member replaces an earlier one of its name.
#[verifier::external_body]
fn value_of_json(json: &Json) -> (value: serde_json::Value)
    ensures
        value_contents(value) == json@,
{
    match json {
        Json::Null => Value::Null,
        Json::Bool(b) => Value::Bool(*b),
        Json::Number(JsonNumber::Unsigned(n)) => Value::from(*n),
        Json::Number(JsonNumber::Signed(n)) => Value::from(*n),
        Json::Number(JsonNumber::Fraction(n)) => Value::Number(n.number.clone()),
        Json::Text(s) => Value::String(s.clone()),
        Json::Array(items) => Value::Array(items.iter().map(value_of_json).collect()),
        Json::Object(members) => Value::Object(
            members.iter().map(|(k, v)| (k.clone(), value_of_json(v))).collect()),
    }
}

/// `<serde_json::Number as Clone>::clone`: the same number.
#[verifier::external_body]
fn copy_number(number: &serde_json::Number) -> (copy: serde_json::Number)
    ensures
        copy == *number,
{
    number.clone()
}

impl Json {
    /// Reads JSON from bytes. `None` where they are no JSON.
    pub fn parse(bytes: &[u8]) -> (json: Option<Json>)
        ensures
            match json {
                Some(json) => parsed_json(bytes@) == Some(json@),
                None => parsed_json(bytes@) is None,
            },
    {
        match value_of_bytes(bytes) {
            Ok(value) => Some(json_of_value(&value)),
            Err(_) => None,
        }
    }

    /// The value's compact text.
    pub fn render(&self) -> (text: String)
        ensures
            text@ == rendered_json(self@),
            is_readable(self@) ==> reads_back(self@),
    {
        text_of_value(&value_of_json(self))
    }

    /// The same value, out of the parser's type.
    pub fn from_value(value: &serde_json::Value) -> (json: Json)
        ensures
            json@ == value_contents(*value),
    {
        json_of_value(value)
    }

    /// The same value, in the serializer's type.
    pub fn to_value(&self) -> (value: serde_json::Value)
        ensures
            value_contents(value) == self@,
    {
        value_of_json(self)
    }

    /// A text.
    pub fn text(text: &str) -> (json: Json)
        ensures
            json@ == JsonView::Text(text@),
    {
        Json::Text(text.to_owned())
    }

    /// An integer.
    pub fn integer(n: u64) -> (json: Json)
        ensures
            json@ == JsonView::Number(NumberView::Integer(n as int)),
    {
        Json::Number(JsonNumber::Unsigned(n))
    }

    /// The object without members.
    pub fn object() -> (json: Json)
        ensures
            json@ == JsonView::Object(Map::empty()),
    {
        Json::Object(Vec::new())
    }

    /// An array.
    pub fn array(items: Vec<Json>) -> (json: Json)
        ensures
            json@ == JsonView::Array(items.deep_view()),
    {
        proof {
            lemma_items_view(items@);
            assert(items_view(items@) =~= items.deep_view());
        }
        Json::Array(items)
    }

    /// A second copy of the value.
    pub fn copy(&self) -> (json: Json)
        ensures
            json@ == self@,
        decreases self,
    {
        match self {
            Json::Null => Json::Null,
            Json::Bool(b) => Json::Bool(*b),
            Json::Number(JsonNumber::Unsigned(n)) => Json::Number(JsonNumber::Unsigned(*n)),
            Json::Number(JsonNumber::Signed(n)) => Json::Number(JsonNumber::Signed(*n)),
            Json::Number(JsonNumber::Fraction(n)) => Json::Number(
                JsonNumber::Fraction(Fraction { number: copy_number(&n.number) }),
            ),
            Json::Text(text) => Json::Text(text.clone()),
            Json::Array(items) => {
                let mut copies: Vec<Json> = Vec::new();
                let mut i: usize = 0;
                while i < items.len()
                    invariant
                        i <= items@.len(),
                        *self == Json::Array(*items),
                        items_view(copies@) == items_view(items@.take(i as int)),
                    decreases items@.len() - i,
                {
                    assert(decreases_to!(*self => self->Array_0));
                    assert(decreases_to!(*items => items@));
                    assert(decreases_to!(items@ => items@[i as int]));
                    let item = items[i].copy();
                    let ghost before = copies@;
                    copies.push(item);
                    proof {
                        assert(copies@.drop_last() =~= before);
                        assert(items@.take(i + 1).drop_last() =~= items@.take(i as int));
                    }
                    i += 1;
                }
                assert(items@.take(i as int) =~= items@);
                Json::Array(copies)
            },
            Json::Object(members) => {
                let mut copies: Vec<(String, Json)> = Vec::new();
                let mut i: usize = 0;
                while i < members.len()
                    invariant
                        i <= members@.len(),
                        *self == Json::Object(*members),
                        members_view(copies@) == members_view(members@.take(i as int)),
                    decreases members@.len() - i,
                {
                    assert(decreases_to!(*self => self->Object_0));
                    assert(decreases_to!(*members => members@));
                    assert(decreases_to!(members@ => members@[i as int]));
                    assert(decreases_to!(members@[i as int] => members@[i as int].1));
                    let member = members[i].1.copy();
                    let ghost before = copies@;
                    copies.push((members[i].0.clone(), member));
                    proof {
                        assert(copies@.drop_last() =~= before);
                        assert(members@.take(i + 1).drop_last() =~= members@.take(i as int));
                    }
                    i += 1;
                }
                assert(members@.take(i as int) =~= members@);
                Json::Object(copies)
            },
        }
    }

    /// The member of that name; `None` for anything but an object that has one.
    pub fn get(&self, name: &str) -> (member: Option<&Json>)
        ensures
            match member {
                Some(member) => json_member(self@, name@) == Some(member@),
                None => json_member(self@, name@) is None,
            },
    {
        match self {
            Json::Object(members) => {
                let after = member_end(members, name);
                proof {
                    lemma_member_end(members@, after as int, name@);
                }
                if after > 0 {
                    Some(&members[after - 1].1)
                } else {
                    None
                }
            },
            _ => None,
        }
    }

    /// The value as an unsigned integer, where it is one.
    pub fn as_u64(&self) -> (n: Option<u64>)
        ensures
            n == json_u64(self@),
    {
        match self {
            Json::Number(JsonNumber::Unsigned(n)) => Some(*n),
            Json::Number(JsonNumber::Signed(n)) => if *n >= 0 {
                Some(*n as u64)
            } else {
                None
            },
            _ => None,
        }
    }

    /// The text, where the value is one.
    pub fn as_text(&self) -> (text: Option<&str>)
        ensures
            match text {
                Some(text) => json_text(self@) == Some(text@),
                None => json_text(self@) is None,
            },
    {
        match self {
            Json::Text(text) => Some(text.as_str()),
            _ => None,
        }
    }

    /// Whether no text in the value, and no name of a member, has more than that many bytes.
    pub fn texts_within(&self, bytes: usize) -> (within: bool)
        ensures
            within == texts_within(self@, bytes as nat),
        decreases self,
    {
        match self {
            Json::Text(text) => text.as_str().as_bytes().len() <= bytes,
            Json::Array(items) => {
                proof {
                    lemma_items_view(items@);
                }
                let mut i: usize = 0;
                while i < items.len()
                    invariant
                        i <= items@.len(),
                        *self == Json::Array(*items),
                        items_view(items@).len() == items@.len(),
                        forall|k: int|
                            0 <= k < items@.len() ==> #[trigger] items_view(items@)[k] == items@[k]@,
                        forall|k: int|
                            0 <= k < i ==> texts_within(
                                #[trigger] items_view(items@)[k],
                                bytes as nat,
                            ),
                    decreases items@.len() - i,
                {
                    assert(decreases_to!(*self => self->Array_0));
                    assert(decreases_to!(*items => items@));
                    assert(decreases_to!(items@ => items@[i as int]));
                    if !items[i].texts_within(bytes) {
                        proof {
                            lemma_texts_of_items(items_view(items@), bytes as nat);
                            assert(self@ == JsonView::Array(items_view(items@)));
                            assert(!texts_within(items_view(items@)[i as int], bytes as nat));
                        }
                        return false;
                    }
                    i += 1;
                }
                proof {
                    lemma_texts_of_items(items_view(items@), bytes as nat);
                    assert(self@ == JsonView::Array(items_view(items@)));
                }
                true
            },
            Json::Object(members) => {
                let mut i: usize = 0;
                while i < members.len()
                    invariant
                        i <= members@.len(),
                        *self == Json::Object(*members),
                        forall|name: Seq<char>, after: int|
                            0 < after <= i && #[trigger] is_member_end(members@, after, name)
                                ==> encode_utf8(name).len() <= bytes && texts_within(
                                members@[after - 1].1@,
                                bytes as nat,
                            ),
                    decreases members@.len() - i,
                {
                    let name = members[i].0.as_str();
                    let after = member_end(members, name);
                    if after == i + 1 {
                        assert(decreases_to!(*self => self->Object_0));
                        assert(decreases_to!(*members => members@));
                        assert(decreases_to!(members@ => members@[i as int]));
                        assert(decreases_to!(members@[i as int] => members@[i as int].1));
                        if name.as_bytes().len() > bytes || !members[i].1.texts_within(bytes) {
                            proof {
                                lemma_texts_of_members(members_view(members@), bytes as nat);
                                lemma_member_end(members@, after as int, name@);
                                assert(self@ == JsonView::Object(members_view(members@)));
                                assert(!texts_within(members_view(members@)[name@], bytes as nat)
                                    || encode_utf8(name@).len() > bytes);
                            }
                            return false;
                        }
                    }
                    proof {
                        assert forall|other: Seq<char>, end: int|
                            0 < end <= i + 1 && #[trigger] is_member_end(
                                members@,
                                end,
                                other,
                            ) implies encode_utf8(other).len() <= bytes && texts_within(
                            members@[end - 1].1@,
                            bytes as nat,
                        ) by {
                            if end == i + 1 {
                                lemma_one_end(members@, end, after as int, other);
                            }
                        }
                    }
                    i += 1;
                }
                proof {
                    let all = members_view(members@);
                    assert(self@ == JsonView::Object(all));
                    lemma_texts_of_members(all, bytes as nat);
                    assert forall|name: Seq<char>| #[trigger]
                        all.dom().contains(name) implies encode_utf8(name).len() <= bytes
                        && texts_within(all[name], bytes as nat) by {
                        let after = lemma_has_end(members@, name);
                        lemma_member_end(members@, after, name);
                    }
                }
                true
            },
            _ => true,
        }
    }

    /// The items, where the value is an array.
    pub fn items(&self) -> (items: Option<&Vec<Json>>)
        ensures
            match items {
                Some(items) => self@ == JsonView::Array(items.deep_view()),
                None => !(self@ is Array),
            },
    {
        match self {
            Json::Array(items) => {
                proof {
                    lemma_items_view(items@);
                    assert(items_view(items@) =~= items.deep_view());
                }
                Some(items)
            },
            _ => None,
        }
    }

    /// The members, each name once, where the value is an object.
    pub fn members(&self) -> (members: Option<Vec<(&str, &Json)>>)
        ensures
            match members {
                Some(members) => self@ matches JsonView::Object(all) && lists_members(
                    members.deep_view(),
                    all,
                ),
                None => !(self@ is Object),
            },
    {
        match self {
            Json::Object(members) => {
                let mut counting: Vec<(&str, &Json)> = Vec::new();
                let ghost mut at: Seq<int> = Seq::empty();
                let mut i: usize = 0;
                while i < members.len()
                    invariant
                        i <= members@.len(),
                        at.len() == counting@.len(),
                        forall|k: int|
                            0 <= k < counting@.len() ==> 0 <= #[trigger] at[k] < i
                                && counting@[k].0@ == members@[at[k]].0@ && counting@[k].1@
                                == members@[at[k]].1@ && is_member_end(
                                members@,
                                at[k] + 1,
                                counting@[k].0@,
                            ),
                        forall|j: int, k: int|
                            0 <= j < k < counting@.len() ==> (#[trigger] counting@[j]).0@ != (
                            #[trigger] counting@[k]).0@,
                        forall|name: Seq<char>, after: int|
                            0 < after <= i && #[trigger] is_member_end(members@, after, name)
                                ==> exists|k: int|
                                0 <= k < counting@.len() && (#[trigger] counting@[k]).0@ == name,
                    decreases members@.len() - i,
                {
                    let name = members[i].0.as_str();
                    let after = member_end(members, name);
                    let ghost before = counting@;
                    if after == i + 1 {
                        counting.push((name, &members[i].1));
                        proof {
                            at = at.push(i as int);
                            assert(counting@[before.len() as int].0@ == name@);
                            assert forall|j: int| 0 <= j < before.len() implies (
                            #[trigger] before[j]).0@ != name@ by {
                                assert(at[j] + 1 <= i);
                                assert(members@[i as int].0@ == name@);
                            }
                        }
                    }
                    proof {
                        assert forall|other: Seq<char>, end: int|
                            0 < end <= i + 1 && #[trigger] is_member_end(
                                members@,
                                end,
                                other,
                            ) implies exists|k: int|
                            0 <= k < counting@.len() && (#[trigger] counting@[k]).0@ == other by {
                            if end <= i {
                                let k = choose|k: int|
                                    0 <= k < before.len() && (#[trigger] before[k]).0@ == other;
                                assert(counting@[k].0@ == other);
                            } else {
                                assert(other == name@);
                                lemma_one_end(members@, end, after as int, other);
                                assert(counting@[before.len() as int].0@ == other);
                            }
                        }
                    }
                    i += 1;
                }
                proof {
                    let all = members_view(members@);
                    let listed = counting.deep_view();
                    assert forall|k: int| 0 <= k < listed.len() implies all.dom().contains(
                        (#[trigger] listed[k]).0,
                    ) && all[listed[k].0] == listed[k].1 by {
                        assert(listed[k] == (counting@[k].0@, counting@[k].1@));
                        lemma_member_end(members@, at[k] + 1, counting@[k].0@);
                    }
                    assert forall|name: Seq<char>| all.dom().contains(name) implies exists|k: int|
                        0 <= k < listed.len() && (#[trigger] listed[k]).0 == name by {
                        let after = lemma_has_end(members@, name);
                        lemma_member_end(members@, after, name);
                        let k = choose|k: int|
                            0 <= k < counting@.len() && (#[trigger] counting@[k]).0@ == name;
                        assert(listed[k].0 == name);
                    }
                    assert forall|j: int, k: int| 0 <= j < k < listed.len() implies (
                    #[trigger] listed[j]).0 != (#[trigger] listed[k]).0 by {
                        assert(counting@[j].0@ != counting@[k].0@);
                    }
                }
                Some(counting)
            },
            _ => None,
        }
    }

    /// Sets the member of that name. Null becomes an object.
    pub fn set(&mut self, name: &str, member: Json)
        requires
            takes_members(old(self)@),
        ensures
            final(self)@ == json_with_member(old(self)@, name@, member@),
    {
        match self {
            Json::Object(members) => {
                let ghost before = members@;
                let after = member_end(members, name);
                let key = name.to_owned();
                if after > 0 {
                    proof {
                        lemma_members_update(before, after - 1, key, member);
                    }
                    members.set(after - 1, (key, member));
                    assert(members_view(members@) == members_view(before).insert(name@, member@));
                } else {
                    members.push((key, member));
                    assert(members@.drop_last() =~= before);
                    assert(members_view(members@) == members_view(before).insert(name@, member@));
                }
            },
            _ => {
                let mut members: Vec<(String, Json)> = Vec::new();
                members.push((name.to_owned(), member));
                assert(members@.drop_last() =~= Seq::<(String, Json)>::empty());
                assert(members_view(members@.drop_last()) == Map::<Seq<char>, JsonView>::empty());
                assert(members_view(members@) == Map::<Seq<char>, JsonView>::empty().insert(
                    name@,
                    member@,
                ));
                *self = Json::Object(members);
            },
        }
    }
}

/// A member that was set is read back, and the others stay as they were.
pub proof fn a_set_member_is_read_back(
    value: JsonView,
    name: Seq<char>,
    member: JsonView,
    other: Seq<char>,
)
    requires
        takes_members(value),
    ensures
        json_member(json_with_member(value, name, member), name) == Some(member),
        other != name ==> json_member(json_with_member(value, name, member), other) == json_member(
            value,
            other,
        ),
{
}

/// A value is seen as it is: texts, flags and integers as they are, the items of an array one for one, and
/// of the members of an object with the same name the last.
pub proof fn a_value_is_seen_as_it_is(
    items: Vec<Json>,
    members: Vec<(String, Json)>,
    at: int,
    text: String,
    flag: bool,
    unsigned: u64,
    signed: i64,
)
    ensures
        Json::Null@ == JsonView::Null,
        Json::Bool(flag)@ == JsonView::Bool(flag),
        Json::Text(text)@ == JsonView::Text(text@),
        Json::Number(JsonNumber::Unsigned(unsigned))@ == JsonView::Number(
            NumberView::Integer(unsigned as int),
        ),
        Json::Number(JsonNumber::Signed(signed))@ == JsonView::Number(
            NumberView::Integer(signed as int),
        ),
        Json::Array(items)@ matches JsonView::Array(seen) && seen.len() == items@.len() && (0 <= at
            < items@.len() ==> seen[at] == items@[at]@),
        0 <= at < members@.len() && (forall|j: int|
            at < j < members@.len() ==> (#[trigger] members@[j]).0@ != members@[at].0@)
            ==> json_member(Json::Object(members)@, members@[at].0@) == Some(members@[at].1@),
{
    lemma_items_view(items@);
    if 0 <= at < members@.len() && (forall|j: int|
        at < j < members@.len() ==> (#[trigger] members@[j]).0@ != members@[at].0@) {
        lemma_last_member(members@, at);
    }
}

proof fn lemma_last_member(members: Seq<(String, Json)>, at: int)
    requires
        0 <= at < members.len(),
        forall|j: int| at < j < members.len() ==> (#[trigger] members[j]).0@ != members[at].0@,
    ensures
        members_view(members).dom().contains(members[at].0@),
        members_view(members)[members[at].0@] == members[at].1@,
    decreases members.len(),
{
    if at < members.len() - 1 {
        let front = members.drop_last();
        assert forall|j: int| at < j < front.len() implies (#[trigger] front[j]).0@
            != front[at].0@ by {
            assert(front[j] == members[j]);
        }
        lemma_last_member(front, at);
        assert(members[members.len() - 1].0@ != members[at].0@);
    }
}

/// A value has no text longer than that where none in it is, at any depth: no text itself, no item of an
/// array, no member of an object, and no name of one.
pub proof fn every_text_counts(
    text: Seq<char>,
    items: Seq<JsonView>,
    members: Map<Seq<char>, JsonView>,
    bytes: nat,
)
    ensures
        texts_within(JsonView::Text(text), bytes) <==> encode_utf8(text).len() <= bytes,
        texts_within(JsonView::Array(items), bytes) <==> forall|i: int|
            0 <= i < items.len() ==> texts_within(#[trigger] items[i], bytes),
        texts_within(JsonView::Object(members), bytes) <==> forall|name: Seq<char>|
            #[trigger] members.dom().contains(name) ==> encode_utf8(name).len() <= bytes
                && texts_within(members[name], bytes),
        texts_within(JsonView::Null, bytes),
{
    lemma_texts_of_items(items, bytes);
    lemma_texts_of_members(members, bytes);
}

} // verus!
