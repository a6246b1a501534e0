//! JSON values: what the directory's documents and operations are made of.

use vstd::prelude::*;
use crate::text;

verus! {

/// `serde_json::Number`: carried through, never looked into.
#[verifier::external_type_specification]
#[verifier::external_body]
pub struct ExSerdeNumber(serde_json::Number);

/// `serde_json::Value`: the form in which JSON text is read and written.
#[verifier::external_type_specification]
#[verifier::external_body]
pub struct ExSerdeValue(serde_json::Value);

/// A JSON value.
#[derive(Debug)]
pub enum Json {
    Null,
    Bool(bool),
    Number(serde_json::Number),
    Text(String),
    Array(Vec<Json>),
    Object(JsonObject),
}

/// A JSON object: its members in the order of their names, no name twice.
#[derive(Debug)]
pub struct JsonObject {
    entries: Vec<(String, Json)>,
}

/// What a JSON value holds.
#[verifier::ext_equal]
pub enum JsonView {
    Null,
    Bool(bool),
    Number(serde_json::Number),
    Text(Seq<char>),
    Array(Seq<JsonView>),
    Object(Seq<(Seq<char>, JsonView)>),
}

/// The members are in the order of their names, no name twice.
pub open spec fn in_order(members: Seq<(Seq<char>, JsonView)>) -> bool {
    forall|i: int, j: int|
        0 <= i < j < members.len() ==> text::text_lt(
            (#[trigger] members[i]).0,
            (#[trigger] members[j]).0,
        )
}

/// The member of that name.
pub open spec fn member(members: Seq<(Seq<char>, JsonView)>, name: Seq<char>) -> Option<JsonView>
    decreases members.len(),
{
    if members.len() == 0 {
        None
    } else if members[0].0 == name {
        Some(members[0].1)
    } else {
        member(members.drop_first(), name)
    }
}

/// The members with `name` set to `value`, in its place in the order.
pub open spec fn with_member(
    members: Seq<(Seq<char>, JsonView)>,
    name: Seq<char>,
    value: JsonView,
) -> Seq<(Seq<char>, JsonView)>
    decreases members.len(),
{
    if members.len() == 0 {
        seq![(name, value)]
    } else if members[0].0 == name {
        members.update(0, (name, value))
    } else if text::text_lt(name, members[0].0) {
        seq![(name, value)] + members
    } else {
        seq![members[0]] + with_member(members.drop_first(), name, value)
    }
}

/// The member of that name, where the value is an object that has it.
pub open spec fn field(value: JsonView, name: Seq<char>) -> Option<JsonView> {
    match value {
        JsonView::Object(members) => member(members, name),
        _ => None,
    }
}

/// A member that was set is found again, and the others are as they were.
pub proof fn law_member_reads_back(
    members: Seq<(Seq<char>, JsonView)>,
    name: Seq<char>,
    value: JsonView,
    other: Seq<char>,
)
    ensures
        member(with_member(members, name, value), name) == Some(value),
        other != name ==> member(with_member(members, name, value), other) == member(
            members,
            other,
        ),
    decreases members.len(),
{
    let after = with_member(members, name, value);
    if members.len() == 0 {
        assert(after.drop_first() =~= members);
        assert(after[0].0 == name);
    } else if members[0].0 == name {
        assert(after.drop_first() =~= members.drop_first());
    } else if text::text_lt(name, members[0].0) {
        assert(after.drop_first() =~= members);
    } else {
        law_member_reads_back(members.drop_first(), name, value, other);
        assert(after.drop_first() =~= with_member(members.drop_first(), name, value));
        assert(after[0] == members[0]);
    }
}

/// Members that are in order stand in the order of the bytes of their names, and
/// no two of them have the same; setting one keeps them so.
pub proof fn law_members_in_order(
    members: Seq<(Seq<char>, JsonView)>,
    name: Seq<char>,
    value: JsonView,
    i: int,
    j: int,
)
    requires
        in_order(members),
        0 <= i < j,
    ensures
        j < members.len() ==> text::bytes_lt(
            vstd::utf8::encode_utf8(members[i].0),
            vstd::utf8::encode_utf8(members[j].0),
        ) && members[i].0 != members[j].0,
        j < with_member(members, name, value).len() ==> text::bytes_lt(
            vstd::utf8::encode_utf8(with_member(members, name, value)[i].0),
            vstd::utf8::encode_utf8(with_member(members, name, value)[j].0),
        ),
{
    lemma_with_member_in_order(members, name, value);
    if j < members.len() {
        text::lemma_bytes_lt_asymmetric(
            vstd::utf8::encode_utf8(members[i].0),
            vstd::utf8::encode_utf8(members[j].0),
        );
    }
}

/// The member that is found under a name is the first of that name; where the
/// members are in order, every one of them is found under its own name. What is
/// no object has no members.
pub proof fn law_member_is_found(
    members: Seq<(Seq<char>, JsonView)>,
    name: Seq<char>,
    at: int,
)
    ensures
        0 <= at < members.len() && members[at].0 == name && (forall|i: int|
            0 <= i < at ==> (#[trigger] members[i]).0 != name) ==> member(members, name) == Some(
            members[at].1,
        ),
        in_order(members) && 0 <= at < members.len() ==> member(members, members[at].0) == Some(
            members[at].1,
        ),
        (forall|i: int| 0 <= i < members.len() ==> (#[trigger] members[i]).0 != name) <==> member(
            members,
            name,
        ) is None,
        field(JsonView::Object(members), name) == member(members, name),
        forall|value: JsonView| !(value is Object) ==> #[trigger] field(value, name) is None,
{
    if 0 <= at < members.len() && members[at].0 == name && (forall|i: int|
        0 <= i < at ==> (#[trigger] members[i]).0 != name) {
        lemma_member_behind(members, name, at);
        assert(members.skip(at)[0] == members[at]);
    }
    if in_order(members) && 0 <= at < members.len() {
        assert forall|i: int| 0 <= i < at implies (#[trigger] members[i]).0 != members[at].0 by {
            text::lemma_bytes_lt_asymmetric(
                vstd::utf8::encode_utf8(members[i].0),
                vstd::utf8::encode_utf8(members[at].0),
            );
        }
        lemma_member_behind(members, members[at].0, at);
        assert(members.skip(at)[0] == members[at]);
    }
    lemma_member_is_missing(members, name);
}

proof fn lemma_member_is_missing(members: Seq<(Seq<char>, JsonView)>, name: Seq<char>)
    ensures
        (forall|i: int| 0 <= i < members.len() ==> (#[trigger] members[i]).0 != name) <==> member(
            members,
            name,
        ) is None,
    decreases members.len(),
{
    if members.len() > 0 {
        let rest = members.drop_first();
        lemma_member_is_missing(rest, name);
        if member(members, name) is None {
            assert forall|i: int| 0 <= i < members.len() implies (#[trigger] members[i]).0
                != name by {
                if i > 0 {
                    assert(members[i] == rest[i - 1]);
                }
            }
        } else if members[0].0 != name {
            let i = choose|i: int| 0 <= i < rest.len() && (#[trigger] rest[i]).0 == name;
            assert(members[i + 1].0 == name);
        } else {
            assert(members[0].0 == name);
        }
    }
}

/// Setting a member keeps the members in order.
pub proof fn lemma_with_member_in_order(
    members: Seq<(Seq<char>, JsonView)>,
    name: Seq<char>,
    value: JsonView,
)
    requires
        in_order(members),
    ensures
        in_order(with_member(members, name, value)),
        forall|i: int|
            0 <= i < with_member(members, name, value).len() ==> {
                let n = (#[trigger] with_member(members, name, value)[i]).0;
                n == name || exists|j: int| 0 <= j < members.len() && n == (#[trigger] members[j]).0
            },
    decreases members.len(),
{
    let after = with_member(members, name, value);
    if members.len() == 0 {
    } else if members[0].0 == name {
        assert forall|i: int, j: int| 0 <= i < j < after.len() implies text::text_lt(
            (#[trigger] after[i]).0,
            (#[trigger] after[j]).0,
        ) by {
            assert(after[i].0 == members[i].0);
            assert(after[j].0 == members[j].0);
        }
        assert forall|i: int| 0 <= i < after.len() implies {
            let n = (#[trigger] after[i]).0;
            n == name || exists|j: int| 0 <= j < members.len() && n == (#[trigger] members[j]).0
        } by {
            assert(after[i].0 == members[i].0);
        }
    } else if text::text_lt(name, members[0].0) {
        assert forall|i: int, j: int| 0 <= i < j < after.len() implies text::text_lt(
            (#[trigger] after[i]).0,
            (#[trigger] after[j]).0,
        ) by {
            assert(after[j] == members[j - 1]);
            if i > 0 {
                assert(after[i] == members[i - 1]);
            } else if j > 1 {
                assert(text::text_lt(members[0].0, members[j - 1].0));
                text::lemma_bytes_lt_transitive(
                    vstd::utf8::encode_utf8(name),
                    vstd::utf8::encode_utf8(members[0].0),
                    vstd::utf8::encode_utf8(members[j - 1].0),
                );
            }
        }
        assert forall|i: int| 0 <= i < after.len() implies {
            let n = (#[trigger] after[i]).0;
            n == name || exists|j: int| 0 <= j < members.len() && n == (#[trigger] members[j]).0
        } by {
            if i > 0 {
                assert(after[i] == members[i - 1]);
            }
        }
    } else {
        let rest = members.drop_first();
        assert forall|i: int, j: int| 0 <= i < j < rest.len() implies text::text_lt(
            (#[trigger] rest[i]).0,
            (#[trigger] rest[j]).0,
        ) by {
            assert(rest[i] == members[i + 1]);
            assert(rest[j] == members[j + 1]);
        }
        lemma_with_member_in_order(rest, name, value);
        let tail = with_member(rest, name, value);
        assert(text::text_lt(members[0].0, name)) by {
            let a = vstd::utf8::encode_utf8(members[0].0);
            let b = vstd::utf8::encode_utf8(name);
            text::lemma_bytes_lt_total(a, b);
            if a == b {
                text::lemma_encode_injective(members[0].0, name);
            }
        }
        assert forall|i: int, j: int| 0 <= i < j < after.len() implies text::text_lt(
            (#[trigger] after[i]).0,
            (#[trigger] after[j]).0,
        ) by {
            assert(after[j] == tail[j - 1]);
            if i > 0 {
                assert(after[i] == tail[i - 1]);
            } else {
                let n = tail[j - 1].0;
                if n != name {
                    let k = choose|k: int| 0 <= k < rest.len() && n == (#[trigger] rest[k]).0;
                    assert(rest[k] == members[k + 1]);
                    assert(text::text_lt(members[0].0, members[k + 1].0));
                }
            }
        }
        assert forall|i: int| 0 <= i < after.len() implies {
            let n = (#[trigger] after[i]).0;
            n == name || exists|j: int| 0 <= j < members.len() && n == (#[trigger] members[j]).0
        } by {
            if i > 0 {
                assert(after[i] == tail[i - 1]);
                let n = tail[i - 1].0;
                if n != name {
                    let k = choose|k: int| 0 <= k < rest.len() && n == (#[trigger] rest[k]).0;
                    assert(rest[k] == members[k + 1]);
                }
            } else {
                assert(after[0] == members[0]);
            }
        }
    }
}

/// The names before `at` come before `name`, so `name` is set behind them.
proof fn lemma_with_member_behind(
    members: Seq<(Seq<char>, JsonView)>,
    name: Seq<char>,
    value: JsonView,
    at: int,
)
    requires
        0 <= at <= members.len(),
        forall|i: int| 0 <= i < at ==> text::text_lt((#[trigger] members[i]).0, name),
    ensures
        with_member(members, name, value) == members.take(at) + with_member(
            members.skip(at),
            name,
            value,
        ),
    decreases at,
{
    if at == 0 {
        assert(members.skip(0) =~= members);
        assert(members.take(0) + with_member(members, name, value) =~= with_member(
            members,
            name,
            value,
        ));
    } else {
        let rest = members.drop_first();
        assert(text::text_lt(members[0].0, name));
        text::lemma_bytes_lt_asymmetric(
            vstd::utf8::encode_utf8(members[0].0),
            vstd::utf8::encode_utf8(name),
        );
        assert forall|i: int| 0 <= i < at - 1 implies text::text_lt(
            (#[trigger] rest[i]).0,
            name,
        ) by {
            assert(rest[i] == members[i + 1]);
        }
        lemma_with_member_behind(rest, name, value, at - 1);
        assert(rest.skip(at - 1) =~= members.skip(at));
        assert(seq![members[0]] + (rest.take(at - 1) + with_member(members.skip(at), name, value))
            =~= members.take(at) + with_member(members.skip(at), name, value));
    }
}

/// Where `name` does not stand before `at`, it is looked for behind it.
proof fn lemma_member_behind(members: Seq<(Seq<char>, JsonView)>, name: Seq<char>, at: int)
    requires
        0 <= at <= members.len(),
        forall|i: int| 0 <= i < at ==> (#[trigger] members[i]).0 != name,
    ensures
        member(members, name) == member(members.skip(at), name),
    decreases at,
{
    if at == 0 {
        assert(members.skip(0) =~= members);
    } else {
        let rest = members.drop_first();
        assert(members[0].0 != name);
        assert forall|i: int| 0 <= i < at - 1 implies (#[trigger] rest[i]).0 != name by {
            assert(rest[i] == members[i + 1]);
        }
        lemma_member_behind(rest, name, at - 1);
        assert(rest.skip(at - 1) =~= members.skip(at));
    }
}

impl Json {
    /// What this value holds.
    pub open spec fn view(&self) -> JsonView
        decreases self,
    {
        match self {
            Json::Null => JsonView::Null,
            Json::Bool(b) => JsonView::Bool(*b),
            Json::Number(n) => JsonView::Number(*n),
            Json::Text(t) => JsonView::Text(t@),
            Json::Array(items) => JsonView::Array(
                Seq::new(
                    items@.len(),
                    |i: int|
                        if 0 <= i < items@.len() {
                            items@[i].view()
                        } else {
                            JsonView::Null
                        },
                ),
            ),
            Json::Object(o) => JsonView::Object(o.view()),
        }
    }

    /// A text value.
    pub fn text(s: &str) -> (r: Json)
        ensures
            r@ == JsonView::Text(s@),
    {
        Json::Text(s.to_owned())
    }

    /// The text, where this value is one.
    pub fn as_text(&self) -> (r: Option<&String>)
        ensures
            match self@ {
                JsonView::Text(t) => r matches Some(s) && s@ == t,
                _ => r is None,
            },
    {
        match self {
            Json::Text(t) => Some(t),
            _ => None,
        }
    }

    /// The items, where this value is an array.
    pub fn as_array(&self) -> (r: Option<&Vec<Json>>)
        ensures
            match self@ {
                JsonView::Array(items) => r matches Some(v) && views(v@) == items,
                _ => r is None,
            },
    {
        match self {
            Json::Array(items) => {
                assert(views(items@) =~= self@->Array_0);
                Some(items)
            },
            _ => None,
        }
    }

    /// The member of that name, where this value is an object that has it.
    pub fn get(&self, name: &str) -> (r: Option<&Json>)
        ensures
            match field(self@, name@) {
                Some(v) => r matches Some(j) && j@ == v,
                None => r is None,
            },
    {
        match self {
            Json::Object(o) => o.get(name),
            _ => None,
        }
    }
}

/// What a value holds is what it was made of; the items of an array one for one.
pub proof fn law_json_holds_what_it_is_made_of(
    b: bool,
    n: serde_json::Number,
    t: String,
    items: Vec<Json>,
    object: JsonObject,
    i: int,
)
    ensures
        Json::Null@ == JsonView::Null,
        Json::Bool(b)@ == JsonView::Bool(b),
        Json::Number(n)@ == JsonView::Number(n),
        Json::Text(t)@ == JsonView::Text(t@),
        Json::Array(items)@ == JsonView::Array(views(items@)),
        views(items@).len() == items@.len(),
        0 <= i < items@.len() ==> views(items@)[i] == items@[i]@,
        Json::Object(object)@ == JsonView::Object(object@),
{
    assert(Json::Array(items)@->Array_0 =~= views(items@));
}

/// What a sequence of JSON values holds.
pub open spec fn views(items: Seq<Json>) -> Seq<JsonView> {
    items.map_values(|j: Json| j@)
}

impl JsonObject {
    /// The members of this object.
    pub closed spec fn view(&self) -> Seq<(Seq<char>, JsonView)>
        decreases self,
    {
        Seq::new(
            self.entries@.len(),
            |i: int|
                if 0 <= i < self.entries@.len() {
                    (self.entries@[i].0@, self.entries@[i].1.view())
                } else {
                    (seq![], JsonView::Null)
                },
        )
    }

    #[verifier::type_invariant]
    spec fn well_formed(self) -> bool {
        in_order(self@)
    }

    /// An object without members.
    pub fn new() -> (r: JsonObject)
        ensures
            r@ == Seq::<(Seq<char>, JsonView)>::empty(),
    {
        let r = JsonObject { entries: Vec::new() };
        assert(r@ =~= Seq::<(Seq<char>, JsonView)>::empty());
        r
    }

    /// How many members there are; they are in the order of their names.
    pub fn len(&self) -> (r: usize)
        ensures
            r == self@.len(),
            in_order(self@),
    {
        proof {
            use_type_invariant(self);
        }
        self.entries.len()
    }

    /// The name of the member at `at`.
    pub fn name_at(&self, at: usize) -> (r: &String)
        requires
            at < self@.len(),
        ensures
            r@ == self@[at as int].0,
    {
        &self.entries[at].0
    }

    /// The value of the member at `at`.
    pub fn value_at(&self, at: usize) -> (r: &Json)
        requires
            at < self@.len(),
        ensures
            r@ == self@[at as int].1,
    {
        &self.entries[at].1
    }

    /// The member of that name.
    pub fn get(&self, name: &str) -> (r: Option<&Json>)
        ensures
            match member(self@, name@) {
                Some(v) => r matches Some(j) && j@ == v,
                None => r is None,
            },
    {
        let mut i: usize = 0;
        while i < self.entries.len()
            invariant
                i <= self.entries@.len(),
                forall|j: int| 0 <= j < i ==> (#[trigger] self@[j]).0 != name@,
            decreases self.entries@.len() - i,
        {
            if text::str_eq(self.entries[i].0.as_str(), name) {
                proof {
                    lemma_member_behind(self@, name@, i as int);
                    assert(self@.skip(i as int)[0] == self@[i as int]);
                }
                return Some(&self.entries[i].1);
            }
            i = i + 1;
        }
        proof {
            lemma_member_behind(self@, name@, i as int);
            assert(self@.skip(i as int).len() == 0);
        }
        None
    }

    /// This object with `name` set to `value`.
    pub fn with(self, name: &str, value: Json) -> (r: JsonObject)
        ensures
            r@ == with_member(self@, name@, value@),
    {
        proof {
            use_type_invariant(&self);
        }
        let ghost before = self@;
        let ghost set = value@;
        let mut entries = self.entries;
        let ghost had = entries@;
        let mut at: usize = 0;
        while at < entries.len() && text::str_lt(entries[at].0.as_str(), name)
            invariant
                entries@ == had,
                before.len() == had.len(),
                forall|i: int|
                    0 <= i < had.len() ==> (#[trigger] before[i]) == (had[i].0@, had[i].1@),
                at <= entries@.len(),
                forall|i: int| 0 <= i < at ==> text::text_lt((#[trigger] before[i]).0, name@),
            decreases entries@.len() - at,
        {
            at = at + 1;
        }
        proof {
            lemma_with_member_behind(before, name@, set, at as int);
            lemma_with_member_in_order(before, name@, set);
        }
        let ghost tail = before.skip(at as int);
        let key = name.to_owned();
        if at < entries.len() && text::str_eq(entries[at].0.as_str(), name) {
            entries[at] = (key, value);
            let ghost after = with_member(before, name@, set);
            assert(after =~= before.take(at as int) + tail.update(0, (name@, set)));
            assert(after.len() == entries@.len());
            assert forall|i: int| 0 <= i < entries@.len() implies (#[trigger] after[i]) == (
                entries@[i].0@,
                entries@[i].1@,
            ) by {
                if i != at {
                    assert(after[i] == before[i]);
                }
            }
            assert((JsonObject { entries }).view() =~= after);
        } else {
            proof {
                if at < had.len() {
                    assert(tail[0] == before[at as int]);
                    text::lemma_bytes_lt_total(
                        vstd::utf8::encode_utf8(before[at as int].0),
                        vstd::utf8::encode_utf8(name@),
                    );
                    if vstd::utf8::encode_utf8(before[at as int].0) == vstd::utf8::encode_utf8(
                        name@,
                    ) {
                        text::lemma_encode_injective(before[at as int].0, name@);
                    }
                }
            }
            entries.insert(at, (key, value));
            let ghost after = with_member(before, name@, set);
            assert(after =~= before.take(at as int) + (seq![(name@, set)] + tail));
            assert(after.len() == entries@.len());
            assert forall|i: int| 0 <= i < entries@.len() implies (#[trigger] after[i]) == (
                entries@[i].0@,
                entries@[i].1@,
            ) by {
                if i < at {
                    assert(after[i] == before[i]);
                } else if i > at {
                    assert(after[i] == before[i - 1]);
                }
            }
            assert((JsonObject { entries }).view() =~= after);
        }
        JsonObject { entries }
    }
}

/// `serde_json::Number` derives `Clone`: the copy is the same number.
pub assume_specification[ <serde_json::Number as Clone>::clone ](
    n: &serde_json::Number,
) -> (r: serde_json::Number)
    ensures
        r == *n,
;

impl Clone for Json {
    fn clone(&self) -> (r: Self)
        ensures
            r@ == self@,
        decreases self,
    {
        match self {
            Json::Null => Json::Null,
            Json::Bool(b) => Json::Bool(*b),
            Json::Number(n) => Json::Number(n.clone()),
            Json::Text(t) => Json::Text(t.clone()),
            Json::Array(items) => {
                let mut out: Vec<Json> = Vec::new();
                let mut i: usize = 0;
                while i < items.len()
                    invariant
                        self == Json::Array(*items),
                        i <= items@.len(),
                        out@.len() == i,
                        forall|j: int| 0 <= j < i ==> (#[trigger] out@[j])@ == items@[j]@,
                    decreases items@.len() - i,
                {
                    assert(decreases_to!(self => self->Array_0@[i as int]));
                    out.push(items[i].clone());
                    i = i + 1;
                }
                let r = Json::Array(out);
                assert(r@->Array_0 =~= self@->Array_0);
                r
            },
            Json::Object(o) => Json::Object(o.clone()),
        }
    }
}

impl Clone for JsonObject {
    fn clone(&self) -> (r: Self)
        ensures
            r@ == self@,
        decreases self,
    {
        proof {
            use_type_invariant(self);
        }
        let mut entries: Vec<(String, Json)> = Vec::new();
        let mut i: usize = 0;
        while i < self.entries.len()
            invariant
                i <= self.entries@.len(),
                entries@.len() == i,
                forall|j: int|
                    0 <= j < i ==> (#[trigger] entries@[j]).0@ == self.entries@[j].0@
                        && entries@[j].1@ == self.entries@[j].1@,
            decreases self.entries@.len() - i,
        {
            entries.push((self.entries[i].0.clone(), self.entries[i].1.clone()));
            i = i + 1;
        }
        assert((JsonObject { entries }).view() =~= self@);
        JsonObject { entries }
    }
}

/// The JSON value that a `serde_json::Value` holds.
pub uninterp spec fn held(value: serde_json::Value) -> JsonView;

/// The number that `serde_json` makes of an integer.
pub uninterp spec fn number_of(n: int) -> serde_json::Number;

/// The text that `serde_json` writes for a JSON value, if it can.
pub uninterp spec fn json_text(value: JsonView) -> Option<Seq<char>>;

/// The JSON value that `serde_json` reads from a text, if it is one.
pub uninterp spec fn parsed(text: Seq<char>) -> Option<JsonView>;

/// The integers that a JSON number holds: those of an `i64` or a `u64`.
pub open spec fn is_held_integer(n: int) -> bool {
    i64::MIN <= n <= u64::MAX
}

/// `serde_json::Number::from_i128`: an integer that a JSON number holds becomes
/// a number that is a function of it.
#[verifier::external_body]
pub(crate) fn number(n: i128) -> (r: serde_json::Number)
    requires
        is_held_integer(n as int),
    ensures
        r == number_of(n as int),
{
    serde_json::Number::from_i128(n).unwrap()
}

/// The variants of `serde_json::Value`, one for one: the result holds what the
/// argument holds. A `serde_json::Map` keeps its members in the order of their
/// names, as a `JsonObject` does.
#[verifier::external_body]
pub(crate) fn value_of(json: &Json) -> (r: serde_json::Value)
    ensures
        held(r) == json@,
{
    match json {
        Json::Null => serde_json::Value::Null,
        Json::Bool(b) => serde_json::Value::Bool(*b),
        Json::Number(n) => serde_json::Value::Number(n.clone()),
        Json::Text(t) => serde_json::Value::String(t.clone()),
        Json::Array(items) => serde_json::Value::Array(items.iter().map(value_of).collect()),
        Json::Object(o) => serde_json::Value::Object(
            o.entries.iter().map(|e| (e.0.clone(), value_of(&e.1))).collect(),
        ),
    }
}

/// The variants of `serde_json::Value`, one for one: the result holds what the
/// argument holds. A `serde_json::Map` hands its members out in the order of
/// their names.
#[verifier::external_body]
pub(crate) fn json_of(value: serde_json::Value) -> (r: Json)
    ensures
        r@ == held(value),
{
    match value {
        serde_json::Value::Null => Json::Null,
        serde_json::Value::Bool(b) => Json::Bool(b),
        serde_json::Value::Number(n) => Json::Number(n),
        serde_json::Value::String(t) => Json::Text(t),
        serde_json::Value::Array(items) => Json::Array(items.into_iter().map(json_of).collect()),
        serde_json::Value::Object(o) => Json::Object(
            JsonObject { entries: o.into_iter().map(|e| (e.0, json_of(e.1))).collect() },
        ),
    }
}

/// Nested no deeper than `depth`, with no numbers but integers, and
/// with no object whose first member has the name that marks raw text.
pub open spec fn survives(value: JsonView, depth: nat) -> bool
    decreases value,
{
    match value {
        JsonView::Number(n) => exists|i: int| is_held_integer(i) && n == #[trigger] number_of(i),
        JsonView::Array(items) => {
            &&& depth > 0
            &&& forall|i: int|
                0 <= i < items.len() ==> survives(#[trigger] items[i], (depth - 1) as nat)
        },
        JsonView::Object(members) => {
            &&& depth > 0
            &&& members.len() > 0 ==> members[0].0 != "$serde_json::private::RawValue"@
            &&& forall|i: int|
                0 <= i < members.len() ==> survives((#[trigger] members[i]).1, (depth - 1) as nat)
        },
        _ => true,
    }
}

/// A value that is read back unchanged from its own text.
pub open spec fn reads_back(value: JsonView) -> bool {
    survives(value, 127)
}

/// `serde_json::to_string` of a `Value`: the text is a function of what the
/// value holds. A value that reads back is written, and `from_str` of the text
/// gives it again: the reader stops at the 128th level of nesting, and is not
/// exact for numbers with a fraction.
#[verifier::external_body]
pub(crate) fn value_text(value: &serde_json::Value) -> (r: Option<String>)
    ensures
        r is Some <==> json_text(held(*value)) is Some,
        r matches Some(t) ==> json_text(held(*value)) == Some(t@),
        reads_back(held(*value)) ==> r is Some && parsed(r->0@) == Some(held(*value)),
{
    serde_json::to_string(value).ok()
}

/// `serde_json::from_str` to a `Value`: whether the text is JSON, and what it
/// holds, is a function of the text.
#[verifier::external_body]
pub(crate) fn parse_value(text: &str) -> (r: Option<serde_json::Value>)
    ensures
        r is Some <==> parsed(text@) is Some,
        r matches Some(v) ==> parsed(text@) == Some(held(v)),
{
    serde_json::from_str(text).ok()
}

/// The text of a JSON value; an empty object where it cannot be written.
pub open spec fn text_or_empty(value: JsonView) -> Seq<char> {
    match json_text(value) {
        Some(t) => t,
        None => "{}"@,
    }
}

impl Json {
    /// An unsigned integer.
    pub fn integer(n: u64) -> (r: Json)
        ensures
            r@ == JsonView::Number(number_of(n as int)),
    {
        Json::Number(number(n as i128))
    }

    /// The text of this value; an empty object where it cannot be written.
    /// A value that reads back is what `parse` makes of the text.
    pub fn to_text(&self) -> (r: String)
        ensures
            r@ == text_or_empty(self@),
            json_text(self@) is Some ==> json_text(self@) == Some(r@),
            json_text(self@) is None ==> r@ == "{}"@,
            reads_back(self@) ==> parsed(r@) == Some(self@),
    {
        let value = value_of(self);
        match value_text(&value) {
            Some(t) => t,
            None => "{}".to_owned(),
        }
    }

    /// Reads a JSON text.
    pub fn parse(text: &str) -> (r: Option<Json>)
        ensures
            match parsed(text@) {
                Some(v) => r matches Some(j) && j@ == v,
                None => r is None,
            },
    {
        match parse_value(text) {
            Some(v) => Some(json_of(v)),
            None => None,
        }
    }
}

} // verus!
