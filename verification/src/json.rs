//! JSON values as the parsers read them.

use vstd::prelude::*;
use vstd::string::*;

use crate::text::same;

verus! {

/// A number of a JSON text: how it is written out, and the 64-bit whole number
/// that it is, where it is one.
#[derive(Debug)]
pub struct JsonNumber {
    pub text: String,
    pub signed: Option<i64>,
    pub unsigned: Option<u64>,
}

/// A JSON value. The members of an object are held by key.
#[derive(Debug)]
pub enum Json {
    Null,
    Bool(bool),
    Number(JsonNumber),
    Text(String),
    List(Vec<Json>),
    Object(Vec<(String, Json)>),
}

/// What a JSON value is.
pub enum JsonView {
    Null,
    Bool(bool),
    Number(Seq<char>, Option<i64>, Option<u64>),
    Text(Seq<char>),
    List(Seq<JsonView>),
    Object(Seq<(Seq<char>, JsonView)>),
}

/// What the value `j` is.
pub open spec fn json_view(j: Json) -> JsonView
    decreases j,
{
    match j {
        Json::Null => JsonView::Null,
        Json::Bool(b) => JsonView::Bool(b),
        Json::Number(n) => JsonView::Number(n.text@, n.signed, n.unsigned),
        Json::Text(s) => JsonView::Text(s@),
        Json::List(v) => JsonView::List(
            Seq::new(
                v@.len(),
                |i: int|
                    if 0 <= i < v@.len() {
                        json_view(v@[i])
                    } else {
                        JsonView::Null
                    },
            ),
        ),
        Json::Object(v) => JsonView::Object(
            Seq::new(
                v@.len(),
                |i: int|
                    if 0 <= i < v@.len() {
                        (v@[i].0@, json_view(v@[i].1))
                    } else {
                        (Seq::empty(), JsonView::Null)
                    },
            ),
        ),
    }
}

impl View for Json {
    type V = JsonView;

    open spec fn view(&self) -> JsonView {
        json_view(*self)
    }
}

/// The view of a value shows what it is: a text its characters, a number how it
/// is written and which whole number it is, a list its elements and an object its
/// members, in order.
pub proof fn law_view_of_json(j: Json, i: int)
    ensures
        tree(Some(j)) == Some(j@),
        tree(None) is None,
        match j {
            Json::Null => j@ is Null,
            Json::Bool(b) => j@ == JsonView::Bool(b),
            Json::Number(n) => j@ == JsonView::Number(n.text@, n.signed, n.unsigned),
            Json::Text(s) => j@ == JsonView::Text(s@),
            Json::List(v) => j@ is List && j@->List_0.len() == v@.len() && (0 <= i < v@.len()
                ==> j@->List_0[i] == v@[i]@),
            Json::Object(v) => j@ is Object && j@->Object_0.len() == v@.len() && (0 <= i < v@.len()
                ==> j@->Object_0[i].0 == v@[i].0@ && j@->Object_0[i].1 == v@[i].1@),
        },
{
}

impl JsonView {
    /// The member `key` of an object; `Null` where there is none.
    pub open spec fn at(self, key: Seq<char>) -> JsonView {
        match self {
            JsonView::Object(members) => member(members, key),
            _ => JsonView::Null,
        }
    }

    /// The characters of a text value.
    pub open spec fn as_str(self) -> Option<Seq<char>> {
        match self {
            JsonView::Text(s) => Some(s),
            _ => None,
        }
    }

    /// The elements of a list.
    pub open spec fn as_list(self) -> Option<Seq<JsonView>> {
        match self {
            JsonView::List(v) => Some(v),
            _ => None,
        }
    }

    /// The truth value.
    pub open spec fn as_bool(self) -> Option<bool> {
        match self {
            JsonView::Bool(b) => Some(b),
            _ => None,
        }
    }

    /// The number, where it is a whole number that fits.
    pub open spec fn as_i64(self) -> Option<i64> {
        match self {
            JsonView::Number(_, n, _) => n,
            _ => None,
        }
    }

    /// The number, where it is a whole number that fits and is not negative.
    pub open spec fn as_u64(self) -> Option<u64> {
        match self {
            JsonView::Number(_, _, n) => n,
            _ => None,
        }
    }
}

/// The value of the first member with the key `key`; `Null` where there is
/// none.
pub open spec fn member(members: Seq<(Seq<char>, JsonView)>, key: Seq<char>) -> JsonView
    decreases members.len(),
{
    if members.len() == 0 {
        JsonView::Null
    } else if members[0].0 == key {
        members[0].1
    } else {
        member(members.drop_first(), key)
    }
}

/// What `serde_json::from_str` reads from a text; `None` where the text is no
/// JSON.
pub uninterp spec fn json_text(raw: Seq<char>) -> Option<JsonView>;

/// What a value that may be missing is.
pub open spec fn tree(j: Option<Json>) -> Option<JsonView> {
    match j {
        Some(v) => Some(v@),
        None => None,
    }
}

proof fn lemma_member_skip(members: Seq<(Seq<char>, JsonView)>, key: Seq<char>, n: int)
    requires
        0 <= n <= members.len(),
        forall|i: int| 0 <= i < n ==> members[i].0 != key,
    ensures
        member(members, key) == member(members.skip(n), key),
    decreases n,
{
    if n == 0 {
        assert(members.skip(0) =~= members);
    } else {
        lemma_member_skip(members.drop_first(), key, n - 1);
        assert(members.drop_first().skip(n - 1) =~= members.skip(n));
    }
}

/// A member is found by its key: of several with the same key the first; where
/// there is none, and in what is no object, nothing is found.
pub proof fn law_member_is_found_by_its_key(
    members: Seq<(Seq<char>, JsonView)>,
    key: Seq<char>,
    i: int,
)
    requires
        0 <= i < members.len() ==> members[i].0 == key,
        forall|j: int| 0 <= j < i && j < members.len() ==> (#[trigger] members[j]).0 != key,
        i >= 0,
    ensures
        JsonView::Object(members).at(key) == (if i < members.len() {
            members[i].1
        } else {
            JsonView::Null
        }),
{
    let n = if i < members.len() {
        i
    } else {
        members.len() as int
    };
    lemma_member_skip(members, key, n);
    if i < members.len() {
        assert(members.skip(n)[0] == members[i]);
    } else {
        assert(members.skip(n) =~= Seq::empty());
    }
}

/// What is no object has no members.
pub proof fn law_only_objects_have_members(v: JsonView, key: Seq<char>)
    requires
        v !is Object,
    ensures
        v.at(key) is Null,
{
}

impl Json {
    /// The member `key` of an object; `Null` where the value has none.
    pub fn at(&self, key: &str) -> (r: &Json)
        ensures
            r@ == self@.at(key@),
    {
        match self {
            Json::Object(members) => {
                let ghost view = Seq::new(
                    members@.len(),
                    |i: int| (members@[i].0@, json_view(members@[i].1)),
                );
                assert(self@ =~= JsonView::Object(view)) by {
                    assert(self@->Object_0 =~= view);
                }
                let mut i: usize = 0;
                while i < members.len()
                    invariant
                        i <= members@.len(),
                        view == Seq::new(
                            members@.len(),
                            |i: int| (members@[i].0@, json_view(members@[i].1)),
                        ),
                        self@ == JsonView::Object(view),
                        forall|k: int| 0 <= k < i ==> members@[k].0@ != key@,
                    decreases members@.len() - i,
                {
                    proof {
                        lemma_member_skip(view, key@, i as int);
                    }
                    if same(members[i].0.as_str(), key) {
                        return &members[i].1;
                    }
                    i = i + 1;
                }
                proof {
                    lemma_member_skip(view, key@, i as int);
                }
                &Json::Null
            },
            _ => &Json::Null,
        }
    }

    /// The characters of a text value.
    pub fn as_str(&self) -> (r: Option<&str>)
        ensures
            (match r {
                Some(s) => Some(s@),
                None => None,
            }) == self@.as_str(),
    {
        match self {
            Json::Text(s) => Some(s.as_str()),
            _ => None,
        }
    }

    /// The elements of a list.
    pub fn as_list(&self) -> (r: Option<&Vec<Json>>)
        ensures
            (match r {
                Some(v) => Some(v@.map_values(|j: Json| j@)),
                None => None,
            }) == self@.as_list(),
    {
        match self {
            Json::List(v) => {
                assert(self@->List_0 =~= v@.map_values(|j: Json| j@));
                Some(v)
            },
            _ => None,
        }
    }

    /// The truth value.
    pub fn as_bool(&self) -> (r: Option<bool>)
        ensures
            r == self@.as_bool(),
    {
        match self {
            Json::Bool(b) => Some(*b),
            _ => None,
        }
    }

    /// The number, where it is a whole number that fits.
    pub fn as_i64(&self) -> (r: Option<i64>)
        ensures
            r == self@.as_i64(),
    {
        match self {
            Json::Number(n) => n.signed,
            _ => None,
        }
    }

    /// The number, where it is a whole number that fits and is not negative.
    pub fn as_u64(&self) -> (r: Option<u64>)
        ensures
            r == self@.as_u64(),
    {
        match self {
            Json::Number(n) => n.unsigned,
            _ => None,
        }
    }
}

/// A JSON value as `serde_json` holds it: carried from the reader to the copy.
#[verifier::external_type_specification]
#[verifier::external_body]
pub struct ExValue(serde_json::Value);

/// Copies a `serde_json::Value` node by node. A number keeps the text that
/// `serde_json` writes for it, and what `as_i64` and `as_u64` say of it.
#[verifier::external_body]
fn copy(v: serde_json::Value) -> Json {
    match v {
        serde_json::Value::Null => Json::Null,
        serde_json::Value::Bool(b) => Json::Bool(b),
        serde_json::Value::Number(n) => Json::Number(
            JsonNumber { text: n.to_string(), signed: n.as_i64(), unsigned: n.as_u64() },
        ),
        serde_json::Value::String(s) => Json::Text(s),
        serde_json::Value::Array(v) => Json::List(v.into_iter().map(copy).collect()),
        serde_json::Value::Object(m) => Json::Object(
            m.into_iter().map(|(k, v)| (k, copy(v))).collect(),
        ),
    }
}

/// Reads a JSON text with `serde_json::from_str`. The value depends on the text
/// alone.
#[verifier::external_body]
fn read(raw: &str) -> (r: Option<Json>)
    ensures
        tree(r) == json_text(raw@),
{
    serde_json::from_str(raw).ok().map(copy)
}

/// Reads a JSON text; `None` where it is no JSON.
pub fn parse_json(raw: &str) -> (r: Option<Json>)
    ensures
        tree(r) == json_text(raw@),
{
    read(raw)
}

// ── Writing ─────────────────────────────────────────────────────────────────

/// What `serde_json::to_string` writes for a text.
pub uninterp spec fn json_quoted(s: Seq<char>) -> Seq<char>;

/// A text in which JSON has nothing to escape.
pub open spec fn is_plain(s: Seq<char>) -> bool {
    forall|i: int| 0 <= i < s.len() ==> ' ' <= #[trigger] s[i] && s[i] != '"' && s[i] != '\\'
}

/// `s` between two quotes.
pub open spec fn in_quotes(s: Seq<char>) -> Seq<char> {
    seq!['"'] + s + seq!['"']
}

/// Writes a text as a JSON string with `serde_json::to_string`. A text with
/// nothing to escape is put in quotes as it is.
#[verifier::external_body]
fn write_text(s: &str) -> (r: String)
    ensures
        r@ == json_quoted(s@),
        is_plain(s@) ==> r@ == in_quotes(s@),
{
    serde_json::to_string(s).unwrap_or_default()
}

/// A text as a JSON string.
pub fn quote(s: &str) -> (r: String)
    ensures
        r@ == json_quoted(s@),
        is_plain(s@) ==> r@ == in_quotes(s@),
{
    write_text(s)
}

/// The items with a comma between each two of them.
pub open spec fn joined(items: Seq<Seq<char>>) -> Seq<char>
    decreases items.len(),
{
    if items.len() == 0 {
        Seq::empty()
    } else if items.len() == 1 {
        items[0]
    } else {
        joined(items.drop_last()).push(',') + items.last()
    }
}

/// A JSON list of the items, which are JSON already.
pub open spec fn list_text(items: Seq<Seq<char>>) -> Seq<char> {
    seq!['['] + joined(items) + seq![']']
}

/// What the texts hold.
pub open spec fn texts_of(v: Seq<&'static str>) -> Seq<Seq<char>> {
    v.map_values(|s: &'static str| s@)
}

/// The texts as JSON strings.
pub open spec fn quoted(v: Seq<Seq<char>>) -> Seq<Seq<char>> {
    v.map_values(|s: Seq<char>| json_quoted(s))
}

/// Texts in which JSON has nothing to escape.
pub open spec fn all_plain(v: Seq<Seq<char>>) -> bool {
    forall|i: int| 0 <= i < v.len() ==> is_plain(#[trigger] v[i])
}

/// The texts, each between two quotes.
pub open spec fn each_in_quotes(v: Seq<Seq<char>>) -> Seq<Seq<char>> {
    v.map_values(|s: Seq<char>| in_quotes(s))
}

/// A list is written item by item: one behind the other, with a comma between
/// them, in brackets.
pub proof fn law_lists_are_written_item_by_item(items: Seq<Seq<char>>, a: Seq<char>, b: Seq<char>)
    ensures
        list_text(Seq::empty()) == seq!['[', ']'],
        list_text(seq![a]) == seq!['['] + a + seq![']'],
        list_text(items.push(a).push(b)) == list_text(items.push(a)).drop_last() + seq![','] + b
            + seq![']'],
{
    assert(list_text(Seq::empty()) =~= seq!['[', ']']);
    assert(list_text(seq![a]) =~= seq!['['] + a + seq![']']);
    let more = items.push(a).push(b);
    assert(more.drop_last() =~= items.push(a));
    assert(list_text(more) =~= list_text(items.push(a)).drop_last() + seq![','] + b + seq![']']);
}

/// A JSON list of items that are JSON already.
pub fn write_list(items: &Vec<String>) -> (r: String)
    ensures
        r@ == list_text(items@.map_values(|s: String| s@)),
{
    let ghost all = items@.map_values(|s: String| s@);
    let mut out: String = String::new();
    out.push('[');
    assert(all.take(0) =~= Seq::empty());
    assert(out@ =~= seq!['['] + joined(all.take(0)));
    let mut i: usize = 0;
    while i < items.len()
        invariant
            all == items@.map_values(|s: String| s@),
            i <= items@.len(),
            out@ == seq!['['] + joined(all.take(i as int)),
        decreases items@.len() - i,
    {
        if i > 0 {
            out.push(',');
        }
        out.append(items[i].as_str());
        assert(all.take(i + 1).drop_last() =~= all.take(i as int));
        assert(all.take(i + 1).last() == all[i as int]);
        assert(out@ =~= seq!['['] + joined(all.take(i + 1)));
        i = i + 1;
    }
    assert(all.take(all.len() as int) =~= all);
    out.push(']');
    assert(out@ =~= list_text(all));
    out
}

/// A JSON list of texts. Texts with nothing to escape are put in quotes as they
/// are.
pub fn quoted_list(items: &[&'static str]) -> (r: String)
    ensures
        r@ == list_text(quoted(texts_of(items@))),
        all_plain(texts_of(items@)) ==> r@ == list_text(each_in_quotes(texts_of(items@))),
{
    let ghost all = quoted(texts_of(items@));
    let ghost plain = each_in_quotes(texts_of(items@));
    let mut list: Vec<String> = Vec::new();
    let mut i: usize = 0;
    while i < items.len()
        invariant
            all == quoted(texts_of(items@)),
            i <= items@.len(),
            list@.map_values(|s: String| s@) == all.take(i as int),
            plain == each_in_quotes(texts_of(items@)),
            all_plain(texts_of(items@)) ==> forall|k: int|
                0 <= k < i ==> #[trigger] list@[k]@ == plain[k],
        decreases items@.len() - i,
    {
        let ghost before = list@;
        assert(texts_of(items@)[i as int] == items@[i as int]@);
        let text: String = quote(items[i]);
        list.push(text);
        assert(text@ == all[i as int]);
        assert(list@.map_values(|s: String| s@) =~= before.map_values(|s: String| s@).push(text@));
        assert(all.take(i + 1) =~= all.take(i as int).push(all[i as int]));
        i = i + 1;
    }
    assert(list@.map_values(|s: String| s@) =~= all);
    assert(all_plain(texts_of(items@)) ==> list@.map_values(|s: String| s@) =~= plain);
    write_list(&list)
}

} // verus!
