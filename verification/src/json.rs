//! JSON values: the library's own type, what its values are, and the passage to
//! and from `serde_json`.

use serde_json::{Number, Value};
use vstd::prelude::*;

use crate::text;

verus! {

// ── Values ────────────────────────────────────────────────────────────────────

/// `serde_json`'s number, carried through as it is.
#[verifier::external_type_specification]
#[verifier::external_body]
pub struct ExNumber(serde_json::Number);

/// `serde_json`'s value, built and taken apart one level at a time.
#[verifier::external_type_specification]
#[verifier::external_body]
pub struct ExValue(serde_json::Value);

/// A JSON value. The members of an object stand in the order in which they were
/// put there.
pub enum Json {
    Null,
    Bool(bool),
    Number(Number),
    Text(String),
    Array(Vec<Json>),
    Object(Vec<(String, Json)>),
}

/// What a JSON value is, mathematically.
pub enum Tree {
    Null,
    Bool(bool),
    Number(Number),
    Text(Seq<char>),
    Array(Seq<Tree>),
    Object(Seq<(Seq<char>, Tree)>),
}

/// Where `key` first occurs among the members.
pub open spec fn member_index(members: Seq<(Seq<char>, Tree)>, key: Seq<char>) -> Option<int>
    decreases members.len(),
{
    if members.len() == 0 {
        None
    } else if members[0].0 == key {
        Some(0int)
    } else {
        match member_index(members.drop_first(), key) {
            Some(i) => Some(i + 1),
            None => None,
        }
    }
}

/// The members after `key` was set to `value`: a key that is there keeps its
/// place, a new one comes last.
pub open spec fn with_member(
    members: Seq<(Seq<char>, Tree)>,
    key: Seq<char>,
    value: Tree,
) -> Seq<(Seq<char>, Tree)> {
    match member_index(members, key) {
        Some(i) => members.update(i, (key, value)),
        None => members.push((key, value)),
    }
}

/// The members that result from setting those of `list` in turn.
pub open spec fn set_in_turn(list: Seq<(Seq<char>, Tree)>) -> Seq<(Seq<char>, Tree)>
    decreases list.len(),
{
    if list.len() == 0 {
        seq![]
    } else {
        with_member(set_in_turn(list.drop_last()), list.last().0, list.last().1)
    }
}

impl Tree {
    /// The member `key` of an object; `Null` where there is none.
    pub open spec fn field(self, key: Seq<char>) -> Tree {
        match self {
            Tree::Object(m) => match member_index(m, key) {
                Some(i) => m[i].1,
                None => Tree::Null,
            },
            _ => Tree::Null,
        }
    }

    /// Whether this is an object with a member `key`.
    pub open spec fn has_field(self, key: Seq<char>) -> bool {
        self matches Tree::Object(m) && member_index(m, key) is Some
    }

    /// The text of a string.
    pub open spec fn as_text(self) -> Option<Seq<char>> {
        match self {
            Tree::Text(s) => Some(s),
            _ => None,
        }
    }

    /// The value of a number that is a non-negative integer of 64 bits.
    pub open spec fn as_count(self) -> Option<u64> {
        match self {
            Tree::Number(n) => number_as_u64(n),
            _ => None,
        }
    }

    /// This value with the members of each object set one after the other, so
    /// that no key occurs twice.
    pub open spec fn settled(self) -> Tree
        decreases self,
    {
        match self {
            Tree::Array(a) => Tree::Array(
                Seq::new(a.len(), |i: int| if 0 <= i < a.len() { a[i].settled() } else { Tree::Null }),
            ),
            Tree::Object(m) => Tree::Object(set_in_turn(settled_members(m))),
            _ => self,
        }
    }
}

/// The members `m`, each value settled.
pub open spec fn settled_members(m: Seq<(Seq<char>, Tree)>) -> Seq<(Seq<char>, Tree)>
    decreases m,
{
    Seq::new(
        m.len(),
        |i: int| if 0 <= i < m.len() { (m[i].0, m[i].1.settled()) } else { (Seq::empty(), Tree::Null) },
    )
}

/// The values that a list of JSON values holds.
pub open spec fn trees(v: Seq<Json>) -> Seq<Tree> {
    v.map_values(|j: Json| j.tree())
}

/// The members that a list of names and JSON values holds.
pub open spec fn members(v: Seq<(String, Json)>) -> Seq<(Seq<char>, Tree)> {
    v.map_values(|m: (String, Json)| (m.0@, m.1.tree()))
}

impl Json {
    /// What this value is.
    pub open spec fn tree(self) -> Tree
        decreases self,
    {
        match self {
            Json::Null => Tree::Null,
            Json::Bool(b) => Tree::Bool(b),
            Json::Number(n) => Tree::Number(n),
            Json::Text(s) => Tree::Text(s@),
            Json::Array(v) => Tree::Array(
                Seq::new(v@.len(), |i: int| if 0 <= i < v@.len() { v@[i].tree() } else { Tree::Null }),
            ),
            Json::Object(v) => Tree::Object(
                Seq::new(
                    v@.len(),
                    |i: int| if 0 <= i < v@.len() { (v@[i].0@, v@[i].1.tree()) } else { (Seq::empty(), Tree::Null) },
                ),
            ),
        }
    }
}

/// An array holds the values of its list, an object the members of its list.
pub proof fn tree_of_parts(j: Json)
    ensures
        j matches Json::Array(v) ==> j.tree() == Tree::Array(trees(v@)),
        j matches Json::Object(v) ==> j.tree() == Tree::Object(members(v@)),
{
    match j {
        Json::Array(v) => {
            assert(j.tree()->Array_0 =~= trees(v@));
        },
        Json::Object(v) => {
            assert(j.tree()->Object_0 =~= members(v@));
        },
        _ => {},
    }
}

// ── serde_json ────────────────────────────────────────────────────────────────

/// The value of a number, where it is a non-negative integer of 64 bits.
pub uninterp spec fn number_as_u64(n: serde_json::Number) -> Option<u64>;

/// The number of a non-negative integer.
pub uninterp spec fn number_of(u: u64) -> serde_json::Number;

/// The number of an integer.
pub uninterp spec fn number_of_int(i: i64) -> serde_json::Number;

/// What a `serde_json` value holds.
pub uninterp spec fn value_tree(v: serde_json::Value) -> Tree;

/// The value that JSON text in UTF-8 denotes, where it is JSON.
pub uninterp spec fn json_parsed(bytes: Seq<u8>) -> Option<Tree>;

/// The compact JSON text of a value.
pub uninterp spec fn json_text(t: Tree) -> Seq<char>;

/// The indented JSON text of a value.
pub uninterp spec fn json_pretty(t: Tree) -> Seq<char>;

/// `Number::clone` copies the number.
pub assume_specification[ <serde_json::Number as Clone>::clone ](n: &serde_json::Number) -> (r:
    serde_json::Number)
    ensures
        r == *n,
;

/// Calls `Number::as_u64`.
#[verifier::external_body]
fn as_u64(n: &Number) -> (r: Option<u64>)
    ensures
        r == number_as_u64(*n),
{
    n.as_u64()
}

/// Calls `Number::from` on an unsigned integer; `as_u64` gives the integer back.
#[verifier::external_body]
fn of_u64(u: u64) -> (r: Number)
    ensures
        r == number_of(u),
        number_as_u64(r) == Some(u),
{
    Number::from(u)
}

/// Calls `Number::from` on a signed integer.
#[verifier::external_body]
fn of_i64(i: i64) -> (r: Number)
    ensures
        r == number_of_int(i),
{
    Number::from(i)
}

/// One level of a `serde_json` value.
pub enum Node {
    Null,
    Bool(bool),
    Number(Number),
    Text(String),
    Array(Vec<Value>),
    Object(Vec<(String, Value)>),
}

/// The values that a list of `serde_json` values holds.
pub open spec fn value_trees(v: Seq<Value>) -> Seq<Tree> {
    v.map_values(|x: Value| value_tree(x))
}

/// The members that a list of names and `serde_json` values holds.
pub open spec fn value_members(v: Seq<(String, Value)>) -> Seq<(Seq<char>, Tree)> {
    v.map_values(|m: (String, Value)| (m.0@, value_tree(m.1)))
}

impl Node {
    pub open spec fn tree(self) -> Tree {
        match self {
            Node::Null => Tree::Null,
            Node::Bool(b) => Tree::Bool(b),
            Node::Number(n) => Tree::Number(n),
            Node::Text(s) => Tree::Text(s@),
            Node::Array(v) => Tree::Array(value_trees(v@)),
            Node::Object(v) => Tree::Object(value_members(v@)),
        }
    }
}

/// Matches on a `serde_json::Value` and hands its parts over; the members of an
/// object come out in the map's order.
#[verifier::external_body]
fn open_value(v: Value) -> (r: Node)
    ensures
        r.tree() == value_tree(v),
{
    match v {
        Value::Null => Node::Null,
        Value::Bool(b) => Node::Bool(b),
        Value::Number(n) => Node::Number(n),
        Value::String(s) => Node::Text(s),
        Value::Array(a) => Node::Array(a),
        Value::Object(m) => Node::Object(m.into_iter().collect()),
    }
}

/// Builds a `serde_json::Value` out of its parts; an object's map is collected
/// from its members, so a key that comes again takes the later value and keeps
/// its place.
#[verifier::external_body]
fn close_value(n: Node) -> (r: Value)
    ensures
        value_tree(r) == (match n.tree() {
            Tree::Object(m) => Tree::Object(set_in_turn(m)),
            t => t,
        }),
{
    match n {
        Node::Null => Value::Null,
        Node::Bool(b) => Value::Bool(b),
        Node::Number(n) => Value::Number(n),
        Node::Text(s) => Value::String(s),
        Node::Array(a) => Value::Array(a),
        Node::Object(m) => Value::Object(m.into_iter().collect()),
    }
}

/// Calls `serde_json::from_slice`; the result is a function of the bytes alone.
#[verifier::external_body]
fn parse_slice(bytes: &[u8]) -> (r: Option<Value>)
    ensures
        match r {
            Some(v) => json_parsed(bytes@) == Some(value_tree(v)),
            None => json_parsed(bytes@) is None,
        },
{
    serde_json::from_slice(bytes).ok()
}

/// Calls `serde_json::to_string`, which succeeds on every `Value`; the text is a
/// function of what the value holds.
#[verifier::external_body]
fn print(v: &Value) -> (r: Option<String>)
    ensures
        r is Some,
        r->0@ == json_text(value_tree(*v)),
{
    serde_json::to_string(v).ok()
}

/// Calls `serde_json::to_string_pretty`, which succeeds on every `Value`; the
/// text is a function of what the value holds.
#[verifier::external_body]
fn print_pretty(v: &Value) -> (r: Option<String>)
    ensures
        r is Some,
        r->0@ == json_pretty(value_tree(*v)),
{
    serde_json::to_string_pretty(v).ok()
}

// ── Passage ───────────────────────────────────────────────────────────────────

/// The library's value for a `serde_json` value.
pub fn from_value(v: Value) -> (r: Json)
    ensures
        r.tree() == value_tree(v),
    decreases value_tree(v),
{
    let ghost t = value_tree(v);
    match open_value(v) {
        Node::Null => Json::Null,
        Node::Bool(b) => Json::Bool(b),
        Node::Number(n) => Json::Number(n),
        Node::Text(s) => Json::Text(s),
        Node::Array(a) => {
            let ghost a0 = a@;
            let mut out: Vec<Json> = Vec::new();
            for x in it: a
                invariant
                    it.seq() == a0,
                    value_tree(v) == t,
                    t == Tree::Array(value_trees(a0)),
                    out@.len() == it.index(),
                    forall|j: int| 0 <= j < out@.len() ==> (#[trigger] out@[j]).tree() == value_tree(a0[j]),
            {
                assert(t->Array_0[it.index() as int] == value_tree(x));
                out.push(from_value(x));
            }
            let r = Json::Array(out);
            proof {
                tree_of_parts(r);
                assert(trees(out@) =~= value_trees(a0));
            }
            r
        },
        Node::Object(m) => {
            let ghost m0 = m@;
            let mut out: Vec<(String, Json)> = Vec::new();
            for x in it: m
                invariant
                    it.seq() == m0,
                    value_tree(v) == t,
                    t == Tree::Object(value_members(m0)),
                    out@.len() == it.index(),
                    forall|j: int| 0 <= j < out@.len() ==> (#[trigger] out@[j]).0@ == m0[j].0@ && out@[j].1.tree() == value_tree(m0[j].1),
            {
                proof {
                    let k = it.index() as int;
                    assert(t->Object_0[k] == (x.0@, value_tree(x.1)));
                    assert(decreases_to!(t => t->Object_0));
                    assert(decreases_to!(t->Object_0 => t->Object_0[k]));
                    assert(decreases_to!(t->Object_0[k] => t->Object_0[k].1));
                }
                out.push((x.0, from_value(x.1)));
            }
            let r = Json::Object(out);
            proof {
                tree_of_parts(r);
                assert(members(out@) =~= value_members(m0));
            }
            r
        },
    }
}

/// The `serde_json` value for the library's value.
pub fn to_value(j: &Json) -> (r: Value)
    ensures
        value_tree(r) == j.tree().settled(),
    decreases j,
{
    proof {
        tree_of_parts(*j);
    }
    match j {
        Json::Null => close_value(Node::Null),
        Json::Bool(b) => close_value(Node::Bool(*b)),
        Json::Number(n) => close_value(Node::Number(n.clone())),
        Json::Text(s) => close_value(Node::Text(s.clone())),
        Json::Array(a) => {
            let mut out: Vec<Value> = Vec::new();
            let mut i: usize = 0;
            while i < a.len()
                invariant
                    i <= a@.len(),
                    *j == Json::Array(*a),
                    out@.len() == i,
                    forall|k: int| 0 <= k < i ==> value_tree(#[trigger] out@[k]) == a@[k].tree().settled(),
                decreases a@.len() - i,
            {
                assert(decreases_to!(j => j->Array_0));
                    assert(decreases_to!(j->Array_0 => a@));
                assert(decreases_to!(a@ => a@[i as int]));
                out.push(to_value(&a[i]));
                i += 1;
            }
            assert(value_trees(out@) =~= j.tree().settled()->Array_0);
            close_value(Node::Array(out))
        },
        Json::Object(m) => {
            let mut out: Vec<(String, Value)> = Vec::new();
            let mut i: usize = 0;
            while i < m.len()
                invariant
                    i <= m@.len(),
                    *j == Json::Object(*m),
                    out@.len() == i,
                    forall|k: int|
                        0 <= k < i ==> (#[trigger] out@[k]).0@ == m@[k].0@ && value_tree(out@[k].1)
                            == m@[k].1.tree().settled(),
                decreases m@.len() - i,
            {
                assert(decreases_to!(j => j->Object_0));
                    assert(decreases_to!(j->Object_0 => m@));
                assert(decreases_to!(m@ => m@[i as int]));
                assert(decreases_to!(m@[i as int] => m@[i as int].1));
                out.push((m[i].0.clone(), to_value(&m[i].1)));
                i += 1;
            }
            assert(value_members(out@) =~= settled_members(members(m@)));
            close_value(Node::Object(out))
        },
    }
}

/// The value of JSON text in UTF-8, where it is JSON.
pub fn parse(bytes: &[u8]) -> (r: Option<Json>)
    ensures
        match r {
            Some(j) => json_parsed(bytes@) == Some(j.tree()),
            None => json_parsed(bytes@) is None,
        },
{
    match parse_slice(bytes) {
        Some(v) => Some(from_value(v)),
        None => None,
    }
}

/// The compact JSON text of a value.
pub fn to_text(j: &Json) -> (r: String)
    ensures
        r@ == json_text(j.tree().settled()),
{
    print(&to_value(j)).unwrap()
}

/// The indented JSON text of a value.
pub fn to_pretty(j: &Json) -> (r: String)
    ensures
        r@ == json_pretty(j.tree().settled()),
{
    print_pretty(&to_value(j)).unwrap()
}

// ── Building and reading ──────────────────────────────────────────────────────

/// Where `key` first occurs among the members of a list.
fn find_member(m: &Vec<(String, Json)>, key: &str) -> (r: Option<usize>)
    ensures
        match r {
            Some(i) => i < m@.len() && member_index(members(m@), key@) == Some(i as int),
            None => member_index(members(m@), key@) is None,
        },
{
    let ghost t = members(m@);
    let mut i: usize = 0;
    assert(t.skip(0) =~= t);
    while i < m.len()
        invariant
            i <= m@.len(),
            t == members(m@),
            match member_index(t.skip(i as int), key@) {
                Some(k) => member_index(t, key@) == Some(k + i),
                None => member_index(t, key@) is None,
            },
        decreases m@.len() - i,
    {
        assert(t.skip(i as int)[0] == t[i as int]);
        if text::same(&m[i].0, key) {
            return Some(i);
        }
        assert(t.skip(i as int).drop_first() =~= t.skip(i + 1));
        i += 1;
    }
    None
}

impl Json {
    /// The string `s`.
    pub fn text(s: &str) -> (r: Json)
        ensures
            r.tree() == Tree::Text(s@),
    {
        Json::Text(s.to_owned())
    }

    /// The number `n`.
    pub fn number(n: u64) -> (r: Json)
        ensures
            r.tree() == Tree::Number(number_of(n)),
            r.tree().as_count() == Some(n),
    {
        Json::Number(of_u64(n))
    }

    /// The number `i`.
    pub fn integer(i: i64) -> (r: Json)
        ensures
            r.tree() == Tree::Number(number_of_int(i)),
    {
        Json::Number(of_i64(i))
    }

    /// The array of the values of `v`.
    pub fn array(v: Vec<Json>) -> (r: Json)
        ensures
            r.tree() == Tree::Array(trees(v@)),
    {
        let r = Json::Array(v);
        proof {
            tree_of_parts(r);
        }
        r
    }

    /// The array of the strings of `v`.
    pub fn texts(v: &Vec<String>) -> (r: Json)
        ensures
            r.tree() == Tree::Array(text::texts(v@).map_values(|s: Seq<char>| Tree::Text(s))),
    {
        let mut out: Vec<Json> = Vec::new();
        let mut i: usize = 0;
        while i < v.len()
            invariant
                i <= v@.len(),
                out@.len() == i,
                forall|k: int| 0 <= k < i ==> (#[trigger] out@[k]).tree() == Tree::Text(v@[k]@),
            decreases v@.len() - i,
        {
            out.push(Json::text(&v[i]));
            i += 1;
        }
        assert(trees(out@) =~= text::texts(v@).map_values(|s: Seq<char>| Tree::Text(s)));
        Json::array(out)
    }

    /// The object of the members of `v`.
    pub fn object(v: Vec<(String, Json)>) -> (r: Json)
        ensures
            r.tree() == Tree::Object(members(v@)),
    {
        let r = Json::Object(v);
        proof {
            tree_of_parts(r);
        }
        r
    }

    /// The object of one member.
    pub fn object1(k: &str, v: Json) -> (r: Json)
        ensures
            r.tree() == Tree::Object(seq![(k@, v.tree())]),
    {
        let mut m: Vec<(String, Json)> = Vec::new();
        m.push((k.to_owned(), v));
        assert(members(m@) =~= seq![(k@, v.tree())]);
        Json::object(m)
    }

    /// The object of two members.
    pub fn object2(k: &str, v: Json, k2: &str, v2: Json) -> (r: Json)
        ensures
            r.tree() == Tree::Object(seq![(k@, v.tree()), (k2@, v2.tree())]),
    {
        let mut m: Vec<(String, Json)> = Vec::new();
        m.push((k.to_owned(), v));
        m.push((k2.to_owned(), v2));
        assert(members(m@) =~= seq![(k@, v.tree()), (k2@, v2.tree())]);
        Json::object(m)
    }

    /// The object of three members.
    pub fn object3(k: &str, v: Json, k2: &str, v2: Json, k3: &str, v3: Json) -> (r: Json)
        ensures
            r.tree() == Tree::Object(seq![(k@, v.tree()), (k2@, v2.tree()), (k3@, v3.tree())]),
    {
        let mut m: Vec<(String, Json)> = Vec::new();
        m.push((k.to_owned(), v));
        m.push((k2.to_owned(), v2));
        m.push((k3.to_owned(), v3));
        assert(members(m@) =~= seq![(k@, v.tree()), (k2@, v2.tree()), (k3@, v3.tree())]);
        Json::object(m)
    }

    /// A copy of this value.
    pub fn copy(&self) -> (r: Json)
        ensures
            r.tree() == self.tree(),
        decreases self,
    {
        proof {
            tree_of_parts(*self);
        }
        match self {
            Json::Null => Json::Null,
            Json::Bool(b) => Json::Bool(*b),
            Json::Number(n) => Json::Number(n.clone()),
            Json::Text(s) => Json::Text(s.clone()),
            Json::Array(a) => {
                let mut out: Vec<Json> = Vec::new();
                let mut i: usize = 0;
                while i < a.len()
                    invariant
                        i <= a@.len(),
                        *self == Json::Array(*a),
                        out@.len() == i,
                        forall|k: int| 0 <= k < i ==> (#[trigger] out@[k]).tree() == a@[k].tree(),
                    decreases a@.len() - i,
                {
                    assert(decreases_to!(self => self->Array_0));
                    assert(decreases_to!(self->Array_0 => a@));
                    assert(decreases_to!(a@ => a@[i as int]));
                    out.push(a[i].copy());
                    i += 1;
                }
                assert(trees(out@) =~= trees(a@));
                Json::array(out)
            },
            Json::Object(m) => {
                let mut out: Vec<(String, Json)> = Vec::new();
                let mut i: usize = 0;
                while i < m.len()
                    invariant
                        i <= m@.len(),
                        *self == Json::Object(*m),
                        out@.len() == i,
                        forall|k: int|
                            0 <= k < i ==> (#[trigger] out@[k]).0@ == m@[k].0@ && out@[k].1.tree() == m@[k].1.tree(),
                    decreases m@.len() - i,
                {
                    assert(decreases_to!(self => self->Object_0));
                    assert(decreases_to!(self->Object_0 => m@));
                    assert(decreases_to!(m@ => m@[i as int]));
                    assert(decreases_to!(m@[i as int] => m@[i as int].1));
                    out.push((m[i].0.clone(), m[i].1.copy()));
                    i += 1;
                }
                assert(members(out@) =~= members(m@));
                Json::object(out)
            },
        }
    }

    /// The member `key` of an object.
    pub fn get(&self, key: &str) -> (r: Option<&Json>)
        ensures
            match r {
                Some(j) => self.tree().has_field(key@) && self.tree().field(key@) == j.tree(),
                None => !self.tree().has_field(key@),
            },
    {
        proof {
            tree_of_parts(*self);
        }
        match self {
            Json::Object(m) => match find_member(m, key) {
                Some(i) => Some(&m[i].1),
                None => None,
            },
            _ => None,
        }
    }

    /// A copy of the member `key` of an object; `Null` where there is none.
    pub fn field(&self, key: &str) -> (r: Json)
        ensures
            r.tree() == self.tree().field(key@),
    {
        match self.get(key) {
            Some(j) => j.copy(),
            None => Json::Null,
        }
    }

    /// The text of a string.
    pub fn as_str(&self) -> (r: Option<String>)
        ensures
            match r {
                Some(s) => self.tree().as_text() == Some(s@),
                None => self.tree().as_text() is None,
            },
    {
        match self {
            Json::Text(s) => Some(s.clone()),
            _ => None,
        }
    }

    /// The value of a number that is a non-negative integer of 64 bits.
    pub fn as_u64(&self) -> (r: Option<u64>)
        ensures
            r == self.tree().as_count(),
    {
        match self {
            Json::Number(n) => as_u64(n),
            _ => None,
        }
    }

    /// The text of the member `key`.
    pub fn str_field(&self, key: &str) -> (r: Option<String>)
        ensures
            match r {
                Some(s) => self.tree().field(key@).as_text() == Some(s@),
                None => self.tree().field(key@).as_text() is None,
            },
    {
        match self.get(key) {
            Some(j) => j.as_str(),
            None => None,
        }
    }

    /// The value of the member `key`, where it is a non-negative integer.
    pub fn u64_field(&self, key: &str) -> (r: Option<u64>)
        ensures
            r == self.tree().field(key@).as_count(),
    {
        match self.get(key) {
            Some(j) => j.as_u64(),
            None => None,
        }
    }
}

/// Sets the member `key` of a list of members to `value`.
pub fn set_member(m: &mut Vec<(String, Json)>, key: &str, value: Json)
    ensures
        members(final(m)@) == with_member(members(old(m)@), key@, value.tree()),
{
    match find_member(m, key) {
        Some(i) => {
            let ghost before = m@;
            m.set(i, (key.to_owned(), value));
            assert(members(m@) =~= members(before).update(i as int, (key@, value.tree())));
        },
        None => {
            let ghost before = m@;
            m.push((key.to_owned(), value));
            assert(members(m@) =~= members(before).push((key@, value.tree())));
        },
    }
}

// ── Laws ──────────────────────────────────────────────────────────────────────

/// Where a key is found, it is found for the first time.
pub proof fn member_index_is_first(m: Seq<(Seq<char>, Tree)>, key: Seq<char>)
    ensures
        match member_index(m, key) {
            Some(i) => 0 <= i < m.len() && m[i].0 == key && forall|j: int|
                0 <= j < i ==> (#[trigger] m[j]).0 != key,
            None => forall|j: int| 0 <= j < m.len() ==> (#[trigger] m[j]).0 != key,
        },
    decreases m.len(),
{
    if m.len() > 0 && m[0].0 != key {
        let rest = m.drop_first();
        member_index_is_first(rest, key);
        assert forall|j: int| 0 < j < m.len() implies m[j] == rest[j - 1] by {}
        match member_index(rest, key) {
            Some(i) => {
                assert(rest[i] == m[i + 1]);
                assert forall|j: int| 0 <= j < i + 1 implies (#[trigger] m[j]).0 != key by {
                    if j > 0 {
                        assert(m[j] == rest[j - 1]);
                    }
                }
            },
            None => {
                assert forall|j: int| 0 <= j < m.len() implies (#[trigger] m[j]).0 != key by {
                    if j > 0 {
                        assert(m[j] == rest[j - 1]);
                    }
                }
            },
        }
    }
}

/// The place at which a key is first found.
proof fn member_index_from_first(m: Seq<(Seq<char>, Tree)>, key: Seq<char>, i: int)
    requires
        0 <= i < m.len(),
        m[i].0 == key,
        forall|j: int| 0 <= j < i ==> (#[trigger] m[j]).0 != key,
    ensures
        member_index(m, key) == Some(i),
{
    member_index_is_first(m, key);
}

/// A member that was set is read back, and every other member is as before.
pub proof fn set_member_is_read_back(
    m: Seq<(Seq<char>, Tree)>,
    key: Seq<char>,
    value: Tree,
    other: Seq<char>,
)
    ensures
        Tree::Object(with_member(m, key, value)).field(key) == value,
        other != key ==> Tree::Object(with_member(m, key, value)).field(other) == Tree::Object(m).field(other),
{
    let n = with_member(m, key, value);
    member_index_is_first(m, key);
    member_index_is_first(m, other);
    match member_index(m, key) {
        Some(i) => {
            member_index_from_first(n, key, i);
        },
        None => {
            member_index_from_first(n, key, m.len() as int);
        },
    }
    if other != key {
        match member_index(m, other) {
            Some(i) => {
                member_index_from_first(n, other, i);
            },
            None => {
                member_index_is_first(n, other);
            },
        }
    }
}

proof fn set_in_turn_is_settled(list: Seq<(Seq<char>, Tree)>, key: Seq<char>, i: int)
    requires
        0 <= i < list.len(),
        list[i].0 == key,
        forall|j: int| i < j < list.len() ==> (#[trigger] list[j]).0 != key,
    ensures
        Tree::Object(set_in_turn(list)).field(key) == list[i].1,
    decreases list.len(),
{
    let before = list.drop_last();
    set_member_is_read_back(set_in_turn(before), list.last().0, list.last().1, key);
    if i < list.len() - 1 {
        assert(list[list.len() - 1].0 != key);
        assert forall|j: int| i < j < before.len() implies (#[trigger] before[j]).0 != key by {
            assert(before[j] == list[j]);
        }
        set_in_turn_is_settled(before, key, i);
    }
}

/// Where a name occurs more than once in an object, the last value is the one that is written;
/// and a value that is no list and no object is written as it is.
pub proof fn last_members_count(m: Seq<(Seq<char>, Tree)>, key: Seq<char>, i: int, t: Tree)
    requires
        0 <= i < m.len(),
        m[i].0 == key,
        forall|j: int| i < j < m.len() ==> (#[trigger] m[j]).0 != key,
    ensures
        Tree::Object(m).settled().field(key) == m[i].1.settled(),
        !(t is Array) && !(t is Object) ==> t.settled() == t,
{
    let list = settled_members(m);
    assert forall|j: int| i < j < list.len() implies (#[trigger] list[j]).0 != key by {
        assert(m[j].0 != key);
    }
    set_in_turn_is_settled(list, key, i);
}

/// The member of an object is the first one with its name, and what has none is null.
pub proof fn members_are_found_by_their_name(m: Seq<(Seq<char>, Tree)>, key: Seq<char>, i: int)
    ensures
        0 <= i < m.len() && m[i].0 == key && (forall|j: int| 0 <= j < i ==> (#[trigger] m[j]).0 != key) ==> Tree::Object(
            m,
        ).field(key) == m[i].1 && Tree::Object(m).has_field(key),
        (forall|j: int| 0 <= j < m.len() ==> (#[trigger] m[j]).0 != key) ==> Tree::Object(m).field(key) == Tree::Null
            && !Tree::Object(m).has_field(key),
{
    member_index_is_first(m, key);
}

} // verus!
