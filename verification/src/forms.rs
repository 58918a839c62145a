//! The parameters of a request: form data, or a JSON object.

use vstd::prelude::*;
use vstd::slice::slice_subrange;

use crate::json;
use crate::json::{Json, Tree};
use crate::string_map::StringMap;
use crate::text;

verus! {

/// The texts of a map of strings.
pub open spec fn texts_of(m: Map<Seq<char>, String>) -> Map<Seq<char>, Seq<char>> {
    m.map_values(|s: String| s@)
}

/// The value of a hexadecimal digit.
pub open spec fn hex_value(c: char) -> Option<int> {
    if '0' <= c <= '9' {
        Some(c as int - 48)
    } else if 'a' <= c <= 'f' {
        Some(c as int - 87)
    } else if 'A' <= c <= 'F' {
        Some(c as int - 55)
    } else {
        None
    }
}

/// Character `i` of `s`; a zero where `s` has ended.
pub open spec fn digit_at(s: Seq<char>, i: int) -> char {
    if i < s.len() {
        s[i]
    } else {
        '0'
    }
}

/// The text after a percent sign and its two digits.
pub open spec fn after_escape(s: Seq<char>) -> Seq<char> {
    if s.len() >= 3 {
        s.skip(3)
    } else {
        seq![]
    }
}

/// `s` with its escapes resolved: the two characters after a percent sign are the
/// number of a character, in hexadecimal; where they are not, nothing stands for
/// them.
pub open spec fn unescaped(s: Seq<char>) -> Seq<char>
    decreases s.len(),
{
    if s.len() == 0 {
        s
    } else if s[0] == '%' {
        let rest = unescaped(after_escape(s));
        match (hex_value(digit_at(s, 1)), hex_value(digit_at(s, 2))) {
            (Some(a), Some(b)) => seq![(a * 16 + b) as u8 as char] + rest,
            _ => rest,
        }
    } else {
        seq![s[0]] + unescaped(s.drop_first())
    }
}

/// `s` as form data writes it: a plus sign stands for a space.
pub open spec fn url_decoded(s: Seq<char>) -> Seq<char> {
    unescaped(text::replaced(s, "+"@, " "@))
}

fn to_hex_value(c: char) -> (r: Option<u8>)
    ensures
        match r {
            Some(v) => hex_value(c) == Some(v as int) && v < 16,
            None => hex_value(c) is None,
        },
{
    if '0' <= c && c <= '9' {
        Some(c as u8 - 48)
    } else if 'a' <= c && c <= 'f' {
        Some(c as u8 - 87)
    } else if 'A' <= c && c <= 'F' {
        Some(c as u8 - 55)
    } else {
        None
    }
}

/// Decodes a name or a value of form data.
pub fn url_decode(s: &str) -> (r: String)
    ensures
        r@ == url_decoded(s@),
{
    proof {
        reveal_strlit("+");
    }
    let v = text::chars_of(&text::replace(s, "+", " "));
    let mut out = String::new();
    let mut i: usize = 0;
    assert(v@.skip(0) =~= v@);
    while i < v.len()
        invariant
            i <= v@.len(),
            out@ + unescaped(v@.skip(i as int)) =~= url_decoded(s@),
        decreases v@.len() - i,
    {
        let ghost rest = v@.skip(i as int);
        assert(rest[0] == v@[i as int]);
        if v[i] == '%' {
            let left: usize = v.len() - i;
            let h1 = if left > 1 {
                v[i + 1]
            } else {
                '0'
            };
            let h2 = if left > 2 {
                v[i + 2]
            } else {
                '0'
            };
            assert(h1 == digit_at(rest, 1));
            assert(h2 == digit_at(rest, 2));
            if let (Some(a), Some(b)) = (to_hex_value(h1), to_hex_value(h2)) {
                let n: u8 = a * 16 + b;
                out.push(n as char);
            }
            i = if left >= 3 {
                i + 3
            } else {
                v.len()
            };
            assert(v@.skip(i as int) =~= after_escape(rest));
        } else {
            out.push(v[i]);
            assert(rest.drop_first() =~= v@.skip(i + 1));
            i += 1;
        }
    }
    assert(v@.skip(v@.len() as int) =~= Seq::<char>::empty());
    out
}

/// A pair of form data: what stands before the first equals sign and what stands
/// after it, each decoded.
pub open spec fn pair_of(s: Seq<char>) -> (Seq<char>, Seq<char>) {
    match text::find_sub(s, seq!['=']) {
        Some(i) => (url_decoded(s.take(i)), url_decoded(s.skip(i + 1))),
        None => (url_decoded(s), url_decoded(seq![])),
    }
}

/// Pairs of form data as a map; of two with one name, the later one counts.
pub open spec fn pairs_map(pairs: Seq<Seq<char>>) -> Map<Seq<char>, Seq<char>>
    decreases pairs.len(),
{
    if pairs.len() == 0 {
        Map::empty()
    } else {
        let (k, v) = pair_of(pairs.last());
        pairs_map(pairs.drop_last()).insert(k, v)
    }
}

/// The parameters that form data gives.
pub open spec fn form_params(input: Seq<char>) -> Map<Seq<char>, Seq<char>> {
    pairs_map(text::split_on(input, '&'))
}

fn read_pair(s: &str) -> (r: (String, String))
    ensures
        (r.0@, r.1@) == pair_of(s@),
{
    let v = text::chars_of(s);
    let mut pat: Vec<char> = Vec::new();
    pat.push('=');
    assert(pat@ =~= seq!['=']);
    let n: usize = v.len();
    match text::find_in(&v, &pat) {
        Some(i) => {
            let k = text::string_of(slice_subrange(&v, 0, i));
            let w = text::string_of(slice_subrange(&v, i + 1, n));
            assert(k@ =~= s@.take(i as int));
            assert(w@ =~= s@.skip(i + 1));
            (url_decode(&k), url_decode(&w))
        },
        None => {
            let empty = String::new();
            assert(empty@ =~= Seq::<char>::empty());
            (url_decode(s), url_decode(&empty))
        },
    }
}

/// Reads form data.
pub fn form_urlencoded_parse(input: &str) -> (r: StringMap<String>)
    ensures
        texts_of(r@) == form_params(input@),
{
    let parts = text::split_char(input, '&');
    let ghost all = text::split_on(input@, '&');
    let mut m: StringMap<String> = StringMap::new();
    let mut i: usize = 0;
    assert(all.take(0) =~= Seq::<Seq<char>>::empty());
    assert(texts_of(m@) =~= Map::<Seq<char>, Seq<char>>::empty());
    while i < parts.len()
        invariant
            i <= parts@.len(),
            all == text::texts(parts@),
            texts_of(m@) == pairs_map(all.take(i as int)),
        decreases parts@.len() - i,
    {
        assert(all.take(i + 1).drop_last() =~= all.take(i as int));
        assert(all.take(i + 1).last() == parts@[i as int]@);
        let (k, v) = read_pair(&parts[i]);
        let ghost before = m@;
        m.insert(&k, v);
        assert(texts_of(m@) =~= texts_of(before).insert(k@, v@));
        i += 1;
    }
    assert(all.take(all.len() as int) =~= all);
    m
}

/// The members of an object that are strings; of two with one name, the later one
/// counts.
pub open spec fn string_members(m: Seq<(Seq<char>, Tree)>) -> Map<Seq<char>, Seq<char>>
    decreases m.len(),
{
    if m.len() == 0 {
        Map::empty()
    } else {
        let before = string_members(m.drop_last());
        match m.last().1 {
            Tree::Text(s) => before.insert(m.last().0, s),
            _ => before,
        }
    }
}

/// The parameters that a body gives as text.
pub open spec fn text_params(body: Seq<u8>) -> Map<Seq<char>, Seq<char>> {
    form_params(
        if vstd::utf8::valid_utf8(body) {
            vstd::utf8::decode_utf8(body)
        } else {
            seq![]
        },
    )
}

/// The parameters that a body gives, where it is known as JSON to be `value`: the
/// strings of an object; otherwise the body counts as form data.
pub open spec fn params_of(content_type: Seq<char>, value: Option<Tree>, body: Seq<u8>) -> Map<
    Seq<char>,
    Seq<char>,
> {
    match value {
        Some(Tree::Object(m)) => if text::has_sub(content_type, "application/json"@) {
            string_members(m)
        } else {
            text_params(body)
        },
        _ => text_params(body),
    }
}

/// The strings of an object.
pub fn read_members(m: &Vec<(String, Json)>) -> (r: StringMap<String>)
    ensures
        texts_of(r@) == string_members(json::members(m@)),
{
    let ghost all = json::members(m@);
    let mut out: StringMap<String> = StringMap::new();
    let mut i: usize = 0;
    assert(all.take(0) =~= Seq::<(Seq<char>, Tree)>::empty());
    assert(texts_of(out@) =~= Map::<Seq<char>, Seq<char>>::empty());
    while i < m.len()
        invariant
            i <= m@.len(),
            all == json::members(m@),
            texts_of(out@) == string_members(all.take(i as int)),
        decreases m@.len() - i,
    {
        assert(all.take(i + 1).drop_last() =~= all.take(i as int));
        assert(all.take(i + 1).last() == (m@[i as int].0@, m@[i as int].1.tree()));
        if let Json::Text(s) = &m[i].1 {
            let ghost before = out@;
            let t = s.clone();
            out.insert(&m[i].0, t);
            assert(texts_of(out@) =~= texts_of(before).insert(m@[i as int].0@, s@));
        }
        i += 1;
    }
    assert(all.take(all.len() as int) =~= all);
    out
}

/// A copy of bytes.
fn copy_bytes(bytes: &[u8]) -> (r: Vec<u8>)
    ensures
        r@ == bytes@,
{
    let mut out: Vec<u8> = Vec::new();
    let mut i: usize = 0;
    while i < bytes.len()
        invariant
            i <= bytes@.len(),
            out@ == bytes@.take(i as int),
        decreases bytes@.len() - i,
    {
        out.push(bytes[i]);
        i += 1;
    }
    assert(bytes@.take(bytes@.len() as int) =~= bytes@);
    out
}

/// The parameters of a body, once it is known what it is as JSON.
pub fn read_params(content_type: &str, value: Option<Json>, body: &[u8]) -> (r: StringMap<String>)
    ensures
        texts_of(r@) == params_of(
            content_type@,
            match value {
                Some(j) => Some(j.tree()),
                None => None,
            },
            body@,
        ),
{
    if text::contains(content_type, "application/json") {
        if let Some(j) = &value {
            proof {
                json::tree_of_parts(*j);
            }
            if let Json::Object(m) = j {
                return read_members(m);
            }
        }
    }
    let s = match text::utf8_text(copy_bytes(body)) {
        Some(s) => s,
        None => String::new(),
    };
    assert(!vstd::utf8::valid_utf8(body@) ==> s@ =~= Seq::<char>::empty());
    form_urlencoded_parse(&s)
}

/// The parameters of a body, by its content type.
pub fn parse_body(content_type: &str, body: &[u8]) -> (r: StringMap<String>)
    ensures
        texts_of(r@) == params_of(content_type@, json::json_parsed(body@), body@),
{
    read_params(content_type, json::parse(body), body)
}

/// A parameter, or an empty text where it is missing.
pub open spec fn param(m: Map<Seq<char>, Seq<char>>, key: Seq<char>) -> Seq<char> {
    if m.contains_key(key) {
        m[key]
    } else {
        seq![]
    }
}

/// A parameter, or an empty text where it is missing.
pub fn read_param(m: &StringMap<String>, key: &str) -> (r: String)
    ensures
        r@ == param(texts_of(m@), key@),
{
    match m.get(key) {
        Some(s) => s.clone(),
        None => {
            let empty = String::new();
            assert(empty@ =~= Seq::<char>::empty());
            empty
        },
    }
}

// ── Laws ──────────────────────────────────────────────────────────────────────

proof fn plus_is_replaced(c: char, s: Seq<char>)
    ensures
        text::replaced(seq![c] + s, "+"@, " "@) == seq![if c == '+' { ' ' } else { c }] + text::replaced(s, "+"@, " "@),
        text::replaced(Seq::<char>::empty(), "+"@, " "@) == Seq::<char>::empty(),
{
    reveal_strlit("+");
    reveal_strlit(" ");
    let all = seq![c] + s;
    assert("+"@ =~= seq!['+']);
    assert(" "@ =~= seq![' ']);
    assert(all[0] == c);
    assert(all.drop_first() =~= s);
    assert(all.skip(1) =~= s);
    assert(all.subrange(0, 1) =~= seq![c]);
    assert(seq![c][0] == c && seq!['+'][0] == '+');
}

/// Form data is decoded from the left: a plus sign is a space, a percent sign and two
/// hexadecimal digits are the character of that number, and anything else is itself.
pub proof fn form_data_is_decoded(c: char, h1: char, a: u32, h2: char, b: u32, s: Seq<char>)
    requires
        c != '%' && c != '+',
        (a < 10 && h1 as u32 == '0' as u32 + a) || (10 <= a < 16 && (h1 as u32 == 'a' as u32 + a - 10 || h1 as u32
            == 'A' as u32 + a - 10)),
        (b < 10 && h2 as u32 == '0' as u32 + b) || (10 <= b < 16 && (h2 as u32 == 'a' as u32 + b - 10 || h2 as u32
            == 'A' as u32 + b - 10)),
    ensures
        url_decoded(Seq::empty()) == Seq::<char>::empty(),
        url_decoded(seq![c] + s) == seq![c] + url_decoded(s),
        url_decoded(seq!['+'] + s) == seq![' '] + url_decoded(s),
        url_decoded(seq!['%', h1, h2] + s) == seq![(16 * a + b) as u8 as char] + url_decoded(s),
{
    let t = text::replaced(s, "+"@, " "@);
    plus_is_replaced(c, s);
    plus_is_replaced('+', s);
    assert((seq![c] + t)[0] == c && (seq![c] + t).drop_first() =~= t);
    assert((seq![' '] + t)[0] == ' ' && (seq![' '] + t).drop_first() =~= t);
    plus_is_replaced(h2, s);
    plus_is_replaced(h1, seq![h2] + s);
    plus_is_replaced('%', seq![h1] + (seq![h2] + s));
    assert(seq!['%', h1, h2] + s =~= seq!['%'] + (seq![h1] + (seq![h2] + s)));
    let r = seq!['%'] + (seq![h1] + (seq![h2] + t));
    assert(r[0] == '%' && r[1] == h1 && r[2] == h2);
    assert(r.skip(3) =~= t);
    assert(hex_value(h1) == Some(a as int));
    assert(hex_value(h2) == Some(b as int));
}

proof fn equals_is_found(k: Seq<char>, v: Seq<char>)
    requires
        forall|i: int| 0 <= i < k.len() ==> k[i] != '=',
    ensures
        text::find_sub(k + seq!['='] + v, seq!['=']) == Some(k.len() as int),
        text::find_sub(k, seq!['=']) is None,
    decreases k.len(),
{
    let s = k + seq!['='] + v;
    let p = seq!['='];
    if k.len() == 0 {
        assert(s.subrange(0, 1) =~= p);
    } else {
        assert(p[0] == '=' && s[0] == k[0]);
        assert(s.subrange(0, 1)[0] == s[0]);
        assert(k.subrange(0, 1)[0] == k[0]);
        assert(s.drop_first() =~= k.drop_first() + seq!['='] + v);
        assert forall|i: int| 0 <= i < k.drop_first().len() implies k.drop_first()[i] != '=' by {
            assert(k.drop_first()[i] == k[i + 1]);
        }
        equals_is_found(k.drop_first(), v);
    }
}

/// A pair is split at its first equals sign, and both sides are decoded; without one the value
/// is empty.
pub proof fn pairs_are_split_at_the_equals_sign(k: Seq<char>, v: Seq<char>)
    requires
        forall|i: int| 0 <= i < k.len() ==> k[i] != '=',
    ensures
        pair_of(k + seq!['='] + v) == (url_decoded(k), url_decoded(v)),
        pair_of(k) == (url_decoded(k), Seq::<char>::empty()),
{
    equals_is_found(k, v);
    let s = k + seq!['='] + v;
    assert(s.take(k.len() as int) =~= k);
    assert(s.skip(k.len() as int + 1) =~= v);
    form_data_is_decoded('x', '0', 0, '0', 0, Seq::empty());
}

proof fn split_at_the_end(a: Seq<char>, p: Seq<char>)
    requires
        forall|i: int| 0 <= i < p.len() ==> p[i] != '&',
    ensures
        text::split_on(a + seq!['&'] + p, '&') == text::split_on(a, '&').push(p),
    decreases a.len(),
{
    let s = a + seq!['&'] + p;
    if exists|i: int| 0 <= i < a.len() && a[i] == '&' {
        let i = first_ampersand(a);
        let b = a.take(i);
        let rest = a.skip(i + 1);
        assert(a =~= b + seq!['&'] + rest);
        assert(s =~= b + seq!['&'] + (rest + seq!['&'] + p));
        assert forall|j: int| 0 <= j < b.len() implies b[j] != '&' by {
            assert(b[j] == a[j]);
        }
        text::texts_are_split(b, '&', rest);
        text::texts_are_split(b, '&', rest + seq!['&'] + p);
        split_at_the_end(rest, p);
        assert(seq![b] + text::split_on(rest, '&').push(p) =~= (seq![b] + text::split_on(rest, '&')).push(p));
    } else {
        text::texts_are_split(a, '&', p);
        text::texts_are_split(p, '&', p);
        assert(seq![a] + seq![p] =~= seq![a].push(p));
    }
}

proof fn first_ampersand(a: Seq<char>) -> (i: int)
    requires
        exists|i: int| 0 <= i < a.len() && a[i] == '&',
    ensures
        0 <= i < a.len(),
        a[i] == '&',
        forall|j: int| 0 <= j < i ==> a[j] != '&',
    decreases a.len(),
{
    if a[0] == '&' {
        0
    } else {
        let k = choose|k: int| 0 <= k < a.len() && a[k] == '&';
        let rest = a.drop_first();
        assert(rest[k - 1] == '&');
        let i = first_ampersand(rest);
        assert forall|j: int| 0 <= j < i + 1 implies a[j] != '&' by {
            if j > 0 {
                assert(a[j] == rest[j - 1]);
            }
        }
        i + 1
    }
}

/// The parameters of form data are its pairs, between ampersands; of two with one name the
/// later one counts.
pub proof fn later_parameters_count(a: Seq<char>, k: Seq<char>, v: Seq<char>)
    requires
        forall|i: int| 0 <= i < k.len() ==> k[i] != '=' && k[i] != '&',
        forall|i: int| 0 <= i < v.len() ==> v[i] != '&',
    ensures
        form_params(k + seq!['='] + v) == Map::<Seq<char>, Seq<char>>::empty().insert(url_decoded(k), url_decoded(v)),
        form_params(a + seq!['&'] + (k + seq!['='] + v)) == form_params(a).insert(url_decoded(k), url_decoded(v)),
{
    let p = k + seq!['='] + v;
    assert forall|i: int| 0 <= i < p.len() implies p[i] != '&' by {
        if i > k.len() {
            assert(p[i] == v[i - k.len() - 1]);
        } else if i < k.len() {
            assert(p[i] == k[i]);
        }
    }
    pairs_are_split_at_the_equals_sign(k, v);
    text::texts_are_split(p, '&', p);
    split_at_the_end(a, p);
    reveal_with_fuel(pairs_map, 2);
    assert(seq![p].drop_last() =~= Seq::<Seq<char>>::empty());
    assert(seq![p].last() == p);
    let all = text::split_on(a, '&').push(p);
    assert(all.drop_last() =~= text::split_on(a, '&'));
    assert(all.last() == p);
}

/// A body that is a JSON object, and is said to be JSON, gives the texts among its members;
/// any other body is form data.
pub proof fn bodies_give_their_parameters(
    content_type: Seq<char>,
    m: Seq<(Seq<char>, Tree)>,
    body: Seq<u8>,
    s: Seq<char>,
    key: Seq<char>,
    t: Tree,
)
    ensures
        text::has_sub(content_type, "application/json"@) ==> params_of(content_type, Some(Tree::Object(m)), body)
            == string_members(m),
        !text::has_sub(content_type, "application/json"@) ==> params_of(
            content_type,
            Some(Tree::Object(m)),
            vstd::utf8::encode_utf8(s),
        ) == form_params(s),
        params_of(content_type, None, vstd::utf8::encode_utf8(s)) == form_params(s),
        string_members(m.push((key, Tree::Text(s)))) == string_members(m).insert(key, s),
        !(t is Text) ==> string_members(m.push((key, t))) == string_members(m),
        string_members(Seq::empty()) == Map::<Seq<char>, Seq<char>>::empty(),
{
    vstd::utf8::encode_utf8_valid_utf8(s);
    vstd::utf8::encode_utf8_decode_utf8(s);
    assert(m.push((key, Tree::Text(s))).drop_last() =~= m);
    assert(m.push((key, t)).drop_last() =~= m);
}

/// An escape whose two characters are no hexadecimal digits stands for nothing; what is missing
/// of one at the end counts as zero.
pub proof fn bad_escapes_are_dropped(h1: char, h2: char, s: Seq<char>)
    requires
        h1 != '+' && h2 != '+',
        !('0' <= h1 <= '9' || 'a' <= h1 <= 'f' || 'A' <= h1 <= 'F') || !('0' <= h2 <= '9' || 'a' <= h2 <= 'f' || 'A' <= h2
            <= 'F'),
    ensures
        url_decoded(seq!['%', h1, h2] + s) == url_decoded(s),
        url_decoded(seq!['%', '4']) == seq!['@'],
{
    let t = text::replaced(s, "+"@, " "@);
    plus_is_replaced(h2, s);
    plus_is_replaced(h1, seq![h2] + s);
    plus_is_replaced('%', seq![h1] + (seq![h2] + s));
    assert(seq!['%', h1, h2] + s =~= seq!['%'] + (seq![h1] + (seq![h2] + s)));
    let r = seq!['%'] + (seq![h1] + (seq![h2] + t));
    assert(r[0] == '%' && r[1] == h1 && r[2] == h2);
    assert(r.skip(3) =~= t);
    let e = Seq::<char>::empty();
    plus_is_replaced('4', e);
    plus_is_replaced('%', seq!['4'] + e);
    assert(seq!['%'] + (seq!['4'] + e) =~= seq!['%', '4']);
    let q = seq!['%', '4'];
    assert(text::replaced(q, "+"@, " "@) =~= q);
    assert(q[0] == '%' && q[1] == '4' && q.len() == 2);
    assert(unescaped(after_escape(q)) =~= e);
    assert((4 * 16 + 0) as u8 as char == '@');
    assert(unescaped(q) =~= seq!['@']);
}

} // verus!
