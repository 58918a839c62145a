//! Text as sequences of characters: the string operations that the rest of the
//! library is built from, each with a specification over `Seq<char>`.

use vstd::prelude::*;
use vstd::slice::slice_subrange;
use vstd::utf8::*;

verus! {

// ── What std contributes ──────────────────────────────────────────────────────

/// `String::push`: the character is appended.
pub assume_specification[ String::push ](s: &mut String, c: char)
    ensures
        final(s)@ == old(s)@.push(c),
;

/// Whether a character beyond ASCII has Unicode's `White_Space` property.
pub uninterp spec fn unicode_white(c: char) -> bool;

/// Whether a character is white space.
pub open spec fn is_white(c: char) -> bool {
    if (c as u32) < 128 {
        c == ' ' || 9 <= (c as u32) <= 13
    } else {
        unicode_white(c)
    }
}

/// `char::is_whitespace`: which characters of ASCII are white space, and that it is
/// a property of the character beyond.
pub assume_specification[ char::is_whitespace ](c: char) -> (r: bool)
    ensures
        (c as u32) < 128 ==> r == (c == ' ' || 9 <= (c as u32) <= 13),
        (c as u32) >= 128 ==> r == unicode_white(c),
;

/// Whether a character beyond ASCII has Unicode's `Alphabetic` property.
pub uninterp spec fn unicode_alpha(c: char) -> bool;

/// Whether a character is a letter.
pub open spec fn is_alpha(c: char) -> bool {
    if (c as u32) < 128 {
        is_ascii_letter(c)
    } else {
        unicode_alpha(c)
    }
}

/// `char::is_alphabetic`: which characters of ASCII are letters, and that it is a
/// property of the character beyond.
pub assume_specification[ char::is_alphabetic ](c: char) -> (r: bool)
    ensures
        (c as u32) < 128 ==> r == is_ascii_letter(c),
        (c as u32) >= 128 ==> r == unicode_alpha(c),
;

/// Whether a character beyond ASCII is alphabetic or belongs to a numeric category of
/// Unicode.
pub uninterp spec fn unicode_alnum(c: char) -> bool;

/// Whether a character is a letter or a number.
pub open spec fn is_alnum(c: char) -> bool {
    if (c as u32) < 128 {
        is_ascii_letter(c) || '0' <= c <= '9'
    } else {
        unicode_alnum(c)
    }
}

/// `char::is_alphanumeric`: which characters of ASCII are letters or digits, and that
/// it is a property of the character beyond.
pub assume_specification[ char::is_alphanumeric ](c: char) -> (r: bool)
    ensures
        (c as u32) < 128 ==> r == (is_ascii_letter(c) || '0' <= c <= '9'),
        (c as u32) >= 128 ==> r == unicode_alnum(c),
;

/// The lowercase equivalent of a text, by Unicode's case tables.
pub uninterp spec fn lowercase(s: Seq<char>) -> Seq<char>;

/// Calls `str::to_lowercase`. Its result is a function of the text alone; which
/// characters it maps to what is left to Unicode.
#[verifier::external_body]
pub(crate) fn to_lowercase(s: &str) -> (r: String)
    ensures
        r@ == lowercase(s@),
{
    s.to_lowercase()
}

/// Calls `String::from_utf8`: the bytes become a text if and only if they are
/// valid UTF-8, and the text then encodes to those bytes.
#[verifier::external_body]
pub(crate) fn utf8_text(bytes: Vec<u8>) -> (r: Option<String>)
    ensures
        r is Some <==> valid_utf8(bytes@),
        r matches Some(s) ==> s@ == decode_utf8(bytes@),
{
    String::from_utf8(bytes).ok()
}

// ── Character sets ────────────────────────────────────────────────────────────

/// A set of characters that a text can be trimmed of.
pub enum CharSet {
    /// Unicode white space.
    White,
    /// The characters listed.
    In(Vec<char>),
}

/// The mathematical counterpart of `CharSet`.
pub enum Chars {
    White,
    In(Seq<char>),
}

impl Chars {
    pub open spec fn has(self, c: char) -> bool {
        match self {
            Chars::White => is_white(c),
            Chars::In(s) => s.contains(c),
        }
    }
}

impl View for CharSet {
    type V = Chars;

    open spec fn view(&self) -> Chars {
        match self {
            CharSet::White => Chars::White,
            CharSet::In(v) => Chars::In(v@),
        }
    }
}

impl CharSet {
    /// Whether `c` belongs to the set.
    pub fn has(&self, c: char) -> (r: bool)
        ensures
            r == self@.has(c),
    {
        match self {
            CharSet::White => c.is_whitespace(),
            CharSet::In(v) => {
                let mut i: usize = 0;
                while i < v.len()
                    invariant
                        i <= v@.len(),
                        self@ == Chars::In(v@),
                        forall|j: int| 0 <= j < i ==> v@[j] != c,
                    decreases v@.len() - i,
                {
                    if v[i] == c {
                        return true;
                    }
                    i += 1;
                }
                false
            },
        }
    }
}

// ── Specifications ────────────────────────────────────────────────────────────

pub open spec fn is_ascii_letter(c: char) -> bool {
    ('a' <= c <= 'z') || ('A' <= c <= 'Z')
}

/// The texts that a list of strings holds.
pub open spec fn texts(v: Seq<String>) -> Seq<Seq<char>> {
    v.map_values(|s: String| s@)
}

/// `s` without its leading characters of `k`.
pub open spec fn trim_front(s: Seq<char>, k: Chars) -> Seq<char>
    decreases s.len(),
{
    if s.len() > 0 && k.has(s[0]) {
        trim_front(s.drop_first(), k)
    } else {
        s
    }
}

/// `s` without its trailing characters of `k`.
pub open spec fn trim_back(s: Seq<char>, k: Chars) -> Seq<char>
    decreases s.len(),
{
    if s.len() > 0 && k.has(s.last()) {
        trim_back(s.drop_last(), k)
    } else {
        s
    }
}

/// `s` without the characters of `k` at either end.
pub open spec fn trim_both(s: Seq<char>, k: Chars) -> Seq<char> {
    trim_back(trim_front(s, k), k)
}

/// `s` without white space at either end.
pub open spec fn trimmed(s: Seq<char>) -> Seq<char> {
    trim_both(s, Chars::White)
}

/// Where `p` first occurs in `s`.
pub open spec fn find_sub(s: Seq<char>, p: Seq<char>) -> Option<int>
    decreases s.len(),
{
    if p.is_prefix_of(s) {
        Some(0int)
    } else if s.len() == 0 {
        None
    } else {
        match find_sub(s.drop_first(), p) {
            Some(i) => Some(i + 1),
            None => None,
        }
    }
}

/// Whether `p` occurs in `s`.
pub open spec fn has_sub(s: Seq<char>, p: Seq<char>) -> bool {
    find_sub(s, p) is Some
}

/// `s` with each occurrence of `from`, taken from the left and without overlap,
/// replaced by `to`.
pub open spec fn replaced(s: Seq<char>, from: Seq<char>, to: Seq<char>) -> Seq<char>
    decreases s.len(),
{
    if s.len() == 0 {
        s
    } else if from.len() > 0 && from.is_prefix_of(s) {
        to + replaced(s.skip(from.len() as int), from, to)
    } else {
        seq![s[0]] + replaced(s.drop_first(), from, to)
    }
}

/// The pieces of `s` between the occurrences of `c`.
pub open spec fn split_on(s: Seq<char>, c: char) -> Seq<Seq<char>>
    decreases s.len(),
{
    match find_sub(s, seq![c]) {
        Some(i) => if 0 <= i < s.len() {
            seq![s.take(i)] + split_on(s.skip(i + 1), c)
        } else {
            seq![s]
        },
        None => seq![s],
    }
}

/// The lines of `s`, each with its line ending.
pub open spec fn lines_inclusive(s: Seq<char>) -> Seq<Seq<char>>
    decreases s.len(),
{
    if s.len() == 0 {
        seq![]
    } else {
        match find_sub(s, seq!['\n']) {
            Some(i) => if 0 <= i < s.len() {
                seq![s.take(i + 1)] + lines_inclusive(s.skip(i + 1))
            } else {
                seq![s]
            },
            None => seq![s],
        }
    }
}

/// A line without its `\n` or `\r\n`.
pub open spec fn without_ending(line: Seq<char>) -> Seq<char> {
    if line.len() > 0 && line.last() == '\n' {
        let l = line.drop_last();
        if l.len() > 0 && l.last() == '\r' {
            l.drop_last()
        } else {
            l
        }
    } else {
        line
    }
}

/// The lines of `s`, without their line endings.
pub open spec fn lines_of(s: Seq<char>) -> Seq<Seq<char>> {
    lines_inclusive(s).map_values(|l: Seq<char>| without_ending(l))
}

/// The texts of `parts`, with `sep` between them.
pub open spec fn joined(parts: Seq<Seq<char>>, sep: Seq<char>) -> Seq<char>
    decreases parts.len(),
{
    if parts.len() == 0 {
        seq![]
    } else if parts.len() == 1 {
        parts[0]
    } else {
        joined(parts.drop_last(), sep) + sep + parts.last()
    }
}

/// An ASCII capital letter as its small letter; every other character as it is.
pub open spec fn ascii_lower(c: char) -> char {
    if 'A' <= c <= 'Z' {
        ((c as u8) + 32) as u8 as char
    } else {
        c
    }
}

/// Whether two texts are the same but for the case of ASCII letters.
pub open spec fn same_but_ascii_case(a: Seq<char>, b: Seq<char>) -> bool {
    &&& a.len() == b.len()
    &&& forall|i: int| 0 <= i < a.len() ==> ascii_lower(#[trigger] a[i]) == ascii_lower(b[i])
}

/// The decimal digit `d`.
pub open spec fn digit(d: int) -> char {
    (48 + d) as u8 as char
}

/// `n` in decimal.
pub open spec fn decimal(n: nat) -> Seq<char>
    decreases n,
{
    if n < 10 {
        seq![digit(n as int)]
    } else {
        decimal(n / 10).push(digit((n % 10) as int))
    }
}

/// How many bytes `s` takes in UTF-8.
pub open spec fn utf8_len(s: Seq<char>) -> nat {
    encode_utf8(s).len()
}

/// Text `a` comes before text `b`, or is the same, in the order of code points.
pub open spec fn text_le(a: Seq<char>, b: Seq<char>) -> bool
    decreases a.len(),
{
    if a.len() == 0 {
        true
    } else if b.len() == 0 {
        false
    } else if a[0] != b[0] {
        a[0] < b[0]
    } else {
        text_le(a.drop_first(), b.drop_first())
    }
}

// ── Characters and strings ────────────────────────────────────────────────────

/// The characters of `s`, in order.
pub fn chars_of(s: &str) -> (r: Vec<char>)
    ensures
        r@ == s@,
{
    let mut v: Vec<char> = Vec::new();
    for c in it: s.chars()
        invariant
            v@ == s@.take(it.index() as int),
            it.seq() == s@,
    {
        v.push(c);
    }
    assert(s@.take(s@.len() as int) =~= s@);
    v
}

/// The string of the characters of `v`.
pub fn string_of(v: &[char]) -> (r: String)
    ensures
        r@ == v@,
{
    let mut s = String::new();
    let mut i: usize = 0;
    while i < v.len()
        invariant
            i <= v@.len(),
            s@ == v@.take(i as int),
        decreases v@.len() - i,
    {
        s.push(v[i]);
        i += 1;
    }
    assert(v@.take(v@.len() as int) =~= v@);
    s
}

/// Whether two texts hold the same characters.
pub fn same(a: &str, b: &str) -> (r: bool)
    ensures
        r == (a@ == b@),
{
    let x = a.to_owned();
    let y = b.to_owned();
    x == y
}

/// `a` followed by `b`.
pub fn cat(a: &str, b: &str) -> (r: String)
    ensures
        r@ == a@ + b@,
{
    let mut s = a.to_owned();
    s.append(b);
    s
}

/// `a`, `b` and `c`, one after the other.
pub fn cat3(a: &str, b: &str, c: &str) -> (r: String)
    ensures
        r@ == a@ + b@ + c@,
{
    let mut s = a.to_owned();
    s.append(b);
    s.append(c);
    s
}

/// A set of one character.
pub fn only(c: char) -> (r: CharSet)
    ensures
        r@ == Chars::In(seq![c]),
{
    let mut v: Vec<char> = Vec::new();
    v.push(c);
    assert(v@ =~= seq![c]);
    CharSet::In(v)
}

/// A set of two characters.
pub fn either(c: char, d: char) -> (r: CharSet)
    ensures
        r@ == Chars::In(seq![c, d]),
{
    let mut v: Vec<char> = Vec::new();
    v.push(c);
    v.push(d);
    assert(v@ =~= seq![c, d]);
    CharSet::In(v)
}

// ── Trimming ──────────────────────────────────────────────────────────────────

/// How many leading characters of `v` belong to `k`.
pub fn front_count(v: &[char], k: &CharSet) -> (r: usize)
    ensures
        r <= v@.len(),
        v@.skip(r as int) == trim_front(v@, k@),
{
    let mut i: usize = 0;
    assert(v@.skip(0) =~= v@);
    while i < v.len()
        invariant
            i <= v@.len(),
            trim_front(v@.skip(i as int), k@) == trim_front(v@, k@),
        ensures
            i <= v@.len(),
            v@.skip(i as int) == trim_front(v@, k@),
        decreases v@.len() - i,
    {
        if !k.has(v[i]) {
            assert(v@.skip(i as int)[0] == v@[i as int]);
            break;
        }
        assert(v@.skip(i as int).drop_first() =~= v@.skip(i + 1));
        assert(v@.skip(i as int)[0] == v@[i as int]);
        i += 1;
    }
    i
}

/// How many characters of `v` are left without its trailing ones of `k`.
pub fn back_count(v: &[char], k: &CharSet) -> (r: usize)
    ensures
        r <= v@.len(),
        v@.take(r as int) == trim_back(v@, k@),
{
    let mut i: usize = v.len();
    assert(v@.take(v@.len() as int) =~= v@);
    while i > 0
        invariant
            i <= v@.len(),
            trim_back(v@.take(i as int), k@) == trim_back(v@, k@),
        ensures
            i <= v@.len(),
            v@.take(i as int) == trim_back(v@, k@),
        decreases i,
    {
        if !k.has(v[i - 1]) {
            assert(v@.take(i as int).last() == v@[i - 1]);
            break;
        }
        assert(v@.take(i as int).drop_last() =~= v@.take(i - 1));
        assert(v@.take(i as int).last() == v@[i - 1]);
        i -= 1;
    }
    i
}

/// `s` without its leading characters of `k`.
pub fn trim_start_matches(s: &str, k: &CharSet) -> (r: String)
    ensures
        r@ == trim_front(s@, k@),
{
    let v = chars_of(s);
    let n = front_count(&v, k);
    string_of(slice_subrange(&v, n, v.len()))
}

/// `s` without its trailing characters of `k`.
pub fn trim_end_matches(s: &str, k: &CharSet) -> (r: String)
    ensures
        r@ == trim_back(s@, k@),
{
    let v = chars_of(s);
    let n = back_count(&v, k);
    string_of(slice_subrange(&v, 0, n))
}

/// `s` without the characters of `k` at either end.
pub fn trim_matches(s: &str, k: &CharSet) -> (r: String)
    ensures
        r@ == trim_both(s@, k@),
{
    let t = trim_start_matches(s, k);
    trim_end_matches(&t, k)
}

/// `s` without white space at either end.
pub fn trim(s: &str) -> (r: String)
    ensures
        r@ == trimmed(s@),
{
    trim_matches(s, &CharSet::White)
}

// ── Searching ─────────────────────────────────────────────────────────────────

/// Whether `p` is a prefix of `v`.
pub fn begins(v: &[char], p: &[char]) -> (r: bool)
    ensures
        r == p@.is_prefix_of(v@),
{
    if p.len() > v.len() {
        return false;
    }
    let mut i: usize = 0;
    while i < p.len()
        invariant
            i <= p@.len() <= v@.len(),
            forall|j: int| 0 <= j < i ==> v@[j] == p@[j],
        decreases p@.len() - i,
    {
        if v[i] != p[i] {
            assert(v@.subrange(0, p@.len() as int)[i as int] == v@[i as int]);
            return false;
        }
        i += 1;
    }
    assert(p@ =~= v@.subrange(0, p@.len() as int));
    true
}

/// Where `p` first occurs in `v`.
pub fn find_in(v: &[char], p: &[char]) -> (r: Option<usize>)
    ensures
        match r {
            Some(i) => find_sub(v@, p@) == Some(i as int) && i + p@.len() <= v@.len(),
            None => find_sub(v@, p@) is None,
        },
{
    let mut i: usize = 0;
    assert(v@.skip(0) =~= v@);
    loop
        invariant
            i <= v@.len(),
            match find_sub(v@.skip(i as int), p@) {
                Some(k) => find_sub(v@, p@) == Some(k + i),
                None => find_sub(v@, p@) is None,
            },
        decreases v@.len() - i,
    {
        if begins(slice_subrange(v, i, v.len()), p) {
            return Some(i);
        }
        if i == v.len() {
            return None;
        }
        assert(v@.skip(i as int).drop_first() =~= v@.skip(i + 1));
        i += 1;
    }
}

/// Whether `p` is a prefix of `s`.
pub fn starts_with(s: &str, p: &str) -> (r: bool)
    ensures
        r == p@.is_prefix_of(s@),
{
    begins(&chars_of(s), &chars_of(p))
}

/// Whether `p` occurs in `s`.
pub fn contains(s: &str, p: &str) -> (r: bool)
    ensures
        r == has_sub(s@, p@),
{
    find_in(&chars_of(s), &chars_of(p)).is_some()
}

/// Whether the character `c` occurs in `s`.
pub fn contains_char(s: &str, c: char) -> (r: bool)
    ensures
        r == s@.contains(c),
{
    let v = chars_of(s);
    let mut i: usize = 0;
    while i < v.len()
        invariant
            i <= v@.len(),
            v@ == s@,
            forall|j: int| 0 <= j < i ==> s@[j] != c,
        decreases v@.len() - i,
    {
        if v[i] == c {
            assert(s@[i as int] == c);
            return true;
        }
        i += 1;
    }
    false
}

/// What follows the prefix `p` of `s`, if `s` has it.
pub fn strip_prefix(s: &str, p: &str) -> (r: Option<String>)
    ensures
        match r {
            Some(t) => p@.is_prefix_of(s@) && t@ == s@.skip(p@.len() as int),
            None => !p@.is_prefix_of(s@),
        },
{
    let v = chars_of(s);
    let q = chars_of(p);
    if begins(&v, &q) {
        Some(string_of(slice_subrange(&v, q.len(), v.len())))
    } else {
        None
    }
}

// ── Replacing, splitting, joining ─────────────────────────────────────────────

/// `s` with each occurrence of `from` replaced by `to`.
pub fn replace(s: &str, from: &str, to: &str) -> (r: String)
    requires
        from@.len() > 0,
    ensures
        r@ == replaced(s@, from@, to@),
{
    let v = chars_of(s);
    let f = chars_of(from);
    let mut out = String::new();
    let mut i: usize = 0;
    assert(v@.skip(0) =~= v@);
    while i < v.len()
        invariant
            i <= v@.len(),
            v@ == s@,
            f@ == from@,
            f@.len() > 0,
            out@ + replaced(v@.skip(i as int), from@, to@) =~= replaced(s@, from@, to@),
        decreases v@.len() - i,
    {
        if begins(slice_subrange(&v, i, v.len()), &f) {
            out.append(to);
            assert(v@.skip(i as int).skip(f@.len() as int) =~= v@.skip(i + f@.len()));
            i += f.len();
        } else {
            out.push(v[i]);
            assert(v@.skip(i as int).drop_first() =~= v@.skip(i + 1));
            assert(v@.skip(i as int)[0] == v@[i as int]);
            i += 1;
        }
    }
    assert(v@.skip(v@.len() as int) =~= Seq::<char>::empty());
    out
}

/// The pieces of `s` between the occurrences of `c`.
pub fn split_char(s: &str, c: char) -> (r: Vec<String>)
    ensures
        texts(r@) == split_on(s@, c),
{
    let v = chars_of(s);
    let mut pat: Vec<char> = Vec::new();
    pat.push(c);
    let mut out: Vec<String> = Vec::new();
    let mut i: usize = 0;
    assert(pat@ =~= seq![c]);
    assert(v@.skip(0) =~= v@);
    loop
        invariant
            i <= v@.len(),
            v@ == s@,
            pat@ == seq![c],
            texts(out@) + split_on(v@.skip(i as int), c) =~= split_on(s@, c),
        decreases v@.len() - i,
    {
        let rest = slice_subrange(&v, i, v.len());
        assert(rest@ =~= v@.skip(i as int));
        match find_in(rest, &pat) {
            Some(k) => {
                let piece = string_of(slice_subrange(rest, 0, k));
                assert(piece@ =~= rest@.take(k as int));
                let ghost before = out@;
                out.push(piece);
                assert(texts(out@) =~= texts(before).push(piece@));
                assert(rest@.skip(k + 1) =~= v@.skip(i + k + 1));
                i = i + k + 1;
            },
            None => {
                let ghost before = out@;
                out.push(string_of(rest));
                assert(texts(out@) =~= texts(before).push(rest@));
                return out;
            },
        }
    }
}

/// The lines of `s`, each with its line ending.
pub fn split_lines_inclusive(s: &str) -> (r: Vec<String>)
    ensures
        texts(r@) == lines_inclusive(s@),
{
    let v = chars_of(s);
    let mut pat: Vec<char> = Vec::new();
    pat.push('\n');
    let mut out: Vec<String> = Vec::new();
    let mut i: usize = 0;
    assert(pat@ =~= seq!['\n']);
    assert(v@.skip(0) =~= v@);
    while i < v.len()
        invariant
            i <= v@.len(),
            v@ == s@,
            pat@ == seq!['\n'],
            texts(out@) + lines_inclusive(v@.skip(i as int)) =~= lines_inclusive(s@),
        decreases v@.len() - i,
    {
        let rest = slice_subrange(&v, i, v.len());
        assert(rest@ =~= v@.skip(i as int));
        match find_in(rest, &pat) {
            Some(k) => {
                let piece = string_of(slice_subrange(rest, 0, k + 1));
                assert(piece@ =~= rest@.take(k + 1));
                let ghost before = out@;
                out.push(piece);
                assert(texts(out@) =~= texts(before).push(piece@));
                assert(rest@.skip(k + 1) =~= v@.skip(i + k + 1));
                i = i + k + 1;
            },
            None => {
                let ghost before = out@;
                out.push(string_of(rest));
                assert(texts(out@) =~= texts(before).push(rest@));
                return out;
            },
        }
    }
    assert(v@.skip(v@.len() as int) =~= Seq::<char>::empty());
    out
}

/// A line without its `\n` or `\r\n`.
pub fn strip_ending(line: &str) -> (r: String)
    ensures
        r@ == without_ending(line@),
{
    let v = chars_of(line);
    let mut n: usize = v.len();
    if n > 0 && v[n - 1] == '\n' {
        n -= 1;
        if n > 0 && v[n - 1] == '\r' {
            n -= 1;
        }
    }
    let r = string_of(slice_subrange(&v, 0, n));
    assert(r@ =~= without_ending(line@));
    r
}

/// The lines of `s`, without their line endings.
pub fn lines(s: &str) -> (r: Vec<String>)
    ensures
        texts(r@) == lines_of(s@),
{
    let whole = split_lines_inclusive(s);
    let mut out: Vec<String> = Vec::new();
    let mut i: usize = 0;
    while i < whole.len()
        invariant
            i <= whole@.len(),
            out@.len() == i,
            forall|j: int| 0 <= j < i ==> (#[trigger] out@[j])@ == without_ending(whole@[j]@),
        decreases whole@.len() - i,
    {
        out.push(strip_ending(&whole[i]));
        i += 1;
    }
    proof {
        let ghost w = lines_inclusive(s@);
        assert(texts(whole@) == w);
        assert forall|j: int| 0 <= j < out@.len() implies texts(out@)[j] == lines_of(s@)[j] by {
            assert(texts(whole@)[j] == whole@[j]@);
        }
        assert(texts(out@) =~= lines_of(s@));
    }
    out
}

/// The texts of `parts`, with `sep` between them.
pub fn join(parts: &[String], sep: &str) -> (r: String)
    ensures
        r@ == joined(texts(parts@), sep@),
{
    let mut out = String::new();
    let mut i: usize = 0;
    assert(texts(parts@).take(0) =~= Seq::<Seq<char>>::empty());
    while i < parts.len()
        invariant
            i <= parts@.len(),
            out@ == joined(texts(parts@).take(i as int), sep@),
        decreases parts@.len() - i,
    {
        if i > 0 {
            out.append(sep);
        }
        out.append(&parts[i]);
        proof {
            let t = texts(parts@);
            assert(t.take(i + 1).drop_last() =~= t.take(i as int));
            assert(t.take(i + 1).last() == parts@[i as int]@);
            if i == 0 {
                assert(out@ =~= parts@[0]@);
            }
        }
        i += 1;
    }
    assert(texts(parts@).take(parts@.len() as int) =~= texts(parts@));
    out
}

// ── Case, numbers, sizes ──────────────────────────────────────────────────────

/// Whether two texts are the same but for the case of ASCII letters.
pub fn eq_ignore_ascii_case(a: &str, b: &str) -> (r: bool)
    ensures
        r == same_but_ascii_case(a@, b@),
{
    let v = chars_of(a);
    let w = chars_of(b);
    if v.len() != w.len() {
        return false;
    }
    let mut i: usize = 0;
    while i < v.len()
        invariant
            i <= v@.len() == w@.len(),
            v@ == a@,
            w@ == b@,
            forall|j: int| 0 <= j < i ==> ascii_lower(#[trigger] v@[j]) == ascii_lower(w@[j]),
        decreases v@.len() - i,
    {
        if to_ascii_lower(v[i]) != to_ascii_lower(w[i]) {
            assert(ascii_lower(a@[i as int]) != ascii_lower(b@[i as int]));
            return false;
        }
        i += 1;
    }
    true
}

/// An ASCII capital letter as its small letter; every other character as it is.
pub fn to_ascii_lower(c: char) -> (r: char)
    ensures
        r == ascii_lower(c),
{
    if 'A' <= c && c <= 'Z' {
        ((c as u8) + 32) as char
    } else {
        c
    }
}

/// `n` in decimal.
pub fn to_decimal(n: u64) -> (r: String)
    ensures
        r@ == decimal(n as nat),
    decreases n,
{
    if n < 10 {
        let mut s = String::new();
        s.push((48 + n as u8) as char);
        assert(s@ =~= seq![digit(n as int)]);
        s
    } else {
        let mut s = to_decimal(n / 10);
        s.push((48 + (n % 10) as u8) as char);
        s
    }
}

/// How many bytes `s` takes in UTF-8.
pub fn byte_len(s: &str) -> (r: usize)
    ensures
        r == utf8_len(s@),
{
    s.as_bytes().len()
}

/// Whether text `a` comes before text `b`, or is the same.
pub fn le(a: &str, b: &str) -> (r: bool)
    ensures
        r == text_le(a@, b@),
{
    let v = chars_of(a);
    let w = chars_of(b);
    let mut i: usize = 0;
    assert(v@.skip(0) =~= v@);
    assert(w@.skip(0) =~= w@);
    loop
        invariant
            i <= v@.len(),
            i <= w@.len(),
            v@ == a@,
            w@ == b@,
            text_le(v@.skip(i as int), w@.skip(i as int)) == text_le(a@, b@),
        decreases v@.len() - i,
    {
        if i == v.len() {
            return true;
        }
        if i == w.len() {
            return false;
        }
        assert(v@.skip(i as int)[0] == v@[i as int]);
        assert(w@.skip(i as int)[0] == w@[i as int]);
        if v[i] != w[i] {
            return v[i] < w[i];
        }
        assert(v@.skip(i as int).drop_first() =~= v@.skip(i + 1));
        assert(w@.skip(i as int).drop_first() =~= w@.skip(i + 1));
        i += 1;
    }
}

// ── Facts ─────────────────────────────────────────────────────────────────────

/// The order of texts is total.
pub proof fn text_le_total(a: Seq<char>, b: Seq<char>)
    ensures
        text_le(a, b) || text_le(b, a),
    decreases a.len(),
{
    if a.len() > 0 && b.len() > 0 && a[0] == b[0] {
        text_le_total(a.drop_first(), b.drop_first());
    }
}

/// The order of texts is transitive.
pub proof fn text_le_transitive(a: Seq<char>, b: Seq<char>, c: Seq<char>)
    requires
        text_le(a, b),
        text_le(b, c),
    ensures
        text_le(a, c),
    decreases a.len(),
{
    if a.len() > 0 && b.len() > 0 && c.len() > 0 && a[0] == b[0] && b[0] == c[0] {
        text_le_transitive(a.drop_first(), b.drop_first(), c.drop_first());
    }
}

/// Two texts that come before one another are the same.
pub proof fn text_le_antisymmetric(a: Seq<char>, b: Seq<char>)
    requires
        text_le(a, b),
        text_le(b, a),
    ensures
        a == b,
    decreases a.len(),
{
    if a.len() > 0 && b.len() > 0 && a[0] == b[0] {
        text_le_antisymmetric(a.drop_first(), b.drop_first());
        assert(a =~= seq![a[0]] + a.drop_first());
        assert(b =~= seq![b[0]] + b.drop_first());
    } else {
        assert(a =~= b);
    }
}

/// A text with nothing to trim at its ends stays as it is.
pub proof fn nothing_to_trim(s: Seq<char>, k: Chars)
    requires
        s.len() > 0 ==> !k.has(s[0]) && !k.has(s.last()),
    ensures
        trim_both(s, k) == s,
{
}

/// The lines of a text, one after the other, are the text.
pub proof fn lines_make_the_text(s: Seq<char>)
    ensures
        lines_inclusive(s).flatten() == s,
    decreases s.len(),
{
    if s.len() == 0 {
        assert(lines_inclusive(s).flatten() =~= s);
    } else {
        match find_sub(s, seq!['\n']) {
            Some(i) => {
                if 0 <= i < s.len() {
                    lines_make_the_text(s.skip(i + 1));
                    let l = seq![s.take(i + 1)] + lines_inclusive(s.skip(i + 1));
                    assert(l.first() == s.take(i + 1));
                    assert(l.drop_first() =~= lines_inclusive(s.skip(i + 1)));
                    assert(s.take(i + 1) + s.skip(i + 1) =~= s);
                } else {
                    seq![s].lemma_flatten_one_element();
                }
            },
            None => {
                seq![s].lemma_flatten_one_element();
            },
        }
    }
}

// ── What the operations come to ───────────────────────────────────────────────

/// White space of ASCII is the space, the tab and the four characters after it.
pub proof fn ascii_white_space(c: char)
    requires
        (c as u32) < 128,
    ensures
        is_white(c) <==> c == ' ' || c == '\t' || c == '\n' || c as u32 == 11 || c as u32 == 12 || c == '\r',
{
}

/// What is trimmed at the front belongs to the set, and what is left does not start with
/// it.
pub proof fn front_is_trimmed(a: Seq<char>, t: Seq<char>, k: Chars)
    requires
        forall|i: int| 0 <= i < a.len() ==> k.has(#[trigger] a[i]),
        t.len() > 0 ==> !k.has(t[0]),
    ensures
        trim_front(a + t, k) == t,
    decreases a.len(),
{
    if a.len() == 0 {
        assert(a + t =~= t);
    } else {
        assert((a + t)[0] == a[0]);
        assert((a + t).drop_first() =~= a.drop_first() + t);
        assert forall|i: int| 0 <= i < a.drop_first().len() implies k.has(#[trigger] a.drop_first()[i]) by {
            assert(a.drop_first()[i] == a[i + 1]);
        }
        front_is_trimmed(a.drop_first(), t, k);
    }
}

/// What is trimmed at the back belongs to the set, and what is left does not end with it.
pub proof fn back_is_trimmed(t: Seq<char>, b: Seq<char>, k: Chars)
    requires
        forall|i: int| 0 <= i < b.len() ==> k.has(#[trigger] b[i]),
        t.len() > 0 ==> !k.has(t.last()),
    ensures
        trim_back(t + b, k) == t,
    decreases b.len(),
{
    if b.len() == 0 {
        assert(t + b =~= t);
    } else {
        assert((t + b).last() == b.last());
        assert((t + b).drop_last() =~= t + b.drop_last());
        back_is_trimmed(t, b.drop_last(), k);
    }
}

/// What surrounds a text is trimmed, and the text is left.
pub proof fn surroundings_are_trimmed(a: Seq<char>, t: Seq<char>, b: Seq<char>, k: Chars)
    requires
        forall|i: int| 0 <= i < a.len() ==> k.has(#[trigger] a[i]),
        forall|i: int| 0 <= i < b.len() ==> k.has(#[trigger] b[i]),
        t.len() > 0 ==> !k.has(t[0]) && !k.has(t.last()),
    ensures
        trim_both(a + t + b, k) == t,
{
    if t.len() > 0 {
        assert(a + t + b =~= a + (t + b));
        assert((t + b)[0] == t[0]);
        front_is_trimmed(a, t + b, k);
        back_is_trimmed(t, b, k);
    } else {
        let e = Seq::<char>::empty();
        assert(a + t + b =~= (a + b) + e);
        assert forall|i: int| 0 <= i < (a + b).len() implies k.has(#[trigger] (a + b)[i]) by {
            if i >= a.len() {
                assert((a + b)[i] == b[i - a.len()]);
            }
        }
        front_is_trimmed(a + b, e, k);
        assert(t =~= e);
    }
}

/// Every text is what is left of it by trimming, with characters of the set around it.
pub proof fn trimming_takes_only_the_set(s: Seq<char>, k: Chars)
    ensures
        exists|i: int, j: int|
            {
                &&& 0 <= i <= j <= s.len()
                &&& trim_both(s, k) == #[trigger] s.subrange(i, j)
                &&& forall|m: int| 0 <= m < i ==> k.has(#[trigger] s[m])
                &&& forall|m: int| j <= m < s.len() ==> k.has(#[trigger] s[m])
                &&& i < j ==> !k.has(s[i]) && !k.has(s[j - 1])
            },
{
    let i = front_end(s, k);
    let t = s.skip(i);
    let n = back_start(t, k);
    assert(trim_both(s, k) =~= s.subrange(i, i + n));
    assert forall|m: int| i + n <= m < s.len() implies k.has(#[trigger] s[m]) by {
        assert(s[m] == t[m - i]);
    }
    if n > 0 {
        assert(t[0] == s[i]);
        assert(t[n - 1] == s[i + n - 1]);
    }
}

proof fn front_end(s: Seq<char>, k: Chars) -> (i: int)
    ensures
        0 <= i <= s.len(),
        trim_front(s, k) == s.skip(i),
        forall|m: int| 0 <= m < i ==> k.has(#[trigger] s[m]),
        i < s.len() ==> !k.has(s[i]),
    decreases s.len(),
{
    if s.len() > 0 && k.has(s[0]) {
        let rest = s.drop_first();
        let i = front_end(rest, k);
        assert(rest.skip(i) =~= s.skip(i + 1));
        assert forall|m: int| 0 <= m < i + 1 implies k.has(#[trigger] s[m]) by {
            if m > 0 {
                assert(s[m] == rest[m - 1]);
            }
        }
        i + 1
    } else {
        assert(s.skip(0) =~= s);
        0
    }
}

proof fn back_start(s: Seq<char>, k: Chars) -> (n: int)
    ensures
        0 <= n <= s.len(),
        trim_back(s, k) == s.take(n),
        forall|m: int| n <= m < s.len() ==> k.has(#[trigger] s[m]),
        n > 0 ==> !k.has(s[n - 1]),
    decreases s.len(),
{
    if s.len() > 0 && k.has(s.last()) {
        let n = back_start(s.drop_last(), k);
        assert(s.drop_last().take(n) =~= s.take(n));
        assert forall|m: int| n <= m < s.len() implies k.has(#[trigger] s[m]) by {
            if m < s.len() - 1 {
                assert(s.drop_last()[m] == s[m]);
            }
        }
        n
    } else {
        assert(s.take(s.len() as int) =~= s);
        s.len() as int
    }
}

/// A text is found where it first occurs, and nowhere else.
pub proof fn first_occurrence_is_found(s: Seq<char>, p: Seq<char>)
    ensures
        match find_sub(s, p) {
            Some(i) => {
                &&& 0 <= i
                &&& i + p.len() <= s.len()
                &&& s.subrange(i, i + p.len()) == p
                &&& forall|j: int| 0 <= j < i ==> #[trigger] s.subrange(j, j + p.len()) != p
            },
            None => forall|j: int| 0 <= j && j + p.len() <= s.len() ==> #[trigger] s.subrange(j, j + p.len()) != p,
        },
    decreases s.len(),
{
    if p.is_prefix_of(s) {
    } else if s.len() > 0 {
        let rest = s.drop_first();
        first_occurrence_is_found(rest, p);
        assert forall|j: int| 0 < j && j + p.len() <= s.len() implies #[trigger] s.subrange(j, j + p.len())
            == rest.subrange(j - 1, j - 1 + p.len()) by {
            assert(s.subrange(j, j + p.len()) =~= rest.subrange(j - 1, j - 1 + p.len()));
        }
        assert(s.len() >= p.len() ==> s.subrange(0, p.len() as int) != p);
        if let Some(i) = find_sub(rest, p) {
            assert(s.subrange(i + 1, i + 1 + p.len()) == p);
        }
    }
}

/// A text in which nothing is to be replaced stays as it is.
pub proof fn other_text_is_kept(s: Seq<char>, from: Seq<char>, to: Seq<char>)
    requires
        from.len() > 0,
        forall|i: int| 0 <= i && i + from.len() <= s.len() ==> #[trigger] s.subrange(i, i + from.len()) != from,
    ensures
        replaced(s, from, to) == s,
    decreases s.len(),
{
    if s.len() > 0 {
        assert(!from.is_prefix_of(s)) by {
            if from.is_prefix_of(s) {
                assert(s.subrange(0, 0int + from.len()) == from);
            }
        }
        let rest = s.drop_first();
        assert forall|i: int| 0 <= i && i + from.len() <= rest.len() implies #[trigger] rest.subrange(i, i + from.len())
            != from by {
            assert(rest.subrange(i, i + from.len()) =~= s.subrange(i + 1, i + 1 + from.len()));
        }
        other_text_is_kept(rest, from, to);
        assert(seq![s[0]] + rest =~= s);
    }
}

/// The first occurrence is replaced, what stands before it is kept, and it goes on after it.
pub proof fn occurrences_are_replaced(a: Seq<char>, b: Seq<char>, from: Seq<char>, to: Seq<char>)
    requires
        from.len() > 0,
        forall|i: int|
            0 <= i < a.len() ==> #[trigger] (a + from + b).subrange(i, i + from.len()) != from,
    ensures
        replaced(a + from + b, from, to) == a + to + replaced(b, from, to),
    decreases a.len(),
{
    let s = a + from + b;
    if a.len() == 0 {
        assert(s.subrange(0, from.len() as int) =~= from);
        assert(s.skip(from.len() as int) =~= b);
        assert(a + to + replaced(b, from, to) =~= to + replaced(b, from, to));
    } else {
        assert(s.subrange(0, 0int + from.len()) != from);
        let rest = a.drop_first() + from + b;
        assert(s.drop_first() =~= rest);
        assert forall|i: int| 0 <= i < a.drop_first().len() implies #[trigger] rest.subrange(i, i + from.len()) != from by {
            assert(rest.subrange(i, i + from.len()) =~= s.subrange(i + 1, i + 1 + from.len()));
        }
        occurrences_are_replaced(a.drop_first(), b, from, to);
        assert(s[0] == a[0]);
        assert(a + to + replaced(b, from, to) =~= seq![a[0]] + (a.drop_first() + to + replaced(b, from, to)));
    }
}

proof fn found_at(a: Seq<char>, c: char, b: Seq<char>)
    requires
        forall|i: int| 0 <= i < a.len() ==> a[i] != c,
    ensures
        find_sub(a + seq![c] + b, seq![c]) == Some(a.len() as int),
        find_sub(a, seq![c]) is None,
    decreases a.len(),
{
    let s = a + seq![c] + b;
    let p = seq![c];
    if a.len() == 0 {
        assert(s.subrange(0, 1) =~= p);
    } else {
        assert(p[0] == c && s[0] == a[0]);
        assert(s.subrange(0, 1)[0] == s[0]);
        assert(a.subrange(0, 1)[0] == a[0]);
        assert(s.drop_first() =~= a.drop_first() + seq![c] + b);
        assert forall|i: int| 0 <= i < a.drop_first().len() implies a.drop_first()[i] != c by {
            assert(a.drop_first()[i] == a[i + 1]);
        }
        found_at(a.drop_first(), c, b);
    }
}

/// A text is split at each occurrence of a character, and nowhere else.
pub proof fn texts_are_split(a: Seq<char>, c: char, b: Seq<char>)
    requires
        forall|i: int| 0 <= i < a.len() ==> a[i] != c,
    ensures
        split_on(a, c) == seq![a],
        split_on(a + seq![c] + b, c) == seq![a] + split_on(b, c),
{
    found_at(a, c, b);
    let s = a + seq![c] + b;
    assert(s.take(a.len() as int) =~= a);
    assert(s.skip(a.len() as int + 1) =~= b);
}

/// A text ends a line at each line feed, which with a carriage return before it does not
/// belong to the line. What follows the last one is a line where it is not empty.
#[verifier::rlimit(50)]
#[verifier::spinoff_prover]
pub proof fn texts_have_lines(l: Seq<char>, rest: Seq<char>)
    requires
        forall|i: int| 0 <= i < l.len() ==> l[i] != '\n',
    ensures
        lines_inclusive(l + seq!['\n'] + rest) == seq![l + seq!['\n']] + lines_inclusive(rest),
        l.len() > 0 ==> lines_inclusive(l) == seq![l],
        lines_of(l + seq!['\n'] + rest) == seq![
            if l.len() > 0 && l.last() == '\r' {
                l.drop_last()
            } else {
                l
            },
        ] + lines_of(rest),
        lines_of(l) == (if l.len() == 0 {
            Seq::<Seq<char>>::empty()
        } else {
            seq![l]
        }),
{
    found_at(l, '\n', rest);
    let s = l + seq!['\n'] + rest;
    let n = l.len() as int;
    assert(s.take(n + 1) =~= l + seq!['\n']);
    assert(s.skip(n + 1) =~= rest);
    assert(lines_inclusive(s) =~= seq![l + seq!['\n']] + lines_inclusive(rest));
    assert((l + seq!['\n']).drop_last() =~= l);
    assert(lines_of(s) =~= seq![without_ending(l + seq!['\n'])] + lines_of(rest));
    if l.len() > 0 {
        assert(lines_of(l) =~= seq![l]);
    } else {
        assert(lines_of(l) =~= Seq::<Seq<char>>::empty());
    }
}

/// Joined texts stand one after the other, with the separator between any two.
pub proof fn texts_are_joined(first: Seq<char>, rest: Seq<Seq<char>>, sep: Seq<char>)
    ensures
        joined(Seq::<Seq<char>>::empty(), sep) == Seq::<char>::empty(),
        joined(seq![first], sep) == first,
        rest.len() > 0 ==> joined(seq![first] + rest, sep) == first + sep + joined(rest, sep),
    decreases rest.len(),
{
    if rest.len() > 0 {
        let all = seq![first] + rest;
        assert(all.last() == rest.last());
        assert(all.drop_last() =~= seq![first] + rest.drop_last());
        texts_are_joined(first, rest.drop_last(), sep);
        if rest.len() == 1 {
            assert(all.drop_last() =~= seq![first]);
        } else {
            assert(joined(all, sep) =~= first + sep + joined(rest, sep));
        }
    }
}

/// Two texts are the same but for case where each character is the same in both, or is
/// one letter of ASCII in its two cases.
pub proof fn case_is_that_of_ascii_letters(a: Seq<char>, b: Seq<char>)
    ensures
        same_but_ascii_case(a, b) <==> a.len() == b.len() && forall|i: int|
            0 <= i < a.len() ==> {
                let c = #[trigger] a[i];
                let d = b[i];
                ||| c == d
                ||| 'a' <= c <= 'z' && d as u32 + 32 == c as u32
                ||| 'a' <= d <= 'z' && c as u32 + 32 == d as u32
            },
{
    assert forall|c: char, d: char| (#[trigger] ascii_lower(c) == #[trigger] ascii_lower(d)) == (c == d || ('a' <= c <= 'z' && d as u32
        + 32 == c as u32) || ('a' <= d <= 'z' && c as u32 + 32 == d as u32)) by {}
    if a.len() == b.len() {
        assert(forall|i: int| 0 <= i < a.len() ==> (ascii_lower(#[trigger] a[i]) == ascii_lower(b[i])) == (a[i] == b[i] || ('a'
            <= a[i] <= 'z' && b[i] as u32 + 32 == a[i] as u32) || ('a' <= b[i] <= 'z' && a[i] as u32 + 32 == b[i] as u32)));
    }
}

/// The number that decimal digits stand for.
pub open spec fn number_of_digits(s: Seq<char>) -> int
    decreases s.len(),
{
    if s.len() == 0 {
        0
    } else {
        number_of_digits(s.drop_last()) * 10 + (s.last() as u32 - '0' as u32)
    }
}

/// A number in decimal is made of the ten digits, stands for the number, and starts with no
/// zero but the one of zero itself.
pub proof fn decimals_stand_for_their_number(n: nat)
    ensures
        number_of_digits(decimal(n)) == n,
        decimal(n).len() > 0,
        forall|i: int| 0 <= i < decimal(n).len() ==> '0' <= #[trigger] decimal(n)[i] <= '9',
        n > 0 ==> decimal(n)[0] != '0',
    decreases n,
{
    reveal_with_fuel(number_of_digits, 2);
    let d = (n % 10) as int;
    assert(digit(d) as u32 == 48 + d);
    assert('0' as u32 == 48);
    if n < 10 {
        assert(decimal(n).drop_last() =~= Seq::<char>::empty());
    } else {
        decimals_stand_for_their_number(n / 10);
        assert(decimal(n).drop_last() =~= decimal(n / 10));
    }
}

/// The first character in which two texts differ decides which comes first; a text comes
/// before those that it starts.
pub proof fn first_difference_decides(p: Seq<char>, c: char, x: Seq<char>, d: char, y: Seq<char>)
    ensures
        text_le(p, p + y),
        c < d ==> text_le(p + seq![c] + x, p + seq![d] + y) && !text_le(p + seq![d] + y, p + seq![c] + x),
        y.len() > 0 ==> !text_le(p + y, p),
    decreases p.len(),
{
    let a = p + seq![c] + x;
    let b = p + seq![d] + y;
    if p.len() == 0 {
        assert(a[0] == c && b[0] == d);
    } else {
        first_difference_decides(p.drop_first(), c, x, d, y);
        assert(a.drop_first() =~= p.drop_first() + seq![c] + x);
        assert(b.drop_first() =~= p.drop_first() + seq![d] + y);
        assert((p + y).drop_first() =~= p.drop_first() + y);
    }
}

} // verus!
