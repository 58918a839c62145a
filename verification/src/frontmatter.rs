//! The YAML frontmatter of a note: reading it, changing a key, writing it back.

use serde_json::Value;
use vstd::prelude::*;

use crate::error::AppError;
use crate::error::ErrorView;
use crate::json;
use crate::json::{Json, Tree};
use crate::text;
use crate::text::{CharSet, Chars};

verus! {

// ── Order of members ──────────────────────────────────────────────────────────

/// The members `s`, which are in order, with `m` at its place.
pub open spec fn placed(m: (Seq<char>, Tree), s: Seq<(Seq<char>, Tree)>) -> Seq<(Seq<char>, Tree)>
    decreases s.len(),
{
    if s.len() == 0 || text::text_le(m.0, s[0].0) {
        seq![m] + s
    } else {
        seq![s[0]] + placed(m, s.drop_first())
    }
}

/// The members `s` in the order of their names.
pub open spec fn in_order(s: Seq<(Seq<char>, Tree)>) -> Seq<(Seq<char>, Tree)>
    decreases s.len(),
{
    if s.len() == 0 {
        s
    } else {
        placed(s[0], in_order(s.drop_first()))
    }
}

/// A value with the members of every object in the order of their names.
pub open spec fn sorted(t: Tree) -> Tree
    decreases t,
{
    match t {
        Tree::Array(a) => Tree::Array(
            Seq::new(a.len(), |i: int| if 0 <= i < a.len() { sorted(a[i]) } else { Tree::Null }),
        ),
        Tree::Object(m) => Tree::Object(
            in_order(
                Seq::new(
                    m.len(),
                    |i: int| if 0 <= i < m.len() { (m[i].0, sorted(m[i].1)) } else { (Seq::empty(), Tree::Null) },
                ),
            ),
        ),
        _ => t,
    }
}

// ── What the crates contribute ────────────────────────────────────────────────

/// The data of the YAML block at the start of a text, the members of its objects
/// in the order of their names; `None` where there is no such block.
pub uninterp spec fn matter_data(content: Seq<char>) -> Option<Tree>;

/// The text that follows the YAML block at the start of a text.
pub uninterp spec fn matter_body(content: Seq<char>) -> Seq<char>;

/// The YAML text of a value, or the message of the error.
pub uninterp spec fn yaml_text(t: Tree) -> Result<Seq<char>, Seq<char>>;

/// Calls `gray_matter::Matter::<YAML>::parse` and, on the data that it finds,
/// `Pod::deserialize`. The crate keeps the members of a mapping in a hash map, so
/// the order in which they come is left open: put in order, they are a function of
/// the text. So is the body.
#[verifier::external_body]
fn parse_matter(content: &str) -> (r: (Option<Value>, String))
    ensures
        match r.0 {
            Some(v) => matter_data(content@) == Some(sorted(json::value_tree(v))),
            None => matter_data(content@) is None,
        },
        r.1@ == matter_body(content@),
{
    let matter: gray_matter::Matter<gray_matter::engine::YAML> = gray_matter::Matter::new();
    let parsed = matter.parse(content);
    (parsed.data.and_then(|d| d.deserialize::<Value>().ok()), parsed.content)
}

/// Calls `Value::sort_all_objects`: the members of every object, at any depth, are
/// put in the order of their names.
#[verifier::external_body]
fn sort_objects(v: &mut Value)
    ensures
        json::value_tree(*final(v)) == sorted(json::value_tree(*old(v))),
{
    v.sort_all_objects()
}

/// Calls `serde_yaml::to_string`. The text, or the message of the error, is a
/// function of what the value holds.
#[verifier::external_body]
fn print_yaml(v: &Value) -> (r: Result<String, String>)
    ensures
        match r {
            Ok(s) => yaml_text(json::value_tree(*v)) == Ok::<Seq<char>, Seq<char>>(s@),
            Err(e) => yaml_text(json::value_tree(*v)) == Err::<Seq<char>, Seq<char>>(e@),
        },
{
    serde_yaml::to_string(v).map_err(|e| e.to_string())
}

// ── Reading ───────────────────────────────────────────────────────────────────

/// Whether a line is a rule of three dashes, white space after it aside.
pub open spec fn is_rule(line: Seq<char>) -> bool {
    text::trim_back(line, Chars::White) == "---"@
}

/// Whether a note starts with a block of frontmatter: its first line is a rule, and a
/// later one is too.
pub open spec fn has_block(content: Seq<char>) -> bool {
    let ls = text::lines_of(content);
    ls.len() > 0 && is_rule(ls[0]) && exists|i: int| 1 <= i < ls.len() && is_rule(#[trigger] ls[i])
}

/// The frontmatter of a note; an empty object where it has none.
pub open spec fn frontmatter_of(content: Seq<char>) -> Tree {
    if has_block(content) {
        match matter_data(content) {
            Some(t) => t,
            None => Tree::Object(seq![]),
        }
    } else {
        Tree::Object(seq![])
    }
}

/// The text of a note after its frontmatter; all of it where it has none.
pub open spec fn body_of(content: Seq<char>) -> Seq<char> {
    if has_block(content) {
        matter_body(content)
    } else {
        content
    }
}

/// Whether a line is a rule of three dashes.
fn check_rule(line: &str) -> (r: bool)
    ensures
        r == is_rule(line@),
{
    text::same(&text::trim_end_matches(line, &CharSet::White), "---")
}

/// Whether a note starts with a block of frontmatter.
pub fn find_block(content: &str) -> (r: bool)
    ensures
        r == has_block(content@),
{
    let ls = text::lines(content);
    let ghost all = text::lines_of(content@);
    if ls.len() == 0 {
        return false;
    }
    assert(all[0] == ls@[0]@);
    if !check_rule(&ls[0]) {
        return false;
    }
    let mut i: usize = 1;
    while i < ls.len()
        invariant
            1 <= i <= ls@.len(),
            text::texts(ls@) == all,
            all == text::lines_of(content@),
            is_rule(all[0]),
            forall|j: int| 1 <= j < i ==> !is_rule(#[trigger] all[j]),
        decreases ls@.len() - i,
    {
        assert(all[i as int] == ls@[i as int]@);
        if check_rule(&ls[i]) {
            return true;
        }
        i += 1;
    }
    false
}

/// The frontmatter of a note and the text after it; an empty object and the whole note
/// where it has none.
pub fn parse_frontmatter(content: &str) -> (r: (Json, String))
    ensures
        r.0.tree() == frontmatter_of(content@),
        r.1@ == body_of(content@),
        !has_block(content@) ==> r.0.tree() == Tree::Object(seq![]) && r.1@ == content@,
{
    if !find_block(content) {
        let m: Vec<(String, Json)> = Vec::new();
        assert(json::members(m@) =~= Seq::<(Seq<char>, Tree)>::empty());
        return (Json::object(m), content.to_owned());
    }
    let (data, body) = parse_matter(content);
    let fm = match data {
        Some(v) => {
            let mut v = v;
            sort_objects(&mut v);
            json::from_value(v)
        },
        None => {
            let m: Vec<(String, Json)> = Vec::new();
            assert(json::members(m@) =~= Seq::<(Seq<char>, Tree)>::empty());
            Json::object(m)
        },
    };
    (fm, body)
}

// ── Writing ───────────────────────────────────────────────────────────────────

/// A note of a frontmatter in YAML and a body: the document marker that YAML text
/// may start with is left out.
pub open spec fn assembled(yaml: Seq<char>, body: Seq<char>) -> Seq<char> {
    let rest = if "---\n"@.is_prefix_of(yaml) {
        yaml.skip("---\n"@.len() as int)
    } else {
        yaml
    };
    "---\n"@ + rest + "---\n"@ + body
}

/// A note of a frontmatter in YAML and a body.
pub fn assemble(yaml: &str, body: &str) -> (r: String)
    ensures
        r@ == assembled(yaml@, body@),
{
    let rest = match text::strip_prefix(yaml, "---\n") {
        Some(s) => s,
        None => yaml.to_owned(),
    };
    let mut out = text::cat3("---\n", &rest, "---\n");
    out.append(body);
    out
}

/// A note of a frontmatter and a body.
pub open spec fn reconstructed(fm: Tree, body: Seq<char>) -> Result<Seq<char>, ErrorView> {
    match yaml_text(fm.settled()) {
        Ok(yaml) => Ok(assembled(yaml, body)),
        Err(e) => Err(ErrorView::Other("YAML serialization failed: "@ + e)),
    }
}

/// The frontmatter as YAML text.
pub fn serialize_frontmatter(value: &Json) -> (r: Result<String, AppError>)
    ensures
        match r {
            Ok(s) => yaml_text(value.tree().settled()) == Ok::<Seq<char>, Seq<char>>(s@),
            Err(e) => yaml_text(value.tree().settled()) matches Err(m) && e@ == ErrorView::Other(
                "YAML serialization failed: "@ + m,
            ),
        },
{
    match print_yaml(&json::to_value(value)) {
        Ok(s) => Ok(s),
        Err(e) => Err(AppError::Other(text::cat("YAML serialization failed: ", &e))),
    }
}

/// A note of a frontmatter and a body.
pub fn reconstruct_file(fm_value: &Json, body: &str) -> (r: Result<String, AppError>)
    ensures
        match r {
            Ok(s) => reconstructed(fm_value.tree(), body@) == Ok::<Seq<char>, ErrorView>(s@),
            Err(e) => reconstructed(fm_value.tree(), body@) == Err::<Seq<char>, ErrorView>(e@),
        },
{
    match serialize_frontmatter(fm_value) {
        Ok(yaml) => Ok(assemble(&yaml, body)),
        Err(e) => Err(e),
    }
}

// ── Changing a key ────────────────────────────────────────────────────────────

/// The members of an object; none of any other value.
pub open spec fn members_of(fm: Tree) -> Seq<(Seq<char>, Tree)> {
    match fm {
        Tree::Object(m) => m,
        _ => seq![],
    }
}

/// A frontmatter after `key` was set to `value`.
pub open spec fn with_key(fm: Tree, key: Seq<char>, value: Tree) -> Tree {
    Tree::Object(json::with_member(members_of(fm), key, value))
}

/// Sets `key` of a frontmatter to `value`; what is not an object counts as empty.
pub fn set_key(fm: Json, key: &str, value: Json) -> (r: Json)
    ensures
        r.tree() == with_key(fm.tree(), key@, value.tree()),
{
    proof {
        json::tree_of_parts(fm);
    }
    let mut m: Vec<(String, Json)> = match fm {
        Json::Object(m) => m,
        _ => Vec::new(),
    };
    assert(json::members(m@) =~= members_of(fm.tree()));
    json::set_member(&mut m, key, value);
    Json::object(m)
}

/// The new value of a key after a patch; `None` where the operation is unknown.
pub open spec fn patched_value(existing: Tree, operation: Seq<char>, patch: Seq<char>) -> Option<Tree> {
    if operation == "replace"@ {
        Some(Tree::Text(patch))
    } else if operation == "append"@ {
        Some(
            match existing {
                Tree::Array(a) => Tree::Array(a.push(Tree::Text(patch))),
                Tree::Text(s) => Tree::Text(s + "\n"@ + patch),
                _ => Tree::Text(patch),
            },
        )
    } else if operation == "prepend"@ {
        Some(
            match existing {
                Tree::Text(s) => Tree::Text(patch + "\n"@ + s),
                _ => Tree::Text(patch),
            },
        )
    } else {
        None
    }
}

/// A frontmatter after a patch of a key.
pub open spec fn patched_frontmatter(
    fm: Tree,
    target: Seq<char>,
    operation: Seq<char>,
    patch: Seq<char>,
) -> Result<Tree, ErrorView> {
    match patched_value(Tree::Object(members_of(fm)).field(target), operation, patch) {
        Some(v) => Ok(with_key(fm, target, v)),
        None => Err(ErrorView::Other("unknown operation: "@ + operation)),
    }
}

/// Patches the key `target` of a frontmatter; what is not an object counts as
/// empty.
pub fn patch_frontmatter(fm: Json, target: &str, operation: &str, patch: &str) -> (r: Result<Json, AppError>)
    ensures
        match r {
            Ok(j) => patched_frontmatter(fm.tree(), target@, operation@, patch@) == Ok::<Tree, ErrorView>(
                j.tree(),
            ),
            Err(e) => patched_frontmatter(fm.tree(), target@, operation@, patch@) == Err::<Tree, ErrorView>(e@),
        },
{
    proof {
        json::tree_of_parts(fm);
    }
    let existing = fm.field(target);
    proof {
        json::tree_of_parts(existing);
    }
    let value = if text::same(operation, "replace") {
        Json::text(patch)
    } else if text::same(operation, "append") {
        match existing {
            Json::Array(a) => {
                let mut a = a;
                let ghost before = a@;
                let item = Json::text(patch);
                a.push(item);
                assert(json::trees(a@) =~= json::trees(before).push(item.tree()));
                Json::array(a)
            },
            Json::Text(s) => Json::Text(text::cat3(&s, "\n", patch)),
            _ => Json::text(patch),
        }
    } else if text::same(operation, "prepend") {
        match existing {
            Json::Text(s) => Json::Text(text::cat3(patch, "\n", &s)),
            _ => Json::text(patch),
        }
    } else {
        return Err(AppError::Other(text::cat("unknown operation: ", operation)));
    };
    Ok(set_key(fm, target, value))
}

// ── Notes ─────────────────────────────────────────────────────────────────────

/// A note after a key of its frontmatter was set.
pub open spec fn note_with_key(content: Seq<char>, key: Seq<char>, value: Tree) -> Result<
    Seq<char>,
    ErrorView,
> {
    reconstructed(with_key(frontmatter_of(content), key, value), body_of(content))
}

/// Sets a key of the frontmatter of a note.
pub fn write_key(content: &str, key: &str, value: Json) -> (r: Result<String, AppError>)
    ensures
        match r {
            Ok(s) => note_with_key(content@, key@, value.tree()) == Ok::<Seq<char>, ErrorView>(s@),
            Err(e) => note_with_key(content@, key@, value.tree()) == Err::<Seq<char>, ErrorView>(e@),
        },
{
    let (fm, body) = parse_frontmatter(content);
    let fm = set_key(fm, key, value);
    reconstruct_file(&fm, &body)
}

/// A note after a patch of a key of its frontmatter.
pub open spec fn note_with_patch(
    content: Seq<char>,
    target: Seq<char>,
    operation: Seq<char>,
    patch: Seq<char>,
) -> Result<Seq<char>, ErrorView> {
    match patched_frontmatter(frontmatter_of(content), target, operation, patch) {
        Ok(fm) => reconstructed(fm, body_of(content)),
        Err(e) => Err(e),
    }
}

/// Patches a key of the frontmatter of a note.
pub fn patch_key(content: &str, target: &str, operation: &str, patch: &str) -> (r: Result<String, AppError>)
    ensures
        match r {
            Ok(s) => note_with_patch(content@, target@, operation@, patch@) == Ok::<Seq<char>, ErrorView>(s@),
            Err(e) => note_with_patch(content@, target@, operation@, patch@) == Err::<Seq<char>, ErrorView>(e@),
        },
{
    let (fm, body) = parse_frontmatter(content);
    match patch_frontmatter(fm, target, operation, patch) {
        Ok(fm) => reconstruct_file(&fm, &body),
        Err(e) => Err(e),
    }
}

// ── Laws ──────────────────────────────────────────────────────────────────────

/// A key that was set is read back, and every other key of an object is as before.
pub proof fn key_is_read_back(fm: Tree, key: Seq<char>, value: Tree, other: Seq<char>)
    ensures
        with_key(fm, key, value).field(key) == value,
        other != key ==> with_key(fm, key, value).field(other) == Tree::Object(members_of(fm)).field(other),
{
    json::set_member_is_read_back(members_of(fm), key, value, other);
}

/// A patch of one key leaves every other key of an object as it was.
pub proof fn patch_keeps_other_keys(
    fm: Tree,
    target: Seq<char>,
    operation: Seq<char>,
    patch: Seq<char>,
    other: Seq<char>,
)
    requires
        other != target,
    ensures
        patched_frontmatter(fm, target, operation, patch) matches Ok(t) ==> t.field(other) == Tree::Object(
            members_of(fm),
        ).field(other),
{
    if let Some(v) = patched_value(Tree::Object(members_of(fm)).field(target), operation, patch) {
        key_is_read_back(fm, target, v, other);
    }
}

/// A replaced key holds the patch, whatever it held before.
pub proof fn replaced_key_holds_the_patch(fm: Tree, target: Seq<char>, patch: Seq<char>)
    ensures
        patched_frontmatter(fm, target, "replace"@, patch) matches Ok(t) && t.field(target) == Tree::Text(patch),
{
    key_is_read_back(fm, target, Tree::Text(patch), target);
}

/// However the frontmatter of a note is changed, its body stays as it is, at the end of the
/// note. A note that had no frontmatter is all body.
pub proof fn changes_keep_the_body(
    content: Seq<char>,
    key: Seq<char>,
    value: Tree,
    operation: Seq<char>,
    patch: Seq<char>,
)
    ensures
        note_with_key(content, key, value) matches Ok(n) ==> body_of(content).is_suffix_of(n),
        note_with_patch(content, key, operation, patch) matches Ok(n) ==> body_of(content).is_suffix_of(n),
        !has_block(content) ==> body_of(content) == content,
{
    let body = body_of(content);
    if let Ok(n) = note_with_key(content, key, value) {
        assert(n.subrange(n.len() - body.len(), n.len() as int) =~= body);
    }
    if let Ok(n) = note_with_patch(content, key, operation, patch) {
        assert(n.subrange(n.len() - body.len(), n.len() as int) =~= body);
    }
}

/// A patch of a key replaces what it holds, or is put before or after a text with a line feed
/// between them; to a list it is added at the end. What holds neither a text nor a list is
/// replaced.
pub proof fn patches_change_the_key(existing: Tree, s: Seq<char>, items: Seq<Tree>, patch: Seq<char>)
    ensures
        patched_value(existing, "replace"@, patch) == Some(Tree::Text(patch)),
        patched_value(Tree::Text(s), "append"@, patch) == Some(Tree::Text(s + seq!['\n'] + patch)),
        patched_value(Tree::Text(s), "prepend"@, patch) == Some(Tree::Text(patch + seq!['\n'] + s)),
        patched_value(Tree::Array(items), "append"@, patch) == Some(Tree::Array(items.push(Tree::Text(patch)))),
        !(existing is Text) && !(existing is Array) ==> patched_value(existing, "append"@, patch) == Some(Tree::Text(patch)),
        !(existing is Text) ==> patched_value(existing, "prepend"@, patch) == Some(Tree::Text(patch)),
{
    reveal_strlit("replace");
    reveal_strlit("append");
    reveal_strlit("prepend");
    reveal_strlit("\n");
    assert("replace"@[0] == 'r' && "append"@[0] == 'a' && "prepend"@[0] == 'p');
    assert("\n"@ =~= seq!['\n']);
}

/// A patch of a key is a new value for it, made of what it held before; any other operation
/// than the three is refused.
pub proof fn patched_keys_hold_the_new_value(fm: Tree, target: Seq<char>, operation: Seq<char>, patch: Seq<char>)
    ensures
        operation != "replace"@ && operation != "append"@ && operation != "prepend"@ ==> patched_frontmatter(
            fm,
            target,
            operation,
            patch,
        ) == Err::<Tree, ErrorView>(ErrorView::Other("unknown operation: "@ + operation)),
        operation == "replace"@ || operation == "append"@ || operation == "prepend"@ ==> {
            &&& patched_frontmatter(fm, target, operation, patch) matches Ok(t)
            &&& patched_value(fm.field(target), operation, patch) == Some(t.field(target))
        },
{
    if let Some(v) = patched_value(Tree::Object(members_of(fm)).field(target), operation, patch) {
        key_is_read_back(fm, target, v, target);
    }
    if !(fm is Object) {
        assert(Tree::Object(members_of(fm)).field(target) == Tree::Null);
    }
}

/// A note that was written starts with three dashes, the YAML text of its frontmatter, and
/// three dashes again; then comes the body. A document marker in front of the YAML is left
/// out.
pub proof fn notes_hold_frontmatter_and_body(yaml: Seq<char>, body: Seq<char>)
    ensures
        ({
            let d = seq!['-', '-', '-', '\n'];
            &&& !d.is_prefix_of(yaml) ==> assembled(yaml, body) == d + yaml + d + body
            &&& assembled(d + yaml, body) == d + yaml + d + body
        }),
{
    reveal_strlit("---\n");
    let d = seq!['-', '-', '-', '\n'];
    assert("---\n"@ =~= d);
    assert((d + yaml).subrange(0, 4) =~= d);
    assert((d + yaml).skip(4) =~= yaml);
}

/// A note is written with the new frontmatter as YAML and its own body, where the
/// frontmatter can be told in YAML at all.
pub proof fn changed_notes_hold_the_new_frontmatter(content: Seq<char>, key: Seq<char>, value: Tree)
    ensures
        match yaml_text(with_key(frontmatter_of(content), key, value).settled()) {
            Ok(yaml) => note_with_key(content, key, value) == Ok::<Seq<char>, ErrorView>(assembled(yaml, body_of(content))),
            Err(e) => note_with_key(content, key, value) == Err::<Seq<char>, ErrorView>(
                ErrorView::Other("YAML serialization failed: "@ + e),
            ),
        },
{
}

/// A note has frontmatter where its first line is three dashes, white space behind them
/// aside, and so is a later line.
pub proof fn frontmatter_stands_between_rules(w1: Seq<char>, a: Seq<char>, w2: Seq<char>, b: Seq<char>)
    requires
        forall|i: int| 0 <= i < w1.len() ==> text::is_white(#[trigger] w1[i]) && w1[i] != '\n',
        forall|i: int| 0 <= i < w2.len() ==> text::is_white(#[trigger] w2[i]) && w2[i] != '\n',
        a.len() > 0 ==> a.last() == '\n',
    ensures
        has_block(seq!['-', '-', '-'] + w1 + seq!['\n'] + (a + (seq!['-', '-', '-'] + w2 + seq!['\n'] + b))),
{
    let d = seq!['-', '-', '-'];
    let close = d + w2 + seq!['\n'] + b;
    let content = d + w1 + seq!['\n'] + (a + close);
    rule_lines(w1, a + close);
    rule_lines(w2, b);
    let n = lines_before(a, close);
    let ls = text::lines_of(content);
    let rest = text::lines_of(a + close);
    assert(ls[0] == ls.take(1)[0]);
    assert(ls[n + 1] == rest[n]);
    assert(is_rule(ls[n + 1]));
}

proof fn rule_lines(w: Seq<char>, rest: Seq<char>)
    requires
        forall|i: int| 0 <= i < w.len() ==> text::is_white(#[trigger] w[i]) && w[i] != '\n',
    ensures
        ({
            let ls = text::lines_of(seq!['-', '-', '-'] + w + seq!['\n'] + rest);
            &&& ls.len() == text::lines_of(rest).len() + 1
            &&& is_rule(ls[0])
            &&& forall|i: int| 0 <= i < text::lines_of(rest).len() ==> ls[i + 1] == #[trigger] text::lines_of(rest)[i]
        }),
{
    let d = seq!['-', '-', '-'];
    let l = d + w;
    reveal_strlit("---");
    assert("---"@ =~= d);
    assert forall|i: int| 0 <= i < l.len() implies l[i] != '\n' by {
        if i >= 3 {
            assert(l[i] == w[i - 3]);
        }
    }
    text::texts_have_lines(l, rest);
    assert(d.last() == '-');
    text::back_is_trimmed(d, w, Chars::White);
    if l.last() == '\r' {
        if w.len() > 0 {
            assert(l.drop_last() =~= d + w.drop_last());
            text::back_is_trimmed(d, w.drop_last(), Chars::White);
        }
    }
    let ls = text::lines_of(l + seq!['\n'] + rest);
    assert forall|i: int| 0 <= i < text::lines_of(rest).len() implies ls[i + 1] == #[trigger] text::lines_of(rest)[i] by {}
}

/// The lines of a text that ends with a line come before those of what follows it.
proof fn lines_before(a: Seq<char>, rest: Seq<char>) -> (n: int)
    requires
        a.len() > 0 ==> a.last() == '\n',
    ensures
        n >= 0,
        text::lines_of(a + rest).len() == n + text::lines_of(rest).len(),
        forall|i: int| 0 <= i < text::lines_of(rest).len() ==> text::lines_of(a + rest)[n + i] == #[trigger] text::lines_of(rest)[i],
    decreases a.len(),
{
    if a.len() == 0 {
        assert(a + rest =~= rest);
        0
    } else {
        let i = first_feed(a);
        let l = a.take(i);
        let more = a.skip(i + 1);
        assert forall|j: int| 0 <= j < l.len() implies l[j] != '\n' by {
            assert(l[j] == a[j]);
        }
        assert(a + rest =~= l + seq!['\n'] + (more + rest));
        text::texts_have_lines(l, more + rest);
        if more.len() > 0 {
            assert(more.last() == a.last());
        }
        let n = lines_before(more, rest);
        let all = text::lines_of(a + rest);
        assert forall|k: int| 0 <= k < text::lines_of(rest).len() implies all[n + 1 + k] == #[trigger] text::lines_of(rest)[k] by {
            assert(all[n + 1 + k] == text::lines_of(more + rest)[n + k]);
        }
        n + 1
    }
}

proof fn first_feed(a: Seq<char>) -> (i: int)
    requires
        a.len() > 0,
        a.last() == '\n',
    ensures
        0 <= i < a.len(),
        a[i] == '\n',
        forall|j: int| 0 <= j < i ==> a[j] != '\n',
    decreases a.len(),
{
    if a[0] == '\n' {
        0
    } else {
        let i = first_feed(a.drop_first());
        assert forall|j: int| 0 <= j < i + 1 implies a[j] != '\n' by {
            if j > 0 {
                assert(a[j] == a.drop_first()[j - 1]);
            }
        }
        i + 1
    }
}

/// A note whose first line is no rule, or that has no rule after it, has no frontmatter: it
/// is all body.
pub proof fn other_notes_have_no_frontmatter(content: Seq<char>)
    requires
        text::lines_of(content).len() == 0 || text::trim_back(text::lines_of(content)[0], Chars::White) != "---"@ || forall|
            i: int,
        |
            1 <= i < text::lines_of(content).len() ==> text::trim_back(
                #[trigger] text::lines_of(content)[i],
                Chars::White,
            ) != "---"@,
    ensures
        frontmatter_of(content) == Tree::Object(seq![]),
        body_of(content) == content,
{
}

} // verus!
