//! Markdown notes: heading sections, headings, tags, frontmatter.

use vstd::prelude::*;
use vstd::slice::slice_subrange;
use vstd::utf8::*;

use crate::error::AppError;
use crate::error::ErrorView;
use crate::json;
use crate::json::{Json, Tree};
use crate::text;
use crate::text::Chars;

verus! {

// ── Heading sections ──────────────────────────────────────────────────────────

/// The characters that end a line.
pub open spec fn line_ends() -> Chars {
    Chars::In(seq!['\n', '\r'])
}

/// A line without the line-end characters at its end.
pub open spec fn bare(line: Seq<char>) -> Seq<char> {
    text::trim_back(line, line_ends())
}

/// A line without its leading number signs.
pub open spec fn after_hashes(line: Seq<char>) -> Seq<char> {
    text::trim_front(line, Chars::In(seq!['#']))
}

/// The level of a heading line, which starts with one or more number signs and a
/// space; 0 for any other line.
pub open spec fn heading_level(line: Seq<char>) -> nat {
    let rest = after_hashes(bare(line));
    let hashes = bare(line).len() - rest.len();
    if hashes > 0 && rest.len() > 0 && rest[0] == ' ' {
        hashes as nat
    } else {
        0
    }
}

/// The text of a heading line.
pub open spec fn heading_text(line: Seq<char>) -> Seq<char> {
    text::trimmed(after_hashes(bare(line)))
}

/// Whether a line is a heading with the text `heading`, ASCII case aside.
pub open spec fn is_named_heading(line: Seq<char>, heading: Seq<char>) -> bool {
    heading_level(line) > 0 && text::same_but_ascii_case(heading_text(line), heading)
}

/// The first line, from line `from` on, that is the heading `heading`.
pub open spec fn heading_index(ls: Seq<Seq<char>>, heading: Seq<char>, from: int) -> int
    decreases ls.len() - from,
{
    if from < 0 || from >= ls.len() || is_named_heading(ls[from], heading) {
        from
    } else {
        heading_index(ls, heading, from + 1)
    }
}

/// The first line, from line `from` on, that is a heading of `level` or higher up.
pub open spec fn section_end_index(ls: Seq<Seq<char>>, level: nat, from: int) -> int
    decreases ls.len() - from,
{
    if from < 0 || from >= ls.len() || 0 < heading_level(ls[from]) <= level {
        from
    } else {
        section_end_index(ls, level, from + 1)
    }
}

/// How many bytes the first `n` lines take.
pub open spec fn lines_bytes(ls: Seq<Seq<char>>, n: int) -> nat {
    text::utf8_len(ls.take(n).flatten())
}

/// The section under the heading `heading`, as byte offsets: where the heading's
/// line ends, where the section starts and where it ends. It reaches to the next
/// heading that is not below it, or to the end.
pub open spec fn heading_section(content: Seq<char>, heading: Seq<char>) -> Option<(nat, nat, nat)> {
    let ls = text::lines_inclusive(content);
    match section_lines(ls, heading) {
        Some((h, end)) => Some((lines_bytes(ls, h + 1), lines_bytes(ls, h + 1), lines_bytes(ls, end))),
        None => None,
    }
}

proof fn encode_concat(a: Seq<char>, b: Seq<char>)
    ensures
        encode_utf8(a + b) == encode_utf8(a) + encode_utf8(b),
    decreases a.len(),
{
    reveal_with_fuel(encode_utf8, 2);
    if a.len() == 0 {
        assert(a + b =~= b);
        assert(encode_utf8(a) + encode_utf8(b) =~= encode_utf8(b));
    } else {
        encode_concat(a.drop_first(), b);
        assert((a + b).drop_first() =~= a.drop_first() + b);
        assert((a + b)[0] == a[0]);
        assert(encode_utf8(a + b) =~= encode_utf8(a) + encode_utf8(b));
    }
}

proof fn flatten_push(ls: Seq<Seq<char>>, n: int)
    requires
        0 <= n < ls.len(),
    ensures
        ls.take(n + 1).flatten() == ls.take(n).flatten() + ls[n],
{
    assert(ls.take(n + 1) =~= ls.take(n).push(ls[n]));
    ls.take(n).lemma_flatten_push(ls[n]);
}

proof fn lines_bytes_step(ls: Seq<Seq<char>>, n: int)
    requires
        0 <= n < ls.len(),
    ensures
        lines_bytes(ls, n + 1) == lines_bytes(ls, n) + text::utf8_len(ls[n]),
{
    flatten_push(ls, n);
    encode_concat(ls.take(n).flatten(), ls[n]);
}

proof fn lines_bytes_monotone(ls: Seq<Seq<char>>, n: int, m: int)
    requires
        0 <= n <= m <= ls.len(),
    ensures
        lines_bytes(ls, n) <= lines_bytes(ls, m),
    decreases m - n,
{
    if n < m {
        lines_bytes_step(ls, m - 1);
        lines_bytes_monotone(ls, n, m - 1);
    }
}

/// The level of a heading line; 0 for any other line.
pub fn level_of(line: &str) -> (r: usize)
    ensures
        r == heading_level(line@),
{
    let stripped = text::trim_end_matches(line, &text::either('\n', '\r'));
    let v = text::chars_of(&stripped);
    let hashes = text::front_count(&v, &text::only('#'));
    assert(v@.skip(hashes as int).len() == v@.len() - hashes);
    if hashes > 0 && hashes < v.len() && v[hashes] == ' ' {
        hashes
    } else {
        0
    }
}

/// The text of a heading line.
pub fn text_of(line: &str) -> (r: String)
    ensures
        r@ == heading_text(line@),
{
    let stripped = text::trim_end_matches(line, &text::either('\n', '\r'));
    text::trim(&text::trim_start_matches(&stripped, &text::only('#')))
}

/// The lines of the section under the heading `heading`: the line of the heading
/// and the line at which the section ends.
pub open spec fn section_lines(ls: Seq<Seq<char>>, heading: Seq<char>) -> Option<(int, int)> {
    let h = heading_index(ls, heading, 0);
    if h >= ls.len() {
        None
    } else {
        Some((h, section_end_index(ls, heading_level(ls[h]), h + 1)))
    }
}

/// The lines of the section under the heading `heading`.
fn find_section_lines(ls: &Vec<String>, heading: &str) -> (r: Option<(usize, usize)>)
    ensures
        match r {
            Some((h, e)) => h < e <= ls@.len() && section_lines(text::texts(ls@), heading@) == Some(
                (h as int, e as int),
            ),
            None => section_lines(text::texts(ls@), heading@) is None,
        },
{
    let ghost spec_ls = text::texts(ls@);
    let mut i: usize = 0;
    while i < ls.len()
        invariant
            i <= ls@.len(),
            spec_ls == text::texts(ls@),
            heading_index(spec_ls, heading@, 0) == heading_index(spec_ls, heading@, i as int),
        decreases ls@.len() - i,
    {
        assert(spec_ls[i as int] == ls@[i as int]@);
        let level = level_of(&ls[i]);
        if level > 0 && text::eq_ignore_ascii_case(&text_of(&ls[i]), heading) {
            let mut k: usize = i + 1;
            while k < ls.len()
                invariant
                    i < k <= ls@.len(),
                    spec_ls == text::texts(ls@),
                    section_end_index(spec_ls, level as nat, i + 1) == section_end_index(
                        spec_ls,
                        level as nat,
                        k as int,
                    ),
                ensures
                    i < k <= ls@.len(),
                    k == section_end_index(spec_ls, level as nat, i + 1),
                decreases ls@.len() - k,
            {
                assert(spec_ls[k as int] == ls@[k as int]@);
                let l = level_of(&ls[k]);
                if l > 0 && l <= level {
                    break;
                }
                k += 1;
            }
            return Some((i, k));
        }
        i += 1;
    }
    None
}

/// How many bytes the first `n` lines take.
fn count_bytes(ls: &Vec<String>, n: usize) -> (r: usize)
    requires
        n <= ls@.len(),
        lines_bytes(text::texts(ls@), ls@.len() as int) <= usize::MAX,
    ensures
        r == lines_bytes(text::texts(ls@), n as int),
{
    let ghost spec_ls = text::texts(ls@);
    proof {
        assert(spec_ls.take(0).flatten() =~= Seq::<char>::empty());
        reveal_with_fuel(encode_utf8, 1);
    }
    let mut pos: usize = 0;
    let mut i: usize = 0;
    while i < n
        invariant
            i <= n <= ls@.len(),
            spec_ls == text::texts(ls@),
            lines_bytes(spec_ls, ls@.len() as int) <= usize::MAX,
            pos == lines_bytes(spec_ls, i as int),
        decreases n - i,
    {
        assert(spec_ls[i as int] == ls@[i as int]@);
        proof {
            lines_bytes_step(spec_ls, i as int);
            lines_bytes_monotone(spec_ls, i + 1, spec_ls.len() as int);
        }
        pos = pos + text::byte_len(&ls[i]);
        i += 1;
    }
    pos
}

/// The section under the heading `heading`, as byte offsets: the end of the
/// heading's line, the start of the section (the same) and its end.
pub fn find_heading_section(content: &str, heading: &str) -> (r: Option<(usize, usize, usize)>)
    ensures
        match r {
            Some((a, b, c)) => heading_section(content@, heading@) == Some((a as nat, b as nat, c as nat)),
            None => heading_section(content@, heading@) is None,
        },
{
    let total = text::byte_len(content);
    let ls = text::split_lines_inclusive(content);
    proof {
        let spec_ls = text::lines_inclusive(content@);
        text::lines_make_the_text(content@);
        assert(spec_ls.take(spec_ls.len() as int) =~= spec_ls);
    }
    match find_section_lines(&ls, heading) {
        Some((h, e)) => {
            let start = count_bytes(&ls, h + 1);
            let end = count_bytes(&ls, e);
            Some((start, start, end))
        },
        None => None,
    }
}

/// Lines `from` to `to`, one after the other.
fn glue(ls: &Vec<String>, from: usize, to: usize) -> (r: String)
    requires
        from <= to <= ls@.len(),
    ensures
        r@ == text::texts(ls@).subrange(from as int, to as int).flatten(),
{
    let ghost spec_ls = text::texts(ls@);
    let mut out = String::new();
    let mut i: usize = from;
    assert(spec_ls.subrange(from as int, from as int).flatten() =~= Seq::<char>::empty());
    while i < to
        invariant
            from <= i <= to <= ls@.len(),
            spec_ls == text::texts(ls@),
            out@ == spec_ls.subrange(from as int, i as int).flatten(),
        decreases to - i,
    {
        out.append(&ls[i]);
        proof {
            let part = spec_ls.subrange(from as int, i as int);
            assert(spec_ls.subrange(from as int, i + 1) =~= part.push(spec_ls[i as int]));
            part.lemma_flatten_push(spec_ls[i as int]);
            assert(spec_ls[i as int] == ls@[i as int]@);
        }
        i += 1;
    }
    out
}

// ── Patching ──────────────────────────────────────────────────────────────────

/// What stands before the section under a heading, the section, and what stands
/// after it.
pub open spec fn around_section(content: Seq<char>, heading: Seq<char>) -> Option<
    (Seq<char>, Seq<char>, Seq<char>),
> {
    let ls = text::lines_inclusive(content);
    match section_lines(ls, heading) {
        Some((h, e)) => Some(
            (
                ls.subrange(0, h + 1).flatten(),
                ls.subrange(h + 1, e).flatten(),
                ls.subrange(e, ls.len() as int).flatten(),
            ),
        ),
        None => None,
    }
}

/// A section after a patch; `None` where the operation is unknown.
pub open spec fn patched_section(
    section: Seq<char>,
    operation: Seq<char>,
    patch: Seq<char>,
) -> Option<Seq<char>> {
    if operation == "replace"@ {
        Some(patch)
    } else if operation == "append"@ {
        Some(text::trim_back(section, Chars::In(seq!['\n'])) + "\n"@ + patch)
    } else if operation == "prepend"@ {
        Some(patch + "\n"@ + section)
    } else {
        None
    }
}

/// A note after a patch of the section under a heading.
pub open spec fn patched_heading(
    content: Seq<char>,
    target: Seq<char>,
    operation: Seq<char>,
    patch: Seq<char>,
) -> Result<Seq<char>, ErrorView> {
    match around_section(content, target) {
        None => Err(ErrorView::Other("heading not found: "@ + target)),
        Some((before, section, after)) => match patched_section(section, operation, patch) {
            None => Err(ErrorView::Other("unknown operation: "@ + operation)),
            Some(s) => Ok(before + s + after),
        },
    }
}

/// Patches the section under the heading `target`.
pub fn patch_heading(content: &str, target: &str, operation: &str, patch: &str) -> (r: Result<
    String,
    AppError,
>)
    ensures
        match r {
            Ok(s) => patched_heading(content@, target@, operation@, patch@) == Ok::<Seq<char>, ErrorView>(s@),
            Err(e) => patched_heading(content@, target@, operation@, patch@) == Err::<Seq<char>, ErrorView>(e@),
        },
{
    let ls = text::split_lines_inclusive(content);
    match find_section_lines(&ls, target) {
        None => Err(AppError::Other(text::cat("heading not found: ", target))),
        Some((h, e)) => {
            let before = glue(&ls, 0, h + 1);
            let section = glue(&ls, h + 1, e);
            let after = glue(&ls, e, ls.len());
            let new_section = if text::same(operation, "replace") {
                patch.to_owned()
            } else if text::same(operation, "append") {
                text::cat3(&text::trim_end_matches(&section, &text::only('\n')), "\n", patch)
            } else if text::same(operation, "prepend") {
                text::cat3(patch, "\n", &section)
            } else {
                return Err(AppError::Other(text::cat("unknown operation: ", operation)));
            };
            Ok(text::cat3(&before, &new_section, &after))
        },
    }
}

// ── Inline tags ───────────────────────────────────────────────────────────────

/// Whether a character may stand in a tag.
pub open spec fn is_tag_char(c: char) -> bool {
    text::is_ascii_letter(c) || ('0' <= c <= '9') || c == '/' || c == '_' || c == '-'
}

/// The longest start of `s` that is made of tag characters.
pub open spec fn tag_run(s: Seq<char>) -> Seq<char>
    decreases s.len(),
{
    if s.len() > 0 && is_tag_char(s[0]) {
        seq![s[0]] + tag_run(s.drop_first())
    } else {
        seq![]
    }
}

/// A tag is no longer than the text it starts.
pub proof fn tag_run_fits(s: Seq<char>)
    ensures
        tag_run(s).len() <= s.len(),
    decreases s.len(),
{
    if s.len() > 0 && is_tag_char(s[0]) {
        tag_run_fits(s.drop_first());
    }
}

/// The tags of a text, from the left: a number sign, a letter, and as many tag
/// characters as follow.
pub open spec fn inline_tags(s: Seq<char>) -> Seq<Seq<char>>
    decreases s.len(),
{
    if s.len() < 2 {
        seq![]
    } else if s[0] == '#' && text::is_ascii_letter(s[1]) {
        let tag = tag_run(s.drop_first());
        proof {
            tag_run_fits(s.drop_first());
        }
        seq![tag] + inline_tags(s.skip(1 + tag.len() as int))
    } else {
        inline_tags(s.drop_first())
    }
}

/// Whether a character may stand in a tag.
fn tag_char(c: char) -> (r: bool)
    ensures
        r == is_tag_char(c),
{
    ('a' <= c && c <= 'z') || ('A' <= c && c <= 'Z') || ('0' <= c && c <= '9') || c == '/' || c == '_' || c
        == '-'
}

/// The tags that stand in the text of a note.
pub fn extract_inline_tags(body: &str) -> (r: Vec<String>)
    ensures
        text::texts(r@) == inline_tags(body@),
{
    let v = text::chars_of(body);
    let mut out: Vec<String> = Vec::new();
    let mut i: usize = 0;
    assert(v@.skip(0) =~= v@);
    while i < v.len() && v.len() - i >= 2
        invariant
            i <= v@.len(),
            v@ == body@,
            text::texts(out@) + inline_tags(v@.skip(i as int)) =~= inline_tags(body@),
        decreases v@.len() - i,
    {
        let ghost rest = v@.skip(i as int);
        assert(rest[0] == v@[i as int] && rest[1] == v@[i + 1]);
        if v[i] == '#' && (('a' <= v[i + 1] && v[i + 1] <= 'z') || ('A' <= v[i + 1] && v[i + 1] <= 'Z')) {
            let mut k: usize = i + 1;
            assert(v@.subrange(i + 1, i + 1) =~= Seq::<char>::empty());
            assert(rest.drop_first() =~= v@.skip(i + 1));
            while k < v.len() && tag_char(v[k])
                invariant
                    i < k <= v@.len(),
                    v@.subrange(i + 1, k as int) + tag_run(v@.skip(k as int)) =~= tag_run(v@.skip(i + 1)),
                decreases v@.len() - k,
            {
                assert(v@.skip(k as int).drop_first() =~= v@.skip(k + 1));
                assert(v@.skip(k as int)[0] == v@[k as int]);
                assert(v@.subrange(i + 1, k + 1) =~= v@.subrange(i + 1, k as int).push(v@[k as int]));
                k += 1;
            }
            if k < v.len() {
                assert(v@.skip(k as int)[0] == v@[k as int]);
            }
            let tag = text::string_of(slice_subrange(&v, i + 1, k));
            let ghost before = out@;
            out.push(tag);
            proof {
                assert(tag@ =~= tag_run(rest.drop_first()));
                assert(text::texts(out@) =~= text::texts(before).push(tag@));
                assert(rest.skip(1 + tag@.len() as int) =~= v@.skip(k as int));
            }
            i = k;
        } else {
            assert(rest.drop_first() =~= v@.skip(i + 1));
            i += 1;
        }
    }
    out
}

// ── Tags of the frontmatter ───────────────────────────────────────────────────

/// The texts that are not empty.
pub open spec fn not_empty(v: Seq<Seq<char>>) -> Seq<Seq<char>> {
    v.filter(|t: Seq<char>| t.len() > 0)
}

/// The strings among the values, trimmed.
pub open spec fn trimmed_strings(v: Seq<Tree>) -> Seq<Seq<char>>
    decreases v.len(),
{
    if v.len() == 0 {
        seq![]
    } else {
        match v.last() {
            Tree::Text(s) => trimmed_strings(v.drop_last()).push(text::trimmed(s)),
            _ => trimmed_strings(v.drop_last()),
        }
    }
}

/// The tags that a `tags` member lists: the strings of an array, or the pieces of
/// a string between commas; trimmed, the empty ones left out.
pub open spec fn frontmatter_tags(fm: Tree) -> Seq<Seq<char>> {
    match fm.field("tags"@) {
        Tree::Array(a) => not_empty(trimmed_strings(a)),
        Tree::Text(s) => not_empty(text::split_on(s, ',').map_values(|t: Seq<char>| text::trimmed(t))),
        _ => seq![],
    }
}

/// The tags that the frontmatter lists.
pub fn extract_frontmatter_tags(fm: &Json) -> (r: Vec<String>)
    ensures
        text::texts(r@) == frontmatter_tags(fm.tree()),
{
    let mut out: Vec<String> = Vec::new();
    let ghost keep = |t: Seq<char>| t.len() > 0;
    match fm.get("tags") {
        Some(Json::Array(a)) => {
            proof {
                json::tree_of_parts(Json::Array(*a));
                assert(json::trees(a@).take(0) =~= Seq::<Tree>::empty());
            }
            let ghost ts = json::trees(a@);
            let mut i: usize = 0;
            assert(text::texts(out@) =~= Seq::<Seq<char>>::empty());
            assert(not_empty(trimmed_strings(ts.take(0))) =~= Seq::<Seq<char>>::empty()) by {
                reveal_with_fuel(Seq::filter, 1);
            }
            while i < a.len()
                invariant
                    i <= a@.len(),
                    ts == json::trees(a@),
                    text::texts(out@) =~= not_empty(trimmed_strings(ts.take(i as int))),
                decreases a@.len() - i,
            {
                proof {
                    reveal_with_fuel(Seq::filter, 1);
                    assert(ts.take(i + 1).drop_last() =~= ts.take(i as int));
                    assert(ts.take(i + 1).last() == a@[i as int].tree());
                }
                if let Json::Text(s) = &a[i] {
                    let t = text::trim(s);
                    let ghost all = trimmed_strings(ts.take(i as int));
                    assert(all.push(t@).drop_last() =~= all);
                    if !t.as_str().is_empty() {
                        let ghost before = out@;
                        out.push(t);
                        assert(text::texts(out@) =~= text::texts(before).push(t@));
                    }
                }
                i += 1;
            }
            assert(ts.take(ts.len() as int) =~= ts);
        },
        Some(Json::Text(s)) => {
            let parts = text::split_char(s, ',');
            let ghost ts = text::split_on(s@, ',').map_values(|t: Seq<char>| text::trimmed(t));
            let mut i: usize = 0;
            assert(not_empty(ts.take(0)) =~= Seq::<Seq<char>>::empty()) by {
                reveal_with_fuel(Seq::filter, 1);
            }
            while i < parts.len()
                invariant
                    i <= parts@.len(),
                    text::texts(parts@) == text::split_on(s@, ','),
                    ts == text::split_on(s@, ',').map_values(|t: Seq<char>| text::trimmed(t)),
                    text::texts(out@) =~= not_empty(ts.take(i as int)),
                decreases parts@.len() - i,
            {
                let t = text::trim(&parts[i]);
                proof {
                    reveal_with_fuel(Seq::filter, 1);
                    assert(text::texts(parts@)[i as int] == parts@[i as int]@);
                    assert(ts.take(i + 1).drop_last() =~= ts.take(i as int));
                    assert(ts.take(i + 1).last() == t@);
                }
                if !t.as_str().is_empty() {
                    let ghost before = out@;
                    out.push(t);
                    assert(text::texts(out@) =~= text::texts(before).push(t@));
                }
                i += 1;
            }
            assert(ts.take(ts.len() as int) =~= ts);
        },
        _ => {
            assert(text::texts(out@) =~= Seq::<Seq<char>>::empty());
        },
    }
    out
}

// ── Frontmatter block ─────────────────────────────────────────────────────────

/// The first line, from line `from` on, that is a rule of three dashes.
pub open spec fn rule_index(ls: Seq<Seq<char>>, from: int) -> int
    decreases ls.len() - from,
{
    if from < 0 || from >= ls.len() || text::trimmed(ls[from]) == "---"@ {
        from
    } else {
        rule_index(ls, from + 1)
    }
}

/// The first line, from line `from` on, that is a rule of three dashes.
fn next_rule(ls: &Vec<String>, from: usize) -> (r: usize)
    requires
        from <= ls@.len(),
    ensures
        r == rule_index(text::texts(ls@), from as int),
        from <= r <= ls@.len(),
{
    let ghost spec_ls = text::texts(ls@);
    let mut i: usize = from;
    while i < ls.len()
        invariant
            from <= i <= ls@.len(),
            spec_ls == text::texts(ls@),
            rule_index(spec_ls, from as int) == rule_index(spec_ls, i as int),
        decreases ls@.len() - i,
    {
        assert(spec_ls[i as int] == ls@[i as int]@);
        if text::same(&text::trim(&ls[i]), "---") {
            return i;
        }
        i += 1;
    }
    i
}

/// Whether a text is the name of a frontmatter key.
pub open spec fn is_key(key: Seq<char>) -> bool {
    &&& key.len() > 0
    &&& text::is_alpha(key[0]) || key[0] == '_'
    &&& forall|i: int|
        0 <= i < key.len() ==> text::is_alnum(#[trigger] key[i]) || key[i] == '_' || key[i] == '-'
}

/// The key that a line sets: what stands before its first colon, trimmed.
pub open spec fn key_of(line: Seq<char>) -> Option<Seq<char>> {
    match text::find_sub(line, seq![':']) {
        Some(i) => if is_key(text::trimmed(line.take(i))) {
            Some(text::trimmed(line.take(i)))
        } else {
            None
        },
        None => None,
    }
}

/// The keys that the lines set.
pub open spec fn keys_of(ls: Seq<Seq<char>>) -> Seq<Seq<char>>
    decreases ls.len(),
{
    if ls.len() == 0 {
        seq![]
    } else {
        match key_of(ls.last()) {
            Some(k) => keys_of(ls.drop_last()).push(k),
            None => keys_of(ls.drop_last()),
        }
    }
}

/// The keys that stand between the first rule and the next.
pub open spec fn frontmatter_keys(content: Seq<char>) -> Seq<Seq<char>> {
    let ls = text::lines_of(content);
    let a = rule_index(ls, 0);
    if a >= ls.len() {
        seq![]
    } else {
        keys_of(ls.subrange(a + 1, rule_index(ls, a + 1)))
    }
}

/// Whether a text is the name of a frontmatter key.
fn check_key(key: &str) -> (r: bool)
    ensures
        r == is_key(key@),
{
    let v = text::chars_of(key);
    if v.len() == 0 || !(v[0].is_alphabetic() || v[0] == '_') {
        return false;
    }
    let mut i: usize = 0;
    while i < v.len()
        invariant
            i <= v@.len(),
            v@ == key@,
            forall|j: int|
                0 <= j < i ==> text::is_alnum(#[trigger] v@[j]) || v@[j] == '_' || v@[j] == '-',
        decreases v@.len() - i,
    {
        if !(v[i].is_alphanumeric() || v[i] == '_' || v[i] == '-') {
            assert(key@[i as int] == v@[i as int]);
            return false;
        }
        i += 1;
    }
    true
}

/// The key that a line sets.
fn find_key(line: &str) -> (r: Option<String>)
    ensures
        match r {
            Some(k) => key_of(line@) == Some(k@),
            None => key_of(line@) is None,
        },
{
    let v = text::chars_of(line);
    let mut colon: Vec<char> = Vec::new();
    colon.push(':');
    assert(colon@ =~= seq![':']);
    match text::find_in(&v, &colon) {
        Some(i) => {
            let part = text::string_of(slice_subrange(&v, 0, i));
            assert(part@ =~= line@.take(i as int));
            let key = text::trim(&part);
            if check_key(&key) {
                Some(key)
            } else {
                None
            }
        },
        None => None,
    }
}

/// The names of the keys in the frontmatter block.
pub fn extract_frontmatter_keys(content: &str) -> (r: Vec<String>)
    ensures
        text::texts(r@) == frontmatter_keys(content@),
{
    let ls = text::lines(content);
    let ghost spec_ls = text::lines_of(content@);
    let mut out: Vec<String> = Vec::new();
    assert(text::texts(out@) =~= Seq::<Seq<char>>::empty());
    let a = next_rule(&ls, 0);
    if a >= ls.len() {
        return out;
    }
    let b = next_rule(&ls, a + 1);
    let mut i: usize = a + 1;
    assert(spec_ls.subrange(a + 1, a + 1) =~= Seq::<Seq<char>>::empty());
    while i < b
        invariant
            a < i <= b <= ls@.len(),
            text::texts(ls@) == spec_ls,
            text::texts(out@) =~= keys_of(spec_ls.subrange(a + 1, i as int)),
        decreases b - i,
    {
        proof {
            assert(spec_ls[i as int] == ls@[i as int]@);
            assert(spec_ls.subrange(a + 1, i + 1).drop_last() =~= spec_ls.subrange(a + 1, i as int));
        }
        if let Some(key) = find_key(&ls[i]) {
            let ghost before = out@;
            out.push(key);
            assert(text::texts(out@) =~= text::texts(before).push(key@));
        }
        i += 1;
    }
    out
}

// ── Headings ──────────────────────────────────────────────────────────────────

/// A heading of a note.
pub struct Heading {
    pub level: usize,
    pub text: String,
    pub line: usize,
}

/// What a heading is, mathematically.
pub struct HeadingView {
    pub level: nat,
    pub text: Seq<char>,
    pub line: nat,
}

impl View for Heading {
    type V = HeadingView;

    open spec fn view(&self) -> HeadingView {
        HeadingView { level: self.level as nat, text: self.text@, line: self.line as nat }
    }
}

/// The headings that a list holds.
pub open spec fn heading_views(v: Seq<Heading>) -> Seq<HeadingView> {
    v.map_values(|h: Heading| h@)
}

/// The heading that line `i` is: one to six number signs, then a space.
pub open spec fn heading_at(ls: Seq<Seq<char>>, i: int) -> Option<HeadingView> {
    let rest = after_hashes(ls[i]);
    let level = ls[i].len() - rest.len();
    if 1 <= level <= 6 && rest.len() > 0 && rest[0] == ' ' {
        Some(HeadingView { level: level as nat, text: text::trimmed(rest), line: (i + 1) as nat })
    } else {
        None
    }
}

/// Whether line `i` lies outside the frontmatter block, which reaches from the
/// first rule to the next, or to the end.
pub open spec fn outside_frontmatter(ls: Seq<Seq<char>>, i: int) -> bool {
    let a = rule_index(ls, 0);
    i < a || i > rule_index(ls, a + 1)
}

/// The headings among the first `n` lines, those of the frontmatter left out.
pub open spec fn headings_of(ls: Seq<Seq<char>>, n: int) -> Seq<HeadingView>
    decreases n,
{
    if n <= 0 {
        seq![]
    } else {
        let before = headings_of(ls, n - 1);
        match heading_at(ls, n - 1) {
            Some(h) => if outside_frontmatter(ls, n - 1) {
                before.push(h)
            } else {
                before
            },
            None => before,
        }
    }
}

/// The headings of a note.
pub open spec fn note_headings(content: Seq<char>) -> Seq<HeadingView> {
    let ls = text::lines_of(content);
    headings_of(ls, ls.len() as int)
}

/// The headings of a note.
pub fn extract_headings(content: &str) -> (r: Vec<Heading>)
    ensures
        heading_views(r@) == note_headings(content@),
{
    let ls = text::lines(content);
    let ghost spec_ls = text::lines_of(content@);
    let a = next_rule(&ls, 0);
    let b = if a < ls.len() {
        next_rule(&ls, a + 1)
    } else {
        a
    };
    let mut out: Vec<Heading> = Vec::new();
    let mut i: usize = 0;
    assert(heading_views(out@) =~= Seq::<HeadingView>::empty());
    while i < ls.len()
        invariant
            i <= ls@.len(),
            text::texts(ls@) == spec_ls,
            a == rule_index(spec_ls, 0),
            a < ls@.len() ==> b == rule_index(spec_ls, a + 1),
            heading_views(out@) =~= headings_of(spec_ls, i as int),
        decreases ls@.len() - i,
    {
        assert(spec_ls[i as int] == ls@[i as int]@);
        if i < a || i > b {
            let v = text::chars_of(&ls[i]);
            let level = text::front_count(&v, &text::only('#'));
            let rest = slice_subrange(&v, level, v.len());
            assert(rest@ =~= v@.skip(level as int));
            if level >= 1 && level <= 6 && rest.len() > 0 && rest[0] == ' ' {
                let h = Heading { level, text: text::trim(&text::string_of(rest)), line: i + 1 };
                let ghost before = out@;
                out.push(h);
                assert(heading_views(out@) =~= heading_views(before).push(h@));
            }
        }
        i += 1;
    }
    out
}

impl Heading {
    /// The heading as JSON.
    pub fn to_json(&self) -> (r: Json)
        ensures
            r.tree() == heading_tree(self@),
    {
        Json::object3(
            "level",
            Json::number(self.level as u64),
            "text",
            Json::text(&self.text),
            "line",
            Json::number(self.line as u64),
        )
    }
}

/// A heading as JSON.
pub open spec fn heading_tree(h: HeadingView) -> Tree {
    Tree::Object(
        seq![
            ("level"@, Tree::Number(json::number_of(h.level as u64))),
            ("text"@, Tree::Text(h.text)),
            ("line"@, Tree::Number(json::number_of(h.line as u64))),
        ],
    )
}

// ── Titles ────────────────────────────────────────────────────────────────────

/// How many of the first `n` bytes are text: the largest start that is UTF-8.
pub open spec fn text_prefix(raw: Seq<u8>, n: int) -> int
    decreases n,
{
    if n <= 0 || valid_utf8(raw.take(n)) {
        n
    } else {
        text_prefix(raw, n - 1)
    }
}

/// The title that a line sets, without the quotes around it; `None` where it sets
/// none, or an empty one.
pub open spec fn title_of(line: Seq<char>) -> Option<Seq<char>> {
    if "title:"@.is_prefix_of(line) {
        let quoted = text::trimmed(line.skip("title:"@.len() as int));
        let title = text::trim_both(text::trim_both(quoted, Chars::In(seq!['"'])), Chars::In(seq!['\'']));
        if title.len() > 0 {
            Some(title)
        } else {
            None
        }
    } else {
        None
    }
}

/// The first title among lines `from` to `to`.
pub open spec fn first_title(ls: Seq<Seq<char>>, from: int, to: int) -> Option<Seq<char>>
    decreases to - from,
{
    if from < 0 || from >= to || from >= ls.len() {
        None
    } else if title_of(ls[from]) is Some {
        title_of(ls[from])
    } else {
        first_title(ls, from + 1, to)
    }
}

/// The title that the start of a note sets in its frontmatter.
pub open spec fn note_title(raw: Seq<u8>) -> Option<Seq<char>> {
    let snippet = decode_utf8(raw.take(text_prefix(raw, raw.len() as int)));
    let ls = text::lines_of(snippet);
    let a = rule_index(ls, 0);
    if "---"@.is_prefix_of(snippet) && a < ls.len() {
        first_title(ls, a + 1, rule_index(ls, a + 1))
    } else {
        None
    }
}

/// The title that a line sets.
fn find_title(line: &str) -> (r: Option<String>)
    ensures
        match r {
            Some(t) => title_of(line@) == Some(t@),
            None => title_of(line@) is None,
        },
{
    match text::strip_prefix(line, "title:") {
        Some(rest) => {
            let quoted = text::trim(&rest);
            let title = text::trim_matches(&text::trim_matches(&quoted, &text::only('"')), &text::only('\''));
            if title.as_str().is_empty() {
                None
            } else {
                Some(title)
            }
        },
        None => None,
    }
}

/// The bytes before index `n`.
fn bytes_before(raw: &Vec<u8>, n: usize) -> (r: Vec<u8>)
    requires
        n <= raw@.len(),
    ensures
        r@ == raw@.take(n as int),
{
    let mut out: Vec<u8> = Vec::new();
    let mut i: usize = 0;
    while i < n
        invariant
            i <= n <= raw@.len(),
            out@ == raw@.take(i as int),
        decreases n - i,
    {
        out.push(raw[i]);
        i += 1;
    }
    out
}

/// How many bytes of a note are read for its title.
pub const TITLE_BYTES: usize = 512;

/// The title that the start of a note, `raw`, sets in its frontmatter.
pub fn extract_title(raw: &Vec<u8>) -> (r: Option<String>)
    ensures
        match r {
            Some(t) => note_title(raw@) == Some(t@),
            None => note_title(raw@) is None,
        },
{
    let mut n: usize = raw.len();
    let mut snippet: Option<String> = text::utf8_text(bytes_before(raw, n));
    while snippet.is_none() && n > 0
        invariant
            n <= raw@.len(),
            snippet is Some <==> valid_utf8(raw@.take(n as int)),
            snippet matches Some(s) ==> s@ == decode_utf8(raw@.take(n as int)),
            text_prefix(raw@, raw@.len() as int) == text_prefix(raw@, n as int),
        decreases n,
    {
        n -= 1;
        snippet = text::utf8_text(bytes_before(raw, n));
    }
    proof {
        assert(raw@.take(0) =~= Seq::<u8>::empty());
        assert(valid_utf8(Seq::<u8>::empty())) by {
            reveal_with_fuel(valid_utf8, 1);
        }
    }
    let snippet = snippet.unwrap();
    if !text::starts_with(&snippet, "---") {
        return None;
    }
    let ls = text::lines(&snippet);
    let ghost spec_ls = text::lines_of(snippet@);
    let a = next_rule(&ls, 0);
    if a >= ls.len() {
        return None;
    }
    let b = next_rule(&ls, a + 1);
    let mut i: usize = a + 1;
    while i < b
        invariant
            a < i <= b <= ls@.len(),
            text::texts(ls@) == spec_ls,
            note_title(raw@) == first_title(spec_ls, i as int, b as int),
        decreases b - i,
    {
        assert(spec_ls[i as int] == ls@[i as int]@);
        let t = find_title(&ls[i]);
        if t.is_some() {
            return t;
        }
        i += 1;
    }
    None
}

// ── Line ranges ───────────────────────────────────────────────────────────────

/// The most lines that are read at once.
pub const MAX_LINE_SPAN: u64 = 500;

/// The lines `start` to `end` of a text, counted from 1, with a note of where
/// they stand.
pub open spec fn line_range(content: Seq<char>, start_line: Option<u64>, end_line: Option<u64>) -> Result<
    Seq<char>,
    ErrorView,
> {
    let ls = text::lines_of(content);
    let total = ls.len() as int;
    let start = match start_line {
        Some(n) => n as int,
        None => 1,
    };
    let end = match end_line {
        Some(n) => n as int,
        None => total,
    };
    if start_line is None && end_line is None {
        Ok(content)
    } else if start < 1 {
        Err(ErrorView::Other("start_line must be >= 1"@))
    } else if end < start {
        Err(ErrorView::Other("end_line must be >= start_line"@))
    } else if end - start >= MAX_LINE_SPAN {
        Err(ErrorView::Other("line range exceeds 500 lines"@))
    } else if start > total {
        Err(
            ErrorView::Other(
                "start_line "@ + text::decimal(start as nat) + " exceeds file length "@ + text::decimal(
                    total as nat,
                ),
            ),
        )
    } else {
        let last = if end < total {
            end
        } else {
            total
        };
        Ok(
            text::joined(ls.subrange(start - 1, last), "\n"@) + "\n\n[Lines "@ + text::decimal(start as nat)
                + "–"@ + text::decimal(last as nat) + " of "@ + text::decimal(total as nat) + " total]"@,
        )
    }
}

/// The lines `start_line` to `end_line` of a text, counted from 1; the whole text
/// where neither is given.
pub fn read_lines(content: String, start_line: Option<u64>, end_line: Option<u64>) -> (r: Result<
    String,
    AppError,
>)
    ensures
        match r {
            Ok(s) => line_range(content@, start_line, end_line) == Ok::<Seq<char>, ErrorView>(s@),
            Err(e) => line_range(content@, start_line, end_line) == Err::<Seq<char>, ErrorView>(e@),
        },
{
    if start_line.is_none() && end_line.is_none() {
        return Ok(content);
    }
    let ls = text::lines(&content);
    let ghost spec_ls = text::lines_of(content@);
    let total = ls.len() as u64;
    let start = match start_line {
        Some(n) => n,
        None => 1,
    };
    let end = match end_line {
        Some(n) => n,
        None => total,
    };
    if start < 1 {
        return Err(AppError::other("start_line must be >= 1"));
    }
    if end < start {
        return Err(AppError::other("end_line must be >= start_line"));
    }
    if end - start >= MAX_LINE_SPAN {
        return Err(AppError::other("line range exceeds 500 lines"));
    }
    if start > total {
        let mut msg = text::cat3("start_line ", &text::to_decimal(start), " exceeds file length ");
        msg.append(&text::to_decimal(total));
        return Err(AppError::Other(msg));
    }
    let last = if end < total {
        end
    } else {
        total
    };
    let part = slice_subrange(ls.as_slice(), (start - 1) as usize, last as usize);
    let mut out = text::join(part, "\n");
    proof {
        assert(text::texts(part@) =~= spec_ls.subrange(start - 1, last as int));
    }
    out.append("\n\n[Lines ");
    out.append(&text::to_decimal(start));
    out.append("–");
    out.append(&text::to_decimal(last));
    out.append(" of ");
    out.append(&text::to_decimal(total));
    out.append(" total]");
    Ok(out)
}

// ── Laws ──────────────────────────────────────────────────────────────────────

proof fn flatten_concat(a: Seq<Seq<char>>, b: Seq<Seq<char>>)
    ensures
        (a + b).flatten() == a.flatten() + b.flatten(),
    decreases b.len(),
{
    if b.len() == 0 {
        assert(a + b =~= a);
        assert(a.flatten() + b.flatten() =~= a.flatten());
    } else {
        flatten_concat(a, b.drop_last());
        assert(a + b =~= (a + b.drop_last()).push(b.last()));
        assert(b =~= b.drop_last().push(b.last()));
        (a + b.drop_last()).lemma_flatten_push(b.last());
        b.drop_last().lemma_flatten_push(b.last());
        assert(a.flatten() + b.drop_last().flatten() + b.last() =~= a.flatten() + b.flatten());
    }
}

/// The bounds of the lines of a section.
proof fn section_lines_bounds(ls: Seq<Seq<char>>, heading: Seq<char>)
    ensures
        section_lines(ls, heading) matches Some((h, e)) ==> 0 <= h < e <= ls.len() && is_named_heading(ls[h], heading),
{
    heading_index_bounds(ls, heading, 0);
    let h = heading_index(ls, heading, 0);
    if h < ls.len() {
        section_end_bounds(ls, heading_level(ls[h]), h + 1);
    }
}

proof fn heading_index_bounds(ls: Seq<Seq<char>>, heading: Seq<char>, from: int)
    requires
        0 <= from <= ls.len(),
    ensures
        from <= heading_index(ls, heading, from) <= ls.len(),
        heading_index(ls, heading, from) < ls.len() ==> is_named_heading(ls[heading_index(ls, heading, from)], heading),
        forall|i: int| from <= i < heading_index(ls, heading, from) ==> !is_named_heading(#[trigger] ls[i], heading),
    decreases ls.len() - from,
{
    if from < ls.len() && !is_named_heading(ls[from], heading) {
        heading_index_bounds(ls, heading, from + 1);
    }
}

proof fn section_end_bounds(ls: Seq<Seq<char>>, level: nat, from: int)
    requires
        0 <= from <= ls.len(),
    ensures
        from <= section_end_index(ls, level, from) <= ls.len(),
        section_end_index(ls, level, from) < ls.len() ==> 0 < heading_level(ls[section_end_index(ls, level, from)])
            <= level,
        forall|i: int|
            from <= i < section_end_index(ls, level, from) ==> !(0 < heading_level(#[trigger] ls[i]) <= level),
    decreases ls.len() - from,
{
    if from < ls.len() && !(0 < heading_level(ls[from]) <= level) {
        section_end_bounds(ls, level, from + 1);
    }
}

/// What stands before a section, the section and what stands after it make up the note.
pub proof fn sections_make_the_note(content: Seq<char>, heading: Seq<char>)
    ensures
        around_section(content, heading) matches Some((before, section, after)) ==> before + section + after == content,
{
    let ls = text::lines_inclusive(content);
    if let Some((h, e)) = section_lines(ls, heading) {
        section_lines_bounds(ls, heading);
        let a = ls.subrange(0, h + 1);
        let b = ls.subrange(h + 1, e);
        let c = ls.subrange(e, ls.len() as int);
        flatten_concat(a, b);
        flatten_concat(a + b, c);
        assert(a + b + c =~= ls);
        text::lines_make_the_text(content);
    }
}

/// The byte offsets of a section cut it out of the note.
pub proof fn section_offsets_cut_it_out(content: Seq<char>, heading: Seq<char>)
    ensures
        match heading_section(content, heading) {
            Some((line_end, start, end)) => {
                &&& around_section(content, heading) matches Some((before, section, after))
                &&& line_end == start <= end <= encode_utf8(content).len()
                &&& encode_utf8(content).subrange(start as int, end as int) == encode_utf8(section)
                &&& encode_utf8(content).take(start as int) == encode_utf8(before)
                &&& encode_utf8(content).skip(end as int) == encode_utf8(after)
            },
            None => around_section(content, heading) is None,
        },
{
    let ls = text::lines_inclusive(content);
    if let Some((h, e)) = section_lines(ls, heading) {
        section_lines_bounds(ls, heading);
        sections_make_the_note(content, heading);
        let (before, section, after) = around_section(content, heading)->0;
        assert(ls.take(h + 1) =~= ls.subrange(0, h + 1));
        assert(ls.take(e) =~= ls.subrange(0, h + 1) + ls.subrange(h + 1, e));
        flatten_concat(ls.subrange(0, h + 1), ls.subrange(h + 1, e));
        encode_concat(before, section);
        encode_concat(before + section, after);
        let all = encode_utf8(content);
        let x = encode_utf8(before);
        let y = encode_utf8(section);
        let z = encode_utf8(after);
        assert(all == x + y + z);
        assert(all.subrange(x.len() as int, (x.len() + y.len()) as int) =~= y);
        assert(all.take(x.len() as int) =~= x);
        assert(all.skip((x.len() + y.len()) as int) =~= z);
    }
}

/// A patch of a section leaves everything outside the section as it is.
pub proof fn patches_leave_the_rest_alone(
    content: Seq<char>,
    heading: Seq<char>,
    operation: Seq<char>,
    patch: Seq<char>,
)
    ensures
        patched_heading(content, heading, operation, patch) matches Ok(new) ==> {
            &&& around_section(content, heading) matches Some((before, section, after))
            &&& exists|s: Seq<char>| new == #[trigger] (before + s + after)
            &&& before + section + after == content
        },
{
    sections_make_the_note(content, heading);
    if let Some((before, section, after)) = around_section(content, heading) {
        if let Some(s) = patched_section(section, operation, patch) {
            assert(before + s + after == before + s + after);
        }
    }
}

proof fn find_newline(s: Seq<char>)
    ensures
        match text::find_sub(s, seq!['\n']) {
            Some(i) => 0 <= i < s.len() && s[i] == '\n' && forall|j: int| 0 <= j < i ==> s[j] != '\n',
            None => forall|j: int| 0 <= j < s.len() ==> s[j] != '\n',
        },
    decreases s.len(),
{
    let p = seq!['\n'];
    if s.len() > 0 {
        assert(s.subrange(0, 1) =~= seq![s[0]]);
        assert(p[0] == '\n');
        assert(seq![s[0]][0] == s[0]);
        if !p.is_prefix_of(s) {
            let rest = s.drop_first();
            find_newline(rest);
            assert forall|j: int| 0 < j < s.len() implies #[trigger] s[j] == rest[j - 1] by {}
        }
    }
}

proof fn newline_at(s: Seq<char>, i: int)
    requires
        0 <= i < s.len(),
        s[i] == '\n',
        forall|j: int| 0 <= j < i ==> s[j] != '\n',
    ensures
        text::find_sub(s, seq!['\n']) == Some(i),
{
    find_newline(s);
}

/// Whether a text ends with a line, so that what follows it starts a new one.
pub open spec fn ends_a_line(s: Seq<char>) -> bool {
    s.len() == 0 || s.last() == '\n'
}

/// The lines of two texts one after the other, where the first one ends with a line.
proof fn lines_of_two(x: Seq<char>, y: Seq<char>)
    requires
        ends_a_line(x),
    ensures
        text::lines_inclusive(x + y) == text::lines_inclusive(x) + text::lines_inclusive(y),
    decreases x.len(),
{
    if x.len() == 0 {
        assert(x + y =~= y);
        assert(text::lines_inclusive(x) + text::lines_inclusive(y) =~= text::lines_inclusive(y));
    } else {
        find_newline(x);
        let i = text::find_sub(x, seq!['\n'])->0;
        assert(x[x.len() - 1] == '\n');
        newline_at(x + y, i);
        let rest = x.skip(i + 1);
        assert((x + y).skip(i + 1) =~= rest + y);
        assert((x + y).take(i + 1) =~= x.take(i + 1));
        if rest.len() > 0 {
            assert(rest.last() == x.last());
        }
        lines_of_two(rest, y);
        assert(text::lines_inclusive(x + y) =~= text::lines_inclusive(x) + text::lines_inclusive(y));
    }
}

/// A line in the middle of a text ends it; its lines are its lines.
proof fn lines_of_lines(s: Seq<char>, n: int)
    requires
        0 <= n <= text::lines_inclusive(s).len(),
    ensures
        text::lines_inclusive(text::lines_inclusive(s).take(n).flatten()) == text::lines_inclusive(s).take(n),
        text::lines_inclusive(text::lines_inclusive(s).skip(n).flatten()) == text::lines_inclusive(s).skip(n),
        n < text::lines_inclusive(s).len() ==> ends_a_line(text::lines_inclusive(s).take(n).flatten()),
    decreases s.len(),
{
    let ls = text::lines_inclusive(s);
    if n == 0 {
        assert(ls.take(0) =~= Seq::<Seq<char>>::empty());
        assert(ls.take(0).flatten() =~= Seq::<char>::empty());
        assert(ls.skip(0) =~= ls);
        text::lines_make_the_text(s);
    } else {
        find_newline(s);
        match text::find_sub(s, seq!['\n']) {
            Some(i) => {
                let first = s.take(i + 1);
                let rest = s.skip(i + 1);
                let more = text::lines_inclusive(rest);
                assert(ls == seq![first] + more);
                lines_of_lines(rest, n - 1);
                let t = more.take(n - 1).flatten();
                assert(ls.take(n) =~= seq![first] + more.take(n - 1));
                flatten_concat(seq![first], more.take(n - 1));
                seq![first].lemma_flatten_one_element();
                assert(ls.take(n).flatten() == first + t);
                lines_of_two(first, t);
                newline_at(first, i);
                assert(first.take(i + 1) =~= first);
                assert(first.skip(i + 1) =~= Seq::<char>::empty());
                assert(text::lines_inclusive(Seq::<char>::empty()) =~= Seq::<Seq<char>>::empty());
                assert(text::lines_inclusive(first) =~= seq![first]);
                assert(ls.skip(n) =~= more.skip(n - 1));
                if t.len() > 0 {
                    assert((first + t).last() == t.last());
                } else {
                    assert(first + t =~= first);
                }
            },
            None => {
                assert(ls =~= seq![s]);
                assert(ls.take(n) =~= ls);
                seq![s].lemma_flatten_one_element();
                assert(ls.skip(n) =~= Seq::<Seq<char>>::empty());
                assert(ls.skip(n).flatten() =~= Seq::<char>::empty());
            },
        }
    }
}

proof fn heading_index_at(ls: Seq<Seq<char>>, heading: Seq<char>, from: int, h: int)
    requires
        0 <= from <= h < ls.len(),
        forall|i: int| from <= i < h ==> !is_named_heading(#[trigger] ls[i], heading),
        is_named_heading(ls[h], heading),
    ensures
        heading_index(ls, heading, from) == h,
    decreases h - from,
{
    if from < h {
        heading_index_at(ls, heading, from + 1, h);
    }
}

proof fn section_end_at(ls: Seq<Seq<char>>, level: nat, from: int, e: int)
    requires
        0 <= from <= e <= ls.len(),
        forall|i: int| from <= i < e ==> !(0 < heading_level(#[trigger] ls[i]) <= level),
        e == ls.len() || 0 < heading_level(ls[e]) <= level,
    ensures
        section_end_index(ls, level, from) == e,
    decreases e - from,
{
    if from < e {
        section_end_at(ls, level, from + 1, e);
    }
}

/// Whether a text is one section under a heading of `level`: none of its lines is a
/// heading of that level or higher up.
pub open spec fn fits_under(s: Seq<char>, level: nat) -> bool {
    forall|i: int|
        0 <= i < text::lines_inclusive(s).len() ==> !(0 < heading_level(#[trigger] text::lines_inclusive(s)[i]) <= level)
}

/// The level of the first heading `heading` of a note.
pub open spec fn level_in(content: Seq<char>, heading: Seq<char>) -> nat {
    let ls = text::lines_inclusive(content);
    heading_level(ls[heading_index(ls, heading, 0)])
}

/// A patched section is read back: under its heading now stands what was put there, and
/// everything else is where it was. The line of the heading has to end, the new text has
/// to end with a line where something follows it, and it holds no heading that would end
/// the section.
pub proof fn patched_sections_are_read_back(
    content: Seq<char>,
    heading: Seq<char>,
    operation: Seq<char>,
    patch: Seq<char>,
)
    requires
        around_section(content, heading) matches Some((before, section, after)) && ends_a_line(before) && (
        patched_section(section, operation, patch) matches Some(put) && (ends_a_line(put) || after.len() == 0)
            && fits_under(put, level_in(content, heading))),
    ensures
        ({
            let (before, section, after) = around_section(content, heading)->0;
            let put = patched_section(section, operation, patch)->0;
            patched_heading(content, heading, operation, patch) matches Ok(new) && around_section(new, heading)
                == Some((before, put, after))
        }),
{
    let ls = text::lines_inclusive(content);
    section_lines_bounds(ls, heading);
    let (h, e) = section_lines(ls, heading)->0;
    let (before, section, after) = around_section(content, heading)->0;
    let level = heading_level(ls[h]);
    let put = patched_section(section, operation, patch)->0;
    let new = before + put + after;
    let lb = ls.take(h + 1);
    let lp = text::lines_inclusive(put);
    let la = ls.skip(e);
    assert(lb =~= ls.subrange(0, h + 1));
    assert(la =~= ls.subrange(e, ls.len() as int));
    lines_of_lines(content, h + 1);
    lines_of_lines(content, e);
    assert(text::lines_inclusive(before) == lb);
    assert(text::lines_inclusive(after) == la);
    assert(before + put + after =~= before + (put + after));
    if after.len() == 0 {
        assert(put + after =~= put);
        assert(la =~= Seq::<Seq<char>>::empty());
        assert(lp + la =~= lp);
    } else {
        lines_of_two(put, after);
    }
    lines_of_two(before, put + after);
    let n = lb + (lp + la);
    assert(text::lines_inclusive(new) == n);
    heading_index_bounds(ls, heading, 0);
    assert forall|i: int| 0 <= i <= h implies #[trigger] n[i] == ls[i] by {}
    assert forall|i: int| 0 <= i < h implies !is_named_heading(#[trigger] n[i], heading) by {
        assert(n[i] == ls[i]);
    }
    heading_index_at(n, heading, 0, h);
    section_end_bounds(ls, level, h + 1);
    let f = h + 1 + lp.len();
    assert forall|i: int| h + 1 <= i < f implies !(0 < heading_level(#[trigger] n[i]) <= level) by {
        assert(n[i] == lp[i - (h + 1)]);
    }
    if f < n.len() {
        assert(n[f as int] == la[0]);
        assert(la[0] == ls[e]);
    }
    section_end_at(n, level, h + 1, f as int);
    assert(section_lines(n, heading) == Some((h, f as int)));
    assert(n.subrange(0, h + 1) =~= lb);
    assert(n.subrange(h + 1, f as int) =~= lp);
    assert(n.subrange(f as int, n.len() as int) =~= la);
    text::lines_make_the_text(put);
}

proof fn rule_index_bounds(ls: Seq<Seq<char>>, from: int, at: int)
    requires
        0 <= from <= at < ls.len(),
        text::trimmed(ls[at]) == "---"@,
    ensures
        from <= rule_index(ls, from) <= at,
    decreases at - from,
{
    if text::trimmed(ls[from]) != "---"@ {
        rule_index_bounds(ls, from + 1, at);
    }
}

proof fn rule_index_with_more(ls: Seq<Seq<char>>, more: Seq<Seq<char>>, from: int)
    requires
        0 <= from,
        rule_index(ls, from) < ls.len(),
    ensures
        rule_index(ls + more, from) == rule_index(ls, from),
    decreases ls.len() - from,
{
    if from < ls.len() {
        assert((ls + more)[from] == ls[from]);
        if text::trimmed(ls[from]) != "---"@ {
            rule_index_with_more(ls, more, from + 1);
        }
    }
}

/// What stands behind the rule that closes the frontmatter of a note, after `content`,
/// adds no key to it and takes none away.
pub proof fn keys_stand_in_the_frontmatter(content: Seq<char>, tail: Seq<char>, open: int, close: int)
    requires
        content.len() > 0,
        content.last() == '\n',
        0 <= open < close < text::lines_of(content).len(),
        text::trimmed(text::lines_of(content)[open]) == "---"@,
        text::trimmed(text::lines_of(content)[close]) == "---"@,
    ensures
        frontmatter_keys(content + tail) == frontmatter_keys(content),
{
    let ls = text::lines_of(content);
    let more = text::lines_of(tail);
    let all = text::lines_of(content + tail);
    lines_of_two(content, tail);
    assert(all =~= ls + more);
    rule_index_bounds(ls, 0, open);
    let a = rule_index(ls, 0);
    rule_index_bounds(ls, a + 1, close);
    rule_index_with_more(ls, more, 0);
    rule_index_with_more(ls, more, a + 1);
    let b = rule_index(ls, a + 1);
    assert(all.subrange(a + 1, b) =~= ls.subrange(a + 1, b));
}

proof fn keys_of_lines_are_keys(ls: Seq<Seq<char>>)
    ensures
        forall|i: int| 0 <= i < keys_of(ls).len() ==> is_key(#[trigger] keys_of(ls)[i]),
    decreases ls.len(),
{
    if ls.len() > 0 {
        keys_of_lines_are_keys(ls.drop_last());
        let before = keys_of(ls.drop_last());
        assert forall|i: int| 0 <= i < keys_of(ls).len() implies is_key(#[trigger] keys_of(ls)[i]) by {
            if i < before.len() {
                assert(keys_of(ls)[i] == before[i]);
            }
        }
    }
}

/// Every key of a note is the name of a key: it starts with a letter or an underscore, and
/// holds only letters, digits, underscores and hyphens.
pub proof fn keys_have_the_form_of_keys(content: Seq<char>)
    ensures
        forall|i: int| 0 <= i < frontmatter_keys(content).len() ==> is_key(#[trigger] frontmatter_keys(content)[i]),
{
    let ls = text::lines_of(content);
    let a = rule_index(ls, 0);
    if a < ls.len() {
        keys_of_lines_are_keys(ls.subrange(a + 1, rule_index(ls, a + 1)));
    }
}

/// Never more than `MAX_LINE_SPAN` lines are read of a range, whether its end is given or
/// is that of the text.
pub proof fn ranges_are_bounded(content: Seq<char>, start: Option<u64>, end: Option<u64>)
    requires
        start is Some || end is Some,
        line_range(content, start, end) is Ok,
    ensures
        ({
            let first = match start {
                Some(n) => n as int,
                None => 1,
            };
            let last = match end {
                Some(n) => n as int,
                None => text::lines_of(content).len() as int,
            };
            1 <= first <= last && last - first + 1 <= MAX_LINE_SPAN
        }),
{
}

// ── What notes are made of ────────────────────────────────────────────────────

/// Number signs.
pub open spec fn hashes(n: nat) -> Seq<char> {
    Seq::new(n, |i: int| '#')
}

/// A line that starts a section: number signs, a space and a text, with white space around
/// the text.
pub open spec fn section_line(n: nat, w1: Seq<char>, t: Seq<char>, w2: Seq<char>) -> Seq<char> {
    hashes(n) + seq![' '] + w1 + t + w2
}

/// Whether a text is all white space.
pub open spec fn all_white(s: Seq<char>) -> bool {
    forall|i: int| 0 <= i < s.len() ==> text::is_white(#[trigger] s[i])
}

/// Whether there is no white space around a text.
pub open spec fn is_close(t: Seq<char>) -> bool {
    t.len() > 0 ==> !text::is_white(t[0]) && !text::is_white(t.last())
}

/// Line ends taken away from behind a text leave it, and perhaps white space after it.
proof fn bare_keeps_text(t: Seq<char>, w: Seq<char>) -> (v: Seq<char>)
    requires
        all_white(w),
        t.len() > 0 ==> t.last() != '\n' && t.last() != '\r',
    ensures
        bare(t + w) == t + v,
        all_white(v),
        v.len() <= w.len(),
    decreases w.len(),
{
    let k = line_ends();
    if w.len() == 0 {
        assert(t + w =~= t);
        if t.len() > 0 {
            assert(!k.has(t.last()));
        }
        w
    } else if k.has(w.last()) {
        assert((t + w).last() == w.last());
        assert((t + w).drop_last() =~= t + w.drop_last());
        bare_keeps_text(t, w.drop_last())
    } else {
        assert((t + w).last() == w.last());
        w
    }
}

proof fn hashes_are_taken(n: nat, rest: Seq<char>)
    requires
        rest.len() > 0 ==> rest[0] != '#',
    ensures
        after_hashes(hashes(n) + rest) == rest,
{
    let k = Chars::In(seq!['#']);
    assert(seq!['#'][0] == '#');
    assert forall|i: int| 0 <= i < hashes(n).len() implies k.has(#[trigger] hashes(n)[i]) by {}
    if rest.len() > 0 {
        assert(!k.has(rest[0])) by {
            if seq!['#'].contains(rest[0]) {
                let i = choose|i: int| 0 <= i < 1 && seq!['#'][i] == rest[0];
            }
        }
    }
    text::front_is_trimmed(hashes(n), rest, k);
}

/// A line of number signs, a space and a text is a heading: its level is the number of
/// signs, and its text is the text without the white space around it.
#[verifier::rlimit(50)]
#[verifier::spinoff_prover]
pub proof fn section_lines_are_headings(n: nat, w1: Seq<char>, t: Seq<char>, w2: Seq<char>)
    requires
        n > 0,
        all_white(w1),
        all_white(w2),
        is_close(t),
    ensures
        heading_level(section_line(n, w1, t, w2)) == n,
        heading_text(section_line(n, w1, t, w2)) == t,
{
    let line = section_line(n, w1, t, w2);
    let head = hashes(n) + seq![' '];
    let e = Seq::<char>::empty();
    if t.len() > 0 {
        let front = head + w1 + t;
        assert(line =~= front + w2);
        assert(front.last() == t.last());
        let v = bare_keeps_text(front, w2);
        let rest = seq![' '] + w1 + t + v;
        assert(bare(line) =~= hashes(n) + rest);
        hashes_are_taken(n, rest);
        let a = seq![' '] + w1;
        assert forall|i: int| 0 <= i < a.len() implies text::is_white(#[trigger] a[i]) by {
            if i > 0 {
                assert(a[i] == w1[i - 1]);
            }
        }
        text::surroundings_are_trimmed(a, t, v, Chars::White);
        assert(rest =~= a + t + v);
    } else {
        let w = w1 + w2;
        assert forall|i: int| 0 <= i < w.len() implies text::is_white(#[trigger] w[i]) by {
            if i >= w1.len() {
                assert(w[i] == w2[i - w1.len()]);
            }
        }
        assert(line =~= head + w);
        assert(head.last() == ' ');
        let v = bare_keeps_text(head, w);
        let rest = seq![' '] + v;
        assert(bare(line) =~= hashes(n) + rest);
        hashes_are_taken(n, rest);
        let a = seq![' '] + v;
        assert forall|i: int| 0 <= i < a.len() implies text::is_white(#[trigger] a[i]) by {
            if i > 0 {
                assert(a[i] == v[i - 1]);
            }
        }
        text::surroundings_are_trimmed(a, e, e, Chars::White);
        assert(rest =~= a + e + e);
        assert(t =~= e);
    }
}

/// A line that does not start with a number sign is no heading, nor is one with something
/// else than a space after its number signs.
pub proof fn other_lines_are_no_headings(line: Seq<char>, n: nat, c: char, x: Seq<char>)
    requires
        (line.len() == 0 || line[0] != '#') || (line == hashes(n) + seq![c] + x && c != ' ' && c != '#') || line == hashes(
            n,
        ),
    ensures
        heading_level(line) == 0,
{
    let b = bare(line);
    let m = bare_is_start(line);
    if line.len() == 0 || line[0] != '#' {
        assert(hashes(0) + b =~= b);
        hashes_are_taken(0, b);
    } else if m <= n {
        assert(b =~= hashes(m as nat) + Seq::<char>::empty());
        hashes_are_taken(m as nat, Seq::empty());
    } else {
        let rest = b.skip(n as int);
        assert(b =~= hashes(n) + rest);
        assert(rest[0] == line[n as int]);
        assert(rest[0] == c);
        hashes_are_taken(n, rest);
    }
}

proof fn bare_is_start(line: Seq<char>) -> (m: int)
    ensures
        0 <= m <= line.len(),
        bare(line) == line.take(m),
    decreases line.len(),
{
    if line.len() > 0 && line_ends().has(line.last()) {
        let m = bare_is_start(line.drop_last());
        assert(line.drop_last().take(m) =~= line.take(m));
        m
    } else {
        assert(line.take(line.len() as int) =~= line);
        line.len() as int
    }
}

/// A heading is the one that is asked for where its whole text is the one asked for, letter
/// by letter, but for the case of ASCII letters.
pub proof fn headings_are_known_by_their_whole_text(n: nat, w1: Seq<char>, t: Seq<char>, w2: Seq<char>, h: Seq<char>)
    requires
        n > 0,
        all_white(w1),
        all_white(w2),
        is_close(t),
    ensures
        is_named_heading(section_line(n, w1, t, w2), h) <==> h.len() == t.len() && forall|i: int|
            0 <= i < t.len() ==> {
                let c = #[trigger] t[i];
                let d = h[i];
                ||| c == d
                ||| 'a' <= c <= 'z' && d as u32 + 32 == c as u32
                ||| 'a' <= d <= 'z' && c as u32 + 32 == d as u32
            },
{
    section_lines_are_headings(n, w1, t, w2);
    text::case_is_that_of_ascii_letters(t, h);
}

/// A text without number signs has no headings among its lines.
proof fn plain_lines(s: Seq<char>)
    requires
        forall|i: int| 0 <= i < s.len() ==> s[i] != '#',
    ensures
        forall|i: int|
            0 <= i < text::lines_inclusive(s).len() ==> heading_level(#[trigger] text::lines_inclusive(s)[i]) == 0,
    decreases s.len(),
{
    let ls = text::lines_inclusive(s);
    find_newline(s);
    if s.len() > 0 {
        match text::find_sub(s, seq!['\n']) {
            Some(i) => {
                let rest = s.skip(i + 1);
                assert forall|j: int| 0 <= j < rest.len() implies rest[j] != '#' by {
                    assert(rest[j] == s[j + i + 1]);
                }
                plain_lines(rest);
                other_lines_are_no_headings(s.take(i + 1), 0, 'x', Seq::empty());
                assert forall|j: int| 0 <= j < ls.len() implies heading_level(#[trigger] ls[j]) == 0 by {
                    if j > 0 {
                        assert(ls[j] == text::lines_inclusive(rest)[j - 1]);
                    }
                }
            },
            None => {
                other_lines_are_no_headings(s, 0, 'x', Seq::empty());
            },
        }
    }
}

/// A heading line of its own.
pub open spec fn title_line(n: nat, t: Seq<char>) -> Seq<char> {
    hashes(n) + seq![' '] + t + seq!['\n']
}

/// Whether two texts are the same, but for the case of ASCII letters.
pub open spec fn reads_as(t: Seq<char>, h: Seq<char>) -> bool {
    h.len() == t.len() && forall|i: int|
        0 <= i < t.len() ==> {
            let c = #[trigger] t[i];
            let d = h[i];
            ||| c == d
            ||| 'a' <= c <= 'z' && d as u32 + 32 == c as u32
            ||| 'a' <= d <= 'z' && c as u32 + 32 == d as u32
        }
}

proof fn one_title_line(n: nat, t: Seq<char>, h: Seq<char>)
    requires
        n > 0,
        is_close(t),
        forall|i: int| 0 <= i < t.len() ==> t[i] != '\n',
    ensures
        text::lines_inclusive(title_line(n, t)) == seq![title_line(n, t)],
        heading_level(title_line(n, t)) == n,
        is_named_heading(title_line(n, t), h) <==> reads_as(t, h),
        ends_a_line(title_line(n, t)),
{
    let e = Seq::<char>::empty();
    let nl = seq!['\n'];
    assert(nl[0] == '\n');
    assert(title_line(n, t) =~= section_line(n, e, t, nl));
    assert(all_white(nl));
    section_lines_are_headings(n, e, t, nl);
    headings_are_known_by_their_whole_text(n, e, t, nl, h);
    let l = hashes(n) + seq![' '] + t;
    assert forall|i: int| 0 <= i < l.len() implies l[i] != '\n' by {
        if i > n {
            assert(l[i] == t[i - n - 1]);
        }
    }
    text::texts_have_lines(l, e);
    assert(l + nl + e =~= title_line(n, t));
    assert(text::lines_inclusive(e) =~= Seq::<Seq<char>>::empty());
    assert(seq![l + nl] + text::lines_inclusive(e) =~= seq![title_line(n, t)]);
}

/// In a note with two headings, and no number signs elsewhere, a section is what stands
/// under the heading whose whole text is asked for. It reaches to the next heading of its
/// level or above, or to the end. Where no heading has the text there is no section.
pub proof fn sections_stand_under_their_heading(
    pre: Seq<char>,
    n1: nat,
    t1: Seq<char>,
    x: Seq<char>,
    n2: nat,
    t2: Seq<char>,
    y: Seq<char>,
    h: Seq<char>,
)
    requires
        n1 > 0 && n2 > 0,
        is_close(t1) && is_close(t2),
        forall|i: int| 0 <= i < t1.len() ==> t1[i] != '\n',
        forall|i: int| 0 <= i < t2.len() ==> t2[i] != '\n',
        forall|i: int| 0 <= i < pre.len() ==> pre[i] != '#',
        forall|i: int| 0 <= i < x.len() ==> x[i] != '#',
        forall|i: int| 0 <= i < y.len() ==> y[i] != '#',
        pre.len() > 0 ==> pre.last() == '\n',
        x.len() > 0 ==> x.last() == '\n',
    ensures
        ({
            let a = title_line(n1, t1);
            let b = title_line(n2, t2);
            let content = pre + a + x + b + y;
            around_section(content, h) == (if reads_as(t1, h) {
                if n2 <= n1 {
                    Some((pre + a, x, b + y))
                } else {
                    Some((pre + a, x + b + y, Seq::<char>::empty()))
                }
            } else if reads_as(t2, h) {
                Some((pre + a + x + b, y, Seq::<char>::empty()))
            } else {
                None
            })
        }),
{
    one_title_line(n1, t1, h);
    one_title_line(n2, t2, h);
    plain_lines(pre);
    plain_lines(x);
    plain_lines(y);
    around_two(pre, title_line(n1, t1), x, title_line(n2, t2), y, h);
}

/// The sections of a note with two headings.
#[verifier::rlimit(50)]
#[verifier::spinoff_prover]
proof fn around_two(pre: Seq<char>, a: Seq<char>, x: Seq<char>, b: Seq<char>, y: Seq<char>, h: Seq<char>)
    requires
        text::lines_inclusive(a) == seq![a],
        text::lines_inclusive(b) == seq![b],
        ends_a_line(pre) && ends_a_line(a) && ends_a_line(x) && ends_a_line(b),
        heading_level(a) > 0,
        heading_level(b) > 0,
        forall|i: int|
            0 <= i < text::lines_inclusive(pre).len() ==> heading_level(#[trigger] text::lines_inclusive(pre)[i]) == 0,
        forall|i: int|
            0 <= i < text::lines_inclusive(x).len() ==> heading_level(#[trigger] text::lines_inclusive(x)[i]) == 0,
        forall|i: int|
            0 <= i < text::lines_inclusive(y).len() ==> heading_level(#[trigger] text::lines_inclusive(y)[i]) == 0,
    ensures
        around_section(pre + a + x + b + y, h) == (if is_named_heading(a, h) {
            if heading_level(b) <= heading_level(a) {
                Some((pre + a, x, b + y))
            } else {
                Some((pre + a, x + b + y, Seq::<char>::empty()))
            }
        } else if is_named_heading(b, h) {
            Some((pre + a + x + b, y, Seq::<char>::empty()))
        } else {
            None
        }),
{
    let lp = text::lines_inclusive(pre);
    let lx = text::lines_inclusive(x);
    let ly = text::lines_inclusive(y);
    lines_of_five(pre, a, x, b, y);
    two_sections(lp, a, lx, b, ly, h);
    text::lines_make_the_text(pre);
    text::lines_make_the_text(x);
    text::lines_make_the_text(y);
    parts_of_two(lp, a, lx, b, ly);
    grouped(pre, a, x, b, y);
}

proof fn grouped(pre: Seq<char>, a: Seq<char>, x: Seq<char>, b: Seq<char>, y: Seq<char>)
    ensures
        pre + a + x + b + y == pre + (a + (x + (b + y))),
        pre + (a + (x + b)) == pre + a + x + b,
        x + (b + y) == x + b + y,
{
    assert(pre + a + x + b + y =~= pre + (a + (x + (b + y))));
    assert(pre + (a + (x + b)) =~= pre + a + x + b);
    assert(x + (b + y) =~= x + b + y);
}

proof fn lines_of_five(pre: Seq<char>, a: Seq<char>, x: Seq<char>, b: Seq<char>, y: Seq<char>)
    requires
        text::lines_inclusive(a) == seq![a],
        text::lines_inclusive(b) == seq![b],
        ends_a_line(pre) && ends_a_line(a) && ends_a_line(x) && ends_a_line(b),
    ensures
        text::lines_inclusive(pre + a + x + b + y) == text::lines_inclusive(pre) + (seq![a] + (text::lines_inclusive(x) + (
        seq![b] + text::lines_inclusive(y)))),
{
    lines_of_two(b, y);
    lines_of_two(x, b + y);
    lines_of_two(a, x + (b + y));
    lines_of_two(pre, a + (x + (b + y)));
    grouped(pre, a, x, b, y);
}

/// The section lines of lines with two headings among them.
#[verifier::rlimit(50)]
#[verifier::spinoff_prover]
proof fn two_sections(
    lp: Seq<Seq<char>>,
    a: Seq<char>,
    lx: Seq<Seq<char>>,
    b: Seq<char>,
    ly: Seq<Seq<char>>,
    h: Seq<char>,
)
    requires
        heading_level(a) > 0,
        heading_level(b) > 0,
        forall|i: int| 0 <= i < lp.len() ==> heading_level(#[trigger] lp[i]) == 0,
        forall|i: int| 0 <= i < lx.len() ==> heading_level(#[trigger] lx[i]) == 0,
        forall|i: int| 0 <= i < ly.len() ==> heading_level(#[trigger] ly[i]) == 0,
    ensures
        ({
            let p = lp.len() as int;
            let q = p + 1 + lx.len();
            let n = q + 1 + ly.len();
            section_lines(lp + (seq![a] + (lx + (seq![b] + ly))), h) == (if is_named_heading(a, h) {
                Some((p, if heading_level(b) <= heading_level(a) { q } else { n }))
            } else if is_named_heading(b, h) {
                Some((q, n))
            } else {
                None
            })
        }),
{
    let ls = lp + (seq![a] + (lx + (seq![b] + ly)));
    let p = lp.len() as int;
    let q = p + 1 + lx.len();
    let n = q + 1 + ly.len();
    assert(ls[p] == a && ls[q] == b && ls.len() == n);
    assert forall|i: int| 0 <= i < n && i != p && i != q implies heading_level(#[trigger] ls[i]) == 0 by {
        if i < p {
            assert(ls[i] == lp[i]);
        } else if i < q {
            assert(ls[i] == lx[i - p - 1]);
        } else {
            assert(ls[i] == ly[i - q - 1]);
        }
    }
    heading_index_bounds(ls, h, 0);
    if is_named_heading(a, h) {
        heading_index_at(ls, h, 0, p);
        if heading_level(b) <= heading_level(a) {
            section_end_at(ls, heading_level(a), p + 1, q);
        } else {
            section_end_at(ls, heading_level(a), p + 1, n);
        }
    } else if is_named_heading(b, h) {
        heading_index_at(ls, h, 0, q);
        section_end_at(ls, heading_level(b), q + 1, n);
    }
}

/// The parts of lines with two headings among them.
#[verifier::rlimit(50)]
#[verifier::spinoff_prover]
proof fn parts_of_two(lp: Seq<Seq<char>>, a: Seq<char>, lx: Seq<Seq<char>>, b: Seq<char>, ly: Seq<Seq<char>>)
    ensures
        ({
            let ls = lp + (seq![a] + (lx + (seq![b] + ly)));
            let p = lp.len() as int;
            let q = p + 1 + lx.len();
            let n = q + 1 + ly.len();
            &&& ls.len() == n
            &&& ls.subrange(0, p + 1).flatten() == lp.flatten() + a
            &&& ls.subrange(p + 1, q).flatten() == lx.flatten()
            &&& ls.subrange(q, n).flatten() == b + ly.flatten()
            &&& ls.subrange(p + 1, n).flatten() == lx.flatten() + (b + ly.flatten())
            &&& ls.subrange(0, q + 1).flatten() == lp.flatten() + (a + (lx.flatten() + b))
            &&& ls.subrange(q + 1, n).flatten() == ly.flatten()
            &&& ls.subrange(n, n).flatten() == Seq::<char>::empty()
        }),
{
    let ls = lp + (seq![a] + (lx + (seq![b] + ly)));
    let p = lp.len() as int;
    let q = p + 1 + lx.len();
    let n = q + 1 + ly.len();
    seq![a].lemma_flatten_one_element();
    seq![b].lemma_flatten_one_element();
    assert(ls.subrange(0, p + 1) =~= lp + seq![a]);
    flatten_concat(lp, seq![a]);
    assert(ls.subrange(p + 1, q) =~= lx);
    assert(ls.subrange(q, n) =~= seq![b] + ly);
    flatten_concat(seq![b], ly);
    assert(ls.subrange(p + 1, n) =~= lx + (seq![b] + ly));
    flatten_concat(lx, seq![b] + ly);
    assert(ls.subrange(0, q + 1) =~= lp + (seq![a] + (lx + seq![b])));
    flatten_concat(lp, seq![a] + (lx + seq![b]));
    flatten_concat(seq![a], lx + seq![b]);
    flatten_concat(lx, seq![b]);
    assert(ls.subrange(q + 1, n) =~= ly);
    assert(ls.subrange(n, n) =~= Seq::<Seq<char>>::empty());
    assert(ls.subrange(n, n).flatten() =~= Seq::<char>::empty());
}

/// A patch takes the place of a section, or stands before it, or after it without the line
/// feeds that end it; and what is around the section stays.
#[verifier::rlimit(50)]
#[verifier::spinoff_prover]
pub proof fn patches_change_the_section(
    content: Seq<char>,
    h: Seq<char>,
    before: Seq<char>,
    s: Seq<char>,
    feeds: nat,
    after: Seq<char>,
    patch: Seq<char>,
)
    requires
        around_section(content, h) == Some((before, s + Seq::new(feeds, |i: int| '\n'), after)),
        s.len() > 0 ==> s.last() != '\n',
    ensures
        patched_heading(content, h, "replace"@, patch) == Ok::<Seq<char>, ErrorView>(before + patch + after),
        patched_heading(content, h, "prepend"@, patch) == Ok::<Seq<char>, ErrorView>(
            before + (patch + seq!['\n'] + (s + Seq::new(feeds, |i: int| '\n'))) + after,
        ),
        patched_heading(content, h, "append"@, patch) == Ok::<Seq<char>, ErrorView>(
            before + (s + seq!['\n'] + patch) + after,
        ),
{
    let nls = Seq::new(feeds, |i: int| '\n');
    let k = Chars::In(seq!['\n']);
    reveal_strlit("replace");
    reveal_strlit("append");
    reveal_strlit("prepend");
    reveal_strlit("\n");
    assert("replace"@[0] == 'r' && "append"@[0] == 'a' && "prepend"@[0] == 'p');
    assert("\n"@ =~= seq!['\n']);
    assert(seq!['\n'][0] == '\n');
    assert forall|i: int| 0 <= i < nls.len() implies k.has(#[trigger] nls[i]) by {}
    if s.len() > 0 {
        assert(!k.has(s.last())) by {
            if seq!['\n'].contains(s.last()) {
                let i = choose|i: int| 0 <= i < 1 && seq!['\n'][i] == s.last();
            }
        }
    }
    text::back_is_trimmed(s, nls, k);
}

/// Where there is no section a patch is refused, and so is an operation that is none of the
/// three.
pub proof fn other_patches_are_refused(content: Seq<char>, h: Seq<char>, operation: Seq<char>, patch: Seq<char>)
    ensures
        around_section(content, h) is None ==> patched_heading(content, h, operation, patch) == Err::<Seq<char>, ErrorView>(
            ErrorView::Other("heading not found: "@ + h),
        ),
        around_section(content, h) is Some && operation != "replace"@ && operation != "append"@ && operation != "prepend"@
            ==> patched_heading(content, h, operation, patch) == Err::<Seq<char>, ErrorView>(
            ErrorView::Other("unknown operation: "@ + operation),
        ),
{
}

// ── Tags in a text ────────────────────────────────────────────────────────────

proof fn run_is_taken(w: Seq<char>, b: Seq<char>)
    requires
        forall|i: int| 0 <= i < w.len() ==> is_tag_char(#[trigger] w[i]),
        b.len() > 0 ==> !is_tag_char(b[0]),
    ensures
        tag_run(w + b) == w,
    decreases w.len(),
{
    if w.len() == 0 {
        assert(w + b =~= b);
        assert(tag_run(b) =~= w);
    } else {
        assert((w + b)[0] == w[0]);
        assert((w + b).drop_first() =~= w.drop_first() + b);
        assert forall|i: int| 0 <= i < w.drop_first().len() implies is_tag_char(#[trigger] w.drop_first()[i]) by {
            assert(w.drop_first()[i] == w[i + 1]);
        }
        run_is_taken(w.drop_first(), b);
        assert(seq![w[0]] + w.drop_first() =~= w);
    }
}

/// A number sign and a letter of ASCII start a tag, which reaches as far as letters and
/// digits of ASCII, slashes, underscores and hyphens do; and it goes on behind the tag.
pub proof fn tags_reach_to_their_end(a: Seq<char>, w: Seq<char>, b: Seq<char>)
    requires
        forall|i: int| 0 <= i < a.len() ==> a[i] != '#',
        w.len() > 0,
        'a' <= w[0] <= 'z' || 'A' <= w[0] <= 'Z',
        forall|i: int|
            0 <= i < w.len() ==> {
                let c = #[trigger] w[i];
                'a' <= c <= 'z' || 'A' <= c <= 'Z' || '0' <= c <= '9' || c == '/' || c == '_' || c == '-'
            },
        b.len() > 0 ==> {
            let c = b[0];
            !('a' <= c <= 'z' || 'A' <= c <= 'Z' || '0' <= c <= '9' || c == '/' || c == '_' || c == '-')
        },
    ensures
        inline_tags(a + seq!['#'] + w + b) == seq![w] + inline_tags(b),
    decreases a.len(),
{
    let s = a + seq!['#'] + w + b;
    if a.len() == 0 {
        assert(s[0] == '#' && s[1] == w[0]);
        assert(s.drop_first() =~= w + b);
        run_is_taken(w, b);
        assert(s.skip(1 + w.len() as int) =~= b);
    } else {
        assert(s[0] == a[0]);
        assert(s.drop_first() =~= a.drop_first() + seq!['#'] + w + b);
        assert forall|i: int| 0 <= i < a.drop_first().len() implies a.drop_first()[i] != '#' by {
            assert(a.drop_first()[i] == a[i + 1]);
        }
        tags_reach_to_their_end(a.drop_first(), w, b);
    }
}

/// Without a number sign there is no tag, and a number sign without a letter of ASCII behind
/// it starts none.
pub proof fn other_text_has_no_tags(a: Seq<char>, b: Seq<char>)
    requires
        forall|i: int| 0 <= i < a.len() ==> a[i] != '#',
        b.len() > 0 ==> !('a' <= b[0] <= 'z' || 'A' <= b[0] <= 'Z'),
    ensures
        inline_tags(a) == Seq::<Seq<char>>::empty(),
        inline_tags(a + seq!['#'] + b) == inline_tags(b),
    decreases a.len(),
{
    let s = a + seq!['#'] + b;
    if a.len() == 0 {
        assert(s[0] == '#');
        if b.len() > 0 {
            assert(s[1] == b[0]);
            assert(s.drop_first() =~= b);
        } else {
            assert(s.len() < 2);
            assert(b =~= a);
        }
    } else {
        assert(s[0] == a[0]);
        assert(s.drop_first() =~= a.drop_first() + seq!['#'] + b);
        assert forall|i: int| 0 <= i < a.drop_first().len() implies a.drop_first()[i] != '#' by {
            assert(a.drop_first()[i] == a[i + 1]);
        }
        other_text_has_no_tags(a.drop_first(), b);
        if s.len() < 2 {
            assert(b.len() == 0);
        }
    }
}

// ── Ranges of lines ───────────────────────────────────────────────────────────

/// The answer to a request for lines `first` to `last` of a text.
pub open spec fn lines_between(content: Seq<char>, first: int, last: int) -> Seq<char> {
    text::joined(text::lines_of(content).subrange(first - 1, last), seq!['\n'])
}

/// Where a range of lines is read, the answer starts with its lines, and line feeds between
/// them: from the line that is asked for, or the first, up to the line that is asked for or
/// the last one, whichever comes first.
pub proof fn ranges_hold_their_lines(content: Seq<char>, start: Option<u64>, end: Option<u64>)
    requires
        start is Some || end is Some,
        line_range(content, start, end) is Ok,
    ensures
        ({
            let total = text::lines_of(content).len() as int;
            let first = if start is Some { start->0 as int } else { 1 };
            let last = if end is Some && end->0 <= total { end->0 as int } else { total };
            let note = "\n\n[Lines "@ + text::decimal(first as nat) + "–"@ + text::decimal(last as nat) + " of "@
                + text::decimal(total as nat) + " total]"@;
            &&& 1 <= first <= last <= total
            &&& line_range(content, start, end)->Ok_0 == lines_between(content, first, last) + note
        }),
{
    reveal_strlit("\n");
    assert("\n"@ =~= seq!['\n']);
    let total = text::lines_of(content).len() as int;
    let first = if start is Some { start->0 as int } else { 1 };
    let last = if end is Some && end->0 <= total { end->0 as int } else { total };
    let r = line_range(content, start, end)->Ok_0;
    assert(r =~= lines_between(content, first, last) + ("\n\n[Lines "@ + text::decimal(first as nat) + "–"@ + text::decimal(
        last as nat,
    ) + " of "@ + text::decimal(total as nat) + " total]"@));
}

/// A range without an end goes to the last line, one without a start begins at the first,
/// and a text that is asked for without a range is answered as it is.
pub proof fn open_ranges_reach_the_ends(content: Seq<char>, start: Option<u64>, end: u64)
    requires
        text::lines_of(content).len() <= u64::MAX,
    ensures
        start is Some ==> line_range(content, start, None) == line_range(
            content,
            start,
            Some(text::lines_of(content).len() as u64),
        ),
        line_range(content, None, Some(end)) == line_range(content, Some(1), Some(end)),
        line_range(content, None, None) == Ok::<Seq<char>, ErrorView>(content),
{
}

/// A range is read where it starts with one of the lines, does not end before it starts, and
/// spans no more lines than may be read at once.
pub proof fn good_ranges_are_read(content: Seq<char>, start: u64, end: u64)
    ensures
        line_range(content, Some(start), Some(end)) is Ok <==> 1 <= start <= end && end - start < 500 && start
            <= text::lines_of(content).len(),
{
}

// ── Keys, headings and titles ─────────────────────────────────────────────────

/// A line sets the key that stands before its first colon, white space around it aside:
/// a letter or an underscore, and then letters, digits, underscores and hyphens. Anything
/// else before the colon is no key, and a line without a colon sets none.
pub proof fn lines_set_keys(w1: Seq<char>, k: Seq<char>, w2: Seq<char>, v: Seq<char>)
    requires
        all_white(w1),
        all_white(w2),
        is_close(k),
        forall|i: int| 0 <= i < k.len() ==> k[i] != ':',
    ensures
        key_of(w1 + k + w2) is None,
        ({
            let is_name = k.len() > 0 && (text::is_alpha(k[0]) || k[0] == '_') && forall|i: int|
                0 <= i < k.len() ==> text::is_alnum(#[trigger] k[i]) || k[i] == '_' || k[i] == '-';
            key_of(w1 + k + w2 + seq![':'] + v) == (if is_name { Some(k) } else { None })
        }),
{
    let a = w1 + k + w2;
    assert forall|i: int| 0 <= i < a.len() implies a[i] != ':' by {
        if i < w1.len() {
            assert(text::is_white(w1[i]));
        } else if i < w1.len() + k.len() {
            assert(a[i] == k[i - w1.len()]);
        } else {
            assert(a[i] == w2[i - w1.len() - k.len()]);
            assert(text::is_white(a[i]));
        }
    }
    text::texts_are_split(a, ':', v);
    colon_is_found(a, v);
    text::surroundings_are_trimmed(w1, k, w2, Chars::White);
    assert((a + seq![':'] + v).take(a.len() as int) =~= a);
}

proof fn colon_is_found(a: Seq<char>, v: Seq<char>)
    requires
        forall|i: int| 0 <= i < a.len() ==> a[i] != ':',
    ensures
        text::find_sub(a + seq![':'] + v, seq![':']) == Some(a.len() as int),
        text::find_sub(a, seq![':']) is None,
    decreases a.len(),
{
    let s = a + seq![':'] + v;
    let p = seq![':'];
    if a.len() == 0 {
        assert(s.subrange(0, 1) =~= p);
    } else {
        assert(p[0] == ':' && s[0] == a[0]);
        assert(s.subrange(0, 1)[0] == s[0]);
        assert(a.subrange(0, 1)[0] == a[0]);
        assert(s.drop_first() =~= a.drop_first() + seq![':'] + v);
        assert forall|i: int| 0 <= i < a.drop_first().len() implies a.drop_first()[i] != ':' by {
            assert(a.drop_first()[i] == a[i + 1]);
        }
        colon_is_found(a.drop_first(), v);
    }
}

proof fn rule_index_behind(x: Seq<char>, ls: Seq<Seq<char>>, from: int)
    requires
        from >= 0,
    ensures
        rule_index(seq![x] + ls, from + 1) == rule_index(ls, from) + 1,
    decreases ls.len() - from,
{
    let all = seq![x] + ls;
    if from < ls.len() {
        assert(all[from + 1] == ls[from]);
        rule_index_behind(x, ls, from + 1);
    }
}

proof fn rule_index_in_range(ls: Seq<Seq<char>>, from: int)
    requires
        0 <= from <= ls.len(),
    ensures
        from <= rule_index(ls, from) <= ls.len(),
        rule_index(ls, from) < ls.len() ==> text::trimmed(ls[rule_index(ls, from)]) == "---"@,
        forall|i: int| from <= i < rule_index(ls, from) ==> text::trimmed(#[trigger] ls[i]) != "---"@,
    decreases ls.len() - from,
{
    if from < ls.len() && text::trimmed(ls[from]) != "---"@ {
        rule_index_in_range(ls, from + 1);
    }
}

proof fn keys_from_the_front(x: Seq<char>, ls: Seq<Seq<char>>)
    ensures
        keys_of(seq![x] + ls) == (match key_of(x) {
            Some(k) => seq![k],
            None => Seq::<Seq<char>>::empty(),
        }) + keys_of(ls),
    decreases ls.len(),
{
    let all = seq![x] + ls;
    let first = match key_of(x) {
        Some(k) => seq![k],
        None => Seq::<Seq<char>>::empty(),
    };
    if ls.len() == 0 {
        reveal_with_fuel(keys_of, 2);
        assert(all.drop_last() =~= Seq::<Seq<char>>::empty());
        assert(all.last() == x);
        assert(keys_of(ls) =~= Seq::<Seq<char>>::empty());
        assert(keys_of(all) =~= first + keys_of(ls));
    } else {
        assert(all.last() == ls.last());
        assert(all.drop_last() =~= seq![x] + ls.drop_last());
        keys_from_the_front(x, ls.drop_last());
        assert(keys_of(all) =~= first + keys_of(ls));
    }
}

/// A line of three dashes.
pub open spec fn dashes() -> Seq<char> {
    seq!['-', '-', '-', '\n']
}

proof fn dashes_come_first(rest: Seq<char>)
    ensures
        text::lines_of(dashes() + rest) == seq![seq!['-', '-', '-']] + text::lines_of(rest),
        text::trimmed(seq!['-', '-', '-']) == "---"@,
        rule_index(text::lines_of(dashes() + rest), 0) == 0,
{
    let l = seq!['-', '-', '-'];
    reveal_strlit("---");
    assert("---"@ =~= l);
    text::texts_have_lines(l, rest);
    assert(l + seq!['\n'] + rest =~= dashes() + rest);
    text::nothing_to_trim(l, Chars::White);
    assert(text::lines_of(dashes() + rest)[0] == l);
}

/// The keys of a note are those of the lines between its first rule and the next: each line
/// there adds the key that it sets, the next rule ends them, and lines before the first rule
/// add none.
#[verifier::rlimit(50)]
#[verifier::spinoff_prover]
pub proof fn keys_are_those_of_the_lines(l: Seq<char>, rest: Seq<char>)
    requires
        forall|i: int| 0 <= i < l.len() ==> l[i] != '\n',
        l.len() > 0 ==> l.last() != '\r',
    ensures
        text::trimmed(l) != "---"@ ==> {
            &&& frontmatter_keys(dashes() + (l + seq!['\n'] + rest)) == (match key_of(l) {
                Some(k) => seq![k],
                None => Seq::<Seq<char>>::empty(),
            }) + frontmatter_keys(dashes() + rest)
            &&& frontmatter_keys(l + seq!['\n'] + rest) == frontmatter_keys(rest)
        },
        text::trimmed(l) == "---"@ ==> frontmatter_keys(dashes() + (l + seq!['\n'] + rest)) == Seq::<Seq<char>>::empty(),
        frontmatter_keys(dashes()) == Seq::<Seq<char>>::empty(),
        frontmatter_keys(l) == Seq::<Seq<char>>::empty(),
{
    let d = seq!['-', '-', '-'];
    let more = l + seq!['\n'] + rest;
    let lr = text::lines_of(rest);
    let none = Seq::<Seq<char>>::empty();
    dashes_come_first(more);
    dashes_come_first(rest);
    dashes_come_first(Seq::empty());
    text::texts_have_lines(l, rest);
    text::texts_have_lines(Seq::empty(), rest);
    assert(dashes() + Seq::<char>::empty() =~= dashes());
    let lm = seq![l] + lr;
    assert(text::lines_of(more) == lm);
    let all = seq![d] + lm;
    let short = seq![d] + lr;
    rule_index_behind(d, lm, 0);
    rule_index_behind(d, lr, 0);
    rule_index_in_range(lm, 0);
    rule_index_in_range(lr, 0);
    assert(lm[0] == l);
    if text::trimmed(l) != "---"@ {
        rule_index_behind(l, lr, 0);
        assert(rule_index(lm, 0) == rule_index(lm, 1));
        let e = rule_index(lr, 0);
        assert(all.subrange(1, e + 2) =~= seq![l] + lr.subrange(0, e));
        assert(short.subrange(1, e + 1) =~= lr.subrange(0, e));
        keys_from_the_front(l, lr.subrange(0, e));
        if e < lr.len() {
            rule_index_behind(l, lr, e + 1);
            rule_index_in_range(lr, e + 1);
            let f = rule_index(lr, e + 1);
            assert(lm.subrange(e + 2, f + 1) =~= lr.subrange(e + 1, f));
        }
    } else {
        assert(all.subrange(1, 1) =~= none);
    }
    assert((seq![d] + text::lines_of(Seq::<char>::empty())).subrange(1, 1) =~= none);
    let one = seq![d];
    assert(text::lines_of(dashes()) =~= one);
    assert(rule_index(one, 1) == 1);
    assert(one.subrange(1, 1) =~= none);
    let ll = text::lines_of(l);
    if l.len() > 0 {
        assert(ll =~= seq![l]);
        if text::trimmed(l) == "---"@ {
            assert(rule_index(ll, 0) == 0);
            assert(rule_index(ll, 1) == 1);
            assert(ll.subrange(1, 1) =~= none);
        } else {
            assert(rule_index(ll, 0) == rule_index(ll, 1));
        }
    } else {
        assert(ll =~= none);
    }
}

proof fn level_of_six(n: nat, w1: Seq<char>, t: Seq<char>, w2: Seq<char>)
    requires
        all_white(w1),
        all_white(w2),
        is_close(t),
    ensures
        after_hashes(section_line(n, w1, t, w2)) == seq![' '] + w1 + t + w2,
        text::trimmed(seq![' '] + w1 + t + w2) == t,
{
    let rest = seq![' '] + w1 + t + w2;
    assert(section_line(n, w1, t, w2) =~= hashes(n) + rest);
    assert(rest[0] == ' ');
    hashes_are_taken(n, rest);
    let a = seq![' '] + w1;
    assert forall|i: int| 0 <= i < a.len() implies text::is_white(#[trigger] a[i]) by {
        if i > 0 {
            assert(a[i] == w1[i - 1]);
        }
    }
    text::surroundings_are_trimmed(a, t, w2, Chars::White);
}

proof fn headings_up_to(ls: Seq<Seq<char>>, n: int)
    requires
        0 <= n <= ls.len(),
    ensures
        forall|k: int|
            0 <= k < headings_of(ls, n).len() ==> {
                let h = #[trigger] headings_of(ls, n)[k];
                &&& 1 <= h.line <= n
                &&& outside_frontmatter(ls, h.line - 1)
                &&& heading_at(ls, h.line - 1) == Some(h)
            },
        forall|j: int, k: int|
            0 <= j < k < headings_of(ls, n).len() ==> (#[trigger] headings_of(ls, n)[j]).line < (
            #[trigger] headings_of(ls, n)[k]).line,
        forall|i: int|
            0 <= i < n && outside_frontmatter(ls, i) && (#[trigger] heading_at(ls, i)) is Some ==> headings_of(
                ls,
                n,
            ).contains(heading_at(ls, i)->0),
    decreases n,
{
    if n > 0 {
        headings_up_to(ls, n - 1);
        let before = headings_of(ls, n - 1);
        let all = headings_of(ls, n);
        assert forall|i: int| 0 <= i < n && outside_frontmatter(ls, i) && (#[trigger] heading_at(ls, i)) is Some implies all.contains(
            heading_at(ls, i)->0,
        ) by {
            if i < n - 1 {
                let k = choose|k: int| 0 <= k < before.len() && before[k] == heading_at(ls, i)->0;
                assert(all[k] == before[k]);
            } else {
                assert(all[before.len() as int] == heading_at(ls, i)->0);
            }
        }
    }
}

/// Every line of one to six number signs and a space is listed as a heading, with its level,
/// its text and its number, unless it stands in the frontmatter: between the first rule,
/// `open`, and the next, `close`. Lines before the first rule are outside of it.
#[verifier::rlimit(50)]
#[verifier::spinoff_prover]
pub proof fn headings_are_listed(
    content: Seq<char>,
    i: int,
    n: nat,
    w1: Seq<char>,
    t: Seq<char>,
    w2: Seq<char>,
    open: int,
    close: int,
)
    requires
        0 <= i < text::lines_of(content).len(),
        text::lines_of(content)[i] == section_line(n, w1, t, w2),
        1 <= n <= 6,
        all_white(w1),
        all_white(w2),
        is_close(t),
        ({
            let ls = text::lines_of(content);
            ||| forall|j: int| 0 <= j <= i ==> text::trimmed(#[trigger] ls[j]) != "---"@
            ||| {
                &&& 0 <= open < close < i
                &&& text::trimmed(ls[open]) == "---"@
                &&& text::trimmed(ls[close]) == "---"@
            }
        }),
    ensures
        note_headings(content).contains(HeadingView { level: n, text: t, line: (i + 1) as nat }),
{
    let ls = text::lines_of(content);
    headings_up_to(ls, ls.len() as int);
    level_of_six(n, w1, t, w2);
    assert(ls[i].len() == n + 1 + w1.len() + t.len() + w2.len());
    rule_index_in_range(ls, 0);
    let a = rule_index(ls, 0);
    if a <= i {
        rule_index_in_range(ls, a + 1);
        assert(text::trimmed(ls[a]) == "---"@);
        assert(rule_index(ls, a + 1) <= close);
    }
    assert(heading_at(ls, i) == Some(HeadingView { level: n, text: t, line: (i + 1) as nat }));
}

/// What is listed as a heading is a line of one to six number signs and a space, outside the
/// frontmatter, and comes in the order of the lines.
#[verifier::rlimit(50)]
#[verifier::spinoff_prover]
pub proof fn listed_headings_are_lines(content: Seq<char>, k: int, open: int, close: int)
    requires
        0 <= k < note_headings(content).len(),
    ensures
        ({
            let ls = text::lines_of(content);
            let h = note_headings(content)[k];
            &&& 1 <= h.level <= 6
            &&& 1 <= h.line <= ls.len()
            &&& ls[h.line - 1].len() > h.level
            &&& forall|j: int| 0 <= j < h.level ==> #[trigger] ls[h.line - 1][j] == '#'
            &&& ls[h.line - 1][h.level as int] == ' '
            &&& forall|j: int| 0 <= j < k ==> (#[trigger] note_headings(content)[j]).line < h.line
            &&& 0 <= open < close < ls.len() && text::trimmed(ls[open]) == "---"@ && text::trimmed(ls[close]) == "---"@ && (
            forall|j: int| 0 <= j < close && j != open ==> text::trimmed(#[trigger] ls[j]) != "---"@) ==> h.line - 1
                < open || h.line - 1 > close
        }),
{
    let ls = text::lines_of(content);
    headings_up_to(ls, ls.len() as int);
    let h = note_headings(content)[k];
    let line = ls[h.line - 1];
    let n = hashes_counted(line);
    assert(line.skip(n)[0] == line[n]);
    rule_index_in_range(ls, 0);
    let a = rule_index(ls, 0);
    if 0 <= open < close < ls.len() && text::trimmed(ls[open]) == "---"@ && text::trimmed(ls[close]) == "---"@ && (
    forall|j: int| 0 <= j < close && j != open ==> text::trimmed(#[trigger] ls[j]) != "---"@) {
        assert(a == open);
        rule_index_in_range(ls, a + 1);
        assert(rule_index(ls, a + 1) == close);
    }
}

proof fn hashes_counted(s: Seq<char>) -> (n: int)
    ensures
        0 <= n <= s.len(),
        after_hashes(s) == s.skip(n),
        forall|j: int| 0 <= j < n ==> #[trigger] s[j] == '#',
    decreases s.len(),
{
    let k = Chars::In(seq!['#']);
    if s.len() > 0 && k.has(s[0]) {
        assert(s[0] == '#') by {
            let i = choose|i: int| 0 <= i < 1 && seq!['#'][i] == s[0];
        }
        let rest = s.drop_first();
        let n = hashes_counted(rest);
        assert(rest.skip(n) =~= s.skip(n + 1));
        assert forall|j: int| 0 <= j < n + 1 implies #[trigger] s[j] == '#' by {
            if j > 0 {
                assert(s[j] == rest[j - 1]);
            }
        }
        n + 1
    } else {
        assert(s.skip(0) =~= s);
        0
    }
}

proof fn one_of_set(c: char, d: char)
    ensures
        Chars::In(seq![c]).has(d) == (c == d),
{
    assert(seq![c][0] == c);
    if seq![c].contains(d) {
        let i = choose|i: int| 0 <= i < 1 && seq![c][i] == d;
    }
}

/// A title is what a line has behind `title:`, without the white space around it, and
/// without the quotes around that: `q1` double ones, and `q2` single ones inside them.
#[verifier::rlimit(50)]
#[verifier::spinoff_prover]
pub proof fn lines_set_titles(w1: Seq<char>, q1: nat, q2: nat, t: Seq<char>, w2: Seq<char>)
    requires
        all_white(w1),
        all_white(w2),
        t.len() > 0,
        is_close(t),
        t[0] != '"' && t.last() != '"' && t[0] != '\'' && t.last() != '\'',
    ensures
        ({
            let d = Seq::new(q1, |i: int| '"');
            let s = Seq::new(q2, |i: int| '\'');
            title_of("title:"@ + (w1 + (d + (s + t + s) + d) + w2)) == Some(t)
        }),
{
    let d = Seq::new(q1, |i: int| '"');
    let s = Seq::new(q2, |i: int| '\'');
    let inner = s + t + s;
    let quoted = d + inner + d;
    let behind = w1 + quoted + w2;
    let line = "title:"@ + behind;
    assert(line.subrange(0, "title:"@.len() as int) =~= "title:"@);
    assert(line.skip("title:"@.len() as int) =~= behind);
    assert(inner[0] == (if q2 > 0 { '\'' } else { t[0] }));
    assert(inner.last() == (if q2 > 0 { '\'' } else { t.last() }));
    assert(quoted[0] == (if q1 > 0 { '"' } else { inner[0] }));
    assert(quoted.last() == (if q1 > 0 { '"' } else { inner.last() }));
    text::surroundings_are_trimmed(w1, quoted, w2, Chars::White);
    let kd = Chars::In(seq!['"']);
    let ks = Chars::In(seq!['\'']);
    one_of_set('"', '"');
    one_of_set('"', inner[0]);
    one_of_set('"', inner.last());
    one_of_set('\'', '\'');
    one_of_set('\'', t[0]);
    one_of_set('\'', t.last());
    assert forall|i: int| 0 <= i < d.len() implies kd.has(#[trigger] d[i]) by {}
    assert forall|i: int| 0 <= i < s.len() implies ks.has(#[trigger] s[i]) by {}
    text::surroundings_are_trimmed(d, inner, d, kd);
    text::surroundings_are_trimmed(s, t, s, ks);
}

proof fn title_from_text(s: Seq<char>)
    ensures
        note_title(encode_utf8(s)) == ({
            let ls = text::lines_of(s);
            let a = rule_index(ls, 0);
            if "---"@.is_prefix_of(s) && a < ls.len() {
                first_title(ls, a + 1, rule_index(ls, a + 1))
            } else {
                None
            }
        }),
{
    let raw = encode_utf8(s);
    vstd::utf8::encode_utf8_valid_utf8(s);
    vstd::utf8::encode_utf8_decode_utf8(s);
    assert(raw.take(raw.len() as int) =~= raw);
}

proof fn first_title_behind(x: Seq<char>, ls: Seq<Seq<char>>, from: int, to: int)
    requires
        from >= 0,
    ensures
        first_title(seq![x] + ls, from + 1, to + 1) == first_title(ls, from, to),
    decreases to - from,
{
    if from < to && from < ls.len() {
        assert((seq![x] + ls)[from + 1] == ls[from]);
        first_title_behind(x, ls, from + 1, to);
    }
}

/// The title of a note is that of the first line of its frontmatter that sets one; the next
/// rule ends the frontmatter, and a note that does not start with three dashes has none.
#[verifier::rlimit(50)]
#[verifier::spinoff_prover]
pub proof fn titles_are_those_of_the_lines(l: Seq<char>, rest: Seq<char>)
    requires
        forall|i: int| 0 <= i < l.len() ==> l[i] != '\n',
        l.len() > 0 ==> l.last() != '\r',
    ensures
        note_title(encode_utf8(dashes() + (l + seq!['\n'] + rest))) == (if text::trimmed(l) == "---"@ {
            None
        } else if title_of(l) is Some {
            title_of(l)
        } else {
            note_title(encode_utf8(dashes() + rest))
        }),
        !"---"@.is_prefix_of(rest) ==> note_title(encode_utf8(rest)) is None,
{
    let d = seq!['-', '-', '-'];
    let more = l + seq!['\n'] + rest;
    let lr = text::lines_of(rest);
    let lm = seq![l] + lr;
    reveal_strlit("---");
    title_from_text(dashes() + more);
    title_from_text(dashes() + rest);
    title_from_text(rest);
    dashes_come_first(more);
    dashes_come_first(rest);
    text::texts_have_lines(l, rest);
    assert((dashes() + more).subrange(0, 3) =~= "---"@);
    assert((dashes() + rest).subrange(0, 3) =~= "---"@);
    let all = seq![d] + lm;
    rule_index_behind(d, lm, 0);
    rule_index_behind(d, lr, 0);
    rule_index_in_range(lr, 0);
    assert(lm[0] == l && all[1] == l);
    if text::trimmed(l) != "---"@ {
        rule_index_behind(l, lr, 0);
        let e = rule_index(lr, 0);
        assert(rule_index(lm, 0) == e + 1);
        first_title_behind(d, lm, 1, e + 1);
        first_title_behind(l, lr, 0, e);
        first_title_behind(d, lr, 0, e);
    }
}

/// What a piece of a list of tags adds to it.
proof fn pieces_are_kept(t: Seq<char>)
    ensures
        not_empty(seq![t]) == (if t.len() > 0 { seq![t] } else { Seq::<Seq<char>>::empty() }),
{
    reveal_with_fuel(Seq::filter, 2);
    assert(seq![t].drop_last() =~= Seq::<Seq<char>>::empty());
    assert(seq![t].last() == t);
    assert(not_empty(seq![t]) =~= (if t.len() > 0 { seq![t] } else { Seq::<Seq<char>>::empty() }));
}

/// The tags in a text of the frontmatter are what stands between the commas, without the
/// white space around it, where that is not all there is: the first piece is `w1`, `t` and
/// `w2`, and `rest` stands behind the first comma.
#[verifier::rlimit(50)]
#[verifier::spinoff_prover]
pub proof fn tags_stand_between_commas(
    all: Tree,
    first: Tree,
    others: Tree,
    w1: Seq<char>,
    t: Seq<char>,
    w2: Seq<char>,
    rest: Seq<char>,
)
    requires
        all_white(w1),
        all_white(w2),
        is_close(t),
        forall|i: int| 0 <= i < t.len() ==> t[i] != ',',
        all.field("tags"@) == Tree::Text(w1 + t + w2 + seq![','] + rest),
        first.field("tags"@) == Tree::Text(w1 + t + w2),
        others.field("tags"@) == Tree::Text(rest),
    ensures
        frontmatter_tags(first) == (if t.len() > 0 { seq![t] } else { Seq::<Seq<char>>::empty() }),
        frontmatter_tags(all) == frontmatter_tags(first) + frontmatter_tags(others),
{
    let a = w1 + t + w2;
    assert forall|i: int| 0 <= i < a.len() implies a[i] != ',' by {
        if i < w1.len() {
            assert(text::is_white(w1[i]));
        } else if i < w1.len() + t.len() {
            assert(a[i] == t[i - w1.len()]);
        } else {
            assert(a[i] == w2[i - w1.len() - t.len()]);
            assert(text::is_white(a[i]));
        }
    }
    text::texts_are_split(a, ',', rest);
    text::surroundings_are_trimmed(w1, t, w2, Chars::White);
    pieces_are_kept(t);
    let f = |x: Seq<char>| text::trimmed(x);
    let one = seq![a].map_values(f);
    let more = text::split_on(rest, ',').map_values(f);
    assert(one =~= seq![t]);
    assert((seq![a] + text::split_on(rest, ',')).map_values(f) =~= one + more);
    Seq::filter_distributes_over_add(one, more, |x: Seq<char>| x.len() > 0);
}

/// The tags in a list of the frontmatter are its texts, without the white space around them,
/// where that is not all there is; what is no text is passed over.
pub proof fn tags_are_the_texts_of_a_list(
    all: Tree,
    others: Tree,
    items: Seq<Tree>,
    item: Tree,
    w1: Seq<char>,
    t: Seq<char>,
    w2: Seq<char>,
)
    requires
        all_white(w1),
        all_white(w2),
        is_close(t),
        all.field("tags"@) == Tree::Array(items.push(item)),
        others.field("tags"@) == Tree::Array(items),
    ensures
        item == Tree::Text(w1 + t + w2) && t.len() > 0 ==> frontmatter_tags(all) == frontmatter_tags(others).push(t),
        item == Tree::Text(w1 + t + w2) && t.len() == 0 ==> frontmatter_tags(all) == frontmatter_tags(others),
        !(item is Text) ==> frontmatter_tags(all) == frontmatter_tags(others),
{
    text::surroundings_are_trimmed(w1, t, w2, Chars::White);
    assert(items.push(item).drop_last() =~= items);
    let before = trimmed_strings(items);
    reveal(Seq::filter);
    assert(before.push(t).drop_last() =~= before);
}

/// A frontmatter without a text or a list of tags has none, and an empty list holds none.
pub proof fn other_frontmatter_has_no_tags(fm: Tree)
    ensures
        !(fm.field("tags"@) is Text) && !(fm.field("tags"@) is Array) ==> frontmatter_tags(fm) == Seq::<Seq<char>>::empty(),
        fm.field("tags"@) == Tree::Array(seq![]) ==> frontmatter_tags(fm) == Seq::<Seq<char>>::empty(),
{
    reveal(Seq::filter);
    assert(not_empty(Seq::<Seq<char>>::empty()) =~= Seq::<Seq<char>>::empty());
}

/// Of the start of a note as much is read as is text: the longest start that is valid, so that
/// a character that was cut off at the end does no harm.
pub proof fn cut_off_characters_do_no_harm(raw: Seq<u8>, n: int, m: int)
    requires
        0 <= n <= raw.len(),
    ensures
        0 <= text_prefix(raw, n) <= n,
        text_prefix(raw, n) > 0 ==> valid_utf8(raw.take(text_prefix(raw, n))),
        text_prefix(raw, n) < m <= n ==> !valid_utf8(raw.take(m)),
    decreases n,
{
    if n > 0 && !valid_utf8(raw.take(n)) {
        cut_off_characters_do_no_harm(raw, n - 1, m);
    }
}

} // verus!
