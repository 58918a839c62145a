//! Periodic notes: where the note of a day, a week, a month, a quarter or a year
//! is kept.

use std::fmt::Write;

use chrono::Datelike;
use vstd::prelude::*;

use crate::error::AppError;
use crate::error::ErrorView;
use crate::json::{Json, Tree};
use crate::text;
use crate::text::Chars;

verus! {

// ── Dates ─────────────────────────────────────────────────────────────────────

/// A day of the calendar.
#[derive(Clone, Copy, Debug, PartialEq, Eq, Structural)]
pub struct Date {
    pub year: i32,
    pub month: u32,
    pub day: u32,
}

/// The text of a day in a format of `chrono`; `None` where there is no such day or
/// the format asks for what a day does not have.
pub uninterp spec fn chrono_text(year: i32, month: u32, day: u32, fmt: Seq<char>) -> Option<Seq<char>>;

/// The day that a text of the form year-month-day denotes, or the message of the
/// error.
pub uninterp spec fn parsed_date(s: Seq<char>) -> Result<Date, Seq<char>>;

/// Calls `NaiveDate::format` on the day and writes the result to a string. The
/// text is a function of the day and the format.
#[verifier::external_body]
fn format_chrono(date: Date, fmt: &str) -> (r: Option<String>)
    ensures
        match r {
            Some(s) => chrono_text(date.year, date.month, date.day, fmt@) == Some(s@),
            None => chrono_text(date.year, date.month, date.day, fmt@) is None,
        },
{
    let day = chrono::NaiveDate::from_ymd_opt(date.year, date.month, date.day)?;
    let mut out = String::new();
    write!(out, "{}", day.format(fmt)).ok()?;
    Some(out)
}

/// Calls `NaiveDate::parse_from_str` with the format year-month-day. The day, or
/// the message of the error, is a function of the text; months count from 1 to 12.
#[verifier::external_body]
fn parse_chrono(s: &str) -> (r: Result<Date, String>)
    ensures
        match r {
            Ok(d) => parsed_date(s@) == Ok::<Date, Seq<char>>(d) && 1 <= d.month <= 12,
            Err(e) => parsed_date(s@) == Err::<Date, Seq<char>>(e@),
        },
{
    match chrono::NaiveDate::parse_from_str(s, "%Y-%m-%d") {
        Ok(d) => Ok(Date { year: d.year(), month: d.month(), day: d.day() }),
        Err(e) => Err(e.to_string()),
    }
}

/// Calls `chrono::Local::now` and takes its day. Which day it is depends on the
/// clock; its month counts from 1 to 12.
#[verifier::external_body]
fn today() -> (r: Date)
    ensures
        1 <= r.month <= 12,
{
    let d = chrono::Local::now().date_naive();
    Date { year: d.year(), month: d.month(), day: d.day() }
}

/// The day that a text denotes, or the error that is told to the user.
pub open spec fn date_of(s: Seq<char>) -> Result<Date, ErrorView> {
    match parsed_date(s) {
        Ok(d) => Ok(d),
        Err(e) => Err(ErrorView::Other("invalid date '"@ + s + "': "@ + e)),
    }
}

/// The day that is asked for: the one given, or today.
pub fn requested_date(date: Option<String>) -> (r: Result<Date, AppError>)
    ensures
        match r {
            Ok(d) => 1 <= d.month <= 12 && (date matches Some(s) ==> date_of(s@) == Ok::<Date, ErrorView>(d)),
            Err(e) => date matches Some(s) && date_of(s@) == Err::<Date, ErrorView>(e@),
        },
{
    match date {
        Some(s) => match parse_chrono(&s) {
            Ok(d) => Ok(d),
            Err(e) => {
                let mut msg = text::cat3("invalid date '", &s, "': ");
                msg.append(&e);
                Err(AppError::Other(msg))
            },
        },
        None => Ok(today()),
    }
}

// ── Formats ───────────────────────────────────────────────────────────────────

/// A MomentJS format as a `chrono` format.
pub open spec fn moment_as_chrono(fmt: Seq<char>) -> Seq<char> {
    let a = text::replaced(fmt, "YYYY"@, "%Y"@);
    let b = text::replaced(a, "MM"@, "%m"@);
    let c = text::replaced(b, "DD"@, "%d"@);
    let d = text::replaced(c, "WW"@, "%W"@);
    let e = text::replaced(d, "ww"@, "%U"@);
    text::replaced(e, "ddd"@, "%a"@)
}

/// Translates a MomentJS format to a `chrono` format. Quarters are not handled.
pub fn momentjs_to_chrono(fmt: &str) -> (r: String)
    ensures
        r@ == moment_as_chrono(fmt@),
{
    proof {
        reveal_strlit("YYYY");
        reveal_strlit("MM");
        reveal_strlit("DD");
        reveal_strlit("WW");
        reveal_strlit("ww");
        reveal_strlit("ddd");
    }
    let a = text::replace(fmt, "YYYY", "%Y");
    let b = text::replace(&a, "MM", "%m");
    let c = text::replace(&b, "DD", "%d");
    let d = text::replace(&c, "WW", "%W");
    let e = text::replace(&d, "ww", "%U");
    text::replace(&e, "ddd", "%a")
}

/// The quarter of a month, both counted from 1.
pub fn quarter_from_month(month: u32) -> (r: u32)
    requires
        month >= 1,
    ensures
        r == (month - 1) / 3 + 1,
{
    (month - 1) / 3 + 1
}

/// A MomentJS format with the quarter of `month` in the place of its tokens.
pub open spec fn with_quarter(fmt: Seq<char>, month: u32) -> Seq<char> {
    if text::has_sub(fmt, "Q"@) {
        let q = text::decimal(((month - 1) / 3 + 1) as nat);
        text::replaced(text::replaced(fmt, "[Q]Q"@, q), "Q"@, q)
    } else {
        fmt
    }
}

/// The text of a day in a MomentJS format; `None` where there is no such day or
/// the format asks for what a day does not have.
pub open spec fn moment_text(date: Date, fmt: Seq<char>) -> Option<Seq<char>> {
    chrono_text(date.year, date.month, date.day, moment_as_chrono(with_quarter(fmt, date.month)))
}

/// The `chrono` format of a MomentJS format for a day of `month`.
pub fn chrono_format_of(month: u32, fmt: &str) -> (r: String)
    requires
        month >= 1,
    ensures
        r@ == moment_as_chrono(with_quarter(fmt@, month)),
{
    proof {
        reveal_strlit("[Q]Q");
        reveal_strlit("Q");
    }
    let fmt = if text::contains(fmt, "Q") {
        let q = text::to_decimal(quarter_from_month(month) as u64);
        text::replace(&text::replace(fmt, "[Q]Q", &q), "Q", &q)
    } else {
        fmt.to_owned()
    };
    momentjs_to_chrono(&fmt)
}

/// Formats a day in a MomentJS format.
pub fn format_date_momentjs(date: Date, fmt: &str) -> (r: String)
    requires
        date.month >= 1,
        moment_text(date, fmt@) is Some,
    ensures
        moment_text(date, fmt@) == Some(r@),
{
    format_chrono(date, &chrono_format_of(date.month, fmt)).unwrap()
}

/// Formats a day in a MomentJS format, where the format fits a day.
pub fn try_format_date_momentjs(date: Date, fmt: &str) -> (r: Option<String>)
    requires
        date.month >= 1,
    ensures
        match r {
            Some(s) => moment_text(date, fmt@) == Some(s@),
            None => moment_text(date, fmt@) is None,
        },
{
    match format_chrono(date, &chrono_format_of(date.month, fmt)) {
        Some(_) => Some(format_date_momentjs(date, fmt)),
        None => None,
    }
}

// ── Settings ──────────────────────────────────────────────────────────────────

/// The format of the notes of a period, where none is set.
pub open spec fn standard_format(period: Seq<char>) -> Seq<char> {
    if period == "daily"@ {
        "YYYY-MM-DD"@
    } else if period == "weekly"@ {
        "YYYY-[W]WW"@
    } else if period == "monthly"@ {
        "YYYY-MM"@
    } else if period == "quarterly"@ {
        "YYYY-[Q]Q"@
    } else if period == "yearly"@ {
        "YYYY"@
    } else {
        "YYYY-MM-DD"@
    }
}

/// The format of the notes of a period, where none is set.
pub fn default_format(period: &str) -> (r: String)
    ensures
        r@ == standard_format(period@),
{
    if text::same(period, "daily") {
        "YYYY-MM-DD".to_owned()
    } else if text::same(period, "weekly") {
        "YYYY-[W]WW".to_owned()
    } else if text::same(period, "monthly") {
        "YYYY-MM".to_owned()
    } else if text::same(period, "quarterly") {
        "YYYY-[Q]Q".to_owned()
    } else if text::same(period, "yearly") {
        "YYYY".to_owned()
    } else {
        "YYYY-MM-DD".to_owned()
    }
}

/// Folder and format that a settings object gives; `fallback` is the format where
/// it gives none, or an empty one.
pub open spec fn folder_and_format(cfg: Tree, fallback: Seq<char>) -> (Seq<char>, Seq<char>) {
    let folder = match cfg.field("folder"@) {
        Tree::Text(s) => s,
        _ => ""@,
    };
    let format = match cfg.field("format"@) {
        Tree::Text(s) => if s.len() > 0 {
            s
        } else {
            fallback
        },
        _ => fallback,
    };
    (folder, format)
}

/// Folder and format that a settings object gives for a period.
pub fn read_settings(cfg: &Json, period: &str) -> (r: (String, String))
    ensures
        (r.0@, r.1@) == folder_and_format(cfg.tree(), standard_format(period@)),
{
    let folder = match cfg.str_field("folder") {
        Some(s) => s,
        None => "".to_owned(),
    };
    let format = match cfg.str_field("format") {
        Some(s) => if s.as_str().is_empty() {
            default_format(period)
        } else {
            s
        },
        None => default_format(period),
    };
    (folder, format)
}

/// The path of a note, from its folder and its name.
pub open spec fn note_path(folder: Seq<char>, name: Seq<char>) -> Seq<char> {
    if folder.len() == 0 {
        name + ".md"@
    } else {
        text::trim_both(folder, Chars::In(seq!['/'])) + "/"@ + name + ".md"@
    }
}

/// The path of a note, from its folder and its name.
pub fn join_note_path(folder: &str, name: &str) -> (r: String)
    ensures
        r@ == note_path(folder@, name@),
{
    if folder.is_empty() {
        text::cat(name, ".md")
    } else {
        let mut out = text::cat3(&text::trim_matches(folder, &text::only('/')), "/", name);
        out.append(".md");
        out
    }
}

// ── Laws ──────────────────────────────────────────────────────────────────────

proof fn no_such_text(s: Seq<char>, from: Seq<char>, c: char)
    requires
        from.len() > 0,
        from.contains(c),
        forall|i: int| 0 <= i < s.len() ==> s[i] != c,
    ensures
        forall|i: int| 0 <= i && i + from.len() <= s.len() ==> #[trigger] s.subrange(i, i + from.len()) != from,
{
    let k = choose|k: int| 0 <= k < from.len() && from[k] == c;
    assert forall|i: int| 0 <= i && i + from.len() <= s.len() implies #[trigger] s.subrange(i, i + from.len()) != from by {
        assert(s.subrange(i, i + from.len())[k] == s[i + k]);
    }
}

proof fn quarter_digit(month: u32) -> (d: char)
    requires
        1 <= month <= 12,
    ensures
        text::decimal(((month - 1) / 3 + 1) as nat) == seq![d],
        '1' <= d <= '4',
        3 * (d as u32 - '0' as u32 - 1) < month <= 3 * (d as u32 - '0' as u32),
{
    let q = (month - 1) / 3 + 1;
    assert(1 <= q <= 4);
    text::decimals_stand_for_their_number(q as nat);
    assert('0' as u32 == 48);
    let d = text::decimal(q as nat)[0];
    reveal_with_fuel(text::number_of_digits, 2);
    assert(text::decimal(q as nat) =~= seq![d]);
    assert(seq![d].drop_last() =~= Seq::<char>::empty());
    d
}

/// Where a format asks for the quarter, once, by `Q` or by `[Q]Q`, the one digit of the
/// quarter that the month is in takes its place: months 1 to 3 are in the first, and so on.
/// A format that does not ask for it stays as it is.
#[verifier::rlimit(50)]
#[verifier::spinoff_prover]
pub proof fn quarters_take_their_place(a: Seq<char>, b: Seq<char>, month: u32) -> (d: char)
    requires
        1 <= month <= 12,
        forall|i: int| 0 <= i < a.len() ==> a[i] != 'Q',
        forall|i: int| 0 <= i < b.len() ==> b[i] != 'Q',
    ensures
        '1' <= d <= '4',
        3 * (d as u32 - '0' as u32 - 1) < month <= 3 * (d as u32 - '0' as u32),
        with_quarter(a + seq!['Q'] + b, month) == a + seq![d] + b,
        with_quarter(a + seq!['[', 'Q', ']', 'Q'] + b, month) == a + seq![d] + b,
        with_quarter(a, month) == a,
{
    let d = quarter_digit(month);
    quarter_chars();
    one_quarter(a, b, seq![d]);
    two_quarters(a, b, seq![d]);
    no_such_text(a, seq!['Q'], 'Q');
    text::first_occurrence_is_found(a, seq!['Q']);
    d
}

proof fn quarter_chars()
    ensures
        "Q"@ == seq!['Q'],
        "[Q]Q"@ == seq!['[', 'Q', ']', 'Q'],
        seq!['Q'].contains('Q'),
        seq!['[', 'Q', ']', 'Q'].contains('Q'),
{
    reveal_strlit("Q");
    reveal_strlit("[Q]Q");
    assert("Q"@ =~= seq!['Q']);
    assert("[Q]Q"@ =~= seq!['[', 'Q', ']', 'Q']);
    assert(seq!['Q'][0] == 'Q');
    assert(seq!['[', 'Q', ']', 'Q'][1] == 'Q');
}

/// A format with one `Q`.
#[verifier::rlimit(50)]
#[verifier::spinoff_prover]
proof fn one_quarter(a: Seq<char>, b: Seq<char>, q: Seq<char>)
    requires
        forall|i: int| 0 <= i < a.len() ==> a[i] != 'Q',
        forall|i: int| 0 <= i < b.len() ==> b[i] != 'Q',
    ensures
        text::has_sub(a + seq!['Q'] + b, seq!['Q']),
        text::replaced(a + seq!['Q'] + b, seq!['[', 'Q', ']', 'Q'], q) == a + seq!['Q'] + b,
        text::replaced(a + seq!['Q'] + b, seq!['Q'], q) == a + q + b,
{
    let one = seq!['Q'];
    let two = seq!['[', 'Q', ']', 'Q'];
    quarter_chars();
    let f = a + one + b;
    let n = a.len() as int;
    assert(f.subrange(n, n + 1) =~= one);
    text::first_occurrence_is_found(f, one);
    assert forall|i: int| 0 <= i < f.len() && i != n implies #[trigger] f[i] != 'Q' by {
        if i < n {
            assert(f[i] == a[i]);
        } else {
            assert(f[i] == b[i - n - 1]);
        }
    }
    assert forall|i: int| 0 <= i && i + two.len() <= f.len() implies #[trigger] f.subrange(i, i + two.len()) != two by {
        let p = f.subrange(i, i + two.len());
        assert(p[1] == f[i + 1] && p[3] == f[i + 3]);
        assert(two[1] == 'Q' && two[3] == 'Q');
    }
    text::other_text_is_kept(f, two, q);
    assert forall|i: int| 0 <= i < a.len() implies #[trigger] f.subrange(i, i + one.len()) != one by {
        assert(f.subrange(i, i + 1)[0] == a[i]);
        assert(one[0] == 'Q');
    }
    text::occurrences_are_replaced(a, b, one, q);
    no_such_text(b, one, 'Q');
    text::other_text_is_kept(b, one, q);
}

/// A format with one `[Q]Q`.
#[verifier::rlimit(50)]
#[verifier::spinoff_prover]
proof fn two_quarters(a: Seq<char>, b: Seq<char>, q: Seq<char>)
    requires
        forall|i: int| 0 <= i < a.len() ==> a[i] != 'Q',
        forall|i: int| 0 <= i < b.len() ==> b[i] != 'Q',
        forall|i: int| 0 <= i < q.len() ==> q[i] != 'Q',
    ensures
        text::has_sub(a + seq!['[', 'Q', ']', 'Q'] + b, seq!['Q']),
        text::replaced(a + seq!['[', 'Q', ']', 'Q'] + b, seq!['[', 'Q', ']', 'Q'], q) == a + q + b,
        text::replaced(a + q + b, seq!['Q'], q) == a + q + b,
{
    let one = seq!['Q'];
    let two = seq!['[', 'Q', ']', 'Q'];
    quarter_chars();
    let g = a + two + b;
    let n = a.len() as int;
    assert(g[n + 1] == two[1]);
    assert(g.subrange(n + 1, n + 1 + one.len() as int) =~= one);
    text::first_occurrence_is_found(g, one);
    assert forall|i: int| 0 <= i < a.len() implies #[trigger] g.subrange(i, i + two.len()) != two by {
        let p = g.subrange(i, i + two.len());
        assert(p[1] == g[i + 1]);
        assert(two[1] == 'Q' && two[0] == '[');
        if i + 1 < n {
            assert(g[i + 1] == a[i + 1]);
        } else {
            assert(g[i + 1] == two[0]);
        }
    }
    text::occurrences_are_replaced(a, b, two, q);
    no_such_text(b, two, 'Q');
    text::other_text_is_kept(b, two, q);
    let h = a + q + b;
    assert forall|i: int| 0 <= i < h.len() implies h[i] != 'Q' by {
        if i >= n + q.len() {
            assert(h[i] == b[i - n - q.len()]);
        } else if i >= n {
            assert(h[i] == q[i - n]);
        }
    }
    no_such_text(h, one, 'Q');
    text::other_text_is_kept(h, one, q);
}

#[verifier::rlimit(50)]
#[verifier::spinoff_prover]
proof fn replaced_in_parts(x: Seq<char>, c: char, y: Seq<char>, from: Seq<char>, to: Seq<char>)
    requires
        from.len() > 0,
        !from.contains(c),
    ensures
        text::replaced(x + seq![c] + y, from, to) == text::replaced(x, from, to) + seq![c] + text::replaced(y, from, to),
    decreases x.len(),
{
    let s = x + seq![c] + y;
    let n = x.len() as int;
    let m = from.len() as int;
    if from.is_prefix_of(s) {
        assert(m <= n) by {
            if m > n {
                assert(s.subrange(0, m)[n] == s[n]);
                assert(s[n] == c);
                assert(from[n] == c);
            }
        }
        assert(x.subrange(0, m) =~= s.subrange(0, m));
        assert(s.skip(m) =~= x.skip(m) + seq![c] + y);
        replaced_in_parts(x.skip(m), c, y, from, to);
        assert(text::replaced(s, from, to) =~= text::replaced(x, from, to) + seq![c] + text::replaced(y, from, to));
    } else if n == 0 {
        assert(s[0] == c);
        assert(s.drop_first() =~= y);
        assert(text::replaced(s, from, to) =~= text::replaced(x, from, to) + seq![c] + text::replaced(y, from, to));
    } else {
        assert(!from.is_prefix_of(x)) by {
            if from.is_prefix_of(x) {
                assert(s.subrange(0, m) =~= x.subrange(0, m));
            }
        }
        assert(s[0] == x[0]);
        assert(s.drop_first() =~= x.drop_first() + seq![c] + y);
        replaced_in_parts(x.drop_first(), c, y, from, to);
        assert(text::replaced(s, from, to) =~= text::replaced(x, from, to) + seq![c] + text::replaced(y, from, to));
    }
}

proof fn token_chars()
    ensures
        "YYYY"@ == seq!['Y', 'Y', 'Y', 'Y'],
        "MM"@ == seq!['M', 'M'],
        "DD"@ == seq!['D', 'D'],
        "WW"@ == seq!['W', 'W'],
        "ww"@ == seq!['w', 'w'],
        "ddd"@ == seq!['d', 'd', 'd'],
        "%Y"@ == seq!['%', 'Y'],
        "%m"@ == seq!['%', 'm'],
        "%d"@ == seq!['%', 'd'],
        "%W"@ == seq!['%', 'W'],
        "%U"@ == seq!['%', 'U'],
        "%a"@ == seq!['%', 'a'],
{
    reveal_strlit("YYYY");
    reveal_strlit("MM");
    reveal_strlit("DD");
    reveal_strlit("WW");
    reveal_strlit("ww");
    reveal_strlit("ddd");
    reveal_strlit("%Y");
    reveal_strlit("%m");
    reveal_strlit("%d");
    reveal_strlit("%W");
    reveal_strlit("%U");
    reveal_strlit("%a");
    assert("YYYY"@ =~= seq!['Y', 'Y', 'Y', 'Y']);
    assert("MM"@ =~= seq!['M', 'M']);
    assert("DD"@ =~= seq!['D', 'D']);
    assert("WW"@ =~= seq!['W', 'W']);
    assert("ww"@ =~= seq!['w', 'w']);
    assert("ddd"@ =~= seq!['d', 'd', 'd']);
    assert("%Y"@ =~= seq!['%', 'Y']);
    assert("%m"@ =~= seq!['%', 'm']);
    assert("%d"@ =~= seq!['%', 'd']);
    assert("%W"@ =~= seq!['%', 'W']);
    assert("%U"@ =~= seq!['%', 'U']);
    assert("%a"@ =~= seq!['%', 'a']);
}

/// A format is translated part by part: what stands on both sides of a character that is in
/// no token is translated on its own.
pub proof fn formats_are_translated_in_parts(x: Seq<char>, c: char, y: Seq<char>)
    requires
        c != 'Y' && c != 'M' && c != 'D' && c != 'W' && c != 'w' && c != 'd',
    ensures
        moment_as_chrono(x + seq![c] + y) == moment_as_chrono(x) + seq![c] + moment_as_chrono(y),
{
    token_chars();
    let r = |s: Seq<char>, from: Seq<char>, to: Seq<char>| text::replaced(s, from, to);
    replaced_in_parts(x, c, y, "YYYY"@, "%Y"@);
    let (x1, y1) = (r(x, "YYYY"@, "%Y"@), r(y, "YYYY"@, "%Y"@));
    replaced_in_parts(x1, c, y1, "MM"@, "%m"@);
    let (x2, y2) = (r(x1, "MM"@, "%m"@), r(y1, "MM"@, "%m"@));
    replaced_in_parts(x2, c, y2, "DD"@, "%d"@);
    let (x3, y3) = (r(x2, "DD"@, "%d"@), r(y2, "DD"@, "%d"@));
    replaced_in_parts(x3, c, y3, "WW"@, "%W"@);
    let (x4, y4) = (r(x3, "WW"@, "%W"@), r(y3, "WW"@, "%W"@));
    replaced_in_parts(x4, c, y4, "ww"@, "%U"@);
    let (x5, y5) = (r(x4, "ww"@, "%U"@), r(y4, "ww"@, "%U"@));
    replaced_in_parts(x5, c, y5, "ddd"@, "%a"@);
}

/// A text in which two characters after one another are never the same has no tokens.
proof fn nothing_doubled(s: Seq<char>, from: Seq<char>, to: Seq<char>)
    requires
        from.len() >= 2,
        from[0] == from[1],
        forall|i: int| 0 <= i < s.len() - 1 ==> #[trigger] s[i] != from[0] || s[i + 1] != from[0],
    ensures
        text::replaced(s, from, to) == s,
{
    assert forall|i: int| 0 <= i && i + from.len() <= s.len() implies #[trigger] s.subrange(i, i + from.len()) != from by {
        let p = s.subrange(i, i + from.len());
        assert(p[0] == s[i] && p[1] == s[i + 1]);
    }
    text::other_text_is_kept(s, from, to);
}

proof fn whole_is_replaced(from: Seq<char>, to: Seq<char>)
    requires
        from.len() > 0,
    ensures
        text::replaced(from, from, to) == to,
{
    let e = Seq::<char>::empty();
    text::occurrences_are_replaced(e, e, from, to);
    assert(e + from + e =~= from);
    assert(text::replaced(e, from, to) =~= e);
    assert(e + to + e =~= to);
}

/// Each token of a format is translated to its counterpart: the year, the month, the day,
/// the two numbers of the week, and the name of the day.
pub proof fn tokens_have_their_counterparts()
    ensures
        moment_as_chrono(seq!['Y', 'Y', 'Y', 'Y']) == seq!['%', 'Y'],
        moment_as_chrono(seq!['M', 'M']) == seq!['%', 'm'],
        moment_as_chrono(seq!['D', 'D']) == seq!['%', 'd'],
        moment_as_chrono(seq!['W', 'W']) == seq!['%', 'W'],
        moment_as_chrono(seq!['w', 'w']) == seq!['%', 'U'],
        moment_as_chrono(seq!['d', 'd', 'd']) == seq!['%', 'a'],
{
    token_chars();
    translate_token(0);
    translate_token(1);
    translate_token(2);
    translate_token(3);
    translate_token(4);
    translate_token(5);
}

spec fn token(i: int) -> (Seq<char>, Seq<char>) {
    if i == 0 {
        ("YYYY"@, "%Y"@)
    } else if i == 1 {
        ("MM"@, "%m"@)
    } else if i == 2 {
        ("DD"@, "%d"@)
    } else if i == 3 {
        ("WW"@, "%W"@)
    } else if i == 4 {
        ("ww"@, "%U"@)
    } else {
        ("ddd"@, "%a"@)
    }
}

proof fn keep_token(i: int, s: Seq<char>)
    requires
        0 <= i <= 5,
        forall|k: int| 0 <= k < s.len() - 1 ==> #[trigger] s[k] != token(i).0[0] || s[k + 1] != token(i).0[0],
    ensures
        text::replaced(s, token(i).0, token(i).1) == s,
{
    token_chars();
    nothing_doubled(s, token(i).0, token(i).1);
}

#[verifier::rlimit(50)]
#[verifier::spinoff_prover]
proof fn translate_token(i: int)
    requires
        0 <= i <= 5,
    ensures
        moment_as_chrono(token(i).0) == token(i).1,
{
    token_chars();
    whole_is_replaced(token(i).0, token(i).1);
    if i > 0 {
        keep_token(0, token(i).0);
    } else {
        keep_token(1, token(i).1);
    }
    if i > 1 {
        keep_token(1, token(i).0);
    } else if i < 2 {
        keep_token(2, token(i).1);
    }
    if i > 2 {
        keep_token(2, token(i).0);
    }
    if i < 3 {
        keep_token(3, token(i).1);
    }
    if i > 3 {
        keep_token(3, token(i).0);
    }
    if i < 4 {
        keep_token(4, token(i).1);
    }
    if i > 4 {
        keep_token(4, token(i).0);
    }
    if i < 5 {
        keep_token(5, token(i).1);
    }
}

/// A format without any of the letters of the tokens stays as it is.
pub proof fn other_formats_are_kept(s: Seq<char>)
    requires
        forall|i: int|
            0 <= i < s.len() ==> {
                let c = #[trigger] s[i];
                c != 'Y' && c != 'M' && c != 'D' && c != 'W' && c != 'w' && c != 'd'
            },
    ensures
        moment_as_chrono(s) == s,
{
    token_chars();
    keep_token(0, s);
    keep_token(1, s);
    keep_token(2, s);
    keep_token(3, s);
    keep_token(4, s);
    keep_token(5, s);
}

/// The text of a day in a format is that of its translation, with the quarter of the day's
/// month in its place, for that day.
pub proof fn texts_are_those_of_the_day(date: Date, a: Seq<char>, b: Seq<char>) -> (d: char)
    requires
        1 <= date.month <= 12,
        forall|i: int| 0 <= i < a.len() ==> a[i] != 'Q',
        forall|i: int| 0 <= i < b.len() ==> b[i] != 'Q',
    ensures
        3 * (d as u32 - '0' as u32 - 1) < date.month <= 3 * (d as u32 - '0' as u32),
        moment_text(date, a) == chrono_text(date.year, date.month, date.day, moment_as_chrono(a)),
        moment_text(date, a + seq!['Q'] + b) == chrono_text(
            date.year,
            date.month,
            date.day,
            moment_as_chrono(a + seq![d] + b),
        ),
        moment_text(date, a + seq!['[', 'Q', ']', 'Q'] + b) == chrono_text(
            date.year,
            date.month,
            date.day,
            moment_as_chrono(a + seq![d] + b),
        ),
{
    quarters_take_their_place(a, b, date.month)
}

/// A note lies in its folder, whatever slashes are around the folder's name; where no folder
/// is set it lies at the top. Its name ends in `.md`.
pub proof fn notes_lie_in_their_folder(i: nat, folder: Seq<char>, j: nat, name: Seq<char>)
    requires
        folder.len() > 0,
        folder[0] != '/' && folder.last() != '/',
    ensures
        note_path(Seq::empty(), name) == name + seq!['.', 'm', 'd'],
        note_path(Seq::new(i, |k: int| '/') + folder + Seq::new(j, |k: int| '/'), name) == folder + seq!['/'] + name + seq![
            '.',
            'm',
            'd',
        ],
{
    reveal_strlit(".md");
    reveal_strlit("/");
    assert(".md"@ =~= seq!['.', 'm', 'd']);
    assert("/"@ =~= seq!['/']);
    let a = Seq::new(i, |k: int| '/');
    let b = Seq::new(j, |k: int| '/');
    let set = Chars::In(seq!['/']);
    assert(seq!['/'][0] == '/');
    assert forall|k: int| 0 <= k < a.len() implies set.has(#[trigger] a[k]) by {}
    assert forall|k: int| 0 <= k < b.len() implies set.has(#[trigger] b[k]) by {}
    assert(!set.has(folder[0]) && !set.has(folder.last())) by {
        if seq!['/'].contains(folder[0]) {
            let k = choose|k: int| 0 <= k < 1 && seq!['/'][k] == folder[0];
        }
        if seq!['/'].contains(folder.last()) {
            let k = choose|k: int| 0 <= k < 1 && seq!['/'][k] == folder.last();
        }
    }
    text::surroundings_are_trimmed(a, folder, b, set);
}

/// Settings give the folder and the format that they hold as texts; without a format, or
/// with an empty one, the other one is taken, and without a folder none.
pub proof fn settings_give_folder_and_format(cfg: Tree, fallback: Seq<char>)
    ensures
        cfg.field("folder"@) matches Tree::Text(s) ==> folder_and_format(cfg, fallback).0 == s,
        !(cfg.field("folder"@) is Text) ==> folder_and_format(cfg, fallback).0 == Seq::<char>::empty(),
        cfg.field("format"@) matches Tree::Text(s) ==> folder_and_format(cfg, fallback).1 == (if s.len() > 0 {
            s
        } else {
            fallback
        }),
        !(cfg.field("format"@) is Text) ==> folder_and_format(cfg, fallback).1 == fallback,
{
    reveal_strlit("");
    assert(""@ =~= Seq::<char>::empty());
}

} // verus!
