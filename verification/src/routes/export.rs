//! Export endpoint: file names, Markdown front matter, and the calendar
//! arithmetic behind the export timestamp.
use vstd::prelude::*;

use crate::db::queries::Note;
use crate::routes::notes::{bad_request, is_bad_request, AppError};
use crate::text::{
    chars_of, int_decimal, kebab, kebab_chars, nat_digits, push_all, push_str, slice_chars,
    str_eq, str_views, string_of, strip_end, strip_end_chars, u64_padded, words, words_chars,
    zero_pad, WordKind,
};

verus! {

/// Query string of `GET /api/export`.
pub struct ExportQuery {
    pub format: String,
}

// ---------------------------------------------------------------------------
// File names
// ---------------------------------------------------------------------------

/// Longest file-name title, in bytes (all its characters are ASCII).
pub const MAX_TITLE_LEN: usize = 50;

/// A title made safe for a file name: lowercase ASCII letters and digits,
/// each run of anything else turned into one `-`, no `-` at either end,
/// cut to [`MAX_TITLE_LEN`] characters without a trailing `-`.
pub open spec fn spec_sanitize_title(title: Seq<char>) -> Seq<char> {
    let k = kebab(title);
    if k.len() > MAX_TITLE_LEN {
        strip_end(k.take(MAX_TITLE_LEN as int), seq!['-'])
    } else {
        k
    }
}

proof fn lemma_strip_end_len(s: Seq<char>, set: Seq<char>)
    ensures
        strip_end(s, set).len() <= s.len(),
    decreases s.len(),
{
    if s.len() > 0 && set.contains(s.last()) {
        lemma_strip_end_len(s.drop_last(), set);
    }
}

/// Makes a title safe for a file name (see [`spec_sanitize_title`]).
pub fn sanitize_title(title: &str) -> (r: String)
    ensures
        r@ == spec_sanitize_title(title@),
        r@.len() <= MAX_TITLE_LEN,
        crate::text::is_slug(r@),
{
    proof {
        lemma_sanitized_slug(title@);
    }
    let v = chars_of(title);
    let k = kebab_chars(v.as_slice());
    if k.len() > MAX_TITLE_LEN {
        let t = slice_chars(k.as_slice(), 0, MAX_TITLE_LEN);
        assert(t@ =~= k@.take(MAX_TITLE_LEN as int));
        let dash = ['-'];
        assert(dash@ =~= seq!['-']);
        let s = strip_end_chars(t.as_slice(), &dash);
        string_of(s.as_slice())
    } else {
        string_of(k.as_slice())
    }
}

/// A sanitized title is a slug of at most [`MAX_TITLE_LEN`] characters.
proof fn lemma_sanitized_slug(title: Seq<char>)
    ensures
        crate::text::is_slug(spec_sanitize_title(title)),
        spec_sanitize_title(title).len() <= MAX_TITLE_LEN,
{
    crate::text::lemma_kebab_slug(title);
    let k = kebab(title);
    if k.len() > MAX_TITLE_LEN {
        crate::text::lemma_slug_cut(k, MAX_TITLE_LEN as int);
        lemma_strip_end_len(k.take(MAX_TITLE_LEN as int), seq!['-']);
    }
}

/// A sanitized title is empty exactly when the title, lower-cased, holds
/// no ASCII letter or digit.
pub proof fn lemma_sanitize_title_empty(title: Seq<char>)
    ensures
        spec_sanitize_title(title).len() == 0 <==> forall|i: int|
            0 <= i < crate::text::lower(title).len() ==> !crate::text::is_ascii_alnum(
                #[trigger] crate::text::lower(title)[i],
            ),
{
    crate::text::lemma_kebab_empty(title);
    crate::text::lemma_kebab_slug(title);
    let k = kebab(title);
    if k.len() > MAX_TITLE_LEN {
        let c = k.take(MAX_TITLE_LEN as int);
        assert(c[0] == k[0]);
        assert(!seq!['-'].contains(c[0])) by {
            if seq!['-'].contains(c[0]) {
                let j = choose|j: int| 0 <= j < 1 && seq!['-'][j] == c[0];
                assert(seq!['-'][j] == '-');
            }
        }
        crate::text::lemma_strip_end_keeps_head(c, seq!['-']);
    }
}

/// Sanitizing is idempotent: a sanitized title sanitizes to itself.
pub proof fn lemma_sanitize_title_idempotent(title: Seq<char>)
    ensures
        spec_sanitize_title(spec_sanitize_title(title)) == spec_sanitize_title(title),
{
    let r = spec_sanitize_title(title);
    lemma_sanitized_slug(title);
    crate::text::lemma_kebab_of_slug(r);
}

/// Title part of a note's file name: the sanitized title, `untitled` when
/// the note has no title or an empty one.
pub open spec fn spec_title_part(title: Option<String>) -> Seq<char> {
    match title {
        Some(t) => if t@.len() > 0 {
            spec_sanitize_title(t@)
        } else {
            "untitled"@
        },
        None => "untitled"@,
    }
}

/// Name of a note's file in the Markdown export: `{id}-{title part}.md`.
pub open spec fn spec_markdown_filename(note: Note) -> Seq<char> {
    int_decimal(note.id as int) + seq!['-'] + spec_title_part(note.title) + ".md"@
}

/// Name of a note's file in the Markdown export.
pub fn markdown_filename(note: &Note) -> (r: String)
    ensures
        r@ == spec_markdown_filename(*note),
{
    let mut v = crate::text::i64_decimal(note.id);
    v.push('-');
    match &note.title {
        Some(t) => {
            proof {
                crate::text::lemma_utf8_len_ge_len(t@);
            }
            if crate::text::str_len(t.as_str()) > 0 {
                proof {
                    if t@.len() == 0 {
                        assert(crate::text::utf8_len(t@) == 0);
                    }
                }
                let s = sanitize_title(t.as_str());
                push_str(&mut v, s.as_str());
            } else {
                push_str(&mut v, "untitled");
            }
        },
        None => push_str(&mut v, "untitled"),
    }
    push_str(&mut v, ".md");
    string_of(v.as_slice())
}

// ---------------------------------------------------------------------------
// Front matter
// ---------------------------------------------------------------------------

/// `s` with each `"` preceded by a backslash.
pub open spec fn escape_quotes(s: Seq<char>) -> Seq<char>
    decreases s.len(),
{
    if s.len() == 0 {
        seq![]
    } else {
        escape_quotes(s.drop_last()) + if s.last() == '"' {
            seq!['\\', '"']
        } else {
            seq![s.last()]
        }
    }
}

/// Appends `s` with its quotes escaped.
fn push_escaped(dst: &mut Vec<char>, s: &str)
    ensures
        final(dst)@ == old(dst)@ + escape_quotes(s@),
{
    let v = chars_of(s);
    let mut i: usize = 0;
    assert(v@.take(0) =~= Seq::<char>::empty());
    while i < v.len()
        invariant
            i <= v@.len(),
            v@ == s@,
            dst@ == old(dst)@ + escape_quotes(v@.take(i as int)),
        decreases v@.len() - i,
    {
        let c = v[i];
        assert(v@.take(i + 1).drop_last() =~= v@.take(i as int));
        if c == '"' {
            dst.push('\\');
            dst.push('"');
        } else {
            dst.push(c);
        }
        i += 1;
    }
    assert(v@.take(v@.len() as int) =~= v@);
}

/// `"…"` around each tag (quotes escaped), joined by `, `.
pub open spec fn quoted_list(tags: Seq<Seq<char>>) -> Seq<char>
    decreases tags.len(),
{
    if tags.len() == 0 {
        seq![]
    } else if tags.len() == 1 {
        seq!['"'] + escape_quotes(tags[0]) + seq!['"']
    } else {
        quoted_list(tags.drop_last()) + ", "@ + seq!['"'] + escape_quotes(tags.last()) + seq!['"']
    }
}

/// The date part of a `created_at` value: its first word, or the whole
/// value when it has none.
pub open spec fn date_part(created_at: Seq<char>) -> Seq<char> {
    let w = words(created_at, WordKind::NonWhitespace);
    if w.len() > 0 {
        w[0]
    } else {
        created_at
    }
}

/// YAML front matter of a note in the Markdown export.
pub open spec fn spec_frontmatter(note: Note) -> Seq<char> {
    "---\nid: "@ + int_decimal(note.id as int) + seq!['\n'] + match note.title {
        Some(t) => "title: \""@ + escape_quotes(t@) + seq!['"'],
        None => "title: \"\""@,
    } + "\nsource_type: \""@ + note.source_type@ + "\"\ntags: ["@ + quoted_list(
        str_views(note.tags@),
    ) + "]\ncreated_at: \""@ + date_part(note.created_at@) + "\"\n---\n\n"@
}

/// The text of a note's file in the Markdown export: front matter, then
/// the content.
pub open spec fn spec_markdown_document(note: Note) -> Seq<char> {
    spec_frontmatter(note) + note.content@
}

/// The text of a note's file in the Markdown export.
pub fn markdown_document(note: &Note) -> (r: String)
    ensures
        r@ == spec_markdown_document(*note),
{
    let mut v: Vec<char> = Vec::new();
    push_str(&mut v, "---\nid: ");
    let id = crate::text::i64_decimal(note.id);
    push_all(&mut v, id.as_slice());
    v.push('\n');
    match &note.title {
        Some(t) => {
            push_str(&mut v, "title: \"");
            push_escaped(&mut v, t.as_str());
            v.push('"');
        },
        None => push_str(&mut v, "title: \"\""),
    }
    push_str(&mut v, "\nsource_type: \"");
    push_str(&mut v, note.source_type.as_str());
    push_str(&mut v, "\"\ntags: [");
    let ghost tags = str_views(note.tags@);
    let mut i: usize = 0;
    let ghost before = v@;
    assert(tags.take(0) =~= Seq::<Seq<char>>::empty());
    while i < note.tags.len()
        invariant
            i <= note.tags@.len(),
            tags == str_views(note.tags@),
            v@ == before + quoted_list(tags.take(i as int)),
        decreases note.tags@.len() - i,
    {
        assert(tags.take(i + 1).drop_last() =~= tags.take(i as int));
        assert(tags.take(i + 1).last() == note.tags@[i as int]@);
        if i > 0 {
            push_str(&mut v, ", ");
        } else {
            assert(v@ =~= before);
        }
        v.push('"');
        push_escaped(&mut v, note.tags[i].as_str());
        v.push('"');
        proof {
            if i == 0 {
                assert(tags.take(1)[0] == note.tags@[0]@);
            }
        }
        i += 1;
    }
    assert(tags.take(note.tags@.len() as int) =~= tags);
    push_str(&mut v, "]\ncreated_at: \"");
    let cv = chars_of(note.created_at.as_str());
    let w = words_chars(cv.as_slice(), WordKind::NonWhitespace);
    if w.len() > 0 {
        push_all(&mut v, w[0].as_slice());
    } else {
        push_all(&mut v, cv.as_slice());
    }
    push_str(&mut v, "\"\n---\n\n");
    push_str(&mut v, note.content.as_str());
    string_of(v.as_slice())
}

// ---------------------------------------------------------------------------
// Format
// ---------------------------------------------------------------------------

/// The two export formats.
pub enum ExportFormat {
    Json,
    Markdown,
}

/// The format a query names; any other name is refused.
pub fn export_format(format: &str) -> (r: Result<ExportFormat, AppError>)
    ensures
        format@ == "json"@ ==> r matches Ok(ExportFormat::Json),
        format@ == "markdown"@ ==> r matches Ok(ExportFormat::Markdown),
        format@ != "json"@ && format@ != "markdown"@ ==> (r matches Err(e) && is_bad_request(
            e,
            "Invalid format. Use 'json' or 'markdown'."@,
        )),
{
    proof {
        reveal_strlit("json");
        reveal_strlit("markdown");
        assert("json"@.len() != "markdown"@.len());
    }
    if str_eq(format, "json") {
        Ok(ExportFormat::Json)
    } else if str_eq(format, "markdown") {
        Ok(ExportFormat::Markdown)
    } else {
        Err(bad_request("Invalid format. Use 'json' or 'markdown'."))
    }
}

} // verus!

verus! {

// ---------------------------------------------------------------------------
// Calendar
// ---------------------------------------------------------------------------

/// Gregorian leap year.
pub open spec fn is_leap(y: int) -> bool {
    y % 4 == 0 && (y % 100 != 0 || y % 400 == 0)
}

/// Number of days of month `m` (1 to 12) of year `y`.
pub open spec fn days_in_month(y: int, m: int) -> int {
    if m == 2 {
        if is_leap(y) {
            29
        } else {
            28
        }
    } else if m == 4 || m == 6 || m == 9 || m == 11 {
        30
    } else {
        31
    }
}

/// Days of year `y` before the first of month `m`.
pub open spec fn days_before_month(y: int, m: int) -> int {
    let base: int = if m <= 1 {
        0
    } else if m == 2 {
        31
    } else if m == 3 {
        59
    } else if m == 4 {
        90
    } else if m == 5 {
        120
    } else if m == 6 {
        151
    } else if m == 7 {
        181
    } else if m == 8 {
        212
    } else if m == 9 {
        243
    } else if m == 10 {
        273
    } else if m == 11 {
        304
    } else {
        334
    };
    base + if m > 2 && is_leap(y) {
        1int
    } else {
        0int
    }
}

/// Leap years among the years 1 to `k`.
pub open spec fn leaps_through(k: int) -> int {
    k / 4 - k / 100 + k / 400
}

/// Days from 1970-01-01 to the date `y-m-d`.
pub open spec fn days_from_civil(y: int, m: int, d: int) -> int {
    365 * (y - 1970) + leaps_through(y - 1) - leaps_through(1969) + days_before_month(y, m) + d
        - 1
}

/// A real date: a month from 1 to 12 and a day within that month.
pub open spec fn valid_date(y: int, m: int, d: int) -> bool {
    1 <= m <= 12 && 1 <= d <= days_in_month(y, m)
}

#[verifier::spinoff_prover]
proof fn lemma_year_of_era(doe: u32, yoe: u32)
    requires
        doe <= 146096,
        yoe == (doe - doe / 1460 + doe / 36524 - doe / 146096) / 365,
    ensures
        yoe <= 399,
        365 * yoe + yoe / 4 - yoe / 100 <= doe,
        doe - (365 * yoe + yoe / 4 - yoe / 100) <= 365,
        doe - (365 * yoe + yoe / 4 - yoe / 100) == 365 ==> ((yoe + 1) % 4 == 0 && ((yoe + 1) % 100
            != 0 || (yoe + 1) % 400 == 0)),
{

}

proof fn lemma_month_of_year(doy: u32, mp: u32)
    requires
        doy <= 365,
        mp == (5 * doy + 2) / 153,
    ensures
        mp <= 11,
        (153 * mp + 2) / 5 <= doy,
        mp < 11 ==> doy < (153 * (mp + 1) + 2) / 5,
{
}

/// Month number (1 to 12) of the `mp`-th month of a year that starts in
/// March.
pub open spec fn month_of(mp: int) -> int {
    if mp < 10 {
        mp + 3
    } else {
        mp - 9
    }
}

proof fn lemma_month_table(mp: int, y: int)
    requires
        0 <= mp <= 11,
    ensures
        mp < 10 ==> (153 * mp + 2) / 5 == days_before_month(y, month_of(mp)) - 59 - if is_leap(
            y,
        ) {
            1int
        } else {
            0int
        },
        mp == 10 ==> (153 * mp + 2) / 5 == 306,
        mp == 11 ==> (153 * mp + 2) / 5 == 337,
        mp < 11 ==> (153 * (mp + 1) + 2) / 5 - (153 * mp + 2) / 5 == days_in_month(y, month_of(mp)),
{
}

#[verifier::spinoff_prover]
proof fn lemma_civil(era: int, yoe: int, doy: int, mp: int)
    requires
        era >= 0,
        0 <= yoe <= 399,
        0 <= doy <= 365,
        doy == 365 ==> ((yoe + 1) % 4 == 0 && ((yoe + 1) % 100 != 0 || (yoe + 1) % 400 == 0)),
        0 <= mp <= 11,
        (153 * mp + 2) / 5 <= doy,
        mp < 11 ==> doy < (153 * (mp + 1) + 2) / 5,
    ensures
        ({
            let yy = 400 * era + yoe;
            let m = month_of(mp);
            let y = if m <= 2 {
                yy + 1
            } else {
                yy
            };
            let d = doy - (153 * mp + 2) / 5 + 1;
            &&& valid_date(y, m, d)
            &&& days_from_civil(y, m, d) == 146097 * era + 365 * yoe + yoe / 4 - yoe / 100 + doy
                - 719468
        }),
{
    let yy = 400 * era + yoe;
    let m = month_of(mp);
    let y = if m <= 2 {
        yy + 1
    } else {
        yy
    };
    let start = (153 * mp + 2) / 5;
    let d = doy - start + 1;
    assert(yy / 4 == 100 * era + yoe / 4);
    assert(yy / 100 == 4 * era + yoe / 100);
    assert(yy / 400 == era);
    assert((yy + 1) % 4 == (yoe + 1) % 4);
    assert((yy + 1) % 100 == (yoe + 1) % 100);
    assert((yy + 1) % 400 == (yoe + 1) % 400);
    lemma_month_table(mp, y);
    assert(leaps_through(1969) == 477);
    if m > 2 {
        lemma_leaps_step(yy);
        assert(valid_date(y, m, d));
    } else {
        assert(leaps_through(y - 1) == yy / 4 - yy / 100 + yy / 400);
        if mp == 11 {
            assert(d <= 29);
            assert(d == 29 ==> is_leap(y));
        }
        assert(valid_date(y, m, d));
    }
}

/// The calendar day after `y-m-d`.
pub open spec fn next_date(y: int, m: int, d: int) -> (int, int, int) {
    if d < days_in_month(y, m) {
        (y, m, d + 1)
    } else if m < 12 {
        (y, m + 1, 1)
    } else {
        (y + 1, 1, 1)
    }
}

proof fn lemma_leaps_step(y: int)
    ensures
        leaps_through(y) - leaps_through(y - 1) == if is_leap(y) {
            1int
        } else {
            0int
        },
{
    assert(y / 4 - (y - 1) / 4 == if y % 4 == 0 {
        1int
    } else {
        0int
    });
    assert(y / 100 - (y - 1) / 100 == if y % 100 == 0 {
        1int
    } else {
        0int
    });
    assert(y / 400 - (y - 1) / 400 == if y % 400 == 0 {
        1int
    } else {
        0int
    });
    if y % 100 == 0 {
        assert(y % 4 == 0);
    }
    if y % 400 == 0 {
        assert(y % 100 == 0);
    }
}

/// The first of January of year `y + 1` comes 365 days, or 366 in a leap
/// year, after the first of January of year `y`.
proof fn lemma_year_length(y: int)
    ensures
        days_from_civil(y + 1, 1, 1) == days_from_civil(y, 1, 1) + 365 + if is_leap(y) {
            1int
        } else {
            0int
        },
{
    lemma_leaps_step(y);
}

/// A valid date lies within its year: on or after the first of January,
/// before the first of January of the next year.
proof fn lemma_within_year(y: int, m: int, d: int)
    requires
        valid_date(y, m, d),
    ensures
        days_from_civil(y, 1, 1) <= days_from_civil(y, m, d) < days_from_civil(y + 1, 1, 1),
{
    lemma_year_length(y);
}

/// Year starts grow by at least 365 days a year.
proof fn lemma_year_starts(y: int, k: nat)
    ensures
        days_from_civil(y + k, 1, 1) >= days_from_civil(y, 1, 1) + 365 * k,
    decreases k,
{
    if k > 0 {
        lemma_year_starts(y, (k - 1) as nat);
        lemma_year_length(y + k - 1);
    }
}

/// Within a year, the days of an earlier month all come before the days of
/// a later month.
proof fn lemma_months_ordered(y: int, m1: int, m2: int)
    requires
        1 <= m1 < m2 <= 12,
    ensures
        days_before_month(y, m1) + days_in_month(y, m1) <= days_before_month(y, m2),
{
}

/// The day after a valid date is a valid date, one day later.
pub proof fn lemma_next_date(y: int, m: int, d: int)
    requires
        valid_date(y, m, d),
    ensures
        valid_date(next_date(y, m, d).0, next_date(y, m, d).1, next_date(y, m, d).2),
        days_from_civil(next_date(y, m, d).0, next_date(y, m, d).1, next_date(y, m, d).2)
            == days_from_civil(y, m, d) + 1,
{
    if d == days_in_month(y, m) && m == 12 {
        lemma_year_length(y);
    }
}

/// Two valid dates with the same day count are the same date.
pub proof fn lemma_days_from_civil_injective(y1: int, m1: int, d1: int, y2: int, m2: int, d2: int)
    requires
        valid_date(y1, m1, d1),
        valid_date(y2, m2, d2),
        days_from_civil(y1, m1, d1) == days_from_civil(y2, m2, d2),
    ensures
        y1 == y2 && m1 == m2 && d1 == d2,
{
    lemma_within_year(y1, m1, d1);
    lemma_within_year(y2, m2, d2);
    if y1 < y2 {
        lemma_year_starts(y1 + 1, (y2 - y1 - 1) as nat);
        assert(false);
    } else if y2 < y1 {
        lemma_year_starts(y2 + 1, (y1 - y2 - 1) as nat);
        assert(false);
    } else if m1 < m2 {
        lemma_months_ordered(y1, m1, m2);
        assert(false);
    } else if m2 < m1 {
        lemma_months_ordered(y1, m2, m1);
        assert(false);
    }
}

/// Counting on by one day gives the next calendar day: of two valid dates,
/// the one whose day count is one more is the day after the other. So the
/// date of `days + 1` is the day after the date of `days`.
pub proof fn lemma_day_after(y1: int, m1: int, d1: int, y2: int, m2: int, d2: int)
    requires
        valid_date(y1, m1, d1),
        valid_date(y2, m2, d2),
        days_from_civil(y2, m2, d2) == days_from_civil(y1, m1, d1) + 1,
    ensures
        (y2, m2, d2) == next_date(y1, m1, d1),
{
    lemma_next_date(y1, m1, d1);
    let n = next_date(y1, m1, d1);
    lemma_days_from_civil_injective(n.0, n.1, n.2, y2, m2, d2);
}

/// The date `days` days after 1970-01-01, as (year, month, day).
pub fn days_to_ymd(days: u64) -> (r: (u64, u64, u64))
    requires
        days <= u64::MAX - 719468,
    ensures
        valid_date(r.0 as int, r.1 as int, r.2 as int),
        days_from_civil(r.0 as int, r.1 as int, r.2 as int) == days,
{
    let n = days + 719468;
    let era = n / 146097;
    let doe = n - era * 146097;
    assert(doe <= 146096);
    let yoe = (doe - doe / 1460 + doe / 36524 - doe / 146096) / 365;
    proof {
        lemma_year_of_era(doe as u32, yoe as u32);
    }
    let y = yoe + era * 400;
    let doy = doe - (365 * yoe + yoe / 4 - yoe / 100);
    let mp = (5 * doy + 2) / 153;
    proof {
        lemma_month_of_year(doy as u32, mp as u32);
    }
    let d = doy - (153 * mp + 2) / 5 + 1;
    let m = if mp < 10 {
        mp + 3
    } else {
        mp - 9
    };
    let y = if m <= 2 {
        y + 1
    } else {
        y
    };
    proof {
        lemma_civil(era as int, yoe as int, doy as int, mp as int);
    }
    (y, m, d)
}

} // verus!

verus! {

/// True when `text` is the UTC time `secs` seconds after the epoch written
/// `YYYY-MM-DDTHH:MM:SSZ`.
pub open spec fn is_iso_timestamp(text: Seq<char>, secs: nat) -> bool {
    let days = secs / 86400;
    let t = secs % 86400;
    exists|y: nat, m: nat, d: nat|
        valid_date(y as int, m as int, d as int) && days_from_civil(y as int, m as int, d as int)
            == days && text == zero_pad(nat_digits(y), 4) + seq!['-'] + zero_pad(nat_digits(m), 2)
            + seq!['-'] + zero_pad(nat_digits(d), 2) + seq!['T'] + zero_pad(
            nat_digits(t / 3600),
            2,
        ) + seq![':'] + zero_pad(nat_digits((t % 3600) / 60), 2) + seq![':'] + zero_pad(
            nat_digits(t % 60),
            2,
        ) + seq!['Z']
}

/// The UTC time `secs` seconds after the epoch, `YYYY-MM-DDTHH:MM:SSZ`.
pub fn iso_timestamp(secs: u64) -> (r: String)
    ensures
        is_iso_timestamp(r@, secs as nat),
{
    let days = secs / 86400;
    let time_of_day = secs % 86400;
    let hours = time_of_day / 3600;
    let minutes = (time_of_day % 3600) / 60;
    let seconds = time_of_day % 60;
    let (year, month, day) = days_to_ymd(days);
    let mut v = u64_padded(year, 4);
    v.push('-');
    let mo = u64_padded(month, 2);
    push_all(&mut v, mo.as_slice());
    v.push('-');
    let da = u64_padded(day, 2);
    push_all(&mut v, da.as_slice());
    v.push('T');
    let h = u64_padded(hours, 2);
    push_all(&mut v, h.as_slice());
    v.push(':');
    let mi = u64_padded(minutes, 2);
    push_all(&mut v, mi.as_slice());
    v.push(':');
    let s = u64_padded(seconds, 2);
    push_all(&mut v, s.as_slice());
    v.push('Z');
    let r = string_of(v.as_slice());
    assert(is_iso_timestamp(r@, secs as nat)) by {
        let t = (secs % 86400) as nat;
        assert(r@ =~= zero_pad(nat_digits(year as nat), 4) + seq!['-'] + zero_pad(
            nat_digits(month as nat),
            2,
        ) + seq!['-'] + zero_pad(nat_digits(day as nat), 2) + seq!['T'] + zero_pad(
            nat_digits(t / 3600),
            2,
        ) + seq![':'] + zero_pad(nat_digits((t % 3600) / 60), 2) + seq![':'] + zero_pad(
            nat_digits(t % 60),
            2,
        ) + seq!['Z']);
    }
    r
}

/// The current UTC time from the system clock, `YYYY-MM-DDTHH:MM:SSZ`.
pub fn chrono_now() -> (r: String)
    ensures
        exists|s: u64| is_iso_timestamp(r@, s as nat),
{
    let secs = crate::clock::unix_now_secs();
    iso_timestamp(secs)
}

} // verus!

verus! {

// ---------------------------------------------------------------------------
// The Markdown archive
// ---------------------------------------------------------------------------

#[verifier::external_type_specification]
#[verifier::external_body]
pub struct ExZipError(zip::result::ZipError);

/// A ZIP archive being written into memory. The writer is held out of
/// Verus's sight; [`zip_entries`] says what it holds.
#[verifier::external_body]
pub struct ZipBuffer {
    inner: zip::ZipWriter<std::io::Cursor<Vec<u8>>>,
}

/// The files of an archive being written, in the order they were started:
/// each file's name and the text written to it so far.
pub uninterp spec fn zip_entries(w: ZipBuffer) -> Seq<(Seq<char>, Seq<char>)>;

/// True while every operation on an archive has succeeded: no file has
/// been refused or aborted, and every file's data is below the large-file
/// threshold, so the writer can go on and finish.
pub uninterp spec fn zip_sound(w: ZipBuffer) -> bool;

/// The compression method of each file of an archive being written, in
/// the order the files were started.
pub uninterp spec fn zip_methods(w: ZipBuffer) -> Seq<ZipMethod>;

/// Longest file name, in bytes, the writer is asked to take: the local
/// header and the name must stay under 64 KiB.
pub const MAX_ZIP_NAME_BYTES: u64 = 60000;

/// Most bytes of text written to one file: well below the large-file
/// threshold of 4 GiB, leaving room for the compressed form.
pub const MAX_ZIP_TEXT_BYTES: u64 = 0xF000_0000;

/// How the data of a file is stored in an archive.
#[derive(PartialEq, Eq, Structural)]
pub enum ZipMethod {
    Stored,
    Deflated,
}

/// `ZipWriter::new` over an empty in-memory buffer: an archive with no
/// files, ready to be written.
#[verifier::external_body]
pub fn zip_new() -> (w: ZipBuffer)
    ensures
        zip_entries(w) == Seq::<(Seq<char>, Seq<char>)>::empty(),
        zip_methods(w) == Seq::<ZipMethod>::empty(),
        zip_sound(w),
{
    ZipBuffer { inner: zip::ZipWriter::new(std::io::Cursor::new(Vec::new())) }
}

/// `ZipWriter::start_file` with the given compression method: on success a
/// new, empty file named `name`, stored with `method`, follows the others.
/// A name that is already
/// taken is refused (the writer's duplicate-name check); on a sound writer
/// a name that is free and short enough is taken (the in-memory buffer
/// never fails to write).
#[verifier::external_body]
fn zip_start_file(w: &mut ZipBuffer, name: &str, method: ZipMethod) -> (r: Result<
    (),
    zip::result::ZipError,
>)
    ensures
        r is Ok ==> zip_entries(*final(w)) == zip_entries(*old(w)).push((name@, Seq::<char>::empty())),
        r is Ok ==> zip_methods(*final(w)) == zip_methods(*old(w)).push(method),
        (exists|i: int| 0 <= i < zip_entries(*old(w)).len() && (#[trigger] zip_entries(*old(w))[i]).0 == name@)
            ==> r is Err,
        zip_sound(*old(w)) && crate::text::utf8_len(name@) <= MAX_ZIP_NAME_BYTES && (forall|i: int|
            0 <= i < zip_entries(*old(w)).len() ==> (#[trigger] zip_entries(*old(w))[i]).0 != name@)
            ==> r is Ok && zip_sound(*final(w)),
{
    let m = match method {
        ZipMethod::Stored => zip::CompressionMethod::Stored,
        ZipMethod::Deflated => zip::CompressionMethod::Deflated,
    };
    w.inner.start_file(name, zip::write::SimpleFileOptions::default().compression_method(m))
}

/// `Write::write_all` of a text's UTF-8 bytes into the file last started:
/// on success that file's text is followed by `text`, and no file's
/// compression method changes. On a sound writer
/// with a file open, text that keeps the file below the size bound is
/// written.
#[verifier::external_body]
fn zip_write_text(w: &mut ZipBuffer, text: &str) -> (r: Result<(), std::io::Error>)
    ensures
        r is Ok && zip_entries(*old(w)).len() > 0 ==> zip_entries(*final(w)) == zip_entries(
            *old(w),
        ).update(
            zip_entries(*old(w)).len() - 1,
            (zip_entries(*old(w)).last().0, zip_entries(*old(w)).last().1 + text@),
        ),
        r is Ok ==> zip_methods(*final(w)) == zip_methods(*old(w)),
        zip_sound(*old(w)) && zip_entries(*old(w)).len() > 0 && crate::text::utf8_len(
            zip_entries(*old(w)).last().1,
        ) + crate::text::utf8_len(text@) <= MAX_ZIP_TEXT_BYTES ==> r is Ok && zip_sound(*final(w)),
{
    std::io::Write::write_all(&mut w.inner, text.as_bytes())
}

/// What finishing an archive gives: the bytes of the whole archive, or
/// none when the writer fails. It depends on the writer's state alone
/// (entries are written with the default, fixed timestamp).
pub uninterp spec fn zip_finished(w: ZipBuffer) -> Option<Seq<u8>>;

/// `ZipWriter::finish`, then `Cursor::into_inner`: the bytes of the
/// archive, as [`zip_finished`] names them; a sound writer finishes.
#[verifier::external_body]
fn zip_finish(w: ZipBuffer) -> (r: Result<Vec<u8>, zip::result::ZipError>)
    ensures
        match r {
            Ok(b) => zip_finished(w) == Some(b@),
            Err(_) => zip_finished(w) is None,
        },
        zip_sound(w) ==> r is Ok,
{
    w.inner.finish().map(|c| c.into_inner())
}

/// `Display` of a `ZipError`; nothing is stated of the text.
#[verifier::external_body]
fn zip_error_text(e: &zip::result::ZipError) -> String {
    e.to_string()
}

/// The files of the Markdown export of `notes`, one per note in order:
/// its file name and its document.
pub open spec fn markdown_entries(notes: Seq<Note>) -> Seq<(Seq<char>, Seq<char>)> {
    notes.map_values(|n: Note| (spec_markdown_filename(n), spec_markdown_document(n)))
}

/// True when no two files of `es` have the same name.
pub open spec fn names_distinct(es: Seq<(Seq<char>, Seq<char>)>) -> bool {
    forall|i: int, j: int| 0 <= i < j < es.len() ==> (#[trigger] es[i]).0 != (#[trigger] es[j]).0
}

/// True when every name and text of `es` is within the archive's bounds.
pub open spec fn entries_fit(es: Seq<(Seq<char>, Seq<char>)>) -> bool {
    forall|i: int|
        0 <= i < es.len() ==> crate::text::utf8_len((#[trigger] es[i]).0) <= MAX_ZIP_NAME_BYTES
            && crate::text::utf8_len(es[i].1) <= MAX_ZIP_TEXT_BYTES
}

/// Writes one Markdown file per note into the archive, in order. On
/// success the archive holds, after what it held, exactly the files of
/// [`markdown_entries`], each Deflate-compressed; any failure of the writer is a server-side error.
/// On a sound archive whose names, with the notes' file names, are all
/// different and within bounds, writing succeeds and leaves it sound.
pub fn write_markdown_entries(w: &mut ZipBuffer, notes: &[Note]) -> (r: Result<(), AppError>)
    ensures
        r is Ok ==> zip_entries(*final(w)) == zip_entries(*old(w)) + markdown_entries(notes@),
        r is Ok ==> zip_methods(*final(w)) == zip_methods(*old(w)) + Seq::new(
            notes@.len(),
            |k: int| ZipMethod::Deflated,
        ),
        r matches Err(e) ==> e is Internal,
        zip_sound(*old(w)) && names_distinct(zip_entries(*old(w)) + markdown_entries(notes@))
            && entries_fit(markdown_entries(notes@)) ==> r is Ok && zip_sound(*final(w)),
{
    let ghost start = zip_entries(*w);
    let ghost good = zip_sound(*w) && names_distinct(start + markdown_entries(notes@)) && entries_fit(
        markdown_entries(notes@),
    );
    let mut i: usize = 0;
    while i < notes.len()
        invariant
            i <= notes.len(),
            zip_entries(*w) == start + markdown_entries(notes@.take(i as int)),
            good == (zip_sound(*old(w)) && names_distinct(start + markdown_entries(notes@))
                && entries_fit(markdown_entries(notes@))),
            start == zip_entries(*old(w)),
            zip_methods(*w) == zip_methods(*old(w)) + Seq::new(i as nat, |k: int| ZipMethod::Deflated),
            good ==> zip_sound(*w),
        decreases notes.len() - i,
    {
        let note = &notes[i];
        let name = markdown_filename(note);
        let ghost all = start + markdown_entries(notes@);
        let ghost cur = zip_entries(*w);
        proof {
            if good {
                assert(markdown_entries(notes@)[i as int] == (
                    spec_markdown_filename(notes@[i as int]),
                    spec_markdown_document(notes@[i as int]),
                ));
                assert(all[start.len() + i] == markdown_entries(notes@)[i as int]);
                assert forall|k: int| 0 <= k < cur.len() implies (#[trigger] cur[k]).0 != name@ by {
                    if k < start.len() {
                        assert(cur[k] == all[k]);
                    } else {
                        assert(cur[k] == markdown_entries(notes@.take(i as int))[k - start.len()]);
                        assert(cur[k] == all[k]);
                    }
                    assert(all[k].0 != all[start.len() + i].0);
                }
                assert(crate::text::utf8_len(name@) <= MAX_ZIP_NAME_BYTES);
            }
        }
        match zip_start_file(w, name.as_str(), ZipMethod::Deflated) {
            Ok(()) => {},
            Err(e) => {
                let t = zip_error_text(&e);
                return Err(crate::routes::notes::internal_with("ZIP error: ", t.as_str()));
            },
        }
        let doc = markdown_document(note);
        proof {
            if good {
                assert(markdown_entries(notes@)[i as int].1 == doc@);
                assert(zip_entries(*w).last().1 == Seq::<char>::empty());
                assert(crate::text::utf8_len(Seq::<char>::empty()) == 0);
            }
        }
        match zip_write_text(w, doc.as_str()) {
            Ok(()) => {},
            Err(e) => {
                let t = crate::routes::ingest::io_error_text(&e);
                return Err(crate::routes::notes::internal_with("ZIP write error: ", t.as_str()));
            },
        }
        assert(markdown_entries(notes@.take(i + 1)) =~= markdown_entries(notes@.take(i as int)).push(
            (spec_markdown_filename(notes@[i as int]), spec_markdown_document(notes@[i as int])),
        ));
        assert(Seq::<char>::empty() + doc@ =~= doc@);
        assert(zip_methods(*old(w)) + Seq::new((i + 1) as nat, |k: int| ZipMethod::Deflated)
            =~= (zip_methods(*old(w)) + Seq::new(i as nat, |k: int| ZipMethod::Deflated)).push(
            ZipMethod::Deflated,
        ));
        i += 1;
    }
    assert(notes@.take(notes@.len() as int) =~= notes@);
    Ok(())
}

/// The bytes of a finished archive (see [`zip_finished`]); a failure of
/// the writer is a server-side error.
pub fn finish_archive(w: ZipBuffer) -> (r: Result<Vec<u8>, AppError>)
    ensures
        zip_sound(w) ==> r is Ok,
        match zip_finished(w) {
            Some(b) => r matches Ok(v) && v@ == b,
            None => r matches Err(e) && e is Internal,
        },
{
    match zip_finish(w) {
        Ok(bytes) => Ok(bytes),
        Err(e) => {
            let t = zip_error_text(&e);
            Err(crate::routes::notes::internal_with("ZIP finish error: ", t.as_str()))
        },
    }
}

/// The Markdown export as a ZIP archive: the files of
/// [`write_markdown_entries`], Deflate-compressed; any failure of the
/// writer is a server-side error. The bytes are those of a finished
/// archive that holds exactly the notes' files, in order. The export
/// succeeds when the notes' file names are all different and every name
/// and document is within the archive's bounds.
pub fn export_markdown_zip(notes: &[Note]) -> (r: Result<Vec<u8>, AppError>)
    ensures
        r matches Ok(b) ==> exists|w: ZipBuffer|
            zip_entries(w) == markdown_entries(notes@) && zip_methods(w) == Seq::new(
                notes@.len(),
                |k: int| ZipMethod::Deflated,
            ) && #[trigger] zip_finished(w) == Some(b@),
        r matches Err(e) ==> e is Internal,
        names_distinct(markdown_entries(notes@)) && entries_fit(markdown_entries(notes@)) ==> r is Ok,
{
    let mut w = zip_new();
    assert(Seq::<(Seq<char>, Seq<char>)>::empty() + markdown_entries(notes@) =~= markdown_entries(notes@));
    match write_markdown_entries(&mut w, notes) {
        Ok(()) => {},
        Err(e) => return Err(e),
    }
    let ghost written = w;
    assert(zip_entries(written) =~= markdown_entries(notes@));
    assert(zip_methods(written) =~= Seq::new(notes@.len(), |k: int| ZipMethod::Deflated));
    let r = finish_archive(w);
    proof {
        match r {
            Ok(ref b) => {
                assert(zip_finished(written) == Some(b@));
            },
            Err(_) => {},
        }
    }
    r
}

} // verus!
