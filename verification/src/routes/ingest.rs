//! Ingestion endpoints (bookmarks, YouTube videos, tweets, web articles):
//! request shapes, URL recognition, transcript and Markdown clean-up, and
//! the text of the notes they create.
use vstd::prelude::*;

use crate::text::{
    all_ws, chars_eq, chars_of, contains, contains_chars, first_in, first_in_chars, is_ascii_digit,
    is_whitespace, is_ws, join, join_chars, lines, lines_chars, lower, lower_chars, push_all,
    push_str, seq_eq, slice_chars, split_char, split_char_chars, split_char_from, starts_with,
    starts_with_chars, str_eq, str_views, string_of, strip_both, strip_both_chars, strip_start,
    strip_start_chars, trim, trim_chars, trim_end, trim_start, utf8_len, utf8_len_chars, views,
};

verus! {

// ---------------------------------------------------------------------------
// Request and response shapes
// ---------------------------------------------------------------------------

/// One bookmark to import.
pub struct Bookmark {
    pub title: String,
    pub url: String,
    pub notes: Option<String>,
    pub tags: Option<Vec<String>>,
}

/// Body of `POST /api/ingest/bookmarks`.
pub struct BookmarksImportRequest {
    pub bookmarks: Vec<Bookmark>,
}

/// Answer of `POST /api/ingest/bookmarks`.
pub struct BookmarksImportResponse {
    pub imported: usize,
    pub failed: usize,
    pub note_ids: Vec<i64>,
}

/// Body of `POST /api/ingest/youtube`.
pub struct YouTubeIngestRequest {
    pub url: String,
}

/// Answer of `POST /api/ingest/youtube`.
pub struct YouTubeIngestResponse {
    pub note_id: i64,
    pub title: String,
    pub summary: String,
}

/// Body of `POST /api/ingest/url`.
pub struct UrlIngestRequest {
    pub url: String,
    pub tags: Option<Vec<String>>,
}

/// Answer of `POST /api/ingest/url`.
pub struct UrlIngestResponse {
    pub note_id: i64,
    pub title: String,
    pub url: String,
    pub word_count: usize,
}

/// How an ingestion handler fails: a request refused with a message, or a
/// server-side failure.
#[derive(Debug)]
pub enum AppError {
    BadRequest(String),
    Internal(anyhow::Error),
}

impl From<anyhow::Error> for AppError {
    fn from(e: anyhow::Error) -> (r: AppError) {
        AppError::Internal(e)
    }
}

impl vstd::std_specs::convert::FromSpecImpl<anyhow::Error> for AppError {
    open spec fn obeys_from_spec() -> bool {
        true
    }

    open spec fn from_spec(e: anyhow::Error) -> AppError {
        AppError::Internal(e)
    }
}

/// True when `e` refuses the request with exactly the message `msg`.
pub open spec fn refuses(e: AppError, msg: Seq<char>) -> bool {
    e matches AppError::BadRequest(m) && m@ == msg
}

// ---------------------------------------------------------------------------
// YouTube URLs
// ---------------------------------------------------------------------------

proof fn lemma_split_char_len(s: Seq<char>, c: char, cur: Seq<char>)
    ensures
        split_char_from(s, c, cur).len() >= 1,
    decreases s.len(),
{
    if s.len() > 0 {
        if s[0] == c {
            lemma_split_char_len(s.drop_first(), c, seq![]);
        } else {
            lemma_split_char_len(s.drop_first(), c, cur.push(s[0]));
        }
    }
}

/// The part of `s` before its first `c` (`s.split(c).next()`).
pub open spec fn before_char(s: Seq<char>, c: char) -> Seq<char> {
    split_char(s, c)[0]
}

/// Executable [`before_char`].
fn before_char_chars(v: &[char], c: char) -> (r: Vec<char>)
    ensures
        r@ == before_char(v@, c),
{
    let mut pieces = split_char_chars(v, c);
    proof {
        lemma_split_char_len(v@, c, seq![]);
    }
    let first = pieces.remove(0);
    first
}

/// The value of the first `v=` parameter among query parameters.
pub open spec fn v_param(params: Seq<Seq<char>>) -> Option<Seq<char>>
    decreases params.len(),
{
    if params.len() == 0 {
        None
    } else if starts_with(params[0], "v="@) {
        Some(params[0].skip(2))
    } else {
        v_param(params.drop_first())
    }
}

/// The video id a YouTube URL names: the path of a `youtu.be` link, the
/// first `v=` query parameter, or the part after `/embed/`; the short and
/// embed forms stop at `?`.
pub open spec fn spec_extract_video_id(url: Seq<char>) -> Option<Seq<char>> {
    if starts_with(url, "https://youtu.be/"@) {
        Some(before_char(url.skip(17), '?'))
    } else {
        let from_query = match first_in(url, seq!['?']) {
            Some(q) => v_param(split_char(url.skip(q as int + 1), '&')),
            None => None,
        };
        match from_query {
            Some(v) => Some(v),
            None => match crate::text::find(url, "/embed/"@) {
                Some(p) => Some(before_char(url.skip(p as int + 7), '?')),
                None => None,
            },
        }
    }
}

/// Executable [`v_param`] over the pieces of a query.
fn v_param_chars(params: &Vec<Vec<char>>) -> (r: Option<Vec<char>>)
    ensures
        match r {
            Some(v) => v_param(views(params@)) == Some(v@),
            None => v_param(views(params@)) is None,
        },
{
    proof {
        reveal_strlit("v=");
    }
    let prefix = ['v', '='];
    assert(prefix@ =~= "v="@);
    let ghost ps = views(params@);
    let mut i: usize = 0;
    assert(ps.skip(0) =~= ps);
    while i < params.len()
        invariant
            i <= params@.len(),
            ps == views(params@),
            prefix@ == "v="@,
            v_param(ps) == v_param(ps.skip(i as int)),
        decreases params@.len() - i,
    {
        assert(ps.skip(i as int)[0] == params@[i as int]@);
        assert(ps.skip(i as int).drop_first() =~= ps.skip(i + 1));
        if starts_with_chars(params[i].as_slice(), &prefix) {
            let p = params[i].as_slice();
            let r = slice_chars(p, 2, p.len());
            assert(r@ =~= params@[i as int]@.skip(2));
            return Some(r);
        }
        i += 1;
    }
    None
}

/// Extracts the video id of a YouTube URL; refused when the URL has none.
pub fn extract_video_id(url: &str) -> (r: Result<String, AppError>)
    ensures
        match spec_extract_video_id(url@) {
            Some(id) => r matches Ok(s) && s@ == id,
            None => r matches Err(e) && refuses(e, "Could not extract video ID from URL"@),
        },
{
    let v = chars_of(url);
    let vn = v.len();
    proof {
        reveal_strlit("https://youtu.be/");
        reveal_strlit("/embed/");
    }
    let short = chars_of("https://youtu.be/");
    if starts_with_chars(v.as_slice(), short.as_slice()) {
        let rest = slice_chars(v.as_slice(), 17, v.len());
        assert(rest@ =~= url@.skip(17));
        let id = before_char_chars(rest.as_slice(), '?');
        return Ok(string_of(id.as_slice()));
    }
    let q = ['?'];
    assert(q@ =~= seq!['?']);
    let from_query = match first_in_chars(v.as_slice(), &q) {
        Some(k) => {
            let query = slice_chars(v.as_slice(), k + 1, v.len());
            assert(query@ =~= url@.skip(k + 1));
            let params = split_char_chars(query.as_slice(), '&');
            v_param_chars(&params)
        },
        None => None,
    };
    match from_query {
        Some(id) => Ok(string_of(id.as_slice())),
        None => {
            let embed = chars_of("/embed/");
            match crate::text::find_chars(v.as_slice(), embed.as_slice()) {
                Some(p) => {
                    proof {
                        assert(p + 7 <= v@.len());
                    }
                    let rest = slice_chars(v.as_slice(), p + 7, v.len());
                    assert(rest@ =~= url@.skip(p + 7));
                    let id = before_char_chars(rest.as_slice(), '?');
                    Ok(string_of(id.as_slice()))
                },
                None => Err(AppError::BadRequest("Could not extract video ID from URL".to_owned())),
            }
        },
    }
}

// ---------------------------------------------------------------------------
// WebVTT transcripts
// ---------------------------------------------------------------------------

/// `s` without the parts inside `<…>`, in a tag when `in_tag`.
pub open spec fn untag(s: Seq<char>, in_tag: bool) -> Seq<char>
    decreases s.len(),
{
    if s.len() == 0 {
        seq![]
    } else if s[0] == '<' {
        untag(s.drop_first(), true)
    } else if s[0] == '>' {
        untag(s.drop_first(), false)
    } else if !in_tag {
        seq![s[0]] + untag(s.drop_first(), in_tag)
    } else {
        untag(s.drop_first(), in_tag)
    }
}

/// A caption line without its formatting tags, trimmed.
pub open spec fn spec_strip_vtt_tags(s: Seq<char>) -> Seq<char> {
    trim(untag(s, false))
}

fn strip_vtt_tags_chars(v: &[char]) -> (r: Vec<char>)
    ensures
        r@ == spec_strip_vtt_tags(v@),
{
    let mut out: Vec<char> = Vec::new();
    let mut in_tag = false;
    let mut i: usize = 0;
    assert(v@.skip(0) =~= v@);
    while i < v.len()
        invariant
            i <= v@.len(),
            untag(v@, false) == out@ + untag(v@.skip(i as int), in_tag),
        decreases v@.len() - i,
    {
        let c = v[i];
        let ghost rest = v@.skip(i as int);
        assert(rest[0] == c);
        assert(rest.drop_first() =~= v@.skip(i + 1));
        if c == '<' {
            in_tag = true;
        } else if c == '>' {
            in_tag = false;
        } else if !in_tag {
            let ghost o = out@;
            out.push(c);
            assert(o + (seq![c] + untag(v@.skip(i + 1), in_tag)) =~= out@ + untag(
                v@.skip(i + 1),
                in_tag,
            ));
        }
        i += 1;
    }
    assert(v@.skip(i as int) =~= Seq::<char>::empty());
    assert(out@ + Seq::<char>::empty() =~= out@);
    trim_chars(out.as_slice())
}

/// Removes formatting tags such as `<c.colorE5E5E5>` or `</c>` from a
/// caption line, and trims it.
pub fn strip_vtt_tags(s: &str) -> (r: String)
    ensures
        r@ == spec_strip_vtt_tags(s@),
{
    let v = chars_of(s);
    let r = strip_vtt_tags_chars(v.as_slice());
    string_of(r.as_slice())
}

/// A character of a bare timestamp line.
pub open spec fn is_timestamp_char(c: char) -> bool {
    is_ascii_digit(c) || c == ':' || c == '.' || c == ','
}

/// A trimmed line that carries no caption text: blank, a header, a note, a
/// cue timing, or a bare timestamp of at most 20 bytes.
pub open spec fn vtt_skipped(t: Seq<char>) -> bool {
    ||| t.len() == 0
    ||| starts_with(t, "WEBVTT"@)
    ||| starts_with(t, "Kind:"@)
    ||| starts_with(t, "Language:"@)
    ||| starts_with(t, "NOTE"@)
    ||| contains(t, "-->"@)
    ||| (utf8_len(t) <= 20 && forall|i: int| 0 <= i < t.len() ==> is_timestamp_char(#[trigger] t[i]))
}

/// Caption texts of the lines `ls`, the last kept one being `prev`: each
/// kept line is trimmed and untagged, and a line equal to the one before
/// it is dropped.
pub open spec fn vtt_texts(ls: Seq<Seq<char>>, prev: Seq<char>) -> Seq<Seq<char>>
    decreases ls.len(),
{
    if ls.len() == 0 {
        seq![]
    } else {
        let t = trim(ls[0]);
        if vtt_skipped(t) {
            vtt_texts(ls.drop_first(), prev)
        } else {
            let c = spec_strip_vtt_tags(t);
            if c.len() > 0 && c != prev {
                seq![c] + vtt_texts(ls.drop_first(), c)
            } else {
                vtt_texts(ls.drop_first(), prev)
            }
        }
    }
}

/// The caption text of a WebVTT document, lines joined by spaces.
pub open spec fn spec_parse_vtt(vtt: Seq<char>) -> Seq<char> {
    join(vtt_texts(lines(vtt), seq![]), seq![' '])
}

fn is_vtt_skipped(t: &[char]) -> (b: bool)
    ensures
        b == vtt_skipped(t@),
{
    if t.len() == 0 {
        return true;
    }
    let a = chars_of("WEBVTT");
    let b = chars_of("Kind:");
    let c = chars_of("Language:");
    let d = chars_of("NOTE");
    let e = chars_of("-->");
    if starts_with_chars(t, a.as_slice()) || starts_with_chars(t, b.as_slice()) || starts_with_chars(
        t,
        c.as_slice(),
    ) || starts_with_chars(t, d.as_slice()) || contains_chars(t, e.as_slice()) {
        return true;
    }
    utf8_len_chars(t) <= 20 && all_timestamp_chars(t)
}

fn all_timestamp_chars(t: &[char]) -> (b: bool)
    ensures
        b == forall|i: int| 0 <= i < t@.len() ==> is_timestamp_char(#[trigger] t@[i]),
{
    let mut i: usize = 0;
    while i < t.len()
        invariant
            i <= t@.len(),
            forall|j: int| 0 <= j < i ==> is_timestamp_char(#[trigger] t@[j]),
        decreases t@.len() - i,
    {
        let ch = t[i];
        if !(('0' <= ch && ch <= '9') || ch == ':' || ch == '.' || ch == ',') {
            assert(!is_timestamp_char(t@[i as int]));
            return false;
        }
        i += 1;
    }
    true
}

/// Turns a WebVTT document into plain text: headers, notes, timings and
/// tags removed, consecutive repeated lines dropped, lines joined by
/// spaces.
pub fn parse_vtt(vtt: &str) -> (r: String)
    ensures
        r@ == spec_parse_vtt(vtt@),
{
    let v = chars_of(vtt);
    let ls = lines_chars(v.as_slice());
    let ghost lv = views(ls@);
    let mut kept: Vec<Vec<char>> = Vec::new();
    let mut prev: Vec<char> = Vec::new();
    let mut i: usize = 0;
    assert(lv.skip(0) =~= lv);
    while i < ls.len()
        invariant
            i <= ls@.len(),
            lv == views(ls@),
            vtt_texts(lv, seq![]) == views(kept@) + vtt_texts(lv.skip(i as int), prev@),
        decreases ls@.len() - i,
    {
        let ghost rest = lv.skip(i as int);
        assert(rest[0] == ls@[i as int]@);
        assert(rest.drop_first() =~= lv.skip(i + 1));
        let t = trim_chars(ls[i].as_slice());
        if !is_vtt_skipped(t.as_slice()) {
            let c = strip_vtt_tags_chars(t.as_slice());
            if c.len() > 0 && !chars_eq(c.as_slice(), prev.as_slice()) {
                let ghost o = views(kept@);
                let c2 = slice_chars(c.as_slice(), 0, c.len());
                assert(c2@ =~= c@);
                kept.push(c2);
                prev = c;
                assert(views(kept@) =~= o.push(prev@));
                assert(o + (seq![prev@] + vtt_texts(lv.skip(i + 1), prev@)) =~= views(kept@)
                    + vtt_texts(lv.skip(i + 1), prev@));
            }
        }
        i += 1;
    }
    assert(lv.skip(i as int) =~= Seq::<Seq<char>>::empty());
    assert(views(kept@) + Seq::<Seq<char>>::empty() =~= views(kept@));
    let sp = [' '];
    assert(sp@ =~= seq![' ']);
    let j = join_chars(&kept, &sp);
    string_of(j.as_slice())
}

// ---------------------------------------------------------------------------
// Tweets
// ---------------------------------------------------------------------------

/// The host of a lower-cased URL without its port.
pub open spec fn tweet_host(l: Seq<char>) -> Seq<char> {
    before_char(spec_url_domain(l), ':')
}

/// A tweet host: x.com or twitter.com, or one of their subdomains.
pub open spec fn is_tweet_host(host: Seq<char>) -> bool {
    ||| host == "x.com"@
    ||| host == "twitter.com"@
    ||| crate::text::ends_with(host, ".x.com"@)
    ||| crate::text::ends_with(host, ".twitter.com"@)
}

/// A tweet URL: on x.com or twitter.com (a subdomain and a port are
/// allowed), with a `/status/` path, in any letter case.
pub open spec fn spec_is_twitter_url(url: Seq<char>) -> bool {
    let l = lower(url);
    is_tweet_host(tweet_host(l)) && contains(l, "/status/"@)
}

/// Whether a URL is a tweet URL (see [`spec_is_twitter_url`]).
pub fn is_twitter_url(url: &str) -> (b: bool)
    ensures
        b == spec_is_twitter_url(url@),
{
    let v = chars_of(url);
    let l = lower_chars(v.as_slice());
    let ls = string_of(l.as_slice());
    let domain = url_domain(ls.as_str());
    let dv = chars_of(domain.as_str());
    let hv = before_char_chars(dv.as_slice(), ':');
    let host = string_of(hv.as_slice());
    let sx = chars_of(".x.com");
    let st = chars_of(".twitter.com");
    let s = chars_of("/status/");
    let on_host = str_eq(host.as_str(), "x.com") || str_eq(host.as_str(), "twitter.com")
        || crate::text::ends_with_chars(hv.as_slice(), sx.as_slice())
        || crate::text::ends_with_chars(hv.as_slice(), st.as_slice());
    on_host && contains_chars(l.as_slice(), s.as_slice())
}

} // verus!

verus! {

/// Short English name of a two-digit month number; the text itself when
/// it names no month.
pub open spec fn month_name(mm: Seq<char>) -> Seq<char> {
    if mm == "01"@ {
        "Jan"@
    } else if mm == "02"@ {
        "Feb"@
    } else if mm == "03"@ {
        "Mar"@
    } else if mm == "04"@ {
        "Apr"@
    } else if mm == "05"@ {
        "May"@
    } else if mm == "06"@ {
        "Jun"@
    } else if mm == "07"@ {
        "Jul"@
    } else if mm == "08"@ {
        "Aug"@
    } else if mm == "09"@ {
        "Sep"@
    } else if mm == "10"@ {
        "Oct"@
    } else if mm == "11"@ {
        "Nov"@
    } else if mm == "12"@ {
        "Dec"@
    } else {
        mm
    }
}

fn month_name_chars(mm: &[char]) -> (r: Vec<char>)
    ensures
        r@ == month_name(mm@),
{
    let name = if seq_eq(mm, "01") {
        "Jan"
    } else if seq_eq(mm, "02") {
        "Feb"
    } else if seq_eq(mm, "03") {
        "Mar"
    } else if seq_eq(mm, "04") {
        "Apr"
    } else if seq_eq(mm, "05") {
        "May"
    } else if seq_eq(mm, "06") {
        "Jun"
    } else if seq_eq(mm, "07") {
        "Jul"
    } else if seq_eq(mm, "08") {
        "Aug"
    } else if seq_eq(mm, "09") {
        "Sep"
    } else if seq_eq(mm, "10") {
        "Oct"
    } else if seq_eq(mm, "11") {
        "Nov"
    } else if seq_eq(mm, "12") {
        "Dec"
    } else {
        return slice_chars(mm, 0, mm.len());
    };
    chars_of(name)
}

/// True when `s` holds the character `c`.
pub open spec fn has_char(s: Seq<char>, c: char) -> bool {
    s.contains(c)
}

/// `format_tweet_date` would cut the first ten bytes of its argument: true
/// when that cut falls on a character boundary, so that it does not panic.
pub open spec fn tweet_date_ok(created_at: Seq<char>) -> bool {
    (has_char(created_at, 'T') && has_char(created_at, '-')) ==> crate::background::tts::prefix_chars(
        created_at,
        10,
    ) is Some
}

/// A tweet date as `Mon DD YYYY`: an ISO date (one with `T` and `-`)
/// through its first ten bytes when they split into three parts on `-`,
/// else the 2nd, 3rd and 6th words of the classic Twitter format, else the
/// text unchanged.
pub open spec fn spec_format_tweet_date(c: Seq<char>) -> Seq<char> {
    let iso_parts = match crate::background::tts::prefix_chars(c, 10) {
        Some(k) => split_char(c.take(k as int), '-'),
        None => seq![],
    };
    if has_char(c, 'T') && has_char(c, '-') && iso_parts.len() == 3 {
        month_name(iso_parts[1]) + seq![' '] + iso_parts[2] + seq![' '] + iso_parts[0]
    } else {
        let w = crate::text::words(c, crate::text::WordKind::NonWhitespace);
        if w.len() >= 6 {
            w[1] + seq![' '] + w[2] + seq![' '] + w[5]
        } else {
            c
        }
    }
}

/// Number of leading characters of `v` that take exactly `n` bytes, if the
/// `n`th byte ends a character.
fn prefix_chars_exec(v: &[char], n: usize) -> (r: Option<usize>)
    ensures
        match r {
            Some(k) => crate::background::tts::prefix_chars(v@, n as nat) == Some(k as nat),
            None => crate::background::tts::prefix_chars(v@, n as nat) is None,
        },
{
    let mut i: usize = 0;
    let mut left: usize = n;
    assert(v@.skip(0) =~= v@);
    while i < v.len() && left > 0
        invariant
            i <= v@.len(),
            left <= n,
            crate::background::tts::prefix_chars(v@, n as nat) == match crate::background::tts::prefix_chars(
                v@.skip(i as int),
                left as nat,
            ) {
                Some(k) => Some((k + i) as nat),
                None => None,
            },
        decreases v@.len() - i,
    {
        let w = crate::text::width_of(v[i]);
        let ghost rest = v@.skip(i as int);
        assert(rest[0] == v@[i as int]);
        assert(rest.drop_first() =~= v@.skip(i + 1));
        if w > left {
            return None;
        }
        left = left - w;
        i += 1;
    }
    if left == 0 {
        Some(i)
    } else {
        assert(v@.skip(i as int).len() == 0);
        None
    }
}

/// Formats a tweet's creation date (see [`spec_format_tweet_date`]).
pub fn format_tweet_date(created_at: &str) -> (r: String)
    requires
        tweet_date_ok(created_at@),
    ensures
        r@ == spec_format_tweet_date(created_at@),
{
    let v = chars_of(created_at);
    let has_t = crate::text::char_in('T', v.as_slice());
    let has_dash = crate::text::char_in('-', v.as_slice());
    let iso = match prefix_chars_exec(v.as_slice(), 10) {
        Some(k) => {
            proof {
                crate::background::tts::lemma_prefix_chars(v@, 10);
            }
            let head = slice_chars(v.as_slice(), 0, k);
            assert(head@ =~= v@.take(k as int));
            split_char_chars(head.as_slice(), '-')
        },
        None => Vec::new(),
    };
    if has_t && has_dash && iso.len() == 3 {
        let mut out = month_name_chars(iso[1].as_slice());
        out.push(' ');
        push_all(&mut out, iso[2].as_slice());
        out.push(' ');
        push_all(&mut out, iso[0].as_slice());
        return string_of(out.as_slice());
    }
    let w = crate::text::words_chars(v.as_slice(), crate::text::WordKind::NonWhitespace);
    if w.len() >= 6 {
        let mut out: Vec<char> = Vec::new();
        push_all(&mut out, w[1].as_slice());
        out.push(' ');
        push_all(&mut out, w[2].as_slice());
        out.push(' ');
        push_all(&mut out, w[5].as_slice());
        string_of(out.as_slice())
    } else {
        string_of(v.as_slice())
    }
}

/// `text` when it has at most `max_len` characters (nothing is cut); else
/// its first `max_len` characters, trailing whitespace removed, followed by
/// `...`.
pub open spec fn spec_truncate_text(text: Seq<char>, max_len: nat) -> Seq<char> {
    if text.len() <= max_len {
        text
    } else {
        trim_end(text.take(max_len as int)) + "..."@
    }
}

proof fn lemma_trim_end_len(s: Seq<char>)
    ensures
        trim_end(s).len() <= s.len(),
    decreases s.len(),
{
    if s.len() > 0 && is_ws(s.last()) {
        lemma_trim_end_len(s.drop_last());
    }
}

/// Shortens text for a title (see [`spec_truncate_text`]).
pub fn truncate_text(text: &str, max_len: usize) -> (r: String)
    ensures
        r@ == spec_truncate_text(text@, max_len as nat),
        r@.len() <= max_len + 3,
{
    proof {
        reveal_strlit("...");
        if max_len < text@.len() {
            lemma_trim_end_len(text@.take(max_len as int));
        }
    }
    let v = chars_of(text);
    if v.len() <= max_len {
        return string_of(v.as_slice());
    }
    let head = slice_chars(v.as_slice(), 0, max_len);
    assert(head@ =~= v@.take(max_len as int));
    let mut out = crate::text::trim_end_chars(head.as_slice());
    push_str(&mut out, "...");
    string_of(out.as_slice())
}

} // verus!

verus! {

// ---------------------------------------------------------------------------
// Tweet articles
// ---------------------------------------------------------------------------

/// A block of a tweet article (Draft.js): its text and its type.
pub struct FxArticleBlock {
    pub text: Option<String>,
    pub block_type: Option<String>,
}

/// The Markdown line of one block, if it has one: headings one level
/// deeper than their type says, list items, quotes, nothing for media, and
/// non-blank paragraphs as they are.
pub open spec fn block_line(b: FxArticleBlock) -> Option<Seq<char>> {
    let text = match b.text {
        Some(t) => t@,
        None => seq![],
    };
    let ty = match b.block_type {
        Some(t) => t@,
        None => "unstyled"@,
    };
    if ty == "header-one"@ {
        Some("## "@ + text + seq!['\n'])
    } else if ty == "header-two"@ {
        Some("### "@ + text + seq!['\n'])
    } else if ty == "header-three"@ {
        Some("#### "@ + text + seq!['\n'])
    } else if ty == "ordered-list-item"@ {
        Some("1. "@ + text)
    } else if ty == "unordered-list-item"@ {
        Some("- "@ + text)
    } else if ty == "blockquote"@ {
        Some("> "@ + text + seq!['\n'])
    } else if ty == "atomic"@ {
        None
    } else if trim(text).len() > 0 {
        Some(text + seq!['\n'])
    } else {
        None
    }
}

/// The lines of the blocks that have one, in order.
pub open spec fn block_lines(bs: Seq<FxArticleBlock>) -> Seq<Seq<char>>
    decreases bs.len(),
{
    if bs.len() == 0 {
        seq![]
    } else {
        block_lines(bs.drop_last()) + match block_line(bs.last()) {
            Some(l) => seq![l],
            None => Seq::<Seq<char>>::empty(),
        }
    }
}

/// The Markdown of an article: the block lines joined by newlines.
pub open spec fn spec_article_markdown(bs: Seq<FxArticleBlock>) -> Seq<char> {
    join(block_lines(bs), seq!['\n'])
}

fn block_line_chars(b: &FxArticleBlock) -> (r: Option<Vec<char>>)
    ensures
        match r {
            Some(v) => block_line(*b) == Some(v@),
            None => block_line(*b) is None,
        },
{
    let text: Vec<char> = match &b.text {
        Some(t) => chars_of(t.as_str()),
        None => Vec::new(),
    };
    let ty: &str = match &b.block_type {
        Some(t) => t.as_str(),
        None => "unstyled",
    };
    let mut out: Vec<char> = Vec::new();
    if str_eq(ty, "header-one") {
        push_str(&mut out, "## ");
        push_all(&mut out, text.as_slice());
        out.push('\n');
    } else if str_eq(ty, "header-two") {
        push_str(&mut out, "### ");
        push_all(&mut out, text.as_slice());
        out.push('\n');
    } else if str_eq(ty, "header-three") {
        push_str(&mut out, "#### ");
        push_all(&mut out, text.as_slice());
        out.push('\n');
    } else if str_eq(ty, "ordered-list-item") {
        push_str(&mut out, "1. ");
        push_all(&mut out, text.as_slice());
    } else if str_eq(ty, "unordered-list-item") {
        push_str(&mut out, "- ");
        push_all(&mut out, text.as_slice());
    } else if str_eq(ty, "blockquote") {
        push_str(&mut out, "> ");
        push_all(&mut out, text.as_slice());
        out.push('\n');
    } else if str_eq(ty, "atomic") {
        return None;
    } else {
        let t = trim_chars(text.as_slice());
        if t.len() == 0 {
            return None;
        }
        push_all(&mut out, text.as_slice());
        out.push('\n');
    }
    Some(out)
}

/// Converts the blocks of a tweet article to Markdown (see
/// [`spec_article_markdown`]).
pub fn article_blocks_to_markdown(blocks: &[FxArticleBlock]) -> (r: String)
    ensures
        r@ == spec_article_markdown(blocks@),
{
    let mut ls: Vec<Vec<char>> = Vec::new();
    let mut i: usize = 0;
    assert(blocks@.take(0) =~= Seq::<FxArticleBlock>::empty());
    while i < blocks.len()
        invariant
            i <= blocks@.len(),
            views(ls@) == block_lines(blocks@.take(i as int)),
        decreases blocks@.len() - i,
    {
        assert(blocks@.take(i + 1).drop_last() =~= blocks@.take(i as int));
        assert(blocks@.take(i + 1).last() == blocks@[i as int]);
        let ghost o = views(ls@);
        match block_line_chars(&blocks[i]) {
            Some(l) => {
                ls.push(l);
                assert(views(ls@) =~= o + seq![l@]);
            },
            None => {
                assert(views(ls@) =~= o + Seq::<Seq<char>>::empty());
            },
        }
        i += 1;
    }
    assert(blocks@.take(blocks@.len() as int) =~= blocks@);
    let nl = ['\n'];
    assert(nl@ =~= seq!['\n']);
    let j = join_chars(&ls, &nl);
    string_of(j.as_slice())
}

// ---------------------------------------------------------------------------
// Cleaning clipped Markdown
// ---------------------------------------------------------------------------

/// Headings of the reference sections that end clipped articles.
pub open spec fn is_reference_title(h: Seq<char>) -> bool {
    ||| h == "works cited"@
    ||| h == "work cited"@
    ||| h == "references"@
    ||| h == "sources"@
    ||| h == "bibliography"@
    ||| h == "citations"@
    ||| h == "further reading"@
    ||| h == "external links"@
}

/// A line that opens a reference section: once trimmed, stripped of
/// heading marks and of `:`, `.` and `-` at both ends, and lowercased, it
/// is one of the [`is_reference_title`] headings.
pub open spec fn spec_is_reference_heading(line: Seq<char>) -> bool {
    is_reference_title(
        lower(strip_both(trim(strip_start(trim(line), seq!['#'])), seq![':', '.', '-'])),
    )
}

/// Whether a line opens a reference section.
pub fn is_reference_heading(line: &str) -> (b: bool)
    ensures
        b == spec_is_reference_heading(line@),
{
    let v = chars_of(line);
    let t = trim_chars(v.as_slice());
    let hash = ['#'];
    assert(hash@ =~= seq!['#']);
    let a = strip_start_chars(t.as_slice(), &hash);
    let b = trim_chars(a.as_slice());
    let marks = [':', '.', '-'];
    assert(marks@ =~= seq![':', '.', '-']);
    let c = strip_both_chars(b.as_slice(), &marks);
    let h = lower_chars(c.as_slice());
    let h = h.as_slice();
    seq_eq(h, "works cited") || seq_eq(h, "work cited") || seq_eq(h, "references") || seq_eq(
        h,
        "sources",
    ) || seq_eq(h, "bibliography") || seq_eq(h, "citations") || seq_eq(h, "further reading")
        || seq_eq(h, "external links")
}

/// Index of the first reference heading among the lines.
pub open spec fn first_reference(ls: Seq<Seq<char>>) -> Option<nat>
    decreases ls.len(),
{
    if ls.len() == 0 {
        None
    } else if spec_is_reference_heading(ls[0]) {
        Some(0)
    } else {
        match first_reference(ls.drop_first()) {
            Some(k) => Some(k + 1),
            None => None,
        }
    }
}

/// The Markdown cut before its first reference heading (then trimmed at
/// the end); unchanged when it has none.
pub open spec fn spec_remove_trailing_reference_section(md: Seq<char>) -> Seq<char> {
    match first_reference(lines(md)) {
        None => md,
        Some(k) => trim_end(join(lines(md).take(k as int), seq!['\n'])),
    }
}

proof fn lemma_first_reference_skip(ls: Seq<Seq<char>>, i: int)
    requires
        0 <= i <= ls.len(),
        forall|j: int| 0 <= j < i ==> !spec_is_reference_heading(#[trigger] ls[j]),
    ensures
        first_reference(ls) == match first_reference(ls.skip(i)) {
            Some(k) => Some((k + i) as nat),
            None => None,
        },
    decreases i,
{
    if i == 0 {
        assert(ls.skip(0) =~= ls);
    } else {
        assert(!spec_is_reference_heading(ls[0]));
        lemma_first_reference_skip(ls.drop_first(), i - 1);
        assert(ls.drop_first().skip(i - 1) =~= ls.skip(i));
    }
}

proof fn lemma_lower_ends(w: Seq<char>)
    requires
        w.len() > 0,
    ensures
        lower(w).len() > 0,
        lower(w)[0] == crate::text::lower_char(w[0])[0],
        lower(w).last() == crate::text::lower_char(w.last()).last(),
{
    assert(lower(w) == crate::text::lower_char(w[0]) + lower(w.drop_first()));
    crate::text::lemma_lower_take_next(w, w.len() - 1);
    assert(w.take(w.len() as int) =~= w);
}

/// A heading line opens a reference section when, after its `#` marks and
/// the spaces that follow them, its words lowercase to one of: works
/// cited, work cited, references, sources, bibliography, citations,
/// further reading, external links.
pub proof fn lemma_reference_heading_line(
    line: Seq<char>,
    hashes: Seq<char>,
    spaces: Seq<char>,
    w: Seq<char>,
)
    requires
        trim(line) == hashes + spaces + w,
        forall|i: int| 0 <= i < hashes.len() ==> #[trigger] hashes[i] == '#',
        forall|i: int| 0 <= i < spaces.len() ==> is_ws(#[trigger] spaces[i]),
        lower(w) == "works cited"@ ||
            lower(w) == "work cited"@ ||
            lower(w) == "references"@ ||
            lower(w) == "sources"@ ||
            lower(w) == "bibliography"@ ||
            lower(w) == "citations"@ ||
            lower(w) == "further reading"@ ||
            lower(w) == "external links"@,
    ensures
        spec_is_reference_heading(line),
{
    reveal_strlit("works cited");
    reveal_strlit("work cited");
    reveal_strlit("references");
    reveal_strlit("sources");
    reveal_strlit("bibliography");
    reveal_strlit("citations");
    reveal_strlit("further reading");
    reveal_strlit("external links");
    let title = lower(w);
    assert(title.len() > 0 && 'a' <= title[0] && title[0] <= 'z' && 'a' <= title.last()
        && title.last() <= 'z');
    if w.len() == 0 {
        assert(lower(w) =~= Seq::<char>::empty());
    }
    lemma_lower_ends(w);
    let c0 = w[0];
    let cl = w.last();
    assert(!is_ws(c0) && c0 != '#' && c0 != ':' && c0 != '.' && c0 != '-') by {
        if is_ws(c0) || c0 == '#' || c0 == ':' || c0 == '.' || c0 == '-' {
            assert(crate::text::lower_char(c0) == seq![c0]);
        }
    }
    assert(!is_ws(cl) && cl != ':' && cl != '.' && cl != '-') by {
        if is_ws(cl) || cl == ':' || cl == '.' || cl == '-' {
            assert(crate::text::lower_char(cl) == seq![cl]);
        }
    }
    let hash = seq!['#'];
    let marks = seq![':', '.', '-'];
    assert(hash[0] == '#');
    let t = trim(line);
    crate::text::lemma_strip_start_skip(t, hash, hashes.len() as int);
    let s1 = t.skip(hashes.len() as int);
    assert(s1 =~= spaces + w);
    assert(s1.len() > 0 && !hash.contains(s1[0])) by {
        if spaces.len() > 0 {
            assert(s1[0] == spaces[0]);
        } else {
            assert(s1[0] == c0);
        }
    }
    assert(strip_start(t, hash) == s1);
    assert(s1.take(spaces.len() as int) =~= spaces);
    crate::text::lemma_trim_start_skip(s1, spaces.len() as int);
    assert(s1.skip(spaces.len() as int) =~= w);
    assert(crate::text::trim_start(w) == w);
    assert(trim_end(w) == w);
    assert(trim(s1) == w);
    assert(!marks.contains(c0));
    assert(!marks.contains(cl));
    assert(strip_start(w, marks) == w);
    assert(crate::text::strip_end(w, marks) == w);
    assert(strip_both(w, marks) == w);
}

/// A reference heading cuts the Markdown: when line `k` is a heading of
/// [`lemma_reference_heading_line`]'s kind and no earlier line opens a
/// reference section, only the lines before it are kept, so nothing from
/// the heading onward reaches the cleaned Markdown.
pub proof fn lemma_reference_section_cut(
    md: Seq<char>,
    k: int,
    hashes: Seq<char>,
    spaces: Seq<char>,
    w: Seq<char>,
)
    requires
        0 <= k < lines(md).len(),
        trim(lines(md)[k]) == hashes + spaces + w,
        forall|i: int| 0 <= i < hashes.len() ==> #[trigger] hashes[i] == '#',
        forall|i: int| 0 <= i < spaces.len() ==> is_ws(#[trigger] spaces[i]),
        lower(w) == "works cited"@ ||
            lower(w) == "work cited"@ ||
            lower(w) == "references"@ ||
            lower(w) == "sources"@ ||
            lower(w) == "bibliography"@ ||
            lower(w) == "citations"@ ||
            lower(w) == "further reading"@ ||
            lower(w) == "external links"@,
        forall|j: int| 0 <= j < k ==> !spec_is_reference_heading(#[trigger] lines(md)[j]),
    ensures
        spec_remove_trailing_reference_section(md) == trim_end(join(lines(md).take(k), seq!['\n'])),
        spec_clean_clipped_markdown(md) == trim(
            spec_remove_trailing_link_farm(trim_end(join(lines(md).take(k), seq!['\n']))),
        ),
{
    let ls = lines(md);
    lemma_reference_heading_line(ls[k], hashes, spaces, w);
    lemma_first_reference_skip(ls, k);
    assert(ls.skip(k)[0] == ls[k]);
}

/// Drops a trailing reference section (see
/// [`spec_remove_trailing_reference_section`]).
pub fn remove_trailing_reference_section(markdown: &str) -> (r: String)
    ensures
        r@ == spec_remove_trailing_reference_section(markdown@),
{
    let v = chars_of(markdown);
    let mut ls = lines_chars(v.as_slice());
    let ghost lv = views(ls@);
    let mut i: usize = 0;
    while i < ls.len()
        invariant
            i <= ls@.len(),
            lv == views(ls@),
            lv == lines(markdown@),
            v@ == markdown@,
            forall|j: int| 0 <= j < i ==> !spec_is_reference_heading(#[trigger] lv[j]),
        decreases ls@.len() - i,
    {
        let line = string_of(ls[i].as_slice());
        if is_reference_heading(line.as_str()) {
            proof {
                lemma_first_reference_skip(lv, i as int);
                assert(lv.skip(i as int)[0] == lv[i as int]);
            }
            ls.truncate(i);
            assert(views(ls@) =~= lv.take(i as int));
            let nl = ['\n'];
            assert(nl@ =~= seq!['\n']);
            let j = join_chars(&ls, &nl);
            let t = crate::text::trim_end_chars(j.as_slice());
            return string_of(t.as_slice());
        }
        i += 1;
    }
    proof {
        lemma_first_reference_skip(lv, i as int);
        assert(lv.skip(i as int) =~= Seq::<Seq<char>>::empty());
    }
    string_of(v.as_slice())
}

/// A list item (`- `, `* ` or a leading digit, after leading whitespace)
/// that carries a link.
pub open spec fn spec_is_list_like_link_line(line: Seq<char>) -> bool {
    let t = trim_start(line);
    let listish = starts_with(t, "- "@) || starts_with(t, "* "@) || (t.len() > 0 && is_ascii_digit(
        t[0],
    ));
    listish && (contains(t, "]("@) || contains(t, "http://"@) || contains(t, "https://"@))
}

/// Whether a line is a list item with a link.
pub fn is_list_like_link_line(line: &str) -> (b: bool)
    ensures
        b == spec_is_list_like_link_line(line@),
{
    let v = chars_of(line);
    let (a, _e) = crate::text::trim_bounds(v.as_slice());
    let t = slice_chars(v.as_slice(), a, v.len());
    assert(t@ =~= v@.skip(a as int));
    let dash = chars_of("- ");
    let star = chars_of("* ");
    let listish = starts_with_chars(t.as_slice(), dash.as_slice()) || starts_with_chars(
        t.as_slice(),
        star.as_slice(),
    ) || (t.len() > 0 && '0' <= t[0] && t[0] <= '9');
    if !listish {
        return false;
    }
    let link = chars_of("](");
    let http = chars_of("http://");
    let https = chars_of("https://");
    contains_chars(t.as_slice(), link.as_slice()) || contains_chars(t.as_slice(), http.as_slice())
        || contains_chars(t.as_slice(), https.as_slice())
}

/// The lines that are not blank, in order.
pub open spec fn meaningful_lines(ls: Seq<Seq<char>>) -> Seq<Seq<char>>
    decreases ls.len(),
{
    if ls.len() == 0 {
        seq![]
    } else if trim(ls.last()).len() > 0 {
        meaningful_lines(ls.drop_last()).push(ls.last())
    } else {
        meaningful_lines(ls.drop_last())
    }
}

/// How many of the lines are list items with links.
pub open spec fn count_link_lines(ls: Seq<Seq<char>>) -> nat
    decreases ls.len(),
{
    if ls.len() == 0 {
        0
    } else {
        count_link_lines(ls.drop_last()) + if spec_is_list_like_link_line(ls.last()) {
            1nat
        } else {
            0nat
        }
    }
}

/// A block of at least three non-blank lines of which at least three, and
/// at least half, are list items with links.
pub open spec fn spec_is_link_farm_block(block: Seq<char>) -> bool {
    let m = meaningful_lines(lines(block));
    let k = count_link_lines(m);
    m.len() >= 3 && k >= 3 && 2 * k >= m.len()
}

fn meaningful_chars(ls: &Vec<Vec<char>>) -> (r: Vec<Vec<char>>)
    ensures
        views(r@) == meaningful_lines(views(ls@)),
{
    let ghost lv = views(ls@);
    let mut r: Vec<Vec<char>> = Vec::new();
    let mut i: usize = 0;
    assert(lv.take(0) =~= Seq::<Seq<char>>::empty());
    while i < ls.len()
        invariant
            i <= ls@.len(),
            lv == views(ls@),
            views(r@) == meaningful_lines(lv.take(i as int)),
        decreases ls@.len() - i,
    {
        assert(lv.take(i + 1).drop_last() =~= lv.take(i as int));
        assert(lv.take(i + 1).last() == lv[i as int]);
        let t = trim_chars(ls[i].as_slice());
        if t.len() > 0 {
            let ghost o = views(r@);
            let c = slice_chars(ls[i].as_slice(), 0, ls[i].len());
            assert(c@ =~= lv[i as int]);
            r.push(c);
            assert(views(r@) =~= o.push(lv[i as int]));
        }
        i += 1;
    }
    assert(lv.take(ls@.len() as int) =~= lv);
    r
}

fn count_links(ms: &Vec<Vec<char>>) -> (n: usize)
    ensures
        n == count_link_lines(views(ms@)),
        n <= ms@.len(),
{
    let ghost mv = views(ms@);
    let mut n: usize = 0;
    let mut i: usize = 0;
    assert(mv.take(0) =~= Seq::<Seq<char>>::empty());
    while i < ms.len()
        invariant
            i <= ms@.len(),
            mv == views(ms@),
            n == count_link_lines(mv.take(i as int)),
            n <= i,
        decreases ms@.len() - i,
    {
        assert(mv.take(i + 1).drop_last() =~= mv.take(i as int));
        assert(mv.take(i + 1).last() == mv[i as int]);
        let line = string_of(ms[i].as_slice());
        if is_list_like_link_line(line.as_str()) {
            n += 1;
        }
        i += 1;
    }
    assert(mv.take(ms@.len() as int) =~= mv);
    n
}

/// Whether a block is a trailing link farm (see [`spec_is_link_farm_block`]).
pub fn is_link_farm_block(block: &str) -> (b: bool)
    ensures
        b == spec_is_link_farm_block(block@),
{
    let v = chars_of(block);
    let ls = lines_chars(v.as_slice());
    let ms = meaningful_chars(&ls);
    let m = ms.len();
    let k = count_links(&ms);
    m >= 3 && k >= 3 && k >= m - k
}

/// How many leading blocks remain once trailing link-farm blocks are
/// dropped.
pub open spec fn kept_blocks(bs: Seq<Seq<char>>) -> nat
    decreases bs.len(),
{
    if bs.len() == 0 {
        0
    } else if spec_is_link_farm_block(bs.last()) {
        kept_blocks(bs.drop_last())
    } else {
        bs.len()
    }
}

/// The Markdown without its trailing link-farm blocks (blocks being the
/// parts between blank lines), trimmed at the end.
pub open spec fn spec_remove_trailing_link_farm(md: Seq<char>) -> Seq<char> {
    let bs = crate::text::split_str(md, "\n\n"@);
    trim_end(join(bs.take(kept_blocks(bs) as int), "\n\n"@))
}

proof fn lemma_kept_blocks_le(bs: Seq<Seq<char>>)
    ensures
        kept_blocks(bs) <= bs.len(),
    decreases bs.len(),
{
    if bs.len() > 0 && spec_is_link_farm_block(bs.last()) {
        lemma_kept_blocks_le(bs.drop_last());
    }
}

/// Drops trailing link-farm blocks (see
/// [`spec_remove_trailing_link_farm`]).
pub fn remove_trailing_link_farm(markdown: &str) -> (r: String)
    ensures
        r@ == spec_remove_trailing_link_farm(markdown@),
{
    let v = chars_of(markdown);
    proof {
        reveal_strlit("\n\n");
    }
    let sep = chars_of("\n\n");
    let mut bs = crate::text::split_str_chars(v.as_slice(), sep.as_slice());
    let ghost all = views(bs@);
    let mut n: usize = bs.len();
    assert(all.take(n as int) =~= all);
    while n > 0
        invariant
            n <= all.len(),
            all == views(bs@),
            kept_blocks(all) == kept_blocks(all.take(n as int)),
        ensures
            kept_blocks(all) == n,
            n <= all.len(),
            all == views(bs@),
        decreases n,
    {
        let b = string_of(bs[n - 1].as_slice());
        assert(all.take(n as int).last() == all[n - 1]);
        if !is_link_farm_block(b.as_str()) {
            assert(all.take(n as int).len() == n);
            break;
        }
        assert(all.take(n as int).drop_last() =~= all.take(n - 1));
        n -= 1;
    }
    bs.truncate(n);
    assert(views(bs@) =~= all.take(n as int));
    let j = join_chars(&bs, sep.as_slice());
    let t = crate::text::trim_end_chars(j.as_slice());
    string_of(t.as_slice())
}

/// Clipped Markdown without trailing reference sections and link farms,
/// trimmed.
pub open spec fn spec_clean_clipped_markdown(md: Seq<char>) -> Seq<char> {
    trim(spec_remove_trailing_link_farm(spec_remove_trailing_reference_section(md)))
}

/// Removes citation and link clutter from the end of clipped Markdown,
/// keeping ordinary inline links.
pub fn clean_clipped_markdown(markdown: &str) -> (r: String)
    ensures
        r@ == spec_clean_clipped_markdown(markdown@),
{
    let a = remove_trailing_reference_section(markdown);
    let b = remove_trailing_link_farm(a.as_str());
    crate::text::trim_string(b.as_str())
}

} // verus!

verus! {

// ---------------------------------------------------------------------------
// Notes built from bookmarks and videos
// ---------------------------------------------------------------------------

/// Content of a bookmark's note: its title, then its notes after a blank
/// line when it has some.
pub open spec fn spec_bookmark_content(title: Seq<char>, notes: Option<Seq<char>>) -> Seq<char> {
    match notes {
        Some(n) => title + "\n\n"@ + n,
        None => title,
    }
}

/// Content of a bookmark's note.
pub fn bookmark_content(bookmark: &Bookmark) -> (r: String)
    ensures
        r@ == spec_bookmark_content(
            bookmark.title@,
            match bookmark.notes {
                Some(n) => Some(n@),
                None => None,
            },
        ),
{
    match &bookmark.notes {
        Some(n) => {
            let mut v = chars_of(bookmark.title.as_str());
            push_str(&mut v, "\n\n");
            push_str(&mut v, n.as_str());
            string_of(v.as_slice())
        },
        None => bookmark.title.clone(),
    }
}

/// Title of a video whose details could not be fetched.
pub fn fallback_video_title(video_id: &str) -> (r: String)
    ensures
        r@ == "YouTube Video "@ + video_id@,
{
    let mut v: Vec<char> = Vec::new();
    push_str(&mut v, "YouTube Video ");
    push_str(&mut v, video_id);
    string_of(v.as_slice())
}

/// The request text that asks for a summary of a video transcript.
pub fn summary_prompt(video_title: &str, transcript: &str) -> (r: String)
    ensures
        r@ == "Please provide a concise summary of this YouTube video transcript.\n\nVideo Title: "@
            + video_title@ + "\n\nTranscript:\n"@ + transcript@,
{
    let mut v: Vec<char> = Vec::new();
    push_str(
        &mut v,
        "Please provide a concise summary of this YouTube video transcript.\n\nVideo Title: ",
    );
    push_str(&mut v, video_title);
    push_str(&mut v, "\n\nTranscript:\n");
    push_str(&mut v, transcript);
    string_of(v.as_slice())
}

/// The refusal for a summarization request the service answered with an
/// error status (`status` as the HTTP status displays, e.g. `400 Bad
/// Request`).
pub fn summarize_error(status: &str, body: &str) -> (e: AppError)
    ensures
        refuses(e, "Gemini summarization failed ("@ + status@ + "): "@ + body@),
{
    let mut v: Vec<char> = Vec::new();
    push_str(&mut v, "Gemini summarization failed (");
    push_str(&mut v, status);
    push_str(&mut v, "): ");
    push_str(&mut v, body);
    AppError::BadRequest(string_of(v.as_slice()))
}

/// Content of a video's note: the title, then the summary when there is
/// one, else a line saying why there is none, then the link.
pub open spec fn spec_youtube_content(
    title: Seq<char>,
    summary: Option<Seq<char>>,
    has_transcript: bool,
    summary_failed: bool,
    url: Seq<char>,
) -> Seq<char> {
    match summary {
        Some(s) => "# "@ + title + "\n\n## Summary\n\n"@ + s + "\n\n## Video\n\n"@ + url,
        None => if has_transcript && summary_failed {
            "# "@ + title
                + "\n\n*Transcript available but summarization failed. Check server logs for details.*\n\n## Video\n\n"@
                + url
        } else if has_transcript {
            "# "@ + title
                + "\n\n*Transcript available but summarization skipped (Gemini not configured).*\n\n## Video\n\n"@
                + url
        } else {
            "# "@ + title + "\n\n*No transcript available for this video.*\n\n## Video\n\n"@ + url
        },
    }
}

/// Content of a video's note (see [`spec_youtube_content`]).
pub fn youtube_content(
    title: &str,
    summary: &Option<String>,
    has_transcript: bool,
    summary_failed: bool,
    url: &str,
) -> (r: String)
    ensures
        r@ == spec_youtube_content(
            title@,
            match summary {
                Some(s) => Some(s@),
                None => None,
            },
            has_transcript,
            summary_failed,
            url@,
        ),
{
    let mut v: Vec<char> = Vec::new();
    push_str(&mut v, "# ");
    push_str(&mut v, title);
    match summary {
        Some(s) => {
            push_str(&mut v, "\n\n## Summary\n\n");
            push_str(&mut v, s.as_str());
            push_str(&mut v, "\n\n## Video\n\n");
        },
        None => {
            if has_transcript && summary_failed {
                push_str(
                    &mut v,
                    "\n\n*Transcript available but summarization failed. Check server logs for details.*\n\n## Video\n\n",
                );
            } else if has_transcript {
                push_str(
                    &mut v,
                    "\n\n*Transcript available but summarization skipped (Gemini not configured).*\n\n## Video\n\n",
                );
            } else {
                push_str(&mut v, "\n\n*No transcript available for this video.*\n\n## Video\n\n");
            }
        },
    }
    push_str(&mut v, url);
    string_of(v.as_slice())
}

// ---------------------------------------------------------------------------
// Web articles
// ---------------------------------------------------------------------------

/// Refuses a URL that is not `http://` or `https://`.
pub fn validate_clip_url(url: &str) -> (r: Result<(), AppError>)
    ensures
        r is Ok <==> (starts_with(url@, "http://"@) || starts_with(url@, "https://"@)),
        r matches Err(e) ==> refuses(e, "URL must start with http:// or https://"@),
{
    let v = chars_of(url);
    let a = chars_of("http://");
    let b = chars_of("https://");
    if starts_with_chars(v.as_slice(), a.as_slice()) || starts_with_chars(v.as_slice(), b.as_slice()) {
        Ok(())
    } else {
        Err(AppError::BadRequest("URL must start with http:// or https://".to_owned()))
    }
}

/// The refusal for a URL already clipped as note `id`.
pub fn already_clipped(id: i64) -> (e: AppError)
    ensures
        refuses(e, "Article already clipped as note "@ + crate::text::int_decimal(id as int)),
{
    let mut v: Vec<char> = Vec::new();
    push_str(&mut v, "Article already clipped as note ");
    let d = crate::text::i64_decimal(id);
    push_all(&mut v, d.as_slice());
    AppError::BadRequest(string_of(v.as_slice()))
}

/// The refusal for a page answered with an error status.
pub fn fetch_failed(code: u16, reason: Option<&str>) -> (e: AppError)
    ensures
        refuses(
            e,
            "Failed to fetch article: "@ + crate::text::nat_digits(code as nat) + seq![' ']
                + match reason {
                Some(r) => r@,
                None => "Unknown"@,
            },
        ),
{
    let mut v: Vec<char> = Vec::new();
    push_str(&mut v, "Failed to fetch article: ");
    let d = crate::text::u64_digits(code as u64);
    push_all(&mut v, d.as_slice());
    v.push(' ');
    match reason {
        Some(r) => push_str(&mut v, r),
        None => push_str(&mut v, "Unknown"),
    }
    let s = string_of(v.as_slice());
    assert(s@ =~= "Failed to fetch article: "@ + crate::text::nat_digits(code as nat) + seq![' ']
        + match reason {
        Some(r) => r@,
        None => "Unknown"@,
    });
    AppError::BadRequest(s)
}

/// The refusal for a page with no readable article.
pub fn not_readable() -> (e: AppError)
    ensures
        refuses(e, "Page does not appear to contain a readable article"@),
{
    AppError::BadRequest("Page does not appear to contain a readable article".to_owned())
}

/// The host part of a URL: what follows the first `//` up to the next `/`;
/// the whole URL when it has no `//`.
pub open spec fn spec_url_domain(url: Seq<char>) -> Seq<char> {
    let parts = crate::text::split_str(url, "//"@);
    if parts.len() >= 2 {
        before_char(parts[1], '/')
    } else {
        url
    }
}

/// The host part of a URL (see [`spec_url_domain`]).
pub fn url_domain(url: &str) -> (r: String)
    ensures
        r@ == spec_url_domain(url@),
{
    let v = chars_of(url);
    proof {
        reveal_strlit("//");
    }
    let sep = chars_of("//");
    let parts = crate::text::split_str_chars(v.as_slice(), sep.as_slice());
    if parts.len() >= 2 {
        let d = before_char_chars(parts[1].as_slice(), '/');
        string_of(d.as_slice())
    } else {
        string_of(v.as_slice())
    }
}

/// The quoted line under a clipped article's title: where it was clipped
/// from, its author and its publication time when known.
pub open spec fn spec_clip_meta_line(
    domain: Seq<char>,
    url: Seq<char>,
    byline: Option<Seq<char>>,
    published: Option<Seq<char>>,
) -> Seq<char> {
    "> Clipped from ["@ + domain + "]("@ + url + ")"@ + match byline {
        Some(b) => "\n> By "@ + b,
        None => seq![],
    } + match published {
        Some(p) => " | Published "@ + p,
        None => seq![],
    }
}

/// Content of a clipped article's note: title, source line, rule, and the
/// trimmed Markdown.
pub open spec fn spec_clip_content(
    title: Seq<char>,
    domain: Seq<char>,
    url: Seq<char>,
    byline: Option<Seq<char>>,
    published: Option<Seq<char>>,
    markdown: Seq<char>,
) -> Seq<char> {
    "# "@ + title + "\n\n"@ + spec_clip_meta_line(domain, url, byline, published) + "\n\n---\n\n"@
        + trim(markdown)
}

/// Content of a clipped article's note (see [`spec_clip_content`]).
pub fn clip_content(
    title: &str,
    url: &str,
    byline: &Option<String>,
    published: &Option<String>,
    markdown: &str,
) -> (r: String)
    ensures
        r@ == spec_clip_content(
            title@,
            spec_url_domain(url@),
            url@,
            match byline {
                Some(b) => Some(b@),
                None => None,
            },
            match published {
                Some(p) => Some(p@),
                None => None,
            },
            markdown@,
        ),
{
    let domain = url_domain(url);
    let mut v: Vec<char> = Vec::new();
    push_str(&mut v, "# ");
    push_str(&mut v, title);
    push_str(&mut v, "\n\n");
    let ghost at_meta = v@;
    push_str(&mut v, "> Clipped from [");
    push_str(&mut v, domain.as_str());
    push_str(&mut v, "](");
    push_str(&mut v, url);
    push_str(&mut v, ")");
    match byline {
        Some(b) => {
            push_str(&mut v, "\n> By ");
            push_str(&mut v, b.as_str());
        },
        None => {},
    }
    match published {
        Some(p) => {
            push_str(&mut v, " | Published ");
            push_str(&mut v, p.as_str());
        },
        None => {},
    }
    push_str(&mut v, "\n\n---\n\n");
    let md = chars_of(markdown);
    let t = trim_chars(md.as_slice());
    push_all(&mut v, t.as_slice());
    let r = string_of(v.as_slice());
    assert(r@ =~= spec_clip_content(
        title@,
        domain@,
        url@,
        match byline {
            Some(b) => Some(b@),
            None => None,
        },
        match published {
            Some(p) => Some(p@),
            None => None,
        },
        markdown@,
    ));
    r
}

/// Number of whitespace-separated words (`split_whitespace().count()`).
pub fn word_count(text: &str) -> (n: usize)
    ensures
        n == crate::text::words(text@, crate::text::WordKind::NonWhitespace).len(),
{
    let v = chars_of(text);
    let w = crate::text::words_chars(v.as_slice(), crate::text::WordKind::NonWhitespace);
    w.len()
}

/// Tags of a clipped article: the requested ones, else `web-clip`.
pub fn clip_tags(tags: Option<Vec<String>>) -> (r: Vec<String>)
    ensures
        match tags {
            Some(t) => r@ == t@,
            None => str_views(r@) == seq!["web-clip"@],
        },
{
    match tags {
        Some(t) => t,
        None => {
            let mut r: Vec<String> = Vec::new();
            r.push("web-clip".to_owned());
            assert(str_views(r@) =~= seq!["web-clip"@]);
            r
        },
    }
}

} // verus!

verus! {

// ---------------------------------------------------------------------------
// Notes built from tweets
// ---------------------------------------------------------------------------

/// The characters of an optional string.
pub open spec fn opt_view(o: Option<String>) -> Option<Seq<char>> {
    match o {
        Some(s) => Some(s@),
        None => None,
    }
}

/// The characters of an optional string, empty when absent.
pub open spec fn or_empty(o: Option<String>) -> Seq<char> {
    match o {
        Some(s) => s@,
        None => seq![],
    }
}

/// `path` with the known tweet-site prefixes removed, in the order the
/// server removes them.
pub open spec fn spec_tweet_path(url: Seq<char>) -> Seq<char> {
    crate::text::replace_all(
        crate::text::replace_all(
            crate::text::replace_all(
                crate::text::replace_all(url, "https://x.com/"@, seq![]),
                "https://twitter.com/"@,
                seq![],
            ),
            "http://x.com/"@,
            seq![],
        ),
        "http://twitter.com/"@,
        seq![],
    )
}

/// FxTwitter address of a tweet URL.
pub fn fxtwitter_api_url(url: &str) -> (r: String)
    ensures
        r@ == "https://api.fxtwitter.com/"@ + spec_tweet_path(url@),
{
    proof {
        reveal_strlit("https://x.com/");
        reveal_strlit("https://twitter.com/");
        reveal_strlit("http://x.com/");
        reveal_strlit("http://twitter.com/");
    }
    let empty: Vec<char> = Vec::new();
    assert(empty@ =~= Seq::<char>::empty());
    let v = chars_of(url);
    let p1 = chars_of("https://x.com/");
    let a = crate::text::replace_all_chars(v.as_slice(), p1.as_slice(), empty.as_slice());
    let p2 = chars_of("https://twitter.com/");
    let b = crate::text::replace_all_chars(a.as_slice(), p2.as_slice(), empty.as_slice());
    let p3 = chars_of("http://x.com/");
    let c = crate::text::replace_all_chars(b.as_slice(), p3.as_slice(), empty.as_slice());
    let p4 = chars_of("http://twitter.com/");
    let d = crate::text::replace_all_chars(c.as_slice(), p4.as_slice(), empty.as_slice());
    let mut out: Vec<char> = Vec::new();
    push_str(&mut out, "https://api.fxtwitter.com/");
    push_all(&mut out, d.as_slice());
    string_of(out.as_slice())
}

/// The refusal when the tweet service answers with an error status.
pub fn tweet_fetch_failed(status: &str, url: &str) -> (e: AppError)
    ensures
        refuses(e, "FxTwitter API returned "@ + status@ + " for "@ + url@),
{
    let mut v: Vec<char> = Vec::new();
    push_str(&mut v, "FxTwitter API returned ");
    push_str(&mut v, status);
    push_str(&mut v, " for ");
    push_str(&mut v, url);
    AppError::BadRequest(string_of(v.as_slice()))
}

/// The refusal when the tweet service finds no tweet.
pub fn tweet_not_found() -> (e: AppError)
    ensures
        refuses(e, "Tweet not found"@),
{
    AppError::BadRequest("Tweet not found".to_owned())
}

/// What a tweet note is made of, as the tweet service describes the tweet.
pub struct TweetView {
    pub text: Option<String>,
    pub author_name: Option<String>,
    pub screen_name: Option<String>,
    pub created_at: Option<String>,
    pub likes: Option<i64>,
    pub replies: Option<i64>,
    pub retweets: Option<i64>,
    pub article_title: Option<String>,
    pub article_blocks: Option<Vec<FxArticleBlock>>,
    pub photo_urls: Option<Vec<Option<String>>>,
}

/// The note made of a tweet: its content, title and word count.
pub struct TweetNote {
    pub content: String,
    pub title: String,
    pub word_count: usize,
}

/// The author's handle, `unknown` when absent.
pub open spec fn tweet_handle(t: TweetView) -> Seq<char> {
    match t.screen_name {
        Some(h) => h@,
        None => "unknown"@,
    }
}

/// The author's display name, the handle when absent.
pub open spec fn tweet_display_name(t: TweetView) -> Seq<char> {
    match t.author_name {
        Some(n) => n@,
        None => tweet_handle(t),
    }
}

/// The tweet's date as the note shows it, empty when absent.
pub open spec fn tweet_date(t: TweetView) -> Seq<char> {
    match t.created_at {
        Some(c) => spec_format_tweet_date(c@),
        None => seq![],
    }
}

/// The parts of the tweet's metadata line.
pub open spec fn meta_parts(t: TweetView, url: Seq<char>) -> Seq<Seq<char>> {
    let h = tweet_handle(t);
    seq!["[@"@ + h + "](https://x.com/"@ + h + ")"@] + (if tweet_date(t).len() > 0 {
        seq![tweet_date(t)]
    } else {
        Seq::<Seq<char>>::empty()
    }) + match t.likes {
        Some(n) => seq![crate::text::int_decimal(n as int) + " likes"@],
        None => Seq::<Seq<char>>::empty(),
    } + match t.replies {
        Some(n) => seq![crate::text::int_decimal(n as int) + " replies"@],
        None => Seq::<Seq<char>>::empty(),
    } + match t.retweets {
        Some(n) => seq![crate::text::int_decimal(n as int) + " retweets"@],
        None => Seq::<Seq<char>>::empty(),
    } + seq!["[View on X]("@ + url + ")"@]
}

/// The metadata line: the parts joined by ` · `.
pub open spec fn meta_line(t: TweetView, url: Seq<char>) -> Seq<char> {
    join(meta_parts(t, url), seq![' ', '·', ' '])
}

/// Image lines of the photos that have a URL.
pub open spec fn photo_lines(urls: Seq<Option<String>>) -> Seq<Seq<char>>
    decreases urls.len(),
{
    if urls.len() == 0 {
        seq![]
    } else {
        photo_lines(urls.drop_last()) + match urls.last() {
            Some(u) => seq!["![]("@ + u@ + ")"@],
            None => Seq::<Seq<char>>::empty(),
        }
    }
}

/// The photos section: the image lines separated by blank lines, after a
/// blank line; empty when there is no image.
pub open spec fn photos_section(t: TweetView) -> Seq<char> {
    match t.photo_urls {
        Some(urls) => {
            let s = join(photo_lines(urls@), "\n\n"@);
            if s.len() > 0 {
                "\n\n"@ + s
            } else {
                seq![]
            }
        },
        None => seq![],
    }
}

/// The article's Markdown when the tweet is an article with content.
pub open spec fn article_body(t: TweetView) -> Option<Seq<char>> {
    match t.article_blocks {
        Some(bs) => {
            let md = spec_article_markdown(bs@);
            if md.len() > 0 {
                Some(md)
            } else {
                None
            }
        },
        None => None,
    }
}

/// Content of the note of an article tweet with body `md`.
pub open spec fn article_content(t: TweetView, url: Seq<char>, md: Seq<char>) -> Seq<char> {
    let h = tweet_handle(t);
    "# "@ + match t.article_title {
        Some(at) => at@,
        None => "Article"@,
    } + "\n\n*By "@ + tweet_display_name(t) + " ([@"@ + h + "](https://x.com/"@ + h + "))*\n\n"@
        + md + "\n\n---\n\n"@ + meta_line(t, url) + photos_section(t) + seq!['\n']
}

/// Content of the note of a plain tweet: its text quoted under its author.
pub open spec fn plain_content(t: TweetView, url: Seq<char>) -> Seq<char> {
    let h = tweet_handle(t);
    "# "@ + tweet_display_name(t) + " (@"@ + h + ")\n\n"@ + (if or_empty(t.text).len() == 0 {
        Seq::<char>::empty()
    } else {
        "> "@ + or_empty(t.text) + "\n\n"@
    }) + "— "@ + meta_line(t, url) + photos_section(t) + seq!['\n']
}

/// Content of a tweet's note: an article with its title, author line,
/// body, rule and metadata; or a plain tweet quoted under its author.
pub open spec fn spec_tweet_content(t: TweetView, url: Seq<char>) -> Seq<char> {
    match article_body(t) {
        Some(md) => article_content(t, url, md),
        None => plain_content(t, url),
    }
}

/// Title of a tweet's note: the handle, then the article title or the
/// tweet text shortened to 80 bytes.
pub open spec fn spec_tweet_title(t: TweetView) -> Seq<char> {
    "@"@ + tweet_handle(t) + ": "@ + spec_truncate_text(
        match t.article_title {
            Some(at) => at@,
            None => or_empty(t.text),
        },
        80,
    )
}

/// A tweet with an article is titled after the article, whatever its own
/// text: `@handle: ` and the article title, shortened past 80 characters.
/// Two tweets by the same handle with the same article title get the same
/// title.
pub proof fn lemma_tweet_title_from_article(t: TweetView, other: TweetView)
    requires
        t.article_title is Some,
    ensures
        spec_tweet_title(t) == "@"@ + tweet_handle(t) + ": "@ + spec_truncate_text(
            t.article_title.unwrap()@,
            80,
        ),
        t.article_title.unwrap()@.len() <= 80 ==> spec_tweet_title(t) == "@"@ + tweet_handle(t)
            + ": "@ + t.article_title.unwrap()@,
        other.screen_name == t.screen_name && other.article_title == t.article_title
            ==> spec_tweet_title(other) == spec_tweet_title(t),
{
}

fn push_opt_count(parts: &mut Vec<Vec<char>>, n: Option<i64>, label: &str)
    ensures
        views(final(parts)@) == views(old(parts)@) + match n {
            Some(k) => seq![crate::text::int_decimal(k as int) + label@],
            None => Seq::<Seq<char>>::empty(),
        },
{
    match n {
        Some(k) => {
            let ghost o = views(parts@);
            let mut p = crate::text::i64_decimal(k);
            push_str(&mut p, label);
            parts.push(p);
            assert(views(parts@) =~= o + seq![crate::text::int_decimal(k as int) + label@]);
        },
        None => {
            assert(views(parts@) =~= views(parts@) + Seq::<Seq<char>>::empty());
        },
    }
}

fn meta_line_chars(t: &TweetView, url: &str) -> (r: Vec<char>)
    requires
        t.created_at matches Some(c) ==> tweet_date_ok(c@),
    ensures
        r@ == meta_line(*t, url@),
{
    let handle: Vec<char> = match &t.screen_name {
        Some(h) => chars_of(h.as_str()),
        None => chars_of("unknown"),
    };
    let mut parts: Vec<Vec<char>> = Vec::new();
    let mut first: Vec<char> = Vec::new();
    push_str(&mut first, "[@");
    push_all(&mut first, handle.as_slice());
    push_str(&mut first, "](https://x.com/");
    push_all(&mut first, handle.as_slice());
    push_str(&mut first, ")");
    parts.push(first);
    let date: Vec<char> = match &t.created_at {
        Some(c) => {
            let d = format_tweet_date(c.as_str());
            chars_of(d.as_str())
        },
        None => Vec::new(),
    };
    let ghost p1 = views(parts@);
    if date.len() > 0 {
        parts.push(date);
    }
    assert(views(parts@) =~= p1 + (if tweet_date(*t).len() > 0 {
        seq![tweet_date(*t)]
    } else {
        Seq::<Seq<char>>::empty()
    }));
    push_opt_count(&mut parts, t.likes, " likes");
    push_opt_count(&mut parts, t.replies, " replies");
    push_opt_count(&mut parts, t.retweets, " retweets");
    let ghost p2 = views(parts@);
    let mut last: Vec<char> = Vec::new();
    push_str(&mut last, "[View on X](");
    push_str(&mut last, url);
    push_str(&mut last, ")");
    parts.push(last);
    assert(views(parts@) =~= p2 + seq!["[View on X]("@ + url@ + ")"@]);
    assert(views(parts@) =~= meta_parts(*t, url@));
    let sep = [' ', '·', ' '];
    assert(sep@ =~= seq![' ', '·', ' ']);
    join_chars(&parts, &sep)
}

fn photos_section_chars(t: &TweetView) -> (r: Vec<char>)
    ensures
        r@ == photos_section(*t),
{
    match &t.photo_urls {
        Some(urls) => {
            let mut ls: Vec<Vec<char>> = Vec::new();
            let mut i: usize = 0;
            assert(urls@.take(0) =~= Seq::<Option<String>>::empty());
            while i < urls.len()
                invariant
                    i <= urls@.len(),
                    views(ls@) == photo_lines(urls@.take(i as int)),
                decreases urls@.len() - i,
            {
                assert(urls@.take(i + 1).drop_last() =~= urls@.take(i as int));
                assert(urls@.take(i + 1).last() == urls@[i as int]);
                let ghost o = views(ls@);
                match &urls[i] {
                    Some(u) => {
                        let mut l: Vec<char> = Vec::new();
                        push_str(&mut l, "![](");
                        push_str(&mut l, u.as_str());
                        push_str(&mut l, ")");
                        ls.push(l);
                        assert(views(ls@) =~= o + seq!["![]("@ + u@ + ")"@]);
                    },
                    None => {
                        assert(views(ls@) =~= o + Seq::<Seq<char>>::empty());
                    },
                }
                i += 1;
            }
            assert(urls@.take(urls@.len() as int) =~= urls@);
            let sep = chars_of("\n\n");
            let s = join_chars(&ls, sep.as_slice());
            if s.len() > 0 {
                let mut r = chars_of("\n\n");
                push_all(&mut r, s.as_slice());
                r
            } else {
                s
            }
        },
        None => Vec::new(),
    }
}

fn tweet_names(t: &TweetView) -> (r: (Vec<char>, Vec<char>))
    ensures
        r.0@ == tweet_handle(*t),
        r.1@ == tweet_display_name(*t),
{
    let handle: Vec<char> = match &t.screen_name {
        Some(h) => chars_of(h.as_str()),
        None => chars_of("unknown"),
    };
    let display: Vec<char> = match &t.author_name {
        Some(n) => chars_of(n.as_str()),
        None => slice_chars(handle.as_slice(), 0, handle.len()),
    };
    assert(display@ =~= tweet_display_name(*t));
    (handle, display)
}

fn article_body_of(t: &TweetView) -> (r: Option<String>)
    ensures
        match r {
            Some(md) => article_body(*t) == Some(md@),
            None => article_body(*t) is None,
        },
{
    match &t.article_blocks {
        Some(bs) => {
            let md = article_blocks_to_markdown(bs.as_slice());
            proof {
                crate::text::lemma_utf8_len_ge_len(md@);
            }
            if crate::text::str_len(md.as_str()) > 0 {
                proof {
                    if md@.len() == 0 {
                        assert(utf8_len(md@) == 0);
                    }
                }
                Some(md)
            } else {
                None
            }
        },
        None => None,
    }
}

fn article_content_chars(t: &TweetView, url: &str, md: &str) -> (r: Vec<char>)
    requires
        t.created_at matches Some(c) ==> tweet_date_ok(c@),
    ensures
        r@ == article_content(*t, url@, md@),
{
    let (handle, display) = tweet_names(t);
    let mut v: Vec<char> = Vec::new();
    push_str(&mut v, "# ");
    match &t.article_title {
        Some(at) => push_str(&mut v, at.as_str()),
        None => push_str(&mut v, "Article"),
    }
    push_str(&mut v, "\n\n*By ");
    push_all(&mut v, display.as_slice());
    push_str(&mut v, " ([@");
    push_all(&mut v, handle.as_slice());
    push_str(&mut v, "](https://x.com/");
    push_all(&mut v, handle.as_slice());
    push_str(&mut v, "))*\n\n");
    push_str(&mut v, md);
    push_str(&mut v, "\n\n---\n\n");
    let meta = meta_line_chars(t, url);
    push_all(&mut v, meta.as_slice());
    let photos = photos_section_chars(t);
    push_all(&mut v, photos.as_slice());
    v.push('\n');
    v
}

fn plain_content_chars(t: &TweetView, url: &str) -> (r: Vec<char>)
    requires
        t.created_at matches Some(c) ==> tweet_date_ok(c@),
    ensures
        r@ == plain_content(*t, url@),
{
    let (handle, display) = tweet_names(t);
    let mut v: Vec<char> = Vec::new();
    push_str(&mut v, "# ");
    push_all(&mut v, display.as_slice());
    push_str(&mut v, " (@");
    push_all(&mut v, handle.as_slice());
    push_str(&mut v, ")\n\n");
    let ghost before = v@;
    match &t.text {
        Some(tx) => {
            proof {
                crate::text::lemma_utf8_len_ge_len(tx@);
            }
            if crate::text::str_len(tx.as_str()) > 0 {
                push_str(&mut v, "> ");
                push_str(&mut v, tx.as_str());
                push_str(&mut v, "\n\n");
            } else {
                assert(tx@.len() == 0);
            }
            proof {
                if tx@.len() == 0 {
                    assert(utf8_len(tx@) == 0);
                }
            }
        },
        None => {},
    }
    assert(v@ =~= before + (if or_empty(t.text).len() == 0 {
        Seq::<char>::empty()
    } else {
        "> "@ + or_empty(t.text) + "\n\n"@
    }));
    push_str(&mut v, "— ");
    let meta = meta_line_chars(t, url);
    push_all(&mut v, meta.as_slice());
    let photos = photos_section_chars(t);
    push_all(&mut v, photos.as_slice());
    v.push('\n');
    v
}

/// Content of a tweet's note (see [`spec_tweet_content`]).
pub fn tweet_content(t: &TweetView, url: &str) -> (r: String)
    requires
        t.created_at matches Some(c) ==> tweet_date_ok(c@),
    ensures
        r@ == spec_tweet_content(*t, url@),
{
    let v = match article_body_of(t) {
        Some(md) => article_content_chars(t, url, md.as_str()),
        None => plain_content_chars(t, url),
    };
    string_of(v.as_slice())
}

/// Title of a tweet's note (see [`spec_tweet_title`]).
pub fn tweet_title(t: &TweetView) -> (r: String)
    ensures
        r@ == spec_tweet_title(*t),
{
    let handle: Vec<char> = match &t.screen_name {
        Some(h) => chars_of(h.as_str()),
        None => chars_of("unknown"),
    };
    let title_src: String = match &t.article_title {
        Some(at) => at.clone(),
        None => match &t.text {
            Some(tx) => tx.clone(),
            None => String::new(),
        },
    };
    let short = truncate_text(title_src.as_str(), 80);
    let mut tv: Vec<char> = Vec::new();
    proof {
        reveal_strlit("@");
    }
    tv.push('@');
    push_all(&mut tv, handle.as_slice());
    push_str(&mut tv, ": ");
    push_str(&mut tv, short.as_str());
    let title = string_of(tv.as_slice());
    assert(title@ =~= spec_tweet_title(*t));
    title
}

/// Builds the note of a tweet (see [`spec_tweet_content`] and
/// [`spec_tweet_title`]).
pub fn tweet_note(t: &TweetView, url: &str) -> (r: TweetNote)
    requires
        t.created_at matches Some(c) ==> tweet_date_ok(c@),
    ensures
        r.content@ == spec_tweet_content(*t, url@),
        r.title@ == spec_tweet_title(*t),
        r.word_count == crate::text::words(r.content@, crate::text::WordKind::NonWhitespace).len(),
{
    let content = tweet_content(t, url);
    let title = tweet_title(t);
    let n = word_count(content.as_str());
    TweetNote { content, title, word_count: n }
}

/// Tags of a tweet's note: the requested ones, with `tweet` added when
/// missing.
pub fn tweet_tags(tags: Option<Vec<String>>) -> (r: Vec<String>)
    ensures
        str_views(r@) == match tags {
            Some(t) => if str_views(t@).contains("tweet"@) {
                str_views(t@)
            } else {
                str_views(t@).push("tweet"@)
            },
            None => seq!["tweet"@],
        },
{
    let mut r: Vec<String> = match tags {
        Some(t) => t,
        None => Vec::new(),
    };
    let ghost o = str_views(r@);
    let mut i: usize = 0;
    while i < r.len()
        invariant
            i <= r@.len(),
            o == str_views(r@),
            match tags {
                Some(t) => r@ == t@,
                None => r@.len() == 0,
            },
            forall|j: int| 0 <= j < i ==> r@[j]@ != "tweet"@,
        decreases r@.len() - i,
    {
        if str_eq(r[i].as_str(), "tweet") {
            assert(o[i as int] == "tweet"@);
            assert(o.contains("tweet"@));
            return r;
        }
        i += 1;
    }
    assert(!o.contains("tweet"@)) by {
        if o.contains("tweet"@) {
            let k = choose|k: int| 0 <= k < o.len() && o[k] == "tweet"@;
            assert(r@[k]@ == "tweet"@);
        }
    }
    r.push("tweet".to_owned());
    assert(str_views(r@) =~= o.push("tweet"@));
    r
}

} // verus!

verus! {

/// No two neighbouring entries are equal.
pub open spec fn no_adjacent_repeats(s: Seq<Seq<char>>) -> bool {
    forall|i: int| 0 <= i < s.len() - 1 ==> #[trigger] s[i] != s[i + 1]
}

proof fn lemma_vtt_texts_shape(ls: Seq<Seq<char>>, prev: Seq<char>)
    ensures
        forall|i: int| 0 <= i < vtt_texts(ls, prev).len() ==> (#[trigger] vtt_texts(ls, prev)[i]).len() > 0,
        no_adjacent_repeats(vtt_texts(ls, prev)),
        vtt_texts(ls, prev).len() > 0 ==> vtt_texts(ls, prev)[0] != prev,
    decreases ls.len(),
{
    if ls.len() > 0 {
        let t = trim(ls[0]);
        let rest = ls.drop_first();
        if vtt_skipped(t) {
            lemma_vtt_texts_shape(rest, prev);
        } else {
            let c = spec_strip_vtt_tags(t);
            if c.len() > 0 && c != prev {
                lemma_vtt_texts_shape(rest, c);
                let tail = vtt_texts(rest, c);
                let all = seq![c] + tail;
                assert(vtt_texts(ls, prev) == all);
                assert forall|i: int| 0 <= i < all.len() implies (#[trigger] all[i]).len() > 0 by {
                    if i > 0 {
                        assert(all[i] == tail[i - 1]);
                    }
                }
                assert forall|i: int| 0 <= i < all.len() - 1 implies #[trigger] all[i] != all[i + 1] by {
                    if i == 0 {
                        assert(all[1] == tail[0]);
                    } else {
                        assert(all[i] == tail[i - 1] && all[i + 1] == tail[i]);
                    }
                }
            } else {
                lemma_vtt_texts_shape(rest, prev);
            }
        }
    }
}

/// The caption lines of a transcript are never empty, and a line never
/// repeats the one just before it.
pub proof fn lemma_parse_vtt_dedup(vtt: Seq<char>)
    ensures
        forall|i: int|
            0 <= i < vtt_texts(lines(vtt), seq![]).len() ==> (#[trigger] vtt_texts(
                lines(vtt),
                seq![],
            )[i]).len() > 0,
        no_adjacent_repeats(vtt_texts(lines(vtt), seq![])),
{
    lemma_vtt_texts_shape(lines(vtt), seq![]);
}

} // verus!

verus! {

// ---------------------------------------------------------------------------
// Extracting articles from pages
// ---------------------------------------------------------------------------

#[verifier::external_type_specification]
#[verifier::external_body]
pub struct ExIoError(std::io::Error);

#[verifier::external_type_specification]
#[verifier::external_body]
pub struct ExReadability(dom_smoothie::Readability);

#[verifier::external_type_specification]
#[verifier::external_body]
pub struct ExReadabilityError(dom_smoothie::ReadabilityError);

#[verifier::external_type_specification]
#[verifier::external_body]
pub struct ExArticle(dom_smoothie::Article);

/// What `htmd::convert` makes of an HTML fragment: its Markdown, or none
/// when conversion fails. It depends on the HTML alone.
pub uninterp spec fn htmd_markdown(html: Seq<char>) -> Option<Seq<char>>;

/// `htmd::convert`: the Markdown of an HTML fragment, as
/// [`htmd_markdown`] names it.
#[verifier::external_body]
fn html_to_markdown(html: &str) -> (r: Result<String, std::io::Error>)
    ensures
        match r {
            Ok(m) => htmd_markdown(html@) == Some(m@),
            Err(_) => htmd_markdown(html@) is None,
        },
{
    htmd::convert(html)
}

/// `Display` of `std::io::Error`; nothing is stated of the text.
#[verifier::external_body]
pub(crate) fn io_error_text(e: &std::io::Error) -> String {
    e.to_string()
}

/// What a note uses of an extracted article, as text.
pub struct ArticleView {
    pub title: Seq<char>,
    pub html: Seq<char>,
    pub byline: Option<Seq<char>>,
    pub published: Option<Seq<char>>,
}

/// What extracting the article of a page gives: no article (the page does
/// not look readable), a failure of the extractor, or the article's parts.
pub enum ArticleOutcome {
    NotReadable,
    Failed,
    Parts(ArticleView),
}

/// The extractor made for a page and its URL
/// (`dom_smoothie::Readability::new(html, Some(url), None)`), none when it
/// refuses them. It depends on the page and URL alone.
pub uninterp spec fn readability_made(html: Seq<char>, url: Seq<char>) -> Option<dom_smoothie::Readability>;

/// Whether an extractor finds its page readable
/// (`Readability::is_probably_readable`). It depends on the extractor alone.
pub uninterp spec fn readability_check(r: dom_smoothie::Readability) -> bool;

/// The article an extractor extracts (`Readability::parse`), none when it
/// fails. It depends on the extractor alone.
pub uninterp spec fn article_extracted(r: dom_smoothie::Readability) -> Option<dom_smoothie::Article>;

/// The title, content HTML (`Display` of the content), byline and
/// publication time of an extracted article.
pub uninterp spec fn article_fields(a: dom_smoothie::Article) -> ArticleView;

/// The outcome of extracting the article of a page: not readable when the
/// extractor finds the page unreadable, a failure when the extractor cannot
/// be made or cannot extract, else the article's parts.
pub open spec fn readable_article(html: Seq<char>, url: Seq<char>) -> ArticleOutcome {
    match readability_made(html, url) {
        None => ArticleOutcome::Failed,
        Some(rd) => if !readability_check(rd) {
            ArticleOutcome::NotReadable
        } else {
            match article_extracted(rd) {
                None => ArticleOutcome::Failed,
                Some(a) => ArticleOutcome::Parts(article_fields(a)),
            }
        },
    }
}

/// `dom_smoothie::Readability::new(html, Some(url), None)`: an article
/// extractor for the page, as [`readability_made`] names it, or an error
/// (such as a URL that is not absolute).
#[verifier::external_body]
fn new_readability(html: String, url: &str) -> (r: Result<
    dom_smoothie::Readability,
    dom_smoothie::ReadabilityError,
>)
    ensures
        match r {
            Ok(x) => readability_made(html@, url@) == Some(x),
            Err(_) => readability_made(html@, url@) is None,
        },
{
    dom_smoothie::Readability::new(html, Some(url), None)
}

/// `Readability::is_probably_readable`: whether the page looks like an
/// article, as [`readability_check`] names it.
#[verifier::external_body]
fn probably_readable(r: &dom_smoothie::Readability) -> (b: bool)
    ensures
        b == readability_check(*r),
{
    r.is_probably_readable()
}

/// `Readability::parse`: the extracted article, as [`article_extracted`]
/// names it, or an error. Node scores that reach its sort are finite: link
/// density divides only by a non-zero length and only positive scores are
/// kept, so the sort's comparison does not fail.
#[verifier::external_body]
fn extract_article(r: &mut dom_smoothie::Readability) -> (res: Result<
    dom_smoothie::Article,
    dom_smoothie::ReadabilityError,
>)
    ensures
        match res {
            Ok(a) => article_extracted(*old(r)) == Some(a),
            Err(_) => article_extracted(*old(r)) is None,
        },
{
    r.parse()
}

/// The fields of an extracted article that a note uses, moved out of it;
/// the HTML content as a string (see [`article_fields`]).
#[verifier::external_body]
fn article_parts(a: dom_smoothie::Article) -> (r: ArticleParts)
    ensures
        parts_view(r) == article_fields(a),
{
    ArticleParts {
        title: a.title,
        html: a.content.to_string(),
        byline: a.byline,
        published: a.published_time,
    }
}

/// `Display` of a `dom_smoothie::ReadabilityError`; nothing is stated of
/// the text.
#[verifier::external_body]
fn readability_error_text(e: &dom_smoothie::ReadabilityError) -> String {
    e.to_string()
}

/// What a note uses of an extracted article.
pub struct ArticleParts {
    pub title: String,
    pub html: String,
    pub byline: Option<String>,
    pub published: Option<String>,
}

/// The parts of an article as text.
pub open spec fn parts_view(p: ArticleParts) -> ArticleView {
    ArticleView { title: p.title@, html: p.html@, byline: opt_view(p.byline), published: opt_view(p.published) }
}

/// The note made of a clipped article.
pub struct ClipNote {
    pub title: String,
    pub content: String,
    pub word_count: usize,
}

/// True when `n` is the note of the article `parts` clipped from `url`,
/// its HTML having become the Markdown `md`.
pub open spec fn clip_note_of(n: ClipNote, url: Seq<char>, parts: ArticleView, md: Seq<char>) -> bool {
    &&& n.title@ == parts.title
    &&& n.content@ == spec_clip_content(
        parts.title,
        spec_url_domain(url),
        url,
        parts.byline,
        parts.published,
        spec_clean_clipped_markdown(md),
    )
    &&& n.word_count == crate::text::words(n.content@, crate::text::WordKind::NonWhitespace).len()
}

/// An internal error with the message `prefix` followed by `detail`.
fn internal_with(prefix: &str, detail: &str) -> (e: AppError)
    ensures
        e matches AppError::Internal(x) && crate::routes::notes::anyhow_message(x) == prefix@ + detail@,
{
    let mut v = chars_of(prefix);
    push_str(&mut v, detail);
    AppError::Internal(crate::routes::notes::error_with_message(string_of(v.as_slice())))
}

/// The note of an extracted article: its HTML converted to Markdown,
/// cleaned of trailing clutter, under the title and source line; a
/// server-side failure when the conversion fails.
pub fn clip_from_article(url: &str, parts: ArticleParts) -> (r: Result<ClipNote, AppError>)
    ensures
        match htmd_markdown(parts.html@) {
            Some(md) => r matches Ok(n) && clip_note_of(n, url@, parts_view(parts), md),
            None => r matches Err(e) && e is Internal,
        },
{
    let md = match html_to_markdown(parts.html.as_str()) {
        Ok(m) => m,
        Err(e) => {
            let t = io_error_text(&e);
            return Err(internal_with("Failed to convert to Markdown: ", t.as_str()));
        },
    };
    let cleaned = clean_clipped_markdown(md.as_str());
    let content = clip_content(
        parts.title.as_str(),
        url,
        &parts.byline,
        &parts.published,
        cleaned.as_str(),
    );
    let n = word_count(content.as_str());
    Ok(ClipNote { title: parts.title, content, word_count: n })
}

/// Extracts the article of a fetched page and makes its note (see
/// [`readable_article`]): a page the extractor finds unreadable is refused
/// with the message of [`not_readable`]; a failure of the extractor or of
/// the Markdown conversion is a server-side error; else the note is the one
/// [`clip_from_article`] makes of the article.
pub fn clip_page(html: String, url: &str) -> (r: Result<ClipNote, AppError>)
    ensures
        match readable_article(html@, url@) {
            ArticleOutcome::NotReadable => r matches Err(AppError::BadRequest(m)) && m@
                == "Page does not appear to contain a readable article"@,
            ArticleOutcome::Failed => r matches Err(e) && e is Internal,
            ArticleOutcome::Parts(p) => match htmd_markdown(p.html) {
                Some(md) => r matches Ok(n) && clip_note_of(n, url@, p, md),
                None => r matches Err(e) && e is Internal,
            },
        },
{
    let ghost page = html@;
    let mut reader = match new_readability(html, url) {
        Ok(r) => r,
        Err(e) => {
            let t = readability_error_text(&e);
            return Err(internal_with("Failed to parse HTML: ", t.as_str()));
        },
    };
    if !probably_readable(&reader) {
        return Err(not_readable());
    }
    let article = match extract_article(&mut reader) {
        Ok(a) => a,
        Err(e) => {
            let t = readability_error_text(&e);
            return Err(internal_with("Failed to extract article: ", t.as_str()));
        },
    };
    let parts = article_parts(article);
    assert(readable_article(page, url@) == ArticleOutcome::Parts(parts_view(parts)));
    clip_from_article(url, parts)
}

} // verus!
