//! Audio episode endpoints: request shapes, episode titles, durations and
//! the checks made before an episode is queued.
use vstd::prelude::*;

use crate::background::tts::TtsProvider;
use crate::db::queries::Note;
use crate::routes::notes::{bad_request, is_bad_request, AppError};
use crate::text::{
    chars_of, first_in, first_in_chars, join, join_chars, lines, lines_chars, nat_digits, push_all,
    push_str, seq_eq, slice_chars, str_eq, string_of, strip_both, strip_both_chars, strip_start,
    strip_start_chars, trim, trim_chars, u64_digits, u64_padded, views, words, words_chars,
    zero_pad, WordKind,
};

verus! {

// ---------------------------------------------------------------------------
// Request and response shapes
// ---------------------------------------------------------------------------

/// Body of `POST /api/audio/generate`.
pub struct GenerateAudioRequest {
    pub note_ids: Vec<i64>,
    pub episode_type: String,
    pub content_mode: String,
    pub title: Option<String>,
}

/// Answer of `POST /api/audio/generate`.
pub struct GenerateAudioResponse {
    pub episode_id: i64,
    pub status: String,
}

/// Episode type of a request that names none.
pub fn default_episode_type() -> (r: String)
    ensures
        r@ == "single"@,
{
    "single".to_owned()
}

/// Content mode of a request that names none.
pub fn default_content_mode() -> (r: String)
    ensures
        r@ == "full"@,
{
    "full".to_owned()
}

// ---------------------------------------------------------------------------
// Durations and dates
// ---------------------------------------------------------------------------

/// `H:MM:SS` for an hour or more, `M:SS` below.
pub open spec fn spec_format_duration(total: nat) -> Seq<char> {
    let h = total / 3600;
    let m = (total % 3600) / 60;
    let s = total % 60;
    if h > 0 {
        nat_digits(h) + seq![':'] + zero_pad(nat_digits(m), 2) + seq![':'] + zero_pad(
            nat_digits(s),
            2,
        )
    } else {
        nat_digits(m) + seq![':'] + zero_pad(nat_digits(s), 2)
    }
}

/// A duration in seconds as podcast feeds show it.
pub fn format_duration(total_secs: u64) -> (r: String)
    ensures
        r@ == spec_format_duration(total_secs as nat),
{
    let hours = total_secs / 3600;
    let minutes = (total_secs % 3600) / 60;
    let seconds = total_secs % 60;
    let mut v: Vec<char> = Vec::new();
    if hours > 0 {
        let h = u64_digits(hours);
        push_all(&mut v, h.as_slice());
        v.push(':');
        let m = u64_padded(minutes, 2);
        push_all(&mut v, m.as_slice());
    } else {
        let m = u64_digits(minutes);
        push_all(&mut v, m.as_slice());
    }
    v.push(':');
    let s = u64_padded(seconds, 2);
    push_all(&mut v, s.as_slice());
    string_of(v.as_slice())
}

/// The rough calendar date `secs` seconds after the epoch, as the episode
/// titles show it: years of 365 days and months of 30 days, `Y-MM-DD`.
pub open spec fn spec_approx_date(secs: nat) -> Seq<char> {
    let days = secs / 86400;
    let year = 1970 + days / 365;
    let rem = days % 365;
    nat_digits(year) + seq!['-'] + zero_pad(nat_digits(rem / 30 + 1), 2) + seq!['-'] + zero_pad(
        nat_digits(rem % 30 + 1),
        2,
    )
}

/// [`spec_approx_date`] of a number of seconds.
pub fn approx_date(secs: u64) -> (r: String)
    ensures
        r@ == spec_approx_date(secs as nat),
{
    let days = secs / 86400;
    let year = 1970 + days / 365;
    let rem = days % 365;
    let mut v = u64_digits(year);
    v.push('-');
    let m = u64_padded(rem / 30 + 1, 2);
    push_all(&mut v, m.as_slice());
    v.push('-');
    let d = u64_padded(rem % 30 + 1, 2);
    push_all(&mut v, d.as_slice());
    string_of(v.as_slice())
}

/// Today's rough date from the system clock (see [`spec_approx_date`]).
pub fn chrono_today() -> (r: String)
    ensures
        exists|s: u64| r@ == spec_approx_date(s as nat),
{
    let secs = crate::clock::unix_now_secs();
    approx_date(secs)
}

// ---------------------------------------------------------------------------
// Titles
// ---------------------------------------------------------------------------

/// Content of a voice memo whose transcription has not finished.
pub open spec fn pending_marker() -> Seq<char> {
    "[Voice memo - transcribing...]"@
}

/// A title with surrounding whitespace removed; none when nothing is left.
pub open spec fn spec_clean_title(t: Seq<char>) -> Option<Seq<char>> {
    if trim(t).len() == 0 {
        None
    } else {
        Some(trim(t))
    }
}

/// Trims a title; a blank one counts as none.
pub fn clean_title(title: &str) -> (r: Option<String>)
    ensures
        r matches Some(s) ==> spec_clean_title(title@) == Some(s@),
        r is None ==> spec_clean_title(title@) is None,
{
    let v = chars_of(title);
    let t = trim_chars(v.as_slice());
    if t.len() == 0 {
        None
    } else {
        Some(string_of(t.as_slice()))
    }
}

/// The first `max` whitespace-separated words of `text`, joined by single
/// spaces.
pub open spec fn spec_truncate_title_words(text: Seq<char>, max: nat) -> Seq<char> {
    let w = words(text, WordKind::NonWhitespace);
    join(
        if max < w.len() {
            w.take(max as int)
        } else {
            w
        },
        seq![' '],
    )
}

/// Keeps the first `max_words` words of `text`.
pub fn truncate_title_words(text: &str, max_words: usize) -> (r: String)
    ensures
        r@ == spec_truncate_title_words(text@, max_words as nat),
{
    let v = chars_of(text);
    let mut w = words_chars(v.as_slice(), WordKind::NonWhitespace);
    let ghost all = views(w@);
    w.truncate(max_words);
    proof {
        if max_words < all.len() {
            assert(views(w@) =~= all.take(max_words as int));
        } else {
            assert(views(w@) =~= all);
        }
    }
    let sep = [' '];
    assert(sep@ =~= seq![' ']);
    let j = join_chars(&w, &sep);
    string_of(j.as_slice())
}

/// The first line that, trimmed, is neither empty nor the pending-memo
/// marker; trimmed.
pub open spec fn first_title_line(ls: Seq<Seq<char>>) -> Option<Seq<char>>
    decreases ls.len(),
{
    if ls.len() == 0 {
        None
    } else {
        let t = trim(ls[0]);
        if t.len() > 0 && t != pending_marker() {
            Some(t)
        } else {
            first_title_line(ls.drop_first())
        }
    }
}

/// Characters dropped from the front of a title line: heading marks, then
/// list bullets.
pub open spec fn heading_marks() -> Seq<char> {
    seq!['#']
}

/// List bullets dropped from the front of a title line.
pub open spec fn bullet_marks() -> Seq<char> {
    seq!['-', '*', '•']
}

/// Characters that end the first sentence of a title line.
pub open spec fn sentence_ends() -> Seq<char> {
    seq!['.', '!', '?']
}

/// Characters trimmed from both ends of the first sentence.
pub open spec fn title_edge_marks() -> Seq<char> {
    seq![':', '-', '—', ' ']
}

/// The first sentence of a line, without heading marks, bullets and
/// surrounding punctuation.
pub open spec fn title_candidate(line: Seq<char>) -> Seq<char> {
    let l = trim(strip_start(strip_start(line, heading_marks()), bullet_marks()));
    let cut = match first_in(l, sentence_ends()) {
        Some(i) => l.take(i as int),
        None => l,
    };
    strip_both(cut, title_edge_marks())
}

/// The title a note's content suggests: the first ten words of the first
/// sentence of its first meaningful line.
pub open spec fn spec_title_from_content(content: Seq<char>) -> Option<Seq<char>> {
    match first_title_line(lines(content)) {
        None => None,
        Some(line) => spec_clean_title(spec_truncate_title_words(title_candidate(line), 10)),
    }
}

proof fn lemma_first_title_line_skip(ls: Seq<Seq<char>>, i: int)
    requires
        0 <= i < ls.len(),
        !(trim(ls[i]).len() > 0 && trim(ls[i]) != pending_marker()),
    ensures
        first_title_line(ls.skip(i)) == first_title_line(ls.skip(i + 1)),
{
    assert(ls.skip(i).drop_first() =~= ls.skip(i + 1));
    assert(ls.skip(i)[0] == ls[i]);
}

/// True when no character of `s` is in `set`.
pub open spec fn avoids(s: Seq<char>, set: Seq<char>) -> bool {
    forall|i: int| 0 <= i < s.len() ==> !set.contains(#[trigger] s[i])
}

proof fn lemma_avoids_drop_first(s: Seq<char>, set: Seq<char>)
    requires
        s.len() > 0,
        avoids(s, set),
    ensures
        avoids(s.drop_first(), set),
{
    assert forall|i: int| 0 <= i < s.drop_first().len() implies !set.contains(
        #[trigger] s.drop_first()[i],
    ) by {
        assert(s.drop_first()[i] == s[i + 1]);
    }
}

proof fn lemma_avoids_take(s: Seq<char>, set: Seq<char>, n: int)
    requires
        0 <= n <= s.len(),
        avoids(s, set),
    ensures
        avoids(s.take(n), set),
{
    assert forall|i: int| 0 <= i < s.take(n).len() implies !set.contains(#[trigger] s.take(n)[i]) by {
        assert(s.take(n)[i] == s[i]);
    }
}

proof fn lemma_avoids_strip_start(s: Seq<char>, set: Seq<char>, marks: Seq<char>)
    requires
        avoids(s, set),
    ensures
        avoids(strip_start(s, marks), set),
    decreases s.len(),
{
    if s.len() > 0 && marks.contains(s[0]) {
        lemma_avoids_drop_first(s, set);
        lemma_avoids_strip_start(s.drop_first(), set, marks);
    }
}

proof fn lemma_avoids_strip_end(s: Seq<char>, set: Seq<char>, marks: Seq<char>)
    requires
        avoids(s, set),
    ensures
        avoids(crate::text::strip_end(s, marks), set),
    decreases s.len(),
{
    if s.len() > 0 && marks.contains(s.last()) {
        assert(s.drop_last() =~= s.take(s.len() - 1));
        lemma_avoids_take(s, set, s.len() - 1);
        lemma_avoids_strip_end(s.drop_last(), set, marks);
    }
}

proof fn lemma_avoids_trim(s: Seq<char>, set: Seq<char>)
    requires
        avoids(s, set),
    ensures
        avoids(trim(s), set),
    decreases s.len(),
{
    lemma_avoids_trim_start(s, set);
    lemma_avoids_trim_end(crate::text::trim_start(s), set);
}

proof fn lemma_avoids_trim_start(s: Seq<char>, set: Seq<char>)
    requires
        avoids(s, set),
    ensures
        avoids(crate::text::trim_start(s), set),
    decreases s.len(),
{
    if s.len() > 0 && crate::text::is_ws(s[0]) {
        lemma_avoids_drop_first(s, set);
        lemma_avoids_trim_start(s.drop_first(), set);
    }
}

proof fn lemma_avoids_trim_end(s: Seq<char>, set: Seq<char>)
    requires
        avoids(s, set),
    ensures
        avoids(crate::text::trim_end(s), set),
    decreases s.len(),
{
    if s.len() > 0 && crate::text::is_ws(s.last()) {
        assert(s.drop_last() =~= s.take(s.len() - 1));
        lemma_avoids_take(s, set, s.len() - 1);
        lemma_avoids_trim_end(s.drop_last(), set);
    }
}

proof fn lemma_first_in_avoids(s: Seq<char>, set: Seq<char>)
    ensures
        first_in(s, set) matches Some(i) ==> i <= s.len() && avoids(s.take(i as int), set),
        first_in(s, set) is None ==> avoids(s, set),
    decreases s.len(),
{
    if s.len() > 0 && !set.contains(s[0]) {
        lemma_first_in_avoids(s.drop_first(), set);
        match first_in(s.drop_first(), set) {
            Some(k) => {
                let t = s.take((k + 1) as int);
                assert forall|i: int| 0 <= i < t.len() implies !set.contains(#[trigger] t[i]) by {
                    if i > 0 {
                        assert(t[i] == s.drop_first().take(k as int)[i - 1]);
                    }
                }
            },
            None => {
                assert forall|i: int| 0 <= i < s.len() implies !set.contains(#[trigger] s[i]) by {
                    if i > 0 {
                        assert(s[i] == s.drop_first()[i - 1]);
                    }
                }
            },
        }
    } else if s.len() > 0 {
        assert(s.take(0).len() == 0);
    }
}

proof fn lemma_avoids_words(s: Seq<char>, set: Seq<char>, cur: Seq<char>)
    requires
        avoids(s, set),
        avoids(cur, set),
    ensures
        forall|k: int|
            0 <= k < crate::text::words_from(s, WordKind::NonWhitespace, cur).len() ==> avoids(
                #[trigger] crate::text::words_from(s, WordKind::NonWhitespace, cur)[k],
                set,
            ),
    decreases s.len(),
{
    let ws = crate::text::words_from(s, WordKind::NonWhitespace, cur);
    if s.len() == 0 {
        if cur.len() > 0 {
            assert(ws == seq![cur]);
            assert(ws[0] == cur);
        } else {
            assert(ws.len() == 0);
        }
    } else {
        let t = s.drop_first();
        lemma_avoids_drop_first(s, set);
        if crate::text::in_word(WordKind::NonWhitespace, s[0]) {
            let c2 = cur.push(s[0]);
            assert forall|i: int| 0 <= i < c2.len() implies !set.contains(#[trigger] c2[i]) by {
                if i < cur.len() {
                    assert(c2[i] == cur[i]);
                } else {
                    assert(c2[i] == s[0]);
                }
            }
            lemma_avoids_words(t, set, c2);
            assert(ws == crate::text::words_from(t, WordKind::NonWhitespace, c2));
        } else {
            lemma_avoids_words(t, set, seq![]);
            let head = if cur.len() > 0 {
                seq![cur]
            } else {
                Seq::<Seq<char>>::empty()
            };
            let rest = crate::text::words_from(t, WordKind::NonWhitespace, seq![]);
            assert(ws == head + rest);
            assert forall|k: int| 0 <= k < ws.len() implies avoids(#[trigger] ws[k], set) by {
                if k < head.len() {
                    assert(ws[k] == cur);
                } else {
                    assert(ws[k] == rest[k - head.len()]);
                }
            }
        }
    }
}

proof fn lemma_avoids_join(ws: Seq<Seq<char>>, sep: Seq<char>, set: Seq<char>)
    requires
        forall|k: int| 0 <= k < ws.len() ==> avoids(#[trigger] ws[k], set),
        avoids(sep, set),
    ensures
        avoids(join(ws, sep), set),
    decreases ws.len(),
{
    if ws.len() == 1 {
        assert(avoids(ws[0], set));
    } else if ws.len() > 1 {
        let p = ws.drop_last();
        assert forall|k: int| 0 <= k < p.len() implies avoids(#[trigger] p[k], set) by {
            assert(p[k] == ws[k]);
        }
        lemma_avoids_join(p, sep, set);
        let a = join(p, sep);
        let w = ws.last();
        assert(avoids(w, set));
        let j = a + sep + w;
        assert forall|i: int| 0 <= i < j.len() implies !set.contains(#[trigger] j[i]) by {
            if i < a.len() {
                assert(j[i] == a[i]);
            } else if i < a.len() + sep.len() {
                assert(j[i] == sep[i - a.len()]);
            } else {
                assert(j[i] == w[i - a.len() - sep.len()]);
            }
        }
    }
}

/// A title taken from a note's content stops before the first sentence
/// end of its line: it holds no `.`, `!` or `?`, and is not blank.
pub proof fn lemma_content_title_has_no_sentence_end(content: Seq<char>)
    ensures
        spec_title_from_content(content) matches Some(t) ==> t.len() > 0 && forall|i: int|
            0 <= i < t.len() ==> #[trigger] t[i] != '.' && t[i] != '!' && t[i] != '?',
{
    match first_title_line(lines(content)) {
        None => {},
        Some(line) => {
            let ends = sentence_ends();
            let l = trim(strip_start(strip_start(line, heading_marks()), bullet_marks()));
            lemma_first_in_avoids(l, ends);
            let cut = match first_in(l, ends) {
                Some(i) => l.take(i as int),
                None => l,
            };
            let cand = title_candidate(line);
            lemma_avoids_strip_start(cut, ends, title_edge_marks());
            lemma_avoids_strip_end(strip_start(cut, title_edge_marks()), ends, title_edge_marks());
            assert(avoids(cand, ends));
            lemma_avoids_words(cand, ends, seq![]);
            let w = words(cand, WordKind::NonWhitespace);
            let kept = if 10 < w.len() {
                w.take(10)
            } else {
                w
            };
            assert forall|k: int| 0 <= k < kept.len() implies avoids(#[trigger] kept[k], ends) by {
                assert(kept[k] == w[k]);
            }
            assert(avoids(seq![' '], ends));
            lemma_avoids_join(kept, seq![' '], ends);
            let j = spec_truncate_title_words(cand, 10);
            lemma_avoids_trim(j, ends);
            let t = trim(j);
            assert forall|i: int| 0 <= i < t.len() implies #[trigger] t[i] != '.' && t[i] != '!'
                && t[i] != '?' by {
                assert(!ends.contains(t[i]));
                if t[i] == '.' {
                    assert(ends[0] == '.');
                } else if t[i] == '!' {
                    assert(ends[1] == '!');
                } else if t[i] == '?' {
                    assert(ends[2] == '?');
                }
            }
        },
    }
}

/// A single-note episode whose note has no title of its own is titled from
/// the first sentence of the note's content, so its title holds no `.`,
/// `!` or `?`.
pub proof fn lemma_untitled_episode_title(episode_type: Seq<char>, notes: Seq<Note>, today: Seq<char>)
    requires
        episode_type != "digest"@,
        episode_type != "batch"@,
        notes.len() > 0,
        notes[0].title is None,
        spec_title_from_content(notes[0].content@) is Some,
    ensures
        spec_episode_title_on(episode_type, notes, today) == spec_title_from_content(
            notes[0].content@,
        ).unwrap(),
        forall|i: int|
            0 <= i < spec_episode_title_on(episode_type, notes, today).len() ==> #[trigger] spec_episode_title_on(
                episode_type,
                notes,
                today,
            )[i] != '.' && spec_episode_title_on(episode_type, notes, today)[i] != '!'
                && spec_episode_title_on(episode_type, notes, today)[i] != '?',
{
    lemma_content_title_has_no_sentence_end(notes[0].content@);
}

/// Derives a title from a note's content (see [`spec_title_from_content`]).
pub fn title_from_content(content: &str) -> (r: Option<String>)
    ensures
        r matches Some(s) ==> spec_title_from_content(content@) == Some(s@),
        r is None ==> spec_title_from_content(content@) is None,
{
    let v = chars_of(content);
    let ls = lines_chars(v.as_slice());
    let ghost lv = views(ls@);
    let mut i: usize = 0;
    let mut found: Option<Vec<char>> = None;
    assert(lv.skip(0) =~= lv);
    while i < ls.len() && found.is_none()
        invariant
            lv == views(ls@),
            lv == lines(content@),
            i <= ls@.len(),
            found is None ==> first_title_line(lv) == first_title_line(lv.skip(i as int)),
            found matches Some(t) ==> first_title_line(lv) == Some(t@),
        decreases ls@.len() - i,
    {
        let t = trim_chars(ls[i].as_slice());
        if t.len() > 0 && !seq_eq(t.as_slice(), "[Voice memo - transcribing...]") {
            proof {
                assert(lv.skip(i as int)[0] == lv[i as int]);
            }
            found = Some(t);
        } else {
            proof {
                lemma_first_title_line_skip(lv, i as int);
            }
        }
        i += 1;
    }
    let line = match found {
        None => {
            proof {
                assert(lv.skip(i as int) =~= Seq::<Seq<char>>::empty());
            }
            return None;
        },
        Some(t) => t,
    };
    let hash = ['#'];
    assert(hash@ =~= heading_marks());
    let a = strip_start_chars(line.as_slice(), &hash);
    let bullets = ['-', '*', '•'];
    assert(bullets@ =~= bullet_marks());
    let b = strip_start_chars(a.as_slice(), &bullets);
    let l = trim_chars(b.as_slice());
    let ends = ['.', '!', '?'];
    assert(ends@ =~= sentence_ends());
    let cut = match first_in_chars(l.as_slice(), &ends) {
        Some(k) => {
            let c = slice_chars(l.as_slice(), 0, k);
            assert(c@ =~= l@.take(k as int));
            c
        },
        None => l,
    };
    let edges = [':', '-', '—', ' '];
    assert(edges@ =~= title_edge_marks());
    let cand = strip_both_chars(cut.as_slice(), &edges);
    let cs = string_of(cand.as_slice());
    let words10 = truncate_title_words(cs.as_str(), 10);
    clean_title(words10.as_str())
}

/// A note's own title when it has a non-blank one, else the title its
/// content suggests.
pub open spec fn spec_note_title(note: Note) -> Option<Seq<char>> {
    match note.title {
        Some(t) => match spec_clean_title(t@) {
            Some(c) => Some(c),
            None => spec_title_from_content(note.content@),
        },
        None => spec_title_from_content(note.content@),
    }
}

/// Executable [`spec_note_title`].
pub fn note_title_or_content_title(note: &Note) -> (r: Option<String>)
    ensures
        r matches Some(s) ==> spec_note_title(*note) == Some(s@),
        r is None ==> spec_note_title(*note) is None,
{
    match &note.title {
        Some(t) => match clean_title(t.as_str()) {
            Some(c) => Some(c),
            None => title_from_content(note.content.as_str()),
        },
        None => title_from_content(note.content.as_str()),
    }
}

/// Title of an episode made of `notes`, `today` being the date shown on a
/// digest.
pub open spec fn spec_episode_title_on(
    episode_type: Seq<char>,
    notes: Seq<Note>,
    today: Seq<char>,
) -> Seq<char> {
    if episode_type == "digest"@ {
        today + " Daily Digest"@
    } else if episode_type == "batch"@ {
        let first = if notes.len() > 0 {
            match spec_note_title(notes[0]) {
                Some(t) => t,
                None => "Notes"@,
            }
        } else {
            "Notes"@
        };
        first + " + "@ + nat_digits(
            if notes.len() > 0 {
                (notes.len() - 1) as nat
            } else {
                0
            },
        ) + " more"@
    } else if notes.len() > 0 {
        match spec_note_title(notes[0]) {
            Some(t) => t,
            None => "Untitled Note"@,
        }
    } else {
        "Untitled Note"@
    }
}

/// Title of an episode made of `notes`, with `today` shown on a digest.
pub fn derive_episode_title_on(episode_type: &str, notes: &[Note], today: &str) -> (r: String)
    ensures
        r@ == spec_episode_title_on(episode_type@, notes@, today@),
{
    let mut v: Vec<char> = Vec::new();
    if str_eq(episode_type, "digest") {
        push_str(&mut v, today);
        push_str(&mut v, " Daily Digest");
    } else if str_eq(episode_type, "batch") {
        let first = if notes.len() > 0 {
            note_title_or_content_title(&notes[0])
        } else {
            None
        };
        match first {
            Some(t) => push_str(&mut v, t.as_str()),
            None => push_str(&mut v, "Notes"),
        }
        push_str(&mut v, " + ");
        let more: usize = if notes.len() > 0 {
            notes.len() - 1
        } else {
            0
        };
        let d = u64_digits(more as u64);
        push_all(&mut v, d.as_slice());
        push_str(&mut v, " more");
    } else {
        let first = if notes.len() > 0 {
            note_title_or_content_title(&notes[0])
        } else {
            None
        };
        match first {
            Some(t) => push_str(&mut v, t.as_str()),
            None => push_str(&mut v, "Untitled Note"),
        }
    }
    string_of(v.as_slice())
}

/// Title of an episode made of `notes`; a digest is titled with today's
/// rough date.
pub fn derive_episode_title(episode_type: &str, notes: &[Note]) -> (r: String)
    ensures
        episode_type@ != "digest"@ ==> r@ == spec_episode_title_on(episode_type@, notes@, seq![]),
        episode_type@ == "digest"@ ==> exists|s: u64|
            r@ == spec_episode_title_on(episode_type@, notes@, spec_approx_date(s as nat)),
{
    if str_eq(episode_type, "digest") {
        let today = chrono_today();
        derive_episode_title_on(episode_type, notes, today.as_str())
    } else {
        derive_episode_title_on(episode_type, notes, "")
    }
}

} // verus!

verus! {

// ---------------------------------------------------------------------------
// Checks before an episode is queued
// ---------------------------------------------------------------------------

/// Why a generate request is refused, if it is: checked in this order.
pub open spec fn generate_request_error(n_ids: nat, episode_type: Seq<char>, content_mode: Seq<
    char,
>) -> Option<Seq<char>> {
    if n_ids == 0 && episode_type != "digest"@ {
        Some("note_ids must not be empty"@)
    } else if !(episode_type == "single"@ || episode_type == "batch"@ || episode_type
        == "digest"@) {
        Some("episode_type must be 'single', 'batch', or 'digest'"@)
    } else if !(content_mode == "full"@ || content_mode == "summary"@) {
        Some("content_mode must be 'full' or 'summary'"@)
    } else if episode_type == "single"@ && n_ids != 1 {
        Some("single episode_type requires exactly 1 note_id"@)
    } else {
        None
    }
}

/// True when `r` answers as `expected` says: `Ok` for none, a refusal with
/// the message otherwise.
pub open spec fn answers(r: Result<(), AppError>, expected: Option<Seq<char>>) -> bool {
    match expected {
        None => r is Ok,
        Some(m) => r matches Err(e) && is_bad_request(e, m),
    }
}

/// Checks the note ids, episode type and content mode of a generate request.
pub fn validate_generate_request(request: &GenerateAudioRequest) -> (r: Result<(), AppError>)
    ensures
        answers(
            r,
            generate_request_error(
                request.note_ids@.len(),
                request.episode_type@,
                request.content_mode@,
            ),
        ),
{
    let n = request.note_ids.len();
    let et = request.episode_type.as_str();
    let cm = request.content_mode.as_str();
    let is_digest = str_eq(et, "digest");
    let is_single = str_eq(et, "single");
    let is_batch = str_eq(et, "batch");
    if n == 0 && !is_digest {
        return Err(bad_request("note_ids must not be empty"));
    }
    if !(is_single || is_batch || is_digest) {
        return Err(bad_request("episode_type must be 'single', 'batch', or 'digest'"));
    }
    if !(str_eq(cm, "full") || str_eq(cm, "summary")) {
        return Err(bad_request("content_mode must be 'full' or 'summary'"));
    }
    if is_single && n != 1 {
        return Err(bad_request("single episode_type requires exactly 1 note_id"));
    }
    Ok(())
}

/// Refuses an episode with no notes to read.
pub fn check_has_notes(note_ids: &Vec<i64>) -> (r: Result<(), AppError>)
    ensures
        r is Err <==> note_ids@.len() == 0,
        r matches Err(e) ==> is_bad_request(e, "No notes found to convert"@),
{
    if note_ids.len() == 0 {
        Err(bad_request("No notes found to convert"))
    } else {
        Ok(())
    }
}

/// Index of the first note whose content is the pending-memo marker.
pub open spec fn first_pending(notes: Seq<Note>) -> Option<nat>
    decreases notes.len(),
{
    if notes.len() == 0 {
        None
    } else if notes[0].content@ == pending_marker() {
        Some(0)
    } else {
        match first_pending(notes.drop_first()) {
            Some(k) => Some(k + 1),
            None => None,
        }
    }
}

proof fn lemma_first_pending_skip(notes: Seq<Note>, i: int)
    requires
        0 <= i <= notes.len(),
        forall|j: int| 0 <= j < i ==> notes[j].content@ != pending_marker(),
    ensures
        first_pending(notes) == match first_pending(notes.skip(i)) {
            Some(k) => Some((k + i) as nat),
            None => None,
        },
    decreases i,
{
    if i == 0 {
        assert(notes.skip(0) =~= notes);
    } else {
        lemma_first_pending_skip(notes.drop_first(), i - 1);
        assert(notes.drop_first().skip(i - 1) =~= notes.skip(i));
    }
}

/// Refuses notes of which one is still being transcribed, naming the first
/// such note.
pub fn check_not_transcribing(notes: &[Note]) -> (r: Result<(), AppError>)
    ensures
        r is Ok <==> first_pending(notes@) is None,
        r matches Err(e) ==> first_pending(notes@) matches Some(k) && is_bad_request(
            e,
            "Note "@ + crate::text::int_decimal(notes@[k as int].id as int)
                + " is still being transcribed"@,
        ),
{
    let mut i: usize = 0;
    while i < notes.len()
        invariant
            i <= notes@.len(),
            forall|j: int| 0 <= j < i ==> notes@[j].content@ != pending_marker(),
        decreases notes@.len() - i,
    {
        if seq_eq_str(notes[i].content.as_str(), "[Voice memo - transcribing...]") {
            proof {
                lemma_first_pending_skip(notes@, i as int);
                assert(notes@.skip(i as int)[0] == notes@[i as int]);
            }
            let mut v: Vec<char> = Vec::new();
            push_str(&mut v, "Note ");
            let d = crate::text::i64_decimal(notes[i].id);
            push_all(&mut v, d.as_slice());
            push_str(&mut v, " is still being transcribed");
            return Err(AppError::BadRequest(string_of(v.as_slice())));
        }
        i += 1;
    }
    proof {
        lemma_first_pending_skip(notes@, i as int);
        assert(notes@.skip(i as int) =~= Seq::<Note>::empty());
    }
    Ok(())
}

fn seq_eq_str(a: &str, b: &str) -> (r: bool)
    ensures
        r == (a@ == b@),
{
    str_eq(a, b)
}

// ---------------------------------------------------------------------------
// Voice and provider
// ---------------------------------------------------------------------------

/// The provider setting, `openai` when none is stored.
pub fn resolve_tts_provider(setting: Option<String>) -> (r: String)
    ensures
        r@ == match setting {
            Some(s) => s@,
            None => "openai"@,
        },
{
    match setting {
        Some(s) => s,
        None => "openai".to_owned(),
    }
}

/// Key under which the voice chosen for `provider` is stored.
pub fn tts_voice_key(provider: &str) -> (r: String)
    ensures
        r@ == "tts_voice_"@ + provider@,
{
    let mut v: Vec<char> = Vec::new();
    push_str(&mut v, "tts_voice_");
    push_str(&mut v, provider);
    string_of(v.as_slice())
}

/// The stored voice for `provider`, or that provider's default voice.
pub fn resolve_tts_voice(provider: &str, setting: Option<String>) -> (r: String)
    ensures
        r@ == match setting {
            Some(s) => s@,
            None => TtsProvider::spec_from_setting(provider@).spec_default_voice(),
        },
{
    match setting {
        Some(s) => s,
        None => TtsProvider::from_setting(provider).default_voice().to_owned(),
    }
}

/// Environment variable that holds the API key of `provider`; none for a
/// provider the server does not check.
pub open spec fn spec_tts_key_var(provider: Seq<char>) -> Option<Seq<char>> {
    if provider == "openai"@ {
        Some("OPENAI_API_KEY"@)
    } else if provider == "gemini"@ {
        Some("GEMINI_API_KEY"@)
    } else if provider == "elevenlabs"@ {
        Some("ELEVENLABS_API_KEY"@)
    } else {
        None
    }
}

/// Executable [`spec_tts_key_var`].
pub fn tts_key_var(provider: &str) -> (r: Option<&'static str>)
    ensures
        match r {
            Some(s) => spec_tts_key_var(provider@) == Some(s@),
            None => spec_tts_key_var(provider@) is None,
        },
{
    if str_eq(provider, "openai") {
        Some("OPENAI_API_KEY")
    } else if str_eq(provider, "gemini") {
        Some("GEMINI_API_KEY")
    } else if str_eq(provider, "elevenlabs") {
        Some("ELEVENLABS_API_KEY")
    } else {
        None
    }
}

/// The refusal for a provider whose key is not set.
pub open spec fn spec_missing_key_message(provider: Seq<char>) -> Seq<char> {
    if provider == "openai"@ {
        "OpenAI API key is not configured. Add OPENAI_API_KEY to enable TTS."@
    } else if provider == "gemini"@ {
        "Gemini API key is not configured. Add GEMINI_API_KEY to enable TTS."@
    } else {
        "ElevenLabs API key is not configured. Add ELEVENLABS_API_KEY to enable TTS."@
    }
}

/// Refuses to queue an episode for a checked provider whose key (the value
/// of the variable [`tts_key_var`] names, empty when unset) is empty.
pub fn check_tts_key(provider: &str, key: &str) -> (r: Result<(), AppError>)
    ensures
        r is Err <==> (spec_tts_key_var(provider@) is Some && key@.len() == 0),
        r matches Err(e) ==> is_bad_request(e, spec_missing_key_message(provider@)),
{
    if crate::text::str_len(key) != 0 {
        proof {
            if key@.len() == 0 {
                assert(crate::text::utf8_len(key@) == 0);
            }
        }
        return Ok(());
    }
    proof {
        crate::text::lemma_utf8_len_ge_len(key@);
    }
    if str_eq(provider, "openai") {
        Err(bad_request("OpenAI API key is not configured. Add OPENAI_API_KEY to enable TTS."))
    } else if str_eq(provider, "gemini") {
        Err(bad_request("Gemini API key is not configured. Add GEMINI_API_KEY to enable TTS."))
    } else if str_eq(provider, "elevenlabs") {
        Err(
            bad_request(
                "ElevenLabs API key is not configured. Add ELEVENLABS_API_KEY to enable TTS.",
            ),
        )
    } else {
        Ok(())
    }
}

/// Title of a new episode: the requested one when it is not blank, else
/// the derived one.
pub fn episode_title(requested: &Option<String>, episode_type: &str, notes: &[Note]) -> (r: String)
    ensures
        requested is Some && spec_clean_title(requested->0@) is Some ==> r@ == spec_clean_title(
            requested->0@,
        )->0,
        (requested is None || spec_clean_title(requested->0@) is None) && episode_type@
            != "digest"@ ==> r@ == spec_episode_title_on(episode_type@, notes@, seq![]),
        (requested is None || spec_clean_title(requested->0@) is None) && episode_type@
            == "digest"@ ==> exists|s: u64|
            r@ == spec_episode_title_on(episode_type@, notes@, spec_approx_date(s as nat)),
{
    let cleaned = match requested {
        Some(t) => clean_title(t.as_str()),
        None => None,
    };
    match cleaned {
        Some(c) => c,
        None => derive_episode_title(episode_type, notes),
    }
}

} // verus!

verus! {

// ---------------------------------------------------------------------------
// Serving audio files
// ---------------------------------------------------------------------------

/// Refuses to serve an episode whose status is not `complete`.
pub fn check_episode_complete(id: i64, status: &str) -> (r: Result<(), AppError>)
    ensures
        r is Ok <==> status@ == "complete"@,
        r matches Err(e) ==> is_bad_request(
            e,
            "Episode "@ + crate::text::int_decimal(id as int) + " is not complete (status: "@
                + status@ + ")"@,
        ),
{
    if str_eq(status, "complete") {
        return Ok(());
    }
    let mut v: Vec<char> = Vec::new();
    push_str(&mut v, "Episode ");
    let d = crate::text::i64_decimal(id);
    push_all(&mut v, d.as_slice());
    push_str(&mut v, " is not complete (status: ");
    push_str(&mut v, status);
    push_str(&mut v, ")");
    Err(AppError::BadRequest(string_of(v.as_slice())))
}

/// The part before the first `c`, and the part after it if there is one.
pub open spec fn split_once(s: Seq<char>, c: char) -> (Seq<char>, Option<Seq<char>>) {
    match first_in(s, seq![c]) {
        Some(i) => (s.take(i as int), Some(s.skip(i as int + 1))),
        None => (s, None),
    }
}

/// The first byte a `Range` header value asks for, if it parses.
pub open spec fn range_start(header: Seq<char>) -> Option<u64> {
    if !crate::text::starts_with(header, "bytes="@) {
        None
    } else {
        crate::text::spec_parse_u64(split_once(header.skip(6), '-').0)
    }
}

/// The `(start, end)` a `Range: bytes=start-end` header value asks for; an
/// end that is missing, empty or not a number means the last byte.
pub open spec fn spec_parse_range(header: Seq<char>, file_size: u64) -> Option<(u64, u64)> {
    match range_start(header) {
        None => None,
        Some(start) => {
            let rest = split_once(header.skip(6), '-').1;
            let last = (file_size - 1) as u64;
            let end = match rest {
                Some(e) => match crate::text::spec_parse_u64(e) {
                    Some(x) => if e.len() > 0 {
                        x
                    } else {
                        last
                    },
                    None => last,
                },
                None => last,
            };
            Some((start, end))
        },
    }
}

/// Parses the value of a `Range` header against a file of `file_size`
/// bytes (see [`spec_parse_range`]).
pub fn parse_range(header: &str, file_size: u64) -> (r: Option<(u64, u64)>)
    requires
        file_size > 0 || range_start(header@) is None,
    ensures
        r == spec_parse_range(header@, file_size),
{
    let v = chars_of(header);
    proof {
        reveal_strlit("bytes=");
    }
    let prefix = chars_of("bytes=");
    if !crate::text::starts_with_chars(v.as_slice(), prefix.as_slice()) {
        return None;
    }
    let s = slice_chars(v.as_slice(), 6, v.len());
    assert(s@ =~= header@.skip(6));
    let dash = ['-'];
    assert(dash@ =~= seq!['-']);
    let (a, rest) = match first_in_chars(s.as_slice(), &dash) {
        Some(i) => {
            let a = slice_chars(s.as_slice(), 0, i);
            let b = slice_chars(s.as_slice(), i + 1, s.len());
            assert(a@ =~= s@.take(i as int));
            assert(b@ =~= s@.skip(i + 1));
            (a, Some(b))
        },
        None => (s, None),
    };
    let start = match crate::text::parse_u64(a.as_slice()) {
        None => return None,
        Some(x) => x,
    };
    let last = file_size - 1;
    let end = match rest {
        Some(e) => if e.len() == 0 {
            last
        } else {
            match crate::text::parse_u64(e.as_slice()) {
                Some(x) => x,
                None => last,
            }
        },
        None => last,
    };
    Some((start, end))
}

/// The span served for a range request: the end clamped to the last byte,
/// and the number of bytes from `start` to it.
pub fn range_span(start: u64, end: u64, file_size: u64) -> (r: (u64, u64))
    requires
        file_size > 0,
        start <= end,
        start <= file_size - 1,
    ensures
        r.0 == if end < file_size - 1 { end } else { (file_size - 1) as u64 },
        r.1 == r.0 - start + 1,
{
    let last = file_size - 1;
    let e = if end < last {
        end
    } else {
        last
    };
    (e, e - start + 1)
}

/// `Content-Range` value of a partial answer.
pub fn content_range(start: u64, end: u64, file_size: u64) -> (r: String)
    ensures
        r@ == "bytes "@ + nat_digits(start as nat) + seq!['-'] + nat_digits(end as nat) + seq!['/']
            + nat_digits(file_size as nat),
{
    let mut v: Vec<char> = Vec::new();
    push_str(&mut v, "bytes ");
    let a = u64_digits(start);
    push_all(&mut v, a.as_slice());
    v.push('-');
    let b = u64_digits(end);
    push_all(&mut v, b.as_slice());
    v.push('/');
    let c = u64_digits(file_size);
    push_all(&mut v, c.as_slice());
    string_of(v.as_slice())
}

// ---------------------------------------------------------------------------
// Podcast feed
// ---------------------------------------------------------------------------

/// Base URL of the links in the feed: the configured one, else the local
/// server on the configured port (8999 when none is).
pub fn podcast_base_url(base: Option<String>, port: Option<String>) -> (r: String)
    ensures
        r@ == match base {
            Some(b) => b@,
            None => "http://localhost:"@ + match port {
                Some(p) => p@,
                None => "8999"@,
            },
        },
{
    match base {
        Some(b) => b,
        None => {
            let mut v: Vec<char> = Vec::new();
            push_str(&mut v, "http://localhost:");
            match port {
                Some(p) => push_str(&mut v, p.as_str()),
                None => push_str(&mut v, "8999"),
            }
            string_of(v.as_slice())
        },
    }
}

/// What the feed reads of an episode; the duration in whole seconds.
pub struct FeedEpisode {
    pub id: i64,
    pub title: String,
    pub episode_type: String,
    pub status: String,
    pub file_size_bytes: Option<i64>,
    pub duration_secs: Option<u64>,
    pub created_at: String,
}

/// The fields of one feed item.
pub struct FeedItem {
    pub title: String,
    pub description: String,
    pub pub_date: String,
    pub enclosure_url: String,
    pub enclosure_length: String,
    pub guid: String,
    pub duration: Option<String>,
    pub episode: String,
}

/// Link to the audio file of episode `id`.
pub open spec fn spec_episode_url(base: Seq<char>, id: i64) -> Seq<char> {
    base + "/api/audio/"@ + crate::text::int_decimal(id as int) + "/file"@
}

/// The item for the episode at position `index` (counted from 0).
pub open spec fn item_matches(it: FeedItem, base: Seq<char>, ep: FeedEpisode, index: nat) -> bool {
    &&& it.title@ == ep.title@
    &&& it.description@ == ep.episode_type@ + " episode"@
    &&& it.pub_date@ == ep.created_at@
    &&& it.enclosure_url@ == spec_episode_url(base, ep.id)
    &&& it.enclosure_length@ == crate::text::int_decimal(
        match ep.file_size_bytes {
            Some(n) => n as int,
            None => 0,
        },
    )
    &&& it.guid@ == "nixonnote-episode-"@ + crate::text::int_decimal(ep.id as int)
    &&& match ep.duration_secs {
        Some(d) => it.duration matches Some(t) && t@ == spec_format_duration(d as nat),
        None => it.duration is None,
    }
    &&& it.episode@ == nat_digits(index + 1)
}

/// The feed item of an episode at position `index`.
pub fn feed_item(base_url: &str, ep: &FeedEpisode, index: usize) -> (it: FeedItem)
    requires
        index < usize::MAX,
    ensures
        item_matches(it, base_url@, *ep, index as nat),
{
    let mut desc: Vec<char> = Vec::new();
    push_str(&mut desc, ep.episode_type.as_str());
    push_str(&mut desc, " episode");
    let id_text = crate::text::i64_decimal(ep.id);
    let mut url: Vec<char> = Vec::new();
    push_str(&mut url, base_url);
    push_str(&mut url, "/api/audio/");
    push_all(&mut url, id_text.as_slice());
    push_str(&mut url, "/file");
    let size: i64 = match ep.file_size_bytes {
        Some(n) => n,
        None => 0,
    };
    let len_text = crate::text::i64_decimal(size);
    let mut guid: Vec<char> = Vec::new();
    push_str(&mut guid, "nixonnote-episode-");
    push_all(&mut guid, id_text.as_slice());
    let duration = match ep.duration_secs {
        Some(d) => Some(format_duration(d)),
        None => None,
    };
    let number = u64_digits((index + 1) as u64);
    FeedItem {
        title: ep.title.clone(),
        description: string_of(desc.as_slice()),
        pub_date: ep.created_at.clone(),
        enclosure_url: string_of(url.as_slice()),
        enclosure_length: string_of(len_text.as_slice()),
        guid: string_of(guid.as_slice()),
        duration,
        episode: string_of(number.as_slice()),
    }
}

/// The episodes that are complete, in their order.
pub open spec fn complete_only(eps: Seq<FeedEpisode>) -> Seq<FeedEpisode>
    decreases eps.len(),
{
    if eps.len() == 0 {
        seq![]
    } else if eps.last().status@ == "complete"@ {
        complete_only(eps.drop_last()).push(eps.last())
    } else {
        complete_only(eps.drop_last())
    }
}

/// The items of the feed: one per complete episode, numbered from 1 in
/// the order given.
pub fn feed_items(base_url: &str, episodes: Vec<FeedEpisode>) -> (r: Vec<FeedItem>)
    ensures
        r@.len() == complete_only(episodes@).len(),
        forall|i: int|
            0 <= i < r@.len() ==> item_matches(
                #[trigger] r@[i],
                base_url@,
                complete_only(episodes@)[i],
                i as nat,
            ),
{
    let ghost all = episodes@;
    let total = episodes.len();
    assert(all.len() == total);
    let mut rest = episodes;
    let mut out: Vec<FeedItem> = Vec::new();
    let mut k: usize = 0;
    assert(all.take(0) =~= Seq::<FeedEpisode>::empty());
    assert(all.skip(0) =~= all);
    while rest.len() > 0
        invariant
            k + rest@.len() == all.len(),
            all.len() <= usize::MAX,
            rest@ == all.skip(k as int),
            out@.len() == complete_only(all.take(k as int)).len(),
            out@.len() <= k,
            forall|i: int|
                0 <= i < out@.len() ==> item_matches(
                    #[trigger] out@[i],
                    base_url@,
                    complete_only(all.take(k as int))[i],
                    i as nat,
                ),
        decreases rest@.len(),
    {
        let ep = rest.remove(0);
        assert(ep == all[k as int]);
        assert(all.take(k + 1).drop_last() =~= all.take(k as int));
        assert(all.take(k + 1).last() == all[k as int]);
        assert(rest@ =~= all.skip(k + 1));
        if str_eq(ep.status.as_str(), "complete") {
            let n = out.len();
            let it = feed_item(base_url, &ep, n);
            out.push(it);
        }
        k += 1;
    }
    assert(all.take(k as int) =~= all);
    out
}

} // verus!

verus! {

// ---------------------------------------------------------------------------
// The podcast feed document
// ---------------------------------------------------------------------------

#[verifier::external_type_specification]
#[verifier::external_body]
pub struct ExRssChannel(rss::Channel);

#[verifier::external_type_specification]
#[verifier::external_body]
pub struct ExRssItem(rss::Item);

#[verifier::external_type_specification]
#[verifier::external_body]
pub struct ExRssEnclosure(rss::Enclosure);

#[verifier::external_type_specification]
#[verifier::external_body]
pub struct ExRssGuid(rss::Guid);

#[verifier::external_type_specification]
#[verifier::external_body]
pub struct ExITunesItem(rss::extension::itunes::ITunesItemExtension);

#[verifier::external_type_specification]
#[verifier::external_body]
pub struct ExITunesChannel(rss::extension::itunes::ITunesChannelExtension);

#[verifier::external_type_specification]
#[verifier::external_body]
pub struct ExITunesOwner(rss::extension::itunes::ITunesOwner);

#[verifier::external_type_specification]
#[verifier::external_body]
pub struct ExITunesCategory(rss::extension::itunes::ITunesCategory);

/// The iTunes fields of an item built from a duration, an episode number,
/// an episode type and an explicit flag (`ITunesItemExtensionBuilder`). The
/// value depends on these alone.
pub uninterp spec fn itunes_item_value(
    duration: Option<Seq<char>>,
    episode: Seq<char>,
    episode_type: Seq<char>,
    explicit: Seq<char>,
) -> rss::extension::itunes::ITunesItemExtension;

/// The enclosure built from a URL, a length and a MIME type
/// (`EnclosureBuilder`). The value depends on these alone.
pub uninterp spec fn enclosure_value(url: Seq<char>, length: Seq<char>, mime_type: Seq<char>) -> rss::Enclosure;

/// The guid built from a value and the permalink flag (`GuidBuilder`). The
/// value depends on these alone.
pub uninterp spec fn guid_value(value: Seq<char>, permalink: bool) -> rss::Guid;

/// The item built from a title, a description, a publication date, an
/// enclosure, a guid and iTunes fields (`ItemBuilder`). The value depends
/// on these alone.
pub uninterp spec fn item_value(
    title: Seq<char>,
    description: Seq<char>,
    pub_date: Seq<char>,
    enclosure: rss::Enclosure,
    guid: rss::Guid,
    itunes: rss::extension::itunes::ITunesItemExtension,
) -> rss::Item;

/// The owner built from a name and an email (`ITunesOwnerBuilder`). The
/// value depends on these alone.
pub uninterp spec fn owner_value(name: Seq<char>, email: Seq<char>) -> rss::extension::itunes::ITunesOwner;

/// The category built from a text (`ITunesCategoryBuilder`). The value
/// depends on the text alone.
pub uninterp spec fn category_value(text: Seq<char>) -> rss::extension::itunes::ITunesCategory;

/// The iTunes fields of a channel built from an author, a subtitle, a
/// summary, an explicit flag, a show type, an owner and categories
/// (`ITunesChannelExtensionBuilder`, then `set_type`). The value depends on
/// these alone.
pub uninterp spec fn itunes_channel_value(
    author: Seq<char>,
    subtitle: Seq<char>,
    summary: Seq<char>,
    explicit: Seq<char>,
    show_type: Seq<char>,
    owner: rss::extension::itunes::ITunesOwner,
    categories: Seq<rss::extension::itunes::ITunesCategory>,
) -> rss::extension::itunes::ITunesChannelExtension;

/// The channel built from a title, a link, a description, a language, the
/// items and iTunes fields (`ChannelBuilder`). The value depends on these
/// alone.
pub uninterp spec fn channel_value(
    title: Seq<char>,
    link: Seq<char>,
    description: Seq<char>,
    language: Seq<char>,
    items: Seq<rss::Item>,
    itunes: rss::extension::itunes::ITunesChannelExtension,
) -> rss::Channel;

/// The RSS document of a channel (`Display` of `rss::Channel`). It depends
/// on the channel alone.
pub uninterp spec fn channel_text(channel: rss::Channel) -> Seq<char>;

/// `ITunesItemExtensionBuilder` with a duration, an episode number, an
/// episode type and an explicit flag, as [`itunes_item_value`] names it.
#[verifier::external_body]
fn itunes_item(
    duration: Option<String>,
    episode: String,
    episode_type: String,
    explicit: String,
) -> (r: rss::extension::itunes::ITunesItemExtension)
    ensures
        r == itunes_item_value(
            match duration {
                Some(d) => Some(d@),
                None => None,
            },
            episode@,
            episode_type@,
            explicit@,
        ),
{
    rss::extension::itunes::ITunesItemExtensionBuilder::default()
        .duration(duration)
        .episode(Some(episode))
        .episode_type(Some(episode_type))
        .explicit(Some(explicit))
        .build()
}

/// `EnclosureBuilder` with a URL, a length and a MIME type, as
/// [`enclosure_value`] names it.
#[verifier::external_body]
fn rss_enclosure(url: String, length: String, mime_type: String) -> (r: rss::Enclosure)
    ensures
        r == enclosure_value(url@, length@, mime_type@),
{
    rss::EnclosureBuilder::default().url(url).length(length).mime_type(mime_type).build()
}

/// `GuidBuilder` with a value and the permalink flag, as [`guid_value`]
/// names it.
#[verifier::external_body]
fn rss_guid(value: String, permalink: bool) -> (r: rss::Guid)
    ensures
        r == guid_value(value@, permalink),
{
    rss::GuidBuilder::default().value(value).permalink(permalink).build()
}

/// `ItemBuilder` with a title, a description, a publication date, an
/// enclosure, a guid and the iTunes fields, as [`item_value`] names it.
#[verifier::external_body]
fn rss_item(
    title: String,
    description: String,
    pub_date: String,
    enclosure: rss::Enclosure,
    guid: rss::Guid,
    itunes: rss::extension::itunes::ITunesItemExtension,
) -> (r: rss::Item)
    ensures
        r == item_value(title@, description@, pub_date@, enclosure, guid, itunes),
{
    rss::ItemBuilder::default()
        .title(Some(title))
        .description(Some(description))
        .pub_date(Some(pub_date))
        .enclosure(Some(enclosure))
        .guid(Some(guid))
        .itunes_ext(Some(itunes))
        .build()
}

/// `ITunesOwnerBuilder` with a name and an email, as [`owner_value`] names
/// it.
#[verifier::external_body]
fn itunes_owner(name: String, email: String) -> (r: rss::extension::itunes::ITunesOwner)
    ensures
        r == owner_value(name@, email@),
{
    rss::extension::itunes::ITunesOwnerBuilder::default().name(Some(name)).email(Some(email)).build()
}

/// `ITunesCategoryBuilder` with a text, as [`category_value`] names it.
#[verifier::external_body]
fn itunes_category(text: String) -> (r: rss::extension::itunes::ITunesCategory)
    ensures
        r == category_value(text@),
{
    rss::extension::itunes::ITunesCategoryBuilder::default().text(text).build()
}

/// `ITunesChannelExtensionBuilder` with an author, a subtitle, a summary, an
/// explicit flag, an owner and categories, then `set_type` with the show
/// type, as [`itunes_channel_value`] names it.
#[verifier::external_body]
fn itunes_channel(
    author: String,
    subtitle: String,
    summary: String,
    explicit: String,
    show_type: String,
    owner: rss::extension::itunes::ITunesOwner,
    categories: Vec<rss::extension::itunes::ITunesCategory>,
) -> (r: rss::extension::itunes::ITunesChannelExtension)
    ensures
        r == itunes_channel_value(author@, subtitle@, summary@, explicit@, show_type@, owner, categories@),
{
    let mut ext = rss::extension::itunes::ITunesChannelExtensionBuilder::default()
        .author(Some(author))
        .subtitle(Some(subtitle))
        .summary(Some(summary))
        .explicit(Some(explicit))
        .owner(Some(owner))
        .categories(categories)
        .build();
    ext.set_type(Some(show_type));
    ext
}

/// `ChannelBuilder` with a title, a link, a description, a language, the
/// items and the iTunes fields, as [`channel_value`] names it.
#[verifier::external_body]
fn rss_channel(
    title: String,
    link: String,
    description: String,
    language: String,
    items: Vec<rss::Item>,
    itunes: rss::extension::itunes::ITunesChannelExtension,
) -> (r: rss::Channel)
    ensures
        r == channel_value(title@, link@, description@, language@, items@, itunes),
{
    rss::ChannelBuilder::default()
        .title(title)
        .link(link)
        .description(description)
        .language(Some(language))
        .items(items)
        .itunes_ext(Some(itunes))
        .build()
}

/// `Display` of an `rss::Channel`: its RSS document, as [`channel_text`]
/// names it.
#[verifier::external_body]
fn channel_xml(channel: &rss::Channel) -> (r: String)
    ensures
        r@ == channel_text(*channel),
{
    channel.to_string()
}

/// An owned copy of a text.
fn text(s: &str) -> (r: String)
    ensures
        r@ == s@,
{
    String::from_str(s)
}

/// The RSS item made of a feed item: its fields, the MIME type
/// `audio/mpeg`, a guid that is no permalink, and the episode type `full`
/// with the explicit flag `No`.
pub open spec fn spec_item_of(it: FeedItem) -> rss::Item {
    item_value(
        it.title@,
        it.description@,
        it.pub_date@,
        enclosure_value(it.enclosure_url@, it.enclosure_length@, "audio/mpeg"@),
        guid_value(it.guid@, false),
        itunes_item_value(
            match it.duration {
                Some(d) => Some(d@),
                None => None,
            },
            it.episode@,
            "full"@,
            "No"@,
        ),
    )
}

/// The RSS item of one feed item (see [`spec_item_of`]).
fn item_of(it: FeedItem) -> (r: rss::Item)
    ensures
        r == spec_item_of(it),
{
    let ext = itunes_item(it.duration, it.episode, text("full"), text("No"));
    let enclosure = rss_enclosure(it.enclosure_url, it.enclosure_length, text("audio/mpeg"));
    let guid = rss_guid(it.guid, false);
    rss_item(it.title, it.description, it.pub_date, enclosure, guid, ext)
}

/// The address of the feed under a base URL.
pub fn feed_link(base_url: &str) -> (r: String)
    ensures
        r@ == base_url@ + "/api/podcast/feed.xml"@,
{
    let mut v: Vec<char> = Vec::new();
    push_str(&mut v, base_url);
    push_str(&mut v, "/api/podcast/feed.xml");
    string_of(v.as_slice())
}

/// The RSS item of the episode at position `index` (counted from 0) of the
/// feed: the fields [`item_matches`] gives its feed item.
pub open spec fn rss_item_of(base: Seq<char>, ep: FeedEpisode, index: nat) -> rss::Item {
    item_value(
        ep.title@,
        ep.episode_type@ + " episode"@,
        ep.created_at@,
        enclosure_value(
            spec_episode_url(base, ep.id),
            crate::text::int_decimal(
                match ep.file_size_bytes {
                    Some(n) => n as int,
                    None => 0,
                },
            ),
            "audio/mpeg"@,
        ),
        guid_value("nixonnote-episode-"@ + crate::text::int_decimal(ep.id as int), false),
        itunes_item_value(
            match ep.duration_secs {
                Some(d) => Some(spec_format_duration(d as nat)),
                None => None,
            },
            nat_digits(index + 1),
            "full"@,
            "No"@,
        ),
    )
}

/// The channel of the podcast: one item per complete episode, numbered
/// from 1 in the order given, under the show's title, link, description,
/// language and iTunes fields.
pub open spec fn podcast_channel(base: Seq<char>, episodes: Seq<FeedEpisode>) -> rss::Channel {
    let eps = complete_only(episodes);
    channel_value(
        "NixonNote Podcast"@,
        base + "/api/podcast/feed.xml"@,
        "Your notes, read aloud"@,
        "en"@,
        Seq::new(eps.len(), |i: int| rss_item_of(base, eps[i], i as nat)),
        itunes_channel_value(
            "NixonNote"@,
            "Your notes as a podcast"@,
            "Auto-generated podcast from NixonNote entries"@,
            "No"@,
            "episodic"@,
            owner_value("NixonNote"@, "podcast@nixonnote.local"@),
            seq![category_value("Technology"@)],
        ),
    )
}

/// The podcast RSS document: the document of [`podcast_channel`].
pub fn build_podcast_feed(base_url: &str, episodes: Vec<FeedEpisode>) -> (r: String)
    ensures
        r@ == channel_text(podcast_channel(base_url@, episodes@)),
{
    let ghost eps = complete_only(episodes@);
    let items = feed_items(base_url, episodes);
    let ghost all = items@;
    assert(all.len() == items.len());
    let mut rss_items: Vec<rss::Item> = Vec::new();
    let mut rest = items;
    let mut k: usize = 0;
    assert(all.skip(0) =~= all);
    while rest.len() > 0
        invariant
            all.len() == eps.len(),
            all.len() <= usize::MAX,
            k + rest@.len() == all.len(),
            rest@ == all.skip(k as int),
            rss_items@.len() == k,
            forall|i: int| 0 <= i < all.len() ==> item_matches(#[trigger] all[i], base_url@, eps[i], i as nat),
            forall|i: int| 0 <= i < k ==> #[trigger] rss_items@[i] == rss_item_of(base_url@, eps[i], i as nat),
        decreases rest@.len(),
    {
        let it = rest.remove(0);
        assert(it == all[k as int]);
        assert(rest@ =~= all.skip(k + 1));
        assert(item_matches(all[k as int], base_url@, eps[k as int], k as nat));
        let ri = item_of(it);
        assert(ri == rss_item_of(base_url@, eps[k as int], k as nat));
        rss_items.push(ri);
        k += 1;
    }
    assert(rss_items@ =~= Seq::new(eps.len(), |i: int| rss_item_of(base_url@, eps[i], i as nat)));
    let owner = itunes_owner(text("NixonNote"), text("podcast@nixonnote.local"));
    let mut categories: Vec<rss::extension::itunes::ITunesCategory> = Vec::new();
    categories.push(itunes_category(text("Technology")));
    assert(categories@ =~= seq![category_value("Technology"@)]);
    let itunes = itunes_channel(
        text("NixonNote"),
        text("Your notes as a podcast"),
        text("Auto-generated podcast from NixonNote entries"),
        text("No"),
        text("episodic"),
        owner,
        categories,
    );
    let channel = rss_channel(
        text("NixonNote Podcast"),
        feed_link(base_url),
        text("Your notes, read aloud"),
        text("en"),
        rss_items,
        itunes,
    );
    channel_xml(&channel)
}

} // verus!
