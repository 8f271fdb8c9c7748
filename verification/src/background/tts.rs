//! Text-to-speech decisions: provider selection, text chunking for API
//! limits, and audio file naming.
use vstd::prelude::*;

use crate::text::{
    char_width, chars_of, seq_eq, slice_chars, split_incl_from, split_inclusive, split_inclusive_chars, trim, trim_chars, utf8_len,
    utf8_len_chars, views, string_of, str_views, int_decimal, kebab, strip_both, i64_decimal, kebab_chars,
    push_str, push_all, strip_both_chars, u64_digits,
};

verus! {

// ---------------------------------------------------------------------------
// Providers
// ---------------------------------------------------------------------------

/// A text-to-speech service.
#[derive(PartialEq, Eq, Structural, Clone, Copy, Debug)]
pub enum TtsProvider {
    OpenAi,
    Gemini,
    ElevenLabs,
}

impl TtsProvider {
    /// The provider a setting names; anything unknown means OpenAI.
    pub open spec fn spec_from_setting(provider: Seq<char>) -> TtsProvider {
        if provider == "gemini"@ {
            TtsProvider::Gemini
        } else if provider == "elevenlabs"@ {
            TtsProvider::ElevenLabs
        } else {
            TtsProvider::OpenAi
        }
    }

    /// The provider named by a settings value.
    pub fn from_setting(provider: &str) -> (p: TtsProvider)
        ensures
            p == Self::spec_from_setting(provider@),
    {
        let v = chars_of(provider);
        if seq_eq(v.as_slice(), "gemini") {
            TtsProvider::Gemini
        } else if seq_eq(v.as_slice(), "elevenlabs") {
            TtsProvider::ElevenLabs
        } else {
            TtsProvider::OpenAi
        }
    }

    /// The voice used when an episode names none.
    pub open spec fn spec_default_voice(self) -> Seq<char> {
        match self {
            TtsProvider::OpenAi => "alloy"@,
            TtsProvider::Gemini => "Kore"@,
            TtsProvider::ElevenLabs => "N2lVS1wzUtoSnaSjtS9X"@,
        }
    }

    /// The voice used when an episode names none.
    pub fn default_voice(&self) -> (v: &'static str)
        ensures
            v@ == self.spec_default_voice(),
    {
        match self {
            TtsProvider::OpenAi => "alloy",
            TtsProvider::Gemini => "Kore",
            TtsProvider::ElevenLabs => "N2lVS1wzUtoSnaSjtS9X",
        }
    }

    /// Largest text (in bytes) one synthesis request may carry.
    pub open spec fn spec_chunk_limit(self) -> usize {
        match self {
            TtsProvider::ElevenLabs => 5000,
            _ => 4096,
        }
    }

    /// Largest text (in bytes) one synthesis request may carry.
    pub fn chunk_limit(&self) -> (n: usize)
        ensures
            n == self.spec_chunk_limit(),
    {
        match self {
            TtsProvider::ElevenLabs => 5000,
            _ => 4096,
        }
    }
}

} // verus!

verus! {

// ---------------------------------------------------------------------------
// Chunking: specification
// ---------------------------------------------------------------------------

/// Characters that end a sentence.
pub open spec fn sentence_terms() -> Seq<char> {
    seq!['.', '!', '?']
}

/// Characters that end a clause.
pub open spec fn clause_terms() -> Seq<char> {
    seq![',', ';', ':']
}

/// The sentences of `s`: pieces ending at `.`, `!` or `?`, plus any tail.
pub open spec fn spec_split_sentences(s: Seq<char>) -> Seq<Seq<char>> {
    split_inclusive(s, sentence_terms())
}

/// Greedy packing of clause pieces into chunks: a chunk is closed (trimmed)
/// when the next piece would take it over `max` bytes.
pub open spec fn clauses_from(parts: Seq<Seq<char>>, max: nat, cur: Seq<char>) -> Seq<Seq<char>>
    decreases parts.len(),
{
    if parts.len() == 0 {
        if trim(cur).len() > 0 {
            seq![trim(cur)]
        } else {
            seq![]
        }
    } else {
        let p = parts[0];
        if utf8_len(cur) + utf8_len(p) > max && cur.len() > 0 {
            seq![trim(cur)] + clauses_from(parts.drop_first(), max, p)
        } else {
            clauses_from(parts.drop_first(), max, cur + p)
        }
    }
}

/// Number of leading characters of `c` whose encoding takes exactly `n`
/// bytes, if `n` falls on a character boundary.
pub open spec fn prefix_chars(c: Seq<char>, n: nat) -> Option<nat>
    decreases c.len(),
{
    if n == 0 {
        Some(0)
    } else if c.len() == 0 {
        None
    } else if char_width(c[0]) > n {
        None
    } else {
        match prefix_chars(c.drop_first(), (n - char_width(c[0])) as nat) {
            Some(k) => Some(k + 1),
            None => None,
        }
    }
}

/// `c` cut every `max` bytes (the last piece may be shorter).
pub open spec fn byte_pieces(c: Seq<char>, max: nat) -> Seq<Seq<char>>
    decreases c.len(),
{
    if utf8_len(c) <= max {
        if c.len() == 0 {
            seq![]
        } else {
            seq![c]
        }
    } else {
        match prefix_chars(c, max) {
            Some(k) => if 0 < k <= c.len() {
                seq![c.take(k as int)] + byte_pieces(c.skip(k as int), max)
            } else {
                seq![]
            },
            None => seq![],
        }
    }
}

/// Cutting `c` every `max` bytes lands on character boundaries (so slicing
/// the string there does not panic).
pub open spec fn pieces_ok(c: Seq<char>, max: nat) -> bool
    decreases c.len(),
{
    if utf8_len(c) <= max {
        true
    } else {
        max > 0 && match prefix_chars(c, max) {
            Some(k) => if 0 < k <= c.len() {
                pieces_ok(c.skip(k as int), max)
            } else {
                false
            },
            None => false,
        }
    }
}

/// A chunk longer than `max` bytes is cut into `max`-byte pieces.
pub open spec fn hard_split(c: Seq<char>, max: nat) -> Seq<Seq<char>> {
    if utf8_len(c) > max {
        byte_pieces(c, max)
    } else {
        seq![c]
    }
}

/// [`hard_split`] applied to each chunk, results concatenated.
pub open spec fn flat_hard(cs: Seq<Seq<char>>, max: nat) -> Seq<Seq<char>>
    decreases cs.len(),
{
    if cs.len() == 0 {
        seq![]
    } else {
        hard_split(cs[0], max) + flat_hard(cs.drop_first(), max)
    }
}

/// Clause-level chunks of `s` before the hard split.
pub open spec fn clause_chunks(s: Seq<char>, max: nat) -> Seq<Seq<char>> {
    clauses_from(split_inclusive(s, clause_terms()), max, seq![])
}

/// What `split_on_clauses(s, max)` returns.
pub open spec fn spec_split_on_clauses(s: Seq<char>, max: nat) -> Seq<Seq<char>> {
    flat_hard(clause_chunks(s, max), max)
}

/// `split_on_clauses(s, max)` does not panic: every clause chunk longer than
/// `max` bytes can be cut at `max`-byte character boundaries.
pub open spec fn clauses_ok(s: Seq<char>, max: nat) -> bool {
    forall|i: int|
        0 <= i < clause_chunks(s, max).len() ==> pieces_ok(#[trigger] clause_chunks(s, max)[i], max)
}

/// Greedy packing of sentences into chunks of at most `max` bytes; a
/// sentence longer than `max` is split on clauses.
pub open spec fn chunks_from(sents: Seq<Seq<char>>, max: nat, cur: Seq<char>) -> Seq<Seq<char>>
    decreases sents.len(),
{
    if sents.len() == 0 {
        if trim(cur).len() > 0 {
            seq![trim(cur)]
        } else {
            seq![]
        }
    } else {
        let s = sents[0];
        if utf8_len(cur) + utf8_len(s) > max {
            let flushed = if cur.len() > 0 {
                seq![trim(cur)]
            } else {
                Seq::<Seq<char>>::empty()
            };
            if utf8_len(s) > max {
                flushed + spec_split_on_clauses(s, max) + chunks_from(
                    sents.drop_first(),
                    max,
                    seq![],
                )
            } else {
                flushed + chunks_from(sents.drop_first(), max, s)
            }
        } else {
            chunks_from(sents.drop_first(), max, cur + s)
        }
    }
}

/// What `chunk_text(text, max)` returns.
pub open spec fn spec_chunk_text(text: Seq<char>, max: nat) -> Seq<Seq<char>> {
    if utf8_len(text) <= max {
        seq![text]
    } else {
        chunks_from(spec_split_sentences(text), max, seq![])
    }
}

/// `chunk_text(text, max)` does not panic.
pub open spec fn chunk_text_ok(text: Seq<char>, max: nat) -> bool {
    utf8_len(text) <= max || forall|i: int|
        0 <= i < spec_split_sentences(text).len() && utf8_len(
            #[trigger] spec_split_sentences(text)[i],
        ) > max ==> clauses_ok(spec_split_sentences(text)[i], max)
}

} // verus!

verus! {

// ---------------------------------------------------------------------------
// Chunking: lemmas
// ---------------------------------------------------------------------------

pub proof fn lemma_prefix_chars(s: Seq<char>, n: nat)
    ensures
        prefix_chars(s, n) matches Some(k) ==> {
            &&& k <= s.len()
            &&& utf8_len(s.take(k as int)) == n
            &&& forall|j: int| 0 <= j < k ==> utf8_len(#[trigger] s.take(j)) < n
        },
        prefix_chars(s, n) is None ==> forall|j: int|
            0 <= j <= s.len() ==> utf8_len(#[trigger] s.take(j)) != n,
    decreases s.len(),
{
    assert(s.take(0) =~= Seq::<char>::empty());
    if n == 0 {
    } else if s.len() == 0 {
        assert forall|j: int| 0 <= j <= s.len() implies utf8_len(#[trigger] s.take(j)) != n by {
            assert(s.take(j) =~= Seq::<char>::empty());
        }
    } else {
        let w = char_width(s[0]);
        let t = s.drop_first();
        lemma_prefix_chars(t, (n - w) as nat);
        assert forall|j: int| 1 <= j <= s.len() implies utf8_len(#[trigger] s.take(j)) == w + utf8_len(
            t.take(j - 1),
        ) by {
            assert(s.take(j).drop_first() =~= t.take(j - 1));
        }
        if w > n {
            assert forall|j: int| 0 <= j <= s.len() implies utf8_len(#[trigger] s.take(j)) != n by {
                if j >= 1 {
                    assert(utf8_len(s.take(j)) == w + utf8_len(t.take(j - 1)));
                }
            }
        } else {
            match prefix_chars(t, (n - w) as nat) {
                Some(k) => {
                    assert(utf8_len(s.take(k + 1 as int)) == w + utf8_len(t.take(k as int)));
                    assert forall|j: int| 0 <= j < k + 1 implies utf8_len(#[trigger] s.take(j))
                        < n by {
                        if j >= 1 {
                            assert(utf8_len(s.take(j)) == w + utf8_len(t.take(j - 1)));
                        }
                    }
                },
                None => {
                    assert forall|j: int| 0 <= j <= s.len() implies utf8_len(#[trigger] s.take(j))
                        != n by {
                        if j >= 1 {
                            assert(utf8_len(s.take(j)) == w + utf8_len(t.take(j - 1)));
                        }
                    }
                },
            }
        }
    }
}

// ---------------------------------------------------------------------------
// Chunking: implementation
// ---------------------------------------------------------------------------

/// Appends the vectors of `more` to `out`.
fn append_pieces(out: &mut Vec<Vec<char>>, more: Vec<Vec<char>>)
    ensures
        views(final(out)@) == views(old(out)@) + views(more@),
{
    let mut more = more;
    let ghost m = more@;
    out.append(&mut more);
    assert(views(out@) =~= views(old(out)@) + views(m));
}

/// `c[from..]` cut every `max` bytes, or `None` where a cut would fall
/// inside a character.
fn byte_pieces_checked(c: &[char], max: usize) -> (r: Option<Vec<Vec<char>>>)
    ensures
        r is Some <==> pieces_ok(c@, max as nat),
        r matches Some(v) ==> views(v@) == byte_pieces(c@, max as nat),
{
    let mut out: Vec<Vec<char>> = Vec::new();
    let mut pos: usize = 0;
    let mut rem: u128 = utf8_len_chars(c);
    assert(c@.skip(0) =~= c@);
    loop
        invariant
            pos <= c@.len(),
            rem == utf8_len(c@.skip(pos as int)),
            pieces_ok(c@, max as nat) <==> pieces_ok(c@.skip(pos as int), max as nat),
            byte_pieces(c@, max as nat) == views(out@) + byte_pieces(c@.skip(pos as int), max as nat),
        decreases c@.len() - pos,
    {
        let ghost rest = c@.skip(pos as int);
        if rem <= max as u128 {
            if pos < c.len() {
                let piece = slice_chars(c, pos, c.len());
                let ghost o = views(out@);
                out.push(piece);
                assert(views(out@) =~= o + seq![rest]);
            } else {
                assert(rest.len() == 0);
                assert(views(out@) =~= views(out@) + Seq::<Seq<char>>::empty());
            }
            return Some(out);
        }
        if max == 0 {
            return None;
        }
        proof {
            lemma_prefix_chars(rest, max as nat);
        }
        let mut j: usize = pos;
        let mut acc: u128 = 0;
        assert(rest.take(0) =~= Seq::<char>::empty());
        while acc < max as u128 && j < c.len()
            invariant
                pos <= j <= c@.len(),
                rest == c@.skip(pos as int),
                acc == utf8_len(rest.take(j - pos)),
                prefix_chars(rest, max as nat) matches Some(k) ==> j - pos <= k && utf8_len(
                    rest.take(k as int),
                ) == max,
                forall|jj: int|
                    0 <= jj <= j - pos ==> utf8_len(#[trigger] rest.take(jj)) <= acc,
            decreases c@.len() - j,
        {
            proof {
                vstd::seq_lib::lemma_seq_skip_index(c@, pos as int, (j - pos) as int);
                crate::text::lemma_utf8_len_take_next(rest, (j - pos) as int);
                assert(rest[(j - pos) as int] == c@[j as int]);
            }
            acc = acc + crate::text::width_of(c[j]) as u128;
            j += 1;
        }
        if acc != max as u128 {
            proof {
                assert(prefix_chars(rest, max as nat) is None) by {
                    if let Some(k) = prefix_chars(rest, max as nat) {
                        if j - pos < k {
                            assert(utf8_len(rest.take((j - pos) as int)) < max);
                            assert(j == c@.len());
                            assert(rest.len() == j - pos);
                        }
                    }
                }
            }
            return None;
        }
        proof {
            if let Some(k) = prefix_chars(rest, max as nat) {
                if j - pos < k {
                    assert(utf8_len(rest.take((j - pos) as int)) < max);
                }
            }
        }
        let ghost k = (j - pos) as nat;
        assert(prefix_chars(rest, max as nat) == Some(k));
        let piece = slice_chars(c, pos, j);
        assert(piece@ =~= rest.take(k as int));
        assert(rest.skip(k as int) =~= c@.skip(j as int));
        proof {
            crate::text::lemma_utf8_len_subrange(rest, k as int, k as int);
            assert(rest.take(k as int).len() == k);
            assert(rest.subrange(k as int, k as int) =~= Seq::<char>::empty());
        }
        let ghost o = views(out@);
        out.push(piece);
        assert(views(out@) =~= o + seq![rest.take(k as int)]);
        rem = rem - max as u128;
        pos = j;
    }
}

} // verus!

verus! {

/// [`hard_split`] with the panic condition reported as `None`.
fn hard_split_checked(c: Vec<char>, max: usize) -> (r: Option<Vec<Vec<char>>>)
    ensures
        r is Some <==> pieces_ok(c@, max as nat),
        r matches Some(v) ==> views(v@) == hard_split(c@, max as nat),
{
    let n = utf8_len_chars(c.as_slice());
    if n > max as u128 {
        byte_pieces_checked(c.as_slice(), max)
    } else {
        let mut v: Vec<Vec<char>> = Vec::new();
        let ghost cv = c@;
        v.push(c);
        assert(views(v@) =~= seq![cv]);
        Some(v)
    }
}

/// Clause-level chunks of `s` (before the hard split).
fn clause_chunks_chars(s: &[char], max: usize) -> (r: Vec<Vec<char>>)
    ensures
        views(r@) == clause_chunks(s@, max as nat),
{
    let terms = [',', ';', ':'];
    assert(terms@ =~= clause_terms());
    let parts = split_inclusive_chars(s, &terms);
    let ghost ps = views(parts@);
    let mut chunks: Vec<Vec<char>> = Vec::new();
    let mut cur: Vec<char> = Vec::new();
    let mut cur_len: u128 = 0;
    let mut i: usize = 0;
    assert(ps.skip(0) =~= ps);
    while i < parts.len()
        invariant
            i <= parts@.len(),
            ps == views(parts@),
            ps == split_inclusive(s@, clause_terms()),
            cur_len == utf8_len(cur@),
            clause_chunks(s@, max as nat) == views(chunks@) + clauses_from(
                ps.skip(i as int),
                max as nat,
                cur@,
            ),
        decreases parts@.len() - i,
    {
        let p = &parts[i];
        let ghost rest = ps.skip(i as int);
        assert(rest[0] == p@);
        assert(rest.drop_first() =~= ps.skip(i + 1));
        let plen = utf8_len_chars(p.as_slice());
        let cl = cur.len();
        let pl = p.len();
        proof {
            crate::text::lemma_utf8_len_le_4len(cur@);
            crate::text::lemma_utf8_len_le_4len(p@);
        }
        if cur_len + plen > max as u128 && cl > 0 {
            let t = trim_chars(cur.as_slice());
            let ghost o = views(chunks@);
            chunks.push(t);
            assert(views(chunks@) + clauses_from(ps.skip(i + 1), max as nat, p@) =~= o + (seq![
                trim(cur@),
            ] + clauses_from(ps.skip(i + 1), max as nat, p@)));
            cur = Vec::new();
            cur_len = 0;
        }
        let ghost before = cur@;
        crate::text::push_all(&mut cur, p.as_slice());
        proof {
            crate::text::lemma_utf8_len_concat(before, p@);
        }
        cur_len = cur_len + plen;
        i += 1;
    }
    let t = trim_chars(cur.as_slice());
    let ghost o = views(chunks@);
    if t.len() > 0 {
        chunks.push(t);
        assert(views(chunks@) =~= o + seq![trim(cur@)]);
    } else {
        assert(views(chunks@) =~= o + Seq::<Seq<char>>::empty());
    }
    chunks
}

/// [`spec_split_on_clauses`], or `None` where cutting at a byte count would split a character.
fn split_on_clauses_checked(s: &[char], max: usize) -> (r: Option<Vec<Vec<char>>>)
    ensures
        r is Some <==> clauses_ok(s@, max as nat),
        r matches Some(v) ==> views(v@) == spec_split_on_clauses(s@, max as nat),
{
    let chunks = clause_chunks_chars(s, max);
    let ghost cs = views(chunks@);
    let mut out: Vec<Vec<char>> = Vec::new();
    let mut j: usize = 0;
    assert(cs.skip(0) =~= cs);
    while j < chunks.len()
        invariant
            j <= chunks@.len(),
            cs == views(chunks@),
            cs == clause_chunks(s@, max as nat),
            forall|q: int| 0 <= q < j ==> pieces_ok(#[trigger] cs[q], max as nat),
            spec_split_on_clauses(s@, max as nat) == views(out@) + flat_hard(
                cs.skip(j as int),
                max as nat,
            ),
        decreases chunks@.len() - j,
    {
        let c = slice_chars(chunks[j].as_slice(), 0, chunks[j].len());
        assert(c@ =~= cs[j as int]);
        let ghost rest = cs.skip(j as int);
        assert(rest[0] == c@);
        assert(rest.drop_first() =~= cs.skip(j + 1));
        match hard_split_checked(c, max) {
            Some(pieces) => {
                let ghost o = views(out@);
                let ghost pv = views(pieces@);
                append_pieces(&mut out, pieces);
                assert(views(out@) + flat_hard(cs.skip(j + 1), max as nat) =~= o + (pv + flat_hard(
                    cs.skip(j + 1),
                    max as nat,
                )));
            },
            None => {
                assert(!clauses_ok(s@, max as nat));
                return None;
            },
        }
        j += 1;
    }
    assert(cs.skip(j as int) =~= Seq::<Seq<char>>::empty());
    assert(views(out@) + flat_hard(cs.skip(j as int), max as nat) =~= views(out@));
    Some(out)
}

} // verus!

verus! {

/// [`spec_chunk_text`] on characters, or `None` where cutting at a byte count would
/// split a character.
fn chunk_chars_checked(v: &[char], max: usize) -> (r: Option<Vec<Vec<char>>>)
    ensures
        r is Some <==> chunk_text_ok(v@, max as nat),
        r matches Some(out) ==> views(out@) == spec_chunk_text(v@, max as nat),
{
    let total = utf8_len_chars(v);
    if total <= max as u128 {
        let mut out: Vec<Vec<char>> = Vec::new();
        let whole = slice_chars(v, 0, v.len());
        assert(whole@ =~= v@);
        out.push(whole);
        assert(views(out@) =~= seq![v@]);
        return Some(out);
    }
    let terms = ['.', '!', '?'];
    assert(terms@ =~= sentence_terms());
    let sents = split_inclusive_chars(v, &terms);
    let ghost ss = views(sents@);
    let mut out: Vec<Vec<char>> = Vec::new();
    let mut cur: Vec<char> = Vec::new();
    let mut cur_len: u128 = 0;
    let mut i: usize = 0;
    assert(ss.skip(0) =~= ss);
    while i < sents.len()
        invariant
            i <= sents@.len(),
            ss == views(sents@),
            ss == spec_split_sentences(v@),
            utf8_len(v@) > max,
            cur_len == utf8_len(cur@),
            forall|q: int|
                0 <= q < i && utf8_len(#[trigger] ss[q]) > max ==> clauses_ok(ss[q], max as nat),
            spec_chunk_text(v@, max as nat) == views(out@) + chunks_from(
                ss.skip(i as int),
                max as nat,
                cur@,
            ),
        decreases sents@.len() - i,
    {
        let s = &sents[i];
        let ghost rest = ss.skip(i as int);
        assert(rest[0] == s@);
        assert(rest.drop_first() =~= ss.skip(i + 1));
        let slen = utf8_len_chars(s.as_slice());
        let cl = cur.len();
        let sl = s.len();
        proof {
            crate::text::lemma_utf8_len_le_4len(cur@);
            crate::text::lemma_utf8_len_le_4len(s@);
        }
        if cur_len + slen > max as u128 {
            let ghost o = views(out@);
            let ghost flushed = if cur@.len() > 0 {
                seq![trim(cur@)]
            } else {
                Seq::<Seq<char>>::empty()
            };
            if cl > 0 {
                let t = trim_chars(cur.as_slice());
                out.push(t);
                cur = Vec::new();
                cur_len = 0;
            }
            assert(views(out@) =~= o + flushed);
            if slen > max as u128 {
                match split_on_clauses_checked(s.as_slice(), max) {
                    Some(pieces) => {
                        let ghost pv = views(pieces@);
                        let ghost o2 = views(out@);
                        append_pieces(&mut out, pieces);
                        assert(views(out@) + chunks_from(ss.skip(i + 1), max as nat, seq![]) =~= o
                            + (flushed + pv + chunks_from(ss.skip(i + 1), max as nat, seq![])));
                        assert(cur@ =~= Seq::<char>::empty());
                        i += 1;
                        continue ;
                    },
                    None => {
                        return None;
                    },
                }
            }
            assert(views(out@) + chunks_from(ss.skip(i + 1), max as nat, s@) =~= o + (flushed
                + chunks_from(ss.skip(i + 1), max as nat, s@)));
            assert(cur@ + s@ =~= s@);
        }
        let ghost before = cur@;
        crate::text::push_all(&mut cur, s.as_slice());
        proof {
            crate::text::lemma_utf8_len_concat(before, s@);
        }
        cur_len = cur_len + slen;
        i += 1;
    }
    let t = trim_chars(cur.as_slice());
    let ghost o = views(out@);
    if t.len() > 0 {
        out.push(t);
        assert(views(out@) =~= o + seq![trim(cur@)]);
    } else {
        assert(views(out@) =~= o + Seq::<Seq<char>>::empty());
    }
    assert(ss.skip(i as int) =~= Seq::<Seq<char>>::empty());
    Some(out)
}

/// Strings holding the given character vectors.
fn strings_of(v: &Vec<Vec<char>>) -> (r: Vec<String>)
    ensures
        str_views(r@) == views(v@),
{
    let mut r: Vec<String> = Vec::new();
    let mut i: usize = 0;
    while i < v.len()
        invariant
            i <= v@.len(),
            str_views(r@) =~= views(v@).take(i as int),
        decreases v@.len() - i,
    {
        let s = string_of(v[i].as_slice());
        let ghost old_r = r@;
        r.push(s);
        assert(str_views(r@) =~= str_views(old_r).push(v@[i as int]@));
        assert(views(v@).take(i + 1) =~= views(v@).take(i as int).push(v@[i as int]@));
        i += 1;
    }
    r
}

/// Splits text into pieces ending at `.`, `!` or `?` (the last piece may
/// have no such ending); no piece is empty.
pub fn split_sentences(text: &str) -> (r: Vec<String>)
    ensures
        str_views(r@) == spec_split_sentences(text@),
{
    let v = chars_of(text);
    let terms = ['.', '!', '?'];
    assert(terms@ =~= sentence_terms());
    let p = split_inclusive_chars(v.as_slice(), &terms);
    strings_of(&p)
}

/// Splits an over-long sentence on `,`, `;` and `:` into chunks of at most
/// `max_chars` bytes, cutting any clause that is still too long every
/// `max_chars` bytes.
pub fn split_on_clauses(text: &str, max_chars: usize) -> (r: Vec<String>)
    requires
        clauses_ok(text@, max_chars as nat),
    ensures
        str_views(r@) == spec_split_on_clauses(text@, max_chars as nat),
{
    let v = chars_of(text);
    let p = split_on_clauses_checked(v.as_slice(), max_chars);
    let p = p.unwrap();
    strings_of(&p)
}

/// Splits text into chunks of at most `max_chars` bytes, breaking on
/// sentence boundaries where it can. A text within the limit is the one
/// chunk; a longer one gives no empty chunk.
pub fn chunk_text(text: &str, max_chars: usize) -> (r: Vec<String>)
    requires
        chunk_text_ok(text@, max_chars as nat),
    ensures
        str_views(r@) == spec_chunk_text(text@, max_chars as nat),
        utf8_len(text@) <= max_chars ==> r@.len() == 1 && r@[0]@ == text@,
        utf8_len(text@) > max_chars ==> forall|i: int| 0 <= i < r@.len() ==> (#[trigger] r@[i])@.len() > 0,
        all_fit(str_views(r@), max_chars as nat),
        non_ws(concat_all(str_views(r@))) == non_ws(text@),
{
    proof {
        lemma_chunks_fit(text@, max_chars as nat);
        lemma_chunks_keep_content(text@, max_chars as nat);
        lemma_chunks_nonempty(text@, max_chars as nat);
    }
    let v = chars_of(text);
    let p = chunk_chars_checked(v.as_slice(), max_chars);
    let p = p.unwrap();
    let r = strings_of(&p);
    assert forall|i: int| 0 <= i < r@.len() implies (#[trigger] r@[i])@ == str_views(r@)[i] by {}
    r
}

/// [`chunk_text`], or `None` on the texts on which it would panic (a cut
/// every `max_chars` bytes falling inside a character, or `max_chars` 0).
pub fn try_chunk_text(text: &str, max_chars: usize) -> (r: Option<Vec<String>>)
    ensures
        r is Some <==> chunk_text_ok(text@, max_chars as nat),
        r matches Some(v) ==> str_views(v@) == spec_chunk_text(text@, max_chars as nat),
{
    let v = chars_of(text);
    match chunk_chars_checked(v.as_slice(), max_chars) {
        Some(p) => Some(strings_of(&p)),
        None => None,
    }
}

} // verus!

verus! {

// ---------------------------------------------------------------------------
// Audio file naming and API errors
// ---------------------------------------------------------------------------

/// `episode-{id}.mp3`.
pub open spec fn episode_fallback_name(id: i64) -> Seq<char> {
    "episode-"@ + int_decimal(id as int) + ".mp3"@
}

/// What `audio_output_filename(title, id)` returns: the kebab-case ASCII
/// words of the title, cut so that the whole name stays within 96
/// characters, followed by `-{id}.mp3`; `episode-{id}.mp3` when no word is
/// left.
pub open spec fn spec_audio_output_filename(title: Seq<char>, id: i64) -> Seq<char> {
    let slug = kebab(title);
    let suffix = seq!['-'] + int_decimal(id as int) + ".mp3"@;
    let max_slug: int = if suffix.len() <= 96 {
        96 - suffix.len()
    } else {
        0
    };
    let cut = strip_both(slug.take(if max_slug < slug.len() { max_slug } else { slug.len() as int }), seq!['-']);
    if slug.len() == 0 || cut.len() == 0 {
        episode_fallback_name(id)
    } else {
        cut + suffix
    }
}

/// File name for an episode's audio: descriptive kebab-case title plus id.
pub fn audio_output_filename(title: &str, episode_id: i64) -> (r: String)
    ensures
        r@ == spec_audio_output_filename(title@, episode_id),
        r@.len() <= 96,
        episode_id >= 0 ==> no_double_dash(r@),
{
    proof {
        if episode_id >= 0 {
            lemma_audio_filename_no_double_dash(title@, episode_id);
        }
    }
    let t = chars_of(title);
    let slug = kebab_chars(t.as_slice());
    let digits = i64_decimal(episode_id);
    proof {
        crate::text::lemma_i64_decimal_len(episode_id);
        reveal_strlit("episode-");
        reveal_strlit(".mp3");
    }
    let mut fallback: Vec<char> = Vec::new();
    push_str(&mut fallback, "episode-");
    push_all(&mut fallback, digits.as_slice());
    push_str(&mut fallback, ".mp3");
    if slug.len() == 0 {
        return string_of(fallback.as_slice());
    }
    let mut suffix: Vec<char> = Vec::new();
    suffix.push('-');
    push_all(&mut suffix, digits.as_slice());
    push_str(&mut suffix, ".mp3");
    assert(suffix@ =~= seq!['-'] + int_decimal(episode_id as int) + ".mp3"@);
    let max_slug: usize = if suffix.len() <= 96 {
        96 - suffix.len()
    } else {
        0
    };
    let n = if max_slug < slug.len() {
        max_slug
    } else {
        slug.len()
    };
    let taken = slice_chars(slug.as_slice(), 0, n);
    assert(taken@ =~= slug@.take(n as int));
    let dash = ['-'];
    assert(dash@ =~= seq!['-']);
    let cut = strip_both_chars(taken.as_slice(), &dash);
    proof {
        crate::text::lemma_strip_both_len(taken@, seq!['-']);
    }
    if cut.len() == 0 {
        string_of(fallback.as_slice())
    } else {
        let mut r = cut;
        push_all(&mut r, suffix.as_slice());
        string_of(r.as_slice())
    }
}

/// What `classify_api_error(provider, status, body)` returns.
pub open spec fn spec_classify_api_error(provider: Seq<char>, status: u16, body: Seq<char>) -> Seq<
    char,
> {
    if status == 401 || status == 403 {
        provider + " API key is invalid or expired. Check your API key configuration."@
    } else if status == 402 {
        provider + " account has no credits remaining. Add billing to your "@ + provider
            + " account."@
    } else if status == 429 {
        provider + " rate limit exceeded. Try again in a few minutes."@
    } else {
        provider + " TTS failed ("@ + int_decimal(status as int) + "): "@ + body
    }
}

/// A user-facing message for a failed text-to-speech request.
pub fn classify_api_error(provider: &str, status: u16, body: &str) -> (r: String)
    ensures
        r@ == spec_classify_api_error(provider@, status, body@),
{
    let mut v: Vec<char> = Vec::new();
    push_str(&mut v, provider);
    if status == 401 || status == 403 {
        push_str(&mut v, " API key is invalid or expired. Check your API key configuration.");
    } else if status == 402 {
        push_str(&mut v, " account has no credits remaining. Add billing to your ");
        push_str(&mut v, provider);
        push_str(&mut v, " account.");
    } else if status == 429 {
        push_str(&mut v, " rate limit exceeded. Try again in a few minutes.");
    } else {
        push_str(&mut v, " TTS failed (");
        let d = u64_digits(status as u64);
        push_all(&mut v, d.as_slice());
        push_str(&mut v, "): ");
        push_str(&mut v, body);
    }
    string_of(v.as_slice())
}

} // verus!

verus! {

// ---------------------------------------------------------------------------
// Planning an episode
// ---------------------------------------------------------------------------

/// The text read for note `i` of an episode, none when it is skipped
/// (empty, or a memo still being transcribed): its summary in summary mode
/// when it has one, else its content; after the first note of a
/// multi-note episode, preceded by its title (`Next note` when it has
/// none) and a period.
pub open spec fn speech_text(notes: Seq<crate::db::queries::Note>, i: int, summary_mode: bool) -> Option<
    Seq<char>,
> {
    let n = notes[i];
    let text = if summary_mode {
        match n.summary {
            Some(s) => s@,
            None => n.content@,
        }
    } else {
        n.content@
    };
    if text.len() == 0 || text == crate::routes::audio::pending_marker() {
        None
    } else if notes.len() > 1 && i > 0 {
        Some(
            match n.title {
                Some(t) => t@,
                None => "Next note"@,
            } + ". "@ + text,
        )
    } else {
        Some(text)
    }
}

/// The chunks read for the first `k` notes, in order.
pub open spec fn episode_chunks(
    notes: Seq<crate::db::queries::Note>,
    k: int,
    summary_mode: bool,
    max: nat,
) -> Seq<Seq<char>>
    decreases k,
{
    if k <= 0 {
        seq![]
    } else {
        episode_chunks(notes, k - 1, summary_mode, max) + match speech_text(
            notes,
            k - 1,
            summary_mode,
        ) {
            Some(t) => spec_chunk_text(t, max),
            None => Seq::<Seq<char>>::empty(),
        }
    }
}

/// Every text read can be chunked without a panic.
pub open spec fn episode_ok(notes: Seq<crate::db::queries::Note>, summary_mode: bool, max: nat) -> bool {
    forall|i: int|
        0 <= i < notes.len() ==> match #[trigger] speech_text(notes, i, summary_mode) {
            Some(t) => chunk_text_ok(t, max),
            None => true,
        }
}

/// In summary mode a note with a summary to read is read from its
/// summary, never its content: the text read ends with the summary, is
/// the summary itself for the first note or a lone one, and stays the
/// same whatever the note's content.
pub proof fn lemma_summary_is_read(
    notes: Seq<crate::db::queries::Note>,
    i: int,
    content: String,
)
    requires
        0 <= i < notes.len(),
        notes[i].summary is Some,
        notes[i].summary.unwrap()@.len() > 0,
        notes[i].summary.unwrap()@ != crate::routes::audio::pending_marker(),
    ensures
        speech_text(notes, i, true) matches Some(t) && t.len() >= notes[i].summary.unwrap()@.len()
            && t.skip(t.len() - notes[i].summary.unwrap()@.len()) == notes[i].summary.unwrap()@,
        i == 0 || notes.len() == 1 ==> speech_text(notes, i, true) == Some(notes[i].summary.unwrap()@),
        speech_text(
            notes.update(i, crate::db::queries::Note { content, ..notes[i] }),
            i,
            true,
        ) == speech_text(notes, i, true),
{
    let s = notes[i].summary.unwrap()@;
    if notes.len() > 1 && i > 0 {
        let head = match notes[i].title {
            Some(t) => t@,
            None => "Next note"@,
        } + ". "@;
        assert((head + s).skip((head + s).len() - s.len()) =~= s);
    } else {
        assert(s.skip(0) =~= s);
    }
}

/// A lone note read in summary mode gives the chunks of its summary: they
/// hold the summary's non-whitespace text, in order, and nothing of its
/// content.
pub proof fn lemma_lone_note_summary_chunks(n: crate::db::queries::Note, max: nat)
    requires
        n.summary is Some,
        n.summary.unwrap()@.len() > 0,
        n.summary.unwrap()@ != crate::routes::audio::pending_marker(),
    ensures
        episode_chunks(seq![n], 1, true, max) == spec_chunk_text(n.summary.unwrap()@, max),
        chunk_text_ok(n.summary.unwrap()@, max) ==> non_ws(
            concat_all(episode_chunks(seq![n], 1, true, max)),
        ) == non_ws(n.summary.unwrap()@),
{
    let s = n.summary.unwrap()@;
    lemma_summary_is_read(seq![n], 0, n.content);
    assert(episode_chunks(seq![n], 0, true, max) == Seq::<Seq<char>>::empty());
    assert(Seq::<Seq<char>>::empty() + spec_chunk_text(s, max) =~= spec_chunk_text(s, max));
    if chunk_text_ok(s, max) {
        lemma_chunks_keep_content(s, max);
    }
}

fn speech_text_of(notes: &[crate::db::queries::Note], i: usize, summary_mode: bool) -> (r: Option<
    String,
>)
    requires
        i < notes@.len(),
    ensures
        match r {
            Some(t) => speech_text(notes@, i as int, summary_mode) == Some(t@),
            None => speech_text(notes@, i as int, summary_mode) is None,
        },
{
    let n = &notes[i];
    let text: &str = if summary_mode {
        match &n.summary {
            Some(s) => s.as_str(),
            None => n.content.as_str(),
        }
    } else {
        n.content.as_str()
    };
    proof {
        crate::text::lemma_utf8_len_ge_len(text@);
    }
    if crate::text::str_len(text) == 0 || seq_eq_text(text, "[Voice memo - transcribing...]") {
        proof {
            if crate::text::utf8_len(text@) == 0 {
                assert(text@.len() == 0);
            }
        }
        return None;
    }
    proof {
        if text@.len() == 0 {
            assert(crate::text::utf8_len(text@) == 0);
        }
    }
    if notes.len() > 1 && i > 0 {
        let mut v: Vec<char> = Vec::new();
        match &n.title {
            Some(t) => push_str(&mut v, t.as_str()),
            None => push_str(&mut v, "Next note"),
        }
        push_str(&mut v, ". ");
        push_str(&mut v, text);
        Some(string_of(v.as_slice()))
    } else {
        Some(text.to_owned())
    }
}

fn seq_eq_text(a: &str, b: &str) -> (r: bool)
    ensures
        r == (a@ == b@),
{
    let v = chars_of(a);
    seq_eq(v.as_slice(), b)
}

/// The chunks an episode reads, in order, each at most the provider's
/// limit; `None` exactly when chunking some text would panic.
pub fn plan_episode_chunks(
    notes: &[crate::db::queries::Note],
    content_mode: &str,
    provider: TtsProvider,
) -> (r: Option<Vec<String>>)
    ensures
        r is Some <==> episode_ok(notes@, content_mode@ == "summary"@, provider.spec_chunk_limit() as nat),
        r matches Some(v) ==> str_views(v@) == episode_chunks(
            notes@,
            notes@.len() as int,
            content_mode@ == "summary"@,
            provider.spec_chunk_limit() as nat,
        ),
{
    let summary_mode = seq_eq_text(content_mode, "summary");
    let max = provider.chunk_limit();
    let ghost m = max as nat;
    let mut out: Vec<String> = Vec::new();
    let mut i: usize = 0;
    while i < notes.len()
        invariant
            i <= notes@.len(),
            m == max as nat,
            max == provider.spec_chunk_limit(),
            summary_mode == (content_mode@ == "summary"@),
            str_views(out@) == episode_chunks(notes@, i as int, summary_mode, m),
            forall|j: int|
                0 <= j < i ==> match #[trigger] speech_text(notes@, j, summary_mode) {
                    Some(t) => chunk_text_ok(t, m),
                    None => true,
                },
        decreases notes@.len() - i,
    {
        let ghost o = str_views(out@);
        match speech_text_of(notes, i, summary_mode) {
            Some(t) => match try_chunk_text(t.as_str(), max) {
                Some(cs) => {
                    let mut k: usize = 0;
                    while k < cs.len()
                        invariant
                            k <= cs@.len(),
                            str_views(out@) == o + str_views(cs@).take(k as int),
                        decreases cs@.len() - k,
                    {
                        let c = cs[k].clone();
                        assert(c@ == cs@[k as int]@);
                        let ghost prev = str_views(out@);
                        out.push(c);
                        assert(str_views(out@) =~= prev.push(cs@[k as int]@));
                        assert(str_views(cs@).take(k + 1) =~= str_views(cs@).take(k as int).push(
                            cs@[k as int]@,
                        ));
                        assert(str_views(out@) =~= o + str_views(cs@).take(k + 1));
                        k += 1;
                    }
                    assert(str_views(cs@).take(cs@.len() as int) =~= str_views(cs@));
                },
                None => {
                    return None;
                },
            },
            None => {
                assert(str_views(out@) =~= o + Seq::<Seq<char>>::empty());
            },
        }
        i += 1;
    }
    Some(out)
}

/// The voice of an episode: the one it names, else its provider's default.
pub fn episode_voice(provider: TtsProvider, voice: &Option<String>) -> (r: String)
    ensures
        r@ == match voice {
            Some(v) => v@,
            None => provider.spec_default_voice(),
        },
{
    match voice {
        Some(v) => v.clone(),
        None => provider.default_voice().to_owned(),
    }
}

/// The message of an episode whose notes are all gone.
pub fn no_notes_message(episode_id: i64) -> (r: String)
    ensures
        r@ == "No notes found for episode "@ + int_decimal(episode_id as int),
{
    let mut v: Vec<char> = Vec::new();
    push_str(&mut v, "No notes found for episode ");
    let d = i64_decimal(episode_id);
    push_all(&mut v, d.as_slice());
    string_of(v.as_slice())
}

/// The message of an episode with nothing to read.
pub fn no_audio_message() -> (r: String)
    ensures
        r@ == "No audio generated — all notes were empty or pending"@,
{
    "No audio generated — all notes were empty or pending".to_owned()
}

/// `s` without every trailing occurrence of `p` (`trim_end_matches` with
/// a non-empty string).
pub open spec fn strip_suffixes(s: Seq<char>, p: Seq<char>) -> Seq<char>
    decreases s.len(),
{
    if p.len() > 0 && p.len() <= s.len() && s.skip(s.len() - p.len()) == p {
        strip_suffixes(s.take(s.len() - p.len()), p)
    } else {
        s
    }
}

/// Name of the file of chunk `i` of an episode's audio: the audio file's
/// name without its `.mp3` endings, then `-chunk-{i}.mp3`.
pub fn chunk_file_name(audio_filename: &str, i: usize) -> (r: String)
    ensures
        r@ == strip_suffixes(audio_filename@, ".mp3"@) + "-chunk-"@ + crate::text::nat_digits(
            i as nat,
        ) + ".mp3"@,
{
    proof {
        reveal_strlit(".mp3");
    }
    let v = chars_of(audio_filename);
    let p = chars_of(".mp3");
    let mut n: usize = v.len();
    assert(v@.take(n as int) =~= v@);
    while n >= 4 && chars_eq_at_end(v.as_slice(), n, p.as_slice())
        invariant
            n <= v@.len(),
            p@ == ".mp3"@,
            p@.len() == 4,
            strip_suffixes(v@, p@) == strip_suffixes(v@.take(n as int), p@),
        decreases n,
    {
        assert(v@.take(n as int).take(n - 4) =~= v@.take(n - 4));
        assert(v@.take(n as int).skip(n - 4) =~= v@.subrange(n - 4, n as int));
        n -= 4;
    }
    proof {
        let t = v@.take(n as int);
        if n >= 4 {
            assert(t.skip(n - 4) =~= v@.subrange(n - 4, n as int));
        }
    }
    let mut out = slice_chars(v.as_slice(), 0, n);
    assert(out@ =~= v@.take(n as int));
    push_str(&mut out, "-chunk-");
    let d = u64_digits(i as u64);
    push_all(&mut out, d.as_slice());
    push_str(&mut out, ".mp3");
    string_of(out.as_slice())
}

fn chars_eq_at_end(v: &[char], n: usize, p: &[char]) -> (b: bool)
    requires
        n <= v@.len(),
        p@.len() == 4,
        n >= 4,
    ensures
        b == (v@.subrange(n - 4, n as int) == p@),
{
    let s = slice_chars(v, n - 4, n);
    let mut i: usize = 0;
    while i < 4
        invariant
            i <= 4,
            s@.len() == 4,
            s@ == v@.subrange(n - 4, n as int),
            p@.len() == 4,
            forall|j: int| 0 <= j < i ==> s@[j] == p@[j],
        decreases 4 - i,
    {
        if s[i] != p[i] {
            assert(s@[i as int] != p@[i as int]);
            return false;
        }
        i += 1;
    }
    assert(s@ =~= p@);
    true
}

/// Where an episode's audio is recorded, relative to the database
/// directory.
pub fn audio_rel_path(audio_filename: &str) -> (r: String)
    ensures
        r@ == "audio/"@ + audio_filename@,
{
    let mut v: Vec<char> = Vec::new();
    push_str(&mut v, "audio/");
    push_str(&mut v, audio_filename);
    string_of(v.as_slice())
}

/// ElevenLabs speech address for a voice.
pub fn elevenlabs_url(voice: &str) -> (r: String)
    ensures
        r@ == "https://api.elevenlabs.io/v1/text-to-speech/"@ + voice@ + "?output_format=mp3_44100_128"@,
{
    let mut v: Vec<char> = Vec::new();
    push_str(&mut v, "https://api.elevenlabs.io/v1/text-to-speech/");
    push_str(&mut v, voice);
    push_str(&mut v, "?output_format=mp3_44100_128");
    string_of(v.as_slice())
}

} // verus!

verus! {

// ---------------------------------------------------------------------------
// Chunking: what every chunking keeps
// ---------------------------------------------------------------------------

/// The characters of `s` that are not whitespace, in order.
pub open spec fn non_ws(s: Seq<char>) -> Seq<char>
    decreases s.len(),
{
    if s.len() == 0 {
        seq![]
    } else {
        (if crate::text::is_ws(s[0]) {
            Seq::<char>::empty()
        } else {
            seq![s[0]]
        }) + non_ws(s.drop_first())
    }
}

/// The pieces one after the other.
pub open spec fn concat_all(ps: Seq<Seq<char>>) -> Seq<char>
    decreases ps.len(),
{
    if ps.len() == 0 {
        seq![]
    } else {
        ps[0] + concat_all(ps.drop_first())
    }
}

/// Every piece takes at most `max` bytes.
pub open spec fn all_fit(ps: Seq<Seq<char>>, max: nat) -> bool {
    forall|i: int| 0 <= i < ps.len() ==> utf8_len(#[trigger] ps[i]) <= max
}

proof fn lemma_non_ws_concat(a: Seq<char>, b: Seq<char>)
    ensures
        non_ws(a + b) == non_ws(a) + non_ws(b),
    decreases a.len(),
{
    if a.len() == 0 {
        assert(a + b =~= b);
        assert(non_ws(a) =~= Seq::<char>::empty());
        assert(Seq::<char>::empty() + non_ws(b) =~= non_ws(b));
    } else {
        assert((a + b).drop_first() =~= a.drop_first() + b);
        assert((a + b)[0] == a[0]);
        lemma_non_ws_concat(a.drop_first(), b);
        let h = if crate::text::is_ws(a[0]) {
            Seq::<char>::empty()
        } else {
            seq![a[0]]
        };
        assert(non_ws(a + b) =~= h + (non_ws(a.drop_first()) + non_ws(b)));
    }
}

proof fn lemma_concat_all_append(p: Seq<Seq<char>>, q: Seq<Seq<char>>)
    ensures
        concat_all(p + q) == concat_all(p) + concat_all(q),
    decreases p.len(),
{
    if p.len() == 0 {
        assert(p + q =~= q);
        assert(Seq::<char>::empty() + concat_all(q) =~= concat_all(q));
    } else {
        assert((p + q).drop_first() =~= p.drop_first() + q);
        assert((p + q)[0] == p[0]);
        lemma_concat_all_append(p.drop_first(), q);
        assert(concat_all(p + q) =~= p[0] + (concat_all(p.drop_first()) + concat_all(q)));
    }
}

proof fn lemma_concat_all_one(s: Seq<char>)
    ensures
        concat_all(seq![s]) == s,
{
    assert(seq![s].drop_first() =~= Seq::<Seq<char>>::empty());
    assert(seq![s][0] == s);
    assert(concat_all(Seq::<Seq<char>>::empty()) =~= Seq::<char>::empty());
    assert(s + Seq::<char>::empty() =~= s);
}

proof fn lemma_non_ws_trim_start(s: Seq<char>)
    ensures
        non_ws(crate::text::trim_start(s)) == non_ws(s),
    decreases s.len(),
{
    if s.len() > 0 && crate::text::is_ws(s[0]) {
        lemma_non_ws_trim_start(s.drop_first());
        assert(non_ws(s) =~= Seq::<char>::empty() + non_ws(s.drop_first()));
    }
}

proof fn lemma_non_ws_trim_end(s: Seq<char>)
    ensures
        non_ws(crate::text::trim_end(s)) == non_ws(s),
    decreases s.len(),
{
    if s.len() > 0 && crate::text::is_ws(s.last()) {
        lemma_non_ws_trim_end(s.drop_last());
        assert(s =~= s.drop_last() + seq![s.last()]);
        lemma_non_ws_concat(s.drop_last(), seq![s.last()]);
        assert(seq![s.last()].drop_first() =~= Seq::<char>::empty());
        assert(seq![s.last()][0] == s.last());
        assert(non_ws(Seq::<char>::empty()) =~= Seq::<char>::empty());
        assert(non_ws(seq![s.last()]) =~= Seq::<char>::empty());
        assert(non_ws(s.drop_last()) + Seq::<char>::empty() =~= non_ws(s.drop_last()));
    }
}

proof fn lemma_non_ws_trim(s: Seq<char>)
    ensures
        non_ws(trim(s)) == non_ws(s),
{
    lemma_non_ws_trim_start(s);
    lemma_non_ws_trim_end(crate::text::trim_start(s));
}

proof fn lemma_utf8_len_trim_start(s: Seq<char>)
    ensures
        utf8_len(crate::text::trim_start(s)) <= utf8_len(s),
    decreases s.len(),
{
    if s.len() > 0 && crate::text::is_ws(s[0]) {
        lemma_utf8_len_trim_start(s.drop_first());
    }
}

proof fn lemma_utf8_len_trim_end(s: Seq<char>)
    ensures
        utf8_len(crate::text::trim_end(s)) <= utf8_len(s),
    decreases s.len(),
{
    if s.len() > 0 && crate::text::is_ws(s.last()) {
        lemma_utf8_len_trim_end(s.drop_last());
        assert(s =~= s.drop_last() + seq![s.last()]);
        crate::text::lemma_utf8_len_concat(s.drop_last(), seq![s.last()]);
    }
}

proof fn lemma_utf8_len_trim(s: Seq<char>)
    ensures
        utf8_len(trim(s)) <= utf8_len(s),
{
    lemma_utf8_len_trim_start(s);
    lemma_utf8_len_trim_end(crate::text::trim_start(s));
}

proof fn lemma_all_fit_append(p: Seq<Seq<char>>, q: Seq<Seq<char>>, max: nat)
    requires
        all_fit(p, max),
        all_fit(q, max),
    ensures
        all_fit(p + q, max),
{
    assert forall|i: int| 0 <= i < (p + q).len() implies utf8_len(#[trigger] (p + q)[i]) <= max by {
        if i < p.len() {
            assert((p + q)[i] == p[i]);
        } else {
            assert((p + q)[i] == q[i - p.len()]);
        }
    }
}

proof fn lemma_split_incl_concat(s: Seq<char>, terms: Seq<char>, cur: Seq<char>)
    ensures
        concat_all(split_incl_from(s, terms, cur)) == cur + s,
    decreases s.len(),
{
    if s.len() == 0 {
        if cur.len() > 0 {
            lemma_concat_all_one(cur);
        }
        assert(cur + s =~= cur);
    } else {
        let c = s[0];
        let rest = s.drop_first();
        if terms.contains(c) {
            lemma_split_incl_concat(rest, terms, seq![]);
            lemma_concat_all_append(seq![cur.push(c)], split_incl_from(rest, terms, seq![]));
            lemma_concat_all_one(cur.push(c));
            assert(cur.push(c) + (Seq::<char>::empty() + rest) =~= cur + s);
        } else {
            lemma_split_incl_concat(rest, terms, cur.push(c));
            assert(cur.push(c) + rest =~= cur + s);
        }
    }
}

proof fn lemma_byte_pieces_fit(c: Seq<char>, max: nat)
    ensures
        all_fit(byte_pieces(c, max), max),
    decreases c.len(),
{
    if utf8_len(c) <= max {
    } else {
        match prefix_chars(c, max) {
            Some(k) => if 0 < k <= c.len() {
                lemma_prefix_chars(c, max);
                lemma_byte_pieces_fit(c.skip(k as int), max);
                lemma_all_fit_append(seq![c.take(k as int)], byte_pieces(c.skip(k as int), max), max);
            },
            None => {},
        }
    }
}

proof fn lemma_byte_pieces_concat(c: Seq<char>, max: nat)
    requires
        pieces_ok(c, max),
    ensures
        concat_all(byte_pieces(c, max)) == c,
    decreases c.len(),
{
    if utf8_len(c) <= max {
        if c.len() > 0 {
            lemma_concat_all_one(c);
        }
    } else {
        match prefix_chars(c, max) {
            Some(k) => {
                lemma_byte_pieces_concat(c.skip(k as int), max);
                lemma_concat_all_append(seq![c.take(k as int)], byte_pieces(c.skip(k as int), max));
                lemma_concat_all_one(c.take(k as int));
                assert(c.take(k as int) + c.skip(k as int) =~= c);
            },
            None => {},
        }
    }
}

proof fn lemma_flat_hard_fit(cs: Seq<Seq<char>>, max: nat)
    ensures
        all_fit(flat_hard(cs, max), max),
    decreases cs.len(),
{
    if cs.len() > 0 {
        lemma_flat_hard_fit(cs.drop_first(), max);
        if utf8_len(cs[0]) > max {
            lemma_byte_pieces_fit(cs[0], max);
        }
        lemma_all_fit_append(hard_split(cs[0], max), flat_hard(cs.drop_first(), max), max);
    }
}

proof fn lemma_flat_hard_concat(cs: Seq<Seq<char>>, max: nat)
    requires
        forall|i: int| 0 <= i < cs.len() ==> pieces_ok(#[trigger] cs[i], max),
    ensures
        concat_all(flat_hard(cs, max)) == concat_all(cs),
    decreases cs.len(),
{
    if cs.len() > 0 {
        assert(pieces_ok(cs[0], max));
        assert forall|i: int|
            0 <= i < cs.drop_first().len() implies pieces_ok(#[trigger] cs.drop_first()[i], max) by {
            assert(cs.drop_first()[i] == cs[i + 1]);
        }
        lemma_flat_hard_concat(cs.drop_first(), max);
        lemma_concat_all_append(hard_split(cs[0], max), flat_hard(cs.drop_first(), max));
        if utf8_len(cs[0]) > max {
            lemma_byte_pieces_concat(cs[0], max);
        } else {
            lemma_concat_all_one(cs[0]);
        }
    }
}

/// Every piece `split_on_clauses` returns fits in the byte limit.
pub proof fn lemma_split_on_clauses_fit(s: Seq<char>, max: nat)
    ensures
        all_fit(spec_split_on_clauses(s, max), max),
{
    lemma_flat_hard_fit(clause_chunks(s, max), max);
}

proof fn lemma_blank_non_ws(s: Seq<char>)
    requires
        trim(s).len() == 0,
    ensures
        non_ws(s) == Seq::<char>::empty(),
{
    lemma_non_ws_trim(s);
    assert(trim(s) =~= Seq::<char>::empty());
}

proof fn lemma_clauses_from_content(parts: Seq<Seq<char>>, max: nat, cur: Seq<char>)
    ensures
        non_ws(concat_all(clauses_from(parts, max, cur))) == non_ws(cur + concat_all(parts)),
    decreases parts.len(),
{
    if parts.len() == 0 {
        assert(cur + concat_all(parts) =~= cur);
        if trim(cur).len() > 0 {
            lemma_concat_all_one(trim(cur));
            lemma_non_ws_trim(cur);
        } else {
            lemma_blank_non_ws(cur);
        }
    } else {
        let p = parts[0];
        let rest = parts.drop_first();
        assert(concat_all(parts) == p + concat_all(rest));
        if utf8_len(cur) + utf8_len(p) > max && cur.len() > 0 {
            lemma_clauses_from_content(rest, max, p);
            lemma_concat_all_append(seq![trim(cur)], clauses_from(rest, max, p));
            lemma_concat_all_one(trim(cur));
            lemma_non_ws_concat(trim(cur), concat_all(clauses_from(rest, max, p)));
            lemma_non_ws_trim(cur);
            lemma_non_ws_concat(cur, p + concat_all(rest));
            assert(cur + concat_all(parts) =~= cur + (p + concat_all(rest)));
        } else {
            lemma_clauses_from_content(rest, max, cur + p);
            assert(cur + p + concat_all(rest) =~= cur + concat_all(parts));
        }
    }
}

/// `split_on_clauses` drops nothing but whitespace (when it does not
/// panic).
pub proof fn lemma_split_on_clauses_content(s: Seq<char>, max: nat)
    requires
        clauses_ok(s, max),
    ensures
        non_ws(concat_all(spec_split_on_clauses(s, max))) == non_ws(s),
{
    let parts = split_inclusive(s, clause_terms());
    lemma_split_incl_concat(s, clause_terms(), seq![]);
    assert(Seq::<char>::empty() + s =~= s);
    lemma_clauses_from_content(parts, max, seq![]);
    assert(Seq::<char>::empty() + concat_all(parts) =~= concat_all(parts));
    let cs = clause_chunks(s, max);
    assert forall|i: int| 0 <= i < cs.len() implies pieces_ok(#[trigger] cs[i], max) by {
    }
    lemma_flat_hard_concat(cs, max);
}

proof fn lemma_chunks_from_fit(sents: Seq<Seq<char>>, max: nat, cur: Seq<char>)
    requires
        utf8_len(cur) <= max,
    ensures
        all_fit(chunks_from(sents, max, cur), max),
    decreases sents.len(),
{
    lemma_utf8_len_trim(cur);
    if sents.len() == 0 {
    } else {
        let s = sents[0];
        let rest = sents.drop_first();
        if utf8_len(cur) + utf8_len(s) > max {
            let flushed = if cur.len() > 0 {
                seq![trim(cur)]
            } else {
                Seq::<Seq<char>>::empty()
            };
            assert(all_fit(flushed, max));
            if utf8_len(s) > max {
                lemma_split_on_clauses_fit(s, max);
                assert(utf8_len(Seq::<char>::empty()) == 0);
                lemma_chunks_from_fit(rest, max, seq![]);
                lemma_all_fit_append(flushed, spec_split_on_clauses(s, max), max);
                lemma_all_fit_append(
                    flushed + spec_split_on_clauses(s, max),
                    chunks_from(rest, max, seq![]),
                    max,
                );
            } else {
                lemma_chunks_from_fit(rest, max, s);
                lemma_all_fit_append(flushed, chunks_from(rest, max, s), max);
            }
        } else {
            crate::text::lemma_utf8_len_concat(cur, s);
            lemma_chunks_from_fit(rest, max, cur + s);
        }
    }
}

proof fn lemma_chunks_from_content(sents: Seq<Seq<char>>, max: nat, cur: Seq<char>)
    requires
        forall|q: int|
            0 <= q < sents.len() && utf8_len(#[trigger] sents[q]) > max ==> clauses_ok(
                sents[q],
                max,
            ),
    ensures
        non_ws(concat_all(chunks_from(sents, max, cur))) == non_ws(cur + concat_all(sents)),
    decreases sents.len(),
{
    if sents.len() == 0 {
        assert(cur + concat_all(sents) =~= cur);
        if trim(cur).len() > 0 {
            lemma_concat_all_one(trim(cur));
            lemma_non_ws_trim(cur);
        } else {
            lemma_blank_non_ws(cur);
        }
    } else {
        let s = sents[0];
        let rest = sents.drop_first();
        assert(concat_all(sents) == s + concat_all(rest));
        assert forall|q: int|
            0 <= q < rest.len() && utf8_len(#[trigger] rest[q]) > max implies clauses_ok(
                rest[q],
                max,
            ) by {
            assert(rest[q] == sents[q + 1]);
        }
        let flushed = if cur.len() > 0 {
            seq![trim(cur)]
        } else {
            Seq::<Seq<char>>::empty()
        };
        if utf8_len(cur) + utf8_len(s) > max {
            assert(non_ws(concat_all(flushed)) == non_ws(cur)) by {
                if cur.len() > 0 {
                    lemma_concat_all_one(trim(cur));
                    lemma_non_ws_trim(cur);
                } else {
                    assert(cur =~= Seq::<char>::empty());
                }
            }
            if utf8_len(s) > max {
                assert(clauses_ok(s, max));
                lemma_split_on_clauses_content(s, max);
                lemma_chunks_from_content(rest, max, seq![]);
                let a = spec_split_on_clauses(s, max);
                let b = chunks_from(rest, max, seq![]);
                lemma_concat_all_append(flushed + a, b);
                lemma_concat_all_append(flushed, a);
                lemma_non_ws_concat(concat_all(flushed) + concat_all(a), concat_all(b));
                lemma_non_ws_concat(concat_all(flushed), concat_all(a));
                assert(Seq::<char>::empty() + concat_all(rest) =~= concat_all(rest));
                lemma_non_ws_concat(cur, s + concat_all(rest));
                lemma_non_ws_concat(s, concat_all(rest));
                assert(non_ws(concat_all(chunks_from(sents, max, cur))) =~= non_ws(cur) + (non_ws(s)
                    + non_ws(concat_all(rest))));
                assert(cur + concat_all(sents) =~= cur + (s + concat_all(rest)));
            } else {
                lemma_chunks_from_content(rest, max, s);
                let b = chunks_from(rest, max, s);
                lemma_concat_all_append(flushed, b);
                lemma_non_ws_concat(concat_all(flushed), concat_all(b));
                lemma_non_ws_concat(cur, s + concat_all(rest));
                assert(cur + concat_all(sents) =~= cur + (s + concat_all(rest)));
            }
        } else {
            lemma_chunks_from_content(rest, max, cur + s);
            assert(cur + s + concat_all(rest) =~= cur + concat_all(sents));
        }
    }
}

/// Every chunk `chunk_text(text, max)` returns takes at most `max` bytes.
pub proof fn lemma_chunks_fit(text: Seq<char>, max: nat)
    ensures
        all_fit(spec_chunk_text(text, max), max),
{
    if utf8_len(text) <= max {
    } else {
        assert(utf8_len(Seq::<char>::empty()) == 0);
        lemma_chunks_from_fit(spec_split_sentences(text), max, seq![]);
    }
}

/// Chunking loses no content: the chunks of `chunk_text(text, max)`, one
/// after the other, hold the non-whitespace characters of `text` in their
/// order (only whitespace at the cuts is dropped).
pub proof fn lemma_chunks_keep_content(text: Seq<char>, max: nat)
    requires
        chunk_text_ok(text, max),
    ensures
        non_ws(concat_all(spec_chunk_text(text, max))) == non_ws(text),
{
    if utf8_len(text) <= max {
        lemma_concat_all_one(text);
    } else {
        let ss = spec_split_sentences(text);
        lemma_chunks_from_content(ss, max, seq![]);
        lemma_split_incl_concat(text, sentence_terms(), seq![]);
        assert(Seq::<char>::empty() + concat_all(ss) =~= text);
    }
}

/// True when no piece of `ps` is empty.
pub open spec fn all_nonempty(ps: Seq<Seq<char>>) -> bool {
    forall|i: int| 0 <= i < ps.len() ==> (#[trigger] ps[i]).len() > 0
}

/// True when every piece of `ps` but the last holds a character that is
/// not whitespace.
pub open spec fn inner_solid(ps: Seq<Seq<char>>) -> bool {
    forall|i: int| 0 <= i < ps.len() - 1 ==> non_ws(#[trigger] ps[i]).len() > 0
}

proof fn lemma_last_solid(s: Seq<char>)
    requires
        s.len() > 0,
        !crate::text::is_ws(s.last()),
    ensures
        non_ws(s).len() > 0,
{
    assert(s =~= s.drop_last() + seq![s.last()]);
    lemma_non_ws_concat(s.drop_last(), seq![s.last()]);
    assert(seq![s.last()].drop_first() =~= Seq::<char>::empty());
}

proof fn lemma_solid_concat(a: Seq<char>, b: Seq<char>)
    requires
        non_ws(a).len() > 0 || non_ws(b).len() > 0,
    ensures
        non_ws(a + b).len() > 0,
{
    lemma_non_ws_concat(a, b);
}

proof fn lemma_solid_trim(s: Seq<char>)
    requires
        non_ws(s).len() > 0,
    ensures
        trim(s).len() > 0,
{
    lemma_non_ws_trim(s);
    if trim(s).len() == 0 {
        assert(trim(s) =~= Seq::<char>::empty());
    }
}

/// The pieces of a split on terminators that are not whitespace are never
/// empty, and each but the last ends with a terminator.
proof fn lemma_split_incl_shape(s: Seq<char>, terms: Seq<char>, cur: Seq<char>)
    requires
        forall|j: int| 0 <= j < terms.len() ==> !crate::text::is_ws(#[trigger] terms[j]),
    ensures
        all_nonempty(split_incl_from(s, terms, cur)),
        inner_solid(split_incl_from(s, terms, cur)),
    decreases s.len(),
{
    let r = split_incl_from(s, terms, cur);
    if s.len() == 0 {
    } else {
        let c = s[0];
        if terms.contains(c) {
            let rest = split_incl_from(s.drop_first(), terms, seq![]);
            lemma_split_incl_shape(s.drop_first(), terms, seq![]);
            let head = cur.push(c);
            assert(head.last() == c);
            lemma_last_solid(head);
            assert forall|i: int| 0 <= i < r.len() implies (#[trigger] r[i]).len() > 0 by {
                if i > 0 {
                    assert(r[i] == rest[i - 1]);
                }
            }
            assert forall|i: int| 0 <= i < r.len() - 1 implies non_ws(#[trigger] r[i]).len() > 0 by {
                if i > 0 {
                    assert(r[i] == rest[i - 1]);
                }
            }
        } else {
            lemma_split_incl_shape(s.drop_first(), terms, cur.push(c));
        }
    }
}

proof fn lemma_clauses_from_nonempty(parts: Seq<Seq<char>>, max: nat, cur: Seq<char>)
    requires
        inner_solid(parts),
        cur.len() > 0 && parts.len() > 0 ==> non_ws(cur).len() > 0,
    ensures
        all_nonempty(clauses_from(parts, max, cur)),
    decreases parts.len(),
{
    let rest = parts.drop_first();
    if parts.len() > 0 {
        assert forall|i: int| 0 <= i < rest.len() - 1 implies non_ws(#[trigger] rest[i]).len() > 0 by {
            assert(rest[i] == parts[i + 1]);
        }
        let p = parts[0];
        if utf8_len(cur) + utf8_len(p) > max && cur.len() > 0 {
            lemma_solid_trim(cur);
            lemma_clauses_from_nonempty(rest, max, p);
            let r = clauses_from(parts, max, cur);
            assert forall|i: int| 0 <= i < r.len() implies (#[trigger] r[i]).len() > 0 by {
                if i > 0 {
                    assert(r[i] == clauses_from(rest, max, p)[i - 1]);
                }
            }
        } else {
            if rest.len() > 0 {
                if cur.len() > 0 {
                    lemma_solid_concat(cur, p);
                } else {
                    assert(cur + p =~= p);
                }
            }
            lemma_clauses_from_nonempty(rest, max, cur + p);
        }
    }
}

proof fn lemma_byte_pieces_nonempty(c: Seq<char>, max: nat)
    ensures
        all_nonempty(byte_pieces(c, max)),
    decreases c.len(),
{
    if utf8_len(c) > max {
        match prefix_chars(c, max) {
            Some(k) => {
                if 0 < k <= c.len() {
                    lemma_byte_pieces_nonempty(c.skip(k as int), max);
                    let r = byte_pieces(c, max);
                    assert forall|i: int| 0 <= i < r.len() implies (#[trigger] r[i]).len() > 0 by {
                        if i > 0 {
                            assert(r[i] == byte_pieces(c.skip(k as int), max)[i - 1]);
                        }
                    }
                }
            },
            None => {},
        }
    }
}

proof fn lemma_flat_hard_nonempty(cs: Seq<Seq<char>>, max: nat)
    requires
        all_nonempty(cs),
    ensures
        all_nonempty(flat_hard(cs, max)),
    decreases cs.len(),
{
    if cs.len() > 0 {
        let rest = cs.drop_first();
        assert forall|i: int| 0 <= i < rest.len() implies (#[trigger] rest[i]).len() > 0 by {
            assert(rest[i] == cs[i + 1]);
        }
        lemma_flat_hard_nonempty(rest, max);
        lemma_byte_pieces_nonempty(cs[0], max);
        let a = hard_split(cs[0], max);
        let b = flat_hard(rest, max);
        assert(all_nonempty(a));
        assert forall|i: int| 0 <= i < (a + b).len() implies (#[trigger] (a + b)[i]).len() > 0 by {
            if i >= a.len() {
                assert((a + b)[i] == b[i - a.len()]);
            } else {
                assert((a + b)[i] == a[i]);
            }
        }
    }
}

proof fn lemma_split_on_clauses_nonempty(s: Seq<char>, max: nat)
    ensures
        all_nonempty(spec_split_on_clauses(s, max)),
{
    let terms = clause_terms();
    assert forall|j: int| 0 <= j < terms.len() implies !crate::text::is_ws(#[trigger] terms[j]) by {
        assert(terms[j] == ',' || terms[j] == ';' || terms[j] == ':');
    }
    lemma_split_incl_shape(s, terms, seq![]);
    lemma_clauses_from_nonempty(split_inclusive(s, terms), max, seq![]);
    lemma_flat_hard_nonempty(clause_chunks(s, max), max);
}

proof fn lemma_append_nonempty(a: Seq<Seq<char>>, b: Seq<Seq<char>>)
    requires
        all_nonempty(a),
        all_nonempty(b),
    ensures
        all_nonempty(a + b),
{
    assert forall|i: int| 0 <= i < (a + b).len() implies (#[trigger] (a + b)[i]).len() > 0 by {
        if i >= a.len() {
            assert((a + b)[i] == b[i - a.len()]);
        } else {
            assert((a + b)[i] == a[i]);
        }
    }
}

proof fn lemma_chunks_from_nonempty(sents: Seq<Seq<char>>, max: nat, cur: Seq<char>)
    requires
        inner_solid(sents),
        cur.len() > 0 && sents.len() > 0 ==> non_ws(cur).len() > 0,
    ensures
        all_nonempty(chunks_from(sents, max, cur)),
    decreases sents.len(),
{
    if sents.len() > 0 {
        let s = sents[0];
        let rest = sents.drop_first();
        assert forall|i: int| 0 <= i < rest.len() - 1 implies non_ws(#[trigger] rest[i]).len() > 0 by {
            assert(rest[i] == sents[i + 1]);
        }
        if utf8_len(cur) + utf8_len(s) > max {
            let flushed = if cur.len() > 0 {
                seq![trim(cur)]
            } else {
                Seq::<Seq<char>>::empty()
            };
            if cur.len() > 0 {
                lemma_solid_trim(cur);
            }
            assert(all_nonempty(flushed));
            if utf8_len(s) > max {
                lemma_split_on_clauses_nonempty(s, max);
                lemma_chunks_from_nonempty(rest, max, seq![]);
                lemma_append_nonempty(flushed, spec_split_on_clauses(s, max));
                lemma_append_nonempty(
                    flushed + spec_split_on_clauses(s, max),
                    chunks_from(rest, max, seq![]),
                );
            } else {
                lemma_chunks_from_nonempty(rest, max, s);
                lemma_append_nonempty(flushed, chunks_from(rest, max, s));
            }
        } else {
            if rest.len() > 0 {
                if cur.len() > 0 {
                    lemma_solid_concat(cur, s);
                } else {
                    assert(cur + s =~= s);
                }
            }
            lemma_chunks_from_nonempty(rest, max, cur + s);
        }
    }
}

/// A text longer than the limit is cut into chunks none of which is
/// empty; a text within the limit is the single chunk.
pub proof fn lemma_chunks_nonempty(text: Seq<char>, max: nat)
    ensures
        utf8_len(text) <= max ==> spec_chunk_text(text, max) == seq![text],
        utf8_len(text) > max ==> all_nonempty(spec_chunk_text(text, max)),
{
    if utf8_len(text) > max {
        let terms = sentence_terms();
        assert forall|j: int| 0 <= j < terms.len() implies !crate::text::is_ws(#[trigger] terms[j]) by {
            assert(terms[j] == '.' || terms[j] == '!' || terms[j] == '?');
        }
        lemma_split_incl_shape(text, terms, seq![]);
        lemma_chunks_from_nonempty(spec_split_sentences(text), max, seq![]);
    }
}

} // verus!

verus! {

// ---------------------------------------------------------------------------
// Audio file names: shape
// ---------------------------------------------------------------------------

/// Never two `-` in a row.
pub open spec fn no_double_dash(s: Seq<char>) -> bool {
    forall|i: int| 0 <= i < s.len() - 1 ==> !(#[trigger] s[i] == '-' && s[i + 1] == '-')
}

proof fn lemma_dash_join(a: Seq<char>, b: Seq<char>)
    requires
        no_double_dash(a),
        no_double_dash(b),
        !(a.len() > 0 && b.len() > 0 && a.last() == '-' && b[0] == '-'),
    ensures
        no_double_dash(a + b),
{
    let j = a + b;
    assert forall|i: int| 0 <= i < j.len() - 1 implies !(#[trigger] j[i] == '-' && j[i + 1] == '-') by {
        if i + 1 < a.len() {
            assert(j[i] == a[i] && j[i + 1] == a[i + 1]);
        } else if i + 1 == a.len() {
            assert(j[i] == a.last() && j[i + 1] == b[0]);
        } else {
            assert(j[i] == b[i - a.len()] && j[i + 1] == b[i + 1 - a.len()]);
        }
    }
}

proof fn lemma_digits_no_dash(n: nat)
    ensures
        crate::text::nat_digits(n).len() > 0,
        forall|i: int|
            0 <= i < crate::text::nat_digits(n).len() ==> crate::text::is_ascii_digit(
                #[trigger] crate::text::nat_digits(n)[i],
            ),
    decreases n,
{
    if n >= 10 {
        lemma_digits_no_dash(n / 10);
        let p = crate::text::nat_digits(n / 10);
        let d = crate::text::digit_char(n % 10);
        assert(crate::text::nat_digits(n) == p.push(d));
        assert forall|i: int|
            0 <= i < p.push(d).len() implies crate::text::is_ascii_digit(#[trigger] p.push(d)[i]) by {
            if i < p.len() {
                assert(p.push(d)[i] == p[i]);
            }
        }
    }
}

proof fn lemma_no_dash_at_all(s: Seq<char>)
    requires
        forall|i: int| 0 <= i < s.len() ==> #[trigger] s[i] != '-',
    ensures
        no_double_dash(s),
{
}

/// For a non-negative id, the audio file name never holds two `-` in a
/// row: the descriptive part has no dash at either end and none doubled.
pub proof fn lemma_audio_filename_no_double_dash(title: Seq<char>, id: i64)
    requires
        id >= 0,
    ensures
        no_double_dash(spec_audio_output_filename(title, id)),
{
    reveal_strlit("episode-");
    reveal_strlit(".mp3");
    let d = int_decimal(id as int);
    lemma_digits_no_dash(id as nat);
    assert(d == crate::text::nat_digits(id as nat));
    let mp3 = ".mp3"@;
    assert(forall|i: int| 0 <= i < d.len() ==> #[trigger] d[i] != '-');
    lemma_no_dash_at_all(d);
    lemma_no_dash_at_all(mp3);
    let slug = kebab(title);
    let suffix = seq!['-'] + d + mp3;
    let max_slug: int = if suffix.len() <= 96 {
        96 - suffix.len()
    } else {
        0
    };
    let n = if max_slug < slug.len() {
        max_slug
    } else {
        slug.len() as int
    };
    let taken = slug.take(n);
    let cut = strip_both(taken, seq!['-']);
    crate::text::lemma_kebab_slug(title);
    // the front of a slug prefix is no dash, so only the end is stripped
    if taken.len() > 0 {
        assert(taken[0] == slug[0]);
        assert(!seq!['-'].contains(taken[0])) by {
            if seq!['-'].contains(taken[0]) {
                let k = choose|k: int| 0 <= k < 1 && seq!['-'][k] == taken[0];
            }
        }
    }
    assert(crate::text::strip_start(taken, seq!['-']) == taken);
    crate::text::lemma_slug_cut(slug, n);
    lemma_dash_join(d, mp3);
    if slug.len() == 0 || cut.len() == 0 {
        let e = "episode-"@;
        assert(no_double_dash(e)) by {
            assert forall|i: int| 0 <= i < e.len() - 1 implies !(#[trigger] e[i] == '-' && e[i + 1]
                == '-') by {
                assert(e[i + 1] != '-' || e[i] != '-');
            }
        }
        lemma_dash_join(e, d + mp3);
        assert(spec_audio_output_filename(title, id) =~= e + (d + mp3));
    } else {
        assert(no_double_dash(seq!['-']));
        lemma_dash_join(seq!['-'], d + mp3);
        lemma_dash_join(cut, seq!['-'] + (d + mp3));
        assert(spec_audio_output_filename(title, id) =~= cut + (seq!['-'] + (d + mp3)));
    }
}

} // verus!

verus! {

// ---------------------------------------------------------------------------
// Gemini speech replies
// ---------------------------------------------------------------------------

#[verifier::external_type_specification]
#[verifier::external_body]
pub struct ExJsonValue(serde_json::Value);

/// The JSON value a text parses to (`serde_json::from_str`), none when it
/// is not JSON. It depends on the text alone.
pub uninterp spec fn json_parsed(text: Seq<char>) -> Option<serde_json::Value>;

/// The member `key` of a JSON value (`value[key]`): null when the value is
/// no object or has no such member. It depends on its arguments alone.
pub uninterp spec fn json_member(v: serde_json::Value, key: Seq<char>) -> serde_json::Value;

/// The element at `i` of a JSON value (`value[i]`): null when the value is
/// no array or is too short. It depends on its arguments alone.
pub uninterp spec fn json_element(v: serde_json::Value, i: usize) -> serde_json::Value;

/// The text of a JSON string value (`Value::as_str`), none for any other
/// value. It depends on the value alone.
pub uninterp spec fn json_text(v: serde_json::Value) -> Option<Seq<char>>;

/// The base64 audio of a Gemini speech reply: the string at
/// `candidates[0].content.parts[0].inlineData.data`, if there is one.
pub open spec fn gemini_audio_field(v: serde_json::Value) -> Option<Seq<char>> {
    json_text(
        json_member(
            json_member(
                json_element(
                    json_member(json_member(json_element(json_member(v, "candidates"@), 0), "content"@), "parts"@),
                    0,
                ),
                "inlineData"@,
            ),
            "data"@,
        ),
    )
}

/// `serde_json::from_str` into a `Value`, as [`json_parsed`] names it; on
/// failure the error's `Display` text, of which nothing is stated.
#[verifier::external_body]
fn parse_json(text: &str) -> (r: Result<serde_json::Value, String>)
    ensures
        match r {
            Ok(v) => json_parsed(text@) == Some(v),
            Err(_) => json_parsed(text@) is None,
        },
{
    serde_json::from_str(text).map_err(|e: serde_json::Error| e.to_string())
}

/// `value[key]`, cloned: the member, as [`json_member`] names it.
#[verifier::external_body]
fn json_get(v: &serde_json::Value, key: &str) -> (r: serde_json::Value)
    ensures
        r == json_member(*v, key@),
{
    v[key].clone()
}

/// `value[i]`, cloned: the element, as [`json_element`] names it.
#[verifier::external_body]
fn json_at(v: &serde_json::Value, i: usize) -> (r: serde_json::Value)
    ensures
        r == json_element(*v, i),
{
    v[i].clone()
}

/// `Value::as_str`, owned: the text, as [`json_text`] names it.
#[verifier::external_body]
fn json_str(v: &serde_json::Value) -> (r: Option<String>)
    ensures
        match r {
            Some(t) => json_text(*v) == Some(t@),
            None => json_text(*v) is None,
        },
{
    v.as_str().map(|t| t.to_owned())
}

/// The base64 audio of a parsed Gemini speech reply (see
/// [`gemini_audio_field`]).
fn inline_audio_field(v: &serde_json::Value) -> (r: Option<String>)
    ensures
        match r {
            Some(d) => gemini_audio_field(*v) == Some(d@),
            None => gemini_audio_field(*v) is None,
        },
{
    let a = json_get(v, "candidates");
    let b = json_at(&a, 0);
    let c = json_get(&b, "content");
    let d = json_get(&c, "parts");
    let e = json_at(&d, 0);
    let f = json_get(&e, "inlineData");
    let g = json_get(&f, "data");
    json_str(&g)
}

/// The bytes that standard Base64 (with padding) decodes a text to, or none
/// when the text is not valid Base64. It depends on the text alone.
pub uninterp spec fn base64_decoded(text: Seq<char>) -> Option<Seq<u8>>;

/// `base64::Engine::decode` with the `STANDARD` engine: the bytes of a
/// Base64 text, as [`base64_decoded`] names them; on failure the error's
/// `Display` text, of which nothing is stated.
#[verifier::external_body]
fn decode_base64(text: &str) -> (r: Result<Vec<u8>, String>)
    ensures
        match r {
            Ok(b) => base64_decoded(text@) == Some(b@),
            Err(_) => base64_decoded(text@) is None,
        },
{
    base64::Engine::decode(&base64::engine::general_purpose::STANDARD, text).map_err(|e| e.to_string())
}

/// The raw PCM audio of a Gemini speech reply: the Base64 data of its audio
/// field, decoded. A body that is not JSON fails with the parser's message;
/// a reply without that field fails with "No audio data in Gemini
/// response"; data that is not Base64 fails with the decoder's message.
pub fn gemini_audio_pcm(body: &str) -> (r: Result<Vec<u8>, String>)
    ensures
        match json_parsed(body@) {
            None => r is Err,
            Some(v) => match gemini_audio_field(v) {
                None => r matches Err(m) && m@ == "No audio data in Gemini response"@,
                Some(d) => match base64_decoded(d) {
                    Some(b) => r matches Ok(x) && x@ == b,
                    None => r is Err,
                },
            },
        },
{
    let v = match parse_json(body) {
        Ok(v) => v,
        Err(m) => return Err(m),
    };
    match inline_audio_field(&v) {
        None => Err(String::from_str("No audio data in Gemini response")),
        Some(d) => decode_base64(d.as_str()),
    }
}

} // verus!
