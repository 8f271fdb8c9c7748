//! Character-level text model shared by the library: strings are viewed as
//! sequences of `char`, and byte lengths are the UTF-8 lengths of those
//! sequences.
use vstd::prelude::*;

verus! {

// ---------------------------------------------------------------------------
// UTF-8 widths
// ---------------------------------------------------------------------------

/// Number of bytes of the UTF-8 encoding of `c`.
pub open spec fn char_width(c: char) -> nat {
    if (c as u32) <= 0x7f {
        1
    } else if (c as u32) <= 0x7ff {
        2
    } else if (c as u32) <= 0xffff {
        3
    } else {
        4
    }
}

/// Number of bytes of the UTF-8 encoding of `s` (what `str::len` returns).
pub open spec fn utf8_len(s: Seq<char>) -> nat
    decreases s.len(),
{
    if s.len() == 0 {
        0
    } else {
        char_width(s[0]) + utf8_len(s.drop_first())
    }
}

/// The byte length of a concatenation is the sum of the byte lengths.
pub proof fn lemma_utf8_len_concat(a: Seq<char>, b: Seq<char>)
    ensures
        utf8_len(a + b) == utf8_len(a) + utf8_len(b),
    decreases a.len(),
{
    if a.len() == 0 {
        assert(a + b =~= b);
    } else {
        assert((a + b).drop_first() =~= a.drop_first() + b);
        lemma_utf8_len_concat(a.drop_first(), b);
    }
}

/// Byte length of a prefix grows by the width of the next character.
pub proof fn lemma_utf8_len_take_next(s: Seq<char>, i: int)
    requires
        0 <= i < s.len(),
    ensures
        utf8_len(s.take(i + 1)) == utf8_len(s.take(i)) + char_width(s[i]),
{
    assert(s.take(i + 1) =~= s.take(i) + seq![s[i]]);
    lemma_utf8_len_concat(s.take(i), seq![s[i]]);
    assert(seq![s[i]].drop_first() =~= Seq::<char>::empty());
    assert(utf8_len(Seq::<char>::empty()) == 0);
    assert(utf8_len(seq![s[i]]) == char_width(s[i]));
}

/// Byte length of a subrange is bounded by the byte length of the whole.
pub proof fn lemma_utf8_len_subrange(s: Seq<char>, i: int, j: int)
    requires
        0 <= i <= j <= s.len(),
    ensures
        utf8_len(s.subrange(i, j)) <= utf8_len(s),
        utf8_len(s.take(i)) + utf8_len(s.subrange(i, j)) + utf8_len(s.skip(j)) == utf8_len(s),
{
    assert(s =~= s.take(i) + s.subrange(i, j) + s.skip(j));
    lemma_utf8_len_concat(s.take(i), s.subrange(i, j));
    lemma_utf8_len_concat(s.take(i) + s.subrange(i, j), s.skip(j));
}

/// Every character takes at least one byte.
pub proof fn lemma_utf8_len_ge_len(s: Seq<char>)
    ensures
        s.len() <= utf8_len(s),
    decreases s.len(),
{
    if s.len() > 0 {
        lemma_utf8_len_ge_len(s.drop_first());
    }
}

pub proof fn lemma_encode_len(s: Seq<char>)
    ensures
        vstd::utf8::encode_utf8(s).len() == utf8_len(s),
    decreases s.len(),
{
    if s.len() > 0 {
        vstd::utf8::char_is_scalar(s[0]);
        lemma_encode_len(s.drop_first());
    }
}

/// Width of one character, as `char::len_utf8` gives it.
pub fn width_of(c: char) -> (w: usize)
    ensures
        w == char_width(c),
        1 <= w <= 4,
{
    let u = c as u32;
    if u <= 0x7f {
        1
    } else if u <= 0x7ff {
        2
    } else if u <= 0xffff {
        3
    } else {
        4
    }
}

/// Byte length of a string slice; it always fits in `usize`.
pub fn str_len(s: &str) -> (n: usize)
    ensures
        n == utf8_len(s@),
{
    let b = s.as_bytes();
    let n = b.len();
    proof {
        lemma_encode_len(s@);
    }
    n
}

// ---------------------------------------------------------------------------
// Conversions between `str`, `String` and `Vec<char>`
// ---------------------------------------------------------------------------

/// The characters of a string slice, in order.
pub fn chars_of(s: &str) -> (v: Vec<char>)
    ensures
        v@ == s@,
        utf8_len(v@) <= usize::MAX,
{
    let n = str_len(s);
    let mut v: Vec<char> = Vec::new();
    for c in it: s.chars()
        invariant
            v@ == it.seq().take(it.index() as int),
            it.seq() == s@,
    {
        v.push(c);
    }
    v
}

/// Appends one character to a string (std's `String::push`).
#[verifier::external_body]
fn push_char(s: &mut String, c: char)
    ensures
        final(s)@ == old(s)@.push(c),
{
    s.push(c);
}

/// The string made of the given characters.
pub fn string_of(v: &[char]) -> (s: String)
    ensures
        s@ == v@,
{
    let mut s = String::new();
    let mut i: usize = 0;
    while i < v.len()
        invariant
            i <= v@.len(),
            s@ == v@.take(i as int),
        decreases v@.len() - i,
    {
        push_char(&mut s, v[i]);
        assert(v@.take(i + 1) =~= v@.take(i as int).push(v@[i as int]));
        i += 1;
    }
    assert(v@.take(v@.len() as int) =~= v@);
    s
}

/// Appends all characters of `src` to `dst`.
pub fn push_all(dst: &mut Vec<char>, src: &[char])
    ensures
        final(dst)@ == old(dst)@ + src@,
{
    let mut i: usize = 0;
    while i < src.len()
        invariant
            i <= src@.len(),
            dst@ == old(dst)@ + src@.take(i as int),
        decreases src@.len() - i,
    {
        dst.push(src[i]);
        assert(src@.take(i + 1) =~= src@.take(i as int).push(src@[i as int]));
        i += 1;
    }
    assert(src@.take(src@.len() as int) =~= src@);
}

/// Appends all characters of a string slice to `dst`.
pub fn push_str(dst: &mut Vec<char>, s: &str)
    ensures
        final(dst)@ == old(dst)@ + s@,
{
    let v = chars_of(s);
    push_all(dst, v.as_slice());
}

/// A copy of a subrange of a character slice.
pub fn slice_chars(v: &[char], start: usize, end: usize) -> (r: Vec<char>)
    requires
        start <= end <= v@.len(),
    ensures
        r@ == v@.subrange(start as int, end as int),
{
    let mut r: Vec<char> = Vec::new();
    let mut i = start;
    while i < end
        invariant
            start <= i <= end <= v@.len(),
            r@ == v@.subrange(start as int, i as int),
        decreases end - i,
    {
        r.push(v[i]);
        assert(v@.subrange(start as int, i + 1) =~= v@.subrange(start as int, i as int).push(
            v@[i as int],
        ));
        i += 1;
    }
    r
}

// ---------------------------------------------------------------------------
// Whitespace and trimming
// ---------------------------------------------------------------------------

/// The Unicode `White_Space` property, which `char::is_whitespace` tests.
pub open spec fn is_ws(c: char) -> bool {
    let u = c as u32;
    ||| (0x9 <= u && u <= 0xd)
    ||| u == 0x20
    ||| u == 0x85
    ||| u == 0xa0
    ||| u == 0x1680
    ||| (0x2000 <= u && u <= 0x200a)
    ||| u == 0x2028
    ||| u == 0x2029
    ||| u == 0x202f
    ||| u == 0x205f
    ||| u == 0x3000
}

/// Executable test of [`is_ws`].
pub fn is_whitespace(c: char) -> (b: bool)
    ensures
        b == is_ws(c),
{
    let u = c as u32;
    (0x9 <= u && u <= 0xd) || u == 0x20 || u == 0x85 || u == 0xa0 || u == 0x1680 || (0x2000 <= u
        && u <= 0x200a) || u == 0x2028 || u == 0x2029 || u == 0x202f || u == 0x205f || u == 0x3000
}

/// `s` without its leading whitespace (`str::trim_start`).
pub open spec fn trim_start(s: Seq<char>) -> Seq<char>
    decreases s.len(),
{
    if s.len() > 0 && is_ws(s[0]) {
        trim_start(s.drop_first())
    } else {
        s
    }
}

/// `s` without its trailing whitespace (`str::trim_end`).
pub open spec fn trim_end(s: Seq<char>) -> Seq<char>
    decreases s.len(),
{
    if s.len() > 0 && is_ws(s.last()) {
        trim_end(s.drop_last())
    } else {
        s
    }
}

/// `s` without leading and trailing whitespace (`str::trim`).
pub open spec fn trim(s: Seq<char>) -> Seq<char> {
    trim_end(trim_start(s))
}

/// True when every character of `s` is whitespace.
pub open spec fn all_ws(s: Seq<char>) -> bool {
    forall|i: int| 0 <= i < s.len() ==> is_ws(#[trigger] s[i])
}

pub proof fn lemma_trim_start_skip(s: Seq<char>, k: int)
    requires
        0 <= k <= s.len(),
        all_ws(s.take(k)),
    ensures
        trim_start(s) == trim_start(s.skip(k)),
    decreases k,
{
    if k > 0 {
        assert(is_ws(s.take(k)[0]));
        assert(s.drop_first().take(k - 1) =~= s.take(k).drop_first());
        lemma_trim_start_skip(s.drop_first(), k - 1);
        assert(s.drop_first().skip(k - 1) =~= s.skip(k));
    } else {
        assert(s.skip(0) =~= s);
    }
}

proof fn lemma_trim_end_take(s: Seq<char>, k: int)
    requires
        0 <= k <= s.len(),
        all_ws(s.skip(k)),
    ensures
        trim_end(s) == trim_end(s.take(k)),
    decreases s.len() - k,
{
    if k < s.len() {
        assert(is_ws(s.skip(k)[s.len() - k - 1]));
        assert(s.drop_last().skip(k) =~= s.skip(k).drop_last());
        lemma_trim_end_take(s.drop_last(), k);
        assert(s.drop_last().take(k) =~= s.take(k));
    } else {
        assert(s.take(k) =~= s);
    }
}

/// Bounds `[start, end)` of `trim(v)` inside `v`.
pub fn trim_bounds(v: &[char]) -> (r: (usize, usize))
    ensures
        r.0 <= r.1 <= v@.len(),
        trim(v@) == v@.subrange(r.0 as int, r.1 as int),
        trim_start(v@) == v@.skip(r.0 as int),
{
    let mut i: usize = 0;
    while i < v.len() && is_whitespace(v[i])
        invariant
            i <= v@.len(),
            all_ws(v@.take(i as int)),
        decreases v@.len() - i,
    {
        assert(v@.take(i + 1) =~= v@.take(i as int).push(v@[i as int]));
        i += 1;
    }
    proof {
        lemma_trim_start_skip(v@, i as int);
        let r = v@.skip(i as int);
        assert(r.len() == 0 || !is_ws(r[0]));
        assert(trim_start(r) == r);
    }
    let mut j: usize = v.len();
    while j > i && is_whitespace(v[j - 1])
        invariant
            i <= j <= v@.len(),
            all_ws(v@.subrange(j as int, v@.len() as int)),
        decreases j,
    {
        assert(v@.subrange(j - 1, v@.len() as int) =~= seq![v@[j - 1]] + v@.subrange(
            j as int,
            v@.len() as int,
        ));
        j -= 1;
    }
    proof {
        let r = v@.skip(i as int);
        let k = j - i;
        assert(r.skip(k) =~= v@.subrange(j as int, v@.len() as int));
        lemma_trim_end_take(r, k);
        assert(r.take(k) =~= v@.subrange(i as int, j as int));
        let t = r.take(k);
        assert(t.len() == 0 || !is_ws(t.last()));
    }
    (i, j)
}

/// `trim` on a character vector, as a new vector.
pub fn trim_chars(v: &[char]) -> (r: Vec<char>)
    ensures
        r@ == trim(v@),
{
    let (a, b) = trim_bounds(v);
    slice_chars(v, a, b)
}

/// `str::trim`, as an owned string.
pub fn trim_string(s: &str) -> (r: String)
    ensures
        r@ == trim(s@),
{
    let v = chars_of(s);
    let t = trim_chars(v.as_slice());
    string_of(t.as_slice())
}

} // verus!

verus! {

// ---------------------------------------------------------------------------
// Splitting
// ---------------------------------------------------------------------------

/// Pieces of `s` cut right after each character of `terms`, continuing a
/// piece `cur` already begun (`str::split_inclusive`).
pub open spec fn split_incl_from(s: Seq<char>, terms: Seq<char>, cur: Seq<char>) -> Seq<Seq<char>>
    decreases s.len(),
{
    if s.len() == 0 {
        if cur.len() > 0 {
            seq![cur]
        } else {
            seq![]
        }
    } else {
        let c = s[0];
        if terms.contains(c) {
            seq![cur.push(c)] + split_incl_from(s.drop_first(), terms, seq![])
        } else {
            split_incl_from(s.drop_first(), terms, cur.push(c))
        }
    }
}

/// `s.split_inclusive(terms)`: each piece ends with a terminator, except
/// possibly the last; no piece is empty.
pub open spec fn split_inclusive(s: Seq<char>, terms: Seq<char>) -> Seq<Seq<char>> {
    split_incl_from(s, terms, seq![])
}

/// True when `c` occurs in `terms`.
pub fn char_in(c: char, terms: &[char]) -> (b: bool)
    ensures
        b == terms@.contains(c),
{
    let mut i: usize = 0;
    while i < terms.len()
        invariant
            i <= terms@.len(),
            forall|j: int| 0 <= j < i ==> terms@[j] != c,
        decreases terms@.len() - i,
    {
        if terms[i] == c {
            return true;
        }
        i += 1;
    }
    false
}

/// The character sequences held by a vector of character vectors.
pub open spec fn views(v: Seq<Vec<char>>) -> Seq<Seq<char>> {
    v.map_values(|x: Vec<char>| x@)
}

/// The character sequences held by a vector of strings.
pub open spec fn str_views(v: Seq<String>) -> Seq<Seq<char>> {
    v.map_values(|x: String| x@)
}

/// Executable [`split_inclusive`].
pub fn split_inclusive_chars(v: &[char], terms: &[char]) -> (r: Vec<Vec<char>>)
    ensures
        views(r@) == split_inclusive(v@, terms@),
{
    let mut r: Vec<Vec<char>> = Vec::new();
    let mut cur: Vec<char> = Vec::new();
    let mut i: usize = 0;
    assert(v@.skip(0) =~= v@);
    while i < v.len()
        invariant
            i <= v@.len(),
            split_inclusive(v@, terms@) == views(r@) + split_incl_from(
                v@.skip(i as int),
                terms@,
                cur@,
            ),
        decreases v@.len() - i,
    {
        let c = v[i];
        let ghost rest = v@.skip(i as int);
        assert(rest[0] == c);
        assert(rest.drop_first() =~= v@.skip(i + 1));
        cur.push(c);
        if char_in(c, terms) {
            let ghost old_r = views(r@);
            let piece = cur;
            r.push(piece);
            cur = Vec::new();
            assert(views(r@) =~= old_r.push(piece@));
            assert(views(r@) + split_incl_from(v@.skip(i + 1), terms@, seq![]) =~= old_r + (
            seq![piece@] + split_incl_from(v@.skip(i + 1), terms@, seq![])));
        }
        i += 1;
    }
    let ghost before = views(r@);
    if cur.len() > 0 {
        let piece = cur;
        r.push(piece);
        assert(views(r@) =~= before + seq![piece@]);
    } else {
        assert(views(r@) =~= before + Seq::<Seq<char>>::empty());
    }
    r
}

} // verus!

verus! {

/// Every character takes at most four bytes.
pub proof fn lemma_utf8_len_le_4len(s: Seq<char>)
    ensures
        utf8_len(s) <= 4 * s.len(),
    decreases s.len(),
{
    if s.len() > 0 {
        lemma_utf8_len_le_4len(s.drop_first());
    }
}

/// Byte length of a character slice, in a type wide enough for any slice.
pub fn utf8_len_chars(v: &[char]) -> (n: u128)
    ensures
        n == utf8_len(v@),
{
    let mut n: u128 = 0;
    let mut i: usize = 0;
    while i < v.len()
        invariant
            i <= v@.len(),
            n == utf8_len(v@.take(i as int)),
            n <= 4 * i,
        decreases v@.len() - i,
    {
        proof {
            lemma_utf8_len_take_next(v@, i as int);
        }
        n = n + width_of(v[i]) as u128;
        i += 1;
    }
    assert(v@.take(v@.len() as int) =~= v@);
    n
}

} // verus!

verus! {

/// True when the characters of `v` are exactly those of `s`.
pub fn seq_eq(v: &[char], s: &str) -> (b: bool)
    ensures
        b == (v@ == s@),
{
    let w = chars_of(s);
    if v.len() != w.len() {
        return false;
    }
    let mut i: usize = 0;
    while i < v.len()
        invariant
            w@ == s@,
            v@.len() == w@.len(),
            i <= v@.len(),
            forall|j: int| 0 <= j < i ==> v@[j] == w@[j],
        decreases v@.len() - i,
    {
        if v[i] != w[i] {
            assert(v@[i as int] != w@[i as int]);
            return false;
        }
        i += 1;
    }
    assert(v@ =~= w@);
    true
}

} // verus!

verus! {

// ---------------------------------------------------------------------------
// Words and joining
// ---------------------------------------------------------------------------

/// Which characters make up the words of [`words`].
#[derive(PartialEq, Eq, Structural, Clone, Copy)]
pub enum WordKind {
    /// Words are runs of non-whitespace (`str::split_whitespace`).
    NonWhitespace,
    /// Words are runs of ASCII letters and digits.
    AsciiAlnum,
}

/// ASCII letter or digit (`char::is_ascii_alphanumeric`).
pub open spec fn is_ascii_alnum(c: char) -> bool {
    ('0' <= c && c <= '9') || ('a' <= c && c <= 'z') || ('A' <= c && c <= 'Z')
}

/// ASCII digit (`char::is_ascii_digit`).
pub open spec fn is_ascii_digit(c: char) -> bool {
    '0' <= c && c <= '9'
}

/// True when `c` belongs to a word of the given kind.
pub open spec fn in_word(kind: WordKind, c: char) -> bool {
    match kind {
        WordKind::NonWhitespace => !is_ws(c),
        WordKind::AsciiAlnum => is_ascii_alnum(c),
    }
}

/// Executable [`in_word`].
pub fn is_in_word(kind: WordKind, c: char) -> (b: bool)
    ensures
        b == in_word(kind, c),
{
    match kind {
        WordKind::NonWhitespace => !is_whitespace(c),
        WordKind::AsciiAlnum => ('0' <= c && c <= '9') || ('a' <= c && c <= 'z') || ('A' <= c && c
            <= 'Z'),
    }
}

/// Maximal runs of word characters of `s`, continuing a run `cur` already
/// begun.
pub open spec fn words_from(s: Seq<char>, kind: WordKind, cur: Seq<char>) -> Seq<Seq<char>>
    decreases s.len(),
{
    if s.len() == 0 {
        if cur.len() > 0 {
            seq![cur]
        } else {
            seq![]
        }
    } else if in_word(kind, s[0]) {
        words_from(s.drop_first(), kind, cur.push(s[0]))
    } else {
        (if cur.len() > 0 {
            seq![cur]
        } else {
            Seq::<Seq<char>>::empty()
        }) + words_from(s.drop_first(), kind, seq![])
    }
}

/// The maximal non-empty runs of word characters of `s`, in order.
pub open spec fn words(s: Seq<char>, kind: WordKind) -> Seq<Seq<char>> {
    words_from(s, kind, seq![])
}

/// Executable [`words`].
pub fn words_chars(v: &[char], kind: WordKind) -> (r: Vec<Vec<char>>)
    ensures
        views(r@) == words(v@, kind),
{
    let mut r: Vec<Vec<char>> = Vec::new();
    let mut cur: Vec<char> = Vec::new();
    let mut i: usize = 0;
    assert(v@.skip(0) =~= v@);
    while i < v.len()
        invariant
            i <= v@.len(),
            words(v@, kind) == views(r@) + words_from(v@.skip(i as int), kind, cur@),
        decreases v@.len() - i,
    {
        let c = v[i];
        let ghost rest = v@.skip(i as int);
        assert(rest[0] == c);
        assert(rest.drop_first() =~= v@.skip(i + 1));
        if is_in_word(kind, c) {
            cur.push(c);
        } else {
            let ghost o = views(r@);
            let ghost flushed = if cur@.len() > 0 {
                seq![cur@]
            } else {
                Seq::<Seq<char>>::empty()
            };
            if cur.len() > 0 {
                let w = cur;
                r.push(w);
                cur = Vec::new();
            }
            assert(views(r@) =~= o + flushed);
            assert(views(r@) + words_from(v@.skip(i + 1), kind, seq![]) =~= o + (flushed
                + words_from(v@.skip(i + 1), kind, seq![])));
            assert(cur@ =~= Seq::<char>::empty());
        }
        i += 1;
    }
    let ghost o = views(r@);
    if cur.len() > 0 {
        let w = cur;
        r.push(w);
        assert(views(r@) =~= o + seq![w@]);
    } else {
        assert(views(r@) =~= o + Seq::<Seq<char>>::empty());
    }
    r
}

/// The pieces joined with `sep` between consecutive pieces (`join`).
pub open spec fn join(pieces: Seq<Seq<char>>, sep: Seq<char>) -> Seq<char>
    decreases pieces.len(),
{
    if pieces.len() == 0 {
        seq![]
    } else if pieces.len() == 1 {
        pieces[0]
    } else {
        join(pieces.drop_last(), sep) + sep + pieces.last()
    }
}

/// Executable [`join`].
pub fn join_chars(pieces: &Vec<Vec<char>>, sep: &[char]) -> (r: Vec<char>)
    ensures
        r@ == join(views(pieces@), sep@),
{
    let mut r: Vec<char> = Vec::new();
    let mut i: usize = 0;
    let ghost ps = views(pieces@);
    assert(ps.take(0) =~= Seq::<Seq<char>>::empty());
    while i < pieces.len()
        invariant
            i <= pieces@.len(),
            ps == views(pieces@),
            r@ == join(ps.take(i as int), sep@),
        decreases pieces@.len() - i,
    {
        assert(ps.take(i + 1).drop_last() =~= ps.take(i as int));
        if i > 0 {
            push_all(&mut r, sep);
        } else {
            assert(r@ =~= Seq::<char>::empty());
        }
        push_all(&mut r, pieces[i].as_slice());
        assert(ps.take(i + 1).last() == pieces@[i as int]@);
        if i == 0 {
            assert(r@ =~= ps.take(1)[0]);
        }
        i += 1;
    }
    assert(ps.take(pieces@.len() as int) =~= ps);
    r
}

/// Joins string slices pieces with a separator.
pub fn join_strings(pieces: &Vec<String>, sep: &str) -> (r: String)
    ensures
        r@ == join(str_views(pieces@), sep@),
{
    let mut vs: Vec<Vec<char>> = Vec::new();
    let mut i: usize = 0;
    while i < pieces.len()
        invariant
            i <= pieces@.len(),
            views(vs@) =~= str_views(pieces@).take(i as int),
        decreases pieces@.len() - i,
    {
        let v = chars_of(pieces[i].as_str());
        let ghost o = vs@;
        vs.push(v);
        assert(views(vs@) =~= views(o).push(pieces@[i as int]@));
        assert(str_views(pieces@).take(i + 1) =~= str_views(pieces@).take(i as int).push(
            pieces@[i as int]@,
        ));
        i += 1;
    }
    assert(str_views(pieces@).take(pieces@.len() as int) =~= str_views(pieces@));
    let sepv = chars_of(sep);
    let j = join_chars(&vs, sepv.as_slice());
    string_of(j.as_slice())
}

// ---------------------------------------------------------------------------
// Numbers
// ---------------------------------------------------------------------------

/// `10^k`.
pub open spec fn pow10(k: nat) -> nat
    decreases k,
{
    if k == 0 {
        1
    } else {
        10 * pow10((k - 1) as nat)
    }
}

/// A number below `10^k` has at most `k` digits.
pub proof fn lemma_nat_digits_len(n: nat, k: nat)
    requires
        1 <= k,
        n < pow10(k),
    ensures
        1 <= nat_digits(n).len() <= k,
    decreases k,
{
    if n >= 10 {
        assert(n / 10 < pow10((k - 1) as nat)) by (nonlinear_arith)
            requires
                n < pow10(k),
                pow10(k) == 10 * pow10((k - 1) as nat),
        ;
        if k == 1 {
            assert(pow10(0) == 1);
        } else {
            lemma_nat_digits_len(n / 10, (k - 1) as nat);
        }
    }
}

/// Decimal text of any `i64` takes at most 20 characters.
pub proof fn lemma_i64_decimal_len(n: i64)
    ensures
        1 <= int_decimal(n as int).len() <= 20,
{
    reveal_with_fuel(pow10, 20);
    assert(pow10(19) == 10000000000000000000);
    if n < 0 {
        lemma_nat_digits_len((-n) as nat, 19);
    } else {
        lemma_nat_digits_len(n as nat, 19);
    }
}

/// The decimal digit character for `d < 10`.
pub open spec fn digit_char(d: nat) -> char {
    ((48 + d) as u32) as char
}

/// Decimal digits of `n`, most significant first, without leading zeros.
pub open spec fn nat_digits(n: nat) -> Seq<char>
    decreases n,
{
    if n < 10 {
        seq![digit_char(n)]
    } else {
        nat_digits(n / 10).push(digit_char(n % 10))
    }
}

/// Decimal text of an integer (`Display` for integers).
pub open spec fn int_decimal(i: int) -> Seq<char> {
    if i < 0 {
        seq!['-'] + nat_digits((-i) as nat)
    } else {
        nat_digits(i as nat)
    }
}

fn digit(d: u64) -> (c: char)
    requires
        d < 10,
    ensures
        c == digit_char(d as nat),
{
    let b = (48 + d) as u8;
    b as char
}

/// Decimal digits of an unsigned number.
pub fn u64_digits(n: u64) -> (v: Vec<char>)
    ensures
        v@ == nat_digits(n as nat),
    decreases n,
{
    if n < 10 {
        let mut v = Vec::new();
        v.push(digit(n));
        assert(v@ =~= seq![digit_char(n as nat)]);
        v
    } else {
        let mut v = u64_digits(n / 10);
        v.push(digit(n % 10));
        v
    }
}

/// Decimal text of a signed number.
pub fn i64_decimal(n: i64) -> (v: Vec<char>)
    ensures
        v@ == int_decimal(n as int),
{
    if n < 0 {
        let m: u64 = (-(n as i128)) as u64;
        let d = u64_digits(m);
        let mut v = Vec::new();
        v.push('-');
        let ghost dv = d@;
        push_all(&mut v, d.as_slice());
        assert(v@ =~= seq!['-'] + dv);
        v
    } else {
        u64_digits(n as u64)
    }
}

/// `s` left-padded with `0` to at least `width` characters (`{:0width}`).
pub open spec fn zero_pad(s: Seq<char>, width: nat) -> Seq<char> {
    if s.len() >= width {
        s
    } else {
        Seq::new((width - s.len()) as nat, |i: int| '0') + s
    }
}

/// Decimal digits of `n` zero-padded to `width` characters.
pub fn u64_padded(n: u64, width: usize) -> (v: Vec<char>)
    requires
        width <= 64,
    ensures
        v@ == zero_pad(nat_digits(n as nat), width as nat),
{
    let d = u64_digits(n);
    if d.len() >= width {
        d
    } else {
        let mut v: Vec<char> = Vec::new();
        let k = width - d.len();
        let mut i: usize = 0;
        while i < k
            invariant
                i <= k,
                v@ =~= Seq::new(i as nat, |j: int| '0'),
            decreases k - i,
        {
            v.push('0');
            i += 1;
        }
        let ghost dv = d@;
        push_all(&mut v, d.as_slice());
        v
    }
}

} // verus!

verus! {

// ---------------------------------------------------------------------------
// Stripping sets of characters (`trim_matches` and friends)
// ---------------------------------------------------------------------------

/// `s` without leading characters from `set` (`str::trim_start_matches`).
pub open spec fn strip_start(s: Seq<char>, set: Seq<char>) -> Seq<char>
    decreases s.len(),
{
    if s.len() > 0 && set.contains(s[0]) {
        strip_start(s.drop_first(), set)
    } else {
        s
    }
}

/// `s` without trailing characters from `set` (`str::trim_end_matches`).
pub open spec fn strip_end(s: Seq<char>, set: Seq<char>) -> Seq<char>
    decreases s.len(),
{
    if s.len() > 0 && set.contains(s.last()) {
        strip_end(s.drop_last(), set)
    } else {
        s
    }
}

/// `s` without leading and trailing characters from `set`
/// (`str::trim_matches`).
pub open spec fn strip_both(s: Seq<char>, set: Seq<char>) -> Seq<char> {
    strip_end(strip_start(s, set), set)
}

pub proof fn lemma_strip_start_skip(s: Seq<char>, set: Seq<char>, k: int)
    requires
        0 <= k <= s.len(),
        forall|j: int| 0 <= j < k ==> set.contains(#[trigger] s[j]),
    ensures
        strip_start(s, set) == strip_start(s.skip(k), set),
    decreases k,
{
    if k > 0 {
        assert(set.contains(s[0]));
        lemma_strip_start_skip(s.drop_first(), set, k - 1);
        assert(s.drop_first().skip(k - 1) =~= s.skip(k));
    } else {
        assert(s.skip(0) =~= s);
    }
}

proof fn lemma_strip_end_take(s: Seq<char>, set: Seq<char>, k: int)
    requires
        0 <= k <= s.len(),
        forall|j: int| k <= j < s.len() ==> set.contains(#[trigger] s[j]),
    ensures
        strip_end(s, set) == strip_end(s.take(k), set),
    decreases s.len() - k,
{
    if k < s.len() {
        assert(set.contains(s[s.len() - 1]));
        lemma_strip_end_take(s.drop_last(), set, k);
        assert(s.drop_last().take(k) =~= s.take(k));
    } else {
        assert(s.take(k) =~= s);
    }
}

/// Executable [`strip_start`].
pub fn strip_start_chars(v: &[char], set: &[char]) -> (r: Vec<char>)
    ensures
        r@ == strip_start(v@, set@),
{
    let mut i: usize = 0;
    while i < v.len() && char_in(v[i], set)
        invariant
            i <= v@.len(),
            forall|j: int| 0 <= j < i ==> set@.contains(#[trigger] v@[j]),
        decreases v@.len() - i,
    {
        i += 1;
    }
    proof {
        lemma_strip_start_skip(v@, set@, i as int);
        let r = v@.skip(i as int);
        assert(r.len() == 0 || !set@.contains(r[0]));
    }
    let r = slice_chars(v, i, v.len());
    assert(r@ =~= v@.skip(i as int));
    r
}

/// Executable [`strip_end`].
pub fn strip_end_chars(v: &[char], set: &[char]) -> (r: Vec<char>)
    ensures
        r@ == strip_end(v@, set@),
{
    let mut j: usize = v.len();
    while j > 0 && char_in(v[j - 1], set)
        invariant
            j <= v@.len(),
            forall|q: int| j <= q < v@.len() ==> set@.contains(#[trigger] v@[q]),
        decreases j,
    {
        j -= 1;
    }
    proof {
        lemma_strip_end_take(v@, set@, j as int);
        let r = v@.take(j as int);
        assert(r.len() == 0 || !set@.contains(r.last()));
    }
    let r = slice_chars(v, 0, j);
    assert(r@ =~= v@.take(j as int));
    r
}

/// Executable [`strip_both`].
pub fn strip_both_chars(v: &[char], set: &[char]) -> (r: Vec<char>)
    ensures
        r@ == strip_both(v@, set@),
{
    let a = strip_start_chars(v, set);
    strip_end_chars(a.as_slice(), set)
}

// ---------------------------------------------------------------------------
// Lowercase
// ---------------------------------------------------------------------------

/// `char::to_lowercase` as far as ASCII results go: ASCII capitals map to
/// small letters, U+0130 to `i` followed by U+0307, U+212A (Kelvin sign) to
/// `k`; every other character is kept. The characters that `to_lowercase`
/// would give for the kept non-ASCII characters are all non-ASCII, as the
/// kept character is, so tests for ASCII letters, digits and ASCII text
/// give the same answers on either.
pub open spec fn lower_char(c: char) -> Seq<char> {
    if 'A' <= c && c <= 'Z' {
        seq![((c as u32) + 32) as char]
    } else if c as u32 == 0x130 {
        seq!['i', '\u{307}']
    } else if c as u32 == 0x212a {
        seq!['k']
    } else {
        seq![c]
    }
}

/// [`lower_char`] applied to each character, results concatenated.
pub open spec fn lower(s: Seq<char>) -> Seq<char>
    decreases s.len(),
{
    if s.len() == 0 {
        seq![]
    } else {
        lower_char(s[0]) + lower(s.drop_first())
    }
}

pub proof fn lemma_lower_take_next(s: Seq<char>, i: int)
    requires
        0 <= i < s.len(),
    ensures
        lower(s.take(i + 1)) == lower(s.take(i)) + lower_char(s[i]),
    decreases i,
{
    if i == 0 {
        assert(s.take(1).drop_first() =~= Seq::<char>::empty());
        assert(s.take(0) =~= Seq::<char>::empty());
        assert(lower_char(s[0]) + Seq::<char>::empty() =~= lower_char(s[0]));
    } else {
        let t = s.drop_first();
        lemma_lower_take_next(t, i - 1);
        assert(s.take(i + 1).drop_first() =~= t.take(i));
        assert(s.take(i).drop_first() =~= t.take(i - 1));
        assert(lower(s.take(i + 1)) =~= lower_char(s[0]) + lower(t.take(i)));
        assert(lower(s.take(i)) =~= lower_char(s[0]) + lower(t.take(i - 1)));
    }
}

/// Executable [`lower`].
pub fn lower_chars(v: &[char]) -> (r: Vec<char>)
    ensures
        r@ == lower(v@),
{
    let mut r: Vec<char> = Vec::new();
    let mut i: usize = 0;
    assert(v@.take(0) =~= Seq::<char>::empty());
    while i < v.len()
        invariant
            i <= v@.len(),
            r@ == lower(v@.take(i as int)),
        decreases v@.len() - i,
    {
        let c = v[i];
        let u = c as u32;
        proof {
            lemma_lower_take_next(v@, i as int);
        }
        if 'A' <= c && c <= 'Z' {
            r.push(((u + 32) as u8) as char);
        } else if u == 0x130 {
            r.push('i');
            r.push('\u{307}');
        } else if u == 0x212a {
            r.push('k');
        } else {
            r.push(c);
        }
        assert(r@ =~= lower(v@.take(i as int)) + lower_char(c));
        i += 1;
    }
    assert(v@.take(v@.len() as int) =~= v@);
    r
}

/// The ASCII words of `s` after lowercasing, joined with `-`.
pub open spec fn kebab(s: Seq<char>) -> Seq<char> {
    join(words(lower(s), WordKind::AsciiAlnum), seq!['-'])
}

/// Executable [`kebab`].
pub fn kebab_chars(v: &[char]) -> (r: Vec<char>)
    ensures
        r@ == kebab(v@),
{
    let l = lower_chars(v);
    let w = words_chars(l.as_slice(), WordKind::AsciiAlnum);
    let sep = ['-'];
    assert(sep@ =~= seq!['-']);
    join_chars(&w, &sep)
}

} // verus!

verus! {

/// Stripping never lengthens.
pub proof fn lemma_strip_both_len(s: Seq<char>, set: Seq<char>)
    ensures
        strip_both(s, set).len() <= s.len(),
{
    lemma_strip_start_len(s, set);
    lemma_strip_end_len(strip_start(s, set), set);
}

proof fn lemma_strip_start_len(s: Seq<char>, set: Seq<char>)
    ensures
        strip_start(s, set).len() <= s.len(),
    decreases s.len(),
{
    if s.len() > 0 && set.contains(s[0]) {
        lemma_strip_start_len(s.drop_first(), set);
    }
}

proof fn lemma_strip_end_len(s: Seq<char>, set: Seq<char>)
    ensures
        strip_end(s, set).len() <= s.len(),
    decreases s.len(),
{
    if s.len() > 0 && set.contains(s.last()) {
        lemma_strip_end_len(s.drop_last(), set);
    }
}

} // verus!

verus! {

// ---------------------------------------------------------------------------
// Lines and searching
// ---------------------------------------------------------------------------

/// A piece of `split_inclusive('\n')` without its line ending (`\n`, or
/// `\r\n`).
pub open spec fn line_of(piece: Seq<char>) -> Seq<char> {
    if piece.len() > 0 && piece.last() == '\n' {
        let p = piece.drop_last();
        if p.len() > 0 && p.last() == '\r' {
            p.drop_last()
        } else {
            p
        }
    } else {
        piece
    }
}

/// The lines of `s` (`str::lines`).
pub open spec fn lines(s: Seq<char>) -> Seq<Seq<char>> {
    split_inclusive(s, seq!['\n']).map_values(|p: Seq<char>| line_of(p))
}

/// Executable [`line_of`].
fn line_of_chars(p: &[char]) -> (r: Vec<char>)
    ensures
        r@ == line_of(p@),
{
    let n = p.len();
    if n > 0 && p[n - 1] == '\n' {
        if n > 1 && p[n - 2] == '\r' {
            slice_chars(p, 0, n - 2)
        } else {
            slice_chars(p, 0, n - 1)
        }
    } else {
        slice_chars(p, 0, n)
    }
}

/// Executable [`lines`].
pub fn lines_chars(v: &[char]) -> (r: Vec<Vec<char>>)
    ensures
        views(r@) == lines(v@),
{
    let nl = ['\n'];
    assert(nl@ =~= seq!['\n']);
    let pieces = split_inclusive_chars(v, &nl);
    let ghost ps = views(pieces@);
    let mut r: Vec<Vec<char>> = Vec::new();
    let mut i: usize = 0;
    while i < pieces.len()
        invariant
            i <= pieces@.len(),
            ps == views(pieces@),
            views(r@) =~= ps.take(i as int).map_values(|p: Seq<char>| line_of(p)),
        decreases pieces@.len() - i,
    {
        let l = line_of_chars(pieces[i].as_slice());
        let ghost o = r@;
        r.push(l);
        assert(views(r@) =~= views(o).push(line_of(ps[i as int])));
        assert(ps.take(i + 1) =~= ps.take(i as int).push(ps[i as int]));
        i += 1;
    }
    assert(ps.take(pieces@.len() as int) =~= ps);
    r
}

/// Index of the first character of `s` that is in `set`.
pub open spec fn first_in(s: Seq<char>, set: Seq<char>) -> Option<nat>
    decreases s.len(),
{
    if s.len() == 0 {
        None
    } else if set.contains(s[0]) {
        Some(0)
    } else {
        match first_in(s.drop_first(), set) {
            Some(k) => Some(k + 1),
            None => None,
        }
    }
}

pub proof fn lemma_first_in(s: Seq<char>, set: Seq<char>, i: int)
    requires
        0 <= i <= s.len(),
        forall|j: int| 0 <= j < i ==> !set.contains(#[trigger] s[j]),
    ensures
        first_in(s, set) == match first_in(s.skip(i), set) {
            Some(k) => Some((k + i) as nat),
            None => None,
        },
    decreases i,
{
    if i == 0 {
        assert(s.skip(0) =~= s);
    } else {
        lemma_first_in(s.drop_first(), set, i - 1);
        assert(s.drop_first().skip(i - 1) =~= s.skip(i));
    }
}

/// Executable [`first_in`].
pub fn first_in_chars(v: &[char], set: &[char]) -> (r: Option<usize>)
    ensures
        r matches Some(k) ==> first_in(v@, set@) == Some(k as nat),
        r is None ==> first_in(v@, set@) is None,
        r matches Some(k) ==> k < v@.len(),
{
    let mut i: usize = 0;
    while i < v.len()
        invariant
            i <= v@.len(),
            forall|j: int| 0 <= j < i ==> !set@.contains(#[trigger] v@[j]),
        decreases v@.len() - i,
    {
        if char_in(v[i], set) {
            proof {
                lemma_first_in(v@, set@, i as int);
            }
            return Some(i);
        }
        i += 1;
    }
    proof {
        lemma_first_in(v@, set@, i as int);
    }
    None
}

/// True when `s` begins with `p`.
pub open spec fn starts_with(s: Seq<char>, p: Seq<char>) -> bool {
    p.len() <= s.len() && s.take(p.len() as int) == p
}

/// True when `p` occurs in `s` at position `i`.
pub open spec fn occurs_at(s: Seq<char>, p: Seq<char>, i: int) -> bool {
    0 <= i && i + p.len() <= s.len() && s.subrange(i, i + p.len()) == p
}

/// True when `p` occurs in `s` (`str::contains`).
pub open spec fn contains(s: Seq<char>, p: Seq<char>) -> bool {
    exists|i: int| occurs_at(s, p, i)
}

/// Position of the first occurrence of `p` in `s` at or after `i`.
pub open spec fn find_from(s: Seq<char>, p: Seq<char>, i: int) -> Option<nat>
    decreases s.len() + 1 - i,
{
    if i < 0 || i > s.len() {
        None
    } else if occurs_at(s, p, i) {
        Some(i as nat)
    } else {
        find_from(s, p, i + 1)
    }
}

/// Position of the first occurrence of `p` in `s` (`str::find`).
pub open spec fn find(s: Seq<char>, p: Seq<char>) -> Option<nat> {
    find_from(s, p, 0)
}

/// True when `p` occurs in `v` at position `i`.
pub fn occurs_at_chars(v: &[char], p: &[char], i: usize) -> (b: bool)
    ensures
        b == occurs_at(v@, p@, i as int),
{
    let n = v.len();
    if i > n || p.len() > n - i {
        return false;
    }
    let mut j: usize = 0;
    while j < p.len()
        invariant
            n == v@.len(),
            i + p@.len() <= v@.len(),
            j <= p@.len(),
            forall|q: int| 0 <= q < j ==> v@[i + q] == p@[q],
        decreases p@.len() - j,
    {
        if v[i + j] != p[j] {
            assert(v@.subrange(i as int, i + p@.len())[j as int] != p@[j as int]);
            return false;
        }
        j += 1;
    }
    assert(v@.subrange(i as int, i + p@.len()) =~= p@);
    true
}

/// Executable [`find`].
pub fn find_chars(v: &[char], p: &[char]) -> (r: Option<usize>)
    ensures
        r matches Some(k) ==> find(v@, p@) == Some(k as nat) && occurs_at(v@, p@, k as int),
        r is None ==> find(v@, p@) is None && !contains(v@, p@),
{
    let mut i: usize = 0;
    let n = v.len();
    loop
        invariant_except_break
            n == v@.len(),
            i <= v@.len(),
            forall|j: int| 0 <= j < i ==> !occurs_at(v@, p@, j),
            find(v@, p@) == find_from(v@, p@, i as int),
        ensures
            forall|j: int| 0 <= j <= v@.len() ==> !occurs_at(v@, p@, j),
            find(v@, p@) is None,
        decreases v@.len() - i,
    {
        if occurs_at_chars(v, p, i) {
            return Some(i);
        }
        if i == n {
            assert(find_from(v@, p@, i + 1) == None::<nat>);
            break;
        }
        i += 1;
    }
    assert(!contains(v@, p@)) by {
        if contains(v@, p@) {
            let q = choose|q: int| occurs_at(v@, p@, q);
            assert(q <= v@.len());
        }
    }
    None
}

/// Executable [`contains`].
pub fn contains_chars(v: &[char], p: &[char]) -> (b: bool)
    ensures
        b == contains(v@, p@),
{
    match find_chars(v, p) {
        Some(k) => {
            proof {
                assert(contains(v@, p@));
            }
            true
        },
        None => false,
    }
}

/// Executable [`starts_with`].
pub fn starts_with_chars(v: &[char], p: &[char]) -> (b: bool)
    ensures
        b == starts_with(v@, p@),
{
    let b = occurs_at_chars(v, p, 0);
    assert(v@.subrange(0, p@.len() as int) =~= v@.take(p@.len() as int));
    b
}

/// `s.contains(p)` on string slices.
pub fn str_contains(s: &str, p: &str) -> (b: bool)
    ensures
        b == contains(s@, p@),
{
    let v = chars_of(s);
    let w = chars_of(p);
    contains_chars(v.as_slice(), w.as_slice())
}

/// `s.starts_with(p)` on string slices.
pub fn str_starts_with(s: &str, p: &str) -> (b: bool)
    ensures
        b == starts_with(s@, p@),
{
    let v = chars_of(s);
    let w = chars_of(p);
    starts_with_chars(v.as_slice(), w.as_slice())
}

/// True when `s` ends with `p`.
pub open spec fn ends_with(s: Seq<char>, p: Seq<char>) -> bool {
    p.len() <= s.len() && s.skip(s.len() - p.len()) == p
}

/// Executable [`ends_with`].
pub fn ends_with_chars(v: &[char], p: &[char]) -> (b: bool)
    ensures
        b == ends_with(v@, p@),
{
    if p.len() > v.len() {
        return false;
    }
    let b = occurs_at_chars(v, p, v.len() - p.len());
    assert(v@.subrange(v@.len() - p@.len(), v@.len() as int) =~= v@.skip(
        v@.len() - p@.len(),
    ));
    b
}

} // verus!

verus! {

/// `a == b` on string slices.
pub fn str_eq(a: &str, b: &str) -> (r: bool)
    ensures
        r == (a@ == b@),
{
    let v = chars_of(a);
    seq_eq(v.as_slice(), b)
}

/// `String` holding the characters of a string slice (`str::to_string`).
pub fn owned(s: &str) -> (r: String)
    ensures
        r@ == s@,
{
    let v = chars_of(s);
    string_of(v.as_slice())
}

} // verus!

verus! {

// ---------------------------------------------------------------------------
// Parsing unsigned numbers
// ---------------------------------------------------------------------------

/// Value of a string of decimal digits.
pub open spec fn digits_value(s: Seq<char>) -> nat
    decreases s.len(),
{
    if s.len() == 0 {
        0
    } else {
        digits_value(s.drop_last()) * 10 + ((s.last() as u32) - 48) as nat
    }
}

/// True when every character of `s` is an ASCII digit.
pub open spec fn all_digits(s: Seq<char>) -> bool {
    forall|i: int| 0 <= i < s.len() ==> is_ascii_digit(#[trigger] s[i])
}

/// `s.parse::<u64>()`: an optional `+`, then one or more digits whose value
/// fits in `u64`.
pub open spec fn spec_parse_u64(s: Seq<char>) -> Option<u64> {
    let d = if s.len() > 0 && s[0] == '+' {
        s.drop_first()
    } else {
        s
    };
    if d.len() > 0 && all_digits(d) && digits_value(d) <= u64::MAX {
        Some(digits_value(d) as u64)
    } else {
        None
    }
}

proof fn lemma_digits_value_prefix(s: Seq<char>, i: int)
    requires
        0 <= i <= s.len(),
        all_digits(s),
    ensures
        digits_value(s.take(i)) <= digits_value(s),
    decreases s.len(),
{
    if i < s.len() {
        let t = s.drop_last();
        assert(all_digits(t)) by {
            assert forall|k: int| 0 <= k < t.len() implies is_ascii_digit(#[trigger] t[k]) by {
                assert(t[k] == s[k]);
            }
        }
        assert(t.take(i) =~= s.take(i));
        lemma_digits_value_prefix(t, i);
    } else {
        assert(s.take(i) =~= s);
    }
}

/// Executable [`spec_parse_u64`].
pub fn parse_u64(v: &[char]) -> (r: Option<u64>)
    ensures
        r == spec_parse_u64(v@),
{
    let start: usize = if v.len() > 0 && v[0] == '+' {
        1
    } else {
        0
    };
    let ghost d = if v@.len() > 0 && v@[0] == '+' {
        v@.drop_first()
    } else {
        v@
    };
    assert(d =~= v@.skip(start as int));
    if start >= v.len() {
        return None;
    }
    let mut value: u64 = 0;
    let mut i: usize = start;
    assert(d.take(0) =~= Seq::<char>::empty());
    while i < v.len()
        invariant
            start <= i <= v@.len(),
            start < v@.len(),
            d == (if v@.len() > 0 && v@[0] == '+' {
                v@.drop_first()
            } else {
                v@
            }),
            d =~= v@.skip(start as int),
            all_digits(d.take(i - start)),
            value == digits_value(d.take(i - start)),
        decreases v@.len() - i,
    {
        let c = v[i];
        let k = i - start;
        assert(d[k as int] == c);
        if !('0' <= c && c <= '9') {
            assert(!all_digits(d)) by {
                assert(!is_ascii_digit(d[k as int]));
            }
            return None;
        }
        let digit = (c as u32 - 48) as u64;
        assert(d.take(k + 1).drop_last() =~= d.take(k as int));
        assert(d.take(k + 1).last() == c);
        assert(all_digits(d.take(k + 1))) by {
            assert forall|j: int| 0 <= j < k + 1 implies is_ascii_digit(#[trigger] d.take(k + 1)[j]) by {
                if j < k {
                    assert(d.take(k + 1)[j] == d.take(k as int)[j]);
                }
            }
        }
        if value > (u64::MAX - digit) / 10 {
            proof {
                let dv = digit as int;
                let vv = value as int;
                assert(vv * 10 + dv > u64::MAX) by (nonlinear_arith)
                    requires
                        vv > (u64::MAX - dv) / 10,
                        0 <= dv <= 9,
                ;
                assert(digits_value(d.take(k + 1)) > u64::MAX);
                if all_digits(d) {
                    lemma_digits_value_prefix(d, k + 1);
                }
            }
            return None;
        }
        value = value * 10 + digit;
        i += 1;
    }
    assert(d.take(i - start) =~= d);
    Some(value)
}

} // verus!

verus! {

// ---------------------------------------------------------------------------
// Splitting on a separator, and replacing
// ---------------------------------------------------------------------------

/// Pieces of `s` between the separators `c`, continuing a piece `cur`
/// already begun (`str::split` with a character).
pub open spec fn split_char_from(s: Seq<char>, c: char, cur: Seq<char>) -> Seq<Seq<char>>
    decreases s.len(),
{
    if s.len() == 0 {
        seq![cur]
    } else if s[0] == c {
        seq![cur] + split_char_from(s.drop_first(), c, seq![])
    } else {
        split_char_from(s.drop_first(), c, cur.push(s[0]))
    }
}

/// `s.split(c)`: the pieces between separators, empty ones included; there
/// is always at least one.
pub open spec fn split_char(s: Seq<char>, c: char) -> Seq<Seq<char>> {
    split_char_from(s, c, seq![])
}

/// Executable [`split_char`].
pub fn split_char_chars(v: &[char], c: char) -> (r: Vec<Vec<char>>)
    ensures
        views(r@) == split_char(v@, c),
{
    let mut r: Vec<Vec<char>> = Vec::new();
    let mut cur: Vec<char> = Vec::new();
    let mut i: usize = 0;
    assert(v@.skip(0) =~= v@);
    while i < v.len()
        invariant
            i <= v@.len(),
            split_char(v@, c) == views(r@) + split_char_from(v@.skip(i as int), c, cur@),
        decreases v@.len() - i,
    {
        let x = v[i];
        let ghost rest = v@.skip(i as int);
        assert(rest[0] == x);
        assert(rest.drop_first() =~= v@.skip(i + 1));
        if x == c {
            let ghost o = views(r@);
            let piece = cur;
            r.push(piece);
            cur = Vec::new();
            assert(views(r@) =~= o.push(piece@));
            assert(views(r@) + split_char_from(v@.skip(i + 1), c, seq![]) =~= o + (seq![piece@]
                + split_char_from(v@.skip(i + 1), c, seq![])));
        } else {
            cur.push(x);
        }
        i += 1;
    }
    let ghost o = views(r@);
    let piece = cur;
    r.push(piece);
    assert(views(r@) =~= o + seq![piece@]);
    r
}

/// Pieces of `s` between the non-overlapping occurrences of `p`, found
/// from the left, continuing a piece `cur` already begun (`str::split`
/// with a string, for a non-empty `p`).
pub open spec fn split_str_from(s: Seq<char>, p: Seq<char>, cur: Seq<char>) -> Seq<Seq<char>>
    decreases s.len(),
{
    if s.len() == 0 {
        seq![cur]
    } else if p.len() > 0 && starts_with(s, p) {
        seq![cur] + split_str_from(s.skip(p.len() as int), p, seq![])
    } else {
        split_str_from(s.drop_first(), p, cur.push(s[0]))
    }
}

/// `s.split(p)` for a non-empty string `p`.
pub open spec fn split_str(s: Seq<char>, p: Seq<char>) -> Seq<Seq<char>> {
    split_str_from(s, p, seq![])
}

proof fn lemma_occurs_starts(s: Seq<char>, p: Seq<char>, i: int)
    requires
        0 <= i <= s.len(),
    ensures
        occurs_at(s, p, i) <==> starts_with(s.skip(i), p),
{
    if p.len() <= s.skip(i).len() {
        assert(s.subrange(i, i + p.len()) =~= s.skip(i).take(p.len() as int));
    }
}

/// Executable [`split_str`].
pub fn split_str_chars(v: &[char], p: &[char]) -> (r: Vec<Vec<char>>)
    requires
        p@.len() > 0,
    ensures
        views(r@) == split_str(v@, p@),
{
    let mut r: Vec<Vec<char>> = Vec::new();
    let mut cur: Vec<char> = Vec::new();
    let mut i: usize = 0;
    assert(v@.skip(0) =~= v@);
    while i < v.len()
        invariant
            i <= v@.len(),
            p@.len() > 0,
            split_str(v@, p@) == views(r@) + split_str_from(v@.skip(i as int), p@, cur@),
        decreases v@.len() - i,
    {
        let ghost rest = v@.skip(i as int);
        proof {
            lemma_occurs_starts(v@, p@, i as int);
        }
        if occurs_at_chars(v, p, i) {
            let ghost o = views(r@);
            let piece = cur;
            r.push(piece);
            cur = Vec::new();
            assert(rest.skip(p@.len() as int) =~= v@.skip(i + p@.len()));
            assert(views(r@) =~= o.push(piece@));
            assert(views(r@) + split_str_from(v@.skip(i + p@.len()), p@, seq![]) =~= o + (seq![
                piece@,
            ] + split_str_from(v@.skip(i + p@.len()), p@, seq![])));
            i += p.len();
        } else {
            let x = v[i];
            assert(rest[0] == x);
            assert(rest.drop_first() =~= v@.skip(i + 1));
            cur.push(x);
            i += 1;
        }
    }
    let ghost o = views(r@);
    assert(v@.skip(i as int) =~= Seq::<char>::empty());
    let piece = cur;
    r.push(piece);
    assert(views(r@) =~= o + seq![piece@]);
    r
}

/// `s` with every non-overlapping occurrence of `p`, found from the left,
/// replaced by `q` (`str::replace`, for a non-empty `p`).
pub open spec fn replace_all(s: Seq<char>, p: Seq<char>, q: Seq<char>) -> Seq<char>
    decreases s.len(),
{
    if s.len() == 0 {
        seq![]
    } else if p.len() > 0 && starts_with(s, p) {
        q + replace_all(s.skip(p.len() as int), p, q)
    } else {
        seq![s[0]] + replace_all(s.drop_first(), p, q)
    }
}

/// Executable [`replace_all`].
pub fn replace_all_chars(v: &[char], p: &[char], q: &[char]) -> (r: Vec<char>)
    requires
        p@.len() > 0,
    ensures
        r@ == replace_all(v@, p@, q@),
{
    let mut r: Vec<char> = Vec::new();
    let mut i: usize = 0;
    assert(v@.skip(0) =~= v@);
    while i < v.len()
        invariant
            i <= v@.len(),
            p@.len() > 0,
            replace_all(v@, p@, q@) == r@ + replace_all(v@.skip(i as int), p@, q@),
        decreases v@.len() - i,
    {
        let ghost rest = v@.skip(i as int);
        let ghost o = r@;
        proof {
            lemma_occurs_starts(v@, p@, i as int);
        }
        if occurs_at_chars(v, p, i) {
            push_all(&mut r, q);
            assert(rest.skip(p@.len() as int) =~= v@.skip(i + p@.len()));
            assert(o + (q@ + replace_all(v@.skip(i + p@.len()), p@, q@)) =~= r@ + replace_all(
                v@.skip(i + p@.len()),
                p@,
                q@,
            ));
            i += p.len();
        } else {
            let x = v[i];
            assert(rest[0] == x);
            assert(rest.drop_first() =~= v@.skip(i + 1));
            r.push(x);
            assert(o + (seq![x] + replace_all(v@.skip(i + 1), p@, q@)) =~= r@ + replace_all(
                v@.skip(i + 1),
                p@,
                q@,
            ));
            i += 1;
        }
    }
    assert(v@.skip(i as int) =~= Seq::<char>::empty());
    assert(r@ + Seq::<char>::empty() =~= r@);
    r
}

/// True when the two character vectors hold the same characters.
pub fn chars_eq(a: &[char], b: &[char]) -> (r: bool)
    ensures
        r == (a@ == b@),
{
    if a.len() != b.len() {
        return false;
    }
    let mut i: usize = 0;
    while i < a.len()
        invariant
            a@.len() == b@.len(),
            i <= a@.len(),
            forall|j: int| 0 <= j < i ==> a@[j] == b@[j],
        decreases a@.len() - i,
    {
        if a[i] != b[i] {
            assert(a@[i as int] != b@[i as int]);
            return false;
        }
        i += 1;
    }
    assert(a@ =~= b@);
    true
}

} // verus!

verus! {

/// `str::trim_end` on a character slice.
pub fn trim_end_chars(v: &[char]) -> (r: Vec<char>)
    ensures
        r@ == trim_end(v@),
{
    let mut j: usize = v.len();
    while j > 0 && is_whitespace(v[j - 1])
        invariant
            j <= v@.len(),
            all_ws(v@.subrange(j as int, v@.len() as int)),
        decreases j,
    {
        assert(v@.subrange(j - 1, v@.len() as int) =~= seq![v@[j - 1]] + v@.subrange(
            j as int,
            v@.len() as int,
        ));
        j -= 1;
    }
    proof {
        assert(v@.skip(j as int) =~= v@.subrange(j as int, v@.len() as int));
        lemma_trim_end_take(v@, j as int);
        let t = v@.take(j as int);
        assert(t.len() == 0 || !is_ws(t.last()));
    }
    let r = slice_chars(v, 0, j);
    assert(r@ =~= v@.take(j as int));
    r
}

} // verus!

verus! {

/// The UTF-8 encoding of a concatenation is the concatenation of the
/// encodings.
pub proof fn lemma_encode_concat(a: Seq<char>, b: Seq<char>)
    ensures
        vstd::utf8::encode_utf8(a + b) == vstd::utf8::encode_utf8(a) + vstd::utf8::encode_utf8(b),
    decreases a.len(),
{
    if a.len() == 0 {
        assert(a + b =~= b);
        assert(vstd::utf8::encode_utf8(a) =~= Seq::<u8>::empty());
        assert(Seq::<u8>::empty() + vstd::utf8::encode_utf8(b) =~= vstd::utf8::encode_utf8(b));
    } else {
        assert((a + b).drop_first() =~= a.drop_first() + b);
        assert((a + b)[0] == a[0]);
        lemma_encode_concat(a.drop_first(), b);
        assert(vstd::utf8::encode_utf8(a + b) =~= vstd::utf8::encode_scalar(a[0] as u32) + (
        vstd::utf8::encode_utf8(a.drop_first()) + vstd::utf8::encode_utf8(b)));
    }
}

/// Two character sequences with the same UTF-8 encoding are equal.
pub proof fn lemma_encode_injective(a: Seq<char>, b: Seq<char>)
    requires
        vstd::utf8::encode_utf8(a) == vstd::utf8::encode_utf8(b),
    ensures
        a == b,
{
    vstd::utf8::encode_utf8_decode_utf8(a);
    vstd::utf8::encode_utf8_decode_utf8(b);
}

} // verus!

verus! {

// ---------------------------------------------------------------------------
// Slugs
// ---------------------------------------------------------------------------

/// A character of a slug: a lowercase ASCII letter, a digit or `-`.
pub open spec fn is_slug_char(c: char) -> bool {
    ('a' <= c && c <= 'z') || ('0' <= c && c <= '9') || c == '-'
}

/// A slug: slug characters only, no `-` at either end, never two `-` in a
/// row.
pub open spec fn is_slug(s: Seq<char>) -> bool {
    &&& forall|i: int| 0 <= i < s.len() ==> is_slug_char(#[trigger] s[i])
    &&& s.len() > 0 ==> s[0] != '-' && s.last() != '-'
    &&& forall|i: int| 0 <= i < s.len() - 1 ==> !(#[trigger] s[i] == '-' && s[i + 1] == '-')
}

/// A word of a slug: non-empty, lowercase ASCII letters and digits.
pub open spec fn is_slug_word(w: Seq<char>) -> bool {
    w.len() > 0 && forall|i: int|
        0 <= i < w.len() ==> is_slug_char(#[trigger] w[i]) && w[i] != '-'
}

proof fn lemma_lower_no_upper(s: Seq<char>)
    ensures
        forall|i: int| 0 <= i < lower(s).len() ==> !('A' <= #[trigger] lower(s)[i] && lower(s)[i] <= 'Z'),
    decreases s.len(),
{
    if s.len() > 0 {
        lemma_lower_no_upper(s.drop_first());
        let h = lower_char(s[0]);
        let t = lower(s.drop_first());
        assert(lower(s) == h + t);
        assert forall|i: int| 0 <= i < lower(s).len() implies !('A' <= #[trigger] lower(s)[i]
            && lower(s)[i] <= 'Z') by {
            if i < h.len() {
                assert(lower(s)[i] == h[i]);
                let c = s[0];
                if 'A' <= c && c <= 'Z' {
                    assert(h[i] == ((c as u32) + 32) as char);
                }
            } else {
                assert(lower(s)[i] == t[i - h.len()]);
            }
        }
    }
}

proof fn lemma_words_from_alnum(s: Seq<char>, cur: Seq<char>)
    requires
        forall|i: int| 0 <= i < s.len() ==> !('A' <= #[trigger] s[i] && s[i] <= 'Z'),
        forall|i: int| 0 <= i < cur.len() ==> is_slug_char(#[trigger] cur[i]) && cur[i] != '-',
    ensures
        forall|k: int|
            0 <= k < words_from(s, WordKind::AsciiAlnum, cur).len() ==> is_slug_word(
                #[trigger] words_from(s, WordKind::AsciiAlnum, cur)[k],
            ),
    decreases s.len(),
{
    let ws = words_from(s, WordKind::AsciiAlnum, cur);
    if s.len() == 0 {
        if cur.len() > 0 {
            assert(ws == seq![cur]);
            assert(ws[0] == cur);
            assert(is_slug_word(cur));
        } else {
            assert(ws.len() == 0);
        }
    } else {
        let t = s.drop_first();
        assert forall|i: int| 0 <= i < t.len() implies !('A' <= #[trigger] t[i] && t[i] <= 'Z') by {
            assert(t[i] == s[i + 1]);
        }
        if in_word(WordKind::AsciiAlnum, s[0]) {
            let c2 = cur.push(s[0]);
            assert(!('A' <= s[0] && s[0] <= 'Z'));
            assert(is_slug_char(s[0]) && s[0] != '-');
            assert forall|i: int| 0 <= i < c2.len() implies is_slug_char(#[trigger] c2[i]) && c2[i]
                != '-' by {
                if i < cur.len() {
                    assert(c2[i] == cur[i]);
                } else {
                    assert(c2[i] == s[0]);
                }
            }
            lemma_words_from_alnum(t, c2);
            assert(ws == words_from(t, WordKind::AsciiAlnum, c2));
        } else {
            lemma_words_from_alnum(t, seq![]);
            let head = if cur.len() > 0 {
                seq![cur]
            } else {
                Seq::<Seq<char>>::empty()
            };
            let rest = words_from(t, WordKind::AsciiAlnum, seq![]);
            assert(ws == head + rest);
            assert forall|k: int| 0 <= k < ws.len() implies is_slug_word(#[trigger] ws[k]) by {
                if k < head.len() {
                    assert(ws[k] == cur);
                } else {
                    assert(ws[k] == rest[k - head.len()]);
                }
            }
        }
    }
}

proof fn lemma_join_slug(ws: Seq<Seq<char>>)
    requires
        forall|k: int| 0 <= k < ws.len() ==> is_slug_word(#[trigger] ws[k]),
    ensures
        is_slug(join(ws, seq!['-'])),
        ws.len() > 0 ==> join(ws, seq!['-']).len() > 0,
    decreases ws.len(),
{
    if ws.len() == 0 {
    } else if ws.len() == 1 {
        assert(is_slug_word(ws[0]));
    } else {
        let p = ws.drop_last();
        assert forall|k: int| 0 <= k < p.len() implies is_slug_word(#[trigger] p[k]) by {
            assert(p[k] == ws[k]);
        }
        lemma_join_slug(p);
        let a = join(p, seq!['-']);
        let w = ws.last();
        assert(is_slug_word(w));
        let j = a + seq!['-'] + w;
        assert(join(ws, seq!['-']) == j);
        assert forall|i: int| 0 <= i < j.len() implies is_slug_char(#[trigger] j[i]) by {
            if i < a.len() {
                assert(j[i] == a[i]);
            } else if i > a.len() {
                assert(j[i] == w[i - a.len() - 1]);
            }
        }
        assert(j[0] != '-') by {
            assert(j[0] == a[0]);
        }
        assert(j.last() == w.last());
        assert forall|i: int| 0 <= i < j.len() - 1 implies !(#[trigger] j[i] == '-' && j[i + 1]
            == '-') by {
            if i + 1 < a.len() {
                assert(j[i] == a[i] && j[i + 1] == a[i + 1]);
            } else if i + 1 == a.len() {
                assert(j[i] == a.last());
            } else if i == a.len() {
                assert(j[i + 1] == w[0]);
            } else {
                assert(j[i] == w[i - a.len() - 1]);
            }
        }
    }
}

/// What [`kebab`] gives is a slug.
pub proof fn lemma_kebab_slug(s: Seq<char>)
    ensures
        is_slug(kebab(s)),
{
    lemma_lower_no_upper(s);
    lemma_words_from_alnum(lower(s), seq![]);
    lemma_join_slug(words(lower(s), WordKind::AsciiAlnum));
}

proof fn lemma_strip_end_prefix(s: Seq<char>, set: Seq<char>)
    ensures
        exists|k: int| 0 <= k <= s.len() && strip_end(s, set) == s.take(k),
        strip_end(s, set).len() > 0 ==> !set.contains(strip_end(s, set).last()),
    decreases s.len(),
{
    if s.len() > 0 && set.contains(s.last()) {
        lemma_strip_end_prefix(s.drop_last(), set);
        let k = choose|k: int|
            0 <= k <= s.drop_last().len() && strip_end(s.drop_last(), set) == s.drop_last().take(k);
        assert(s.drop_last().take(k) =~= s.take(k));
    } else {
        assert(s.take(s.len() as int) =~= s);
    }
}

proof fn lemma_words_from_none(s: Seq<char>, cur: Seq<char>)
    ensures
        words_from(s, WordKind::AsciiAlnum, cur).len() == 0 <==> (cur.len() == 0 && forall|i: int|
            0 <= i < s.len() ==> !is_ascii_alnum(#[trigger] s[i])),
    decreases s.len(),
{
    if s.len() > 0 {
        let t = s.drop_first();
        if is_ascii_alnum(s[0]) {
            lemma_words_from_none(t, cur.push(s[0]));
        } else {
            lemma_words_from_none(t, seq![]);
            if forall|i: int| 0 <= i < t.len() ==> !is_ascii_alnum(#[trigger] t[i]) {
                assert forall|i: int| 0 <= i < s.len() implies !is_ascii_alnum(#[trigger] s[i]) by {
                    if i > 0 {
                        assert(s[i] == t[i - 1]);
                    }
                }
            } else {
                let i = choose|i: int| 0 <= i < t.len() && is_ascii_alnum(#[trigger] t[i]);
                assert(s[i + 1] == t[i]);
            }
        }
    }
}

/// The kebab form of `s` is empty exactly when `s`, lower-cased, has no
/// ASCII letter or digit.
pub proof fn lemma_kebab_empty(s: Seq<char>)
    ensures
        kebab(s).len() == 0 <==> forall|i: int|
            0 <= i < lower(s).len() ==> !is_ascii_alnum(#[trigger] lower(s)[i]),
{
    lemma_lower_no_upper(s);
    lemma_words_from_alnum(lower(s), seq![]);
    lemma_join_slug(words(lower(s), WordKind::AsciiAlnum));
    lemma_words_from_none(lower(s), seq![]);
}

/// Cutting trailing characters of `set` leaves something when the first
/// character is not one of them.
pub proof fn lemma_strip_end_keeps_head(s: Seq<char>, set: Seq<char>)
    requires
        s.len() > 0,
        !set.contains(s[0]),
    ensures
        strip_end(s, set).len() > 0,
    decreases s.len(),
{
    if set.contains(s.last()) {
        assert(s.len() > 1);
        assert(s.drop_last()[0] == s[0]);
        lemma_strip_end_keeps_head(s.drop_last(), set);
    }
}

proof fn lemma_join_cons(a: Seq<char>, ws: Seq<Seq<char>>, sep: Seq<char>)
    requires
        ws.len() > 0,
    ensures
        join(seq![a] + ws, sep) == a + sep + join(ws, sep),
    decreases ws.len(),
{
    let all = seq![a] + ws;
    assert(all.len() > 1);
    assert(join(all, sep) == join(all.drop_last(), sep) + sep + all.last());
    if ws.len() == 1 {
        assert(all.drop_last() =~= seq![a]);
        assert(all.last() == ws[0]);
        assert(join(seq![a], sep) == a);
        assert(join(ws, sep) == ws[0]);
    } else {
        assert(all.drop_last() =~= seq![a] + ws.drop_last());
        assert(all.last() == ws.last());
        lemma_join_cons(a, ws.drop_last(), sep);
        assert(join(ws, sep) == join(ws.drop_last(), sep) + sep + ws.last());
        assert(a + sep + join(ws.drop_last(), sep) + sep + ws.last() =~= a + sep + (join(
            ws.drop_last(),
            sep,
        ) + sep + ws.last()));
    }
}

proof fn lemma_words_join_back(s: Seq<char>, cur: Seq<char>)
    requires
        forall|i: int| 0 <= i < s.len() ==> is_slug_char(#[trigger] s[i]),
        forall|i: int| 0 <= i < cur.len() ==> is_ascii_alnum(#[trigger] cur[i]),
        forall|i: int| 0 <= i < s.len() - 1 ==> !(#[trigger] s[i] == '-' && s[i + 1] == '-'),
        s.len() > 0 ==> s.last() != '-',
        cur.len() == 0 && s.len() > 0 ==> s[0] != '-',
    ensures
        join(words_from(s, WordKind::AsciiAlnum, cur), seq!['-']) == cur + s,
    decreases s.len(),
{
    if s.len() == 0 {
        assert(cur + s =~= cur);
    } else {
        let t = s.drop_first();
        assert forall|i: int| 0 <= i < t.len() implies is_slug_char(#[trigger] t[i]) by {
            assert(t[i] == s[i + 1]);
        }
        assert forall|i: int| 0 <= i < t.len() - 1 implies !(#[trigger] t[i] == '-' && t[i + 1]
            == '-') by {
            assert(t[i] == s[i + 1] && t[i + 1] == s[i + 2]);
        }
        if t.len() > 0 {
            assert(t.last() == s.last());
        }
        if is_ascii_alnum(s[0]) {
            let c2 = cur.push(s[0]);
            assert forall|i: int| 0 <= i < c2.len() implies is_ascii_alnum(#[trigger] c2[i]) by {
                if i < cur.len() {
                    assert(c2[i] == cur[i]);
                }
            }
            lemma_words_join_back(t, c2);
            assert(c2 + t =~= cur + s);
        } else {
            assert(s[0] == '-');
            assert(s.len() > 1);
            assert(t[0] == s[1]);
            assert(!(s[0] == '-' && s[1] == '-'));
            lemma_words_join_back(t, seq![]);
            let ws = words_from(t, WordKind::AsciiAlnum, seq![]);
            assert(Seq::<char>::empty() + t =~= t);
            assert(ws.len() > 0);
            assert(words_from(s, WordKind::AsciiAlnum, cur) == seq![cur] + ws);
            lemma_join_cons(cur, ws, seq!['-']);
            assert(cur + seq!['-'] + t =~= cur + s);
        }
    }
}

proof fn lemma_lower_slug(s: Seq<char>)
    requires
        forall|i: int| 0 <= i < s.len() ==> is_slug_char(#[trigger] s[i]),
    ensures
        lower(s) == s,
    decreases s.len(),
{
    if s.len() > 0 {
        let t = s.drop_first();
        assert forall|i: int| 0 <= i < t.len() implies is_slug_char(#[trigger] t[i]) by {
            assert(t[i] == s[i + 1]);
        }
        lemma_lower_slug(t);
        assert(is_slug_char(s[0]));
        assert(lower_char(s[0]) == seq![s[0]]);
        assert(seq![s[0]] + t =~= s);
    }
}

/// A slug is its own kebab form.
pub proof fn lemma_kebab_of_slug(s: Seq<char>)
    requires
        is_slug(s),
    ensures
        kebab(s) == s,
{
    lemma_lower_slug(s);
    lemma_words_join_back(s, seq![]);
    assert(Seq::<char>::empty() + s =~= s);
}

/// A prefix of a slug without trailing `-` is a slug.
pub proof fn lemma_slug_cut(s: Seq<char>, n: int)
    requires
        is_slug(s),
        0 <= n <= s.len(),
    ensures
        is_slug(strip_end(s.take(n), seq!['-'])),
{
    lemma_strip_end_prefix(s.take(n), seq!['-']);
    let r = strip_end(s.take(n), seq!['-']);
    let k = choose|k: int| 0 <= k <= s.take(n).len() && r == s.take(n).take(k);
    assert(r =~= s.take(k));
    assert forall|i: int| 0 <= i < r.len() - 1 implies !(#[trigger] r[i] == '-' && r[i + 1] == '-') by {
        assert(r[i] == s[i] && r[i + 1] == s[i + 1]);
    }
    if r.len() > 0 {
        assert(r[0] == s[0]);
        assert(seq!['-'].contains('-')) by {
            assert(seq!['-'][0] == '-');
        }
    }
}

} // verus!
