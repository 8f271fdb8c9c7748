//! Records stored in the database, and the text the queries are built from.
use vstd::prelude::*;

verus! {

/// A captured note.
#[derive(Clone, Debug)]
pub struct Note {
    pub id: i64,
    pub content: String,
    pub content_type: String,
    pub source_type: String,
    pub source_url: Option<String>,
    pub title: Option<String>,
    pub summary: Option<String>,
    pub created_at: String,
    pub updated_at: String,
    pub tags: Vec<String>,
}

/// A tag.
#[derive(Clone, Debug)]
pub struct Tag {
    pub id: i64,
    pub name: String,
}

/// A tag with the number of notes that carry it.
#[derive(Clone, Debug)]
pub struct TagWithCount {
    pub id: i64,
    pub name: String,
    pub count: i64,
}

} // verus!

verus! {

// ---------------------------------------------------------------------------
// Full-text search query
// ---------------------------------------------------------------------------

/// A search word as a quoted full-text phrase: its double quotes removed,
/// the rest between double quotes, so that operator characters match
/// literally.
pub open spec fn quoted_token(w: Seq<char>) -> Seq<char> {
    seq!['"'] + crate::text::replace_all(w, seq!['"'], seq![]) + seq!['"']
}

/// The quoted phrases of the words of `query`, in order.
pub open spec fn quoted_tokens(ws: Seq<Seq<char>>) -> Seq<Seq<char>> {
    ws.map_values(|w: Seq<char>| quoted_token(w))
}

/// The full-text query for a search string: each whitespace-separated
/// word quoted (see [`quoted_token`]), joined by spaces; empty when the
/// search has no word.
pub open spec fn spec_fts_query(query: Seq<char>) -> Seq<char> {
    crate::text::join(
        quoted_tokens(crate::text::words(query, crate::text::WordKind::NonWhitespace)),
        seq![' '],
    )
}

/// Builds the full-text query for a search string (see [`spec_fts_query`]).
pub fn fts_query(query: &str) -> (r: String)
    ensures
        r@ == spec_fts_query(query@),
{
    let v = crate::text::chars_of(query);
    let ws = crate::text::words_chars(v.as_slice(), crate::text::WordKind::NonWhitespace);
    let ghost wv = crate::text::views(ws@);
    let quote = ['"'];
    let nothing: Vec<char> = Vec::new();
    assert(quote@ =~= seq!['"']);
    assert(nothing@ =~= Seq::<char>::empty());
    let mut qs: Vec<Vec<char>> = Vec::new();
    let mut i: usize = 0;
    while i < ws.len()
        invariant
            i <= ws@.len(),
            wv == crate::text::views(ws@),
            quote@ == seq!['"'],
            nothing@ == Seq::<char>::empty(),
            crate::text::views(qs@) =~= quoted_tokens(wv.take(i as int)),
        decreases ws@.len() - i,
    {
        let mut t: Vec<char> = Vec::new();
        t.push('"');
        let inner = crate::text::replace_all_chars(ws[i].as_slice(), &quote, nothing.as_slice());
        crate::text::push_all(&mut t, inner.as_slice());
        t.push('"');
        assert(ws@[i as int]@ == wv[i as int]);
        assert(t@ =~= quoted_token(wv[i as int]));
        let ghost o = crate::text::views(qs@);
        qs.push(t);
        assert(crate::text::views(qs@) =~= o.push(quoted_token(wv[i as int])));
        assert(wv.take(i + 1) =~= wv.take(i as int).push(wv[i as int]));
        i += 1;
    }
    assert(wv.take(ws@.len() as int) =~= wv);
    let sep = [' '];
    assert(sep@ =~= seq![' ']);
    let j = crate::text::join_chars(&qs, &sep);
    crate::text::string_of(j.as_slice())
}

/// `n` question marks separated by commas, the placeholders of an `IN`
/// list of `n` values.
pub open spec fn spec_placeholders(n: nat) -> Seq<char>
    decreases n,
{
    if n == 0 {
        seq![]
    } else if n == 1 {
        seq!['?']
    } else {
        spec_placeholders((n - 1) as nat) + seq![',', '?']
    }
}

/// Placeholders of an `IN` list of `n` values (see [`spec_placeholders`]).
pub fn placeholders(n: usize) -> (r: String)
    ensures
        r@ == spec_placeholders(n as nat),
{
    let mut v: Vec<char> = Vec::new();
    let mut i: usize = 0;
    while i < n
        invariant
            i <= n,
            v@ == spec_placeholders(i as nat),
        decreases n - i,
    {
        if i > 0 {
            v.push(',');
        }
        v.push('?');
        assert(v@ =~= spec_placeholders((i + 1) as nat));
        i += 1;
    }
    crate::text::string_of(v.as_slice())
}

// ---------------------------------------------------------------------------
// Grouping rows by owner
// ---------------------------------------------------------------------------

/// The names of the rows owned by `id`, in row order.
pub open spec fn names_of(rows: Seq<(i64, String)>, id: i64) -> Seq<Seq<char>>
    decreases rows.len(),
{
    if rows.len() == 0 {
        seq![]
    } else {
        names_of(rows.drop_last(), id) + if rows.last().0 == id {
            seq![rows.last().1@]
        } else {
            Seq::<Seq<char>>::empty()
        }
    }
}

/// The names of the rows owned by `id`, in row order.
pub fn names_for(rows: &Vec<(i64, String)>, id: i64) -> (r: Vec<String>)
    ensures
        crate::text::str_views(r@) == names_of(rows@, id),
{
    let mut r: Vec<String> = Vec::new();
    let mut i: usize = 0;
    assert(rows@.take(0) =~= Seq::<(i64, String)>::empty());
    while i < rows.len()
        invariant
            i <= rows@.len(),
            crate::text::str_views(r@) == names_of(rows@.take(i as int), id),
        decreases rows@.len() - i,
    {
        assert(rows@.take(i + 1).drop_last() =~= rows@.take(i as int));
        assert(rows@.take(i + 1).last() == rows@[i as int]);
        let ghost o = crate::text::str_views(r@);
        if rows[i].0 == id {
            r.push(rows[i].1.clone());
            assert(crate::text::str_views(r@) =~= o + seq![rows@[i as int].1@]);
        } else {
            assert(crate::text::str_views(r@) =~= o + Seq::<Seq<char>>::empty());
        }
        i += 1;
    }
    assert(rows@.take(rows@.len() as int) =~= rows@);
    r
}

/// The values of the rows owned by `id`, in row order.
pub open spec fn values_of(rows: Seq<(i64, i64)>, id: i64) -> Seq<i64>
    decreases rows.len(),
{
    if rows.len() == 0 {
        seq![]
    } else {
        values_of(rows.drop_last(), id) + if rows.last().0 == id {
            seq![rows.last().1]
        } else {
            Seq::<i64>::empty()
        }
    }
}

/// The values of the rows owned by `id`, in row order (the note ids of an
/// episode, from rows of episode id and note id).
pub fn values_for(rows: &Vec<(i64, i64)>, id: i64) -> (r: Vec<i64>)
    ensures
        r@ == values_of(rows@, id),
{
    let mut r: Vec<i64> = Vec::new();
    let mut i: usize = 0;
    assert(rows@.take(0) =~= Seq::<(i64, i64)>::empty());
    while i < rows.len()
        invariant
            i <= rows@.len(),
            r@ == values_of(rows@.take(i as int), id),
        decreases rows@.len() - i,
    {
        assert(rows@.take(i + 1).drop_last() =~= rows@.take(i as int));
        assert(rows@.take(i + 1).last() == rows@[i as int]);
        let ghost o = r@;
        if rows[i].0 == id {
            r.push(rows[i].1);
            assert(r@ =~= o + seq![rows@[i as int].1]);
        } else {
            assert(r@ =~= o + Seq::<i64>::empty());
        }
        i += 1;
    }
    assert(rows@.take(rows@.len() as int) =~= rows@);
    r
}

/// Gives each note the tag names of the rows (note id, tag name) that
/// belong to it, in row order; a note without rows keeps its tags.
pub fn populate_tags(notes: Vec<Note>, rows: &Vec<(i64, String)>) -> (r: Vec<Note>)
    ensures
        r@.len() == notes@.len(),
        forall|i: int|
            0 <= i < r@.len() ==> {
                let n = #[trigger] r@[i];
                let o = notes@[i];
                &&& n.id == o.id
                &&& n.content == o.content
                &&& n.title == o.title
                &&& n.summary == o.summary
                &&& n.source_type == o.source_type
                &&& n.source_url == o.source_url
                &&& n.created_at == o.created_at
                &&& n.updated_at == o.updated_at
                &&& n.content_type == o.content_type
                &&& crate::text::str_views(n.tags@) == if names_of(rows@, o.id).len() > 0 {
                    names_of(rows@, o.id)
                } else {
                    crate::text::str_views(o.tags@)
                }
            },
{
    let ghost all = notes@;
    let total = notes.len();
    assert(all.len() == total);
    let mut rest = notes;
    let mut out: Vec<Note> = Vec::new();
    let mut k: usize = 0;
    assert(all.skip(0) =~= all);
    while rest.len() > 0
        invariant
            k + rest@.len() == all.len(),
            all.len() <= usize::MAX,
            rest@ == all.skip(k as int),
            out@.len() == k,
            forall|i: int|
                0 <= i < k ==> {
                    let n = #[trigger] out@[i];
                    let o = all[i];
                    &&& n.id == o.id
                    &&& n.content == o.content
                    &&& n.title == o.title
                    &&& n.summary == o.summary
                    &&& n.source_type == o.source_type
                    &&& n.source_url == o.source_url
                    &&& n.created_at == o.created_at
                    &&& n.updated_at == o.updated_at
                    &&& n.content_type == o.content_type
                    &&& crate::text::str_views(n.tags@) == if names_of(rows@, o.id).len() > 0 {
                        names_of(rows@, o.id)
                    } else {
                        crate::text::str_views(o.tags@)
                    }
                },
        decreases rest@.len(),
    {
        let mut n = rest.remove(0);
        assert(n == all[k as int]);
        assert(rest@ =~= all.skip(k + 1));
        let names = names_for(rows, n.id);
        if names.len() > 0 {
            n.tags = names;
        }
        out.push(n);
        k += 1;
    }
    out
}

/// Why an embedding cannot be stored or searched with, if it cannot: the
/// vector index takes 768 dimensions.
pub fn embedding_dims_error(n: usize) -> (r: Option<String>)
    ensures
        n == 768 <==> r is None,
        r matches Some(m) ==> m@ == "Embedding must be 768 dimensions, got "@
            + crate::text::nat_digits(n as nat),
{
    if n == 768 {
        None
    } else {
        let mut v: Vec<char> = Vec::new();
        crate::text::push_str(&mut v, "Embedding must be 768 dimensions, got ");
        let d = crate::text::u64_digits(n as u64);
        crate::text::push_all(&mut v, d.as_slice());
        Some(crate::text::string_of(v.as_slice()))
    }
}

/// Why a query embedding cannot be searched with, if it cannot: the vector
/// index takes 768 dimensions.
pub fn query_dims_error(n: usize) -> (r: Option<String>)
    ensures
        n == 768 <==> r is None,
        r matches Some(m) ==> m@ == "Query embedding must be 768 dimensions, got "@
            + crate::text::nat_digits(n as nat),
{
    if n == 768 {
        None
    } else {
        let mut v: Vec<char> = Vec::new();
        crate::text::push_str(&mut v, "Query embedding must be 768 dimensions, got ");
        let d = crate::text::u64_digits(n as u64);
        crate::text::push_all(&mut v, d.as_slice());
        Some(crate::text::string_of(v.as_slice()))
    }
}

} // verus!
