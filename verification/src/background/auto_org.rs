//! Auto-organization: when a note is organized by the model, what it is
//! asked, and what is taken from its answer.
use vstd::prelude::*;

use crate::text::{chars_of, push_str, str_eq, str_views, string_of};

verus! {

/// True when one of the note's tags was given by the model.
pub open spec fn spec_has_ai_tag(sources: Seq<Seq<char>>) -> bool {
    sources.contains("ai"@)
}

/// Whether a note already carries a tag the model gave it (the sources of
/// its tags are given); such a note is not organized again.
pub fn has_ai_tag(sources: &Vec<String>) -> (b: bool)
    ensures
        b == spec_has_ai_tag(str_views(sources@)),
{
    let mut i: usize = 0;
    while i < sources.len()
        invariant
            i <= sources@.len(),
            forall|j: int| 0 <= j < i ==> sources@[j]@ != "ai"@,
        decreases sources@.len() - i,
    {
        if str_eq(sources[i].as_str(), "ai") {
            assert(str_views(sources@)[i as int] == "ai"@);
            return true;
        }
        i += 1;
    }
    assert(!str_views(sources@).contains("ai"@)) by {
        if str_views(sources@).contains("ai"@) {
            let k = choose|k: int|
                0 <= k < str_views(sources@).len() && str_views(sources@)[k] == "ai"@;
            assert(sources@[k]@ == "ai"@);
        }
    }
    false
}

/// What the model is asked about a note.
pub fn organize_prompt(content: &str) -> (r: String)
    ensures
        r@ == "Organize this note:\n\n"@ + content@,
{
    let mut v: Vec<char> = Vec::new();
    push_str(&mut v, "Organize this note:\n\n");
    push_str(&mut v, content);
    string_of(v.as_slice())
}

/// One block of the model's answer, as far as organizing reads it: whether
/// it is a tool call, the tool's name, and the `title`, `summary` and
/// `tags` of its input when they are strings (tags: each array element
/// that is a string, `None` for the others).
pub struct AnswerBlock {
    pub is_tool_use: bool,
    pub name: String,
    pub title: Option<String>,
    pub summary: Option<String>,
    pub tags: Option<Vec<Option<String>>>,
}

/// What organizing a note gives it.
pub struct Organized {
    pub title: String,
    pub summary: String,
    pub tags: Vec<String>,
}

/// Index of the first block that calls the organizing tool.
pub open spec fn first_organize_call(bs: Seq<AnswerBlock>) -> Option<nat>
    decreases bs.len(),
{
    if bs.len() == 0 {
        None
    } else if bs[0].is_tool_use && bs[0].name@ == "organize_note"@ {
        Some(0)
    } else {
        match first_organize_call(bs.drop_first()) {
            Some(k) => Some(k + 1),
            None => None,
        }
    }
}

/// The string tags of a tool call, in order.
pub open spec fn string_tags(tags: Seq<Option<String>>) -> Seq<Seq<char>>
    decreases tags.len(),
{
    if tags.len() == 0 {
        seq![]
    } else {
        string_tags(tags.drop_last()) + match tags.last() {
            Some(t) => seq![t@],
            None => Seq::<Seq<char>>::empty(),
        }
    }
}

/// The tags taken from a block.
pub open spec fn block_tags(b: AnswerBlock) -> Seq<Seq<char>> {
    match b.tags {
        Some(ts) => string_tags(ts@),
        None => seq![],
    }
}

/// True when `r` is what the model's answer gives: the title, summary and
/// tags of the first organizing call, when it has a title, a summary and
/// at least one tag; nothing otherwise.
pub open spec fn organized_from(bs: Seq<AnswerBlock>, r: Option<Organized>) -> bool {
    match first_organize_call(bs) {
        None => r is None,
        Some(k) => {
            let b = bs[k as int];
            if b.title is Some && b.summary is Some && block_tags(b).len() > 0 {
                r matches Some(o) && o.title@ == b.title->0@ && o.summary@ == b.summary->0@
                    && str_views(o.tags@) == block_tags(b)
            } else {
                r is None
            }
        },
    }
}

proof fn lemma_first_organize_call_skip(bs: Seq<AnswerBlock>, i: int)
    requires
        0 <= i <= bs.len(),
        forall|j: int|
            0 <= j < i ==> !(bs[j].is_tool_use && #[trigger] bs[j].name@ == "organize_note"@),
    ensures
        first_organize_call(bs) == match first_organize_call(bs.skip(i)) {
            Some(k) => Some((k + i) as nat),
            None => None,
        },
    decreases i,
{
    if i == 0 {
        assert(bs.skip(0) =~= bs);
    } else {
        assert(!(bs[0].is_tool_use && bs[0].name@ == "organize_note"@));
        lemma_first_organize_call_skip(bs.drop_first(), i - 1);
        assert(bs.drop_first().skip(i - 1) =~= bs.skip(i));
    }
}

fn tags_of_block(b: &AnswerBlock) -> (r: Vec<String>)
    ensures
        str_views(r@) == block_tags(*b),
{
    let mut r: Vec<String> = Vec::new();
    match &b.tags {
        Some(ts) => {
            let mut i: usize = 0;
            assert(ts@.take(0) =~= Seq::<Option<String>>::empty());
            while i < ts.len()
                invariant
                    i <= ts@.len(),
                    str_views(r@) == string_tags(ts@.take(i as int)),
                decreases ts@.len() - i,
            {
                assert(ts@.take(i + 1).drop_last() =~= ts@.take(i as int));
                assert(ts@.take(i + 1).last() == ts@[i as int]);
                let ghost o = str_views(r@);
                match &ts[i] {
                    Some(t) => {
                        r.push(t.clone());
                        assert(str_views(r@) =~= o + seq![t@]);
                    },
                    None => {
                        assert(str_views(r@) =~= o + Seq::<Seq<char>>::empty());
                    },
                }
                i += 1;
            }
            assert(ts@.take(ts@.len() as int) =~= ts@);
        },
        None => {
            assert(str_views(r@) =~= Seq::<Seq<char>>::empty());
        },
    }
    r
}

/// Takes the title, summary and tags from the model's answer (see
/// [`organized_from`]).
pub fn organize_result(blocks: &Vec<AnswerBlock>) -> (r: Option<Organized>)
    ensures
        organized_from(blocks@, r),
{
    let mut i: usize = 0;
    while i < blocks.len()
        invariant
            i <= blocks@.len(),
            forall|j: int|
                0 <= j < i ==> !(blocks@[j].is_tool_use && #[trigger] blocks@[j].name@
                    == "organize_note"@),
        decreases blocks@.len() - i,
    {
        let b = &blocks[i];
        if b.is_tool_use && str_eq(b.name.as_str(), "organize_note") {
            proof {
                lemma_first_organize_call_skip(blocks@, i as int);
                assert(blocks@.skip(i as int)[0] == blocks@[i as int]);
            }
            let tags = tags_of_block(b);
            return match (&b.title, &b.summary) {
                (Some(t), Some(s)) => if tags.len() > 0 {
                    Some(Organized { title: t.clone(), summary: s.clone(), tags })
                } else {
                    None
                },
                _ => None,
            };
        }
        i += 1;
    }
    proof {
        lemma_first_organize_call_skip(blocks@, i as int);
        assert(blocks@.skip(i as int) =~= Seq::<AnswerBlock>::empty());
    }
    None
}

/// The message of an answer that lacks a required field: the model's
/// provider name, then `did not return all required fields (title,
/// summary, tags)`.
pub fn missing_fields_message(model: &str) -> (r: String)
    ensures
        r@ == model@ + " did not return all required fields (title, summary, tags)"@,
{
    let mut v = chars_of(model);
    push_str(&mut v, " did not return all required fields (title, summary, tags)");
    string_of(v.as_slice())
}

/// The message of a refused request to the model (`status` as the HTTP
/// status displays).
pub fn api_error_message(service: &str, status: &str, body: &str) -> (r: String)
    ensures
        r@ == service@ + " API error "@ + status@ + ": "@ + body@,
{
    let mut v = chars_of(service);
    push_str(&mut v, " API error ");
    push_str(&mut v, status);
    push_str(&mut v, ": ");
    push_str(&mut v, body);
    string_of(v.as_slice())
}

} // verus!
