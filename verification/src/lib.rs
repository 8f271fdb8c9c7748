//! A personal note server: capture, search, organize and listen to notes.
//! This crate holds the server's decisions and text processing, with their
//! specifications.
pub mod background;
pub mod clock;
pub mod db;
pub mod mcp;
pub mod routes;
pub mod text;

use vstd::prelude::*;

use subtle::ConstantTimeEq;

verus! {

/// True when a request may reach the API: no access token is configured,
/// or the `Authorization` header is `Bearer ` followed by the token.
pub open spec fn spec_auth_allows(token: Seq<char>, authorization: Option<Seq<char>>) -> bool {
    token.len() == 0 || (authorization matches Some(h) && text::starts_with(h, "Bearer "@)
        && h.skip(7) == token)
}

/// `subtle::ConstantTimeEq::ct_eq` on byte slices, as a `bool`: true
/// exactly when the slices have the same length and the same bytes.
#[verifier::external_body]
fn ct_bytes_eq(a: &[u8], b: &[u8]) -> (r: bool)
    ensures
        r == (a@ == b@),
{
    bool::from(a.ct_eq(b))
}

/// Decides whether a request may reach the API (see [`spec_auth_allows`]);
/// the token is compared in constant time.
pub fn auth_allows(token: &str, authorization: Option<&str>) -> (b: bool)
    ensures
        b == spec_auth_allows(
            token@,
            match authorization {
                Some(h) => Some(h@),
                None => None,
            },
        ),
{
    proof {
        text::lemma_utf8_len_ge_len(token@);
    }
    if text::str_len(token) == 0 {
        return true;
    }
    let h = match authorization {
        None => return false,
        Some(h) => h,
    };
    if !text::str_starts_with(h, "Bearer ") {
        return false;
    }
    let hb = h.as_bytes();
    let tb = token.as_bytes();
    proof {
        reveal_strlit("Bearer ");
        let p = h@.take(7);
        let r = h@.skip(7);
        assert(p == "Bearer "@);
        assert(h@ =~= p + r);
        text::lemma_encode_concat(p, r);
        text::lemma_encode_len(p);
        reveal_with_fuel(text::utf8_len, 8);
        assert(text::utf8_len(p) == 7);
    }
    let mut rest: Vec<u8> = Vec::new();
    let mut i: usize = 7;
    while i < hb.len()
        invariant
            7 <= i <= hb@.len(),
            rest@ == hb@.subrange(7, i as int),
        decreases hb@.len() - i,
    {
        rest.push(hb[i]);
        assert(hb@.subrange(7, i + 1) =~= hb@.subrange(7, i as int).push(hb@[i as int]));
        i += 1;
    }
    let eq = ct_bytes_eq(rest.as_slice(), tb);
    proof {
        let r = h@.skip(7);
        assert(rest@ =~= vstd::utf8::encode_utf8(r));
        if eq {
            text::lemma_encode_injective(r, token@);
        }
    }
    eq
}

} // verus!
