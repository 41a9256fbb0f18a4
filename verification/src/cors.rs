//! Which origins the local API answers across origins.
//!
//! An empty allow-list opens the API to any origin: the localhost bind, the
//! path policy and the approval gate are the real boundary. Once origins are
//! listed, the API is locked down to that list: only the listed origins that
//! are valid header values are admitted, and when none is, no cross-origin
//! caller is.

use vstd::prelude::*;

use crate::config::Config;
use crate::text::strings_view;

verus! {

/// The origins that cross-origin callers may come from.
#[derive(Debug)]
pub enum AllowedOrigins {
    Any,
    List(Vec<String>),
}

/// A character that may stand in an HTTP header value: a visible one
/// (from the space up, but not DEL) or a tab. The bytes of a character
/// outside ASCII are all at least 0x80, so they all qualify.
pub open spec fn header_char_ok(c: char) -> bool {
    (c as u32 >= 32 && c as u32 != 127) || c == '\t'
}

pub open spec fn header_text_ok(s: Seq<char>) -> bool {
    forall|i: int| 0 <= i < s.len() ==> header_char_ok(#[trigger] s[i])
}

/// `axum::http::HeaderValue::from_str` succeeds exactly when every byte of
/// the text is at least 32 and not 127, or is a tab; in a `&str` that is the
/// same as every character passing `header_char_ok`.
#[verifier::external_body]
fn header_value_accepts(s: &str) -> (r: bool)
    ensures
        r == header_text_ok(s@),
{
    axum::http::HeaderValue::from_str(s).is_ok()
}

/// The listed origins that are valid header values, in list order.
pub open spec fn valid_origins(os: Seq<Seq<char>>) -> Seq<Seq<char>>
    decreases os.len(),
{
    if os.len() == 0 {
        Seq::empty()
    } else {
        let rest = valid_origins(os.drop_last());
        if header_text_ok(os.last()) {
            rest.push(os.last())
        } else {
            rest
        }
    }
}

/// The origin policy of the configuration: any origin when none is listed,
/// else exactly the listed origins that are valid header values (possibly
/// none).
pub fn layer(cfg: &Config) -> (r: AllowedOrigins)
    ensures
        cfg.allowed_origins@.len() == 0 <==> r is Any,
        cfg.allowed_origins@.len() > 0 ==> (r matches AllowedOrigins::List(v) && strings_view(v@)
            == valid_origins(strings_view(cfg.allowed_origins@))),
{
    let origins = &cfg.allowed_origins;
    if origins.len() == 0 {
        return AllowedOrigins::Any;
    }
    let ghost all = strings_view(origins@);
    let mut kept: Vec<String> = Vec::new();
    let mut i: usize = 0;
    assert(all.take(0) =~= Seq::<Seq<char>>::empty());
    assert(strings_view(kept@) =~= Seq::<Seq<char>>::empty());
    while i < origins.len()
        invariant
            i <= origins@.len(),
            all == strings_view(origins@),
            strings_view(kept@) == valid_origins(all.take(i as int)),
        decreases origins.len() - i,
    {
        assert(all.take(i + 1).drop_last() =~= all.take(i as int));
        assert(all.take(i + 1).last() == origins@[i as int]@);
        if header_value_accepts(origins[i].as_str()) {
            let o = origins[i].clone();
            kept.push(o);
            assert(strings_view(kept@) =~= valid_origins(all.take(i as int)).push(o@));
        }
        i = i + 1;
    }
    assert(all.take(origins@.len() as int) =~= all);
    AllowedOrigins::List(kept)
}

} // verus!
