//! Resolving relative links (`url`).
use vstd::prelude::*;

verus! {

/// The address that `reference` names relative to `base`, serialized, as the
/// `url` crate resolves it; `None` where `base` is not an absolute URL or the
/// result is not a valid URL.
pub uninterp spec fn url_join(base: Seq<char>, reference: Seq<char>) -> Option<Seq<char>>;

/// `reference` resolved against `base` (`Url::parse` of `base`, then
/// `Url::join`, serialized).
#[verifier::external_body]
pub fn join_url(base: &str, reference: &str) -> (r: Option<String>)
    ensures
        match r {
            Some(u) => url_join(base@, reference@) == Some(u@),
            None => url_join(base@, reference@) is None,
        },
{
    let base = url::Url::parse(base).ok()?;
    base.join(reference).ok().map(|u| u.to_string())
}

} // verus!
