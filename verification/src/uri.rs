//! The URI collaborator.  Request targets are parsed and rendered by
//! `rhymuri::Uri`; the value itself is carried through opaquely.

use rhymuri::Error as RhymuriError;
use vstd::prelude::*;

verus! {

#[verifier::external_type_specification]
#[verifier::external_body]
pub struct ExUri(rhymuri::Uri);

#[verifier::external_type_specification]
#[verifier::external_body]
pub struct ExRhymuriError(RhymuriError);

/// Whether `rhymuri::Uri::parse` accepts the given text as a URI.
pub uninterp spec fn uri_accepts(s: Seq<char>) -> bool;

/// The text that the URI collaborator renders for a URI value.
pub uninterp spec fn uri_text(u: rhymuri::Uri) -> Seq<char>;

/// The rendering of the URI parsed from the given text, a function of the
/// text alone.
pub uninterp spec fn uri_render_of(s: Seq<char>) -> Seq<char>;

/// Relies on rhymuri::Uri::parse: acceptance depends on the text alone, and
/// the accepted value renders as the canonical form of that text.
#[verifier::external_body]
pub fn uri_parse(s: &str) -> (r: Result<rhymuri::Uri, rhymuri::Error>)
    ensures
        r is Ok <==> uri_accepts(s@),
        r matches Ok(u) ==> uri_text(u) == uri_render_of(s@),
{
    rhymuri::Uri::parse(s)
}

/// Relies on rhymuri::Uri::default: an empty URI value, which renders as the
/// empty string; used as the target of a freshly constructed request.
#[verifier::external_body]
pub fn uri_default() -> (r: rhymuri::Uri)
    ensures
        uri_text(r) == Seq::<char>::empty(),
{
    rhymuri::Uri::default()
}

/// Relies on the Display implementation of rhymuri::Uri: the rendered text
/// is a function of the URI value alone.
#[verifier::external_body]
pub fn uri_to_string(u: &rhymuri::Uri) -> (r: String)
    ensures
        r@ == uri_text(*u),
{
    u.to_string()
}

} // verus!
