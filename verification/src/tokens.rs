//! The token vocabulary of the rewritten stream, and its mathematical model.

use vstd::prelude::*;
use pulldown_cmark::Event;

verus! {

/// pulldown_cmark's event type, declared so that values of it can be carried
/// through the library; the verifier treats such a value as opaque.
#[verifier::external_type_specification]
#[verifier::external_body]
pub struct ExEvent<'a>(Event<'a>);

/// A token of the adapter's stream. `Text` carries the content of a markdown
/// text event as an owned string; `LinkStart` carries a link's destination
/// and title; every event the adapter never inspects is carried opaquely in
/// `Other`.
pub enum Token<'a> {
    Text(String),
    LinkStart(String, String),
    LinkEnd,
    Other(Event<'a>),
}

/// The model of a token: text content and link destination and title as
/// character sequences; all uninspected tokens collapse to `Other`.
#[verifier::ext_equal]
pub enum Tok {
    Text(Seq<char>),
    LinkStart(Seq<char>, Seq<char>),
    LinkEnd,
    Other,
}

impl<'a> View for Token<'a> {
    type V = Tok;

    open spec fn view(&self) -> Tok {
        match self {
            Token::Text(s) => Tok::Text(s@),
            Token::LinkStart(dest, title) => Tok::LinkStart(dest@, title@),
            Token::LinkEnd => Tok::LinkEnd,
            Token::Other(_) => Tok::Other,
        }
    }
}

} // verus!
