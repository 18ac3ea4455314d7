//! The HTML document tree: parsing, CSS selection and text extraction.
//!
//! The tree itself is built and searched by the `scraper` crate. Its types are
//! opaque here; what a call returns is given a name, and the contracts of the
//! functions in this module are stated over those names.

use scraper::{ElementRef, Html, Selector};
use vstd::prelude::*;

verus! {

/// `scraper::Html`: a parsed document tree, opaque to the verifier.
#[verifier::external_type_specification]
#[verifier::external_body]
pub struct ExHtml(scraper::Html);

/// `scraper::ElementRef`: a handle to one element of a document tree, opaque to
/// the verifier.
#[verifier::external_type_specification]
#[verifier::external_body]
pub struct ExElementRef<'a>(scraper::ElementRef<'a>);

/// `scraper::Selector`: a compiled CSS selector group, opaque to the verifier.
#[verifier::external_type_specification]
#[verifier::external_body]
pub struct ExSelector(scraper::Selector);

/// The document tree that `scraper::Html::parse_document` builds from `text`.
pub uninterp spec fn document_of(text: Seq<char>) -> Html;

/// The selector that `scraper::Selector::parse` compiles from `css`, or `None`
/// where it rejects `css`.
pub uninterp spec fn selector_of(css: Seq<char>) -> Option<Selector>;

/// The elements of `doc` that `scraper::Html::select` yields for `selector`,
/// in the order in which it yields them.
pub uninterp spec fn document_matches(doc: Html, selector: Selector) -> Seq<ElementRef<'static>>;

/// The descendants of `scope` that `scraper::ElementRef::select` yields for
/// `selector`, in the order in which it yields them.
pub uninterp spec fn element_matches(scope: ElementRef<'static>, selector: Selector) -> Seq<ElementRef<'static>>;

/// The text nodes below `element` that `scraper::ElementRef::text` yields,
/// joined in the order in which it yields them.
pub uninterp spec fn text_of(element: ElementRef<'static>) -> Seq<char>;

/// Calls `scraper::Html::parse_document`. The parser accepts every input and
/// builds a tree that depends on the text alone; the contract names that tree.
#[verifier::external_body]
pub(crate) fn parse_document(text: &str) -> (doc: Html)
    ensures
        doc == document_of(text@),
{
    Html::parse_document(text)
}

/// Calls `scraper::Selector::parse`, and keeps the selector where the parser
/// accepts `css`. The outcome depends on `css` alone; the contract names it.
#[verifier::external_body]
pub(crate) fn parse_selector(css: &str) -> (selector: Option<Selector>)
    ensures
        selector == selector_of(css@),
{
    Selector::parse(css).ok()
}

/// Calls `scraper::Html::select` and collects what it yields: the elements of
/// the tree that match `selector`, in the order of the iterator.
#[verifier::external_body]
pub(crate) fn select_in_document<'a>(doc: &'a Html, selector: &Selector) -> (found: Vec<ElementRef<'a>>)
    ensures
        found@ == document_matches(*doc, *selector),
{
    doc.select(selector).collect()
}

/// Calls `scraper::ElementRef::select` and collects what it yields: the
/// descendants of `scope` that match `selector`, in the order of the iterator.
#[verifier::external_body]
pub(crate) fn select_in_element<'a>(scope: ElementRef<'a>, selector: &Selector) -> (found: Vec<
    ElementRef<'a>,
>)
    ensures
        found@ == element_matches(scope, *selector),
{
    scope.select(selector).collect()
}

/// Calls `scraper::ElementRef::text` and joins what it yields: the text nodes
/// below `element`, in the order of the iterator.
#[verifier::external_body]
pub(crate) fn element_text(element: ElementRef<'_>) -> (text: String)
    ensures
        text@ == text_of(element),
{
    element.text().collect()
}

} // verus!
