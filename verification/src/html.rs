//! The page, as the `scraper` crate parses and queries it.
//!
//! A page is known by its text, and an element by the page and the steps
//! that reach it: from the root, or from the elements that a CSS selector
//! picks, or from its parent. What `scraper` gives for each step is named
//! here and not written out; the parsers state what they return over those
//! names, and hand what they read to functions with exact contracts.

use vstd::prelude::*;
use crate::error::ParseError;
use crate::text::{opt_view, seq_view};

verus! {

#[verifier::external_type_specification]
#[verifier::external_body]
pub struct ExHtml(scraper::Html);

#[verifier::external_type_specification]
#[verifier::external_body]
pub struct ExSelector(scraper::Selector);

#[verifier::external_type_specification]
#[verifier::external_body]
pub struct ExElementRef<'a>(scraper::ElementRef<'a>);

// ---------------------------------------------------------------------------
// Pages and their elements, as values
// ---------------------------------------------------------------------------

/// How an element is reached: from the root element, from an element
/// among the ones a CSS selector picks (by its position in document order),
/// or from its parent.
pub ghost enum Step {
    /// The root element of the page.
    Root,
    /// The `i`-th element of the whole page that the selector picks.
    InDocument(Seq<char>, int),
    /// The `i`-th descendant that the selector picks.
    Pick(Seq<char>, int),
    /// The parent, when it is an element.
    Parent,
}

/// Where an element is: the text of its page and the steps that reach it.
pub ghost struct Spot {
    pub page: Seq<char>,
    pub at: Seq<Step>,
}

/// A page: the document that `scraper::Html::parse_document` builds from
/// its text.
pub struct Page {
    html: scraper::Html,
    text: Ghost<Seq<char>>,
}

impl View for Page {
    type V = Seq<char>;

    closed spec fn view(&self) -> Seq<char> {
        self.text@
    }
}

/// An element of a page.
pub struct Element<'a> {
    el: scraper::ElementRef<'a>,
    spot: Ghost<Spot>,
}

impl<'a> View for Element<'a> {
    type V = Spot;

    closed spec fn view(&self) -> Spot {
        self.spot@
    }
}

/// A compiled CSS selector.
pub struct Css {
    sel: scraper::Selector,
    text: Ghost<Seq<char>>,
}

impl View for Css {
    type V = Seq<char>;

    closed spec fn view(&self) -> Seq<char> {
        self.text@
    }
}

/// Whether `scraper::Selector::parse` accepts `css`.
pub uninterp spec fn css_compiles(css: Seq<char>) -> bool;

/// How many elements of the page with this text `scraper::Html::select`
/// picks with `css`.
pub uninterp spec fn document_picks(page: Seq<char>, css: Seq<char>) -> nat;

/// How many descendants of the element at `at` `scraper::ElementRef::select`
/// picks with `css`.
pub uninterp spec fn element_picks(page: Seq<char>, at: Seq<Step>, css: Seq<char>) -> nat;

/// The text nodes under the element at `at`, in order
/// (`scraper::ElementRef::text`).
pub uninterp spec fn texts_at(page: Seq<char>, at: Seq<Step>) -> Seq<Seq<char>>;

/// The value of attribute `name` of the element at `at`
/// (`scraper::ElementRef::attr`).
pub uninterp spec fn attribute_at(page: Seq<char>, at: Seq<Step>, name: Seq<char>) -> Option<
    Seq<char>,
>;

/// Whether the parent of the element at `at` is an element
/// (`ego_tree::NodeRef::parent`, then `scraper::ElementRef::wrap`).
pub uninterp spec fn has_parent_element(page: Seq<char>, at: Seq<Step>) -> bool;

fn attach<'a>(el: scraper::ElementRef<'a>, spot: Ghost<Spot>) -> (r: Element<'a>)
    ensures
        r@ == spot@,
{
    Element { el, spot }
}

/// Calls `scraper::Html::parse_document(text)`. The contract claims that
/// the page is taken by its text.
#[verifier::external_body]
pub(crate) fn page_of(text: &str) -> (r: Page)
    ensures
        r@ == text@,
{
    Page { html: scraper::Html::parse_document(text), text: Ghost(text@) }
}

/// Calls `scraper::Selector::parse(css)`. The contract claims that it
/// succeeds exactly when `css_compiles`, and keeps the text of the selector.
#[verifier::external_body]
pub(crate) fn compile_css(css: &str) -> (r: Option<Css>)
    ensures
        r is Some <==> css_compiles(css@),
        r matches Some(c) ==> c@ == css@,
{
    scraper::Selector::parse(css).ok().map(|sel| Css { sel, text: Ghost(css@) })
}

/// Calls `scraper::Html::root_element`. A page that
/// `scraper::Html::parse_document` built always has its `<html>` element.
#[verifier::external_body]
pub(crate) fn root(page: &Page) -> (r: Element)
    ensures
        r@ == (Spot { page: page@, at: seq![Step::Root] }),
{
    attach(page.html.root_element(), Ghost(Spot { page: page.text@, at: seq![Step::Root] }))
}

/// Calls `scraper::Html::select`: the elements of the page that `css`
/// picks, in document order. The contract claims that they are
/// `document_picks` many, each reached by its position.
#[verifier::external_body]
pub(crate) fn pick_in_document<'a>(page: &'a Page, css: &Css) -> (r: Vec<Element<'a>>)
    ensures
        r@.len() == document_picks(page@, css@),
        forall|i: int|
            0 <= i < r@.len() ==> (#[trigger] r@[i])@ == (Spot {
                page: page@,
                at: seq![Step::InDocument(css@, i)],
            }),
{
    page.html.select(&css.sel).enumerate().map(
        |(i, el)|
            attach(el, Ghost(Spot { page: page.text@, at: seq![Step::InDocument(css.text@, i as int)] })),
    ).collect()
}

/// Calls `scraper::ElementRef::select`: the descendants of `from` that
/// `css` picks, in document order. The contract claims that they are
/// `element_picks` many, each reached by its position.
#[verifier::external_body]
pub(crate) fn pick<'a>(from: &Element<'a>, css: &Css) -> (r: Vec<Element<'a>>)
    ensures
        r@.len() == element_picks(from@.page, from@.at, css@),
        forall|i: int|
            0 <= i < r@.len() ==> (#[trigger] r@[i])@ == (Spot {
                page: from@.page,
                at: from@.at.push(Step::Pick(css@, i)),
            }),
{
    from.el.select(&css.sel).enumerate().map(
        |(i, el)|
            attach(
                el,
                Ghost(Spot { page: from.spot@.page, at: from.spot@.at.push(Step::Pick(css.text@, i as int)) }),
            ),
    ).collect()
}

/// Calls `scraper::ElementRef::text`: the text nodes under `e`, in order.
#[verifier::external_body]
pub(crate) fn texts(e: &Element) -> (r: Vec<String>)
    ensures
        seq_view(r@) == texts_at(e@.page, e@.at),
{
    e.el.text().map(|t| t.to_string()).collect()
}

/// Calls `scraper::ElementRef::attr`: the value of attribute `name` of `e`.
#[verifier::external_body]
pub(crate) fn attr(e: &Element, name: &str) -> (r: Option<String>)
    ensures
        opt_view(r) == attribute_at(e@.page, e@.at, name@),
{
    e.el.attr(name).map(|v| v.to_string())
}

/// Calls `ego_tree::NodeRef::parent` on `e` and keeps the parent when it is
/// an element (`scraper::ElementRef::wrap`).
#[verifier::external_body]
pub(crate) fn parent<'a>(e: &Element<'a>) -> (r: Option<Element<'a>>)
    ensures
        r is Some <==> has_parent_element(e@.page, e@.at),
        r matches Some(p) ==> p@ == (Spot { page: e@.page, at: e@.at.push(Step::Parent) }),
{
    e.el.parent().and_then(scraper::ElementRef::wrap).map(
        |el| attach(el, Ghost(Spot { page: e.spot@.page, at: e.spot@.at.push(Step::Parent) })),
    )
}

// ---------------------------------------------------------------------------
// What the parsers read, stated over the page
// ---------------------------------------------------------------------------

/// The spot of the `i`-th descendant that `css` picks.
pub open spec fn picked(s: Spot, css: Seq<char>, i: int) -> Spot {
    Spot { page: s.page, at: s.at.push(Step::Pick(css, i)) }
}

/// The spot of the first descendant that `css` picks, if there is one.
pub open spec fn first_picked(s: Spot, css: Seq<char>) -> Option<Spot> {
    if element_picks(s.page, s.at, css) > 0 {
        Some(picked(s, css, 0))
    } else {
        None
    }
}

/// The spot of the `i`-th element of the page that `css` picks.
pub open spec fn in_document(page: Seq<char>, css: Seq<char>, i: int) -> Spot {
    Spot { page, at: seq![Step::InDocument(css, i)] }
}

/// The elements of the page that `css` picks, in document order.
pub open spec fn document_spots(page: Seq<char>, css: Seq<char>) -> Seq<Spot> {
    Seq::new(document_picks(page, css), |i: int| in_document(page, css, i))
}

/// The first element of the page that `css` picks, if there is one.
pub open spec fn first_in_document(page: Seq<char>, css: Seq<char>) -> Option<Spot> {
    if document_picks(page, css) > 0 {
        Some(in_document(page, css, 0))
    } else {
        None
    }
}

/// The descendants of an element that `css` picks, in document order.
pub open spec fn picked_spots(s: Spot, css: Seq<char>) -> Seq<Spot> {
    Seq::new(element_picks(s.page, s.at, css), |i: int| picked(s, css, i))
}

/// The parent of an element, when it is an element.
pub open spec fn parent_of(s: Spot) -> Option<Spot> {
    if has_parent_element(s.page, s.at) {
        Some(Spot { page: s.page, at: s.at.push(Step::Parent) })
    } else {
        None
    }
}

/// Elements taken by their spots.
pub open spec fn spots(v: Seq<Element>) -> Seq<Spot> {
    v.map_values(|e: Element| e@)
}

/// The text nodes of an element.
pub open spec fn texts_of(s: Spot) -> Seq<Seq<char>> {
    texts_at(s.page, s.at)
}

/// An attribute of an element.
pub open spec fn attribute_of(s: Spot, name: Seq<char>) -> Option<Seq<char>> {
    attribute_at(s.page, s.at, name)
}

/// Attribute `name` of the parent of the parent of an element, when both
/// are elements.
pub open spec fn grandparent_attribute(s: Spot, name: Seq<char>) -> Option<Seq<char>> {
    match parent_of(s) {
        Some(p) => match parent_of(p) {
            Some(g) => attribute_of(g, name),
            None => None,
        },
        None => None,
    }
}

/// The text nodes of the first descendant that `css` picks.
pub open spec fn first_texts(s: Spot, css: Seq<char>) -> Option<Seq<Seq<char>>> {
    match first_picked(s, css) {
        Some(f) => Some(texts_of(f)),
        None => None,
    }
}

/// The first descendant of `e` that `c` picks.
pub(crate) fn first_in<'a>(e: &Element<'a>, c: &Css) -> (r: Option<Element<'a>>)
    ensures
        match r {
            Some(f) => first_picked(e@, c@) == Some(f@),
            None => first_picked(e@, c@) is None,
        },
{
    let all = pick(e, c);
    if all.len() > 0 {
        let f = &all[0];
        Some(attach(f.el, Ghost(f@)))
    } else {
        None
    }
}

/// The text nodes of the first descendant of `e` that `c` picks.
pub(crate) fn texts_of_first(e: &Element, c: &Css) -> (r: Option<Vec<String>>)
    ensures
        crate::text::opt_seq_view(r) == first_texts(e@, c@),
{
    match first_in(e, c) {
        Some(f) => Some(texts(&f)),
        None => None,
    }
}

/// The elements of `page` that `c` picks, in document order.
pub(crate) fn select_page<'a>(page: &'a Page, c: &Css) -> (r: Vec<Element<'a>>)
    ensures
        spots(r@) == document_spots(page@, c@),
{
    let r = pick_in_document(page, c);
    assert(spots(r@) =~= document_spots(page@, c@));
    r
}

/// The first element of `page` that `c` picks.
pub(crate) fn first_in_page<'a>(page: &'a Page, c: &Css) -> (r: Option<Element<'a>>)
    ensures
        match r {
            Some(f) => first_in_document(page@, c@) == Some(f@),
            None => first_in_document(page@, c@) is None,
        },
{
    let all = pick_in_document(page, c);
    if all.len() > 0 {
        let f = &all[0];
        Some(attach(f.el, Ghost(f@)))
    } else {
        None
    }
}

/// The descendants of `e` that `c` picks, in document order.
pub(crate) fn select_from<'a>(e: &Element<'a>, c: &Css) -> (r: Vec<Element<'a>>)
    ensures
        spots(r@) == picked_spots(e@, c@),
{
    let r = pick(e, c);
    assert(spots(r@) =~= picked_spots(e@, c@));
    r
}

/// Attribute `name` of the parent of the parent of `e`, when both are
/// elements.
pub(crate) fn grandparent_attr(e: &Element, name: &str) -> (r: Option<String>)
    ensures
        opt_view(r) == grandparent_attribute(e@, name@),
{
    match parent(e) {
        Some(p) => match parent(&p) {
            Some(g) => attr(&g, name),
            None => None,
        },
        None => None,
    }
}

impl Page {
    /// Parses the text of an HTML document.
    pub fn parse_document(text: &str) -> (r: Page)
        ensures
            r@ == text@,
    {
        page_of(text)
    }

    /// The root element of the page.
    pub fn root_element(&self) -> (r: Element)
        ensures
            r@ == (Spot { page: self@, at: seq![Step::Root] }),
    {
        root(self)
    }
}

/// Compiles `css`, or fails with `ParseError::InvalidSelector`.
pub(crate) fn css(text: &str) -> (r: Result<Css, ParseError>)
    ensures
        r is Ok <==> css_compiles(text@),
        r matches Ok(c) ==> c@ == text@,
        r matches Err(e) ==> e == ParseError::InvalidSelector,
{
    match compile_css(text) {
        Some(c) => Ok(c),
        None => Err(ParseError::InvalidSelector),
    }
}

} // verus!
