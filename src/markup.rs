//! The markup parser. A parsed page keeps the text it was parsed from, a
//! compiled selector keeps its text, and an element keeps the path that
//! locates it in its page: a sequence of steps `(selector, i)`, each the
//! `i`-th element (counting from 0, in document order) matching the selector
//! below the previous step's element, the first step below the whole page.
//! What the parser finds is named over those plain values; the parser is
//! deterministic, so each name depends on its arguments alone.
use vstd::prelude::*;
use scraper::{ElementRef, Html, Selector};

verus! {

#[verifier::external_type_specification]
#[verifier::external_body]
pub struct ExHtml(Html);

#[verifier::external_type_specification]
#[verifier::external_body]
pub struct ExSelector(Selector);

#[verifier::external_type_specification]
#[verifier::external_body]
pub struct ExElementRef<'a>(ElementRef<'a>);

/// A location in a page: steps of (selector text, index among its matches).
pub type Path = Seq<(Seq<char>, nat)>;

/// Whether `css` is a selector group that the markup parser accepts.
pub uninterp spec fn selector_accepted(css: Seq<char>) -> bool;

/// Whether some element of the page parsed from `html` matches `css`.
pub uninterp spec fn document_has_match(html: Seq<char>, css: Seq<char>) -> bool;

/// Number of elements below the element at `path` of the page parsed from
/// `html` that match `css`.
pub uninterp spec fn matches_within(html: Seq<char>, path: Path, css: Seq<char>) -> nat;

/// The joined text of the element at `path` of the page parsed from `html`.
pub uninterp spec fn text_at(html: Seq<char>, path: Path) -> Seq<char>;

/// The value of attribute `name` of the element at `path` of the page
/// parsed from `html`, if it has one.
pub uninterp spec fn attr_at(html: Seq<char>, path: Path, name: Seq<char>) -> Option<Seq<char>>;

/// A parsed page, with the text it was parsed from.
pub struct Page {
    doc: Html,
    source: String,
}

impl Page {
    /// The text the page was parsed from.
    pub closed spec fn source(&self) -> Seq<char> {
        self.source@
    }
}

/// A compiled selector, with its text.
pub struct Css {
    sel: Selector,
    text: String,
}

impl Css {
    /// The text of the selector.
    pub closed spec fn text(&self) -> Seq<char> {
        self.text@
    }
}

/// One step of a path.
pub struct Step {
    css: String,
    index: usize,
}

/// An element of a page, with that page and the path that locates it there.
pub struct Element<'a> {
    el: ElementRef<'a>,
    page: &'a Page,
    path: Vec<Step>,
}

/// The steps of a path, as values.
spec fn steps(v: Seq<Step>) -> Path {
    v.map_values(|s: Step| (s.css@, s.index as nat))
}

impl<'a> Element<'a> {
    /// The text of the page that the element belongs to.
    pub closed spec fn source(&self) -> Seq<char> {
        self.page.source()
    }

    /// The path that locates the element in its page.
    pub closed spec fn path(&self) -> Path {
        steps(self.path@)
    }
}

/// `path` followed by the step `(css, index)`.
fn extend_path(path: &Vec<Step>, css: &String, index: usize) -> (r: Vec<Step>)
    ensures
        steps(r@) == steps(path@).push((css@, index as nat)),
{
    let mut out: Vec<Step> = Vec::new();
    let mut i: usize = 0;
    while i < path.len()
        invariant
            i <= path@.len(),
            out@.len() == i,
            steps(out@) == steps(path@.subrange(
                0,
                i as int,
            )),
        decreases path@.len() - i,
    {
        let ghost before = out@;
        let step = Step { css: path[i].css.clone(), index: path[i].index };
        assert(step.css@ == path@[i as int].css@);
        out.push(step);
        assert(out@ =~= before.push(step));
        assert forall|j: int| 0 <= j < i + 1 implies #[trigger] steps(out@)[j] == steps(path@.subrange(0, i + 1))[j] by {
            if j < i {
                assert(out@[j] == before[j]);
                assert(steps(before)[j] == steps(path@.subrange(
                    0,
                    i as int,
                ))[j]);
            }
        }
        assert(steps(out@) =~= steps(path@.subrange(
            0,
            i + 1,
        )));
        i = i + 1;
    }
    assert(path@.subrange(0, path@.len() as int) =~= path@);
    let ghost before = out@;
    let last = Step { css: css.clone(), index };
    out.push(last);
    assert(out@ =~= before.push(last));
    assert(steps(out@) =~= steps(path@).push((css@, index as nat)));
    out
}

/// Relies on `scraper::Html::parse_document`, which builds a document tree
/// from any text (malformed markup is repaired, never refused).
#[verifier::external_body]
pub(crate) fn parse_page(html: &str) -> (r: Page)
    ensures
        r.source() == html@,
{
    Page { doc: Html::parse_document(html), source: html.to_string() }
}

/// Relies on `scraper::Selector::parse`: whether it accepts the text
/// depends on the text alone.
#[verifier::external_body]
pub(crate) fn compile_selector(css: &str) -> (r: Option<Css>)
    ensures
        r is Some <==> selector_accepted(css@),
        r matches Some(c) ==> c.text() == css@,
{
    Selector::parse(css).ok().map(|sel| Css { sel, text: css.to_string() })
}

/// Relies on `scraper::Html::select`: the first element of the page that
/// matches the selector, located by the step `(selector, 0)`.
#[verifier::external_body]
pub(crate) fn first_in_document<'a>(page: &'a Page, css: &Css) -> (r: Option<Element<'a>>)
    ensures
        r is Some <==> document_has_match(page.source(), css.text()),
        r matches Some(e) ==> e.path() == seq![(css.text(), 0nat)] && e.source() == page.source(),
{
    page.doc.select(&css.sel).next().map(
        |el| Element { el, page, path: extend_path(&Vec::new(), &css.text, 0) },
    )
}

/// Relies on `scraper::ElementRef::select`: the elements below `el` that
/// match the selector, in document order, the `i`-th located by the step
/// `(selector, i)` after `el`'s path.
#[verifier::external_body]
pub(crate) fn select_within<'a>(el: &Element<'a>, css: &Css) -> (r: Vec<Element<'a>>)
    ensures
        r@.len() == matches_within(el.source(), el.path(), css.text()),
        forall|i: int|
            0 <= i < r@.len() ==> (#[trigger] r@[i]).path() == el.path().push(
                (css.text(), i as nat),
            ) && r@[i].source() == el.source(),
{
    el.el.select(&css.sel).enumerate().map(
        |(i, e)| Element { el: e, page: el.page, path: extend_path(&el.path, &css.text, i) },
    ).collect()
}

/// Relies on `scraper::ElementRef::text`: the text of the element's
/// descendant text nodes, joined.
#[verifier::external_body]
pub(crate) fn element_text(el: &Element) -> (r: String)
    ensures
        r@ == text_at(el.source(), el.path()),
{
    el.el.text().collect()
}

/// Relies on `scraper::ElementRef::attr`: the value of attribute `name`.
#[verifier::external_body]
pub(crate) fn element_attr(el: &Element, name: &str) -> (r: Option<String>)
    ensures
        match r {
            Some(v) => attr_at(el.source(), el.path(), name@) == Some(v@),
            None => attr_at(el.source(), el.path(), name@) is None,
        },
{
    el.el.attr(name).map(String::from)
}

} // verus!
