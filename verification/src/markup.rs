//! Reading web pages: CSS selection in HTML through `scraper`, and regular
//! expression captures through `regex`.
use vstd::prelude::*;

verus! {

/// An element that a selector matched: its HTML and its inner HTML.
#[derive(Clone, Debug)]
pub struct HtmlMatch {
    pub outer: String,
    pub inner: String,
}

/// The model of an `HtmlMatch`.
pub struct HtmlMatchView {
    pub outer: Seq<char>,
    pub inner: Seq<char>,
}

impl View for HtmlMatch {
    type V = HtmlMatchView;

    open spec fn view(&self) -> HtmlMatchView {
        HtmlMatchView { outer: self.outer@, inner: self.inner@ }
    }
}

/// The models of a sequence of matches.
pub open spec fn matches_view(ms: Seq<HtmlMatch>) -> Seq<HtmlMatchView> {
    ms.map_values(|m: HtmlMatch| m@)
}

/// The elements of the HTML document `html` (parsed as a whole document)
/// that the CSS selector matches, in document order; `None` when the
/// selector does not parse.
pub uninterp spec fn html_select_spec(html: Seq<char>, selector: Seq<char>) -> Option<
    Seq<HtmlMatchView>,
>;

/// `scraper::Html::parse_document`, `scraper::Selector::parse` and
/// `Html::select`, each match converted to its `html()` and `inner_html()`.
/// Trusted: `None` exactly when the selector does not parse; otherwise the
/// named `html_select_spec` of the document and the selector.
#[verifier::external_body]
pub(crate) fn html_select(html: &str, selector: &str) -> (res: Option<Vec<HtmlMatch>>)
    ensures
        res matches Some(ms) ==> html_select_spec(html@, selector@) == Some(matches_view(ms@)),
        res is None ==> html_select_spec(html@, selector@) is None,
{
    let selector = match scraper::Selector::parse(selector) {
        Ok(s) => s,
        Err(_) => return None,
    };
    let document = scraper::Html::parse_document(html);
    Some(document.select(&selector).map(|e| HtmlMatch { outer: e.html(), inner: e.inner_html() }).collect())
}

/// The matches within one element: those of a first and of a second
/// selector.
pub open spec fn pair_view(p: (Vec<HtmlMatch>, Vec<HtmlMatch>)) -> (Seq<HtmlMatchView>, Seq<HtmlMatchView>) {
    (matches_view(p.0@), matches_view(p.1@))
}

/// The models of nested matches.
pub open spec fn nested_view(v: Seq<Vec<(Vec<HtmlMatch>, Vec<HtmlMatch>)>>) -> Seq<
    Seq<(Seq<HtmlMatchView>, Seq<HtmlMatchView>)>,
> {
    v.map_values(|row: Vec<(Vec<HtmlMatch>, Vec<HtmlMatch>)>| row@.map_values(|p: (Vec<HtmlMatch>, Vec<HtmlMatch>)| pair_view(p)))
}

/// For each element of the HTML document `html` that `outer` matches, in
/// document order: the elements within it that `middle` matches, and for
/// each of those the elements within it that `first` and `second` match
/// (each selection made inside the element itself, without parsing its
/// HTML again); `None` when a selector does not parse.
pub uninterp spec fn html_select_nested_spec(
    html: Seq<char>,
    outer: Seq<char>,
    middle: Seq<char>,
    first: Seq<char>,
    second: Seq<char>,
) -> Option<Seq<Seq<(Seq<HtmlMatchView>, Seq<HtmlMatchView>)>>>;

/// `scraper::Selector::parse` of the four selectors,
/// `Html::parse_document`, `Html::select` with `outer`, then
/// `ElementRef::select` with `middle` inside each match and with `first` and
/// `second` inside each of those, every match converted to its `html()` and
/// `inner_html()`.  Trusted: `None` exactly when a selector does not parse;
/// otherwise the named `html_select_nested_spec`.
#[verifier::external_body]
pub(crate) fn html_select_nested(html: &str, outer: &str, middle: &str, first: &str, second: &str) -> (res: Option<
    Vec<Vec<(Vec<HtmlMatch>, Vec<HtmlMatch>)>>,
>)
    ensures
        res matches Some(v) ==> html_select_nested_spec(html@, outer@, middle@, first@, second@) == Some(nested_view(v@)),
        res is None ==> html_select_nested_spec(html@, outer@, middle@, first@, second@) is None,
{
    let (Ok(a), Ok(b), Ok(c), Ok(d)) = (
        scraper::Selector::parse(outer),
        scraper::Selector::parse(middle),
        scraper::Selector::parse(first),
        scraper::Selector::parse(second),
    ) else {
        return None;
    };
    let document = scraper::Html::parse_document(html);
    let conv = |e: scraper::ElementRef| HtmlMatch { outer: e.html(), inner: e.inner_html() };
    Some(document.select(&a).map(|x| x.select(&b).map(|y| (y.select(&c).map(conv).collect(), y.select(&d).map(conv).collect())).collect()).collect())
}

/// The captures of every non-overlapping match of the regular expression
/// `pattern` in `text`, left to right: for each match the text of group 0
/// (the whole match), group 1, ...; a group that took no part is empty.
/// `None` when the pattern does not compile.
pub uninterp spec fn regex_captures_spec(pattern: Seq<char>, text: Seq<char>) -> Option<
    Seq<Seq<Seq<char>>>,
>;

/// The models of a table of strings.
pub open spec fn table_view(t: Seq<Vec<String>>) -> Seq<Seq<Seq<char>>> {
    t.map_values(|row: Vec<String>| row@.map_values(|s: String| s@))
}

/// `regex::Regex::new` and `Regex::captures_iter`, each capture converted
/// to the texts of its groups.  Trusted: `None` exactly when the pattern does
/// not compile; otherwise the named `regex_captures_spec`.
#[verifier::external_body]
pub(crate) fn regex_captures(pattern: &str, text: &str) -> (res: Option<Vec<Vec<String>>>)
    ensures
        res matches Some(t) ==> regex_captures_spec(pattern@, text@) == Some(table_view(t@)),
        res is None ==> regex_captures_spec(pattern@, text@) is None,
{
    let re = match regex::Regex::new(pattern) {
        Ok(re) => re,
        Err(_) => return None,
    };
    Some(re.captures_iter(text).map(|c| {
        c.iter().map(|g| g.map_or(String::new(), |m| m.as_str().to_string())).collect()
    }).collect())
}

} // verus!
