use vstd::prelude::*;

use crate::catalog::{catalog_chapter_ok, catalog_from_links, link_view, Manga};
use crate::site::{carries_id, href_id, search_results, SearchResult};

verus! {

/// What `scraper` finds in an HTML document for a CSS selector: for each
/// matching element, in the order of scraper's walk over the parsed tree, the
/// value of the attribute if the element has it.
pub uninterp spec fn selected_attrs(html: Seq<char>, selector: Seq<char>, attr: Seq<char>) -> Seq<
    Option<Seq<char>>,
>;

/// What `scraper` finds in an HTML document for a CSS selector: for each
/// matching element, in the order of scraper's walk over the parsed tree, its
/// first piece of text if it has one.
pub uninterp spec fn selected_texts(html: Seq<char>, selector: Seq<char>) -> Seq<Option<Seq<char>>>;

pub open spec fn opt_text(o: Option<String>) -> Option<Seq<char>> {
    match o {
        Some(s) => Some(s@),
        None => None,
    }
}

pub open spec fn opt_texts(v: Seq<Option<String>>) -> Seq<Option<Seq<char>>> {
    v.map_values(|o: Option<String>| opt_text(o))
}

/// The selectors of this library, each of which `Selector::parse` accepts.
pub open spec fn known_selector(selector: Seq<char>) -> bool {
    ||| selector == PAGE_IMAGES@
    ||| selector == CHAPTER_LINKS@
    ||| selector == CHAPTER_LIST@
    ||| selector == RESULT_CARDS@
    ||| selector == CARD_LINKS@
    ||| selector == CARD_NAMES@
}

/// Relies on `scraper::Selector::parse` (`None` for a selector it rejects; it
/// accepts this library's selectors), `scraper::Html::parse_document`, which
/// never fails, `Html::select` and `Element::attr`.
#[verifier::external_body]
fn select_attrs(html: &str, selector: &str, attr: &str) -> (r: Option<Vec<Option<String>>>)
    ensures
        r matches Some(v) ==> opt_texts(v@) == selected_attrs(html@, selector@, attr@),
        known_selector(selector@) ==> r is Some,
{
    let sel = scraper::Selector::parse(selector).ok()?;
    let doc = scraper::Html::parse_document(html);
    Some(doc.select(&sel).map(|e| e.value().attr(attr).map(|s| s.to_string())).collect())
}

/// Relies on `scraper::Selector::parse` (`None` for a selector it rejects; it
/// accepts this library's selectors), `scraper::Html::parse_document`, which
/// never fails, `Html::select` and `ElementRef::text`.
#[verifier::external_body]
fn select_texts(html: &str, selector: &str) -> (r: Option<Vec<Option<String>>>)
    ensures
        r matches Some(v) ==> opt_texts(v@) == selected_texts(html@, selector@),
        known_selector(selector@) ==> r is Some,
{
    let sel = scraper::Selector::parse(selector).ok()?;
    let doc = scraper::Html::parse_document(html);
    Some(doc.select(&sel).map(|e| e.text().next().map(|s| s.to_string())).collect())
}

/// The chapter list of a catalog page.
pub const CHAPTER_LIST: &'static str = "#chapters";

/// The chapter links of a catalog page.
pub const CHAPTER_LINKS: &'static str = "#chapters a";

/// The page images of a chapter page.
pub const PAGE_IMAGES: &'static str = "chapter-page img";

/// Every element had the value: the values themselves.
pub open spec fn all_present(v: Seq<Option<Seq<char>>>) -> bool {
    forall|k: int| 0 <= k < v.len() ==> (#[trigger] v[k]) is Some
}

/// Keeps the values of a list in which every element has one.
pub fn present_values(v: Vec<Option<String>>) -> (r: Option<Vec<String>>)
    ensures
        r is Some <==> all_present(opt_texts(v@)),
        r matches Some(w) ==> w@.len() == v@.len() && forall|k: int|
            0 <= k < v@.len() ==> opt_texts(v@)[k] == Some((#[trigger] w@[k])@),
{
    let mut w: Vec<String> = Vec::new();
    let mut k: usize = 0;
    while k < v.len()
        invariant
            k <= v@.len(),
            w@.len() == k,
            forall|j: int| 0 <= j < k ==> opt_texts(v@)[j] == Some((#[trigger] w@[j])@),
        decreases v@.len() - k,
    {
        match &v[k] {
            Some(s) => w.push(s.clone()),
            None => {
                assert(opt_texts(v@)[k as int] is None);
                return None;
            },
        }
        k = k + 1;
    }
    assert forall|j: int| 0 <= j < opt_texts(v@).len() implies (#[trigger] opt_texts(v@)[j]) is Some by {
        assert(opt_texts(v@)[j] == Some(w@[j]@));
    }
    Some(w)
}

/// The page image addresses of a chapter page, in page order: the `data-src`
/// of each page image. `None` when an image has none.
pub fn pages_from_html(html: &str) -> (r: Option<Vec<String>>)
    ensures
        r is Some <==> all_present(selected_attrs(html@, PAGE_IMAGES@, "data-src"@)),
        r matches Some(w) ==> selected_attrs(html@, PAGE_IMAGES@, "data-src"@) == w@.map_values(
            |s: String| Some(s@),
        ),
{
    let found = select_attrs(html, PAGE_IMAGES, "data-src").unwrap();
    let r = present_values(found);
    proof {
        if r is Some {
            let w = r.unwrap();
            assert(selected_attrs(html@, PAGE_IMAGES@, "data-src"@) =~= w@.map_values(|s: String| Some(s@)));
        }
    }
    r
}

/// The catalog page has as many chapter link names as addresses, none lacking.
pub open spec fn links_found(html: Seq<char>) -> bool {
    let names = selected_texts(html, CHAPTER_LINKS@);
    let hrefs = selected_attrs(html, CHAPTER_LINKS@, "href"@);
    &&& names.len() == hrefs.len()
    &&& all_present(names)
    &&& all_present(hrefs)
}

/// The name and site-relative address of each chapter link of a catalog page.
pub open spec fn page_links(html: Seq<char>) -> Seq<(Seq<char>, Seq<char>)> {
    let names = selected_texts(html, CHAPTER_LINKS@);
    let hrefs = selected_attrs(html, CHAPTER_LINKS@, "href"@);
    Seq::new(names.len(), |k: int| (names[k].unwrap(), hrefs[k].unwrap()))
}

/// The name and site-relative address of each chapter link, as the catalog
/// page lists them (newest first). `None` when a link lacks either.
pub fn chapter_links(html: &str) -> (r: Option<Vec<(String, String)>>)
    ensures
        r is Some <==> links_found(html@),
        r matches Some(links) ==> links@.map_values(|l: (String, String)| link_view(l)) == page_links(
            html@,
        ),
{
    let hrefs = present_values(select_attrs(html, CHAPTER_LINKS, "href").unwrap())?;
    let names = present_values(select_texts(html, CHAPTER_LINKS).unwrap())?;
    if hrefs.len() != names.len() {
        return None;
    }
    let ghost nv = selected_texts(html@, CHAPTER_LINKS@);
    let ghost hv = selected_attrs(html@, CHAPTER_LINKS@, "href"@);
    let mut links: Vec<(String, String)> = Vec::new();
    let mut k: usize = 0;
    while k < hrefs.len()
        invariant
            hrefs@.len() == names@.len(),
            nv.len() == names@.len(),
            hv.len() == hrefs@.len(),
            forall|j: int| 0 <= j < names@.len() ==> nv[j] == Some((#[trigger] names@[j])@),
            forall|j: int| 0 <= j < hrefs@.len() ==> hv[j] == Some((#[trigger] hrefs@[j])@),
            k <= hrefs@.len(),
            links@.len() == k,
            forall|j: int|
                0 <= j < k ==> (#[trigger] links@[j]).0@ == names@[j]@ && links@[j].1@ == hrefs@[j]@,
        decreases hrefs@.len() - k,
    {
        links.push((names[k].clone(), hrefs[k].clone()));
        k = k + 1;
    }
    assert(links@.map_values(|l: (String, String)| link_view(l)) =~= page_links(html@));
    Some(links)
}

/// The catalog page has a chapter list.
pub open spec fn has_chapter_list(html: Seq<char>) -> bool {
    selected_attrs(html, CHAPTER_LIST@, "id"@).len() > 0
}

/// The catalog of a title from its catalog page: the chapter links reversed
/// to oldest first and numbered from 1. `None` when the page has no chapter
/// list, or a link lacks its name or address.
pub fn catalog_from_html(html: &str) -> (r: Option<Manga>)
    ensures
        r is Some <==> has_chapter_list(html@) && links_found(html@),
        r matches Some(m) ==> m.chapters@.len() == page_links(html@).len() && forall|k: int|
            0 <= k < m.chapters@.len() ==> catalog_chapter_ok(page_links(html@), #[trigger] m.chapters@[k], k),
{
    if select_attrs(html, CHAPTER_LIST, "id").unwrap().len() == 0 {
        return None;
    }
    let links = chapter_links(html)?;
    Some(catalog_from_links(&links))
}

/// The result cards of a search page.
pub const RESULT_CARDS: &'static str =
    "body > div.container.py-3 > div.my-3.grid.justify-end.gap-3.grid-cols-2.md\\:grid-cols-3.lg\\:grid-cols-5 > div";

/// The links inside a result card.
pub const CARD_LINKS: &'static str = "a";

/// The title boxes inside a result card.
pub const CARD_NAMES: &'static str = "a > div";

/// What `scraper` finds for a selector inside each element that matches
/// another: for each `outer` element, for each `inner` element within it (in
/// the order of scraper's walks), the value of the attribute if it has it.
pub uninterp spec fn nested_attrs(html: Seq<char>, outer: Seq<char>, inner: Seq<char>, attr: Seq<char>) -> Seq<
    Seq<Option<Seq<char>>>,
>;

/// What `scraper` finds for a selector inside each element that matches
/// another: for each `outer` element, for each `inner` element within it, the
/// text of its first child node if that node is text.
pub uninterp spec fn nested_lead_texts(html: Seq<char>, outer: Seq<char>, inner: Seq<char>) -> Seq<
    Seq<Option<Seq<char>>>,
>;

pub open spec fn nested_texts(v: Seq<Vec<Option<String>>>) -> Seq<Seq<Option<Seq<char>>>> {
    v.map_values(|w: Vec<Option<String>>| opt_texts(w@))
}

/// Relies on `scraper::Selector::parse` (`None` for a selector it rejects; it
/// accepts this library's selectors), `scraper::Html::parse_document`,
/// `Html::select`, `ElementRef::select` and `Element::attr`.
#[verifier::external_body]
fn select_nested_attrs(html: &str, outer: &str, inner: &str, attr: &str) -> (r: Option<Vec<Vec<Option<String>>>>)
    ensures
        r matches Some(v) ==> nested_texts(v@) == nested_attrs(html@, outer@, inner@, attr@),
        known_selector(outer@) && known_selector(inner@) ==> r is Some,
{
    let o = scraper::Selector::parse(outer).ok()?;
    let i = scraper::Selector::parse(inner).ok()?;
    let doc = scraper::Html::parse_document(html);
    Some(doc.select(&o).map(|e| e.select(&i).map(|x| x.value().attr(attr).map(|s| s.to_string())).collect()).collect())
}

/// Relies on `scraper::Selector::parse` (`None` for a selector it rejects; it
/// accepts this library's selectors), `scraper::Html::parse_document`,
/// `Html::select`, `ElementRef::select`, `NodeRef::first_child` and
/// `Node::as_text`.
#[verifier::external_body]
fn select_nested_lead_texts(html: &str, outer: &str, inner: &str) -> (r: Option<Vec<Vec<Option<String>>>>)
    ensures
        r matches Some(v) ==> nested_texts(v@) == nested_lead_texts(html@, outer@, inner@),
        known_selector(outer@) && known_selector(inner@) ==> r is Some,
{
    let o = scraper::Selector::parse(outer).ok()?;
    let i = scraper::Selector::parse(inner).ok()?;
    let doc = scraper::Html::parse_document(html);
    Some(doc.select(&o).map(|e| e.select(&i).map(|x| x.first_child().and_then(|n| n.value().as_text().map(|t| t.to_string()))).collect()).collect())
}

pub open spec fn card_hrefs(html: Seq<char>) -> Seq<Seq<Option<Seq<char>>>> {
    nested_attrs(html, RESULT_CARDS@, CARD_LINKS@, "href"@)
}

pub open spec fn card_names(html: Seq<char>) -> Seq<Seq<Option<Seq<char>>>> {
    nested_lead_texts(html, RESULT_CARDS@, CARD_NAMES@)
}

/// Result card `k` has a second link with an address and a title box whose
/// first node is its text.
pub open spec fn card_complete(html: Seq<char>, k: int) -> bool {
    &&& card_hrefs(html)[k].len() >= 2
    &&& card_hrefs(html)[k][1] is Some
    &&& card_names(html)[k].len() >= 1
    &&& card_names(html)[k][0] is Some
}

/// Every result card of the search page is complete.
pub open spec fn cards_found(html: Seq<char>) -> bool {
    &&& card_hrefs(html).len() == card_names(html).len()
    &&& forall|k: int| 0 <= k < card_hrefs(html).len() ==> #[trigger] card_complete(html, k)
}

/// The address (of its second link) and title of each result card.
pub open spec fn card_links(html: Seq<char>) -> Seq<(Seq<char>, Seq<char>)> {
    Seq::new(
        card_hrefs(html).len(),
        |k: int| (card_hrefs(html)[k][1].unwrap(), card_names(html)[k][0].unwrap()),
    )
}

/// The `(href, name)` of each result card of a search page, in page order.
/// `None` when a card lacks either.
pub fn result_links(html: &str) -> (r: Option<Vec<(String, String)>>)
    ensures
        r is Some <==> cards_found(html@),
        r matches Some(links) ==> links@.map_values(|l: (String, String)| link_view(l)) == card_links(
            html@,
        ),
{
    let hrefs = select_nested_attrs(html, RESULT_CARDS, CARD_LINKS, "href").unwrap();
    let names = select_nested_lead_texts(html, RESULT_CARDS, CARD_NAMES).unwrap();
    let ghost hv = card_hrefs(html@);
    let ghost nv = card_names(html@);
    assert(hv.len() == hrefs@.len());
    if hrefs.len() != names.len() {
        return None;
    }
    let mut links: Vec<(String, String)> = Vec::new();
    let mut k: usize = 0;
    while k < hrefs.len()
        invariant
            hrefs@.len() == names@.len(),
            hv == nested_texts(hrefs@),
            nv == nested_texts(names@),
            hv == card_hrefs(html@),
            nv == card_names(html@),
            k <= hrefs@.len(),
            links@.len() == k,
            forall|j: int| 0 <= j < k ==> #[trigger] card_complete(html@, j),
            forall|j: int|
                0 <= j < k ==> Some((#[trigger] links@[j]).0@) == hv[j][1] && Some(links@[j].1@) == nv[j][0],
        decreases hrefs@.len() - k,
    {
        let h = &hrefs[k];
        let n = &names[k];
        assert(hv[k as int] == opt_texts(h@));
        assert(nv[k as int] == opt_texts(n@));
        if h.len() < 2 || n.len() < 1 {
            assert(!card_complete(html@, k as int));
            return None;
        }
        let href = match &h[1] {
            Some(s) => s.clone(),
            None => {
                assert(!card_complete(html@, k as int));
                return None;
            },
        };
        let name = match &n[0] {
            Some(s) => s.clone(),
            None => {
                assert(!card_complete(html@, k as int));
                return None;
            },
        };
        links.push((href, name));
        k = k + 1;
    }
    assert(links@.map_values(|l: (String, String)| link_view(l)) =~= card_links(html@));
    Some(links)
}

/// The titles that a search page lists, in page order. `None` when a result
/// card is incomplete or its link carries no title id.
pub fn search_from_html(html: &str) -> (r: Option<Vec<SearchResult>>)
    ensures
        r matches Some(v) ==> cards_found(html@) && v@.len() == card_links(html@).len() && forall|k: int|
            0 <= k < v@.len() ==> href_id(card_links(html@)[k].0, (#[trigger] v@[k]).id as nat) && v@[k].name@
                == card_links(html@)[k].1,
        r is None ==> !cards_found(html@) || exists|k: int|
            0 <= k < card_links(html@).len() && !carries_id(#[trigger] card_links(html@)[k].0),
{
    let links = result_links(html)?;
    let r = search_results(&links);
    proof {
        let lv = links@.map_values(|l: (String, String)| link_view(l));
        assert(forall|k: int| 0 <= k < links@.len() ==> #[trigger] lv[k] == (links@[k].0@, links@[k].1@));
        if r is None {
            let k = choose|k: int| 0 <= k < links@.len() && !carries_id(#[trigger] links@[k].0@);
            assert(card_links(html@)[k].0 == lv[k].0);
        }
    }
    r
}

} // verus!
