use vstd::prelude::*;

use crate::chars::{trim, trimmed};
use crate::fields::opt_view;
use crate::listing::{
    card_views, collect_listings, lemma_no_candidates, selected, views, CardFields, CardView,
    Listing, ListingView,
};

verus! {

#[verifier::external_type_specification]
#[verifier::external_body]
pub struct ExHtml(scraper::Html);

#[verifier::external_type_specification]
#[verifier::external_body]
pub struct ExSelector(scraper::Selector);

/// Whether a text is a CSS selector group that can be compiled.
pub uninterp spec fn selector_compiles(s: Seq<char>) -> bool;

/// How many elements of the document parsed from `html` match the selector
/// compiled from `sel`.
pub uninterp spec fn match_count(html: Seq<char>, sel: Seq<char>) -> nat;

/// The joined text nodes of the `k`-th element (from 0, in document order) of
/// the document parsed from `html` that matches `card`; none where there are
/// not that many.
pub uninterp spec fn element_text(html: Seq<char>, card: Seq<char>, k: nat) -> Option<Seq<char>>;

/// The joined text nodes of the first descendant matching `sel` of the `k`-th
/// element matching `card`; none where either is missing.
pub uninterp spec fn first_text_in(html: Seq<char>, card: Seq<char>, k: nat, sel: Seq<char>) -> Option<
    Seq<char>,
>;

/// The value of the attribute `attr` of the first descendant matching `sel` of
/// the `k`-th element matching `card`; none where either element, or the
/// attribute, is missing.
pub uninterp spec fn first_attr_in(
    html: Seq<char>,
    card: Seq<char>,
    k: nat,
    sel: Seq<char>,
    attr: Seq<char>,
) -> Option<Seq<char>>;

/// A parsed page, with the text it was parsed from.
pub struct Page {
    doc: scraper::Html,
    source: Ghost<Seq<char>>,
}

/// A compiled selector, with the text it was compiled from.
pub struct CompiledSelector {
    sel: scraper::Selector,
    source: Ghost<Seq<char>>,
}

/// Relies on `scraper::Html::parse_document`: the tree of a whole document;
/// malformed markup is repaired, never refused.
#[verifier::external_body]
fn parse_document(html: &str) -> (r: scraper::Html) {
    scraper::Html::parse_document(html)
}

/// Relies on `scraper::Selector::parse`: a compiled selector, or none where the
/// text is no valid selector group.
#[verifier::external_body]
fn compile_selector(s: &str) -> (r: Option<scraper::Selector>)
    ensures
        r is Some <==> selector_compiles(s@),
{
    scraper::Selector::parse(s).ok()
}

/// Relies on `scraper::Html::select`: how many elements of the page match.
#[verifier::external_body]
fn count_matches(page: &Page, sel: &CompiledSelector) -> (r: usize)
    ensures
        r as nat == match_count(page.source@, sel.source@),
{
    page.doc.select(&sel.sel).count()
}

/// Relies on `scraper::Html::select` and `scraper::ElementRef::text`: the text
/// of the `k`-th matching element.
#[verifier::external_body]
fn nth_match_text(page: &Page, card: &CompiledSelector, k: usize) -> (r: Option<String>)
    ensures
        opt_view(&r) == element_text(page.source@, card.source@, k as nat),
{
    match page.doc.select(&card.sel).nth(k) {
        Some(e) => Some(e.text().collect()),
        None => None,
    }
}

/// Relies on `scraper::Html::select`, `scraper::ElementRef::select` and
/// `scraper::ElementRef::text`: the text of the first match of `sel` inside
/// the `k`-th element matching `card`.
#[verifier::external_body]
fn nth_match_inner_text(page: &Page, card: &CompiledSelector, k: usize, sel: &CompiledSelector) -> (r:
    Option<String>)
    ensures
        opt_view(&r) == first_text_in(page.source@, card.source@, k as nat, sel.source@),
{
    match page.doc.select(&card.sel).nth(k) {
        Some(e) => match e.select(&sel.sel).next() {
            Some(f) => Some(f.text().collect()),
            None => None,
        },
        None => None,
    }
}

/// Relies on `scraper::Html::select`, `scraper::ElementRef::select` and
/// `scraper::ElementRef::attr`: an attribute of the first match of `sel`
/// inside the `k`-th element matching `card`.
#[verifier::external_body]
fn nth_match_inner_attr(
    page: &Page,
    card: &CompiledSelector,
    k: usize,
    sel: &CompiledSelector,
    attr: &str,
) -> (r: Option<String>)
    ensures
        opt_view(&r) == first_attr_in(page.source@, card.source@, k as nat, sel.source@, attr@),
{
    match page.doc.select(&card.sel).nth(k) {
        Some(e) => match e.select(&sel.sel).next() {
            Some(f) => f.attr(attr).map(|v| v.to_string()),
            None => None,
        },
        None => None,
    }
}

impl Page {
    /// The text the page was parsed from.
    pub closed spec fn text(&self) -> Seq<char> {
        self.source@
    }

    /// Parses a whole document.
    pub fn parse(html: &str) -> (r: Page)
        ensures
            r.text() == html@,
    {
        Page { doc: parse_document(html), source: Ghost(html@) }
    }
}

impl CompiledSelector {
    /// The text the selector was compiled from.
    pub closed spec fn text(&self) -> Seq<char> {
        self.source@
    }

    /// Compiles a selector group; none where the text is no valid one.
    pub fn compile(s: &str) -> (r: Option<CompiledSelector>)
        ensures
            r is Some <==> selector_compiles(s@),
            r matches Some(c) ==> c.text() == s@,
    {
        match compile_selector(s) {
            Some(sel) => Some(CompiledSelector { sel, source: Ghost(s@) }),
            None => None,
        }
    }
}

/// The first text in `obs` that is present and not empty.
pub open spec fn first_text(obs: Seq<Option<Seq<char>>>) -> Option<Seq<char>>
    decreases obs.len(),
{
    if obs.len() == 0 {
        None
    } else if obs[0] is Some && obs[0]->0.len() > 0 {
        obs[0]
    } else {
        first_text(obs.drop_first())
    }
}

/// The first present, non-empty text of a concatenation is that of the first
/// part where it has one, else that of the second.
pub proof fn lemma_first_text_append(a: Seq<Option<Seq<char>>>, b: Seq<Option<Seq<char>>>)
    ensures
        first_text(a + b) == (if first_text(a) is Some {
            first_text(a)
        } else {
            first_text(b)
        }),
    decreases a.len(),
{
    if a.len() > 0 {
        assert((a + b).drop_first() =~= a.drop_first() + b);
        lemma_first_text_append(a.drop_first(), b);
    } else {
        assert(a + b =~= b);
    }
}

/// What trying the selector `sel` inside the `k`-th card gives: the trimmed
/// text of its first match, or none where it does not compile or matches
/// nothing.
pub open spec fn observation(html: Seq<char>, card: Seq<char>, k: nat, sel: Seq<char>) -> Option<
    Seq<char>,
> {
    if selector_compiles(sel) {
        match first_text_in(html, card, k, sel) {
            Some(t) => Some(trimmed(t)),
            None => None,
        }
    } else {
        None
    }
}

/// What trying each selector of `sels` inside the `k`-th card gives.
pub open spec fn observations(html: Seq<char>, card: Seq<char>, k: nat, sels: Seq<Seq<char>>) -> Seq<
    Option<Seq<char>>,
> {
    Seq::new(sels.len(), |i: int| observation(html, card, k, sels[i]))
}

/// The texts of a list of selectors.
pub open spec fn selector_texts(sels: Seq<&str>) -> Seq<Seq<char>> {
    sels.map_values(|s: &str| s@)
}

/// Trying a list of selectors made of two lists gives the first list's text
/// where it has one, else the second's; a selector that does not compile adds
/// nothing wherever it stands.
pub proof fn lemma_selectors_concat(
    html: Seq<char>,
    card: Seq<char>,
    k: nat,
    a: Seq<Seq<char>>,
    b: Seq<Seq<char>>,
)
    ensures
        first_text(observations(html, card, k, a + b)) == (if first_text(
            observations(html, card, k, a),
        ) is Some {
            first_text(observations(html, card, k, a))
        } else {
            first_text(observations(html, card, k, b))
        }),
        forall|bad: Seq<char>|
            !selector_compiles(bad) ==> #[trigger] first_text(
                observations(html, card, k, seq![bad]),
            ) is None,
{
    assert(observations(html, card, k, a + b) =~= observations(html, card, k, a) + observations(
        html,
        card,
        k,
        b,
    ));
    lemma_first_text_append(observations(html, card, k, a), observations(html, card, k, b));
    assert forall|bad: Seq<char>| !selector_compiles(bad) implies #[trigger] first_text(
        observations(html, card, k, seq![bad]),
    ) is None by {
        let o = observations(html, card, k, seq![bad]);
        assert(o.drop_first() =~= Seq::<Option<Seq<char>>>::empty());
        assert(first_text(o.drop_first()) is None);
    }
}

/// The trimmed text of the first match of the first selector whose first
/// match inside the `k`-th card has any text; none where no selector gives one.
pub fn extract_text_by_selectors(
    page: &Page,
    card: &CompiledSelector,
    k: usize,
    selectors: &[&str],
) -> (r: Option<String>)
    ensures
        opt_view(&r) == first_text(
            observations(page.text(), card.text(), k as nat, selector_texts(selectors@)),
        ),
{
    let ghost obs = observations(page.text(), card.text(), k as nat, selector_texts(selectors@));
    let mut i: usize = 0;
    while i < selectors.len()
        invariant
            i <= selectors@.len(),
            obs == observations(page.text(), card.text(), k as nat, selector_texts(selectors@)),
            first_text(obs.subrange(0, i as int)) is None,
        decreases selectors@.len() - i,
    {
        let mut found: Option<String> = None;
        match CompiledSelector::compile(selectors[i]) {
            Some(sel) => match nth_match_inner_text(page, card, k, &sel) {
                Some(raw) => {
                    found = Some(trim(raw.as_str()));
                },
                None => {},
            },
            None => {},
        }
        assert(opt_view(&found) == obs[i as int]);
        let ghost step = obs.subrange(i as int, i + 1);
        proof {
            assert(obs.subrange(0, i + 1) =~= obs.subrange(0, i as int) + step);
            lemma_first_text_append(obs.subrange(0, i as int), step);
            assert(step.drop_first() =~= Seq::<Option<Seq<char>>>::empty());
            assert(first_text(step.drop_first()) is None);
        }
        match found {
            Some(t) => {
                if !t.as_str().is_empty() {
                    proof {
                        let rest = obs.subrange(i as int, obs.len() as int);
                        assert(obs =~= obs.subrange(0, i as int) + rest);
                        lemma_first_text_append(obs.subrange(0, i as int), rest);
                        assert(rest[0] == obs[i as int]);
                    }
                    return Some(t);
                }
            },
            None => {},
        }
        i = i + 1;
    }
    assert(obs.subrange(0, obs.len() as int) =~= obs);
    None
}

/// How many candidates the hypothesis `h` gives: its matches, or none where
/// it does not compile.
pub open spec fn hypothesis_count(html: Seq<char>, h: Seq<char>) -> nat {
    if selector_compiles(h) {
        match_count(html, h)
    } else {
        0
    }
}

/// The first hypothesis from index `i` on that gives any candidate.
pub open spec fn first_hit_from(html: Seq<char>, hs: Seq<Seq<char>>, i: int) -> Option<int>
    decreases hs.len() - i,
{
    if i < 0 || i >= hs.len() {
        None
    } else if hypothesis_count(html, hs[i]) > 0 {
        Some(i)
    } else {
        first_hit_from(html, hs, i + 1)
    }
}

/// The hypothesis committed to on a page: the first that gives any candidate.
pub open spec fn committed_hypothesis(html: Seq<char>, hs: Seq<Seq<char>>) -> Option<int> {
    first_hit_from(html, hs, 0)
}

/// The structural hypotheses for one listing, most specific first; the last
/// one, the most generic, is the fallback.
pub open spec fn card_hypotheses() -> Seq<Seq<char>> {
    seq![
        "article.vehiculo-card"@,
        "article.vehicle-card"@,
        "div.vehiculo-card"@,
        "div.vehicle-card"@,
        "div.card-vehicle"@,
        "div[class*='listing']"@,
        "article"@,
    ]
}

/// The selectors tried, in order, for a listing's title.
pub open spec fn title_selectors() -> Seq<Seq<char>> {
    seq!["h2"@, "h3"@, "[class*='title']"@, "[class*='titulo']"@, "a"@]
}

/// The selectors tried, in order, for a listing's price.
pub open spec fn price_selectors() -> Seq<Seq<char>> {
    seq!["[class*='price']"@, "[class*='precio']"@, "[data-price]"@]
}

/// The selectors tried, in order, for a listing's city.
pub open spec fn city_selectors() -> Seq<Seq<char>> {
    seq!["[class*='city']"@, "[class*='ciudad']"@, "[class*='location']"@, "[class*='ubicacion']"@]
}

/// The selector of the links whose `href` gives a listing's URL.
pub open spec fn link_selector() -> Seq<char> {
    "a[href]"@
}

/// The `href` of the first link inside the `k`-th card.
pub open spec fn card_href(html: Seq<char>, card: Seq<char>, k: nat) -> Option<Seq<char>> {
    if selector_compiles(link_selector()) {
        first_attr_in(html, card, k, link_selector(), "href"@)
    } else {
        None
    }
}

/// What is read from the `k`-th card of a page.
pub open spec fn card_at(html: Seq<char>, card: Seq<char>, k: nat) -> CardView {
    CardView {
        title: first_text(observations(html, card, k, title_selectors())),
        price: first_text(observations(html, card, k, price_selectors())),
        city: first_text(observations(html, card, k, city_selectors())),
        text: match element_text(html, card, k) {
            Some(t) => t,
            None => Seq::empty(),
        },
        href: card_href(html, card, k),
    }
}

/// The candidates of a page, in document order: all cards of the hypothesis
/// committed to, and none where no hypothesis gives any.
pub open spec fn page_cards(html: Seq<char>) -> Seq<CardView> {
    match committed_hypothesis(html, card_hypotheses()) {
        Some(h) => {
            let sel = card_hypotheses()[h];
            Seq::new(match_count(html, sel), |k: int| card_at(html, sel, k as nat))
        },
        None => Seq::empty(),
    }
}

/// The hypothesis committed to: the first one that compiles and matches any
/// element. The most generic hypothesis stands last and serves as the
/// fallback: where nothing matches, it matched nothing either, and there is
/// no candidate.
pub fn locate_cards(page: &Page, hypotheses: &[&str]) -> (r: Option<CompiledSelector>)
    ensures
        match committed_hypothesis(page.text(), selector_texts(hypotheses@)) {
            Some(h) => r matches Some(c) && c.text() == hypotheses@[h]@,
            None => r is None,
        },
{
    let ghost hs = selector_texts(hypotheses@);
    let mut i: usize = 0;
    while i < hypotheses.len()
        invariant
            i <= hypotheses@.len(),
            hs == selector_texts(hypotheses@),
            first_hit_from(page.text(), hs, 0) == first_hit_from(page.text(), hs, i as int),
        decreases hypotheses@.len() - i,
    {
        assert(hs[i as int] == hypotheses@[i as int]@);
        match CompiledSelector::compile(hypotheses[i]) {
            Some(sel) => {
                if count_matches(page, &sel) > 0 {
                    return Some(sel);
                }
            },
            None => {},
        }
        i = i + 1;
    }
    None
}

/// The `href` of the first link inside the `k`-th card.
fn first_href(page: &Page, card: &CompiledSelector, k: usize) -> (r: Option<String>)
    ensures
        opt_view(&r) == card_href(page.text(), card.text(), k as nat),
{
    match CompiledSelector::compile("a[href]") {
        Some(sel) => nth_match_inner_attr(page, card, k, &sel, "href"),
        None => None,
    }
}

/// Reads the fields of the `k`-th card.
pub fn read_card(page: &Page, card: &CompiledSelector, k: usize) -> (r: CardFields)
    ensures
        r@ == card_at(page.text(), card.text(), k as nat),
{
    let title_sels: [&str; 5] = ["h2", "h3", "[class*='title']", "[class*='titulo']", "a"];
    let price_sels: [&str; 3] = ["[class*='price']", "[class*='precio']", "[data-price]"];
    let city_sels: [&str; 4] = [
        "[class*='city']",
        "[class*='ciudad']",
        "[class*='location']",
        "[class*='ubicacion']",
    ];
    assert(selector_texts(title_sels@) =~= title_selectors());
    assert(selector_texts(price_sels@) =~= price_selectors());
    assert(selector_texts(city_sels@) =~= city_selectors());
    let title = extract_text_by_selectors(page, card, k, &title_sels);
    let price = extract_text_by_selectors(page, card, k, &price_sels);
    let city = extract_text_by_selectors(page, card, k, &city_sels);
    let text = match nth_match_text(page, card, k) {
        Some(t) => t,
        None => String::new(),
    };
    let href = first_href(page, card, k);
    CardFields { title, price, city, text, href }
}

/// The listings of a page: at most `max_results`, in document order, from the
/// candidates that have a title.
pub open spec fn page_listings(html: Seq<char>, max_results: nat) -> Seq<ListingView> {
    selected(page_cards(html), max_results)
}

/// Parses a results page and extracts at most `max_results` listings, in
/// document order, from the candidates that have a title.
pub fn parse_listings(html: &str, max_results: usize) -> (r: Vec<Listing>)
    ensures
        views(r@) == page_listings(html@, max_results as nat),
{
    let page = Page::parse(html);
    let hypotheses: [&str; 7] = [
        "article.vehiculo-card",
        "article.vehicle-card",
        "div.vehiculo-card",
        "div.vehicle-card",
        "div.card-vehicle",
        "div[class*='listing']",
        "article",
    ];
    assert(selector_texts(hypotheses@) =~= card_hypotheses());
    let mut cards: Vec<CardFields> = Vec::new();
    match locate_cards(&page, &hypotheses) {
        Some(sel) => {
            let n = count_matches(&page, &sel);
            let ghost h = committed_hypothesis(html@, card_hypotheses())->0;
            proof {
                lemma_first_hit_in_range(html@, card_hypotheses(), 0);
                assert(sel.text() == card_hypotheses()[h]);
            }
            let mut k: usize = 0;
            while k < n
                invariant
                    k <= n,
                    n as nat == match_count(html@, card_hypotheses()[h]),
                    sel.text() == card_hypotheses()[h],
                    page.text() == html@,
                    card_views(cards@) =~= Seq::new(
                        k as nat,
                        |j: int| card_at(html@, card_hypotheses()[h], j as nat),
                    ),
                decreases n - k,
            {
                let c = read_card(&page, &sel, k);
                let ghost before = cards@;
                cards.push(c);
                assert(card_views(cards@) =~= card_views(before).push(c@));
                k = k + 1;
            }
        },
        None => {},
    }
    assert(card_views(cards@) =~= page_cards(html@));
    collect_listings(&cards, max_results)
}

proof fn lemma_first_hit_in_range(html: Seq<char>, hs: Seq<Seq<char>>, i: int)
    requires
        0 <= i,
    ensures
        first_hit_from(html, hs, i) matches Some(j) ==> i <= j < hs.len(),
    decreases hs.len() - i,
{
    if i < hs.len() {
        lemma_first_hit_in_range(html, hs, i + 1);
    }
}

proof fn lemma_no_hit(html: Seq<char>, hs: Seq<Seq<char>>, i: int)
    requires
        0 <= i,
        forall|j: int| 0 <= j < hs.len() ==> hypothesis_count(html, #[trigger] hs[j]) == 0,
    ensures
        first_hit_from(html, hs, i) is None,
    decreases hs.len() - i,
{
    if i < hs.len() {
        lemma_no_hit(html, hs, i + 1);
    }
}

/// Where no hypothesis gives any candidate on a page, the page yields no
/// listing.
pub proof fn lemma_nothing_located(html: Seq<char>, max_results: nat)
    requires
        forall|j: int|
            0 <= j < card_hypotheses().len() ==> hypothesis_count(
                html,
                #[trigger] card_hypotheses()[j],
            ) == 0,
    ensures
        page_listings(html, max_results) == Seq::<ListingView>::empty(),
{
    lemma_no_hit(html, card_hypotheses(), 0);
    assert(page_cards(html) =~= Seq::<CardView>::empty());
    lemma_no_candidates(max_results);
}

/// Extracting twice from the same page with the same bound gives the same
/// listings.
pub proof fn lemma_extraction_repeatable(
    html: Seq<char>,
    max_results: nat,
    first: Seq<Listing>,
    second: Seq<Listing>,
)
    requires
        views(first) == page_listings(html, max_results),
        views(second) == page_listings(html, max_results),
    ensures
        views(first) == views(second),
        first.len() == second.len(),
{
    assert(first.len() == views(first).len());
    assert(second.len() == views(second).len());
}

} // verus!
