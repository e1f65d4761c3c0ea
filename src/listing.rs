use vstd::prelude::*;

use crate::fields::{extract_mileage, extract_year, mileage_in, opt_view, year_in};
use crate::url::{absolute_url, resolve_href};

verus! {

/// The name that every listing gives as its source.
pub const SOURCE_NAME: &'static str = "VendeTuNave";

/// One vehicle listing recovered from a results page.
pub struct Listing {
    pub title: String,
    pub price: Option<String>,
    pub year: Option<u32>,
    pub mileage: Option<u32>,
    pub city: Option<String>,
    pub url: String,
    pub source: String,
}

/// A listing as plain values.
pub struct ListingView {
    pub title: Seq<char>,
    pub price: Option<Seq<char>>,
    pub year: Option<u32>,
    pub mileage: Option<u32>,
    pub city: Option<Seq<char>>,
    pub url: Seq<char>,
    pub source: Seq<char>,
}

impl View for Listing {
    type V = ListingView;

    open spec fn view(&self) -> ListingView {
        ListingView {
            title: self.title@,
            price: opt_view(&self.price),
            year: self.year,
            mileage: self.mileage,
            city: opt_view(&self.city),
            url: self.url@,
            source: self.source@,
        }
    }
}

/// What was read from one candidate element of a page: the texts found for
/// the title, the price and the city, the text of the whole element, and the
/// `href` of its first link.
pub struct CardFields {
    pub title: Option<String>,
    pub price: Option<String>,
    pub city: Option<String>,
    pub text: String,
    pub href: Option<String>,
}

/// What was read from one candidate, as plain values.
pub struct CardView {
    pub title: Option<Seq<char>>,
    pub price: Option<Seq<char>>,
    pub city: Option<Seq<char>>,
    pub text: Seq<char>,
    pub href: Option<Seq<char>>,
}

impl View for CardFields {
    type V = CardView;

    open spec fn view(&self) -> CardView {
        CardView {
            title: opt_view(&self.title),
            price: opt_view(&self.price),
            city: opt_view(&self.city),
            text: self.text@,
            href: opt_view(&self.href),
        }
    }
}

/// The views of a sequence of candidates.
pub open spec fn card_views(cs: Seq<CardFields>) -> Seq<CardView> {
    cs.map_values(|c: CardFields| c@)
}

/// A text that was found and is not empty.
pub open spec fn present(o: Option<Seq<char>>) -> Option<Seq<char>> {
    match o {
        Some(t) => if t.len() > 0 {
            Some(t)
        } else {
            None
        },
        None => None,
    }
}

/// The URL of a listing: its link made absolute, or empty where it has no link.
pub open spec fn link_url(href: Option<Seq<char>>) -> Seq<char> {
    match href {
        Some(h) => resolve_href(h),
        None => Seq::empty(),
    }
}

/// Whether a candidate has a title, and so yields a listing.
pub open spec fn has_title(f: CardView) -> bool {
    present(f.title) is Some
}

/// The listing that a candidate with a title yields.
pub open spec fn listing_of(f: CardView) -> ListingView {
    ListingView {
        title: f.title->0,
        price: present(f.price),
        year: year_in(f.text),
        mileage: mileage_in(f.text),
        city: present(f.city),
        url: link_url(f.href),
        source: SOURCE_NAME@,
    }
}

/// The listings of the candidates that have a title, in order.
pub open spec fn titled(fs: Seq<CardView>) -> Seq<ListingView>
    decreases fs.len(),
{
    if fs.len() == 0 {
        Seq::empty()
    } else if has_title(fs.last()) {
        titled(fs.drop_last()).push(listing_of(fs.last()))
    } else {
        titled(fs.drop_last())
    }
}

/// The first `max` listings of the candidates that have a title.
pub open spec fn selected(fs: Seq<CardView>, max: nat) -> Seq<ListingView> {
    let t = titled(fs);
    if t.len() <= max {
        t
    } else {
        t.subrange(0, max as int)
    }
}

/// The views of a sequence of listings.
pub open spec fn views(ls: Seq<Listing>) -> Seq<ListingView> {
    ls.map_values(|l: Listing| l@)
}

fn present_text(o: &Option<String>) -> (r: Option<String>)
    ensures
        opt_view(&r) == present(opt_view(o)),
{
    match o {
        Some(t) => if t.as_str().is_empty() {
            None
        } else {
            Some(t.clone())
        },
        None => None,
    }
}

/// The URL of a listing from the `href` of its first link, if it has one.
pub fn extract_link(href: &Option<String>) -> (r: String)
    ensures
        r@ == link_url(opt_view(href)),
{
    match href {
        Some(h) => absolute_url(h.as_str()),
        None => String::new(),
    }
}

/// Builds the listing of one candidate; a candidate without a title yields none.
pub fn build_listing(f: &CardFields) -> (r: Option<Listing>)
    ensures
        r is Some <==> has_title(f@),
        r matches Some(l) ==> l@ == listing_of(f@),
{
    let title = match present_text(&f.title) {
        Some(t) => t,
        None => return None,
    };
    let price = present_text(&f.price);
    let city = present_text(&f.city);
    let year = extract_year(f.text.as_str());
    let mileage = extract_mileage(f.text.as_str());
    let url = extract_link(&f.href);
    let source = String::from_str(SOURCE_NAME);
    Some(Listing { title, price, year, mileage, city, url, source })
}

/// The listings of the candidates in order, dropping those without a title,
/// and stopping at `max_results` listings.
pub fn collect_listings(cards: &Vec<CardFields>, max_results: usize) -> (r: Vec<Listing>)
    ensures
        views(r@) == selected(card_views(cards@), max_results as nat),
{
    let mut out: Vec<Listing> = Vec::new();
    let mut i: usize = 0;
    while i < cards.len() && out.len() < max_results
        invariant
            i <= cards@.len(),
            out@.len() <= max_results,
            views(out@) == titled(card_views(cards@).subrange(0, i as int)),
        decreases cards@.len() - i,
    {
        let built = build_listing(&cards[i]);
        let ghost all = card_views(cards@);
        assert(all.subrange(0, i + 1).drop_last() =~= all.subrange(0, i as int));
        assert(all.subrange(0, i + 1).last() == cards@[i as int]@);
        match built {
            Some(l) => {
                out.push(l);
                assert(views(out@) =~= titled(all.subrange(0, i + 1)));
            },
            None => {},
        }
        i = i + 1;
    }
    proof {
        let all = card_views(cards@);
        let t = titled(all);
        if i == cards@.len() {
            assert(all.subrange(0, i as int) =~= all);
        } else {
            lemma_titled_prefix(all, i as int);
            assert(views(out@) =~= t.subrange(0, max_results as int));
        }
    }
    out
}

/// The titled listings of a prefix of the candidates begin the titled
/// listings of all of them.
proof fn lemma_titled_prefix(fs: Seq<CardView>, n: int)
    requires
        0 <= n <= fs.len(),
    ensures
        titled(fs.subrange(0, n)).len() <= titled(fs).len(),
        titled(fs).subrange(0, titled(fs.subrange(0, n)).len() as int) == titled(
            fs.subrange(0, n),
        ),
    decreases fs.len() - n,
{
    if n == fs.len() {
        assert(fs.subrange(0, n) =~= fs);
        assert(titled(fs).subrange(0, titled(fs).len() as int) =~= titled(fs));
    } else {
        lemma_titled_prefix(fs, n + 1);
        let a = titled(fs.subrange(0, n));
        let b = titled(fs.subrange(0, n + 1));
        let t = titled(fs);
        assert(fs.subrange(0, n + 1).drop_last() =~= fs.subrange(0, n));
        assert(t.subrange(0, a.len() as int) =~= b.subrange(0, a.len() as int));
        assert(b.subrange(0, a.len() as int) =~= a);
    }
}

/// Titled listings of two runs of candidates are those of the first run
/// followed by those of the second.
pub proof fn lemma_titled_concat(a: Seq<CardView>, b: Seq<CardView>)
    ensures
        titled(a + b) == titled(a) + titled(b),
    decreases b.len(),
{
    if b.len() == 0 {
        assert(a + b =~= a);
        assert(titled(a) + titled(b) =~= titled(a));
    } else {
        lemma_titled_concat(a, b.drop_last());
        assert((a + b).drop_last() =~= a + b.drop_last());
        assert(titled(a) + titled(b) =~= if has_title(b.last()) {
            (titled(a) + titled(b.drop_last())).push(listing_of(b.last()))
        } else {
            titled(a) + titled(b.drop_last())
        });
    }
}

/// A page with no candidate yields no listing, whatever the bound.
pub proof fn lemma_no_candidates(max_results: nat)
    ensures
        selected(Seq::empty(), max_results) == Seq::<ListingView>::empty(),
{
    assert(titled(Seq::<CardView>::empty()) =~= Seq::<ListingView>::empty());
}

/// A candidate without a title yields no listing: wherever it stands among the
/// other candidates, the listings are those of the others.
pub proof fn lemma_untitled_dropped(
    before: Seq<CardView>,
    f: CardView,
    after: Seq<CardView>,
    max_results: nat,
)
    requires
        !has_title(f),
    ensures
        selected(before.push(f) + after, max_results) == selected(before + after, max_results),
{
    lemma_titled_concat(before.push(f), after);
    lemma_titled_concat(before, after);
    assert(titled(before.push(f)) == titled(before)) by {
        assert(before.push(f).drop_last() =~= before);
    }
}

/// Every listing has a non-empty title and names the site as its source.
pub proof fn lemma_selected_well_formed(cards: Seq<CardView>, max_results: nat)
    ensures
        selected(cards, max_results).len() <= max_results,
        forall|i: int|
            0 <= i < selected(cards, max_results).len() ==> {
                let l = #[trigger] selected(cards, max_results)[i];
                l.title.len() > 0 && l.source == SOURCE_NAME@
            },
{
    lemma_titled_well_formed(cards);
}

proof fn lemma_titled_well_formed(cards: Seq<CardView>)
    ensures
        forall|i: int|
            0 <= i < titled(cards).len() ==> {
                let l = #[trigger] titled(cards)[i];
                l.title.len() > 0 && l.source == SOURCE_NAME@
            },
    decreases cards.len(),
{
    if cards.len() > 0 {
        lemma_titled_well_formed(cards.drop_last());
    }
}

/// Asked for `k` listings where more than `k` candidates have a title, the
/// extraction gives exactly `k`: those of the first `k` titled candidates, in
/// document order.
pub proof fn lemma_truncation(cards: Seq<CardView>, k: nat)
    requires
        titled(cards).len() > k,
    ensures
        selected(cards, k).len() == k,
        forall|i: int| 0 <= i < k ==> #[trigger] selected(cards, k)[i] == titled(cards)[i],
{
}

} // verus!
