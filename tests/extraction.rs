use vendetunave_scraper::fields::{
    mileage_from_number, parse_decimal, remove_separators, year_from_match,
};
use vendetunave_scraper::{
    absolute_url, build_listing, collect_listings, extract_mileage, extract_year, parse_listings,
    url_encode, CardFields,
};

#[test]
fn test_extract_year() {
    assert_eq!(extract_year("Toyota Corolla 2019 automático"), Some(2019));
    assert_eq!(extract_year("Modelo 1985"), Some(1985));
    assert_eq!(extract_year("Sin año"), None);
}

#[test]
fn test_extract_mileage() {
    assert_eq!(extract_mileage("45.000 km recorridos"), Some(45000));
    assert_eq!(extract_mileage("120000km"), Some(120000));
    assert_eq!(extract_mileage("Sin km"), None);
}

#[test]
fn test_url_encode() {
    assert_eq!(url_encode("Toyota Corolla"), "Toyota+Corolla");
    assert_eq!(url_encode("hello world"), "hello+world");
}

#[test]
fn test_parse_listings_empty_html() {
    let listings = parse_listings("<html><body></body></html>", 20);
    assert!(listings.is_empty());
}

#[test]
fn test_parse_listings_with_article() {
    let html = r#"
        <html><body>
            <article>
                <h2>Toyota Corolla 2020</h2>
                <span class="price">$45.000.000</span>
                <span class="city">Medellín</span>
                <a href="/vehiculos/toyota-corolla-2020">Ver más</a>
                <p>35.000 km recorridos</p>
            </article>
        </body></html>
    "#;
    let listings = parse_listings(html, 20);
    assert_eq!(listings.len(), 1);
    assert_eq!(listings[0].title, "Toyota Corolla 2020");
    assert_eq!(listings[0].year, Some(2020));
    assert_eq!(listings[0].mileage, Some(35000));
    assert_eq!(listings[0].source, "VendeTuNave");
}

#[test]
fn end_to_end_fields_and_url() {
    let html = r#"
        <html><body>
            <article>
                <h2>Toyota Corolla 2020</h2>
                <span class="price">$45.000.000</span>
                <span class="city">Medellín</span>
                <a href="/vehiculos/toyota-corolla-2020">Ver más</a>
                <p>35.000 km recorridos</p>
            </article>
        </body></html>
    "#;
    let listings = parse_listings(html, 20);
    assert_eq!(listings.len(), 1);
    assert_eq!(listings[0].price.as_deref(), Some("$45.000.000"));
    assert_eq!(listings[0].city.as_deref(), Some("Medellín"));
    assert_eq!(
        listings[0].url,
        "https://www.vendetunave.co/vehiculos/toyota-corolla-2020"
    );
}

#[test]
fn year_outside_range_or_inside_longer_run_is_absent() {
    assert_eq!(extract_year("Modelo 1979"), None);
    assert_eq!(extract_year("Modelo 2031"), None);
    assert_eq!(extract_year("ref 120199"), None);
    assert_eq!(extract_year("Modelo 2030"), Some(2030));
    assert_eq!(extract_year("1979 y luego 2005"), Some(2005));
}

#[test]
fn mileage_separators_and_unit_case() {
    assert_eq!(extract_mileage("1,234,567 KM"), Some(1234567));
    assert_eq!(extract_mileage("80.500Km"), Some(80500));
    assert_eq!(extract_mileage("km 5000"), None);
    assert_eq!(extract_mileage("99999999999 km"), None);
}

#[test]
fn decimal_parsing() {
    assert_eq!(parse_decimal("0"), Some(0));
    assert_eq!(parse_decimal("4294967295"), Some(4294967295));
    assert_eq!(parse_decimal("4294967296"), None);
    assert_eq!(parse_decimal(""), None);
    assert_eq!(parse_decimal("12a"), None);
    assert_eq!(parse_decimal("-1"), None);
}

#[test]
fn matched_tokens_to_values() {
    assert_eq!(year_from_match(&Some("2019".to_string())), Some(2019));
    assert_eq!(year_from_match(&Some("2040".to_string())), None);
    assert_eq!(year_from_match(&None), None);
    assert_eq!(remove_separators("1.234,5"), "12345");
    assert_eq!(mileage_from_number(&Some("45.000".to_string())), Some(45000));
    assert_eq!(mileage_from_number(&None), None);
}

#[test]
fn relative_and_absolute_links() {
    assert_eq!(
        absolute_url("/vehiculos/toyota-corolla-2020"),
        "https://www.vendetunave.co/vehiculos/toyota-corolla-2020"
    );
    assert_eq!(absolute_url("https://otro.co/x"), "https://otro.co/x");
    assert_eq!(absolute_url("vehiculos/x"), "https://www.vendetunave.covehiculos/x");
    assert_eq!(absolute_url(""), "https://www.vendetunave.co");
    assert_eq!(absolute_url("http://x.co/a"), "http://x.co/a");
    assert_eq!(absolute_url("httpfoo"), "https://www.vendetunave.cohttpfoo");
    assert_eq!(absolute_url("http:/x"), "https://www.vendetunave.cohttp:/x");
}

#[test]
fn url_encode_non_ascii_and_reserved() {
    assert_eq!(url_encode("año"), "a%C3%B1o");
    assert_eq!(url_encode("a/b&c"), "a%2Fb%26c");
    assert_eq!(url_encode("-_.~"), "-_.~");
    assert_eq!(url_encode(""), "");
    assert_eq!(url_encode("€"), "%E2%82%AC");
    assert_eq!(url_encode("😀"), "%F0%9F%98%80");
}

fn card(title: &str) -> String {
    format!("<article><h3>{title}</h3><p>Modelo 2015, 10.000 km</p></article>")
}

#[test]
fn truncation_keeps_first_titled_in_order() {
    let html = format!(
        "<html><body>{}<article><p>sin titulo</p></article>{}{}{}</body></html>",
        card("Uno"),
        card("Dos"),
        card("Tres"),
        card("Cuatro")
    );
    let listings = parse_listings(&html, 2);
    assert_eq!(listings.len(), 2);
    assert_eq!(listings[0].title, "Uno");
    assert_eq!(listings[1].title, "Dos");
    let all = parse_listings(&html, 20);
    assert_eq!(all.len(), 4);
    assert_eq!(all[3].title, "Cuatro");
}

#[test]
fn untitled_candidates_yield_nothing() {
    let html = "<html><body><article><p>1.000 km</p></article><article> </article></body></html>";
    assert!(parse_listings(html, 20).is_empty());
}

#[test]
fn no_candidates_yield_nothing() {
    let html = "<html><body><div><h2>Toyota</h2></div></body></html>";
    assert!(parse_listings(html, 20).is_empty());
    assert!(parse_listings("garbage <<<", 20).is_empty());
}

#[test]
fn first_matching_hypothesis_wins() {
    let html = r#"<html><body>
        <div class="vehicle-card"><h2>Mazda 3</h2></div>
        <article><h2>Renault 4</h2></article>
    </body></html>"#;
    let listings = parse_listings(html, 20);
    assert_eq!(listings.len(), 1);
    assert_eq!(listings[0].title, "Mazda 3");
    assert_eq!(listings[0].url, "");
    assert_eq!(listings[0].price, None);
    assert_eq!(listings[0].year, None);
}

#[test]
fn title_falls_back_to_later_selectors() {
    let html = r#"<html><body>
        <article><h2>   </h2><span class="titulo">Kia Rio</span>
        <a href="http://x.co/1">ver</a></article>
    </body></html>"#;
    let listings = parse_listings(html, 20);
    assert_eq!(listings.len(), 1);
    assert_eq!(listings[0].title, "Kia Rio");
    assert_eq!(listings[0].url, "http://x.co/1");
}

#[test]
fn extraction_is_repeatable() {
    let html = format!("<html><body>{}{}</body></html>", card("Uno"), card("Dos"));
    let a = parse_listings(&html, 20);
    let b = parse_listings(&html, 20);
    assert_eq!(a.len(), b.len());
    for (x, y) in a.iter().zip(b.iter()) {
        assert_eq!(x.title, y.title);
        assert_eq!(x.price, y.price);
        assert_eq!(x.year, y.year);
        assert_eq!(x.mileage, y.mileage);
        assert_eq!(x.city, y.city);
        assert_eq!(x.url, y.url);
        assert_eq!(x.source, y.source);
    }
}

fn fields(title: Option<&str>, text: &str) -> CardFields {
    CardFields {
        title: title.map(|t| t.to_string()),
        price: Some(String::new()),
        city: Some("Cali".to_string()),
        text: text.to_string(),
        href: Some("/v/1".to_string()),
    }
}

#[test]
fn build_and_collect_from_fields() {
    assert!(build_listing(&fields(None, "2010")).is_none());
    assert!(build_listing(&fields(Some(""), "2010")).is_none());
    let l = build_listing(&fields(Some("Chevrolet Spark"), "Spark 2010 - 60.000 km")).unwrap();
    assert_eq!(l.title, "Chevrolet Spark");
    assert_eq!(l.price, None);
    assert_eq!(l.city.as_deref(), Some("Cali"));
    assert_eq!(l.year, Some(2010));
    assert_eq!(l.mileage, Some(60000));
    assert_eq!(l.url, "https://www.vendetunave.co/v/1");
    assert_eq!(l.source, "VendeTuNave");

    let cards = vec![
        fields(Some("A"), ""),
        fields(None, ""),
        fields(Some("B"), ""),
        fields(Some("C"), ""),
    ];
    let got = collect_listings(&cards, 2);
    assert_eq!(got.len(), 2);
    assert_eq!(got[0].title, "A");
    assert_eq!(got[1].title, "B");
    assert_eq!(collect_listings(&cards, 0).len(), 0);
    assert_eq!(collect_listings(&cards, 10).len(), 3);
    assert_eq!(collect_listings(&Vec::new(), 10).len(), 0);
}

#[test]
fn texts_are_trimmed_and_zero_bound_gives_nothing() {
    let html = "<html><body><article><h2>\n   Kia   Rio  \n</h2>\
                <div class=\"ubicacion\">  Bogotá </div></article></body></html>";
    let listings = parse_listings(html, 20);
    assert_eq!(listings.len(), 1);
    assert_eq!(listings[0].title, "Kia   Rio");
    assert_eq!(listings[0].city.as_deref(), Some("Bogotá"));
    assert!(parse_listings(html, 0).is_empty());
}

#[test]
fn unicode_white_space_is_trimmed() {
    let html = "<html><body><article><h2>\u{a0}\u{3000}Kia Rio\u{2009}\t</h2>\
                <span class=\"precio\">\u{85} $30.000.000 </span></article></body></html>";
    let listings = parse_listings(html, 20);
    assert_eq!(listings.len(), 1);
    assert_eq!(listings[0].title, "Kia Rio");
    assert_eq!(listings[0].price.as_deref(), Some("$30.000.000"));
}
