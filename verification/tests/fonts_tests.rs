use snaggy::css::RawFontFace;
use snaggy::fonts::group_fonts;

fn face(family: &str, weight: &str, style: &str, url: &str, format: &str) -> RawFontFace {
    RawFontFace {
        family: family.to_string(),
        weight: weight.to_string(),
        style: style.to_string(),
        url: url.to_string(),
        format: format.to_string(),
    }
}

#[test]
fn families_are_sorted_and_grouped() {
    let fonts = group_fonts(vec![
        face("Zeta", "400", "normal", "https://x/z.woff2", "woff2"),
        face("Alpha", "400", "normal", "https://x/a.woff2", "woff2"),
        face("Zeta", "700", "normal", "https://x/z7.woff2", "woff2"),
    ]);
    assert_eq!(fonts.len(), 2);
    assert_eq!(fonts[0].family, "Alpha");
    assert_eq!(fonts[1].family, "Zeta");
    assert_eq!(fonts[1].variants.len(), 2);
}

#[test]
fn variants_are_unique_by_url_first_declaration_wins() {
    let fonts = group_fonts(vec![
        face("One", "400", "normal", "https://x/same.woff2", "woff2"),
        face("One", "700", "italic", "https://x/same.woff2", "woff2"),
        face("One", "500", "normal", "https://x/other.woff2", "woff2"),
    ]);
    assert_eq!(fonts.len(), 1);
    let v = &fonts[0].variants;
    assert_eq!(v.len(), 2);
    for i in 0..v.len() {
        for j in i + 1..v.len() {
            assert_ne!(v[i].url, v[j].url);
        }
    }
    let kept = v.iter().find(|x| x.url == "https://x/same.woff2").unwrap();
    assert_eq!(kept.weight, "400");
    assert_eq!(kept.style, "normal");
}

#[test]
fn variants_sorted_by_weight_then_style() {
    let fonts = group_fonts(vec![
        face("F", "700", "normal", "https://x/700.woff2", "woff2"),
        face("F", "100", "normal", "https://x/100.woff2", "woff2"),
        face("F", "400", "italic", "https://x/400i.woff2", "woff2"),
        face("F", "400", "normal", "https://x/400n.woff2", "woff2"),
    ]);
    let v = &fonts[0].variants;
    let weights: Vec<&str> = v.iter().map(|x| x.weight.as_str()).collect();
    assert_eq!(weights, vec!["100", "400", "400", "700"]);
    assert_eq!(v[1].style, "italic");
    assert_eq!(v[2].style, "normal");
}

#[test]
fn keyword_weights_order_as_400() {
    let fonts = group_fonts(vec![
        face("F", "bold", "normal", "https://x/b.woff2", "woff2"),
        face("F", "300", "normal", "https://x/3.woff2", "woff2"),
        face("F", "500", "normal", "https://x/5.woff2", "woff2"),
    ]);
    let urls: Vec<&str> = fonts[0].variants.iter().map(|x| x.url.as_str()).collect();
    assert_eq!(urls, vec!["https://x/3.woff2", "https://x/b.woff2", "https://x/5.woff2"]);
}

#[test]
fn source_comes_from_the_first_sorted_variant() {
    // the 700-weight Google URL is declared first, but after sorting the
    // 400-weight custom URL leads, so the family classifies as custom
    let fonts = group_fonts(vec![
        face("Mix", "700", "normal", "https://fonts.gstatic.com/s/a.woff2", "woff2"),
        face("Mix", "400", "normal", "https://example.com/b.woff2", "woff2"),
    ]);
    assert_eq!(fonts[0].source, "custom");
    let fonts2 = group_fonts(vec![
        face("Mix", "400", "normal", "https://example.com/b.woff2", "woff2"),
        face("Mix", "700", "normal", "https://fonts.gstatic.com/s/a.woff2", "woff2"),
    ]);
    assert_eq!(fonts2[0].source, "custom");
}

#[test]
fn adobe_and_custom_sources() {
    let fonts = group_fonts(vec![
        face("A", "400", "normal", "https://use.typekit.net/a.woff2", "woff2"),
        face("B", "400", "normal", "https://example.org/b.woff2", "woff2"),
    ]);
    assert_eq!(fonts[0].source, "adobe-fonts");
    assert_eq!(fonts[1].source, "custom");
}

#[test]
fn family_grouping_is_case_sensitive() {
    let fonts = group_fonts(vec![
        face("Roboto", "400", "normal", "https://x/r1.woff2", "woff2"),
        face("roboto", "400", "normal", "https://x/r2.woff2", "woff2"),
    ]);
    assert_eq!(fonts.len(), 2);
    assert_eq!(fonts[0].family, "Roboto");
    assert_eq!(fonts[1].family, "roboto");
}

#[test]
fn catalog_is_independent_of_accumulation_order() {
    let a = vec![
        face("B", "700", "italic", "https://x/b2.woff2", "woff2"),
        face("A", "400", "normal", "https://fonts.gstatic.com/a.woff2", "woff2"),
        face("B", "400", "normal", "https://x/b1.woff2", "woff2"),
        face("A", "700", "normal", "https://x/a2.woff2", "woff2"),
    ];
    let mut b = a.clone();
    b.reverse();
    assert_eq!(group_fonts(a), group_fonts(b));
}

#[test]
fn empty_input_empty_catalog() {
    assert_eq!(group_fonts(Vec::new()).len(), 0);
}
