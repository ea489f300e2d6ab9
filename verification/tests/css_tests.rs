use snaggy::css::{parse_font_faces, parse_imports, infer_format_from_url, detect_font_source};

const SHEET: &str = "https://example.com/styles/main.css";

#[test]
fn parses_a_full_block() {
    let css = "@font-face { font-family: 'My Font'; font-weight: 700; font-style: italic; \
               src: url('fonts/my.woff2') format('woff2'); }";
    let faces = parse_font_faces(css, SHEET);
    assert_eq!(faces.len(), 1);
    assert_eq!(faces[0].family, "My Font");
    assert_eq!(faces[0].weight, "700");
    assert_eq!(faces[0].style, "italic");
    assert_eq!(faces[0].url, "https://example.com/styles/fonts/my.woff2");
    assert_eq!(faces[0].format, "woff2");
}

#[test]
fn weight_and_style_default() {
    let css = "@font-face { font-family: Plain; src: url(a.woff); }";
    let faces = parse_font_faces(css, SHEET);
    assert_eq!(faces.len(), 1);
    assert_eq!(faces[0].weight, "400");
    assert_eq!(faces[0].style, "normal");
    assert_eq!(faces[0].format, "woff");
}

#[test]
fn block_without_family_is_discarded() {
    let css = "@font-face { src: url(a.woff2); }";
    assert_eq!(parse_font_faces(css, SHEET).len(), 0);
}

#[test]
fn woff2_wins_over_woff_without_format_tokens() {
    let css = "@font-face { font-family: Duo; src: url(duo.woff), url(duo.woff2); }";
    let faces = parse_font_faces(css, SHEET);
    assert_eq!(faces.len(), 1);
    assert_eq!(faces[0].url, "https://example.com/styles/duo.woff2");
    assert_eq!(faces[0].format, "woff2");
}

#[test]
fn earliest_of_equal_priority_wins() {
    let css = "@font-face { font-family: Duo; src: url(first.woff), url(second.woff); }";
    let faces = parse_font_faces(css, SHEET);
    assert_eq!(faces[0].url, "https://example.com/styles/first.woff");
}

#[test]
fn data_urls_are_never_emitted() {
    let css = "@font-face { font-family: Inline; src: url(data:font/woff2;base64,AAAA); }";
    assert_eq!(parse_font_faces(css, SHEET).len(), 0);
    let css2 = "@font-face { font-family: Mixed; \
                src: url(data:font/woff2;base64,AAAA), url(real.woff); }";
    let faces = parse_font_faces(css2, SHEET);
    assert_eq!(faces.len(), 1);
    assert_eq!(faces[0].url, "https://example.com/styles/real.woff");
}

#[test]
fn unclosed_block_matches_nothing() {
    let css = "@font-face { font-family: Broken; src: url(a.woff2); ";
    assert_eq!(parse_font_faces(css, SHEET).len(), 0);
}

#[test]
fn keyword_weight_is_kept_as_written() {
    let css = "@font-face { font-family: K; font-weight: Bold; src: url(k.woff); }";
    let faces = parse_font_faces(css, SHEET);
    assert_eq!(faces[0].weight, "Bold");
}

#[test]
fn two_blocks_two_faces() {
    let css = "@font-face { font-family: A; src: url(a.woff2); }\n\
               @font-face { font-family: B; src: url(b.woff2); }";
    let faces = parse_font_faces(css, SHEET);
    assert_eq!(faces.len(), 2);
    assert_eq!(faces[0].family, "A");
    assert_eq!(faces[1].family, "B");
}

#[test]
fn format_inference_keys_on_the_file_extension() {
    assert_eq!(infer_format_from_url("https://x/a.WOFF2?v=1"), "woff2");
    assert_eq!(infer_format_from_url("https://x/a.woff"), "woff");
    assert_eq!(infer_format_from_url("https://x/a.ttf"), "truetype");
    assert_eq!(infer_format_from_url("https://x/a.otf"), "opentype");
    assert_eq!(infer_format_from_url("https://x/a.eot?#iefix"), "embedded-opentype");
    assert_eq!(infer_format_from_url("https://x/a.svg#glyphs"), "svg");
    assert_eq!(infer_format_from_url("https://x/a.bin"), "unknown");
    // only the extension counts, not a fragment elsewhere in the name
    assert_eq!(infer_format_from_url("https://x/a.woff2b.eot"), "embedded-opentype");
    assert_eq!(infer_format_from_url("https://x/style.css"), "unknown");
    assert_eq!(infer_format_from_url("https://x/noext"), "unknown");
    assert_eq!(infer_format_from_url("https://x/dir.woff2/file"), "unknown");
}

#[test]
fn source_classification_keys_on_the_host() {
    assert_eq!(detect_font_source("https://fonts.gstatic.com/s/r.woff2"), "google-fonts");
    assert_eq!(detect_font_source("https://fonts.googleapis.com/css"), "google-fonts");
    assert_eq!(detect_font_source("https://use.typekit.net/x.woff2"), "adobe-fonts");
    assert_eq!(detect_font_source("https://p.typekit.net/x.woff2"), "adobe-fonts");
    assert_eq!(detect_font_source("https://example.com/x.woff2"), "custom");
    // a needle in the path or query does not change the host
    assert_eq!(detect_font_source("https://example.com/fonts.gstatic.com"), "custom");
    assert_eq!(detect_font_source("https://example.com/x?u=use.typekit.net"), "custom");
}

#[test]
fn imports_in_both_forms_in_order() {
    let css = "@import url('one.css');\nbody { color: red }\n@import \"two.css\";";
    let imports = parse_imports(css, SHEET);
    assert_eq!(imports.len(), 2);
    assert_eq!(imports[0], "https://example.com/styles/one.css");
    assert_eq!(imports[1], "https://example.com/styles/two.css");
}

#[test]
fn import_needs_whitespace_after_keyword() {
    let css = "@importurl('one.css');";
    assert_eq!(parse_imports(css, SHEET).len(), 0);
}

#[test]
fn import_of_absolute_url() {
    let css = "@import url(https://cdn.example.net/theme.css);";
    let imports = parse_imports(css, SHEET);
    assert_eq!(imports, vec!["https://cdn.example.net/theme.css".to_string()]);
}
