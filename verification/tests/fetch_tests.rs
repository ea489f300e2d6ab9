use snaggy::fetch::{fetch_init, fetch_next, fetch_step, fetch_faces};

const A: &str = "https://example.com/a.css";

#[test]
fn imports_are_followed_exactly_one_level_deep() {
    // A imports B; B imports C; only A was listed on the page.
    let css_a = "@import url(b.css);\n@font-face { font-family: FromA; src: url(a.woff2); }";
    let css_b = "@import url(c.css);\n@font-face { font-family: FromB; src: url(b.woff2); }";
    let css_c = "@font-face { font-family: FromC; src: url(c.woff2); }";

    let mut st = fetch_init(vec![A.to_string()], 5);
    assert_eq!(fetch_next(&st).as_deref(), Some(A));
    fetch_step(&mut st, Some(css_a));

    assert_eq!(fetch_next(&st).as_deref(), Some("https://example.com/b.css"));
    fetch_step(&mut st, Some(css_b));

    // B's own import (C) must not be enqueued.
    assert_eq!(fetch_next(&st), None);
    let _ = css_c;

    let faces = fetch_faces(st);
    let families: Vec<&str> = faces.iter().map(|f| f.family.as_str()).collect();
    assert_eq!(families, vec!["FromA", "FromB"]);
}

#[test]
fn imports_are_truncated_to_the_bound() {
    let css_a = "@import url(i1.css); @import url(i2.css); @import url(i3.css);";
    let mut st = fetch_init(vec![A.to_string()], 2);
    fetch_step(&mut st, Some(css_a));
    assert_eq!(fetch_next(&st).as_deref(), Some("https://example.com/i1.css"));
    fetch_step(&mut st, None);
    assert_eq!(fetch_next(&st).as_deref(), Some("https://example.com/i2.css"));
    fetch_step(&mut st, None);
    assert_eq!(fetch_next(&st), None);
}

#[test]
fn imports_run_before_the_next_top_level_sheet() {
    let b = "https://example.com/b.css";
    let css_a = "@import url(ai.css);";
    let mut st = fetch_init(vec![A.to_string(), b.to_string()], 5);
    fetch_step(&mut st, Some(css_a));
    assert_eq!(fetch_next(&st).as_deref(), Some("https://example.com/ai.css"));
    fetch_step(&mut st, None);
    assert_eq!(fetch_next(&st).as_deref(), Some(b));
}

#[test]
fn a_failed_fetch_is_skipped_and_the_scan_goes_on() {
    let b = "https://example.com/b.css";
    let css_b = "@font-face { font-family: Survivor; src: url(s.woff2); }";
    let mut st = fetch_init(vec![A.to_string(), b.to_string()], 5);
    fetch_step(&mut st, None);
    assert_eq!(fetch_next(&st).as_deref(), Some(b));
    fetch_step(&mut st, Some(css_b));
    assert_eq!(fetch_next(&st), None);
    let faces = fetch_faces(st);
    assert_eq!(faces.len(), 1);
    assert_eq!(faces[0].family, "Survivor");
}

#[test]
fn facts_resolve_against_their_own_stylesheet() {
    let css_a = "@import url(sub/i.css);";
    let css_i = "@font-face { font-family: Deep; src: url(deep.woff2); }";
    let mut st = fetch_init(vec![A.to_string()], 5);
    fetch_step(&mut st, Some(css_a));
    assert_eq!(fetch_next(&st).as_deref(), Some("https://example.com/sub/i.css"));
    fetch_step(&mut st, Some(css_i));
    let faces = fetch_faces(st);
    assert_eq!(faces[0].url, "https://example.com/sub/deep.woff2");
}
