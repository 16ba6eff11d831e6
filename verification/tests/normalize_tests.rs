use news::normalize::normalize;

fn norm(s: &str) -> String {
    normalize(Some(s.to_string())).unwrap()
}

#[test]
fn absent_text_stays_absent() {
    assert_eq!(normalize(None), None);
}

#[test]
fn strips_simple_tags() {
    assert_eq!(norm("<p>Hello <b>world</b></p>"), "Hello world");
}

#[test]
fn tag_matcher_skips_quoted_attribute_values() {
    assert_eq!(norm("a<a href=\"x>y\">b</a>c"), "abc");
    assert_eq!(norm("a<a href='x>y'>b</a>c"), "abc");
}

#[test]
fn unclosed_angle_bracket_is_kept() {
    assert_eq!(norm("a < b"), "a < b");
}

#[test]
fn decodes_all_seven_entities() {
    assert_eq!(norm("&#039;&#8216;&#8217;&#46;&amp;&quot;&#8220;"), "'''.&\"\"");
}

#[test]
fn entity_decoding_respects_replacement_order() {
    // The numeric code is looked for before `&amp;` is decoded, so the
    // ampersand produced by the later replacement is not re-matched.
    assert_eq!(norm("&amp;#039;"), "&#039;");
}

#[test]
fn collapses_doubled_newline() {
    assert_eq!(norm("a\n\nb"), "a\nb");
    assert_eq!(norm("a\n\n\n\nb"), "a\n\nb");
}

#[test]
fn removes_ad_snippet() {
    assert_eq!(norm("x(adsbygoogle = window.adsbygoogle || []).push({});y"), "xy");
}

#[test]
fn idempotent_on_clean_text() {
    let clean = "Hello, plain world.\nSecond line.";
    let once = norm(clean);
    assert_eq!(once, clean);
    let twice = normalize(Some(once.clone())).unwrap();
    assert_eq!(twice, once);
}

#[test]
fn applied_identically_to_description_and_content() {
    let raw = "<i>due &amp; paid</i>";
    assert_eq!(norm(raw), "due & paid");
}
