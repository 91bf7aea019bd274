use broadcast_hub::envelope::{enrich_text, render_usize};

#[test]
fn render_usize_exact_values() {
    assert_eq!(render_usize(0), "0");
    assert_eq!(render_usize(7), "7");
    assert_eq!(render_usize(10), "10");
    assert_eq!(render_usize(907), "907");
    assert_eq!(render_usize(1000000), "1000000");
}

#[test]
fn enrich_sets_uid_in_field_order() {
    let out = enrich_text("{\"name\":\"alice\",\"message\":\"hi\"}", 1);
    assert_eq!(out, "{\"name\":\"alice\",\"uid\":1,\"message\":\"hi\"}");
}

#[test]
fn enrich_overwrites_client_supplied_uid() {
    let out = enrich_text("{\"name\":\"bob\",\"uid\":42,\"message\":\"yo\"}", 3);
    assert_eq!(out, "{\"name\":\"bob\",\"uid\":3,\"message\":\"yo\"}");
}

#[test]
fn enrich_tolerates_unknown_fields() {
    let out = enrich_text("{\"name\":\"carol\",\"message\":\"hey\",\"extra\":[1,2]}", 12);
    assert_eq!(out, "{\"name\":\"carol\",\"uid\":12,\"message\":\"hey\"}");
}

#[test]
fn enrich_escapes_are_kept() {
    let out = enrich_text("{\"name\":\"a\\\"b\",\"message\":\"line\\nbreak\"}", 2);
    assert_eq!(out, "{\"name\":\"a\\\"b\",\"uid\":2,\"message\":\"line\\nbreak\"}");
}

#[test]
fn malformed_text_passes_through_unchanged() {
    assert_eq!(enrich_text("not json", 1), "not json");
    assert_eq!(enrich_text("", 1), "");
    assert_eq!(enrich_text("[1,2,3]", 1), "[1,2,3]");
    assert_eq!(enrich_text("{\"name\":\"alice\"}", 1), "{\"name\":\"alice\"}");
    assert_eq!(enrich_text("{\"name\":1,\"message\":\"hi\"}", 1), "{\"name\":1,\"message\":\"hi\"}");
}
