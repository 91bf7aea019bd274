use broadcast_hub::articles::{article_query, not_found_message, Article};

#[test]
fn query_text_is_exact() {
    assert_eq!(
        article_query(7),
        "SELECT title, content, published_date FROM articles WHERE id = 7"
    );
    assert_eq!(
        article_query(120),
        "SELECT title, content, published_date FROM articles WHERE id = 120"
    );
}

#[test]
fn not_found_text_is_exact() {
    assert_eq!(not_found_message(3), "Article with id 3 not found");
}

#[test]
fn article_keeps_its_fields() {
    let a = Article {
        title: "t".to_string(),
        content: "c".to_string(),
        published_date: "2024-01-01".to_string(),
    };
    assert_eq!(a.title, "t");
    assert_eq!(a.content, "c");
    assert_eq!(a.published_date, "2024-01-01");
}
