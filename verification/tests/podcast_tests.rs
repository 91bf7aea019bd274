use broadcast_hub::podcast::{index_html, podcast_page, Podcast};

#[test]
fn new_is_blank() {
    let p = Podcast::new();
    assert_eq!(p.title, "");
    assert_eq!(p.description, "");
    assert!(p.audio_file.is_none());
}

#[test]
fn to_html_with_audio() {
    let p = Podcast {
        title: "Ep 1".to_string(),
        description: "The first one".to_string(),
        audio_file: Some("https://example.org/ep1.mp3".to_string()),
    };
    let expected = format!(
        r#"
            <html>
                <head>
                    <title>My Podcast: {}</title>
                </head>
                <body>
                    <h1>{}</h1>
                    <p>{}</p>
                    <audio controls src="{}"></audio>
                </body>
            </html>
        "#,
        "Ep 1", "Ep 1", "The first one", "https://example.org/ep1.mp3"
    );
    assert_eq!(p.to_html(), expected);
}

fn sample(title: &str) -> Podcast {
    Podcast {
        title: title.to_string(),
        description: "d".to_string(),
        audio_file: None,
    }
}

#[test]
fn index_page_lists_each_title_under_its_number() {
    let podcasts = vec![sample("One"), sample("Two"), sample("Three")];
    let expected_items = podcasts
        .iter()
        .enumerate()
        .map(|(id, p)| format!(r#"<li><a href="/{}">{}</a></li>"#, id, p.title))
        .collect::<Vec<String>>()
        .join("\n");
    let expected = format!(
        r#"
<html>
    <head>
        <title>My Podcasts</title>
    </head>
    <body>
        <h1>My Podcasts</h1>
        <ul>
            {}
        </ul>
    </body>
</html>
    "#,
        expected_items
    );
    assert_eq!(index_html(&podcasts), expected);
}

#[test]
fn index_page_of_no_podcasts_has_an_empty_list() {
    let html = index_html(&Vec::new());
    assert!(html.contains("<ul>"));
    assert!(!html.contains("<li>"));
}

#[test]
fn podcast_page_falls_back_when_id_is_out_of_range() {
    let podcasts = vec![sample("Solo")];
    assert_eq!(podcast_page(&podcasts, 0), podcasts[0].to_html());
    assert_eq!(podcast_page(&podcasts, 1), "No podcast found");
}

#[test]
fn to_html_without_audio_uses_placeholder() {
    let p = Podcast {
        title: "Ep 2".to_string(),
        description: "No sound".to_string(),
        audio_file: None,
    };
    let html = p.to_html();
    assert!(html.contains("<audio controls src=\"No audio available\"></audio>"));
    assert!(html.contains("<title>My Podcast: Ep 2</title>"));
}
