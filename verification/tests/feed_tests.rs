use broadcast_hub::feed::{collect_podcasts, podcasts_from_feed, RssEvent};

#[test]
fn folds_handbuilt_events_into_podcasts() {
    let events = vec![
        RssEvent::Start("item".to_string(), vec![]),
        RssEvent::Start("title".to_string(), vec![]),
        RssEvent::CData("First".to_string()),
        RssEvent::Start("description".to_string(), vec![]),
        RssEvent::CData("About first".to_string()),
        RssEvent::Start(
            "enclosure".to_string(),
            vec![
                ("length".to_string(), "123".to_string()),
                ("url".to_string(), "https://example.org/1.mp3".to_string()),
            ],
        ),
        RssEvent::Other,
        RssEvent::End("item".to_string()),
    ];
    let podcasts = collect_podcasts(&events);
    assert_eq!(podcasts.len(), 1);
    assert_eq!(podcasts[0].title, "First");
    assert_eq!(podcasts[0].description, "About first");
    assert_eq!(
        podcasts[0].audio_file.as_deref(),
        Some("https://example.org/1.mp3")
    );
}

#[test]
fn cdata_outside_open_field_is_ignored() {
    let events = vec![
        RssEvent::CData("stray".to_string()),
        RssEvent::Start("title".to_string(), vec![]),
        RssEvent::CData("Kept".to_string()),
        RssEvent::End("item".to_string()),
    ];
    let podcasts = collect_podcasts(&events);
    assert_eq!(podcasts.len(), 1);
    assert_eq!(podcasts[0].title, "Kept");
    assert_eq!(podcasts[0].description, "");
}

#[test]
fn enclosure_without_url_clears_audio() {
    let events = vec![
        RssEvent::Start(
            "enclosure".to_string(),
            vec![("href".to_string(), "x".to_string())],
        ),
        RssEvent::End("item".to_string()),
    ];
    let podcasts = collect_podcasts(&events);
    assert_eq!(podcasts.len(), 1);
    assert!(podcasts[0].audio_file.is_none());
}

#[test]
fn reads_podcasts_from_a_feed_document() {
    let doc = "<rss><channel>\
        <item>\
        <title><![CDATA[Episode one]]></title>\
        <description><![CDATA[All about one]]></description>\
        <enclosure url=\"https://example.org/one.mp3\" length=\"1\"/>\
        </item>\
        <item>\
        <title><![CDATA[Episode two]]></title>\
        <description><![CDATA[All about two]]></description>\
        </item>\
        </channel></rss>";
    let podcasts = podcasts_from_feed(doc);
    assert_eq!(podcasts.len(), 2);
    assert_eq!(podcasts[0].title, "Episode one");
    assert_eq!(podcasts[0].description, "All about one");
    assert_eq!(
        podcasts[0].audio_file.as_deref(),
        Some("https://example.org/one.mp3")
    );
    assert_eq!(podcasts[1].title, "Episode two");
    assert!(podcasts[1].audio_file.is_none());
}
