use kemono_atom::{
    epoch_timestamp, first_paragraph, get_kemono_name, kemono_entry, kemono_feed, kemono_link,
    render_feed, FeedError, KemonoFeed, KemonoPost, Timestamp,
};

fn identity<'a>() -> KemonoFeed<'a> {
    KemonoFeed { service: "patreon", user_id: "93878" }
}

fn ts(year: u16, month: u8, day: u8, hour: u8, minute: u8, second: u8) -> Timestamp {
    Timestamp { year, month, day, hour, minute, second }
}

fn post(id: &str, title: &str, content: &str, published: Timestamp) -> KemonoPost {
    KemonoPost {
        id: id.to_string(),
        title: title.to_string(),
        content: content.to_string(),
        published,
    }
}

#[test]
fn derived_post_link() {
    let e = kemono_entry(identity(), post("123", "t", "", ts(2023, 5, 1, 0, 0, 0)));
    assert_eq!(e.link, "https://kemono.su/patreon/user/93878/post/123");
}

#[test]
fn profile_link() {
    assert_eq!(kemono_link(identity()), "https://kemono.su/patreon/user/93878");
}

#[test]
fn entry_keeps_post_fields() {
    let e = kemono_entry(
        identity(),
        post("9", "A title", "<p>Hello</p><p>Second</p>", ts(2021, 12, 31, 23, 59, 59)),
    );
    assert_eq!(e.id, "9");
    assert_eq!(e.title, "A title");
    assert_eq!(e.updated, ts(2021, 12, 31, 23, 59, 59));
    assert_eq!(e.summary, Some("Hello".to_string()));
}

#[test]
fn entry_without_paragraph_has_no_summary() {
    let e = kemono_entry(identity(), post("9", "t", "plain words, no markup", ts(2021, 1, 1, 0, 0, 0)));
    assert_eq!(e.summary, None);
}

#[test]
fn first_paragraph_picks_first_in_document_order() {
    assert_eq!(
        first_paragraph("<div><p>one</p></div><p>two</p>"),
        Some("one".to_string())
    );
    assert_eq!(first_paragraph("no paragraph here"), None);
}

#[test]
fn name_span_extracted() {
    let page = "<html><body><span itemprop=\"name\">Jane Doe</span></body></html>";
    assert_eq!(get_kemono_name(page), Ok("Jane Doe".to_string()));
}

#[test]
fn name_span_absent_is_not_found() {
    let page = "<html><body><span>Jane Doe</span></body></html>";
    assert_eq!(get_kemono_name(page), Err(FeedError::NotFound));
}

#[test]
fn one_entry_per_post_in_order() {
    let posts = vec![
        post("1", "first", "<p>a</p>", ts(2023, 5, 1, 0, 0, 0)),
        post("2", "second", "<p>b</p>", ts(2022, 1, 1, 0, 0, 0)),
        post("3", "third", "", ts(2021, 1, 1, 0, 0, 0)),
    ];
    let doc = kemono_feed(identity(), "Jane".to_string(), posts);
    assert_eq!(doc.entries.len(), 3);
    assert_eq!(doc.entries[0].id, "1");
    assert_eq!(doc.entries[1].id, "2");
    assert_eq!(doc.entries[2].id, "3");
    assert_eq!(doc.id, "kemono-feed/patreon/93878");
    assert_eq!(doc.title, "Posts of Jane from patreon");
    assert_eq!(doc.author, "Jane");
    assert_eq!(doc.link, "https://kemono.su/patreon/user/93878");
    assert_eq!(doc.icon, "https://img.kemono.su/icons/patreon/93878");
}

#[test]
fn empty_feed_updated_is_epoch_sentinel() {
    let doc = kemono_feed(identity(), "Jane".to_string(), Vec::new());
    assert_eq!(doc.updated, epoch_timestamp());
    assert_eq!(doc.updated, ts(1970, 1, 1, 0, 0, 0));
    assert_eq!(doc.entries.len(), 0);
}

#[test]
fn updated_is_first_entry_updated() {
    let posts = vec![
        post("1", "first", "", ts(2023, 5, 1, 0, 0, 0)),
        post("2", "second", "", ts(2022, 1, 1, 0, 0, 0)),
    ];
    let doc = kemono_feed(identity(), "Jane".to_string(), posts);
    assert_eq!(doc.updated, ts(2023, 5, 1, 0, 0, 0));
    assert_eq!(doc.updated, doc.entries[0].updated);
}

#[test]
fn empty_feed_serializes_exactly() {
    let out = render_feed(identity(), "Jane".to_string(), Vec::new());
    let expected = "<?xml version=\"1.0\" encoding=\"utf-8\"?>\
<feed xmlns=\"http://www.w3.org/2005/Atom\">\
<id>kemono-feed/patreon/93878</id>\
<title>Posts of Jane from patreon</title>\
<updated>1970-01-01T00:00:00Z</updated>\
<author><name>Jane</name></author>\
<link href=\"https://kemono.su/patreon/user/93878\" rel=\"alternate\"/>\
<icon>https://img.kemono.su/icons/patreon/93878</icon>\
</feed>";
    assert_eq!(String::from_utf8(out).unwrap(), expected);
}

#[test]
fn special_characters_are_escaped_on_the_wire() {
    let posts = vec![post("1", "Tom & \"Jerry\" <3", "", ts(2020, 6, 7, 8, 9, 10))];
    let out = render_feed(identity(), "A&B".to_string(), posts);
    let text = String::from_utf8(out).unwrap();
    assert!(text.contains("<title>Posts of A&amp;B from patreon</title>"));
    assert!(text.contains("<title>Tom &amp; &quot;Jerry&quot; &lt;3</title>"));
}

#[test]
fn serialized_feed_reparses_unchanged() {
    let posts = vec![
        post(
            "1",
            "Hello & <World>",
            "<p>First one</p><p>more</p>",
            ts(2023, 5, 1, 0, 0, 0),
        ),
        post("2", "Second", "no paragraph", ts(2022, 1, 1, 12, 30, 45)),
    ];
    let out = render_feed(identity(), "Jane Doe".to_string(), posts);
    let feed = atom_syndication::Feed::read_from(&out[..]).unwrap();

    assert_eq!(feed.id(), "kemono-feed/patreon/93878");
    assert_eq!(feed.title().as_str(), "Posts of Jane Doe from patreon");
    assert_eq!(feed.updated().to_rfc3339(), "2023-05-01T00:00:00+00:00");
    assert_eq!(feed.authors().len(), 1);
    assert_eq!(feed.authors()[0].name(), "Jane Doe");
    assert_eq!(feed.icon(), Some("https://img.kemono.su/icons/patreon/93878"));
    assert_eq!(feed.links()[0].href(), "https://kemono.su/patreon/user/93878");

    let entries = feed.entries();
    assert_eq!(entries.len(), 2);

    assert_eq!(entries[0].id(), "1");
    assert_eq!(entries[0].title().as_str(), "Hello & <World>");
    assert_eq!(entries[0].updated().to_rfc3339(), "2023-05-01T00:00:00+00:00");
    assert_eq!(
        entries[0].links()[0].href(),
        "https://kemono.su/patreon/user/93878/post/1"
    );
    assert_eq!(entries[0].summary().unwrap().as_str(), "First one");

    assert_eq!(entries[1].id(), "2");
    assert_eq!(entries[1].title().as_str(), "Second");
    assert_eq!(entries[1].updated().to_rfc3339(), "2022-01-01T12:30:45+00:00");
    assert_eq!(
        entries[1].links()[0].href(),
        "https://kemono.su/patreon/user/93878/post/2"
    );
    assert!(entries[1].summary().is_none());
}

#[test]
fn timestamp_well_formedness_check() {
    assert!(ts(2023, 5, 1, 0, 0, 0).is_wf());
    assert!(ts(9999, 12, 31, 23, 59, 59).is_wf());
    assert!(!ts(2023, 0, 1, 0, 0, 0).is_wf());
    assert!(!ts(2023, 13, 1, 0, 0, 0).is_wf());
    assert!(!ts(2023, 5, 0, 0, 0, 0).is_wf());
    assert!(!ts(2023, 5, 32, 0, 0, 0).is_wf());
    assert!(!ts(2023, 5, 1, 24, 0, 0).is_wf());
    assert!(!ts(2023, 5, 1, 0, 60, 0).is_wf());
    assert!(!ts(2023, 5, 1, 0, 0, 60).is_wf());
}
