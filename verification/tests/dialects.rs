//! Parsing scenarios for the three dialects.

use rssss::rss::{parse_rss, Rss};

fn parse_ok(doc: &str) -> Vec<Rss> {
    parse_rss(doc.as_bytes()).expect("document should parse")
}

#[test]
fn rss2_two_items_in_order() {
    let doc = "<?xml version=\"1.0\" encoding=\"UTF-8\"?>\n\
        <rss version=\"2.0\"><channel>\n\
        <title>Feed title</title>\n\
        <item><title>First</title><link>http://a.example/1</link>\
        <description>Alpha</description>\
        <pubDate>Mon, 01 Jan 2024 00:00:00 GMT</pubDate></item>\n\
        <item><title>Second</title><link>http://a.example/2</link>\
        <description>Beta</description></item>\n\
        </channel></rss>";
    let entries = parse_ok(doc);
    assert_eq!(entries.len(), 2);
    assert_eq!(entries[0].title, "First");
    assert_eq!(entries[0].link, "http://a.example/1");
    assert_eq!(entries[0].description, "Alpha");
    assert_eq!(
        entries[0].pub_date.as_deref(),
        Some("Mon, 01 Jan 2024 00:00:00 GMT")
    );
    assert_eq!(entries[1].title, "Second");
    assert_eq!(entries[1].link, "http://a.example/2");
    assert_eq!(entries[1].description, "Beta");
    assert_eq!(entries[1].pub_date, None);
}

#[test]
fn rss2_channel_text_outside_items_is_ignored() {
    let doc = "<rss version=\"2.0\"><channel>\
        <title>Channel title</title><link>http://chan</link>\
        <item><title>Only</title></item>\
        </channel></rss>";
    let entries = parse_ok(doc);
    assert_eq!(entries.len(), 1);
    assert_eq!(entries[0].title, "Only");
    assert_eq!(entries[0].link, "");
}

#[test]
fn rss2_description_first_writer_wins() {
    let doc = "<rss version=\"2.0\" \
        xmlns:content=\"http://purl.org/rss/1.0/modules/content/\"><channel>\
        <item><description>plain</description>\
        <content:encoded>rich</content:encoded></item>\
        </channel></rss>";
    let entries = parse_ok(doc);
    assert_eq!(entries.len(), 1);
    assert_eq!(entries[0].description, "plain");
}

#[test]
fn rss2_plain_description_overwrites_encoded() {
    let doc = "<rss version=\"2.0\" \
        xmlns:content=\"http://purl.org/rss/1.0/modules/content/\"><channel>\
        <item><content:encoded>rich</content:encoded>\
        <description>plain</description></item>\
        </channel></rss>";
    let entries = parse_ok(doc);
    assert_eq!(entries.len(), 1);
    assert_eq!(entries[0].description, "plain");
}

#[test]
fn rss2_content_encoded_fills_empty_description() {
    let doc = "<rss version=\"2.0\" \
        xmlns:content=\"http://purl.org/rss/1.0/modules/content/\"><channel>\
        <item><title>T</title><content:encoded>rich</content:encoded></item>\
        </channel></rss>";
    let entries = parse_ok(doc);
    assert_eq!(entries[0].description, "rich");
}

#[test]
fn atom_basic_entry() {
    let doc = "<feed xmlns=\"http://www.w3.org/2005/Atom\">\
        <title>Feed</title>\
        <entry><title>Post</title><content>Body text</content>\
        <published>2024-01-02T03:04:05Z</published></entry>\
        </feed>";
    let entries = parse_ok(doc);
    assert_eq!(entries.len(), 1);
    assert_eq!(entries[0].title, "Post");
    assert_eq!(entries[0].description, "Body text");
    assert_eq!(entries[0].pub_date.as_deref(), Some("2024-01-02T03:04:05Z"));
}

#[test]
fn atom_link_without_rel_wins_over_self() {
    let doc = "<feed xmlns=\"http://www.w3.org/2005/Atom\">\
        <entry><title>Post</title>\
        <link rel=\"self\" href=\"http://example/self\"/>\
        <link href=\"http://example/plain\"/>\
        </entry></feed>";
    let entries = parse_ok(doc);
    assert_eq!(entries[0].link, "http://example/plain");
}

#[test]
fn atom_self_link_never_overwrites() {
    let doc = "<feed xmlns=\"http://www.w3.org/2005/Atom\">\
        <entry><title>Post</title>\
        <link href=\"http://example/plain\"/>\
        <link rel=\"self\" href=\"http://example/self\"/>\
        <link rel=\"alternate\" href=\"http://example/alt\"/>\
        </entry></feed>";
    let entries = parse_ok(doc);
    assert_eq!(entries[0].link, "http://example/plain");
}

#[test]
fn atom_published_takes_priority_over_updated() {
    let doc = "<feed xmlns=\"http://www.w3.org/2005/Atom\">\
        <entry><updated>2024-05-05</updated>\
        <published>2024-01-01</published></entry>\
        </feed>";
    let entries = parse_ok(doc);
    assert_eq!(entries[0].pub_date.as_deref(), Some("2024-01-01"));
}

#[test]
fn atom_updated_used_when_published_absent() {
    let doc = "<feed xmlns=\"http://www.w3.org/2005/Atom\">\
        <entry><updated>2024-05-05</updated></entry>\
        </feed>";
    let entries = parse_ok(doc);
    assert_eq!(entries[0].pub_date.as_deref(), Some("2024-05-05"));
}

#[test]
fn atom_media_description_three_levels_deep() {
    let doc = "<feed xmlns=\"http://www.w3.org/2005/Atom\" \
        xmlns:media=\"http://search.yahoo.com/mrss/\">\
        <entry><title>Video</title>\
        <media:group><media:title>ignored</media:title>\
        <media:description>A video description</media:description>\
        </media:group></entry></feed>";
    let entries = parse_ok(doc);
    assert_eq!(entries[0].description, "A video description");
}

#[test]
fn atom_content_wins_over_media_description() {
    let doc = "<feed xmlns=\"http://www.w3.org/2005/Atom\" \
        xmlns:media=\"http://search.yahoo.com/mrss/\">\
        <entry><content>real content</content>\
        <media:group><media:description>media text</media:description>\
        </media:group></entry></feed>";
    let entries = parse_ok(doc);
    assert_eq!(entries[0].description, "real content");
}

#[test]
fn rss1_rdf_document() {
    let doc = "<rdf:RDF xmlns:rdf=\"http://www.w3.org/1999/02/22-rdf-syntax-ns#\" \
        xmlns=\"http://purl.org/rss/1.0/\" \
        xmlns:dc=\"http://purl.org/dc/elements/1.1/\">\
        <channel><title>chan</title></channel>\
        <item><title>Story</title><link>http://r1.example/s</link>\
        <description>Desc</description><dc:date>2024-02-02</dc:date></item>\
        </rdf:RDF>";
    let entries = parse_ok(doc);
    assert_eq!(entries.len(), 1);
    assert_eq!(entries[0].title, "Story");
    assert_eq!(entries[0].link, "http://r1.example/s");
    assert_eq!(entries[0].description, "Desc");
    assert_eq!(entries[0].pub_date.as_deref(), Some("2024-02-02"));
}

#[test]
fn rss1_content_encoded_first_writer_wins() {
    let doc = "<rdf:RDF xmlns:rdf=\"http://www.w3.org/1999/02/22-rdf-syntax-ns#\" \
        xmlns=\"http://purl.org/rss/1.0/\" \
        xmlns:content=\"http://purl.org/rss/1.0/modules/content/\">\
        <item><description>plain</description>\
        <content:encoded>rich</content:encoded></item>\
        </rdf:RDF>";
    let entries = parse_ok(doc);
    assert_eq!(entries[0].description, "plain");
}

#[test]
fn titles_and_descriptions_are_trimmed() {
    let doc = "<rss version=\"2.0\"><channel>\
        <item><title>  padded title  </title>\
        <description>  padded description  </description></item>\
        </channel></rss>";
    let entries = parse_ok(doc);
    assert_eq!(entries[0].title, "padded title");
    assert_eq!(entries[0].description, "padded description");
}

#[test]
fn comments_and_processing_instructions_are_ignored() {
    let doc = "<?xml version=\"1.0\"?><?style sheet?>\
        <rss version=\"2.0\"><channel><!-- a comment -->\
        <item><!-- another --><title>T</title></item>\
        </channel></rss>";
    let entries = parse_ok(doc);
    assert_eq!(entries.len(), 1);
    assert_eq!(entries[0].title, "T");
}

#[test]
fn atom_feed_level_plain_link_carries_into_first_entry() {
    let doc = "<feed xmlns=\"http://www.w3.org/2005/Atom\">\
        <link href=\"http://feed.example/\"/>\
        <entry><title>NoOwnLink</title></entry>\
        </feed>";
    let entries = parse_ok(doc);
    assert_eq!(entries[0].link, "http://feed.example/");
}

#[test]
fn accumulator_resets_between_items() {
    let doc = "<rss version=\"2.0\"><channel>\
        <item><title>A</title><description>DA</description>\
        <pubDate>PD</pubDate><link>LA</link></item>\
        <item><title>B</title></item>\
        </channel></rss>";
    let entries = parse_ok(doc);
    assert_eq!(entries.len(), 2);
    assert_eq!(entries[1].title, "B");
    assert_eq!(entries[1].description, "");
    assert_eq!(entries[1].link, "");
    assert_eq!(entries[1].pub_date, None);
}
