use meowverter::web::{
    deezer_query, deezer_track_id, html_unescape, meta_content, music_source, page_query, search_args, MusicSource,
};

#[test]
fn unescape_entities() {
    assert_eq!(html_unescape("Tom &amp; Jerry &quot;Live&quot; &#39;99&#x27; &lt;3&gt;&nbsp;!"), "Tom & Jerry \"Live\" '99' <3> !");
    // the entities are decoded one after another, so an escaped entity is decoded twice
    assert_eq!(html_unescape("&amp;lt;"), "<");
    assert_eq!(html_unescape("no entities here"), "no entities here");
    for t in ["&amp;&amp;", "&nbsp;x&gt;", "a&b", "&#x27;&#39;&quot;", ""] {
        assert!(html_unescape(t).chars().count() <= t.chars().count());
    }
}

#[test]
fn open_graph_tags() {
    let html = r#"<meta property="og:title" content="  Song by Artist on Apple&nbsp;Music ">
<meta property="og:image" content="https://img/x.jpg"><meta property="og:description">"#;
    assert_eq!(meta_content(html, "og:title").as_deref(), Some("Song by Artist on Apple Music"));
    assert_eq!(meta_content(html, "og:image").as_deref(), Some("https://img/x.jpg"));
    assert_eq!(meta_content(html, "og:description"), None);
    assert_eq!(meta_content(html, "og:video"), None);
}

#[test]
fn deezer_ids() {
    assert_eq!(deezer_track_id("https://www.deezer.com/en/track/3135556?utm=1").as_deref(), Some("3135556"));
    assert_eq!(deezer_track_id("https://www.deezer.com/track/abc"), None);
    assert_eq!(deezer_track_id("https://www.deezer.com/album/1"), None);
}

#[test]
fn music_queries() {
    assert_eq!(music_source("https://WWW.Deezer.com/track/1"), MusicSource::Deezer);
    assert_eq!(music_source("https://music.apple.com/us/album/x"), MusicSource::AppleMusic);
    assert_eq!(music_source("https://tidal.com/browse/track/1"), MusicSource::Tidal);
    assert_eq!(music_source("https://open.spotify.com/track/1"), MusicSource::Other);
    assert_eq!(deezer_query("Daft Punk", "One More Time"), ("Daft Punk One More Time".to_string(), "Daft Punk - One More Time".to_string()));
    assert_eq!(
        page_query(MusicSource::AppleMusic, "Stand by Me by Ben E. King on Apple\u{a0}Music", ""),
        ("Ben E. King Stand by Me".to_string(), "Ben E. King - Stand by Me".to_string())
    );
    assert_eq!(page_query(MusicSource::AppleMusic, "Untitled", ""), ("Untitled".to_string(), "Untitled".to_string()));
    assert_eq!(page_query(MusicSource::Tidal, "A - B", "x"), ("A - B".to_string(), "A - B".to_string()));
    assert_eq!(
        page_query(MusicSource::Other, "Song", " Artist · Album · Song · 2020"),
        ("Artist Song".to_string(), "Artist - Song".to_string())
    );
    assert_eq!(page_query(MusicSource::Other, "Song", ""), ("Song".to_string(), "Song".to_string()));
    assert_eq!(search_args("a b").last().unwrap(), "ytsearch1:a b");
}

use meowverter::web::source_of_lowered;

#[test]
fn sources_of_lowered_links() {
    assert!(source_of_lowered("https://www.deezer.com/track/1") == MusicSource::Deezer);
    assert!(source_of_lowered("https://music.apple.com/x") == MusicSource::AppleMusic);
    assert!(source_of_lowered("https://tidal.com/browse/track/2") == MusicSource::Tidal);
    assert!(source_of_lowered("https://open.spotify.com/track/3") == MusicSource::Other);
    // the check is on the lowered text: upper case is not matched here
    assert!(source_of_lowered("https://DEEZER.com/track/1") == MusicSource::Other);
}
