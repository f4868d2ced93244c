use mpdiscord::config::{Config, WebConfig};
use mpdiscord::conversions::{
    build_activity, get_activity, get_artist, get_text, slugify, ActivityError, ActivityKind, Timestamps,
};
use mpdiscord::mpd::{PlayState, Song, SongStatus, Status};

fn config(artfiles: &[&str], overrides: &[(&str, &str)], web: Option<&str>) -> Config {
    Config {
        artfiles: artfiles.iter().map(|s| s.to_string()).collect(),
        discord_client_id: 1,
        mastodon_token: "token".to_string(),
        art_overrides: overrides.iter().map(|(k, v)| (k.to_string(), v.to_string())).collect(),
        web: web.map(|a| WebConfig { listen_addr: "0.0.0.0:8080".to_string(), public_addr: a.to_string() }),
    }
}

fn song(title: Option<&str>, artists: &[&str], album_artists: &[&str], album: Option<&str>) -> Song {
    Song {
        title: title.map(|t| t.to_string()),
        album: album.map(|a| a.to_string()),
        artists: artists.iter().map(|s| s.to_string()).collect(),
        album_artists: album_artists.iter().map(|s| s.to_string()).collect(),
    }
}

fn status(state: PlayState, elapsed_ns: Option<u128>, duration_ns: Option<u128>) -> Status {
    Status { state, current_song: Some((3, 77)), elapsed_ns, duration_ns }
}

const NOW_NS: u128 = 1_000_000_000_000_000_000;

#[test]
fn slug_lowercases_and_collapses_separators() {
    let c = config(&[], &[], None);
    assert_eq!(slugify("Hello, World!", &c), "hello-world-");
    assert_eq!(slugify("  Ünïcode", &c), "-n-code");
    assert_eq!(slugify("", &c), "");
    assert_eq!(slugify("ABC123", &c), "abc123");
}

#[test]
fn slug_is_cut_to_sixteen_characters() {
    let c = config(&[], &[], None);
    assert_eq!(slugify("The Quick Brown Fox Jumps", &c), "the-quick-brown-");
    assert_eq!(slugify("abcdefghijklmnopqrstuvwxyz", &c), "abcdefghijklmnop");
}

#[test]
fn slug_override_wins() {
    let c = config(&[], &[("Song", "custom-slug"), ("Song", "second")], None);
    assert_eq!(slugify("Song", &c), "custom-slug");
    assert_eq!(slugify("Song 2", &c), "song-2");
}

#[test]
fn artist_falls_back_to_album_artists() {
    assert_eq!(get_artist(&song(None, &["A", "B"], &["C"], None)), Some("A, B".to_string()));
    assert_eq!(get_artist(&song(None, &[], &["C"], None)), Some("C".to_string()));
    assert_eq!(get_artist(&song(None, &[], &[], None)), None);
}

#[test]
fn text_names_title_artist_and_album() {
    let ss = |s: Option<Song>| SongStatus { song: s, status: status(PlayState::Playing, None, None) };
    assert_eq!(get_text(&ss(Some(song(Some("T"), &["A"], &[], Some("Al"))))), Some("T - A (album: Al)".to_string()));
    assert_eq!(get_text(&ss(Some(song(Some("T"), &[], &[], None)))), Some("T - Unknown Artist".to_string()));
    assert_eq!(get_text(&ss(Some(song(None, &["A"], &[], None)))), None);
    assert_eq!(get_text(&ss(None)), None);
}

#[test]
fn activity_uses_uploaded_cover_and_times() {
    let c = config(&["my-song"], &[], Some("https://x.dev"));
    let ss = SongStatus {
        song: Some(song(Some("My Song"), &["A"], &[], Some("Al"))),
        status: status(PlayState::Playing, Some(30_500_000_000), Some(200_000_000_000)),
    };
    let a = build_activity(&ss, &c, NOW_NS, "tok").ok().unwrap();
    assert_eq!(a.details, Some("My Song".to_string()));
    assert_eq!(a.state, Some("by A ".to_string()));
    assert_eq!(a.kind, ActivityKind::Listening);
    let assets = a.assets.unwrap();
    assert_eq!(assets.large_image, Some("my-song".to_string()));
    assert_eq!(assets.large_text, Some("(album: Al)".to_string()));
    assert_eq!(a.timestamps, Some(Timestamps { start: Some(999_999_969), end: Some(1_000_000_169) }));
}

#[test]
fn activity_links_to_art_endpoint() {
    let c = config(&[], &[], Some("https://x.dev"));
    let ss = SongStatus {
        song: Some(song(Some("Other Tune"), &[], &[], None)),
        status: status(PlayState::Paused, Some(1), Some(2)),
    };
    let a = build_activity(&ss, &c, NOW_NS, "abc123XYZ000").ok().unwrap();
    let assets = a.assets.unwrap();
    assert_eq!(assets.large_image, Some("https://x.dev/art/77?abc123XYZ000".to_string()));
    assert_eq!(assets.large_text, None);
    assert_eq!(a.state, None);
    assert_eq!(a.timestamps, None);
}

#[test]
fn activity_without_cover_or_endpoint_has_no_assets() {
    let c = config(&[], &[], None);
    let ss = SongStatus {
        song: Some(song(Some("Other Tune"), &["A"], &[], None)),
        status: status(PlayState::Playing, None, Some(2)),
    };
    let a = build_activity(&ss, &c, NOW_NS, "t").ok().unwrap();
    assert!(a.assets.is_none());
    assert!(a.timestamps.is_none());
    let empty = SongStatus { song: None, status: status(PlayState::Stopped, None, None) };
    let a = build_activity(&empty, &c, NOW_NS, "t").ok().unwrap();
    assert!(a.details.is_none() && a.state.is_none() && a.assets.is_none());
    assert_eq!(a.kind, ActivityKind::Listening);
}

#[test]
fn activity_start_before_epoch_is_an_error() {
    let c = config(&[], &[], None);
    let ss = SongStatus { song: None, status: status(PlayState::Playing, Some(10), None) };
    assert_eq!(build_activity(&ss, &c, 5, "t").err(), Some(ActivityError::StartBeforeEpoch));
}

#[test]
fn activity_end_without_length_is_open() {
    let c = config(&[], &[], None);
    let ss = SongStatus { song: None, status: status(PlayState::Playing, Some(2_000_000_000), None) };
    let a = build_activity(&ss, &c, 10_000_000_000, "t").ok().unwrap();
    assert_eq!(a.timestamps, Some(Timestamps { start: Some(8), end: None }));
}

#[test]
fn random_link_token_is_twelve_alphanumerics() {
    let c = config(&[], &[], Some("https://x.dev"));
    let ss = SongStatus { song: Some(song(Some("Tune"), &[], &[], None)), status: status(PlayState::Stopped, None, None) };
    let url = get_activity(&ss, &c, NOW_NS).ok().unwrap().assets.unwrap().large_image.unwrap();
    let prefix = "https://x.dev/art/77?";
    assert!(url.starts_with(prefix));
    let token = &url[prefix.len()..];
    assert_eq!(token.chars().count(), 12);
    assert!(token.chars().all(|c| c.is_ascii_alphanumeric()));
}
