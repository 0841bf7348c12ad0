use itch_io_downloader::codec::{parse_manifest, render_manifest};
use itch_io_downloader::error::DownloadError;
use itch_io_downloader::game::GameJson;
use itch_io_downloader::library::LibraryJson;

fn entry(game_id: i64, upload_id: i64, title: &str) -> GameJson {
    GameJson {
        game_id,
        upload_id,
        title: String::from(title),
        description: String::from("No description"),
        url: format!("https://example.itch.io/{}", game_id),
        directory: format!("{}", game_id),
    }
}

#[test]
fn renders_the_canonical_document() {
    let lib = LibraryJson { games: vec![entry(1, 2, "My Game")] };
    let s = render_manifest(&lib);
    assert_eq!(
        s,
        "{\"games\":[{\"game_id\":1,\"upload_id\":2,\"title\":\"My Game\",\
         \"description\":\"No description\",\"url\":\"https://example.itch.io/1\",\
         \"directory\":\"1\"}]}"
    );
}

#[test]
fn renders_the_empty_manifest() {
    let lib = LibraryJson { games: vec![] };
    assert_eq!(render_manifest(&lib), "{\"games\":[]}");
}

#[test]
fn parses_the_empty_manifest() {
    let lib = parse_manifest("{\"games\":[]}").unwrap();
    assert_eq!(lib.games.len(), 0);
}

#[test]
fn round_trips_plain_records() {
    let lib = LibraryJson {
        games: vec![entry(1, 2, "My Game"), entry(33, 44, "Another"), entry(-5, -6, "Weird Ids")],
    };
    let s = render_manifest(&lib);
    let back = parse_manifest(&s).unwrap();
    assert_eq!(back.games.len(), 3);
    for (a, b) in lib.games.iter().zip(back.games.iter()) {
        assert_eq!(a.game_id, b.game_id);
        assert_eq!(a.upload_id, b.upload_id);
        assert_eq!(a.title, b.title);
        assert_eq!(a.description, b.description);
        assert_eq!(a.url, b.url);
        assert_eq!(a.directory, b.directory);
    }
}

#[test]
fn round_trips_quotes_backslashes_and_unicode() {
    let mut g = entry(7, 8, "He said \"hi\" \\ bye");
    g.description = String::from("tabs\tand\nnewlines and \u{1F600} emoji");
    g.url = String::from("\\\\server\\share\"quoted\"");
    let lib = LibraryJson { games: vec![g] };
    let s = render_manifest(&lib);
    let back = parse_manifest(&s).unwrap();
    assert_eq!(back.games[0].title, "He said \"hi\" \\ bye");
    assert_eq!(back.games[0].description, "tabs\tand\nnewlines and \u{1F600} emoji");
    assert_eq!(back.games[0].url, "\\\\server\\share\"quoted\"");
}

#[test]
fn round_trips_extreme_identifiers() {
    let lib = LibraryJson { games: vec![entry(i64::MAX, i64::MIN, "edges"), entry(0, -1, "z")] };
    let s = render_manifest(&lib);
    let back = parse_manifest(&s).unwrap();
    assert_eq!(back.games[0].game_id, i64::MAX);
    assert_eq!(back.games[0].upload_id, i64::MIN);
    assert_eq!(back.games[1].game_id, 0);
    assert_eq!(back.games[1].upload_id, -1);
}

#[test]
fn rejects_garbage() {
    assert!(matches!(parse_manifest(""), Err(DownloadError::ManifestCorrupt)));
    assert!(matches!(parse_manifest("not json"), Err(DownloadError::ManifestCorrupt)));
    assert!(matches!(parse_manifest("{\"games\":"), Err(DownloadError::ManifestCorrupt)));
    assert!(matches!(parse_manifest("{\"games\":["), Err(DownloadError::ManifestCorrupt)));
}

#[test]
fn rejects_trailing_content() {
    let lib = LibraryJson { games: vec![entry(1, 2, "t")] };
    let mut s = render_manifest(&lib);
    s.push(' ');
    assert!(matches!(parse_manifest(&s), Err(DownloadError::ManifestCorrupt)));
}

#[test]
fn rejects_non_canonical_numbers() {
    let doc = "{\"games\":[{\"game_id\":01,\"upload_id\":2,\"title\":\"t\",\
        \"description\":\"d\",\"url\":\"u\",\"directory\":\"x\"}]}";
    assert!(matches!(parse_manifest(doc), Err(DownloadError::ManifestCorrupt)));
    let doc2 = doc.replace("01", "-0");
    assert!(matches!(parse_manifest(&doc2), Err(DownloadError::ManifestCorrupt)));
    let doc3 = doc.replace("01", "99999999999999999999999999");
    assert!(matches!(parse_manifest(&doc3), Err(DownloadError::ManifestCorrupt)));
}

#[test]
fn rejects_whitespace_between_tokens() {
    let doc = "{\"games\": []}";
    assert!(matches!(parse_manifest(doc), Err(DownloadError::ManifestCorrupt)));
}

#[test]
fn rejects_reordered_keys() {
    let doc = "{\"games\":[{\"upload_id\":2,\"game_id\":1,\"title\":\"t\",\
        \"description\":\"d\",\"url\":\"u\",\"directory\":\"x\"}]}";
    assert!(matches!(parse_manifest(doc), Err(DownloadError::ManifestCorrupt)));
}

#[test]
fn rejects_unterminated_strings() {
    let doc = "{\"games\":[{\"game_id\":1,\"upload_id\":2,\"title\":\"t,\
        \"description\":\"d\",\"url\":\"u\",\"directory\":\"x\"}]}";
    assert!(matches!(parse_manifest(doc), Err(DownloadError::ManifestCorrupt)));
}

#[test]
fn rejects_unknown_escapes() {
    let doc = "{\"games\":[{\"game_id\":1,\"upload_id\":2,\"title\":\"a\\nb\",\
        \"description\":\"d\",\"url\":\"u\",\"directory\":\"x\"}]}";
    assert!(matches!(parse_manifest(doc), Err(DownloadError::ManifestCorrupt)));
}

#[test]
fn parses_a_hand_written_canonical_document() {
    let doc = "{\"games\":[{\"game_id\":-12,\"upload_id\":34,\"title\":\"A \\\"B\\\"\",\
        \"description\":\"ok\",\"url\":\"https://x\",\"directory\":\"-12\"},\
        {\"game_id\":2,\"upload_id\":3,\"title\":\"zz\",\"description\":\"\",\
        \"url\":\"\",\"directory\":\"2\"}]}";
    let lib = parse_manifest(doc).unwrap();
    assert_eq!(lib.games.len(), 2);
    assert_eq!(lib.games[0].game_id, -12);
    assert_eq!(lib.games[0].title, "A \"B\"");
    assert_eq!(lib.games[1].description, "");
}
