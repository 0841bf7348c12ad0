use itch_io_downloader::api::{GameInfoGame, GameUpload, GameUser};
use itch_io_downloader::error::DownloadError;
use itch_io_downloader::game::Game;
use itch_io_downloader::install::{ensure_step, make_game_entry, temp_rel_path, Event, Phase};
use itch_io_downloader::library::Library;

fn upload(id: i64, windows: bool) -> GameUpload {
    GameUpload {
        id,
        build_id: None,
        position: 0,
        filename: format!("game-{}.zip", id),
        size: Some(1000),
        demo: false,
        preorder: false,
        storage: String::from("hosted"),
        host: None,
        created_at: String::from("2020-01-01 00:00:00"),
        updated_at: String::from("2020-01-02 00:00:00"),
        p_windows: windows,
        p_osx: false,
        p_linux: false,
        p_android: false,
        build: None,
        channel_name: None,
        upload_type: String::from("default"),
        game_id: 11,
        display_name: None,
    }
}

fn info(id: i64, title: &str, short_text: Option<&str>) -> GameInfoGame {
    GameInfoGame {
        can_be_bought: false,
        has_demo: false,
        p_windows: true,
        p_linux: false,
        p_osx: false,
        p_android: false,
        min_price: 0,
        url: format!("https://example.itch.io/{}", id),
        in_press_system: false,
        user: GameUser {
            username: String::from("author"),
            url: String::from("https://author.itch.io"),
            id: 1,
            cover_url: None,
        },
        id,
        classification: String::from("game"),
        cover_url: String::from(""),
        created_at: String::from("2020-01-01 00:00:00"),
        published_at: String::from("2020-01-02 00:00:00"),
        title: String::from(title),
        short_text: short_text.map(String::from),
    }
}

fn installed(game_id: i64, upload_id: i64) -> Game {
    Game {
        game_id,
        upload_id,
        title: String::from("A Game"),
        description: String::from("No description"),
        url: format!("https://example.itch.io/{}", game_id),
        directory: format!("{}", game_id),
    }
}

#[test]
fn fresh_install_walks_to_launch_and_records_the_game() {
    let mut lib = Library { games: vec![] };
    let p = ensure_step(&mut lib, 11, Phase::Begin, Event::Started).unwrap();
    assert!(matches!(p, Phase::OfferInstall));
    let p = ensure_step(&mut lib, 11, p, Event::Consent { accepted: true }).unwrap();
    assert!(matches!(p, Phase::FetchCatalog));
    let uploads = vec![upload(5, true), upload(9, false), upload(7, true)];
    let p = ensure_step(
        &mut lib,
        11,
        p,
        Event::Catalog { info: info(11, "My Game", Some("fun")), uploads },
    )
    .unwrap();
    let (entry, filename) = match &p {
        Phase::Transfer { entry, filename } => (entry.clone(), filename.clone()),
        other => panic!("expected a transfer phase, got {:?}", phase_name(other)),
    };
    assert_eq!(entry.game_id, 11);
    assert_eq!(entry.upload_id, 7);
    assert_eq!(entry.title, "My Game");
    assert_eq!(entry.description, "fun");
    assert_eq!(entry.directory, "11");
    assert_eq!(filename, "game-7.zip");
    assert_eq!(lib.games.len(), 0);
    let p = ensure_step(&mut lib, 11, p, Event::Transferred).unwrap();
    match p {
        Phase::Launch { game } => {
            assert_eq!(game.game_id, 11);
            assert_eq!(game.upload_id, 7);
        },
        other => panic!("expected launch, got {:?}", phase_name(&other)),
    }
    assert_eq!(lib.games.len(), 1);
    assert_eq!(lib.get_game(&11).unwrap().upload_id, 7);
}

fn phase_name(p: &Phase) -> &'static str {
    match p {
        Phase::Begin => "begin",
        Phase::OfferInstall => "offer install",
        Phase::CheckStatus { .. } => "check status",
        Phase::OfferUpdate => "offer update",
        Phase::FetchCatalog => "fetch catalog",
        Phase::Transfer { .. } => "transfer",
        Phase::Launch { .. } => "launch",
        Phase::Declined => "declined",
    }
}

#[test]
fn declined_install_leaves_no_trace() {
    let mut lib = Library { games: vec![] };
    let p = ensure_step(&mut lib, 11, Phase::Begin, Event::Started).unwrap();
    assert!(matches!(p, Phase::OfferInstall));
    let p = ensure_step(&mut lib, 11, p, Event::Consent { accepted: false }).unwrap();
    assert!(matches!(p, Phase::Declined));
    assert_eq!(lib.games.len(), 0);
}

#[test]
fn installed_and_current_goes_straight_to_launch() {
    let mut lib = Library { games: vec![installed(11, 7)] };
    let p = ensure_step(&mut lib, 11, Phase::Begin, Event::Started).unwrap();
    match &p {
        Phase::CheckStatus { directory } => assert_eq!(directory, "11"),
        other => panic!("expected check status, got {:?}", phase_name(other)),
    }
    let uploads = vec![upload(7, true)];
    let p = ensure_step(&mut lib, 11, p, Event::Status { downloaded: true, uploads }).unwrap();
    assert!(matches!(p, Phase::Launch { .. }));
    assert_eq!(lib.games.len(), 1);
}

#[test]
fn stale_install_offers_an_update_and_declining_launches_the_old_version() {
    let mut lib = Library { games: vec![installed(11, 7)] };
    let p = ensure_step(&mut lib, 11, Phase::Begin, Event::Started).unwrap();
    let uploads = vec![upload(8, true)];
    let p = ensure_step(&mut lib, 11, p, Event::Status { downloaded: true, uploads }).unwrap();
    assert!(matches!(p, Phase::OfferUpdate));
    let p = ensure_step(&mut lib, 11, p, Event::Consent { accepted: false }).unwrap();
    match p {
        Phase::Launch { game } => assert_eq!(game.upload_id, 7),
        other => panic!("expected launch, got {:?}", phase_name(&other)),
    }
    assert_eq!(lib.get_game(&11).unwrap().upload_id, 7);
}

#[test]
fn missing_directory_counts_as_stale() {
    let mut lib = Library { games: vec![installed(11, 7)] };
    let p = ensure_step(&mut lib, 11, Phase::Begin, Event::Started).unwrap();
    let uploads = vec![upload(7, true)];
    let p = ensure_step(&mut lib, 11, p, Event::Status { downloaded: false, uploads }).unwrap();
    assert!(matches!(p, Phase::OfferUpdate));
}

#[test]
fn catalog_id_mismatch_is_a_catalog_failure() {
    let mut lib = Library { games: vec![] };
    let p = ensure_step(&mut lib, 11, Phase::Begin, Event::Started).unwrap();
    let p = ensure_step(&mut lib, 11, p, Event::Consent { accepted: true }).unwrap();
    let uploads = vec![upload(7, true)];
    let r = ensure_step(
        &mut lib,
        11,
        p,
        Event::Catalog { info: info(12, "Wrong", None), uploads },
    );
    assert!(matches!(r, Err(DownloadError::CatalogUnavailable)));
    assert_eq!(lib.games.len(), 0);
}

#[test]
fn catalog_without_eligible_uploads_fails_cleanly() {
    let mut lib = Library { games: vec![] };
    let p = ensure_step(&mut lib, 11, Phase::Begin, Event::Started).unwrap();
    let p = ensure_step(&mut lib, 11, p, Event::Consent { accepted: true }).unwrap();
    let uploads = vec![upload(7, false)];
    let r = ensure_step(
        &mut lib,
        11,
        p,
        Event::Catalog { info: info(11, "No Windows", None), uploads },
    );
    assert!(matches!(r, Err(DownloadError::NoEligibleVariant)));
    assert_eq!(lib.games.len(), 0);
}

#[test]
fn make_game_entry_defaults_the_description() {
    let entry = make_game_entry(&info(42, "The Game", None), 9);
    assert_eq!(entry.description, "No description");
    assert_eq!(entry.directory, "42");
    assert_eq!(entry.upload_id, 9);
    assert_eq!(entry.url, "https://example.itch.io/42");
}

#[test]
fn temp_path_joins_under_the_staging_directory() {
    assert_eq!(temp_rel_path("game-7.zip"), "temp/game-7.zip");
}
