use itch_io_downloader::api::GameUpload;
use itch_io_downloader::error::DownloadError;
use itch_io_downloader::game::Game;
use itch_io_downloader::oracle::{is_up_to_date, latest_installable_variant};

fn upload(id: i64, windows: bool, host: Option<&str>) -> GameUpload {
    GameUpload {
        id,
        build_id: None,
        position: 0,
        filename: format!("game-{}.zip", id),
        size: Some(1000),
        demo: false,
        preorder: false,
        storage: String::from("hosted"),
        host: host.map(String::from),
        created_at: String::from("2020-01-01 00:00:00"),
        updated_at: String::from("2020-01-02 00:00:00"),
        p_windows: windows,
        p_osx: false,
        p_linux: false,
        p_android: false,
        build: None,
        channel_name: None,
        upload_type: String::from("default"),
        game_id: 11,
        display_name: None,
    }
}

fn installed(game_id: i64, upload_id: i64) -> Game {
    Game {
        game_id,
        upload_id,
        title: String::from("A Game"),
        description: String::from("No description"),
        url: String::from("https://example.itch.io/a-game"),
        directory: format!("{}", game_id),
    }
}

#[test]
fn variant_selection_takes_max_id_among_windows() {
    let uploads = vec![
        upload(5, true, None),
        upload(9, false, None),
        upload(7, true, None),
    ];
    let i = latest_installable_variant(&uploads).unwrap();
    assert_eq!(uploads[i].id, 7);
}

#[test]
fn variant_selection_fails_without_windows_uploads() {
    let uploads = vec![upload(5, false, None), upload(9, false, None)];
    let r = latest_installable_variant(&uploads);
    assert!(matches!(r, Err(DownloadError::NoEligibleVariant)));
}

#[test]
fn variant_selection_fails_on_empty_list() {
    let uploads: Vec<GameUpload> = vec![];
    let r = latest_installable_variant(&uploads);
    assert!(matches!(r, Err(DownloadError::NoEligibleVariant)));
}

#[test]
fn variant_selection_skips_unsupported_hosts() {
    let uploads = vec![
        upload(10, true, Some("example.com")),
        upload(4, true, None),
        upload(6, true, Some("mega.nz")),
        upload(5, true, Some("mega.co.nz")),
    ];
    let i = latest_installable_variant(&uploads).unwrap();
    assert_eq!(uploads[i].id, 6);
}

#[test]
fn variant_selection_prefers_first_among_equal_ids() {
    let uploads = vec![upload(7, true, None), upload(7, true, None)];
    let i = latest_installable_variant(&uploads).unwrap();
    assert_eq!(i, 0);
}

#[test]
fn up_to_date_at_equal_ids() {
    let uploads = vec![upload(7, true, None)];
    let game = installed(11, 7);
    assert_eq!(is_up_to_date(&game, true, &uploads).unwrap(), true);
}

#[test]
fn stale_when_newer_upload_exists() {
    let uploads = vec![upload(8, true, None)];
    let game = installed(11, 7);
    assert_eq!(is_up_to_date(&game, true, &uploads).unwrap(), false);
}

#[test]
fn never_up_to_date_when_not_downloaded() {
    let uploads = vec![upload(1, true, None)];
    let game = installed(11, 7);
    assert_eq!(is_up_to_date(&game, false, &uploads).unwrap(), false);
}

#[test]
fn up_to_date_needs_an_eligible_upload() {
    let uploads = vec![upload(9, false, None)];
    let game = installed(11, 7);
    let r = is_up_to_date(&game, true, &uploads);
    assert!(matches!(r, Err(DownloadError::NoEligibleVariant)));
}

#[test]
fn is_latest_matches_is_up_to_date() {
    let uploads = vec![upload(7, true, None), upload(3, true, None)];
    let game = installed(11, 7);
    assert_eq!(game.is_latest(true, &uploads).unwrap(), true);
    assert_eq!(game.is_latest(false, &uploads).unwrap(), false);
}
