//! Data shapes of the remote catalog.
//!
//! These mirror the JSON documents the itch.io API returns.  The library
//! never performs the HTTP calls itself: the caller fetches and decodes the
//! documents and hands these plain values in.

use vstd::prelude::*;

verus! {

/// The catalog's description of one game.
pub struct GameInfo {
    pub game: GameInfoGame,
}

/// The game record inside a [`GameInfo`] document.
pub struct GameInfoGame {
    pub can_be_bought: bool,
    pub has_demo: bool,
    pub p_windows: bool,
    pub p_linux: bool,
    pub p_osx: bool,
    pub p_android: bool,
    pub min_price: i64,
    pub url: String,
    pub in_press_system: bool,
    pub user: GameUser,
    pub id: i64,
    pub classification: String,
    pub cover_url: String,
    pub created_at: String,
    pub published_at: String,
    pub title: String,
    pub short_text: Option<String>,
}

/// Embed-player dimensions of a browser game.
pub struct GameEmbed {
    pub width: i64,
    pub height: i64,
    pub fullscreen: bool,
}

/// The author of a game.
pub struct GameUser {
    pub username: String,
    pub url: String,
    pub id: i64,
    pub cover_url: Option<String>,
}

/// The catalog's list of uploads of one game.
pub struct GameUploads {
    pub uploads: Vec<GameUpload>,
}

/// One downloadable artifact (an "upload") of a game.
///
/// `id` is the upload's numeric identifier; identifiers are assumed to grow
/// monotonically with recency, so the largest id among eligible uploads is
/// treated as the latest version.  `host`, when present, names an external
/// hosting provider.
pub struct GameUpload {
    pub id: i64,
    pub build_id: Option<i64>,
    pub position: i64,
    pub filename: String,
    pub size: Option<i64>,
    pub demo: bool,
    pub preorder: bool,
    pub storage: String,
    pub host: Option<String>,
    pub created_at: String,
    pub updated_at: String,
    pub p_windows: bool,
    pub p_osx: bool,
    pub p_linux: bool,
    pub p_android: bool,
    pub build: Option<GameUploadBuild>,
    pub channel_name: Option<String>,
    pub upload_type: String,
    pub game_id: i64,
    pub display_name: Option<String>,
}

/// Build metadata attached to an upload pushed through butler.
pub struct GameUploadBuild {
    pub id: i64,
    pub parent_build_id: i64,
    pub version: i64,
    pub upload_id: i64,
    pub created_at: String,
    pub updated_at: String,
    pub user_version: Option<String>,
}

/// The catalog's answer to a download request: where to fetch an upload.
pub struct UploadDownload {
    pub url: String,
}

/// Paths and credentials of one library root.
///
/// `games_dir` is the directory under which installed games and the manifest
/// live; `api_key` is the opaque catalog credential, forwarded and never
/// interpreted.
pub struct Config {
    pub games_dir: String,
    pub api_key: String,
}

} // verus!
