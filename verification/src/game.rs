//! One installed game, as the manifest records it.

use vstd::prelude::*;

verus! {

/// The mathematical value of a [`Game`] or [`GameJson`] record: the same six
/// fields with strings as character sequences and integers unbounded.
pub struct GameView {
    pub game_id: int,
    pub upload_id: int,
    pub title: Seq<char>,
    pub description: Seq<char>,
    pub url: Seq<char>,
    pub directory: Seq<char>,
}

/// One record of the manifest document: an installed game.
///
/// `game_id` identifies the game in the catalog, `upload_id` the installed
/// upload (its version), and `directory` the game's install directory
/// relative to the library's games root.
#[derive(Debug)]
pub struct GameJson {
    pub game_id: i64,
    pub upload_id: i64,
    pub title: String,
    pub description: String,
    pub url: String,
    pub directory: String,
}

/// One installed game held in memory.
///
/// The fields are those of [`GameJson`]; the two types exist so that the
/// persisted document shape and the in-memory record can evolve separately.
#[derive(Debug)]
pub struct Game {
    pub game_id: i64,
    pub upload_id: i64,
    pub title: String,
    pub description: String,
    pub url: String,
    pub directory: String,
}

impl View for GameJson {
    type V = GameView;

    open spec fn view(&self) -> GameView {
        GameView {
            game_id: self.game_id as int,
            upload_id: self.upload_id as int,
            title: self.title@,
            description: self.description@,
            url: self.url@,
            directory: self.directory@,
        }
    }
}

impl View for Game {
    type V = GameView;

    open spec fn view(&self) -> GameView {
        GameView {
            game_id: self.game_id as int,
            upload_id: self.upload_id as int,
            title: self.title@,
            description: self.description@,
            url: self.url@,
            directory: self.directory@,
        }
    }
}

impl Clone for Game {
    fn clone(&self) -> (r: Self)
        ensures
            r@ == self@,
    {
        Game {
            game_id: self.game_id,
            upload_id: self.upload_id,
            title: self.title.clone(),
            description: self.description.clone(),
            url: self.url.clone(),
            directory: self.directory.clone(),
        }
    }
}

impl Game {
    /// Builds the in-memory record from a manifest document record.
    pub fn new(game_json: &GameJson) -> (r: Self)
        ensures
            r@ == game_json@,
    {
        Game {
            game_id: game_json.game_id,
            upload_id: game_json.upload_id,
            title: game_json.title.clone(),
            description: game_json.description.clone(),
            url: game_json.url.clone(),
            directory: game_json.directory.clone(),
        }
    }

    /// Exports the record in the manifest document shape.
    pub fn json(&self) -> (r: GameJson)
        ensures
            r@ == self@,
    {
        GameJson {
            game_id: self.game_id,
            upload_id: self.upload_id,
            title: self.title.clone(),
            description: self.description.clone(),
            url: self.url.clone(),
            directory: self.directory.clone(),
        }
    }
}

} // verus!
