//! The installation orchestrator.
//!
//! One "ensure installed, then launch" cycle for a single game is a sequence
//! of steps.  The decisions live here, in [`ensure_step`]; the caller
//! performs the outside work each phase names (asking the user, checking the
//! install directory, calling the catalog, transferring and unpacking the
//! archive) and hands the outcome back as the next [`Event`].  The manifest
//! is mutated in exactly one step — a completed transfer — so an aborted or
//! declined cycle leaves it untouched.

use vstd::prelude::*;

use crate::api::{GameInfoGame, GameUpload};
use crate::error::DownloadError;
use crate::game::{Game, GameView};
use crate::library::{contains_id, first_index_of, spec_upsert, Library};
use crate::numbers::{int_to_string, spec_render_int};
use crate::oracle::{is_latest_index, is_up_to_date, latest_installable_variant, spec_eligible};

verus! {

/// Where one ensure-installed cycle stands, and what the caller must do
/// next.
pub enum Phase {
    /// Nothing has happened yet; feed [`Event::Started`].
    Begin,
    /// The game is not installed: ask whether to install it, then feed
    /// [`Event::Consent`].
    OfferInstall,
    /// The game is installed in `directory` (relative to the games root):
    /// check whether that directory exists, fetch the game's uploads, then
    /// feed [`Event::Status`].
    CheckStatus { directory: String },
    /// The installed game is stale: ask whether to update it, then feed
    /// [`Event::Consent`].
    OfferUpdate,
    /// Installing was agreed: fetch the game's info and uploads from the
    /// catalog, then feed [`Event::Catalog`].
    FetchCatalog,
    /// `entry` is to be installed: download the upload named `filename` and
    /// unpack it into the directory of `entry`, then feed
    /// [`Event::Transferred`].  On failure, abort the cycle instead; the
    /// manifest has not been touched.
    Transfer { entry: Game, filename: String },
    /// Terminal: `game` is installed; locate its executable and run it.
    Launch { game: Game },
    /// Terminal: the policy declined the install; nothing was changed.
    Declined,
}

/// What the outside work of a phase produced.
pub enum Event {
    /// Begin the cycle.
    Started,
    /// The policy's answer to an install or update offer.
    Consent { accepted: bool },
    /// Whether the install directory exists, and the catalog's upload list.
    Status { downloaded: bool, uploads: Vec<GameUpload> },
    /// The catalog's description of the game and its upload list.
    Catalog { info: GameInfoGame, uploads: Vec<GameUpload> },
    /// The archive was downloaded and unpacked successfully.
    Transferred,
}

/// Which events a phase can consume.
pub open spec fn phase_accepts(phase: Phase, event: Event) -> bool {
    match phase {
        Phase::Begin => event is Started,
        Phase::OfferInstall => event is Consent,
        Phase::CheckStatus { .. } => event is Status,
        Phase::OfferUpdate => event is Consent,
        Phase::FetchCatalog => event is Catalog,
        Phase::Transfer { .. } => event is Transferred,
        Phase::Launch { .. } => false,
        Phase::Declined => false,
    }
}

/// The manifest record an install of upload `upload_id` writes: the catalog
/// fields carried over, the description defaulted when absent, and the
/// install directory named after the game identifier.
pub open spec fn spec_game_entry(info: GameInfoGame, upload_id: int) -> GameView {
    GameView {
        game_id: info.id as int,
        upload_id: upload_id,
        title: info.title@,
        description: match info.short_text {
            Option::Some(t) => t@,
            Option::None => "No description"@,
        },
        url: info.url@,
        directory: spec_render_int(info.id as int),
    }
}

/// Builds the manifest record of an install; see [`spec_game_entry`].
pub fn make_game_entry(info: &GameInfoGame, upload_id: i64) -> (r: Game)
    ensures
        r@ == spec_game_entry(*info, upload_id as int),
{
    let description = match &info.short_text {
        Option::Some(t) => t.clone(),
        Option::None => String::from_str("No description"),
    };
    Game {
        game_id: info.id,
        upload_id,
        title: info.title.clone(),
        description,
        url: info.url.clone(),
        directory: int_to_string(info.id),
    }
}

/// The record of `game_id` in `games`; meaningful only when [`contains_id`]
/// holds.
pub open spec fn record_of(games: Seq<GameView>, game_id: int) -> GameView {
    games[first_index_of(games, game_id)]
}

/// One step of the ensure-installed cycle: consumes the phase and the event
/// its outside work produced, and yields the next phase.
///
/// The manifest `lib` is changed only by the step from [`Phase::Transfer`]
/// on [`Event::Transferred`], which stores the new record; every other step
/// leaves it exactly as it was.  In particular a declined offer ends the
/// cycle with the manifest untouched.
pub fn ensure_step(lib: &mut Library, game_id: i64, phase: Phase, event: Event) -> (r: Result<
    Phase,
    DownloadError,
>)
    requires
        phase_accepts(phase, event),
        phase is CheckStatus || phase is OfferUpdate ==> contains_id(
            old(lib)@,
            game_id as int,
        ),
    ensures
        !(phase is Transfer && event is Transferred) ==> final(lib)@ == old(lib)@,
        phase is Begin ==> (r matches Ok(p) && (if contains_id(old(lib)@, game_id as int) {
            p matches Phase::CheckStatus { directory } && directory@ == record_of(
                old(lib)@,
                game_id as int,
            ).directory
        } else {
            p is OfferInstall
        })),
        phase is OfferInstall ==> (event matches Event::Consent { accepted } && r matches Ok(p)
            && (if accepted {
            p is FetchCatalog
        } else {
            p is Declined
        })),
        phase is CheckStatus ==> (event matches Event::Status { downloaded, uploads } && ({
            let g = record_of(old(lib)@, game_id as int);
            if !downloaded {
                r matches Ok(p) && p is OfferUpdate
            } else if exists|j: int| 0 <= j < uploads@.len() && spec_eligible(uploads@[j]) {
                if forall|j: int|
                    0 <= j < uploads@.len() && spec_eligible(uploads@[j]) ==> uploads@[j].id
                        <= g.upload_id {
                    r matches Ok(p) && p matches Phase::Launch { game } && game@ == g
                } else {
                    r matches Ok(p) && p is OfferUpdate
                }
            } else {
                r matches Err(e) && e is NoEligibleVariant
            }
        })),
        phase is OfferUpdate ==> (event matches Event::Consent { accepted } && r matches Ok(p)
            && (if accepted {
            p is FetchCatalog
        } else {
            p matches Phase::Launch { game } && game@ == record_of(old(lib)@, game_id as int)
        })),
        phase is FetchCatalog ==> (event matches Event::Catalog { info, uploads } && (if info.id
            != game_id {
            r matches Err(e) && e is CatalogUnavailable
        } else if exists|j: int| 0 <= j < uploads@.len() && spec_eligible(uploads@[j]) {
            r matches Ok(p) && p matches Phase::Transfer { entry, filename } && exists|i: int|
                is_latest_index(uploads@, i) && entry@ == spec_game_entry(
                    info,
                    uploads@[i].id as int,
                ) && filename@ == uploads@[i].filename@
        } else {
            r matches Err(e) && e is NoEligibleVariant
        })),
        phase matches Phase::Transfer { entry, .. } ==> (r matches Ok(p) && p matches
            Phase::Launch { game } && game@ == entry@ && final(lib)@ == spec_upsert(
            old(lib)@,
            entry@,
        )),
{
    match (phase, event) {
        (Phase::Begin, Event::Started) => {
            match lib.get_game(&game_id) {
                Some(game) => Ok(Phase::CheckStatus { directory: game.directory.clone() }),
                None => Ok(Phase::OfferInstall),
            }
        },
        (Phase::OfferInstall, Event::Consent { accepted }) => {
            if accepted {
                Ok(Phase::FetchCatalog)
            } else {
                Ok(Phase::Declined)
            }
        },
        (Phase::CheckStatus { .. }, Event::Status { downloaded, uploads }) => {
            let game = match lib.get_game(&game_id) {
                Some(game) => game,
                None => {
                    proof {
                        assert(false);
                    }
                    return Err(DownloadError::CatalogUnavailable);
                },
            };
            match is_up_to_date(game, downloaded, &uploads) {
                Ok(true) => Ok(Phase::Launch { game: game.clone() }),
                Ok(false) => Ok(Phase::OfferUpdate),
                Err(e) => Err(e),
            }
        },
        (Phase::OfferUpdate, Event::Consent { accepted }) => {
            if accepted {
                Ok(Phase::FetchCatalog)
            } else {
                let game = match lib.get_game(&game_id) {
                    Some(game) => game,
                    None => {
                        proof {
                            assert(false);
                        }
                        return Err(DownloadError::CatalogUnavailable);
                    },
                };
                Ok(Phase::Launch { game: game.clone() })
            }
        },
        (Phase::FetchCatalog, Event::Catalog { info, uploads }) => {
            if info.id != game_id {
                return Err(DownloadError::CatalogUnavailable);
            }
            match latest_installable_variant(&uploads) {
                Ok(i) => {
                    let filename = uploads[i].filename.clone();
                    let entry = make_game_entry(&info, uploads[i].id);
                    Ok(Phase::Transfer { entry, filename })
                },
                Err(e) => Err(e),
            }
        },
        (Phase::Transfer { entry, .. }, Event::Transferred) => {
            lib.set_game(&entry);
            Ok(Phase::Launch { game: entry })
        },
        _ => {
            proof {
                assert(false);
            }
            Err(DownloadError::CatalogUnavailable)
        },
    }
}

/// The relative path, under the games root, where an upload's archive is
/// staged before extraction.
pub fn temp_rel_path(filename: &str) -> (r: String)
    ensures
        r@ == "temp/"@ + filename@,
{
    let mut out = String::from_str("temp/");
    out.append(filename);
    out
}

} // verus!
