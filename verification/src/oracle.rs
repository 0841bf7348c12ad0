//! The version oracle: which upload of a game counts as the latest
//! installable one, and whether an installed game is current.

use vstd::prelude::*;

use crate::api::GameUpload;
use crate::error::DownloadError;
use crate::game::Game;
use crate::text::str_eq;

verus! {

/// True when the upload's hosting-provider hint names a provider the
/// transfer layer can fetch from.  An absent hint means the artifact is
/// hosted by the catalog itself and is always supported; any unrecognized
/// provider is skipped rather than attempted and failed later.
pub open spec fn spec_host_supported(host: Option<String>) -> bool {
    match host {
        Option::None => true,
        Option::Some(h) => h@ == "mega.nz"@ || h@ == "mega.co.nz"@,
    }
}

/// True when the upload can be installed by this system: it targets the
/// Windows platform and its host, if any, is supported.
pub open spec fn spec_eligible(u: GameUpload) -> bool {
    u.p_windows && spec_host_supported(u.host)
}

/// Executable form of [`spec_host_supported`].
pub fn host_supported(host: &Option<String>) -> (r: bool)
    ensures
        r == spec_host_supported(*host),
{
    match host {
        Option::None => true,
        Option::Some(h) => str_eq(h.as_str(), "mega.nz") || str_eq(h.as_str(), "mega.co.nz"),
    }
}

/// Executable form of [`spec_eligible`].
pub fn eligible(u: &GameUpload) -> (r: bool)
    ensures
        r == spec_eligible(*u),
{
    u.p_windows && host_supported(&u.host)
}

/// True when `i` indexes the upload this system treats as latest: eligible,
/// of maximal identifier among the eligible uploads, and first among those
/// sharing that identifier.  At most one index satisfies this.
pub open spec fn is_latest_index(uploads: Seq<GameUpload>, i: int) -> bool {
    &&& 0 <= i < uploads.len()
    &&& spec_eligible(uploads[i])
    &&& forall|j: int|
        0 <= j < uploads.len() && spec_eligible(uploads[j]) ==> uploads[j].id <= uploads[i].id
    &&& forall|j: int| 0 <= j < i && spec_eligible(uploads[j]) ==> uploads[j].id < uploads[i].id
}

/// Picks the latest installable upload: among the eligible uploads, the one
/// with the greatest numeric identifier (the first such upload when several
/// share it).  Identifier order stands in for recency; the catalog is
/// assumed never to recycle or decrease identifiers.  Fails with
/// [`DownloadError::NoEligibleVariant`] exactly when no upload is eligible.
pub fn latest_installable_variant(uploads: &Vec<GameUpload>) -> (r: Result<
    usize,
    DownloadError,
>)
    ensures
        r is Ok <==> exists|j: int| 0 <= j < uploads@.len() && spec_eligible(uploads@[j]),
        r matches Ok(i) ==> is_latest_index(uploads@, i as int),
        r matches Err(e) ==> e is NoEligibleVariant,
{
    let mut best: Option<usize> = None;
    let mut i: usize = 0;
    while i < uploads.len()
        invariant
            i <= uploads.len(),
            best is Some <==> exists|j: int| 0 <= j < i && spec_eligible(uploads@[j]),
            best matches Some(b) ==> {
                &&& 0 <= b < i
                &&& spec_eligible(uploads@[b as int])
                &&& forall|j: int|
                    0 <= j < i && spec_eligible(uploads@[j]) ==> uploads@[j].id
                        <= uploads@[b as int].id
                &&& forall|j: int|
                    0 <= j < b && spec_eligible(uploads@[j]) ==> uploads@[j].id
                        < uploads@[b as int].id
            },
        decreases uploads.len() - i,
    {
        if eligible(&uploads[i]) {
            assert(spec_eligible(uploads@[i as int]));
            match best {
                None => {
                    best = Some(i);
                },
                Some(b) => {
                    if uploads[b].id < uploads[i].id {
                        best = Some(i);
                    }
                },
            }
        }
        i = i + 1;
    }
    match best {
        Some(b) => Ok(b),
        None => Err(DownloadError::NoEligibleVariant),
    }
}

/// Whether an installed game is current: it must actually be on disk
/// (`downloaded`), and no eligible upload may carry an identifier greater
/// than the installed one.  A game that is not downloaded is never up to
/// date.  Fails with [`DownloadError::NoEligibleVariant`] exactly when the
/// game is downloaded but no upload is eligible.
pub fn is_up_to_date(game: &Game, downloaded: bool, uploads: &Vec<GameUpload>) -> (r: Result<
    bool,
    DownloadError,
>)
    ensures
        !downloaded ==> (r matches Ok(b) && !b),
        downloaded && (exists|j: int| 0 <= j < uploads@.len() && spec_eligible(uploads@[j]))
            ==> (r matches Ok(b) && (b <==> forall|j: int|
            0 <= j < uploads@.len() && spec_eligible(uploads@[j]) ==> uploads@[j].id
                <= game.upload_id)),
        downloaded && !(exists|j: int| 0 <= j < uploads@.len() && spec_eligible(uploads@[j]))
            ==> (r matches Err(e) && e is NoEligibleVariant),
{
    if !downloaded {
        return Ok(false);
    }
    match latest_installable_variant(uploads) {
        Ok(i) => Ok(uploads[i].id <= game.upload_id),
        Err(e) => Err(e),
    }
}

impl Game {
    /// Whether this installed game is current, given its on-disk presence
    /// and the catalog's upload list; see [`is_up_to_date`].
    pub fn is_latest(&self, downloaded: bool, uploads: &Vec<GameUpload>) -> (r: Result<
        bool,
        DownloadError,
    >)
        ensures
            !downloaded ==> (r matches Ok(b) && !b),
            downloaded && (exists|j: int| 0 <= j < uploads@.len() && spec_eligible(uploads@[j]))
                ==> (r matches Ok(b) && (b <==> forall|j: int|
                0 <= j < uploads@.len() && spec_eligible(uploads@[j]) ==> uploads@[j].id
                    <= self.upload_id)),
            downloaded && !(exists|j: int| 0 <= j < uploads@.len() && spec_eligible(uploads@[j]))
                ==> (r matches Err(e) && e is NoEligibleVariant),
    {
        is_up_to_date(self, downloaded, uploads)
    }
}

} // verus!
