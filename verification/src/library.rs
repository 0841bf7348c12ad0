//! The manifest of installed games.
//!
//! A [`Library`] holds the ordered collection of installed-game records of
//! one library root.  The intended invariant, established by building the
//! collection through [`Library::set_game`] and [`Library::remove_game`], is
//! that at most one record exists per game identifier; it is enforced by
//! replace-on-write, not assumed of loaded documents.

use vstd::prelude::*;

use crate::game::{Game, GameJson, GameView};

verus! {

/// The manifest document shape: the array of installed-game records.
#[derive(Debug)]
pub struct LibraryJson {
    pub games: Vec<GameJson>,
}

/// The in-memory manifest of one library root.
#[derive(Debug)]
pub struct Library {
    pub games: Vec<Game>,
}

impl View for LibraryJson {
    type V = Seq<GameView>;

    open spec fn view(&self) -> Seq<GameView> {
        self.games@.map_values(|g: GameJson| g@)
    }
}

impl View for Library {
    type V = Seq<GameView>;

    open spec fn view(&self) -> Seq<GameView> {
        self.games@.map_values(|g: Game| g@)
    }
}

/// True when some record of `games` carries the identifier `game_id`.
pub open spec fn contains_id(games: Seq<GameView>, game_id: int) -> bool {
    exists|i: int| 0 <= i < games.len() && games[i].game_id == game_id
}

/// The index of the first record carrying `game_id`; meaningful only when
/// [`contains_id`] holds.
pub open spec fn first_index_of(games: Seq<GameView>, game_id: int) -> int
    decreases games.len(),
{
    if games.len() == 0 {
        0
    } else if games[0].game_id == game_id {
        0
    } else {
        1 + first_index_of(games.drop_first(), game_id)
    }
}

/// `games` with the first record carrying `game_id` taken out; unchanged when
/// no record carries it.
pub open spec fn remove_first(games: Seq<GameView>, game_id: int) -> Seq<GameView>
    decreases games.len(),
{
    if games.len() == 0 {
        games
    } else if games[0].game_id == game_id {
        games.drop_first()
    } else {
        seq![games[0]] + remove_first(games.drop_first(), game_id)
    }
}

/// The manifest after storing `g`: any record with `g`'s identifier is
/// replaced, and the stored record always stands at the end.
pub open spec fn spec_upsert(games: Seq<GameView>, g: GameView) -> Seq<GameView> {
    remove_first(games, g.game_id).push(g)
}

/// How many records of `games` carry the identifier `game_id`.
pub open spec fn count_id(games: Seq<GameView>, game_id: int) -> nat
    decreases games.len(),
{
    if games.len() == 0 {
        0
    } else {
        count_id(games.drop_first(), game_id) + if games[0].game_id == game_id {
            1nat
        } else {
            0nat
        }
    }
}

/// The manifest invariant: no two records share a game identifier.
pub open spec fn unique_ids(games: Seq<GameView>) -> bool {
    forall|i: int, j: int|
        0 <= i < j < games.len() ==> games[i].game_id != games[j].game_id
}

impl Library {
    /// Builds the in-memory manifest from a manifest document.
    pub fn new(library_json: &LibraryJson) -> (r: Self)
        ensures
            r@ == library_json@,
    {
        let mut games: Vec<Game> = Vec::new();
        let mut i: usize = 0;
        while i < library_json.games.len()
            invariant
                i <= library_json.games.len(),
                games@.len() == i,
                forall|j: int| 0 <= j < i ==> games@[j]@ == library_json.games@[j]@,
            decreases library_json.games.len() - i,
        {
            games.push(Game::new(&library_json.games[i]));
            i = i + 1;
        }
        let r = Library { games };
        assert(r@ =~= library_json@);
        r
    }

    /// Exports the manifest in the document shape.
    pub fn json(&self) -> (r: LibraryJson)
        ensures
            r@ == self@,
    {
        let mut games: Vec<GameJson> = Vec::new();
        let mut i: usize = 0;
        while i < self.games.len()
            invariant
                i <= self.games.len(),
                games@.len() == i,
                forall|j: int| 0 <= j < i ==> games@[j]@ == self.games@[j]@,
            decreases self.games.len() - i,
        {
            games.push(self.games[i].json());
            i = i + 1;
        }
        let r = LibraryJson { games };
        assert(r@ =~= self@);
        r
    }

    /// Looks up the record of `game_id`: the first matching record, or `None`
    /// when the game is not installed.
    pub fn get_game(&self, game_id: &i64) -> (r: Option<&Game>)
        ensures
            r is Some <==> contains_id(self@, *game_id as int),
            r matches Some(g) ==> g@ == self@[first_index_of(self@, *game_id as int)],
    {
        let ghost target = *game_id as int;
        let mut i: usize = 0;
        while i < self.games.len()
            invariant
                i <= self.games.len(),
                forall|j: int| 0 <= j < i ==> self@[j].game_id != target,
                target == *game_id as int,
            decreases self.games.len() - i,
        {
            if self.games[i].game_id == *game_id {
                proof {
                    assert(self@[i as int].game_id == target);
                    lemma_first_index_of(self@, target, i as int);
                }
                return Some(&self.games[i]);
            }
            i = i + 1;
        }
        None
    }

    /// Stores `game`: removes any record with its identifier, then appends
    /// it at the end.
    pub fn set_game(&mut self, game: &Game)
        ensures
            final(self)@ == spec_upsert(old(self)@, game@),
    {
        self.remove_game(game);
        self.games.push(game.clone());
        assert(self@ =~= remove_first(old(self)@, game@.game_id).push(game@));
    }

    /// Removes the first record carrying `game`'s identifier, if any.
    pub fn remove_game(&mut self, game: &Game)
        ensures
            final(self)@ == remove_first(old(self)@, game@.game_id),
    {
        let ghost target = game@.game_id;
        let mut i: usize = 0;
        while i < self.games.len()
            invariant
                i <= self.games.len(),
                forall|j: int| 0 <= j < i ==> self@[j].game_id != target,
                self@ == old(self)@,
                target == game@.game_id,
            decreases self.games.len() - i,
        {
            if self.games[i].game_id == game.game_id {
                self.games.remove(i);
                proof {
                    lemma_remove_first_at(old(self)@, target, i as int);
                    assert(self@ =~= old(self)@.subrange(0, i as int) + old(self)@.subrange(
                        i as int + 1,
                        old(self)@.len() as int,
                    ));
                }
                return ;
            }
            i = i + 1;
        }
        proof {
            lemma_remove_first_absent(self@, target);
        }
    }
}

/// When the records before `i` miss `game_id` and the record at `i` carries
/// it, `i` is the first index.
proof fn lemma_first_index_of(games: Seq<GameView>, game_id: int, i: int)
    requires
        0 <= i < games.len(),
        games[i].game_id == game_id,
        forall|j: int| 0 <= j < i ==> games[j].game_id != game_id,
    ensures
        first_index_of(games, game_id) == i,
    decreases i,
{
    if i > 0 {
        lemma_first_index_of(games.drop_first(), game_id, i - 1);
    }
}

/// Removing the first match at index `i` splits the sequence around `i`.
proof fn lemma_remove_first_at(games: Seq<GameView>, game_id: int, i: int)
    requires
        0 <= i < games.len(),
        games[i].game_id == game_id,
        forall|j: int| 0 <= j < i ==> games[j].game_id != game_id,
    ensures
        remove_first(games, game_id) =~= games.subrange(0, i) + games.subrange(
            i + 1,
            games.len() as int,
        ),
    decreases i,
{
    if i > 0 {
        lemma_remove_first_at(games.drop_first(), game_id, i - 1);
        assert(games.drop_first().subrange(0, i - 1) =~= games.subrange(1, i));
        assert(games.drop_first().subrange(i, games.len() - 1) =~= games.subrange(
            i + 1,
            games.len() as int,
        ));
    }
}

/// Removing an identifier that no record carries changes nothing.
proof fn lemma_remove_first_absent(games: Seq<GameView>, game_id: int)
    requires
        forall|j: int| 0 <= j < games.len() ==> games[j].game_id != game_id,
    ensures
        remove_first(games, game_id) =~= games,
    decreases games.len(),
{
    if games.len() > 0 {
        lemma_remove_first_absent(games.drop_first(), game_id);
    }
}

/// Removing the first match of `game_id` lowers its record count by one and
/// leaves every other identifier's count unchanged.
proof fn lemma_remove_first_count(games: Seq<GameView>, game_id: int, other: int)
    ensures
        count_id(remove_first(games, game_id), other) == if game_id == other && count_id(
            games,
            other,
        ) > 0 {
            count_id(games, other) - 1
        } else {
            count_id(games, other) as int
        },
    decreases games.len(),
{
    if games.len() > 0 {
        if games[0].game_id == game_id {
            lemma_count_id_positive(games, game_id);
        } else {
            lemma_remove_first_count(games.drop_first(), game_id, other);
            let rest = remove_first(games.drop_first(), game_id);
            assert((seq![games[0]] + rest).drop_first() =~= rest);
        }
    }
}

/// A sequence whose head matches has a positive count.
proof fn lemma_count_id_positive(games: Seq<GameView>, game_id: int)
    requires
        games.len() > 0,
        games[0].game_id == game_id,
    ensures
        count_id(games, game_id) > 0,
{
}

/// A count over a push decomposes into the count plus the pushed record.
proof fn lemma_count_id_push(games: Seq<GameView>, g: GameView, game_id: int)
    ensures
        count_id(games.push(g), game_id) == count_id(games, game_id) + if g.game_id == game_id {
            1int
        } else {
            0int
        },
    decreases games.len(),
{
    if games.len() == 0 {
        assert(games.push(g).drop_first() =~= games);
    } else {
        lemma_count_id_push(games.drop_first(), g, game_id);
        assert(games.push(g).drop_first() =~= games.drop_first().push(g));
    }
}

/// Counts and uniqueness agree: unique identifiers mean every count is at
/// most one, and conversely.
proof fn lemma_unique_ids_count(games: Seq<GameView>, game_id: int)
    requires
        unique_ids(games),
    ensures
        count_id(games, game_id) <= 1,
    decreases games.len(),
{
    if games.len() > 0 {
        assert(forall|i: int, j: int|
            0 <= i < j < games.drop_first().len() ==> games.drop_first()[i].game_id
                != games.drop_first()[j].game_id) by {
            assert(forall|i: int|
                0 <= i < games.drop_first().len() ==> games.drop_first()[i] == games[i + 1]);
        }
        lemma_unique_ids_count(games.drop_first(), game_id);
        if games[0].game_id == game_id && count_id(games.drop_first(), game_id) > 0 {
            lemma_count_id_contains(games.drop_first(), game_id);
            let i = choose|i: int|
                0 <= i < games.drop_first().len() && games.drop_first()[i].game_id == game_id;
            assert(games[0].game_id == games[i + 1].game_id);
        }
    }
}

/// A positive count exhibits a matching record.
proof fn lemma_count_id_contains(games: Seq<GameView>, game_id: int)
    requires
        count_id(games, game_id) > 0,
    ensures
        contains_id(games, game_id),
    decreases games.len(),
{
    if games.len() > 0 {
        if games[0].game_id == game_id {
        } else {
            lemma_count_id_contains(games.drop_first(), game_id);
            let i = choose|i: int|
                0 <= i < games.drop_first().len() && games.drop_first()[i].game_id == game_id;
            assert(games[i + 1].game_id == game_id);
        }
    }
}

/// Storing a record keeps identifiers unique.
pub proof fn lemma_upsert_preserves_unique(games: Seq<GameView>, g: GameView)
    requires
        unique_ids(games),
    ensures
        unique_ids(spec_upsert(games, g)),
{
    lemma_remove_first_unique(games, g.game_id);
    let removed = remove_first(games, g.game_id);
    lemma_remove_first_count(games, g.game_id, g.game_id);
    lemma_unique_ids_count(games, g.game_id);
    assert(count_id(removed, g.game_id) == 0);
    let result = removed.push(g);
    assert forall|i: int, j: int| 0 <= i < j < result.len() implies result[i].game_id
        != result[j].game_id by {
        if j == result.len() - 1 {
            if result[i].game_id == g.game_id {
                lemma_contains_count(removed, i, g.game_id);
            }
        }
    }
}

/// A matching record at index `i` forces a positive count.
proof fn lemma_contains_count(games: Seq<GameView>, i: int, game_id: int)
    requires
        0 <= i < games.len(),
        games[i].game_id == game_id,
    ensures
        count_id(games, game_id) > 0,
    decreases i,
{
    if i > 0 {
        lemma_contains_count(games.drop_first(), i - 1, game_id);
    }
}

/// Removing a record keeps identifiers unique, and every record that stays
/// was already present.
proof fn lemma_remove_first_unique(games: Seq<GameView>, game_id: int)
    requires
        unique_ids(games),
    ensures
        unique_ids(remove_first(games, game_id)),
        forall|i: int|
            0 <= i < remove_first(games, game_id).len() ==> contains_id(
                games,
                #[trigger] remove_first(games, game_id)[i].game_id,
            ) && count_id(games, remove_first(games, game_id)[i].game_id) >= count_id(
                remove_first(games, game_id),
                remove_first(games, game_id)[i].game_id,
            ),
    decreases games.len(),
{
    let result = remove_first(games, game_id);
    if games.len() == 0 {
    } else if games[0].game_id == game_id {
        assert(forall|i: int, j: int|
            0 <= i < j < result.len() ==> result[i].game_id != result[j].game_id) by {
            assert(forall|i: int| 0 <= i < result.len() ==> result[i] == games[i + 1]);
        }
        assert forall|i: int| 0 <= i < result.len() implies contains_id(
            games,
            #[trigger] result[i].game_id,
        ) && count_id(games, result[i].game_id) >= count_id(result, result[i].game_id) by {
            assert(result[i] == games[i + 1]);
            lemma_remove_first_count(games, game_id, result[i].game_id);
        }
    } else {
        assert(unique_ids(games.drop_first())) by {
            assert(forall|i: int|
                0 <= i < games.drop_first().len() ==> games.drop_first()[i] == games[i + 1]);
        }
        lemma_remove_first_unique(games.drop_first(), game_id);
        let rest = remove_first(games.drop_first(), game_id);
        assert(result =~= seq![games[0]] + rest);
        assert forall|i: int| 0 <= i < result.len() implies contains_id(
            games,
            #[trigger] result[i].game_id,
        ) && count_id(games, result[i].game_id) >= count_id(result, result[i].game_id) by {
            lemma_remove_first_count(games, game_id, result[i].game_id);
        }
        assert forall|i: int, j: int| 0 <= i < j < result.len() implies result[i].game_id
            != result[j].game_id by {
            if i == 0 {
                assert(rest[j - 1] == result[j]);
                assert(contains_id(games.drop_first(), result[j].game_id));
                let k = choose|k: int|
                    0 <= k < games.drop_first().len() && games.drop_first()[k].game_id
                        == result[j].game_id;
                assert(games[k + 1].game_id == result[j].game_id);
            } else {
                assert(result[i] == rest[i - 1] && result[j] == rest[j - 1]);
            }
        }
    }
}

/// Storing the same record twice equals storing it once: under the manifest
/// invariant, a repeated upsert changes nothing, leaves exactly one record
/// with the stored identifier, and that record stands at the end.
pub proof fn lemma_upsert_idempotent(games: Seq<GameView>, g: GameView)
    requires
        unique_ids(games),
    ensures
        spec_upsert(spec_upsert(games, g), g) == spec_upsert(games, g),
        count_id(spec_upsert(games, g), g.game_id) == 1,
        spec_upsert(games, g).last() == g,
{
    let once = spec_upsert(games, g);
    let removed = remove_first(games, g.game_id);
    lemma_unique_ids_count(games, g.game_id);
    lemma_remove_first_count(games, g.game_id, g.game_id);
    assert(count_id(removed, g.game_id) == 0);
    lemma_count_id_push(removed, g, g.game_id);
    assert(count_id(once, g.game_id) == 1);
    lemma_remove_push_of_free(removed, g);
    assert(remove_first(once, g.game_id) =~= removed);
}

/// Removing an identifier from a sequence free of it, after pushing one
/// record carrying it, strips exactly the pushed record.
proof fn lemma_remove_push_of_free(games: Seq<GameView>, g: GameView)
    requires
        count_id(games, g.game_id) == 0,
    ensures
        remove_first(games.push(g), g.game_id) =~= games,
    decreases games.len(),
{
    if games.len() == 0 {
        assert(games.push(g).drop_first() =~= games);
    } else {
        lemma_remove_push_of_free(games.drop_first(), g);
        assert(games.push(g).drop_first() =~= games.drop_first().push(g));
        assert(games[0].game_id != g.game_id) by {
            lemma_count_id_positive(games, games[0].game_id);
            if games[0].game_id == g.game_id {
                assert(count_id(games, g.game_id) > 0);
            }
        }
    }
}

} // verus!
