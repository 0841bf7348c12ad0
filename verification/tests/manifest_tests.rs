use itch_io_downloader::game::{Game, GameJson};
use itch_io_downloader::library::{Library, LibraryJson};

fn game(game_id: i64, upload_id: i64, title: &str) -> Game {
    Game {
        game_id,
        upload_id,
        title: String::from(title),
        description: String::from("No description"),
        url: format!("https://example.itch.io/{}", game_id),
        directory: format!("{}", game_id),
    }
}

#[test]
fn get_game_finds_by_id() {
    let mut lib = Library { games: vec![] };
    lib.set_game(&game(1, 10, "one"));
    lib.set_game(&game(2, 20, "two"));
    assert_eq!(lib.get_game(&1).unwrap().title, "one");
    assert_eq!(lib.get_game(&2).unwrap().title, "two");
    assert!(lib.get_game(&3).is_none());
}

#[test]
fn set_game_appends_new_entries_in_order() {
    let mut lib = Library { games: vec![] };
    lib.set_game(&game(1, 10, "one"));
    lib.set_game(&game(2, 20, "two"));
    lib.set_game(&game(3, 30, "three"));
    let ids: Vec<i64> = lib.games.iter().map(|g| g.game_id).collect();
    assert_eq!(ids, vec![1, 2, 3]);
}

#[test]
fn set_game_replaces_and_moves_to_end() {
    let mut lib = Library { games: vec![] };
    lib.set_game(&game(1, 10, "one"));
    lib.set_game(&game(2, 20, "two"));
    lib.set_game(&game(1, 11, "one updated"));
    let ids: Vec<i64> = lib.games.iter().map(|g| g.game_id).collect();
    assert_eq!(ids, vec![2, 1]);
    assert_eq!(lib.get_game(&1).unwrap().upload_id, 11);
    assert_eq!(lib.get_game(&1).unwrap().title, "one updated");
}

#[test]
fn upsert_twice_keeps_one_entry_at_the_end() {
    let mut lib = Library { games: vec![] };
    lib.set_game(&game(5, 50, "five"));
    lib.set_game(&game(9, 90, "nine"));
    let t = game(5, 51, "five");
    lib.set_game(&t);
    lib.set_game(&t);
    let matching: Vec<&Game> = lib.games.iter().filter(|g| g.game_id == 5).collect();
    assert_eq!(matching.len(), 1);
    assert_eq!(lib.games.last().unwrap().game_id, 5);
    assert_eq!(lib.games.last().unwrap().upload_id, 51);
    assert_eq!(lib.games.len(), 2);
}

#[test]
fn remove_game_removes_only_matching_entry() {
    let mut lib = Library { games: vec![] };
    lib.set_game(&game(1, 10, "one"));
    lib.set_game(&game(2, 20, "two"));
    lib.remove_game(&game(1, 99, "anything"));
    assert!(lib.get_game(&1).is_none());
    assert_eq!(lib.games.len(), 1);
    lib.remove_game(&game(7, 70, "absent"));
    assert_eq!(lib.games.len(), 1);
}

#[test]
fn library_round_trips_through_document_shape() {
    let json = LibraryJson {
        games: vec![
            GameJson {
                game_id: 4,
                upload_id: 40,
                title: String::from("Four"),
                description: String::from("d"),
                url: String::from("u"),
                directory: String::from("4"),
            },
        ],
    };
    let lib = Library::new(&json);
    assert_eq!(lib.games.len(), 1);
    assert_eq!(lib.games[0].game_id, 4);
    let back = lib.json();
    assert_eq!(back.games.len(), 1);
    assert_eq!(back.games[0].title, "Four");
    assert_eq!(back.games[0].upload_id, 40);
}

#[test]
fn game_converts_between_shapes() {
    let gj = GameJson {
        game_id: 8,
        upload_id: 80,
        title: String::from("Eight"),
        description: String::from("desc"),
        url: String::from("https://example.itch.io/eight"),
        directory: String::from("8"),
    };
    let g = Game::new(&gj);
    assert_eq!(g.game_id, 8);
    assert_eq!(g.title, "Eight");
    let back = g.json();
    assert_eq!(back.directory, "8");
    assert_eq!(back.description, "desc");
}
