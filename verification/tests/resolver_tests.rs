use itch_io_downloader::resolver::{
    default_blacklist, find_executable, find_executable_parent, is_executable_blacklisted,
    FsTree,
};

fn file(name: &str, size: u64) -> FsTree {
    FsTree::File { name: String::from(name), size }
}

fn dir(name: &str, children: Vec<FsTree>) -> FsTree {
    FsTree::Dir { name: String::from(name), children }
}

#[test]
fn blacklisted_crash_handler_alone_yields_nothing() {
    let root = vec![file("UnityCrashHandler64.exe", 5000)];
    let r = find_executable(&root, &default_blacklist());
    assert!(r.is_none());
    assert!(find_executable_parent(&root, &default_blacklist()).is_none());
}

#[test]
fn crash_handler_is_skipped_in_favor_of_the_game() {
    let root = vec![
        file("UnityCrashHandler64.exe", 5000),
        file("Game.exe", 100),
    ];
    let r = find_executable(&root, &default_blacklist()).unwrap();
    assert_eq!(r, vec![String::from("Game.exe")]);
}

#[test]
fn sixty_four_bit_wins_despite_smaller_size() {
    let root = vec![file("Game32.exe", 500), file("Game64.exe", 200)];
    let r = find_executable(&root, &default_blacklist()).unwrap();
    assert_eq!(r, vec![String::from("Game64.exe")]);
}

#[test]
fn thirty_two_bit_ranks_below_neutral_names() {
    let root = vec![file("Game32.exe", 9000), file("Launcher.exe", 10)];
    let r = find_executable(&root, &default_blacklist()).unwrap();
    assert_eq!(r, vec![String::from("Launcher.exe")]);
}

#[test]
fn larger_file_wins_among_equal_classes() {
    let root = vec![file("Launcher.exe", 10), file("Game.exe", 90000)];
    let r = find_executable(&root, &default_blacklist()).unwrap();
    assert_eq!(r, vec![String::from("Game.exe")]);
}

#[test]
fn a_name_with_both_width_marks_counts_as_sixty_four_bit() {
    let root = vec![file("Game6432.exe", 1), file("Game.exe", 90000)];
    let r = find_executable(&root, &default_blacklist()).unwrap();
    assert_eq!(r, vec![String::from("Game6432.exe")]);
}

#[test]
fn directory_order_breaks_exact_ties() {
    let root = vec![file("A.exe", 100), file("B.exe", 100)];
    let r = find_executable(&root, &default_blacklist()).unwrap();
    assert_eq!(r, vec![String::from("A.exe")]);
}

#[test]
fn shallowest_directory_wins() {
    let root = vec![
        dir(
            "deep",
            vec![dir("deeper", vec![dir("deepest", vec![file("Deep.exe", 90000)])])],
        ),
        dir("shallow", vec![file("Shallow.exe", 1)]),
    ];
    let parent = find_executable_parent(&root, &default_blacklist()).unwrap();
    assert_eq!(parent, vec![String::from("shallow")]);
    let r = find_executable(&root, &default_blacklist()).unwrap();
    assert_eq!(r, vec![String::from("shallow"), String::from("Shallow.exe")]);
}

#[test]
fn root_level_executable_beats_any_subdirectory() {
    let root = vec![
        dir("sub", vec![file("Nested.exe", 90000)]),
        file("Top.exe", 1),
    ];
    let parent = find_executable_parent(&root, &default_blacklist()).unwrap();
    assert_eq!(parent, Vec::<String>::new());
    let r = find_executable(&root, &default_blacklist()).unwrap();
    assert_eq!(r, vec![String::from("Top.exe")]);
}

#[test]
fn candidates_come_from_the_matched_directory_only() {
    let root = vec![dir(
        "game",
        vec![
            file("readme.txt", 5),
            file("Game32.exe", 800),
            dir("data", vec![file("Tool64.exe", 99999)]),
            file("Game64.exe", 2),
        ],
    )];
    let r = find_executable(&root, &default_blacklist()).unwrap();
    assert_eq!(r, vec![String::from("game"), String::from("Game64.exe")]);
}

#[test]
fn blacklisted_directories_are_not_descended() {
    let blacklist = vec![String::from("helpers")];
    let root = vec![
        dir("helpers", vec![file("Helper.exe", 100)]),
        dir("real", vec![file("Real.exe", 1)]),
    ];
    let r = find_executable(&root, &blacklist).unwrap();
    assert_eq!(r, vec![String::from("real"), String::from("Real.exe")]);
}

#[test]
fn blacklist_matches_exact_trailing_suffix() {
    let blacklist = default_blacklist();
    assert!(is_executable_blacklisted("UnityCrashHandler64.exe", &blacklist));
    assert!(is_executable_blacklisted("MyUnityCrashHandler64.exe", &blacklist));
    assert!(!is_executable_blacklisted("UnityCrashHandler64.exe.bak", &blacklist));
    assert!(!is_executable_blacklisted("Game64.exe", &blacklist));
}

#[test]
fn extension_must_follow_a_name() {
    let root = vec![file(".exe", 100)];
    assert!(find_executable(&root, &default_blacklist()).is_none());
    let root2 = vec![file("game.exe.txt", 100)];
    assert!(find_executable(&root2, &default_blacklist()).is_none());
}

#[test]
fn empty_tree_yields_nothing() {
    let root: Vec<FsTree> = vec![];
    assert!(find_executable(&root, &default_blacklist()).is_none());
}
