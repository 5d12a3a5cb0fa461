//! Walking a folder.

use cheap_note::walk::{slashed, Found, Walk, NAMELESS};

/// A file that was found.
fn file(path: &str, relative: &str) -> Found {
    Found { path: String::from(path), relative: Some(String::from(relative)), is_folder: false }
}

/// A folder that was found.
fn folder(path: &str) -> Found {
    Found { path: String::from(path), relative: None, is_folder: true }
}

/// A folder and the folders in it are read one after the other, and the files come out by name.
#[test]
fn files_are_listed_by_name() {
    let mut walk = Walk::new("/a");
    assert_eq!(walk.next().as_deref(), Some("/a"));
    walk.entered(vec![
        file("/a/notes.txt", "notes.txt"),
        folder("/a/images"),
        file("/a/b.txt", "b.txt"),
        folder("/a/more"),
    ]);

    assert_eq!(walk.next().as_deref(), Some("/a/more"), "the folder found last is read first");
    walk.entered(Vec::new());
    assert_eq!(walk.next().as_deref(), Some("/a/images"));
    walk.entered(vec![file("/a/images/d.png", "images\\d.png")]);
    assert!(walk.next().is_none());

    let files: Vec<(String, String)> =
        walk.files().into_iter().map(|file| (file.name, file.path)).collect();
    assert_eq!(
        files,
        vec![
            (String::from("b.txt"), String::from("/a/b.txt")),
            (String::from("images/d.png"), String::from("/a/images/d.png")),
            (String::from("notes.txt"), String::from("/a/notes.txt")),
        ]
    );
}

/// A name is listed once: the file found last has it.
#[test]
fn a_name_is_listed_once() {
    let mut walk = Walk::new("/a");
    walk.next();
    walk.entered(vec![
        file("/a/one", "same"),
        file("/a/two", "other"),
        file("/a/three", "same"),
        Found { path: String::from("/b/four"), relative: None, is_folder: false },
    ]);

    let files = walk.files();
    let names: Vec<&str> = files.iter().map(|file| file.name.as_str()).collect();
    assert_eq!(names, vec![NAMELESS, "other", "same"]);
    assert_eq!(files[2].path, "/a/three");
}

/// The order is that of the characters, and a name comes before the names it begins.
#[test]
fn names_are_in_the_order_of_their_characters() {
    let mut walk = Walk::new("/");
    walk.next();
    walk.entered(vec![
        file("1", "b"),
        file("2", "ab"),
        file("3", "a"),
        file("4", "B"),
        file("5", "\u{c7a5}"),
    ]);

    let names: Vec<String> = walk.files().into_iter().map(|file| file.name).collect();
    let mut sorted = names.clone();
    sorted.sort();
    assert_eq!(names, sorted);
    assert_eq!(names, vec!["B", "a", "ab", "b", "\u{c7a5}"]);
    assert_eq!(slashed("a\\b/c"), "a/b/c");
}
