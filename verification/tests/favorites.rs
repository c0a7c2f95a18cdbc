use audio_browser::error::Error;
use audio_browser::favorites::{
    add_favorite, get_favorites, remove_favorite, Favorites, Rewrite, Stored,
};

fn paths(items: &[&str]) -> Vec<String> {
    items.iter().map(|s| s.to_string()).collect()
}

fn document(items: &[&str]) -> Stored {
    Stored::Document(paths(items))
}

fn to_json(stored: &Stored) -> String {
    let files = match stored {
        Stored::Document(files) => files.clone(),
        other => panic!("{:?}", other),
    };
    let mut object = serde_json::Map::new();
    object.insert("files".to_string(), serde_json::Value::from(files));
    serde_json::to_string_pretty(&serde_json::Value::Object(object)).unwrap()
}

fn from_json(text: &str) -> Stored {
    let value: serde_json::Value = match serde_json::from_str(text) {
        Ok(value) => value,
        Err(e) => return Stored::Malformed(e.to_string()),
    };
    let items = match value.get("files").and_then(|f| f.as_array()) {
        Some(items) => items,
        None => return Stored::Malformed("missing field `files`".to_string()),
    };
    let mut files = Vec::new();
    for item in items {
        match item.as_str() {
            Some(s) => files.push(s.to_string()),
            None => return Stored::Malformed("invalid type".to_string()),
        }
    }
    Stored::Document(files)
}

#[test]
fn new_list_is_empty() {
    let favorites = Favorites::new();
    assert_eq!(favorites.len(), 0);
    assert!(favorites.files().is_empty());
    assert!(!favorites.contains("/music/a.mp3"));
}

#[test]
fn missing_document_is_an_empty_list() {
    assert_eq!(Favorites::load(Stored::Missing), Ok(Favorites::new()));
    assert_eq!(get_favorites(Stored::Missing), Ok(Vec::new()));
}

#[test]
fn malformed_document_is_a_load_error() {
    let stored = Stored::Malformed("expected value at line 1 column 1".to_string());
    assert_eq!(
        Favorites::load(stored.clone()),
        Err(Error::SerializationError("expected value at line 1 column 1".to_string()))
    );
    assert_eq!(
        get_favorites(stored.clone()),
        Err(Error::SerializationError("expected value at line 1 column 1".to_string()))
    );
    assert_eq!(
        add_favorite(stored.clone(), "x".to_string()),
        Err(Error::SerializationError("expected value at line 1 column 1".to_string()))
    );
    assert_eq!(
        remove_favorite(stored, "x"),
        Err(Error::SerializationError("expected value at line 1 column 1".to_string()))
    );
}

#[test]
fn unreadable_document_is_an_io_error() {
    let stored = Stored::Unreadable("permission denied".to_string());
    assert_eq!(
        Favorites::load(stored.clone()),
        Err(Error::IoError("permission denied".to_string()))
    );
    assert_eq!(
        add_favorite(stored.clone(), "x".to_string()),
        Err(Error::IoError("permission denied".to_string()))
    );
    assert_eq!(remove_favorite(stored, "x"), Err(Error::IoError("permission denied".to_string())));
}

#[test]
fn document_is_loaded_in_order() {
    let favorites = Favorites::load(document(&["/b.mp3", "/a.mp3", "/c.mp3"])).unwrap();
    assert_eq!(favorites.files(), &paths(&["/b.mp3", "/a.mp3", "/c.mp3"]));
    assert_eq!(favorites.len(), 3);
    assert_eq!(
        get_favorites(document(&["/b.mp3", "/a.mp3", "/c.mp3"])),
        Ok(paths(&["/b.mp3", "/a.mp3", "/c.mp3"]))
    );
}

#[test]
fn add_appends_a_new_path() {
    let mut favorites = Favorites::load(document(&["/b.mp3", "/a.mp3"])).unwrap();
    assert!(favorites.add("/c.mp3".to_string()));
    assert_eq!(favorites.files(), &paths(&["/b.mp3", "/a.mp3", "/c.mp3"]));
    assert!(favorites.contains("/c.mp3"));
}

#[test]
fn add_favorite_is_idempotent() {
    let first = add_favorite(Stored::Missing, "/music/a.mp3".to_string()).unwrap();
    assert_eq!(first.favorites.files(), &paths(&["/music/a.mp3"]));
    assert_eq!(first.favorites.save(), document(&["/music/a.mp3"]));
    let second = add_favorite(first.favorites.save(), "/music/a.mp3".to_string()).unwrap();
    assert_eq!(second.favorites.files(), &paths(&["/music/a.mp3"]));
    let count = second.favorites.files().iter().filter(|p| p.as_str() == "/music/a.mp3").count();
    assert_eq!(count, 1);
    assert_eq!(second, first);
}

#[test]
fn add_of_a_stored_path_writes_the_same_document_again() {
    let stored = document(&["/b.mp3", "/a.mp3", "/c.mp3"]);
    let rewrite = add_favorite(stored.clone(), "/a.mp3".to_string()).unwrap();
    assert_eq!(rewrite, Rewrite { favorites: Favorites::load(stored.clone()).unwrap() });
    assert_eq!(rewrite.favorites.save(), stored);
    assert_eq!(rewrite.favorites.len(), 3);
}

#[test]
fn add_of_a_new_path_writes_the_longer_document() {
    let rewrite = add_favorite(document(&["/b.mp3", "/a.mp3"]), "/c.mp3".to_string()).unwrap();
    assert_eq!(rewrite.favorites.save(), document(&["/b.mp3", "/a.mp3", "/c.mp3"]));
}

#[test]
fn add_twice_among_others() {
    let mut favorites = Favorites::load(document(&["/x", "/y"])).unwrap();
    assert!(favorites.add("/p".to_string()));
    assert!(!favorites.add("/p".to_string()));
    assert!(!favorites.add("/x".to_string()));
    assert_eq!(favorites.files(), &paths(&["/x", "/y", "/p"]));
}

#[test]
fn paths_are_compared_exactly() {
    let mut favorites = Favorites::new();
    assert!(favorites.add("/music/a.mp3".to_string()));
    assert!(favorites.add("/music/A.mp3".to_string()));
    assert!(favorites.add("/music/a.mp3 ".to_string()));
    assert!(favorites.add("".to_string()));
    assert_eq!(favorites.len(), 4);
    assert!(favorites.contains(""));
    assert!(!favorites.contains("/music"));
}

#[test]
fn remove_absent_path_changes_nothing() {
    let rewrite = remove_favorite(document(&["/a", "/b"]), "/c").unwrap();
    assert_eq!(rewrite.favorites.files(), &paths(&["/a", "/b"]));
    assert_eq!(rewrite.favorites.save(), document(&["/a", "/b"]));
    let rewrite = remove_favorite(Stored::Missing, "/c").unwrap();
    assert_eq!(rewrite, Rewrite { favorites: Favorites::new() });
    assert_eq!(rewrite.favorites.save(), document(&[]));
    let mut favorites = Favorites::load(document(&["/a", "/b"])).unwrap();
    assert!(!favorites.remove("/c"));
    assert_eq!(favorites.files(), &paths(&["/a", "/b"]));
}

#[test]
fn remove_keeps_the_order_of_the_rest() {
    let mut favorites = Favorites::load(document(&["/d", "/a", "/c", "/b"])).unwrap();
    assert!(favorites.remove("/a"));
    assert_eq!(favorites.files(), &paths(&["/d", "/c", "/b"]));
    assert!(favorites.remove("/b"));
    assert_eq!(favorites.files(), &paths(&["/d", "/c"]));
    assert!(favorites.remove("/d"));
    assert!(favorites.remove("/c"));
    assert_eq!(favorites.len(), 0);
}

#[test]
fn remove_takes_out_every_equal_entry() {
    let rewrite = remove_favorite(document(&["/a", "/b", "/a", "/c", "/a"]), "/a").unwrap();
    assert_eq!(rewrite.favorites.files(), &paths(&["/b", "/c"]));
    assert!(!rewrite.favorites.contains("/a"));
}

#[test]
fn duplicates_in_a_document_are_kept_as_they_are() {
    let stored = document(&["/a", "/a"]);
    assert_eq!(get_favorites(stored.clone()), Ok(paths(&["/a", "/a"])));
    let rewrite = add_favorite(stored.clone(), "/a".to_string()).unwrap();
    assert_eq!(rewrite.favorites.files(), &paths(&["/a", "/a"]));
    assert_eq!(rewrite.favorites.save(), stored);
}

#[test]
fn save_then_load_gives_the_same_list() {
    let mut favorites = Favorites::new();
    for p in ["/music/b.flac", "/music/a.mp3", "/other/\u{66f2}.ogg", ""] {
        favorites.add(p.to_string());
    }
    assert_eq!(Favorites::load(favorites.save()), Ok(favorites.clone()));
    assert_eq!(Favorites::load(Favorites::new().save()), Ok(Favorites::new()));
}

#[test]
fn save_then_load_through_json() {
    let mut favorites = Favorites::new();
    for p in ["/music/b.flac", "/music/a.mp3", "C:\\Music\\\"q\".wav", "/other/\u{66f2}.ogg"] {
        favorites.add(p.to_string());
    }
    let text = to_json(&favorites.save());
    let back = Favorites::load(from_json(&text)).unwrap();
    assert_eq!(
        back.files(),
        &paths(&["/music/b.flac", "/music/a.mp3", "C:\\Music\\\"q\".wav", "/other/\u{66f2}.ogg"])
    );
    assert_eq!(back, favorites);
}

#[test]
fn empty_list_through_json() {
    let text = to_json(&Favorites::new().save());
    assert_eq!(Favorites::load(from_json(&text)), Ok(Favorites::new()));
}

#[test]
fn broken_json_is_a_serialization_error() {
    match Favorites::load(from_json("{ \"files\": [")) {
        Err(Error::SerializationError(message)) => assert!(!message.is_empty()),
        other => panic!("{:?}", other),
    }
}
