use audio_browser::names::{comes_before, extension_of, is_audio_extension, is_audio_name};

#[test]
fn extension_is_what_follows_the_last_dot() {
    assert_eq!(extension_of("a.mp3"), Some("mp3"));
    assert_eq!(extension_of("archive.tar.gz"), Some("gz"));
    assert_eq!(extension_of("song.FLAC"), Some("FLAC"));
    assert_eq!(extension_of("..a"), Some("a"));
    assert_eq!(extension_of(".hidden.ogg"), Some("ogg"));
}

#[test]
fn extension_may_be_empty() {
    assert_eq!(extension_of("a."), Some(""));
    assert_eq!(extension_of("a.."), Some(""));
}

#[test]
fn names_without_extension() {
    assert_eq!(extension_of(""), None);
    assert_eq!(extension_of("README"), None);
    assert_eq!(extension_of(".hidden"), None);
    assert_eq!(extension_of("."), None);
    assert_eq!(extension_of(".."), None);
}

#[test]
fn extension_of_names_beyond_ascii() {
    assert_eq!(extension_of("caf\u{e9}.mp3"), Some("mp3"));
    assert_eq!(extension_of("\u{66f2}.\u{97f3}"), Some("\u{97f3}"));
}

#[test]
fn the_six_audio_extensions() {
    for ext in ["mp3", "wav", "ogg", "flac", "m4a", "aac"] {
        assert!(is_audio_extension(ext), "{}", ext);
    }
}

#[test]
fn audio_extensions_in_any_case() {
    for ext in ["MP3", "Mp3", "mP3", "WAV", "Ogg", "FLAC", "fLaC", "M4A", "m4A", "AAC", "aAc"] {
        assert!(is_audio_extension(ext), "{}", ext);
    }
}

#[test]
fn other_extensions_are_not_audio() {
    for ext in ["", "txt", "mp", "mp33", "mp4", "wave", "flac1", "aa", "3pm", " mp3", "mp3 "] {
        assert!(!is_audio_extension(ext), "{:?}", ext);
    }
}

#[test]
fn only_ascii_letters_fold() {
    // Characters 32 below a letter of an extension, and letters beyond ASCII.
    assert!(!is_audio_extension("-p3"));
    assert!(!is_audio_extension("w!v"));
    assert!(!is_audio_extension("fl\u{e1}c"));
    assert!(!is_audio_extension("FL\u{c1}C"));
    assert!(!is_audio_extension("\u{ff4d}\u{ff50}\u{ff13}"));
    assert!(!is_audio_extension("o\u{121}g"));
}

#[test]
fn audio_names() {
    assert!(is_audio_name("a.mp3"));
    assert!(is_audio_name("My Song.final.WAV"));
    assert!(is_audio_name(".05.ogg"));
    assert!(!is_audio_name("b.txt"));
    assert!(!is_audio_name("mp3"));
    assert!(!is_audio_name(".mp3"));
    assert!(!is_audio_name("a.mp3."));
    assert!(!is_audio_name(""));
}

#[test]
fn names_are_ordered_by_their_bytes() {
    assert!(comes_before("a", "b"));
    assert!(!comes_before("b", "a"));
    assert!(comes_before("a.mp3", "c.flac"));
    assert!(comes_before("B", "a"));
    assert!(comes_before("Z.mp3", "a.mp3"));
    assert!(comes_before("10.mp3", "9.mp3"));
    assert!(comes_before("z", "\u{e9}"));
    assert!(comes_before("\u{e9}", "\u{4e2d}"));
}

#[test]
fn a_prefix_comes_first() {
    assert!(comes_before("", "a"));
    assert!(comes_before("a", "ab"));
    assert!(!comes_before("ab", "a"));
    assert!(!comes_before("a", ""));
}

#[test]
fn no_name_comes_before_itself() {
    for name in ["", "a", "a.mp3", "\u{e9}t\u{e9}.ogg"] {
        assert!(!comes_before(name, name));
    }
}

#[test]
fn order_agrees_with_the_order_of_strings() {
    let names = ["", "a", "A", "ab", "b", "a.mp3", "a.MP3", "\u{e9}", "z", "10", "9", "~", " "];
    for a in names {
        for b in names {
            assert_eq!(comes_before(a, b), a < b, "{:?} {:?}", a, b);
        }
    }
}
