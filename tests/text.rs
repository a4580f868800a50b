use rpgm_translation::project::{escape_text, game_type_from_matches, get_game_type, last_line};
use rpgm_translation::text::{chars_of, normalize_newlines, NEW_LINE};
use rpgm_translation::types::GameType;

#[test]
fn line_breaks_become_the_marker() {
    assert_eq!(normalize_newlines("Hello\nWorld"), "Hello\\#World");
    assert_eq!(normalize_newlines("\na\n\nb\n"), "\\#a\\#\\#b\\#");
    assert_eq!(NEW_LINE, "\\#");
}

#[test]
fn normalizing_twice_changes_nothing_more() {
    let once = normalize_newlines("one\ntwo\r\nthree");
    assert_eq!(normalize_newlines(&once), once);
    assert_eq!(normalize_newlines("no breaks"), "no breaks");
    assert_eq!(normalize_newlines(""), "");
}

#[test]
fn characters_keep_their_order() {
    assert_eq!(chars_of("añb"), vec!['a', 'ñ', 'b']);
    assert!(chars_of("").is_empty());
}

#[test]
fn escape_marks_meta_characters() {
    assert_eq!(escape_text("a.b*c"), "a\\.b\\*c");
    assert_eq!(escape_text("plain text"), "plain text");
    assert_eq!(escape_text("#-~&"), "\\#\\-\\~\\&");
    assert_eq!(escape_text("%/!"), "%/!");
}

#[test]
fn game_type_from_title() {
    assert_eq!(get_game_type("TERMINA", false), Some(GameType::Termina));
    assert_eq!(get_game_type("Lisa: The Painful", false), Some(GameType::LisaRPG));
    assert_eq!(get_game_type("Terminator", false), None);
    assert_eq!(get_game_type("Termina", true), None);
    assert_eq!(get_game_type("Mona Lisa termina", false), Some(GameType::Termina));
}

#[test]
fn termina_wins_over_lisa() {
    assert_eq!(game_type_from_matches(true, true), Some(GameType::Termina));
    assert_eq!(game_type_from_matches(false, true), Some(GameType::LisaRPG));
    assert_eq!(game_type_from_matches(false, false), None);
}

#[test]
fn last_line_of_contents() {
    assert_eq!(last_line(b"first\nsecond"), b"second".to_vec());
    assert_eq!(last_line(b"a\nb\n"), b"b\n".to_vec());
    assert_eq!(last_line(b"only"), b"only".to_vec());
    assert_eq!(last_line(b""), Vec::<u8>::new());
    assert_eq!(last_line(b"\n"), b"\n".to_vec());
    assert_eq!(last_line(b"x\n\n"), b"\n".to_vec());
}
