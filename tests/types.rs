use rpgm_translation::types::{Language, Localization, OptionExt, ResultExt};

#[test]
fn english_messages() {
    let l = Localization::new(Language::English);
    assert_eq!(l.file_written_msg, "Wrote file");
    assert_eq!(l.at_position_msg, "At position:");
}

#[test]
fn russian_messages() {
    let l = Localization::new(Language::Russian);
    assert_eq!(l.file_written_msg, "Записан файл");
    assert_eq!(l.could_not_replace_scripts_string, "Не удалось заменить строку в файле скриптов.");
}

#[test]
fn unwrap_log_returns_the_value() {
    assert_eq!(Some(3).unwrap_log("here", 1), 3);
    let r: Result<u8, String> = Ok(7);
    assert_eq!(r.unwrap_log("here", 2), 7);
}
