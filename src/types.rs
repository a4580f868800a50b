use vstd::prelude::*;

verus! {

/// Unwrapping that is owed to succeed: the caller shows the value is there.
/// `file` and `line` name the call site.
pub trait OptionExt<T>: Sized {
    /// Is a value present?
    spec fn present(&self) -> bool;

    /// The value held, when present.
    spec fn held(&self) -> T;

    fn unwrap_log(self, file: &str, line: u32) -> (r: T)
        requires
            self.present(),
        ensures
            r == self.held(),
    ;
}

/// Unwrapping of a result that is owed to be `Ok`.
/// `file` and `line` name the call site.
pub trait ResultExt<T, E>: Sized {
    /// Is the result a success?
    spec fn succeeded(&self) -> bool;

    /// The success value, when there is one.
    spec fn held(&self) -> T;

    fn unwrap_log(self, file: &str, line: u32) -> (r: T)
        requires
            self.succeeded(),
        ensures
            r == self.held(),
    ;
}

impl<T> OptionExt<T> for Option<T> {
    open spec fn present(&self) -> bool {
        self is Some
    }

    open spec fn held(&self) -> T {
        self->0
    }

    fn unwrap_log(self, file: &str, line: u32) -> (r: T) {
        match self {
            Some(value) => value,
            None => unreached(),
        }
    }
}

impl<T, E> ResultExt<T, E> for Result<T, E> {
    open spec fn succeeded(&self) -> bool {
        self is Ok
    }

    open spec fn held(&self) -> T {
        self->Ok_0
    }

    fn unwrap_log(self, file: &str, line: u32) -> (r: T) {
        match self {
            Ok(value) => value,
            Err(_) => unreached(),
        }
    }
}

/// Games whose text needs handling of its own.
#[derive(PartialEq, Eq, Structural, Clone, Copy, Debug)]
pub enum GameType {
    Termina,
    LisaRPG,
}

#[derive(PartialEq, Eq, Structural, Clone, Copy, Debug)]
#[allow(dead_code)]
pub enum ProcessingMode {
    Force,
    Append,
    Default,
}

/// The RPG Maker engine generations.
#[derive(PartialEq, Eq, Structural, Clone, Copy, Debug)]
#[allow(dead_code)]
pub enum EngineType {
    New,
    VXAce,
    VX,
    XP,
}

#[derive(PartialEq, Eq, Structural, Clone, Copy, Debug)]
#[allow(dead_code)]
pub enum MapsProcessingMode {
    Default,
    Separate,
    Preserve,
}

/// Kinds of event text.
#[derive(PartialEq, Eq, Structural, Debug)]
pub enum Code {
    /// Dialogue lines, credits included.
    Dialogue,
    Choice,
    System,
    Misc,
}

/// Database fields that carry text.
#[derive(PartialEq, Eq, Structural, Clone, Copy, Debug)]
pub enum Variable {
    Name,
    Nickname,
    Description,
    Message1,
    Message2,
    Message3,
    Message4,
    Note,
}

/// Languages of the user-facing messages.
#[allow(dead_code)]
pub enum Language {
    English,
    Russian,
}

/// The user-facing messages in one language.
pub struct Localization<'a> {
    pub file_written_msg: &'a str,
    pub file_parsed_msg: &'a str,
    pub file_already_parsed_msg: &'a str,
    pub file_is_not_parsed_msg: &'a str,
    pub could_not_split_line_msg: &'a str,
    pub at_position_msg: &'a str,
    pub could_not_replace_scripts_string: &'a str,
}

impl Localization<'_> {
    /// The messages of the English catalogue.
    pub open spec fn is_english(&self) -> bool {
        &&& self.file_written_msg@ == "Wrote file"@
        &&& self.file_parsed_msg@ == "Parsed file"@
        &&& self.file_already_parsed_msg@
            == "file already exists. If you want to forcefully re-read files or append new text, use --mode force or --mode append."@
        &&& self.file_is_not_parsed_msg@
            == "Files aren't already parsed. Continuing as if --append flag was omitted."@
        &&& self.could_not_split_line_msg@
            == "Couldn't split line to original and translated part.\nThe line won't be written to the output file."@
        &&& self.at_position_msg@ == "At position:"@
        &&& self.could_not_replace_scripts_string@ == "Couldn't replace string in scripts file."@
    }

    /// The messages of the Russian catalogue.
    pub open spec fn is_russian(&self) -> bool {
        &&& self.file_written_msg@ == "Записан файл"@
        &&& self.file_parsed_msg@ == "Распарсен файл"@
        &&& self.file_already_parsed_msg@
            == "уже существует. Если вы хотите принудительно перезаписать все файлы, или добавить новый текст, используйте --mode force или --mode append."@
        &&& self.file_is_not_parsed_msg@
            == "Файлы ещё не распарсены. Продолжаем в режиме с выключенным флагом --append."@
        &&& self.could_not_split_line_msg@
            == "Не удалось разделить строку на оригинальную и переведённую части.\nСтрока не будет записана в выходной файл."@
        &&& self.at_position_msg@ == "Позиция:"@
        &&& self.could_not_replace_scripts_string@ == "Не удалось заменить строку в файле скриптов."@
    }

    /// The message catalogue of `language`.
    pub fn new(language: Language) -> (r: Self)
        ensures
            language is English ==> r.is_english(),
            language is Russian ==> r.is_russian(),
    {
        match language {
            Language::English => Self::init_en(),
            Language::Russian => Self::init_ru(),
        }
    }

    pub fn init_en() -> (r: Self)
        ensures
            r.is_english(),
    {
        Localization {
            file_written_msg: "Wrote file",
            file_parsed_msg: "Parsed file",
            file_already_parsed_msg: "file already exists. If you want to forcefully re-read files or append new text, use --mode force or --mode append.",
            file_is_not_parsed_msg: "Files aren't already parsed. Continuing as if --append flag was omitted.",
            could_not_split_line_msg: "Couldn't split line to original and translated part.\nThe line won't be written to the output file.",
            at_position_msg: "At position:",
            could_not_replace_scripts_string: "Couldn't replace string in scripts file.",
        }
    }

    pub fn init_ru() -> (r: Self)
        ensures
            r.is_russian(),
    {
        Localization {
            file_written_msg: "Записан файл",
            file_parsed_msg: "Распарсен файл",
            file_already_parsed_msg: "уже существует. Если вы хотите принудительно перезаписать все файлы, или добавить новый текст, используйте --mode force или --mode append.",
            file_is_not_parsed_msg: "Файлы ещё не распарсены. Продолжаем в режиме с выключенным флагом --append.",
            could_not_split_line_msg: "Не удалось разделить строку на оригинальную и переведённую части.\nСтрока не будет записана в выходной файл.",
            at_position_msg: "Позиция:",
            could_not_replace_scripts_string: "Не удалось заменить строку в файле скриптов.",
        }
    }
}

} // verus!
