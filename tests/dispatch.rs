use rpgm_translation::bundle::{
    Block, FileEntry, GlossaryEntry, TextBundle, TranslatedBlock, TranslatedFile,
    TranslationResponse,
};
use rpgm_translation::dispatch::{
    prepare, validate, Backend, TranslateError, TranslateSettings, TranslationJob,
};
use rpgm_translation::merge::{finish_response, merge_plain, merge_replies, normalize_response};

fn block(name: &str, strings: &[&str]) -> Block {
    Block {
        name: name.to_string(),
        before_strings: None,
        after_strings: None,
        strings: strings.iter().map(|s| s.to_string()).collect(),
    }
}

fn file(id: &str, blocks: Vec<Block>) -> FileEntry {
    FileEntry { id: id.to_string(), blocks }
}

fn settings(backend: Backend, api_key: &str, folder_id: &str) -> TranslateSettings {
    TranslateSettings {
        backend,
        model: String::new(),
        api_key: api_key.to_string(),
        folder_id: folder_id.to_string(),
        source_language: "en".to_string(),
        translation_language: "fr".to_string(),
        project_context: String::new(),
        local_context: String::new(),
        system_prompt: String::new(),
        glossary: Vec::new(),
        token_limit: 100,
        thinking: false,
        normalize: true,
    }
}

fn answered(id: &str, blocks: Vec<(&str, Vec<&str>)>) -> TranslatedFile {
    TranslatedFile {
        id: id.to_string(),
        blocks: blocks
            .into_iter()
            .map(|(name, strings)| TranslatedBlock {
                name: name.to_string(),
                strings: strings.into_iter().map(|s| s.to_string()).collect(),
            })
            .collect(),
    }
}

#[test]
fn basic_mt_round_trip_normalizes_breaks() {
    let bundle = TextBundle { files: vec![file("map1", vec![block("b1", &["Hello\nWorld"])])] };
    let s = settings(Backend::Google, "", "");
    let job = match prepare(&s, bundle, &Vec::new()) {
        Ok(job) => job,
        Err(_) => panic!("basic backend needs no key"),
    };
    let (texts, bundle) = match job {
        TranslationJob::Plain { register_glossary, texts, bundle } => {
            assert!(!register_glossary);
            (texts, bundle)
        }
        TranslationJob::Chat { .. } => panic!("basic backend translates string by string"),
    };
    assert_eq!(texts, vec!["Hello\nWorld".to_string()]);
    let provider_answers = vec!["Bonjour\nMonde".to_string()];
    let merged = match merge_plain(&bundle, &provider_answers) {
        Ok(r) => r,
        Err(_) => panic!("one answer for one string"),
    };
    let r = finish_response(merged, s.normalize);
    assert_eq!(r.files.len(), 1);
    assert_eq!(r.files[0].id, "map1");
    assert_eq!(r.files[0].blocks.len(), 1);
    assert_eq!(r.files[0].blocks[0].name, "b1");
    assert_eq!(r.files[0].blocks[0].strings, vec!["Bonjour\\#Monde".to_string()]);
}

#[test]
fn chat_backend_over_ceiling_makes_two_calls() {
    let bundle = TextBundle {
        files: vec![
            file("map1", vec![block("b1", &["one", "two"])]),
            file("map2", vec![block("b2", &["three"])]),
        ],
    };
    let s = settings(Backend::OpenAI, "key", "");
    let requests = match prepare(&s, bundle, &vec![60, 60]) {
        Ok(TranslationJob::Chat { requests }) => requests,
        _ => panic!("chat backend plans batches"),
    };
    assert_eq!(requests.len(), 2);
    assert_eq!(requests[0].files.files[0].id, "map1");
    assert_eq!(requests[1].files.files[0].id, "map2");
    assert_eq!(requests[0].source_language, "en");
    assert_eq!(requests[1].translation_language, "fr");
    let replies = vec![
        TranslationResponse { files: vec![answered("map1", vec![("b1", vec!["un", "deux"])])] },
        TranslationResponse { files: vec![answered("map2", vec![("b2", vec!["trois"])])] },
    ];
    let merged = match merge_replies(&requests, &replies) {
        Ok(r) => r,
        Err(_) => panic!("replies line up"),
    };
    assert_eq!(merged.files.len(), 2);
    assert_eq!(merged.files[0].id, "map1");
    assert_eq!(merged.files[0].blocks[0].strings, vec!["un".to_string(), "deux".to_string()]);
    assert_eq!(merged.files[1].id, "map2");
    assert_eq!(merged.files[1].blocks[0].strings, vec!["trois".to_string()]);
}

#[test]
fn chat_backend_within_ceiling_makes_one_call() {
    let bundle = TextBundle {
        files: vec![file("a", vec![block("x", &["1"])]), file("b", vec![block("y", &["2"])])],
    };
    let s = settings(Backend::Anthropic, "key", "");
    match prepare(&s, bundle, &vec![40, 60]) {
        Ok(TranslationJob::Chat { requests }) => {
            assert_eq!(requests.len(), 1);
            assert_eq!(requests[0].files.files.len(), 2);
        }
        _ => panic!("chat backend plans batches"),
    }
}

#[test]
fn regional_backend_without_region_fails_first() {
    let bundle = TextBundle { files: vec![file("map1", vec![block("b1", &["Hello"])])] };
    let s = settings(Backend::Yandex, "key", "");
    assert!(matches!(prepare(&s, bundle, &Vec::new()), Err(TranslateError::MissingRegion)));
}

#[test]
fn missing_key_is_reported_before_region() {
    let s = settings(Backend::Yandex, "", "");
    assert!(matches!(validate(&s), Err(TranslateError::MissingCredential)));
    let s = settings(Backend::Gemini, "", "");
    assert!(matches!(validate(&s), Err(TranslateError::MissingCredential)));
    let s = settings(Backend::Google, "", "");
    assert!(validate(&s).is_ok());
    let s = settings(Backend::Yandex, "key", "folder");
    assert!(validate(&s).is_ok());
}

#[test]
fn glossary_backend_registers_glossary() {
    let bundle = TextBundle {
        files: vec![file("f", vec![block("a", &["x", "y"]), block("b", &["z"])])],
    };
    let mut s = settings(Backend::DeepL, "key", "");
    s.glossary.push(GlossaryEntry {
        term: "Hero".to_string(),
        translation: "Héros".to_string(),
        note: String::new(),
    });
    match prepare(&s, bundle, &Vec::new()) {
        Ok(TranslationJob::Plain { register_glossary, texts, .. }) => {
            assert!(register_glossary);
            assert_eq!(texts, vec!["x".to_string(), "y".to_string(), "z".to_string()]);
        }
        _ => panic!("glossary backend translates string by string"),
    }
}

#[test]
fn plain_merge_rejects_wrong_count() {
    let bundle = TextBundle { files: vec![file("f", vec![block("a", &["x", "y"])])] };
    let short = vec!["only".to_string()];
    assert!(matches!(
        merge_plain(&bundle, &short),
        Err(TranslateError::MalformedProviderResponse)
    ));
    let long = vec!["1".to_string(), "2".to_string(), "3".to_string()];
    assert!(matches!(merge_plain(&bundle, &long), Err(TranslateError::MalformedProviderResponse)));
}

#[test]
fn plain_merge_keeps_shape_and_order() {
    let bundle = TextBundle {
        files: vec![
            file("f1", vec![block("a", &["x", "y"]), block("b", &[])]),
            file("f2", vec![block("c", &["z"])]),
        ],
    };
    let answers = vec!["X".to_string(), "Y".to_string(), "Z".to_string()];
    let r = match merge_plain(&bundle, &answers) {
        Ok(r) => r,
        Err(_) => panic!("counts agree"),
    };
    assert_eq!(r.files.len(), 2);
    assert_eq!(r.files[0].blocks[0].strings, vec!["X".to_string(), "Y".to_string()]);
    assert_eq!(r.files[0].blocks[1].name, "b");
    assert!(r.files[0].blocks[1].strings.is_empty());
    assert_eq!(r.files[1].id, "f2");
    assert_eq!(r.files[1].blocks[0].strings, vec!["Z".to_string()]);
}

#[test]
fn chat_reply_with_wrong_count_is_malformed() {
    let bundle = TextBundle { files: vec![file("m", vec![block("b", &["a", "b"])])] };
    let s = settings(Backend::DeepSeek, "key", "");
    let requests = match prepare(&s, bundle, &vec![5]) {
        Ok(TranslationJob::Chat { requests }) => requests,
        _ => panic!("chat backend plans batches"),
    };
    let replies = vec![TranslationResponse { files: vec![answered("m", vec![("b", vec!["A"])])] }];
    assert!(matches!(
        merge_replies(&requests, &replies),
        Err(TranslateError::MalformedProviderResponse)
    ));
    let missing = vec![TranslationResponse { files: vec![answered("other", vec![("b", vec!["A", "B"])])] }];
    assert!(matches!(
        merge_replies(&requests, &missing),
        Err(TranslateError::MalformedProviderResponse)
    ));
    assert!(matches!(
        merge_replies(&requests, &Vec::new()),
        Err(TranslateError::MalformedProviderResponse)
    ));
}

#[test]
fn chat_reply_is_looked_up_by_key() {
    let bundle = TextBundle {
        files: vec![file("m1", vec![block("a", &["1"]), block("b", &["2"])]), file("m2", vec![block("c", &["3"])])],
    };
    let s = settings(Backend::OpenAI, "key", "");
    let requests = match prepare(&s, bundle, &vec![1, 1]) {
        Ok(TranslationJob::Chat { requests }) => requests,
        _ => panic!("chat backend plans batches"),
    };
    assert_eq!(requests.len(), 1);
    let replies = vec![TranslationResponse {
        files: vec![
            answered("m2", vec![("c", vec!["trois"])]),
            answered("m1", vec![("b", vec!["deux"]), ("a", vec!["un"])]),
        ],
    }];
    let r = match merge_replies(&requests, &replies) {
        Ok(r) => r,
        Err(_) => panic!("every block is answered"),
    };
    assert_eq!(r.files[0].id, "m1");
    assert_eq!(r.files[0].blocks[0].name, "a");
    assert_eq!(r.files[0].blocks[0].strings, vec!["un".to_string()]);
    assert_eq!(r.files[0].blocks[1].strings, vec!["deux".to_string()]);
    assert_eq!(r.files[1].blocks[0].strings, vec!["trois".to_string()]);
}

#[test]
fn normalizing_a_response_rewrites_every_string() {
    let resp = TranslationResponse {
        files: vec![answered("f", vec![("a", vec!["a\nb", "plain"]), ("b", vec!["\n\n"])])],
    };
    let r = normalize_response(resp);
    assert_eq!(r.files[0].blocks[0].strings, vec!["a\\#b".to_string(), "plain".to_string()]);
    assert_eq!(r.files[0].blocks[1].strings, vec!["\\#\\#".to_string()]);
    let kept = finish_response(r, false);
    assert_eq!(kept.files[0].blocks[1].strings, vec!["\\#\\#".to_string()]);
}

#[test]
fn backend_kinds() {
    assert!(Backend::OpenAI.is_chat());
    assert!(Backend::Gemini.is_chat());
    assert!(!Backend::Google.is_chat());
    assert!(!Backend::DeepL.is_chat());
}
