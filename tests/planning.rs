use rpgm_translation::batch::{join_batches, plan_batches};
use rpgm_translation::bundle::{Block, FileEntry, TextBundle};

fn file(id: &str, strings: &[&str]) -> FileEntry {
    FileEntry {
        id: id.to_string(),
        blocks: vec![Block {
            name: format!("{id}-block"),
            before_strings: Some(vec!["before".to_string()]),
            after_strings: None,
            strings: strings.iter().map(|s| s.to_string()).collect(),
        }],
    }
}

fn ids(batch: &TextBundle) -> Vec<String> {
    batch.files.iter().map(|f| f.id.clone()).collect()
}

#[test]
fn files_join_a_batch_while_they_fit() {
    let bundle = TextBundle {
        files: vec![file("a", &["1"]), file("b", &["2"]), file("c", &["3"]), file("d", &["4"])],
    };
    let batches = plan_batches(bundle, &vec![30, 40, 40, 20], 100);
    assert_eq!(batches.len(), 2);
    assert_eq!(ids(&batches[0]), vec!["a", "b"]);
    assert_eq!(ids(&batches[1]), vec!["c", "d"]);
}

#[test]
fn total_equal_to_ceiling_still_fits() {
    let bundle = TextBundle { files: vec![file("a", &["1"]), file("b", &["2"])] };
    let batches = plan_batches(bundle, &vec![50, 50], 100);
    assert_eq!(batches.len(), 1);
}

#[test]
fn oversized_file_forms_its_own_batch() {
    let bundle = TextBundle {
        files: vec![file("small", &["1"]), file("huge", &["2"]), file("after", &["3"])],
    };
    let batches = plan_batches(bundle, &vec![10, 500, 10], 100);
    assert_eq!(batches.len(), 3);
    assert_eq!(ids(&batches[0]), vec!["small"]);
    assert_eq!(ids(&batches[1]), vec!["huge"]);
    assert_eq!(ids(&batches[2]), vec!["after"]);
}

#[test]
fn oversized_first_file_makes_no_empty_batch() {
    let bundle = TextBundle { files: vec![file("huge", &["1"]), file("b", &["2"])] };
    let batches = plan_batches(bundle, &vec![500, 10], 100);
    assert_eq!(batches.len(), 2);
    assert_eq!(ids(&batches[0]), vec!["huge"]);
    assert_eq!(ids(&batches[1]), vec!["b"]);
}

#[test]
fn empty_bundle_has_no_batches() {
    let batches = plan_batches(TextBundle { files: Vec::new() }, &Vec::new(), 100);
    assert!(batches.is_empty());
}

#[test]
fn zero_ceiling_puts_each_counted_file_alone() {
    let bundle = TextBundle {
        files: vec![file("a", &["1"]), file("b", &["2"]), file("c", &[])],
    };
    let batches = plan_batches(bundle, &vec![1, 1, 0], 0);
    assert_eq!(batches.len(), 3);
    let bundle = TextBundle {
        files: vec![file("a", &[]), file("b", &[]), file("c", &["3"])],
    };
    let batches = plan_batches(bundle, &vec![0, 0, 5], 0);
    assert_eq!(batches.len(), 2);
    assert_eq!(ids(&batches[0]), vec!["a", "b"]);
}

#[test]
fn joining_batches_gives_back_the_bundle() {
    let bundle = TextBundle {
        files: vec![
            file("a", &["x", "y"]),
            file("b", &["z"]),
            file("c", &["w", "v", "u"]),
        ],
    };
    let batches = plan_batches(bundle, &vec![70, 50, 20], 100);
    assert_eq!(batches.len(), 2);
    let joined = join_batches(batches);
    assert_eq!(ids(&joined), vec!["a", "b", "c"]);
    assert_eq!(joined.files[0].blocks[0].strings, vec!["x".to_string(), "y".to_string()]);
    assert_eq!(joined.files[2].blocks[0].strings.len(), 3);
    assert_eq!(joined.files[0].blocks[0].before_strings, Some(vec!["before".to_string()]));
}

#[test]
fn blocks_stay_whole_in_one_batch() {
    let bundle = TextBundle {
        files: vec![file("a", &["1", "2", "3"]), file("b", &["4", "5"])],
    };
    let batches = plan_batches(bundle, &vec![90, 90], 100);
    assert_eq!(batches.len(), 2);
    assert_eq!(batches[0].files[0].blocks[0].strings.len(), 3);
    assert_eq!(batches[1].files[0].blocks[0].strings.len(), 2);
}
