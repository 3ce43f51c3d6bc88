use yespanda::keys::{Key, ModifierType};
use yespanda::paths::FilePath;
use yespanda::picker::{
    command_texts, entry_key, expand_root, filter, filter_arguments, home_dir, list_arguments,
    move_selection, parse_nul, picker_key, picker_rows, split_path, FilterPlan, LineMove,
    PickerDialog, PickerEffect, PickerKey, PickerMsg, PickerOutput, PickerPage,
};

const NONE: ModifierType = ModifierType { bits: 0 };
const CONTROL: ModifierType = ModifierType { bits: 4 };

fn home() -> Option<FilePath> {
    Some(FilePath::new("/home/me"))
}

fn texts(items: &[&str]) -> Vec<String> {
    items.iter().map(|t| t.to_string()).collect()
}

#[test]
fn expand_root_handles_tilde() {
    let home = home();
    let dir = home_dir(&home);
    assert_eq!(expand_root("~", &home), dir);
    assert_eq!(expand_root("", &home), dir);
    assert_eq!(expand_root("~/docs", &home), format!("{dir}/docs"));
    assert_eq!(expand_root("/tmp/opencode", &home), "/tmp/opencode".to_string());
}

#[test]
fn split_path_abbreviates_home() {
    let home = home();
    let dir = home_dir(&home);
    assert_eq!(
        split_path(&format!("{dir}/Books/ai/math.pdf"), &home),
        ("math.pdf".to_string(), "~/Books/ai".to_string())
    );
    // Directly inside $HOME collapses to just `~`.
    assert_eq!(
        split_path(&format!("{dir}/x.pdf"), &home),
        ("x.pdf".to_string(), "~".to_string())
    );
    // Paths outside $HOME stay absolute.
    assert_eq!(
        split_path("/mnt/data/report.pdf", &home),
        ("report.pdf".to_string(), "/mnt/data".to_string())
    );
    // A bare file name has no directory part.
    assert_eq!(split_path("solo.pdf", &home), ("solo.pdf".to_string(), String::new()));
}

#[test]
fn home_that_is_not_set_is_the_current_directory() {
    assert_eq!(home_dir(&None), ".");
    assert_eq!(expand_root("  ", &None), ".");
    assert_eq!(expand_root("~/a", &None), "./a");
    assert_eq!(split_path("./x.pdf", &None), ("x.pdf".to_string(), "~".to_string()));
}

#[test]
fn bare_file_name_has_no_directory_even_without_a_home() {
    let empty = Some(FilePath::new(""));
    assert_eq!(split_path("solo.pdf", &empty), ("solo.pdf".to_string(), String::new()));
    assert_eq!(split_path("/a/x.pdf", &empty), ("x.pdf".to_string(), "~/a".to_string()));
    assert_eq!(picker_rows(&texts(&["solo.pdf"]), &empty)[0].subtitle, None);
}

#[test]
fn paths_without_a_file_name_are_listed_whole() {
    assert_eq!(split_path("/", &home()), ("/".to_string(), String::new()));
    assert_eq!(split_path("/tmp/..", &home()), ("/tmp/..".to_string(), "/tmp".to_string()));
    assert_eq!(split_path("/home/mean/x.pdf", &home()).1, "/home/mean");
}

#[test]
fn abbreviated_directory_expands_back() {
    let (_, dir) = split_path("/home/me/Books/ai/math.pdf", &home());
    assert_eq!(expand_root(&dir, &home()), "/home/me/Books/ai");
}

#[test]
fn rows_show_name_and_directory() {
    let rows = picker_rows(&texts(&["/home/me/html & css.pdf", "solo.pdf"]), &home());
    assert_eq!(rows[0].title, "html & css.pdf");
    assert_eq!(rows[0].subtitle, Some("~".to_string()));
    assert_eq!(rows[1].title, "solo.pdf");
    assert_eq!(rows[1].subtitle, None);
}

#[test]
fn blank_query_lists_the_first_candidates() {
    let many: Vec<String> = (0..70).map(|i| format!("{i}.pdf")).collect();
    match filter(&many, "  ") {
        FilterPlan::List(results) => assert_eq!(results, many[..50].to_vec()),
        FilterPlan::Find { .. } => panic!("a blank query is not handed on"),
    }
}

#[test]
fn query_is_handed_to_the_finder() {
    match filter(&texts(&["a.pdf", "é.pdf"]), " real ") {
        FilterPlan::List(_) => panic!("the query is not blank"),
        FilterPlan::Find { query, input } => {
            assert_eq!(query, "real");
            assert_eq!(input, "a.pdf\0é.pdf\0".as_bytes().to_vec());
            assert_eq!(parse_nul(&input), texts(&["a.pdf", "é.pdf"]));
            assert_eq!(
                filter_arguments(query),
                texts(&["--read0", "--print0", "--filter", "real"])
            );
        }
    }
    assert_eq!(list_arguments("/x".to_string()), texts(&["-0", "-e", "pdf", ".", "/x"]));
}

#[test]
fn zero_separated_output_is_split() {
    assert_eq!(parse_nul(b"\0a\0\0b"), texts(&["a", "b"]));
    assert_eq!(parse_nul(&[b'x', 0xc3, 0, b'y']), texts(&["x\u{fffd}", "y"]));
    assert_eq!(command_texts(&Some(b"a\0".to_vec())), texts(&["a"]));
    assert!(command_texts(&None).is_empty());
}

#[test]
fn picker_answers_once() {
    let mut picker = PickerDialog::new();
    let effects = picker.update(PickerMsg::Candidates(texts(&["/a.pdf", "/b.pdf"])), None);
    assert!(matches!(effects[0], PickerEffect::Rebuild));
    assert!(matches!(effects[1], PickerEffect::ShowPage(PickerPage::Results)));
    assert!(picker.update(PickerMsg::Confirm(5), None).is_empty());
    assert!(picker.update(PickerMsg::ConfirmCurrent, None).is_empty());
    let effects = picker.update(PickerMsg::ConfirmCurrent, Some(1));
    assert_eq!(effects.len(), 2);
    match &effects[0] {
        PickerEffect::Output(PickerOutput::Pick(path)) => assert_eq!(path.text(), "/b.pdf"),
        _ => panic!("the result is picked"),
    }
    assert!(matches!(effects[1], PickerEffect::Close));
    assert!(picker.update(PickerMsg::Closed, None).is_empty());
    assert!(picker.update(PickerMsg::Confirm(0), None).is_empty());
}

#[test]
fn closing_the_picker_cancels() {
    let mut picker = PickerDialog::new();
    let effects = picker.update(PickerMsg::Closed, None);
    assert_eq!(effects.len(), 1);
    assert!(matches!(effects[0], PickerEffect::Output(PickerOutput::Cancelled)));
    assert!(picker.update(PickerMsg::Closed, None).is_empty());
}

#[test]
fn filtering_waits_for_typing_to_rest() {
    let mut picker = PickerDialog::new();
    let effects = picker.update(PickerMsg::Query("a".to_string()), None);
    assert_eq!(effects.len(), 1);
    let effects = picker.update(PickerMsg::Query("ab".to_string()), None);
    assert!(matches!(effects[0], PickerEffect::CancelFilter));
    assert!(matches!(&effects[1], PickerEffect::ScheduleFilter(q) if q == "ab"));
    let effects = picker.update(PickerMsg::Filter("ab".to_string()), None);
    assert!(matches!(&effects[0], PickerEffect::RunFilter(q) if q == "ab"));
    assert!(!picker.scheduled);
    let effects = picker.update(PickerMsg::Results(Vec::new()), None);
    assert!(matches!(effects[1], PickerEffect::ShowPage(PickerPage::Empty)));
}

#[test]
fn query_is_the_line_above_the_rows() {
    assert_eq!(move_selection(true, Some(3), 1, 5), LineMove::Select(0));
    assert_eq!(move_selection(true, None, -1, 5), LineMove::Stay);
    assert_eq!(move_selection(true, None, 1, 0), LineMove::Stay);
    assert_eq!(move_selection(false, Some(0), -1, 5), LineMove::FocusEntry);
    assert_eq!(move_selection(false, Some(3), 1, 5), LineMove::Select(4));
    assert_eq!(move_selection(false, Some(4), 1, 5), LineMove::Stay);
}

#[test]
fn keys_of_the_picker() {
    let key = |value: u32| Key { value };
    assert_eq!(picker_key(key(0xff1b), CONTROL, true, None), PickerKey::Close);
    assert_eq!(picker_key(key('n' as u32), CONTROL, true, None), PickerKey::Move(1));
    assert_eq!(picker_key(key('p' as u32), CONTROL, true, None), PickerKey::Move(-1));
    assert_eq!(picker_key(key(0x20), CONTROL, false, Some(1)), PickerKey::Pass);
    assert_eq!(picker_key(key(0x20), NONE, false, Some(1)), PickerKey::Confirm(1));
    assert_eq!(picker_key(key(0xff0d), NONE, false, Some(-1)), PickerKey::Confirm(0));
    assert_eq!(picker_key(key(0xff8d), NONE, false, None), PickerKey::Pass);
    assert_eq!(picker_key(key(0xff0d), NONE, true, Some(1)), PickerKey::Pass);
}

#[test]
fn editing_keys_of_the_query() {
    let key = |value: char| Key { value: value as u32 };
    assert_eq!(entry_key(key('a'), CONTROL, "héllo", 3), Some(0));
    assert_eq!(entry_key(key('e'), CONTROL, "héllo", 3), Some(5));
    assert_eq!(entry_key(key('f'), CONTROL, "héllo", 3), Some(4));
    assert_eq!(entry_key(key('f'), CONTROL, "héllo", 5), Some(5));
    assert_eq!(entry_key(key('b'), CONTROL, "héllo", 0), Some(0));
    assert_eq!(entry_key(key('b'), CONTROL, "héllo", 5), Some(4));
    assert_eq!(entry_key(key('x'), CONTROL, "héllo", 5), None);
    assert_eq!(entry_key(key('a'), NONE, "héllo", 5), None);
}
