use cuttercookie::error::ErrorKind;
use cuttercookie::materialize::{
    check_destination, default_skip_set, is_excluded, join_components, plan_entry, rewrite_content,
    EntryPlan,
};
use cuttercookie::replacer::RegexReplacer;
use cuttercookie::rules::SubstitutionRule;

fn strings(items: &[&str]) -> Vec<String> {
    items.iter().map(|s| s.to_string()).collect()
}

fn test_replacer() -> RegexReplacer {
    RegexReplacer::new(vec![
        SubstitutionRule::new("value".to_string(), "value_placeholder".to_string()),
        SubstitutionRule::new("filename".to_string(), "filename_placeholder".to_string()),
        SubstitutionRule::new("old".to_string(), "new".to_string()),
    ])
    .unwrap()
}

fn plan(path: &[&str], is_dir: bool, excluded: &[&str], r: &RegexReplacer) -> Result<EntryPlan, ErrorKind> {
    plan_entry(&strings(path), true, is_dir, &strings(&["/", "src"]), &strings(excluded), &default_skip_set(), r)
}

fn written(p: Result<EntryPlan, ErrorKind>) -> Option<String> {
    match p {
        Ok(EntryPlan::CreateDir(s)) | Ok(EntryPlan::WriteFile(s)) => Some(s),
        _ => None,
    }
}

#[test]
fn test_basic_file_processing() {
    let r = test_replacer();
    let f = plan(&["/", "src", "filename.txt"], false, &[], &r);
    assert!(matches!(&f, Ok(EntryPlan::WriteFile(p)) if p == "{{cookiecutter.filename_placeholder}}.txt"));
    assert_eq!(rewrite_content(b"x = value".to_vec(), &r).unwrap(), "x = {{cookiecutter.value_placeholder}}");
}

#[test]
fn test_directory_structure() {
    let r = test_replacer();
    let d = plan(&["/", "src", "old_dir"], true, &[], &r);
    assert!(matches!(&d, Ok(EntryPlan::CreateDir(p)) if p == "{{cookiecutter.new}}_dir"));
    let f = plan(&["/", "src", "old_dir", "filename.txt"], false, &[], &r);
    assert!(matches!(&f, Ok(EntryPlan::WriteFile(p))
        if p == "{{cookiecutter.new}}_dir/{{cookiecutter.filename_placeholder}}.txt"));
    let n = plan(&["/", "src", "old_dir", "nested", "filename.txt"], false, &[], &r);
    assert!(matches!(&n, Ok(EntryPlan::WriteFile(p))
        if p == "{{cookiecutter.new}}_dir/nested/{{cookiecutter.filename_placeholder}}.txt"));
}

#[test]
fn test_excluded_directories() {
    let r = test_replacer();
    assert!(matches!(plan(&["/", "src", "excluded"], true, &["excluded"], &r), Ok(EntryPlan::Skip)));
    assert!(matches!(plan(&["/", "src", "excluded", "test.txt"], false, &["excluded"], &r), Ok(EntryPlan::Skip)));
    assert!(matches!(plan(&["/", "src", "a", "excluded", "b", "c.txt"], false, &["x", "excluded"], &r), Ok(EntryPlan::Skip)));
    assert_eq!(written(plan(&["/", "src", "filename.txt"], false, &["excluded"], &r)).unwrap(),
        "{{cookiecutter.filename_placeholder}}.txt");
}

#[test]
fn test_skip_items() {
    let r = test_replacer();
    assert!(matches!(plan(&["/", "src"], true, &[], &r), Ok(EntryPlan::Skip)));
    assert!(matches!(plan(&["/", "src", "cuttercookie.json"], false, &[], &r), Ok(EntryPlan::Skip)));
    assert_eq!(written(plan(&["/", "src", "test.txt"], false, &[], &r)).unwrap(), "test.txt");
}

#[test]
fn mapping_onto_config_name_is_skipped() {
    let r = RegexReplacer::new(vec![SubstitutionRule::new("settings\\.json".to_string(), "x".to_string())]).unwrap();
    let skip = vec!["".to_string(), "{{cookiecutter.x}}".to_string()];
    let p = plan_entry(&strings(&["/", "src", "settings.json"]), true, false, &strings(&["/", "src"]), &Vec::new(), &skip, &r);
    assert!(matches!(p, Ok(EntryPlan::Skip)));
}

#[test]
fn entry_outside_root_is_path_error() {
    let r = test_replacer();
    let p = plan_entry(&strings(&["/", "other", "a.txt"]), true, false, &strings(&["/", "src"]), &Vec::new(), &default_skip_set(), &r);
    assert!(matches!(p, Err(ErrorKind::Path)));
}

#[test]
fn non_utf8_name_is_encoding_error() {
    let r = test_replacer();
    let p = plan_entry(&strings(&["/", "src", "a.txt"]), false, false, &strings(&["/", "src"]), &Vec::new(), &default_skip_set(), &r);
    assert!(matches!(p, Err(ErrorKind::Encoding)));
}

#[test]
fn structure_is_kept_without_rules() {
    let r = RegexReplacer::new(Vec::new()).unwrap();
    assert_eq!(written(plan(&["/", "src", "a"], true, &[], &r)).unwrap(), "a");
    assert_eq!(written(plan(&["/", "src", "a", "b.txt"], false, &[], &r)).unwrap(), "a/b.txt");
    assert_eq!(written(plan(&["/", "src", "a", "c"], true, &[], &r)).unwrap(), "a/c");
    assert_eq!(written(plan(&["/", "src", "a", "c", "d.txt"], false, &[], &r)).unwrap(), "a/c/d.txt");
    assert_eq!(rewrite_content(b"content of d".to_vec(), &r).unwrap(), "content of d");
}

#[test]
fn project_name_scenario() {
    let r = RegexReplacer::new(vec![SubstitutionRule::new("myapp".to_string(), "project_name".to_string())]).unwrap();
    assert_eq!(written(plan(&["/", "src", "myapp_config.txt"], false, &[], &r)).unwrap(),
        "{{cookiecutter.project_name}}_config.txt");
    assert_eq!(rewrite_content(b"run myapp now".to_vec(), &r).unwrap(), "run {{cookiecutter.project_name}} now");
}

#[test]
fn non_utf8_content_is_encoding_error() {
    let r = test_replacer();
    assert_eq!(rewrite_content(vec![0x66, 0xff, 0xfe], &r), Err(ErrorKind::Encoding));
    assert_eq!(rewrite_content(b"x = value".to_vec(), &r).unwrap(), "x = {{cookiecutter.value_placeholder}}");
}

#[test]
fn exclusion_matches_whole_components() {
    assert!(is_excluded(&strings(&["a", "target", "b"]), &strings(&["target"])));
    assert!(!is_excluded(&strings(&["a", "targets", "b"]), &strings(&["target"])));
    assert!(!is_excluded(&strings(&["a"]), &Vec::new()));
}

#[test]
fn components_join_with_slash() {
    assert_eq!(join_components(&strings(&["a", "c", "d.txt"])), "a/c/d.txt");
    assert_eq!(join_components(&Vec::new()), "");
}

#[test]
fn destination_must_be_empty_but_for_config() {
    assert_eq!(check_destination(&Vec::new()), Ok(()));
    assert_eq!(check_destination(&strings(&["cuttercookie.json"])), Ok(()));
    assert_eq!(check_destination(&strings(&["cuttercookie.json", "x"])), Err(ErrorKind::Validation));
}
