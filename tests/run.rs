use cuttercookie::error::ErrorKind;
use cuttercookie::materialize::default_skip_set;
use cuttercookie::replacer::RegexReplacer;
use cuttercookie::rules::SubstitutionRule;
use cuttercookie::run::{plan_run, Output, WalkedEntry};

fn entry(path: &[&str], is_dir: bool, content: &[u8]) -> WalkedEntry {
    WalkedEntry {
        components: path.iter().map(|s| s.to_string()).collect(),
        name_is_utf8: true,
        is_dir,
        content: content.to_vec(),
    }
}

fn root() -> Vec<String> {
    vec!["/".to_string(), "src".to_string()]
}

fn describe(outputs: &[Output]) -> Vec<String> {
    outputs
        .iter()
        .map(|o| match o {
            Output::Dir(p) => format!("dir {}", p),
            Output::File(p, c) => format!("file {} = {}", p, c),
        })
        .collect()
}

#[test]
fn tree_is_reproduced_without_matching_rules() {
    let r = RegexReplacer::new(vec![SubstitutionRule::new("zzz".to_string(), "z".to_string())]).unwrap();
    let entries = vec![
        entry(&["/", "src"], true, b""),
        entry(&["/", "src", "a"], true, b""),
        entry(&["/", "src", "a", "b.txt"], false, b"cb"),
        entry(&["/", "src", "a", "c"], true, b""),
        entry(&["/", "src", "a", "c", "d.txt"], false, b"cd"),
    ];
    let plan = plan_run(entries, &root(), &Vec::new(), &default_skip_set(), &r);
    assert!(plan.failed.is_none());
    assert_eq!(describe(&plan.outputs), vec!["dir a", "file a/b.txt = cb", "dir a/c", "file a/c/d.txt = cd"]);
}

#[test]
fn run_stops_at_first_non_utf8_file() {
    let r = RegexReplacer::new(vec![SubstitutionRule::new("myapp".to_string(), "project_name".to_string())]).unwrap();
    let entries = vec![
        entry(&["/", "src"], true, b""),
        entry(&["/", "src", "myapp_config.txt"], false, b"run myapp now"),
        entry(&["/", "src", "binary.bin"], false, &[0xff, 0xfe, 0x00]),
        entry(&["/", "src", "later.txt"], false, b"never"),
    ];
    let plan = plan_run(entries, &root(), &Vec::new(), &default_skip_set(), &r);
    assert_eq!(plan.failed, Some((2, ErrorKind::Encoding)));
    assert_eq!(
        describe(&plan.outputs),
        vec!["file {{cookiecutter.project_name}}_config.txt = run {{cookiecutter.project_name}} now"]
    );
}

#[test]
fn run_leaves_out_excluded_subtrees_and_config_file() {
    let r = RegexReplacer::new(Vec::new()).unwrap();
    let entries = vec![
        entry(&["/", "src"], true, b""),
        entry(&["/", "src", "cuttercookie.json"], false, b"{}"),
        entry(&["/", "src", "target"], true, b""),
        entry(&["/", "src", "target", "deep", "x.txt"], false, b"x"),
        entry(&["/", "src", "keep.txt"], false, b"k"),
    ];
    let excluded = vec!["target".to_string()];
    let plan = plan_run(entries, &root(), &excluded, &default_skip_set(), &r);
    assert!(plan.failed.is_none());
    assert_eq!(describe(&plan.outputs), vec!["file keep.txt = k"]);
}
