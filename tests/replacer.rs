use cuttercookie::file::{process_file, File};
use cuttercookie::replacer::RegexReplacer;
use cuttercookie::rules::{sort_rules, SubstitutionRule};

fn replacer(pairs: &[(&str, &str)]) -> RegexReplacer {
    let rules = pairs
        .iter()
        .map(|(p, s)| SubstitutionRule::new(p.to_string(), s.to_string()))
        .collect();
    RegexReplacer::new(rules).unwrap()
}

#[test]
fn rule_wraps_symbol_in_placeholder() {
    let rule = SubstitutionRule::new("myapp".to_string(), "project_name".to_string());
    assert_eq!(rule.pattern, "myapp");
    assert_eq!(rule.replacement, "{{cookiecutter.project_name}}");
}

#[test]
fn non_matching_text_is_unchanged() {
    let r = replacer(&[("value", "v"), ("old", "new")]);
    assert_eq!(r.replace("nothing to see here"), "nothing to see here");
    assert_eq!(r.replace(""), "");
}

#[test]
fn empty_rule_set_is_identity() {
    let r = RegexReplacer::new(Vec::new()).unwrap();
    assert_eq!(r.replace("anything at all"), "anything at all");
    assert_eq!(r.replace("ünïcödé"), "ünïcödé");
    assert_eq!(r.replace(""), "");
}

#[test]
fn longer_pattern_wins_at_same_offset() {
    let r = replacer(&[("old", "short"), ("old_value", "long")]);
    assert_eq!(r.replace("old_value"), "{{cookiecutter.long}}");
    assert_eq!(r.replace("old_thing"), "{{cookiecutter.short}}_thing");
}

#[test]
fn replacement_is_not_rescanned() {
    let r = replacer(&[("a", "b"), ("b", "c")]);
    assert_eq!(r.replace("a"), "{{cookiecutter.b}}");
    assert_eq!(r.replace("ab"), "{{cookiecutter.b}}{{cookiecutter.c}}");
}

#[test]
fn every_occurrence_is_rewritten() {
    let r = replacer(&[("myapp", "project_name")]);
    assert_eq!(r.replace("run myapp now"), "run {{cookiecutter.project_name}} now");
    assert_eq!(r.replace("myapp myapp"), "{{cookiecutter.project_name}} {{cookiecutter.project_name}}");
}

#[test]
fn invalid_pattern_is_rejected() {
    let rules = vec![SubstitutionRule::new("[".to_string(), "x".to_string())];
    assert!(RegexReplacer::new(rules).is_err());
}

#[test]
fn rules_are_sorted_longest_first_and_stable() {
    let rules = vec![
        SubstitutionRule::new("ab".to_string(), "1".to_string()),
        SubstitutionRule::new("abcd".to_string(), "2".to_string()),
        SubstitutionRule::new("cd".to_string(), "3".to_string()),
        SubstitutionRule::new("x".to_string(), "4".to_string()),
    ];
    let sorted = sort_rules(rules);
    let patterns: Vec<&str> = sorted.iter().map(|r| r.pattern.as_str()).collect();
    assert_eq!(patterns, vec!["abcd", "ab", "cd", "x"]);
}

#[test]
fn file_keeps_name_and_content() {
    let f = File::new("a.txt".to_string(), "body".to_string());
    assert_eq!(f.name(), "a.txt");
    assert_eq!(f.content(), "body");
}

#[test]
fn process_file_rewrites_name_and_content() {
    let r = replacer(&[("myapp", "project_name")]);
    let f = process_file(File::new("myapp_config.txt".to_string(), "run myapp now".to_string()), &r);
    assert_eq!(f.name(), "{{cookiecutter.project_name}}_config.txt");
    assert_eq!(f.content(), "run {{cookiecutter.project_name}} now");
}

#[test]
fn pattern_with_own_groups_keeps_later_rules_matching() {
    let r = replacer(&[("(a)b", "x"), ("c", "y")]);
    assert_eq!(r.replace("ab"), "{{cookiecutter.x}}");
    assert_eq!(r.replace("c"), "{{cookiecutter.y}}");
    assert_eq!(r.replace("abc ab c"), "{{cookiecutter.x}}{{cookiecutter.y}} {{cookiecutter.x}} {{cookiecutter.y}}");
}

#[test]
fn named_and_nested_groups_keep_rules_apart() {
    let r = replacer(&[("(?P<n>x(y)(z))", "first"), ("w", "second"), ("(q)", "third")]);
    assert_eq!(r.replace("xyz w q"), "{{cookiecutter.first}} {{cookiecutter.second}} {{cookiecutter.third}}");
}

#[test]
fn pattern_invalid_alone_is_rejected() {
    let rules = vec![SubstitutionRule::new("a)|(b".to_string(), "x".to_string())];
    assert!(RegexReplacer::new(rules).is_err());
}

#[test]
fn splice_matches_uses_each_rules_own_group() {
    // sorted rules: "(a)b" (groups 1 and 2), then "c" (group 3)
    let r = replacer(&[("(a)b", "x"), ("c", "y")]);
    let pieces = vec!["<".to_string(), "-".to_string(), ">".to_string()];
    let matches = vec![
        vec![Some("ab".to_string()), Some("ab".to_string()), Some("a".to_string()), None],
        vec![Some("c".to_string()), None, None, Some("c".to_string())],
    ];
    assert_eq!(r.splice_matches(&pieces, &matches), "<{{cookiecutter.x}}-{{cookiecutter.y}}>");
    let unmatched = vec![vec![Some("zz".to_string()), None, None, None]];
    let around = vec!["a".to_string(), "b".to_string()];
    assert_eq!(r.splice_matches(&around, &unmatched), "azzb");
}
