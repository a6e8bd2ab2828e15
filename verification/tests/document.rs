use spytrap_engine::digest::{fingerprint, to_hex};
use spytrap_engine::document::{
    apply_line, cut, parse_document, read_field, read_rules, read_severity, Field,
};
use spytrap_engine::rules::{check_rules, Predicate, Rule, RuleParseError, RuleSet, Severity};

fn b(s: &str) -> Vec<u8> {
    s.as_bytes().to_vec()
}

const SAMPLE: &str = "# indicators\n\
rule critical stalker-1\n\
description Example family\n\
package com.example.spy\n\
pattern com.example.*\n\
permissions android.permission.A,android.permission.B\n\
\n\
rule info watcher\n\
any-permission X,Y\n\
label Spy Phone\n\
process spyd\n";

#[test]
fn sample_document_parses() {
    let set = parse_document(&b(SAMPLE)).unwrap();
    assert_eq!(set.rules().len(), 2);
    let first = &set.rules()[0];
    assert_eq!(first.id, b("stalker-1"));
    assert_eq!(first.description, b("Example family"));
    assert_eq!(first.severity, Severity::Critical);
    assert_eq!(first.predicates.len(), 3);
    assert!(matches!(&first.predicates[0], Predicate::PackageExact(id) if *id == b("com.example.spy")));
    assert!(matches!(&first.predicates[1], Predicate::PackagePattern(p) if *p == b("com.example.*")));
    assert!(matches!(&first.predicates[2], Predicate::PermissionsAll(l)
        if *l == vec![b("android.permission.A"), b("android.permission.B")]));
    let second = &set.rules()[1];
    assert_eq!(second.id, b("watcher"));
    assert_eq!(second.description, b(""));
    assert_eq!(second.severity, Severity::Info);
    assert_eq!(second.predicates.len(), 3);
    assert!(matches!(&second.predicates[0], Predicate::PermissionsAny(l) if *l == vec![b("X"), b("Y")]));
    assert!(matches!(&second.predicates[1], Predicate::LabelContains(t) if *t == b("Spy Phone")));
    assert!(matches!(&second.predicates[2], Predicate::ProcessName(n) if *n == b("spyd")));
    assert_eq!(*set.fingerprint(), fingerprint(&b(SAMPLE)));
}

#[test]
fn parsing_twice_gives_the_same() {
    let a = parse_document(&b(SAMPLE)).unwrap();
    let c = parse_document(&b(SAMPLE)).unwrap();
    assert_eq!(a.fingerprint(), c.fingerprint());
    let ids_a: Vec<Vec<u8>> = a.rules().iter().map(|r| r.id.clone()).collect();
    let ids_c: Vec<Vec<u8>> = c.rules().iter().map(|r| r.id.clone()).collect();
    assert_eq!(ids_a, ids_c);
    assert_eq!(ids_a, vec![b("stalker-1"), b("watcher")]);
}

#[test]
fn empty_document_is_an_empty_rule_set() {
    let set = parse_document(&b("")).unwrap();
    assert!(set.rules().is_empty());
    let set = parse_document(&b("# nothing\n\n")).unwrap();
    assert!(set.rules().is_empty());
}

#[test]
fn duplicate_identifiers_are_refused() {
    let doc = "rule info a\npackage x\nrule info b\npackage y\nrule critical a\npackage z\n";
    assert_eq!(parse_document(&b(doc)).unwrap_err(), RuleParseError::DuplicateIdentifier { rule: 2 });
}

#[test]
fn rule_without_predicates_is_refused() {
    let doc = "rule info a\npackage x\nrule info b\ndescription nothing\n";
    assert_eq!(parse_document(&b(doc)).unwrap_err(), RuleParseError::NoPredicates { rule: 1 });
}

#[test]
fn invalid_pattern_is_refused() {
    let doc = "rule info a\npattern a**b\n";
    assert_eq!(parse_document(&b(doc)).unwrap_err(), RuleParseError::InvalidPattern { line: 1 });
    let doc = "rule info a\npattern\n";
    assert_eq!(parse_document(&b(doc)).unwrap_err(), RuleParseError::InvalidPattern { line: 1 });
}

#[test]
fn unknown_field_is_refused() {
    let doc = "rule info a\npackage x\ncolour red\n";
    assert_eq!(parse_document(&b(doc)).unwrap_err(), RuleParseError::UnknownField { line: 2 });
}

#[test]
fn field_before_first_rule_is_refused() {
    let doc = "\npackage x\nrule info a\n";
    assert_eq!(parse_document(&b(doc)).unwrap_err(), RuleParseError::FieldOutsideRule { line: 1 });
}

#[test]
fn bad_severity_is_refused() {
    let doc = "rule fatal a\npackage x\n";
    assert_eq!(parse_document(&b(doc)).unwrap_err(), RuleParseError::BadSeverity { line: 0 });
}

#[test]
fn missing_identifier_is_refused() {
    assert_eq!(
        parse_document(&b("rule info\n")).unwrap_err(),
        RuleParseError::MissingIdentifier { line: 0 }
    );
    assert_eq!(
        parse_document(&b("rule info \n")).unwrap_err(),
        RuleParseError::MissingIdentifier { line: 0 }
    );
}

#[test]
fn first_error_wins() {
    let doc = "rule info a\nrule info a\nbogus\n";
    assert_eq!(parse_document(&b(doc)).unwrap_err(), RuleParseError::UnknownField { line: 2 });
}

#[test]
fn lines_are_cut_at_the_first_blank() {
    assert_eq!(cut(&b("label Spy Phone")), (b("label"), b("Spy Phone")));
    assert_eq!(cut(&b("label")), (b("label"), b("")));
    assert_eq!(cut(&b(" x")), (b(""), b("x")));
    assert_eq!(cut(&b("")), (b(""), b("")));
}

#[test]
fn words_name_fields_and_severities() {
    assert_eq!(read_field(&b("rule")), Some(Field::Rule));
    assert_eq!(read_field(&b("description")), Some(Field::Description));
    assert_eq!(read_field(&b("package")), Some(Field::Package));
    assert_eq!(read_field(&b("pattern")), Some(Field::Pattern));
    assert_eq!(read_field(&b("permissions")), Some(Field::Permissions));
    assert_eq!(read_field(&b("any-permission")), Some(Field::AnyPermission));
    assert_eq!(read_field(&b("label")), Some(Field::Label));
    assert_eq!(read_field(&b("process")), Some(Field::Process));
    assert_eq!(read_field(&b("Rule")), None);
    assert_eq!(read_severity(&b("info")), Some(Severity::Info));
    assert_eq!(read_severity(&b("warning")), Some(Severity::Warning));
    assert_eq!(read_severity(&b("critical")), Some(Severity::Critical));
    assert_eq!(read_severity(&b("")), None);
}

#[test]
fn a_line_changes_the_last_rule() {
    let mut rules: Vec<Rule> = Vec::new();
    assert_eq!(apply_line(&mut rules, &b("rule warning w"), 0), Ok(()));
    assert_eq!(apply_line(&mut rules, &b("# note"), 1), Ok(()));
    assert_eq!(apply_line(&mut rules, &b("description first"), 2), Ok(()));
    assert_eq!(apply_line(&mut rules, &b("description second"), 3), Ok(()));
    assert_eq!(apply_line(&mut rules, &b("process p"), 4), Ok(()));
    assert_eq!(
        apply_line(&mut rules, &b("pattern **"), 5),
        Err(RuleParseError::InvalidPattern { line: 5 })
    );
    assert_eq!(rules.len(), 1);
    assert_eq!(rules[0].description, b("second"));
    assert_eq!(rules[0].severity, Severity::Warning);
    assert_eq!(rules[0].predicates.len(), 1);
}

#[test]
fn rules_are_checked_across_the_set() {
    let lines = vec![b("rule info a"), b("rule info a")];
    let rules = read_rules(&lines).unwrap();
    assert_eq!(rules.len(), 2);
    assert_eq!(check_rules(&rules), Err(RuleParseError::NoPredicates { rule: 0 }));
    let lines = vec![b("rule info a"), b("process x"), b("rule info a"), b("process x")];
    let rules = read_rules(&lines).unwrap();
    assert_eq!(check_rules(&rules), Err(RuleParseError::DuplicateIdentifier { rule: 1 }));
    let lines = vec![b("rule info a"), b("process x"), b("rule info b"), b("process x")];
    let rules = read_rules(&lines).unwrap();
    assert_eq!(check_rules(&rules), Ok(()));
}

#[test]
fn fingerprint_is_sha256_of_the_bytes() {
    assert_eq!(
        to_hex(&fingerprint(&b("abc"))),
        b("ba7816bf8f01cfea414140de5dae2223b00361a396177a9cb410ff61f20015ad")
    );
    assert_eq!(
        to_hex(&fingerprint(&b(""))),
        b("e3b0c44298fc1c149afbf4c8996fb92427ae41e4649b934ca495991b7852b855")
    );
}

#[test]
fn hexadecimal_form() {
    assert_eq!(to_hex(&vec![0, 9, 10, 15, 16, 171, 255]), b("00090a0f10abff"));
    assert_eq!(to_hex(&vec![]), b(""));
}

#[test]
fn rule_sets_are_checked_when_made() {
    let rule = |id: &str, predicates: Vec<Predicate>| Rule {
        id: b(id),
        description: b(""),
        severity: Severity::Info,
        predicates,
    };
    let good = RuleSet::new(
        vec![
            rule("a", vec![Predicate::ProcessName(b("x"))]),
            rule("b", vec![Predicate::ProcessName(b("x"))]),
        ],
        b("digest"),
    )
    .unwrap();
    assert_eq!(good.rules().len(), 2);
    assert_eq!(good.rules()[1].id, b("b"));
    assert_eq!(*good.fingerprint(), b("digest"));
    let twice = RuleSet::new(
        vec![
            rule("a", vec![Predicate::ProcessName(b("x"))]),
            rule("a", vec![Predicate::ProcessName(b("y"))]),
        ],
        b(""),
    );
    assert_eq!(twice.unwrap_err(), RuleParseError::DuplicateIdentifier { rule: 1 });
    let bare = RuleSet::new(vec![rule("a", vec![])], b(""));
    assert_eq!(bare.unwrap_err(), RuleParseError::NoPredicates { rule: 0 });
    assert!(RuleSet::new(vec![], b("")).unwrap().rules().is_empty());
}
