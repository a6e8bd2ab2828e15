use spytrap_engine::engine::{
    evaluate, first_match, predicate_matches, scan, DeviceArtifacts, EvidenceKind, Package, Subject,
};
use spytrap_engine::notify::{ScanEvent, ScanNotifier, Stage};
use spytrap_engine::rules::{Predicate, Rule, RuleSet, Severity};

fn b(s: &str) -> Vec<u8> {
    s.as_bytes().to_vec()
}

fn package(id: &str, label: &str, permissions: &[&str]) -> Package {
    Package {
        id: b(id),
        label: b(label),
        permissions: permissions.iter().map(|p| b(p)).collect(),
        installer: b("com.android.vending"),
    }
}

fn rule(id: &str, severity: Severity, predicates: Vec<Predicate>) -> Rule {
    Rule { id: b(id), description: b(""), severity, predicates }
}

fn rule_set(rules: Vec<Rule>) -> RuleSet {
    RuleSet::new(rules, Vec::new()).unwrap()
}

#[test]
fn one_critical_rule_gives_one_finding() {
    let rules = rule_set(vec![rule(
        "r1",
        Severity::Critical,
        vec![Predicate::PackageExact(b("evil.app"))],
    )]);
    let artifacts = DeviceArtifacts {
        packages: vec![package("evil.app", "Evil", &[]), package("safe.app", "Safe", &[])],
        processes: vec![],
    };
    let mut notifier = ScanNotifier::Null;
    let findings = scan(&rules, &artifacts, &mut notifier);
    assert_eq!(findings.len(), 1);
    assert_eq!(findings[0].severity, Severity::Critical);
    assert_eq!(findings[0].evidence, b("evil.app"));
    assert_eq!(findings[0].rule_id, b("r1"));
    assert_eq!(findings[0].kind, EvidenceKind::Package);
    assert_eq!(findings[0].predicate, 0);
    assert!(matches!(notifier, ScanNotifier::Null));
}

#[test]
fn empty_rule_set_gives_no_findings() {
    let rules = rule_set(vec![]);
    let artifacts = DeviceArtifacts {
        packages: vec![package("evil.app", "Evil", &["A"]), package("safe.app", "Safe", &[])],
        processes: vec![b("init"), b("zygote")],
    };
    let mut notifier = ScanNotifier::buffer();
    let findings = scan(&rules, &artifacts, &mut notifier);
    assert!(findings.is_empty());
    let events = notifier.recorded().unwrap();
    assert_eq!(events.len(), 3);
    assert!(matches!(events[0], ScanEvent::Progress { stage: Stage::Packages, detail: 2 }));
    assert!(matches!(events[1], ScanEvent::Progress { stage: Stage::Processes, detail: 2 }));
    assert!(matches!(events[2], ScanEvent::Progress { stage: Stage::Done, detail: 0 }));
}

#[test]
fn empty_snapshot_gives_no_findings() {
    let rules = rule_set(vec![
        rule("r1", Severity::Critical, vec![Predicate::PackagePattern(b("*"))]),
        rule("r2", Severity::Info, vec![Predicate::PermissionsAll(vec![])]),
        rule("r3", Severity::Info, vec![Predicate::ProcessName(b("spyd"))]),
    ]);
    let artifacts = DeviceArtifacts { packages: vec![], processes: vec![] };
    let mut notifier = ScanNotifier::Null;
    let findings = scan(&rules, &artifacts, &mut notifier);
    assert!(findings.is_empty());
}

#[test]
fn exact_predicate_matches_only_the_same_identifier() {
    let p = Predicate::PackageExact(b("com.example.spy"));
    let spy = package("com.example.spy", "", &[]);
    let spy2 = package("com.example.spy2", "", &[]);
    let upper = package("com.example.SPY", "", &[]);
    assert!(predicate_matches(&p, &Subject::Package(&spy)));
    assert!(!predicate_matches(&p, &Subject::Package(&spy2)));
    assert!(!predicate_matches(&p, &Subject::Package(&upper)));
    let r = rule("r", Severity::Warning, vec![p]);
    assert!(evaluate(&r, &Subject::Package(&spy)).is_some());
    assert!(evaluate(&r, &Subject::Package(&spy2)).is_none());
}

#[test]
fn pattern_predicate_matches_by_prefix() {
    let p = Predicate::PackagePattern(b("com.example.*"));
    let spy = package("com.example.spy", "", &[]);
    let tool = package("com.example.tool", "", &[]);
    let other = package("org.example.spy", "", &[]);
    assert!(predicate_matches(&p, &Subject::Package(&spy)));
    assert!(predicate_matches(&p, &Subject::Package(&tool)));
    assert!(!predicate_matches(&p, &Subject::Package(&other)));
}

#[test]
fn all_permissions_are_required() {
    let p = Predicate::PermissionsAll(vec![b("A"), b("B")]);
    let only_a = package("x", "", &["A"]);
    let both = package("y", "", &["B", "C", "A"]);
    assert!(!predicate_matches(&p, &Subject::Package(&only_a)));
    assert!(predicate_matches(&p, &Subject::Package(&both)));
    let r = rule("perm", Severity::Warning, vec![p]);
    assert!(evaluate(&r, &Subject::Package(&only_a)).is_none());
}

#[test]
fn any_permission_is_enough_where_asked() {
    let p = Predicate::PermissionsAny(vec![b("A"), b("B")]);
    let only_a = package("x", "", &["A"]);
    let none = package("y", "", &["C"]);
    assert!(predicate_matches(&p, &Subject::Package(&only_a)));
    assert!(!predicate_matches(&p, &Subject::Package(&none)));
}

#[test]
fn label_is_compared_without_case() {
    let p = Predicate::LabelContains(b("SpyPhone"));
    let hit = package("x", "My SPYPHONE Pro", &[]);
    let miss = package("y", "My Phone", &[]);
    assert!(predicate_matches(&p, &Subject::Package(&hit)));
    assert!(!predicate_matches(&p, &Subject::Package(&miss)));
}

#[test]
fn process_predicate_sees_processes_only() {
    let p = Predicate::ProcessName(b("spyd"));
    let name = b("spyd");
    let other = b("spyd2");
    let pkg = package("spyd", "spyd", &[]);
    assert!(predicate_matches(&p, &Subject::Process(&name)));
    assert!(!predicate_matches(&p, &Subject::Process(&other)));
    assert!(!predicate_matches(&p, &Subject::Package(&pkg)));
    let exact = Predicate::PackageExact(b("spyd"));
    assert!(!predicate_matches(&exact, &Subject::Process(&name)));
}

#[test]
fn predicates_of_a_rule_are_alternatives() {
    let preds = vec![
        Predicate::PackageExact(b("a.b")),
        Predicate::LabelContains(b("track")),
        Predicate::PackagePattern(b("*.c")),
    ];
    let by_label = package("q.r", "Tracker", &[]);
    let by_both = package("x.c", "tracker", &[]);
    let by_none = package("q.r", "Clock", &[]);
    assert_eq!(first_match(&preds, &Subject::Package(&by_label)), Some(1));
    assert_eq!(first_match(&preds, &Subject::Package(&by_both)), Some(1));
    assert_eq!(first_match(&preds, &Subject::Package(&by_none)), None);
}

#[test]
fn scan_reports_in_discovery_order() {
    let rules = rule_set(vec![
        rule("pkg", Severity::Critical, vec![Predicate::PackagePattern(b("evil.*"))]),
        rule("lab", Severity::Info, vec![Predicate::LabelContains(b("evil"))]),
        rule("proc", Severity::Warning, vec![Predicate::ProcessName(b("evild"))]),
    ]);
    let artifacts = DeviceArtifacts {
        packages: vec![
            package("safe.app", "Safe", &[]),
            package("evil.one", "EVIL one", &[]),
            package("evil.two", "two", &[]),
        ],
        processes: vec![b("init"), b("evild")],
    };
    let mut notifier = ScanNotifier::buffer();
    let findings = scan(&rules, &artifacts, &mut notifier);
    let got: Vec<(Vec<u8>, Vec<u8>)> =
        findings.iter().map(|f| (f.rule_id.clone(), f.evidence.clone())).collect();
    assert_eq!(
        got,
        vec![
            (b("pkg"), b("evil.one")),
            (b("lab"), b("evil.one")),
            (b("pkg"), b("evil.two")),
            (b("proc"), b("evild")),
        ]
    );
    assert_eq!(findings[3].kind, EvidenceKind::Process);
    assert_eq!(findings[3].severity, Severity::Warning);
    let events = notifier.recorded().unwrap();
    assert_eq!(events.len(), 7);
    assert!(matches!(events[0], ScanEvent::Progress { stage: Stage::Packages, detail: 3 }));
    assert!(matches!(&events[1], ScanEvent::Finding(f) if f.evidence == b("evil.one") && f.rule_id == b("pkg")));
    assert!(matches!(&events[2], ScanEvent::Finding(f) if f.evidence == b("evil.one") && f.rule_id == b("lab")));
    assert!(matches!(&events[3], ScanEvent::Finding(f) if f.evidence == b("evil.two")));
    assert!(matches!(events[4], ScanEvent::Progress { stage: Stage::Processes, detail: 2 }));
    assert!(matches!(&events[5], ScanEvent::Finding(f) if f.evidence == b("evild")));
    assert!(matches!(events[6], ScanEvent::Progress { stage: Stage::Done, detail: 4 }));
}
