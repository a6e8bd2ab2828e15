//! The matching engine: evaluates every rule against every package and every
//! running process of a device snapshot.

use crate::glob::{glob_match, glob_matches};
use crate::notify::{delivered, finding_events, lemma_delivered_twice, EventModel, ScanNotifier, Stage};
use crate::rules::{Predicate, PredicateModel, Rule, RuleModel, RuleSet, Severity, rule_models, predicate_models};
use crate::text::{bytes_eq, contains, contains_ignoring_case, copy_bytes, has_member, is_member, lower, views};
use vstd::prelude::*;

verus! {

/// What the device reports of one installed package.
#[derive(Clone, Debug)]
pub struct Package {
    pub id: Vec<u8>,
    pub label: Vec<u8>,
    pub permissions: Vec<Vec<u8>>,
    pub installer: Vec<u8>,
}

/// A package as the contracts see it.
pub struct PackageModel {
    pub id: Seq<u8>,
    pub label: Seq<u8>,
    pub permissions: Seq<Seq<u8>>,
    pub installer: Seq<u8>,
}

impl View for Package {
    type V = PackageModel;

    open spec fn view(&self) -> PackageModel {
        PackageModel {
            id: self.id@,
            label: self.label@,
            permissions: views(self.permissions@),
            installer: self.installer@,
        }
    }
}

/// The packages of a list as the contracts see them, in order.
pub open spec fn package_models(v: Seq<Package>) -> Seq<PackageModel> {
    v.map_values(|p: Package| p@)
}

/// A snapshot of one device: its packages in the order in which the device
/// listed them, and the names of its running processes.
#[derive(Clone, Debug)]
pub struct DeviceArtifacts {
    pub packages: Vec<Package>,
    pub processes: Vec<Vec<u8>>,
}

/// A snapshot as the contracts see it.
pub struct ArtifactsModel {
    pub packages: Seq<PackageModel>,
    pub processes: Seq<Seq<u8>>,
}

impl View for DeviceArtifacts {
    type V = ArtifactsModel;

    open spec fn view(&self) -> ArtifactsModel {
        ArtifactsModel {
            packages: package_models(self.packages@),
            processes: views(self.processes@),
        }
    }
}

/// No package identifier and no process name is listed twice.
pub open spec fn distinct_artifacts(a: ArtifactsModel) -> bool {
    &&& forall|i: int, j: int|
        0 <= i < j < a.packages.len() ==> a.packages[i].id != a.packages[j].id
    &&& forall|i: int, j: int| 0 <= i < j < a.processes.len() ==> a.processes[i] != a.processes[j]
}

/// The thing a predicate is held against: a package or a running process.
pub enum Subject<'a> {
    Package(&'a Package),
    Process(&'a Vec<u8>),
}

/// A subject as the contracts see it.
pub enum SubjectModel {
    Package(PackageModel),
    Process(Seq<u8>),
}

impl<'a> View for Subject<'a> {
    type V = SubjectModel;

    open spec fn view(&self) -> SubjectModel {
        match *self {
            Subject::Package(p) => SubjectModel::Package(p@),
            Subject::Process(n) => SubjectModel::Process(n@),
        }
    }
}

/// Whether the evidence of a finding names a package or a process.
#[derive(Clone, Copy, Debug, PartialEq, Eq, Structural)]
pub enum EvidenceKind {
    Package,
    Process,
}

/// One match of a rule: which rule, how grave, on what, and through which of
/// the rule's predicates.
#[derive(Clone, Debug)]
pub struct Finding {
    pub rule_id: Vec<u8>,
    pub severity: Severity,
    pub evidence: Vec<u8>,
    pub kind: EvidenceKind,
    pub predicate: usize,
}

/// A finding as the contracts see it.
pub struct FindingModel {
    pub rule_id: Seq<u8>,
    pub severity: Severity,
    pub evidence: Seq<u8>,
    pub kind: EvidenceKind,
    pub predicate: int,
}

impl View for Finding {
    type V = FindingModel;

    open spec fn view(&self) -> FindingModel {
        FindingModel {
            rule_id: self.rule_id@,
            severity: self.severity,
            evidence: self.evidence@,
            kind: self.kind,
            predicate: self.predicate as int,
        }
    }
}

/// The findings of a list as the contracts see them, in order.
pub open spec fn finding_models(v: Seq<Finding>) -> Seq<FindingModel> {
    v.map_values(|f: Finding| f@)
}

impl Finding {
    pub fn duplicate(&self) -> (c: Finding)
        ensures
            c@ == self@,
    {
        Finding {
            rule_id: copy_bytes(&self.rule_id),
            severity: self.severity,
            evidence: copy_bytes(&self.evidence),
            kind: self.kind,
            predicate: self.predicate,
        }
    }
}

/// Every required permission is held.
pub open spec fn holds_all(held: Seq<Seq<u8>>, required: Seq<Seq<u8>>) -> bool {
    forall|k: int| 0 <= k < required.len() ==> has_member(held, #[trigger] required[k])
}

/// At least one required permission is held.
pub open spec fn holds_any(held: Seq<Seq<u8>>, required: Seq<Seq<u8>>) -> bool {
    exists|k: int| 0 <= k < required.len() && has_member(held, #[trigger] required[k])
}

/// The predicate is true of the subject. Identifiers and process names are
/// compared byte for byte; labels are compared without regard to ASCII case.
pub open spec fn predicate_hits(p: PredicateModel, s: SubjectModel) -> bool {
    match s {
        SubjectModel::Package(pkg) => match p {
            PredicateModel::PackageExact(id) => pkg.id == id,
            PredicateModel::PackagePattern(pat) => glob_matches(pat, pkg.id),
            PredicateModel::PermissionsAll(req) => holds_all(pkg.permissions, req),
            PredicateModel::PermissionsAny(req) => holds_any(pkg.permissions, req),
            PredicateModel::LabelContains(text) => contains(lower(pkg.label), lower(text)),
            PredicateModel::ProcessName(_) => false,
        },
        SubjectModel::Process(name) => match p {
            PredicateModel::ProcessName(n) => n == name,
            _ => false,
        },
    }
}

/// The rule matches the subject: one of its predicates is true of it.
pub open spec fn rule_matches(rule: RuleModel, s: SubjectModel) -> bool {
    exists|k: int| 0 <= k < rule.predicates.len() && predicate_hits(#[trigger] rule.predicates[k], s)
}

/// The position of the first predicate, from `from` on, that is true of the subject.
pub open spec fn first_hit(preds: Seq<PredicateModel>, s: SubjectModel, from: int) -> Option<int>
    decreases preds.len() - from,
{
    if from < 0 || from >= preds.len() {
        None
    } else if predicate_hits(preds[from], s) {
        Some(from)
    } else {
        first_hit(preds, s, from + 1)
    }
}

/// The evidence that a subject gives: its package identifier or process name.
pub open spec fn subject_name(s: SubjectModel) -> Seq<u8> {
    match s {
        SubjectModel::Package(pkg) => pkg.id,
        SubjectModel::Process(name) => name,
    }
}

/// The kind of evidence that a subject gives.
pub open spec fn subject_kind(s: SubjectModel) -> EvidenceKind {
    match s {
        SubjectModel::Package(_) => EvidenceKind::Package,
        SubjectModel::Process(_) => EvidenceKind::Process,
    }
}

/// The finding that a rule gives on a subject, if it matches: it names the
/// first predicate that is true.
pub open spec fn rule_finding(rule: RuleModel, s: SubjectModel) -> Option<FindingModel> {
    match first_hit(rule.predicates, s, 0) {
        Some(k) => Some(
            FindingModel {
                rule_id: rule.id,
                severity: rule.severity,
                evidence: subject_name(s),
                kind: subject_kind(s),
                predicate: k,
            },
        ),
        None => None,
    }
}

/// The findings of the first `n` rules on one subject, in rule order.
pub open spec fn subject_findings(rules: Seq<RuleModel>, s: SubjectModel, n: int) -> Seq<
    FindingModel,
>
    decreases n,
{
    if n <= 0 {
        Seq::empty()
    } else {
        let before = subject_findings(rules, s, n - 1);
        match rule_finding(rules[n - 1], s) {
            Some(f) => before.push(f),
            None => before,
        }
    }
}

/// The findings on the first `n` packages, package by package.
pub open spec fn package_findings(rules: Seq<RuleModel>, pkgs: Seq<PackageModel>, n: int) -> Seq<
    FindingModel,
>
    decreases n,
{
    if n <= 0 {
        Seq::empty()
    } else {
        package_findings(rules, pkgs, n - 1) + subject_findings(
            rules,
            SubjectModel::Package(pkgs[n - 1]),
            rules.len() as int,
        )
    }
}

/// The findings on the first `n` processes, process by process.
pub open spec fn process_findings(rules: Seq<RuleModel>, procs: Seq<Seq<u8>>, n: int) -> Seq<
    FindingModel,
>
    decreases n,
{
    if n <= 0 {
        Seq::empty()
    } else {
        process_findings(rules, procs, n - 1) + subject_findings(
            rules,
            SubjectModel::Process(procs[n - 1]),
            rules.len() as int,
        )
    }
}

/// All findings of a scan: those on the packages, then those on the processes.
pub open spec fn scan_findings(rules: Seq<RuleModel>, a: ArtifactsModel) -> Seq<FindingModel> {
    package_findings(rules, a.packages, a.packages.len() as int) + process_findings(
        rules,
        a.processes,
        a.processes.len() as int,
    )
}

fn has_all(held: &Vec<Vec<u8>>, required: &Vec<Vec<u8>>) -> (r: bool)
    ensures
        r == holds_all(views(held@), views(required@)),
{
    let mut k: usize = 0;
    while k < required.len()
        invariant
            k <= required.len(),
            forall|x: int| 0 <= x < k ==> has_member(views(held@), #[trigger] views(required@)[x]),
        decreases required.len() - k,
    {
        if !is_member(held, &required[k]) {
            assert(!has_member(views(held@), views(required@)[k as int]));
            return false;
        }
        k += 1;
    }
    true
}

fn has_any(held: &Vec<Vec<u8>>, required: &Vec<Vec<u8>>) -> (r: bool)
    ensures
        r == holds_any(views(held@), views(required@)),
{
    let mut k: usize = 0;
    while k < required.len()
        invariant
            k <= required.len(),
            forall|x: int| 0 <= x < k ==> !has_member(views(held@), #[trigger] views(required@)[x]),
        decreases required.len() - k,
    {
        if is_member(held, &required[k]) {
            assert(has_member(views(held@), views(required@)[k as int]));
            return true;
        }
        k += 1;
    }
    false
}

/// Decides one predicate on one subject.
pub fn predicate_matches(p: &Predicate, s: &Subject) -> (r: bool)
    ensures
        r == predicate_hits(p@, s@),
{
    match s {
        Subject::Package(pkg) => match p {
            Predicate::PackageExact(id) => bytes_eq(&pkg.id, id),
            Predicate::PackagePattern(pat) => glob_match(pat, &pkg.id),
            Predicate::PermissionsAll(req) => has_all(&pkg.permissions, req),
            Predicate::PermissionsAny(req) => has_any(&pkg.permissions, req),
            Predicate::LabelContains(text) => contains_ignoring_case(&pkg.label, text),
            Predicate::ProcessName(_) => false,
        },
        Subject::Process(name) => match p {
            Predicate::ProcessName(n) => bytes_eq(n, name),
            _ => false,
        },
    }
}

/// Finds the first predicate of a list that is true of the subject.
pub fn first_match(preds: &Vec<Predicate>, s: &Subject) -> (r: Option<usize>)
    ensures
        match r {
            Some(k) => first_hit(predicate_models(preds@), s@, 0) == Some(k as int),
            None => first_hit(predicate_models(preds@), s@, 0) is None,
        },
{
    let mut k: usize = 0;
    while k < preds.len()
        invariant
            k <= preds.len(),
            first_hit(predicate_models(preds@), s@, 0) == first_hit(
                predicate_models(preds@),
                s@,
                k as int,
            ),
        decreases preds.len() - k,
    {
        if predicate_matches(&preds[k], s) {
            return Some(k);
        }
        k += 1;
    }
    None
}

/// Evaluates one rule on one subject.
pub fn evaluate(rule: &Rule, s: &Subject) -> (r: Option<Finding>)
    ensures
        r is Some <==> rule_matches(rule@, s@),
        match r {
            Some(f) => rule_finding(rule@, s@) == Some(f@),
            None => rule_finding(rule@, s@) is None,
        },
{
    proof {
        lemma_first_hit(rule@.predicates, s@, 0);
    }
    match first_match(&rule.predicates, s) {
        Some(k) => {
            let (name, kind) = match s {
                Subject::Package(pkg) => (copy_bytes(&pkg.id), EvidenceKind::Package),
                Subject::Process(n) => (copy_bytes(n), EvidenceKind::Process),
            };
            Some(
                Finding {
                    rule_id: copy_bytes(&rule.id),
                    severity: rule.severity,
                    evidence: name,
                    kind,
                    predicate: k,
                },
            )
        },
        None => None,
    }
}

/// The search for a first true predicate finds one exactly when some
/// predicate from `from` on is true, and what it finds is true and the
/// earliest such.
pub proof fn lemma_first_hit(preds: Seq<PredicateModel>, s: SubjectModel, from: int)
    requires
        0 <= from,
    ensures
        first_hit(preds, s, from) is Some <==> exists|k: int|
            from <= k < preds.len() && predicate_hits(#[trigger] preds[k], s),
        first_hit(preds, s, from) is Some ==> {
            let h = first_hit(preds, s, from)->Some_0;
            &&& from <= h < preds.len()
            &&& predicate_hits(preds[h], s)
            &&& forall|k: int| from <= k < h ==> !predicate_hits(#[trigger] preds[k], s)
        },
    decreases preds.len() - from,
{
    if from < preds.len() {
        lemma_first_hit(preds, s, from + 1);
        if predicate_hits(preds[from], s) {
        } else {
            if exists|k: int| from <= k < preds.len() && predicate_hits(#[trigger] preds[k], s) {
                let k = choose|k: int|
                    from <= k < preds.len() && predicate_hits(#[trigger] preds[k], s);
                assert(from + 1 <= k);
            }
        }
    }
}

/// Everything a scan reports, in order: the package stage and its findings,
/// the process stage and its findings, and the end with the number of findings.
pub open spec fn scan_events(rules: Seq<RuleModel>, a: ArtifactsModel) -> Seq<EventModel> {
    let on_packages = package_findings(rules, a.packages, a.packages.len() as int);
    let on_processes = process_findings(rules, a.processes, a.processes.len() as int);
    seq![EventModel::Progress { stage: Stage::Packages, detail: a.packages.len() as usize }]
        + finding_events(on_packages) + seq![
        EventModel::Progress { stage: Stage::Processes, detail: a.processes.len() as usize },
    ] + finding_events(on_processes) + seq![
        EventModel::Progress {
            stage: Stage::Done,
            detail: (on_packages.len() + on_processes.len()) as usize,
        },
    ]
}

/// Evaluates every rule on one subject, appends the findings to `out` in rule
/// order and reports each as it is found.
pub fn scan_subject(
    rules: &Vec<Rule>,
    s: &Subject,
    out: &mut Vec<Finding>,
    notifier: &mut ScanNotifier,
)
    ensures
        finding_models(final(out)@) == finding_models(old(out)@) + subject_findings(
            rule_models(rules@),
            s@,
            rules.len() as int,
        ),
        delivered(
            *old(notifier),
            *final(notifier),
            finding_events(subject_findings(rule_models(rules@), s@, rules.len() as int)),
        ),
{
    let ghost ms = rule_models(rules@);
    let ghost out0 = finding_models(out@);
    let ghost n0 = *notifier;
    let mut i: usize = 0;
    proof {
        assert(finding_models(out@) =~= out0 + subject_findings(ms, s@, 0));
        assert(finding_events(subject_findings(ms, s@, 0)) =~= Seq::<EventModel>::empty());
        if n0 is Buffer {
            assert(n0.log() =~= n0.log() + Seq::<EventModel>::empty());
        }
    }
    while i < rules.len()
        invariant
            i <= rules.len(),
            ms == rule_models(rules@),
            finding_models(out@) == out0 + subject_findings(ms, s@, i as int),
            delivered(n0, *notifier, finding_events(subject_findings(ms, s@, i as int))),
        decreases rules.len() - i,
    {
        let ghost before = subject_findings(ms, s@, i as int);
        let ghost out_before = out@;
        let ghost n_before = *notifier;
        match evaluate(&rules[i], s) {
            Some(f) => {
                notifier.on_finding(&f);
                let ghost fm = f@;
                out.push(f);
                proof {
                    assert(finding_models(out@) =~= finding_models(out_before).push(fm));
                    assert(out0 + before.push(fm) =~= (out0 + before).push(fm));
                    assert(finding_events(before.push(fm)) =~= finding_events(before)
                        + seq![EventModel::Finding(fm)]);
                    lemma_delivered_twice(
                        n0,
                        n_before,
                        *notifier,
                        finding_events(before),
                        seq![EventModel::Finding(fm)],
                    );
                }
            },
            None => {},
        }
        i += 1;
    }
}

/// Runs a scan: every rule against every package, in the order of the
/// snapshot, then every rule against every running process. Each finding is
/// reported to the notifier when it is found; the stages are reported before
/// the findings that belong to them.
pub fn scan(rules: &RuleSet, artifacts: &DeviceArtifacts, notifier: &mut ScanNotifier) -> (out: Vec<
    Finding,
>)
    ensures
        finding_models(out@) == scan_findings(rules@.rules, artifacts@),
        delivered(*old(notifier), *final(notifier), scan_events(rules@.rules, artifacts@)),
{
    let ghost ms = rules@.rules;
    let ghost am = artifacts@;
    let ghost n0 = *notifier;
    let mut out: Vec<Finding> = Vec::new();
    notifier.on_progress(Stage::Packages, artifacts.packages.len());
    let ghost head = seq![
        EventModel::Progress { stage: Stage::Packages, detail: artifacts.packages.len() },
    ];
    let mut i: usize = 0;
    proof {
        assert(finding_models(out@) =~= package_findings(ms, am.packages, 0));
        assert(head + finding_events(package_findings(ms, am.packages, 0)) =~= head);
    }
    while i < artifacts.packages.len()
        invariant
            i <= artifacts.packages.len(),
            ms == rules@.rules,
            am == artifacts@,
            head == seq![
                EventModel::Progress { stage: Stage::Packages, detail: artifacts.packages.len() },
            ],
            finding_models(out@) == package_findings(ms, am.packages, i as int),
            delivered(
                n0,
                *notifier,
                head + finding_events(package_findings(ms, am.packages, i as int)),
            ),
        decreases artifacts.packages.len() - i,
    {
        let ghost before = package_findings(ms, am.packages, i as int);
        let ghost n_before = *notifier;
        let subject = Subject::Package(&artifacts.packages[i]);
        scan_subject(rules.rules(), &subject, &mut out, notifier);
        proof {
            let step = subject_findings(ms, subject@, ms.len() as int);
            assert(subject@ == SubjectModel::Package(am.packages[i as int]));
            lemma_delivered_twice(
                n0,
                n_before,
                *notifier,
                head + finding_events(before),
                finding_events(step),
            );
            assert(head + finding_events(before) + finding_events(step) =~= head
                + finding_events(before + step));
        }
        i += 1;
    }
    let ghost on_packages = package_findings(ms, am.packages, am.packages.len() as int);
    let ghost n1 = *notifier;
    notifier.on_progress(Stage::Processes, artifacts.processes.len());
    let ghost mid = head + finding_events(on_packages) + seq![
        EventModel::Progress { stage: Stage::Processes, detail: artifacts.processes.len() },
    ];
    let mut j: usize = 0;
    proof {
        lemma_delivered_twice(
            n0,
            n1,
            *notifier,
            head + finding_events(on_packages),
            seq![
                EventModel::Progress { stage: Stage::Processes, detail: artifacts.processes.len() },
            ],
        );
        assert(finding_models(out@) =~= on_packages + process_findings(ms, am.processes, 0));
        assert(mid + finding_events(process_findings(ms, am.processes, 0)) =~= mid);
    }
    while j < artifacts.processes.len()
        invariant
            j <= artifacts.processes.len(),
            ms == rules@.rules,
            am == artifacts@,
            finding_models(out@) == on_packages + process_findings(ms, am.processes, j as int),
            delivered(
                n0,
                *notifier,
                mid + finding_events(process_findings(ms, am.processes, j as int)),
            ),
        decreases artifacts.processes.len() - j,
    {
        let ghost before = process_findings(ms, am.processes, j as int);
        let ghost n_before = *notifier;
        let subject = Subject::Process(&artifacts.processes[j]);
        scan_subject(rules.rules(), &subject, &mut out, notifier);
        proof {
            let step = subject_findings(ms, subject@, ms.len() as int);
            assert(subject@ == SubjectModel::Process(am.processes[j as int]));
            lemma_delivered_twice(
                n0,
                n_before,
                *notifier,
                mid + finding_events(before),
                finding_events(step),
            );
            assert(mid + finding_events(before) + finding_events(step) =~= mid + finding_events(
                before + step,
            ));
            assert(on_packages + before + step =~= on_packages + (before + step));
        }
        j += 1;
    }
    let ghost on_processes = process_findings(ms, am.processes, am.processes.len() as int);
    let ghost n2 = *notifier;
    notifier.on_progress(Stage::Done, out.len());
    proof {
        assert(out@.len() == finding_models(out@).len());
        lemma_delivered_twice(
            n0,
            n2,
            *notifier,
            mid + finding_events(on_processes),
            seq![EventModel::Progress { stage: Stage::Done, detail: out.len() }],
        );
    }
    out
}

/// Without rules no subject gives a finding.
pub proof fn lemma_no_rules_no_findings(rules: Seq<RuleModel>, a: ArtifactsModel)
    requires
        rules.len() == 0,
    ensures
        scan_findings(rules, a) == Seq::<FindingModel>::empty(),
{
    lemma_no_rules_packages(rules, a.packages, a.packages.len() as int);
    lemma_no_rules_processes(rules, a.processes, a.processes.len() as int);
    assert(scan_findings(rules, a) =~= Seq::<FindingModel>::empty());
}

proof fn lemma_no_rules_packages(rules: Seq<RuleModel>, pkgs: Seq<PackageModel>, n: int)
    requires
        rules.len() == 0,
    ensures
        package_findings(rules, pkgs, n) == Seq::<FindingModel>::empty(),
    decreases n,
{
    if n > 0 {
        lemma_no_rules_packages(rules, pkgs, n - 1);
        assert(package_findings(rules, pkgs, n) =~= Seq::<FindingModel>::empty());
    }
}

proof fn lemma_no_rules_processes(rules: Seq<RuleModel>, procs: Seq<Seq<u8>>, n: int)
    requires
        rules.len() == 0,
    ensures
        process_findings(rules, procs, n) == Seq::<FindingModel>::empty(),
    decreases n,
{
    if n > 0 {
        lemma_no_rules_processes(rules, procs, n - 1);
        assert(process_findings(rules, procs, n) =~= Seq::<FindingModel>::empty());
    }
}

/// A snapshot without packages and without processes gives no finding,
/// whatever the rules.
pub proof fn lemma_empty_snapshot_no_findings(rules: Seq<RuleModel>, a: ArtifactsModel)
    requires
        a.packages.len() == 0,
        a.processes.len() == 0,
    ensures
        scan_findings(rules, a) == Seq::<FindingModel>::empty(),
{
    assert(scan_findings(rules, a) =~= Seq::<FindingModel>::empty());
}

/// A rule whose only predicate asks for one exact package identifier matches
/// the packages with that identifier and no others.
pub proof fn lemma_exact_rule(rule: RuleModel, id: Seq<u8>, pkg: PackageModel)
    requires
        rule.predicates == seq![PredicateModel::PackageExact(id)],
    ensures
        rule_matches(rule, SubjectModel::Package(pkg)) <==> pkg.id == id,
{
    if pkg.id == id {
        assert(predicate_hits(rule.predicates[0], SubjectModel::Package(pkg)));
    }
}

/// A rule that holds a pattern made of a literal prefix and a final wildcard
/// matches every package whose identifier begins with the prefix.
pub proof fn lemma_prefix_rule(rule: RuleModel, k: int, prefix: Seq<u8>, pkg: PackageModel)
    requires
        0 <= k < rule.predicates.len(),
        rule.predicates[k] == PredicateModel::PackagePattern(prefix.push(crate::glob::STAR)),
        forall|x: int| 0 <= x < prefix.len() ==> prefix[x] != crate::glob::STAR,
        prefix.len() <= pkg.id.len(),
        pkg.id.subrange(0, prefix.len() as int) == prefix,
    ensures
        rule_matches(rule, SubjectModel::Package(pkg)),
{
    crate::glob::lemma_prefix_wildcard(prefix, pkg.id);
    assert(predicate_hits(rule.predicates[k], SubjectModel::Package(pkg)));
}

/// A rule whose only predicate asks for all of a set of permissions does not
/// match a package that lacks one of them.
pub proof fn lemma_missing_permission(
    rule: RuleModel,
    required: Seq<Seq<u8>>,
    k: int,
    pkg: PackageModel,
)
    requires
        rule.predicates == seq![PredicateModel::PermissionsAll(required)],
        0 <= k < required.len(),
        !has_member(pkg.permissions, required[k]),
    ensures
        !rule_matches(rule, SubjectModel::Package(pkg)),
{
}

/// A rule gives a finding on a subject exactly when it matches it.
pub proof fn lemma_finding_iff_match(rule: RuleModel, s: SubjectModel)
    ensures
        rule_finding(rule, s) is Some <==> rule_matches(rule, s),
{
    lemma_first_hit(rule.predicates, s, 0);
}

/// `f` is one of `fs`.
pub open spec fn reported(fs: Seq<FindingModel>, f: FindingModel) -> bool {
    exists|x: int| 0 <= x < fs.len() && fs[x] == f
}

proof fn lemma_reported_in_sum(a: Seq<FindingModel>, b: Seq<FindingModel>, f: FindingModel)
    ensures
        reported(a + b, f) <==> reported(a, f) || reported(b, f),
{
    if reported(a, f) {
        let x = choose|x: int| 0 <= x < a.len() && a[x] == f;
        assert((a + b)[x] == f);
    }
    if reported(b, f) {
        let x = choose|x: int| 0 <= x < b.len() && b[x] == f;
        assert((a + b)[a.len() + x] == f);
    }
    if reported(a + b, f) {
        let x = choose|x: int| 0 <= x < (a + b).len() && (a + b)[x] == f;
        if x < a.len() {
            assert(a[x] == f);
        } else {
            assert(b[x - a.len()] == f);
        }
    }
}

/// Among the findings of the first `n` rules on a subject are exactly the
/// findings of those rules that match it.
pub proof fn lemma_subject_findings(
    rules: Seq<RuleModel>,
    s: SubjectModel,
    n: int,
    f: FindingModel,
)
    requires
        0 <= n <= rules.len(),
    ensures
        reported(subject_findings(rules, s, n), f) <==> exists|k: int|
            0 <= k < n && rule_finding(#[trigger] rules[k], s) == Some(f),
    decreases n,
{
    if n > 0 {
        lemma_subject_findings(rules, s, n - 1, f);
        let before = subject_findings(rules, s, n - 1);
        let now = subject_findings(rules, s, n);
        match rule_finding(rules[n - 1], s) {
            Some(g) => {
                assert(now =~= before + seq![g]);
                lemma_reported_in_sum(before, seq![g], f);
                if g == f {
                    assert(seq![g][0] == f);
                }
            },
            None => {},
        }
        if exists|k: int| 0 <= k < n && rule_finding(#[trigger] rules[k], s) == Some(f) {
            let k = choose|k: int| 0 <= k < n && rule_finding(#[trigger] rules[k], s) == Some(f);
            if k < n - 1 {
                assert(reported(before, f));
            }
        }
    }
}

/// A scan reports a finding exactly when it is the finding of some rule on
/// some package or on some running process of the snapshot: every match is
/// reported, also several on one subject, and nothing else is.
pub proof fn lemma_scan_reports_matches(rules: Seq<RuleModel>, a: ArtifactsModel, f: FindingModel)
    ensures
        reported(scan_findings(rules, a), f) <==> (exists|i: int, k: int|
            0 <= i < a.packages.len() && 0 <= k < rules.len() && rule_finding(
                #[trigger] rules[k],
                SubjectModel::Package(#[trigger] a.packages[i]),
            ) == Some(f)) || (exists|j: int, k: int|
            0 <= j < a.processes.len() && 0 <= k < rules.len() && rule_finding(
                #[trigger] rules[k],
                SubjectModel::Process(#[trigger] a.processes[j]),
            ) == Some(f)),
{
    lemma_package_findings(rules, a.packages, a.packages.len() as int, f);
    lemma_process_findings(rules, a.processes, a.processes.len() as int, f);
    lemma_reported_in_sum(
        package_findings(rules, a.packages, a.packages.len() as int),
        process_findings(rules, a.processes, a.processes.len() as int),
        f,
    );
}

proof fn lemma_package_findings(
    rules: Seq<RuleModel>,
    pkgs: Seq<PackageModel>,
    n: int,
    f: FindingModel,
)
    requires
        0 <= n <= pkgs.len(),
    ensures
        reported(package_findings(rules, pkgs, n), f) <==> exists|i: int, k: int|
            0 <= i < n && 0 <= k < rules.len() && rule_finding(
                #[trigger] rules[k],
                SubjectModel::Package(#[trigger] pkgs[i]),
            ) == Some(f),
    decreases n,
{
    if n > 0 {
        lemma_package_findings(rules, pkgs, n - 1, f);
        let s = SubjectModel::Package(pkgs[n - 1]);
        lemma_subject_findings(rules, s, rules.len() as int, f);
        lemma_reported_in_sum(
            package_findings(rules, pkgs, n - 1),
            subject_findings(rules, s, rules.len() as int),
            f,
        );
        if exists|i: int, k: int|
            0 <= i < n && 0 <= k < rules.len() && rule_finding(
                #[trigger] rules[k],
                SubjectModel::Package(#[trigger] pkgs[i]),
            ) == Some(f) {
            let (i, k) = choose|i: int, k: int|
                0 <= i < n && 0 <= k < rules.len() && rule_finding(
                    #[trigger] rules[k],
                    SubjectModel::Package(#[trigger] pkgs[i]),
                ) == Some(f);
            if i < n - 1 {
                assert(reported(package_findings(rules, pkgs, n - 1), f));
            } else {
                assert(rule_finding(rules[k], s) == Some(f));
            }
        }
        if reported(subject_findings(rules, s, rules.len() as int), f) {
            let k = choose|k: int|
                0 <= k < rules.len() && rule_finding(#[trigger] rules[k], s) == Some(f);
            assert(rule_finding(rules[k], SubjectModel::Package(pkgs[n - 1])) == Some(f));
        }
    }
}

proof fn lemma_process_findings(
    rules: Seq<RuleModel>,
    procs: Seq<Seq<u8>>,
    n: int,
    f: FindingModel,
)
    requires
        0 <= n <= procs.len(),
    ensures
        reported(process_findings(rules, procs, n), f) <==> exists|j: int, k: int|
            0 <= j < n && 0 <= k < rules.len() && rule_finding(
                #[trigger] rules[k],
                SubjectModel::Process(#[trigger] procs[j]),
            ) == Some(f),
    decreases n,
{
    if n > 0 {
        lemma_process_findings(rules, procs, n - 1, f);
        let s = SubjectModel::Process(procs[n - 1]);
        lemma_subject_findings(rules, s, rules.len() as int, f);
        lemma_reported_in_sum(
            process_findings(rules, procs, n - 1),
            subject_findings(rules, s, rules.len() as int),
            f,
        );
        if exists|j: int, k: int|
            0 <= j < n && 0 <= k < rules.len() && rule_finding(
                #[trigger] rules[k],
                SubjectModel::Process(#[trigger] procs[j]),
            ) == Some(f) {
            let (j, k) = choose|j: int, k: int|
                0 <= j < n && 0 <= k < rules.len() && rule_finding(
                    #[trigger] rules[k],
                    SubjectModel::Process(#[trigger] procs[j]),
                ) == Some(f);
            if j < n - 1 {
                assert(reported(process_findings(rules, procs, n - 1), f));
            } else {
                assert(rule_finding(rules[k], s) == Some(f));
            }
        }
        if reported(subject_findings(rules, s, rules.len() as int), f) {
            let k = choose|k: int|
                0 <= k < rules.len() && rule_finding(#[trigger] rules[k], s) == Some(f);
            assert(rule_finding(rules[k], SubjectModel::Process(procs[n - 1])) == Some(f));
        }
    }
}

} // verus!
