//! The rule model: severities, match predicates, rules and rule sets.

use vstd::prelude::*;

verus! {

/// How grave a match of a rule is.
#[derive(Clone, Copy, Debug, PartialEq, Eq, Structural)]
pub enum Severity {
    Info,
    Warning,
    Critical,
}

/// One way in which a rule can recognise unwanted software.
#[derive(Clone, Debug)]
pub enum Predicate {
    /// The package identifier equals the given one, byte for byte.
    PackageExact(Vec<u8>),
    /// The package identifier matches the given pattern.
    PackagePattern(Vec<u8>),
    /// The package holds every listed permission.
    PermissionsAll(Vec<Vec<u8>>),
    /// The package holds at least one listed permission.
    PermissionsAny(Vec<Vec<u8>>),
    /// The package label contains the given text, whatever its case.
    LabelContains(Vec<u8>),
    /// A running process has the given name.
    ProcessName(Vec<u8>),
}

/// A predicate as the contracts see it.
pub enum PredicateModel {
    PackageExact(Seq<u8>),
    PackagePattern(Seq<u8>),
    PermissionsAll(Seq<Seq<u8>>),
    PermissionsAny(Seq<Seq<u8>>),
    LabelContains(Seq<u8>),
    ProcessName(Seq<u8>),
}

impl View for Predicate {
    type V = PredicateModel;

    open spec fn view(&self) -> PredicateModel {
        match *self {
            Predicate::PackageExact(id) => PredicateModel::PackageExact(id@),
            Predicate::PackagePattern(p) => PredicateModel::PackagePattern(p@),
            Predicate::PermissionsAll(l) => PredicateModel::PermissionsAll(
                crate::text::views(l@),
            ),
            Predicate::PermissionsAny(l) => PredicateModel::PermissionsAny(
                crate::text::views(l@),
            ),
            Predicate::LabelContains(s) => PredicateModel::LabelContains(s@),
            Predicate::ProcessName(n) => PredicateModel::ProcessName(n@),
        }
    }
}

/// One signature: an identifier, a description, a severity and the
/// alternative predicates of which any one makes the rule match.
#[derive(Clone, Debug)]
pub struct Rule {
    pub id: Vec<u8>,
    pub description: Vec<u8>,
    pub severity: Severity,
    pub predicates: Vec<Predicate>,
}

/// A rule as the contracts see it.
pub struct RuleModel {
    pub id: Seq<u8>,
    pub description: Seq<u8>,
    pub severity: Severity,
    pub predicates: Seq<PredicateModel>,
}

/// The predicates of a list as the contracts see them, in order.
pub open spec fn predicate_models(v: Seq<Predicate>) -> Seq<PredicateModel> {
    v.map_values(|p: Predicate| p@)
}

impl View for Rule {
    type V = RuleModel;

    open spec fn view(&self) -> RuleModel {
        RuleModel {
            id: self.id@,
            description: self.description@,
            severity: self.severity,
            predicates: predicate_models(self.predicates@),
        }
    }
}

/// The rules of a list as the contracts see them, in order.
pub open spec fn rule_models(v: Seq<Rule>) -> Seq<RuleModel> {
    v.map_values(|r: Rule| r@)
}

/// The rules of one document, in the order in which the document lists them,
/// with the fingerprint of the bytes they were read from. A rule set is made
/// once and not changed afterwards: its rules have distinct identifiers and at
/// least one predicate each.
#[derive(Debug)]
pub struct RuleSet {
    rules: Vec<Rule>,
    fingerprint: Vec<u8>,
}

/// A rule set as the contracts see it.
pub struct RuleSetModel {
    pub rules: Seq<RuleModel>,
    pub fingerprint: Seq<u8>,
}

impl View for RuleSet {
    type V = RuleSetModel;

    closed spec fn view(&self) -> RuleSetModel {
        RuleSetModel { rules: rule_models(self.rules@), fingerprint: self.fingerprint@ }
    }
}

/// Why a rule document was refused.
#[derive(Clone, Copy, Debug, PartialEq, Eq, Structural)]
pub enum RuleParseError {
    /// A line begins with a word that names no field.
    UnknownField { line: usize },
    /// A field stands before the first rule header.
    FieldOutsideRule { line: usize },
    /// A rule header names no known severity.
    BadSeverity { line: usize },
    /// A rule header gives no identifier.
    MissingIdentifier { line: usize },
    /// A package pattern is not well formed.
    InvalidPattern { line: usize },
    /// A rule has no predicate at all.
    NoPredicates { rule: usize },
    /// A rule repeats the identifier of an earlier rule.
    DuplicateIdentifier { rule: usize },
}

/// No two rules share an identifier.
pub open spec fn distinct_ids(rules: Seq<RuleModel>) -> bool {
    forall|i: int, j: int| 0 <= i < j < rules.len() ==> rules[i].id != rules[j].id
}

/// Every rule has at least one predicate.
pub open spec fn all_have_predicates(rules: Seq<RuleModel>) -> bool {
    forall|i: int| 0 <= i < rules.len() ==> (#[trigger] rules[i]).predicates.len() > 0
}

/// An earlier rule than the one at `k` has the same identifier.
pub open spec fn repeats_earlier(rules: Seq<RuleModel>, k: int) -> bool {
    exists|j: int| 0 <= j < k && rules[j].id == rules[k].id
}

/// What is wrong with the rule at `k`, if anything.
pub open spec fn rule_fault(rules: Seq<RuleModel>, k: int) -> Option<RuleParseError> {
    if rules[k].predicates.len() == 0 {
        Some(RuleParseError::NoPredicates { rule: k as usize })
    } else if repeats_earlier(rules, k) {
        Some(RuleParseError::DuplicateIdentifier { rule: k as usize })
    } else {
        None
    }
}

/// The fault of the first faulty rule among the first `n`.
pub open spec fn first_fault(rules: Seq<RuleModel>, n: int) -> Option<RuleParseError>
    decreases n,
{
    if n <= 0 {
        None
    } else {
        match first_fault(rules, n - 1) {
            Some(e) => Some(e),
            None => rule_fault(rules, n - 1),
        }
    }
}

/// The rules are free of faults exactly when their identifiers are distinct
/// and each has a predicate.
pub proof fn lemma_faultless(rules: Seq<RuleModel>, n: int)
    requires
        0 <= n <= rules.len(),
    ensures
        first_fault(rules, n) is None <==> distinct_ids(rules.take(n)) && all_have_predicates(
            rules.take(n),
        ),
    decreases n,
{
    if n > 0 {
        lemma_faultless(rules, n - 1);
        let a = rules.take(n - 1);
        let b = rules.take(n);
        assert(forall|i: int| 0 <= i < n - 1 ==> a[i] == b[i]);
        if first_fault(rules, n) is None {
            assert(!repeats_earlier(rules, n - 1));
            assert forall|i: int, j: int| 0 <= i < j < b.len() implies b[i].id != b[j].id by {
                if j < n - 1 {
                    assert(a[i].id != a[j].id);
                }
            }
            assert forall|i: int| 0 <= i < b.len() implies (#[trigger] b[i]).predicates.len()
                > 0 by {
                if i < n - 1 {
                    assert(a[i].predicates.len() > 0);
                }
            }
        }
        if distinct_ids(b) && all_have_predicates(b) {
            assert forall|i: int, j: int| 0 <= i < j < a.len() implies a[i].id != a[j].id by {
                assert(b[i].id != b[j].id);
            }
            assert forall|i: int| 0 <= i < a.len() implies (#[trigger] a[i]).predicates.len()
                > 0 by {
                assert(b[i].predicates.len() > 0);
            }
            assert(b[n - 1].predicates.len() > 0);
            if repeats_earlier(rules, n - 1) {
                let k = n - 1;
                let j = choose|j: int| 0 <= j < k && rules[j].id == rules[k].id;
                assert(b[j].id != b[k].id);
            }
        }
    } else {
        assert(rules.take(0).len() == 0);
    }
}

/// Looks for the first rule that has no predicate or repeats an identifier.
pub fn check_rules(rules: &Vec<Rule>) -> (r: Result<(), RuleParseError>)
    ensures
        r is Ok <==> first_fault(rule_models(rules@), rules.len() as int) is None,
        r is Err ==> first_fault(rule_models(rules@), rules.len() as int) == Some(r->Err_0),
        r is Ok <==> distinct_ids(rule_models(rules@)) && all_have_predicates(
            rule_models(rules@),
        ),
{
    let ghost ms = rule_models(rules@);
    let mut k: usize = 0;
    while k < rules.len()
        invariant
            k <= rules.len(),
            ms == rule_models(rules@),
            first_fault(ms, k as int) is None,
        decreases rules.len() - k,
    {
        proof {
            lemma_faultless(ms, rules.len() as int);
            assert(ms.take(rules.len() as int) =~= ms);
        }
        if rules[k].predicates.len() == 0 {
            proof {
                lemma_fault_stays(ms, k + 1, rules.len() as int);
            }
            return Err(RuleParseError::NoPredicates { rule: k });
        }
        assert(ms[k as int].predicates.len() > 0);
        let mut j: usize = 0;
        while j < k
            invariant
                j <= k < rules.len(),
                ms[k as int].predicates.len() > 0,
                first_fault(ms, k as int) is None,
                ms == rule_models(rules@),
                forall|x: int| 0 <= x < j ==> ms[x].id != ms[k as int].id,
            decreases k - j,
        {
            if crate::text::bytes_eq(&rules[j].id, &rules[k].id) {
                proof {
                    assert(ms[j as int].id == ms[k as int].id);
                    assert(repeats_earlier(ms, k as int));
                    lemma_fault_stays(ms, k + 1, rules.len() as int);
                }
                return Err(RuleParseError::DuplicateIdentifier { rule: k });
            }
            j += 1;
        }
        k += 1;
    }
    proof {
        lemma_faultless(ms, rules.len() as int);
        assert(ms.take(rules.len() as int) =~= ms);
    }
    Ok(())
}

/// Once a fault is found among the first `n` rules, it is the one reported
/// for every longer prefix.
pub proof fn lemma_fault_stays(rules: Seq<RuleModel>, n: int, m: int)
    requires
        0 <= n <= m,
        first_fault(rules, n) is Some,
    ensures
        first_fault(rules, m) == first_fault(rules, n),
    decreases m - n,
{
    if n < m {
        lemma_fault_stays(rules, n, m - 1);
    }
}

impl RuleSet {
    #[verifier::type_invariant]
    spec fn valid(&self) -> bool {
        distinct_ids(rule_models(self.rules@)) && all_have_predicates(rule_models(self.rules@))
    }

    /// Makes a rule set of the given rules, or names the first rule that has
    /// no predicate or repeats an identifier.
    pub fn new(rules: Vec<Rule>, fingerprint: Vec<u8>) -> (r: Result<RuleSet, RuleParseError>)
        ensures
            match first_fault(rule_models(rules@), rules.len() as int) {
                Some(e) => r == Err::<RuleSet, RuleParseError>(e),
                None => r is Ok && r->Ok_0@.rules == rule_models(rules@) && r->Ok_0@.fingerprint
                    == fingerprint@,
            },
            r is Ok <==> distinct_ids(rule_models(rules@)) && all_have_predicates(
                rule_models(rules@),
            ),
    {
        match check_rules(&rules) {
            Err(e) => Err(e),
            Ok(()) => Ok(RuleSet { rules, fingerprint }),
        }
    }

    /// The rules, in document order.
    pub fn rules(&self) -> (r: &Vec<Rule>)
        ensures
            rule_models(r@) == self@.rules,
            distinct_ids(self@.rules),
            all_have_predicates(self@.rules),
    {
        proof {
            use_type_invariant(self);
        }
        &self.rules
    }

    /// The fingerprint of the bytes that the rules were read from.
    pub fn fingerprint(&self) -> (r: &Vec<u8>)
        ensures
            r@ == self@.fingerprint,
    {
        &self.fingerprint
    }
}

} // verus!
