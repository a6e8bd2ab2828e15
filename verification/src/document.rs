//! The rule document: a line-oriented text format.
//!
//! A document is a sequence of lines separated by line feeds. Empty lines and
//! lines that begin with `#` are skipped. Every other line is a field: a word,
//! one blank, and the field's text.
//!
//! ```text
//! rule critical stalker-1
//! description Example stalkerware family
//! package com.example.spy
//! pattern com.example.*
//! permissions android.permission.A,android.permission.B
//! any-permission android.permission.C,android.permission.D
//! label spy
//! process spyd
//! ```
//!
//! A `rule` line opens a rule with its severity (`info`, `warning` or
//! `critical`) and its identifier; the fields after it belong to that rule.

use crate::digest::{fingerprint, sha256_digest};
use crate::glob::{is_valid_pattern, valid_pattern};
use crate::rules::{
    all_have_predicates, distinct_ids, first_fault, lemma_faultless, rule_models, Predicate, PredicateModel, Rule, RuleModel, RuleParseError, RuleSet, Severity,
};
use crate::text::{bytes_eq, copy_range, find_first, first_at, split, split_spec, views};
use vstd::prelude::*;

verus! {

/// The byte that ends a line.
pub const LINE_FEED: u8 = 10;

/// The byte between a field's word and its text.
pub const BLANK: u8 = 32;

/// The byte that opens a comment line, `#`.
pub const HASH: u8 = 35;

/// The byte between the permissions of a list.
pub const COMMA: u8 = 44;

/// The words that open a field.
#[derive(Clone, Copy, Debug, PartialEq, Eq, Structural)]
pub enum Field {
    Rule,
    Description,
    Package,
    Pattern,
    Permissions,
    AnyPermission,
    Label,
    Process,
}

/// The field that a word names.
pub open spec fn field_of(word: Seq<u8>) -> Option<Field> {
    if word == seq![114u8, 117u8, 108u8, 101u8] {
        // `rule`
        Some(Field::Rule)
    } else if word == seq![100u8, 101u8, 115u8, 99u8, 114u8, 105u8, 112u8, 116u8, 105u8, 111u8, 110u8] {
        // `description`
        Some(Field::Description)
    } else if word == seq![112u8, 97u8, 99u8, 107u8, 97u8, 103u8, 101u8] {
        // `package`
        Some(Field::Package)
    } else if word == seq![112u8, 97u8, 116u8, 116u8, 101u8, 114u8, 110u8] {
        // `pattern`
        Some(Field::Pattern)
    } else if word == seq![112u8, 101u8, 114u8, 109u8, 105u8, 115u8, 115u8, 105u8, 111u8, 110u8, 115u8] {
        // `permissions`
        Some(Field::Permissions)
    } else if word == seq![97u8, 110u8, 121u8, 45u8, 112u8, 101u8, 114u8, 109u8, 105u8, 115u8, 115u8, 105u8, 111u8, 110u8] {
        // `any-permission`
        Some(Field::AnyPermission)
    } else if word == seq![108u8, 97u8, 98u8, 101u8, 108u8] {
        // `label`
        Some(Field::Label)
    } else if word == seq![112u8, 114u8, 111u8, 99u8, 101u8, 115u8, 115u8] {
        // `process`
        Some(Field::Process)
    } else {
        None
    }
}

/// The severity that a word names.
pub open spec fn severity_of(word: Seq<u8>) -> Option<Severity> {
    if word == seq![105u8, 110u8, 102u8, 111u8] {
        // `info`
        Some(Severity::Info)
    } else if word == seq![119u8, 97u8, 114u8, 110u8, 105u8, 110u8, 103u8] {
        // `warning`
        Some(Severity::Warning)
    } else if word == seq![99u8, 114u8, 105u8, 116u8, 105u8, 99u8, 97u8, 108u8] {
        // `critical`
        Some(Severity::Critical)
    } else {
        None
    }
}

/// Reads the word that opens a field.
pub fn read_field(word: &Vec<u8>) -> (r: Option<Field>)
    ensures
        r == field_of(word@),
{
    if bytes_eq(word, &vec![114u8, 117u8, 108u8, 101u8]) {
        Some(Field::Rule)
    } else if bytes_eq(word, &vec![100u8, 101u8, 115u8, 99u8, 114u8, 105u8, 112u8, 116u8, 105u8, 111u8, 110u8]) {
        Some(Field::Description)
    } else if bytes_eq(word, &vec![112u8, 97u8, 99u8, 107u8, 97u8, 103u8, 101u8]) {
        Some(Field::Package)
    } else if bytes_eq(word, &vec![112u8, 97u8, 116u8, 116u8, 101u8, 114u8, 110u8]) {
        Some(Field::Pattern)
    } else if bytes_eq(word, &vec![112u8, 101u8, 114u8, 109u8, 105u8, 115u8, 115u8, 105u8, 111u8, 110u8, 115u8]) {
        Some(Field::Permissions)
    } else if bytes_eq(word, &vec![97u8, 110u8, 121u8, 45u8, 112u8, 101u8, 114u8, 109u8, 105u8, 115u8, 115u8, 105u8, 111u8, 110u8]) {
        Some(Field::AnyPermission)
    } else if bytes_eq(word, &vec![108u8, 97u8, 98u8, 101u8, 108u8]) {
        Some(Field::Label)
    } else if bytes_eq(word, &vec![112u8, 114u8, 111u8, 99u8, 101u8, 115u8, 115u8]) {
        Some(Field::Process)
    } else {
        None
    }
}

/// Reads the severity of a rule header.
pub fn read_severity(word: &Vec<u8>) -> (r: Option<Severity>)
    ensures
        r == severity_of(word@),
{
    if bytes_eq(word, &vec![105u8, 110u8, 102u8, 111u8]) {
        Some(Severity::Info)
    } else if bytes_eq(word, &vec![119u8, 97u8, 114u8, 110u8, 105u8, 110u8, 103u8]) {
        Some(Severity::Warning)
    } else if bytes_eq(word, &vec![99u8, 114u8, 105u8, 116u8, 105u8, 99u8, 97u8, 108u8]) {
        Some(Severity::Critical)
    } else {
        None
    }
}

/// The word that opens a line: what stands before its first blank.
pub open spec fn head_word(line: Seq<u8>) -> Seq<u8> {
    line.subrange(0, first_at(line, BLANK, 0))
}

/// What follows the first blank of a line; empty where there is no blank.
pub open spec fn tail_text(line: Seq<u8>) -> Seq<u8> {
    let k = first_at(line, BLANK, 0);
    if k < line.len() {
        line.subrange(k + 1, line.len() as int)
    } else {
        Seq::empty()
    }
}

/// Cuts a line at its first blank.
pub fn cut(line: &Vec<u8>) -> (r: (Vec<u8>, Vec<u8>))
    ensures
        r.0@ == head_word(line@),
        r.1@ == tail_text(line@),
{
    let k = find_first(line, BLANK);
    let head = copy_range(line, 0, k);
    let tail = if k < line.len() {
        copy_range(line, k + 1, line.len())
    } else {
        Vec::new()
    };
    (head, tail)
}

/// A line that carries no field.
pub open spec fn is_skipped(line: Seq<u8>) -> bool {
    line.len() == 0 || line[0] == HASH
}

/// The rules with one more predicate on the last of them.
pub open spec fn with_predicate(rules: Seq<RuleModel>, p: PredicateModel) -> Seq<RuleModel> {
    let last = rules.last();
    rules.drop_last().push(RuleModel { predicates: last.predicates.push(p), ..last })
}

/// The rules with the description of the last of them replaced.
pub open spec fn with_description(rules: Seq<RuleModel>, text: Seq<u8>) -> Seq<RuleModel> {
    let last = rules.last();
    rules.drop_last().push(RuleModel { description: text, ..last })
}

/// The predicate that a field other than `rule` and `description` states.
pub open spec fn predicate_of(f: Field, text: Seq<u8>) -> PredicateModel {
    match f {
        Field::Pattern => PredicateModel::PackagePattern(text),
        Field::Permissions => PredicateModel::PermissionsAll(split_spec(text, COMMA)),
        Field::AnyPermission => PredicateModel::PermissionsAny(split_spec(text, COMMA)),
        Field::Label => PredicateModel::LabelContains(text),
        Field::Process => PredicateModel::ProcessName(text),
        _ => PredicateModel::PackageExact(text),
    }
}

/// What one line does to the rules read so far; `index` is the line's position.
pub open spec fn step(rules: Seq<RuleModel>, line: Seq<u8>, index: usize) -> Result<
    Seq<RuleModel>,
    RuleParseError,
> {
    let text = tail_text(line);
    if is_skipped(line) {
        Ok(rules)
    } else {
        match field_of(head_word(line)) {
            None => Err(RuleParseError::UnknownField { line: index }),
            Some(Field::Rule) => match severity_of(head_word(text)) {
                None => Err(RuleParseError::BadSeverity { line: index }),
                Some(severity) => if tail_text(text).len() == 0 {
                    Err(RuleParseError::MissingIdentifier { line: index })
                } else {
                    Ok(
                        rules.push(
                            RuleModel {
                                id: tail_text(text),
                                description: Seq::empty(),
                                severity,
                                predicates: Seq::empty(),
                            },
                        ),
                    )
                },
            },
            Some(f) => if rules.len() == 0 {
                Err(RuleParseError::FieldOutsideRule { line: index })
            } else if f == Field::Description {
                Ok(with_description(rules, text))
            } else if f == Field::Pattern && !valid_pattern(text) {
                Err(RuleParseError::InvalidPattern { line: index })
            } else {
                Ok(with_predicate(rules, predicate_of(f, text)))
            },
        }
    }
}

/// The rules that the first `n` lines state, or the first error among them.
pub open spec fn read_lines(lines: Seq<Seq<u8>>, n: int) -> Result<Seq<RuleModel>, RuleParseError>
    decreases n,
{
    if n <= 0 {
        Ok(Seq::empty())
    } else {
        match read_lines(lines, n - 1) {
            Err(e) => Err(e),
            Ok(rules) => step(rules, lines[n - 1], (n - 1) as usize),
        }
    }
}

/// The rules of a document: its lines are read in order, then the rules are
/// checked for missing predicates and repeated identifiers.
pub open spec fn parse_rules(doc: Seq<u8>) -> Result<Seq<RuleModel>, RuleParseError> {
    let lines = split_spec(doc, LINE_FEED);
    match read_lines(lines, lines.len() as int) {
        Err(e) => Err(e),
        Ok(rules) => match first_fault(rules, rules.len() as int) {
            Some(e) => Err(e),
            None => Ok(rules),
        },
    }
}

/// `r` is what parsing `doc` gives: the rules of the document with the
/// fingerprint of its bytes, or the document's first error.
pub open spec fn is_parse_of(doc: Seq<u8>, r: Result<RuleSet, RuleParseError>) -> bool {
    match parse_rules(doc) {
        Ok(rules) => r is Ok && r->Ok_0@.rules == rules && r->Ok_0@.fingerprint == sha256_digest(
            doc,
        ),
        Err(e) => r == Err::<RuleSet, RuleParseError>(e),
    }
}

fn make_predicate(f: Field, text: Vec<u8>) -> (p: Predicate)
    ensures
        p@ == predicate_of(f, text@),
{
    match f {
        Field::Pattern => Predicate::PackagePattern(text),
        Field::Permissions => Predicate::PermissionsAll(split(&text, COMMA)),
        Field::AnyPermission => Predicate::PermissionsAny(split(&text, COMMA)),
        Field::Label => Predicate::LabelContains(text),
        Field::Process => Predicate::ProcessName(text),
        _ => Predicate::PackageExact(text),
    }
}

/// Applies one line to the rules read so far.
pub fn apply_line(rules: &mut Vec<Rule>, line: &Vec<u8>, index: usize) -> (r: Result<
    (),
    RuleParseError,
>)
    ensures
        match step(rule_models(old(rules)@), line@, index) {
            Ok(ms) => r is Ok && rule_models(final(rules)@) == ms,
            Err(e) => r == Err::<(), RuleParseError>(e) && final(rules)@ == old(rules)@,
        },
{
    if line.len() == 0 || line[0] == HASH {
        return Ok(());
    }
    let (word, text) = cut(line);
    let ghost before = rule_models(rules@);
    match read_field(&word) {
        None => Err(RuleParseError::UnknownField { line: index }),
        Some(Field::Rule) => {
            let (level, id) = cut(&text);
            match read_severity(&level) {
                None => Err(RuleParseError::BadSeverity { line: index }),
                Some(severity) => {
                    if id.len() == 0 {
                        return Err(RuleParseError::MissingIdentifier { line: index });
                    }
                    let rule = Rule {
                        id,
                        description: Vec::new(),
                        severity,
                        predicates: Vec::new(),
                    };
                    let ghost rm = rule@;
                    rules.push(rule);
                    proof {
                        assert(rm.predicates =~= Seq::<PredicateModel>::empty());
                        assert(rule_models(rules@) =~= before.push(rm));
                    }
                    Ok(())
                },
            }
        },
        Some(f) => {
            if rules.len() == 0 {
                return Err(RuleParseError::FieldOutsideRule { line: index });
            }
            if f == Field::Description {
                let ghost old_rules = rules@;
                let mut last = rules.pop().unwrap();
                let ghost lm = last@;
                last.description = text;
                let ghost nm = last@;
                rules.push(last);
                proof {
                    assert(rule_models(rules@) =~= with_description(before, text@));
                }
                Ok(())
            } else if f == Field::Pattern && !is_valid_pattern(&text) {
                Err(RuleParseError::InvalidPattern { line: index })
            } else {
                let ghost tm = text@;
                let p = make_predicate(f, text);
                let ghost pm = p@;
                let mut last = rules.pop().unwrap();
                let ghost lm = last@;
                last.predicates.push(p);
                proof {
                    assert(last@.predicates =~= lm.predicates.push(pm));
                }
                rules.push(last);
                proof {
                    assert(rule_models(rules@) =~= with_predicate(before, pm));
                }
                Ok(())
            }
        },
    }
}

/// Reads the rules that a list of lines states, without the checks across rules.
pub fn read_rules(lines: &Vec<Vec<u8>>) -> (r: Result<Vec<Rule>, RuleParseError>)
    ensures
        match read_lines(views(lines@), lines.len() as int) {
            Ok(ms) => r is Ok && rule_models(r->Ok_0@) == ms,
            Err(e) => r == Err::<Vec<Rule>, RuleParseError>(e),
        },
{
    let mut rules: Vec<Rule> = Vec::new();
    let mut i: usize = 0;
    proof {
        assert(rule_models(rules@) =~= Seq::<RuleModel>::empty());
    }
    while i < lines.len()
        invariant
            i <= lines.len(),
            read_lines(views(lines@), i as int) == Ok::<Seq<RuleModel>, RuleParseError>(
                rule_models(rules@),
            ),
        decreases lines.len() - i,
    {
        match apply_line(&mut rules, &lines[i], i) {
            Ok(()) => {},
            Err(e) => {
                proof {
                    lemma_error_stays(views(lines@), i + 1, lines.len() as int);
                }
                return Err(e);
            },
        }
        i += 1;
    }
    Ok(rules)
}

/// An error among the first `n` lines is the error of every longer prefix.
pub proof fn lemma_error_stays(lines: Seq<Seq<u8>>, n: int, m: int)
    requires
        0 <= n <= m,
        read_lines(lines, n) is Err,
    ensures
        read_lines(lines, m) == read_lines(lines, n),
    decreases m - n,
{
    if n < m {
        lemma_error_stays(lines, n, m - 1);
    }
}

/// Parses a rule document. The result is a function of the bytes alone: the
/// rules in document order with the fingerprint of the bytes, or the first
/// error. A rule set that comes out has distinct identifiers and no rule
/// without predicates.
pub fn parse_document(doc: &Vec<u8>) -> (r: Result<RuleSet, RuleParseError>)
    ensures
        is_parse_of(doc@, r),
        r is Ok ==> distinct_ids(r->Ok_0@.rules) && all_have_predicates(r->Ok_0@.rules),
{
    let lines = split(doc, LINE_FEED);
    match read_rules(&lines) {
        Err(e) => Err(e),
        Ok(rules) => RuleSet::new(rules, fingerprint(doc)),
    }
}

/// Parsing is deterministic: two results of parsing the same bytes hold the
/// same rules in the same order and the same fingerprint, or the same error.
pub proof fn lemma_parse_deterministic(
    doc: Seq<u8>,
    a: Result<RuleSet, RuleParseError>,
    b: Result<RuleSet, RuleParseError>,
)
    requires
        is_parse_of(doc, a),
        is_parse_of(doc, b),
    ensures
        a is Ok <==> b is Ok,
        a is Ok ==> a->Ok_0@ == b->Ok_0@,
        a is Err ==> a->Err_0 == b->Err_0,
{
}

/// The identifier that a line gives to a new rule, where the line is a
/// well-formed rule header.
pub open spec fn header_id(line: Seq<u8>) -> Option<Seq<u8>> {
    let text = tail_text(line);
    if !is_skipped(line) && field_of(head_word(line)) == Some(Field::Rule) && severity_of(
        head_word(text),
    ) is Some && tail_text(text).len() > 0 {
        Some(tail_text(text))
    } else {
        None
    }
}

/// The identifiers that the rule headers among the first `n` lines give, in order.
pub open spec fn header_ids(lines: Seq<Seq<u8>>, n: int) -> Seq<Seq<u8>>
    decreases n,
{
    if n <= 0 {
        Seq::empty()
    } else {
        let before = header_ids(lines, n - 1);
        match header_id(lines[n - 1]) {
            Some(id) => before.push(id),
            None => before,
        }
    }
}

/// The identifiers of a list of rules, in order.
pub open spec fn rule_ids(rules: Seq<RuleModel>) -> Seq<Seq<u8>> {
    rules.map_values(|r: RuleModel| r.id)
}

proof fn lemma_step_ids(rules: Seq<RuleModel>, line: Seq<u8>, index: usize)
    requires
        step(rules, line, index) is Ok,
    ensures
        rule_ids(step(rules, line, index)->Ok_0) == match header_id(line) {
            Some(id) => rule_ids(rules).push(id),
            None => rule_ids(rules),
        },
{
    let after = step(rules, line, index)->Ok_0;
    match header_id(line) {
        Some(id) => {
            assert(rule_ids(after) =~= rule_ids(rules).push(id));
        },
        None => {
            assert(rule_ids(after) =~= rule_ids(rules));
        },
    }
}

/// The rules read from lines have the identifiers of the rule headers, in
/// the order of the lines.
pub proof fn lemma_read_ids(lines: Seq<Seq<u8>>, n: int)
    requires
        0 <= n <= lines.len(),
        read_lines(lines, n) is Ok,
    ensures
        rule_ids(read_lines(lines, n)->Ok_0) == header_ids(lines, n),
    decreases n,
{
    if n > 0 {
        lemma_read_ids(lines, n - 1);
        lemma_step_ids(read_lines(lines, n - 1)->Ok_0, lines[n - 1], (n - 1) as usize);
    } else {
        assert(rule_ids(read_lines(lines, n)->Ok_0) =~= header_ids(lines, n));
    }
}

proof fn lemma_header_ids_grow(lines: Seq<Seq<u8>>, n: int, m: int)
    requires
        0 <= n <= m,
    ensures
        header_ids(lines, n).len() <= header_ids(lines, m).len(),
        forall|a: int|
            0 <= a < header_ids(lines, n).len() ==> header_ids(lines, m)[a] == header_ids(
                lines,
                n,
            )[a],
    decreases m - n,
{
    if n < m {
        lemma_header_ids_grow(lines, n, m - 1);
    }
}

proof fn lemma_repeated_header(lines: Seq<Seq<u8>>, i: int, j: int) -> (at: (int, int))
    requires
        0 <= i < j < lines.len(),
        header_id(lines[i]) is Some,
        header_id(lines[i]) == header_id(lines[j]),
    ensures
        0 <= at.0 < at.1 < header_ids(lines, lines.len() as int).len(),
        header_ids(lines, lines.len() as int)[at.0] == header_ids(lines, lines.len() as int)[at.1],
{
    let a = header_ids(lines, i).len() as int;
    let b = header_ids(lines, j).len() as int;
    lemma_header_ids_grow(lines, i + 1, j);
    lemma_header_ids_grow(lines, i + 1, lines.len() as int);
    lemma_header_ids_grow(lines, j + 1, lines.len() as int);
    assert(header_ids(lines, i + 1)[a] == header_id(lines[i])->Some_0);
    assert(header_ids(lines, j + 1)[b] == header_id(lines[j])->Some_0);
    (a, b)
}

/// A document in which two rule headers give the same identifier is refused.
pub proof fn lemma_duplicates_refused(doc: Seq<u8>, i: int, j: int)
    requires
        0 <= i < j < split_spec(doc, LINE_FEED).len(),
        header_id(split_spec(doc, LINE_FEED)[i]) is Some,
        header_id(split_spec(doc, LINE_FEED)[i]) == header_id(split_spec(doc, LINE_FEED)[j]),
    ensures
        parse_rules(doc) is Err,
{
    let lines = split_spec(doc, LINE_FEED);
    if read_lines(lines, lines.len() as int) is Ok {
        let rules = read_lines(lines, lines.len() as int)->Ok_0;
        lemma_read_ids(lines, lines.len() as int);
        let (a, b) = lemma_repeated_header(lines, i, j);
        assert(rule_ids(rules)[a] == rules[a].id);
        assert(rule_ids(rules)[b] == rules[b].id);
        lemma_faultless(rules, rules.len() as int);
        assert(rules.take(rules.len() as int) =~= rules);
        assert(!distinct_ids(rules));
    }
}

/// The rules of a document that parses have distinct identifiers and at
/// least one predicate each.
pub proof fn lemma_parsed_rules_sound(doc: Seq<u8>)
    requires
        parse_rules(doc) is Ok,
    ensures
        distinct_ids(parse_rules(doc)->Ok_0),
        all_have_predicates(parse_rules(doc)->Ok_0),
{
    let rules = parse_rules(doc)->Ok_0;
    lemma_faultless(rules, rules.len() as int);
    assert(rules.take(rules.len() as int) =~= rules);
}

} // verus!
