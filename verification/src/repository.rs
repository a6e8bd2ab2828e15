//! The rule repository: which rule document a scan reads, what a download
//! does to the cache, and what is known of where the cached rules came from.
//!
//! The functions here decide; reading, fetching and writing are the caller's.
//! A caller fetches, asks for a plan, writes the planned bytes to a temporary
//! place, moves them over the cached document in one step, and then reports
//! whether that worked.

use crate::digest::{fingerprint, from_hex, hex, is_hex, lemma_hex_round_trip, sha256_digest, to_hex, unhex};
use crate::document::{parse_document, parse_rules, LINE_FEED};
use crate::rules::{RuleParseError, RuleSet};
use crate::text::{bytes_eq, copy_bytes, copy_range, find_first, first_at};
use vstd::prelude::*;

verus! {

/// What is recorded beside the cached rule document: the fingerprint of its
/// bytes and, where known, the upstream revision they were fetched at.
#[derive(Clone, Debug)]
pub struct RepositoryState {
    pub fingerprint: Vec<u8>,
    pub revision: Option<Vec<u8>>,
}

/// A recorded state as the contracts see it.
pub struct StateModel {
    pub fingerprint: Seq<u8>,
    pub revision: Option<Seq<u8>>,
}

/// The contents of an optional byte string.
pub open spec fn optional_bytes(o: Option<Vec<u8>>) -> Option<Seq<u8>> {
    match o {
        Some(v) => Some(v@),
        None => None,
    }
}

/// An optional recorded state as the contracts see it.
pub open spec fn optional_state(o: Option<RepositoryState>) -> Option<StateModel> {
    match o {
        Some(s) => Some(s@),
        None => None,
    }
}

impl View for RepositoryState {
    type V = StateModel;

    open spec fn view(&self) -> StateModel {
        StateModel { fingerprint: self.fingerprint@, revision: optional_bytes(self.revision) }
    }
}

/// Why the remote source gave no document.
#[derive(Clone, Copy, Debug, PartialEq, Eq, Structural)]
pub enum FetchError {
    Network,
    NotFound,
    Server,
}

/// What can go wrong in the repository.
#[derive(Clone, Copy, Debug, PartialEq, Eq, Structural)]
pub enum RepositoryError {
    /// Neither a path given by the user nor a cached document: download first.
    NoRulesAvailable,
    /// The remote source failed; a cached document is still good.
    Fetch(FetchError),
    /// The local cache could not be written.
    CacheIo,
    /// The rule document is malformed.
    Parse(RuleParseError),
}

/// What a download does to the cache.
#[derive(Clone, Debug)]
pub enum DownloadPlan {
    /// The fetched bytes are those already cached: nothing is written.
    Keep,
    /// The cached document is replaced by `bytes`, and `state` recorded.
    Replace { bytes: Vec<u8>, state: RepositoryState },
}

/// A plan as the contracts see it.
pub enum PlanModel {
    Keep,
    Replace { bytes: Seq<u8>, state: StateModel },
}

impl View for DownloadPlan {
    type V = PlanModel;

    open spec fn view(&self) -> PlanModel {
        match *self {
            DownloadPlan::Keep => PlanModel::Keep,
            DownloadPlan::Replace { bytes, state } => PlanModel::Replace {
                bytes: bytes@,
                state: state@,
            },
        }
    }
}

/// The plan for fetched bytes with the given digest: keep the cache where the
/// recorded fingerprint is that digest, replace it otherwise.
pub open spec fn plan_for(
    current: Option<StateModel>,
    bytes: Seq<u8>,
    digest: Seq<u8>,
    revision: Option<Seq<u8>>,
) -> PlanModel {
    if current is Some && current->Some_0.fingerprint == digest {
        PlanModel::Keep
    } else {
        PlanModel::Replace { bytes, state: StateModel { fingerprint: digest, revision } }
    }
}

/// The recorded state once a plan was carried out; `written` says whether the
/// replacement reached the cache.
pub open spec fn state_after(current: Option<StateModel>, plan: PlanModel, written: bool) -> Option<
    StateModel,
> {
    match plan {
        PlanModel::Keep => current,
        PlanModel::Replace { bytes, state } => if written {
            Some(state)
        } else {
            current
        },
    }
}

/// Chooses the document that a scan reads: the path the user gave, else the
/// cached document, else nothing.
pub fn current_rule_set_path(explicit: Option<String>, cached: Option<String>) -> (r: Result<
    String,
    RepositoryError,
>)
    ensures
        explicit is Some ==> r == Ok::<String, RepositoryError>(explicit->Some_0),
        explicit is None && cached is Some ==> r == Ok::<String, RepositoryError>(cached->Some_0),
        explicit is None && cached is None ==> r == Err::<String, RepositoryError>(
            RepositoryError::NoRulesAvailable,
        ),
{
    match explicit {
        Some(path) => Ok(path),
        None => match cached {
            Some(path) => Ok(path),
            None => Err(RepositoryError::NoRulesAvailable),
        },
    }
}

/// Decides what to do with fetched bytes whose digest is `digest`.
pub fn decide_download(
    current: &Option<RepositoryState>,
    bytes: Vec<u8>,
    digest: Vec<u8>,
    revision: Option<Vec<u8>>,
) -> (plan: DownloadPlan)
    ensures
        plan@ == plan_for(optional_state(*current), bytes@, digest@, optional_bytes(revision)),
{
    let same = match current {
        Some(state) => bytes_eq(&state.fingerprint, &digest),
        None => false,
    };
    if same {
        DownloadPlan::Keep
    } else {
        DownloadPlan::Replace { bytes, state: RepositoryState { fingerprint: digest, revision } }
    }
}

/// What a fetch that ended with the given status gave; `status` is none
/// where no answer came.
pub open spec fn fetch_result(status: Option<u16>, body: Seq<u8>) -> Result<Seq<u8>, FetchError> {
    match status {
        None => Err(FetchError::Network),
        Some(code) => if 200 <= code && code <= 299 {
            Ok(body)
        } else if code == 404 {
            Err(FetchError::NotFound)
        } else {
            Err(FetchError::Server)
        },
    }
}

/// Judges the answer of the remote source: a status of success gives the
/// body, a missing answer is a network failure, 404 is not found, and any
/// other status is the server's failure.
pub fn judge_fetch(status: Option<u16>, body: Vec<u8>) -> (r: Result<Vec<u8>, FetchError>)
    ensures
        match fetch_result(status, body@) {
            Ok(bytes) => r is Ok && r->Ok_0@ == bytes,
            Err(e) => r == Err::<Vec<u8>, FetchError>(e),
        },
{
    match status {
        None => Err(FetchError::Network),
        Some(code) => if 200 <= code && code <= 299 {
            Ok(body)
        } else if code == 404 {
            Err(FetchError::NotFound)
        } else {
            Err(FetchError::Server)
        },
    }
}

/// Turns the outcome of a fetch into a plan. A failed fetch is handed on as
/// an error and plans nothing; fetched bytes are fingerprinted and compared
/// with the recorded state.
pub fn plan_download(
    current: &Option<RepositoryState>,
    fetched: Result<Vec<u8>, FetchError>,
    revision: Option<Vec<u8>>,
) -> (r: Result<DownloadPlan, RepositoryError>)
    ensures
        match fetched {
            Err(e) => r == Err::<DownloadPlan, RepositoryError>(RepositoryError::Fetch(e)),
            Ok(bytes) => r is Ok && r->Ok_0@ == plan_for(
                optional_state(*current),
                bytes@,
                sha256_digest(bytes@),
                optional_bytes(revision),
            ),
        },
{
    match fetched {
        Err(e) => Err(RepositoryError::Fetch(e)),
        Ok(bytes) => {
            let digest = fingerprint(&bytes);
            Ok(decide_download(current, bytes, digest, revision))
        },
    }
}

/// The repository as a process sees it: the state recorded beside the cached
/// document, or none where nothing was ever downloaded.
#[derive(Clone, Debug)]
pub struct Repository {
    pub state: Option<RepositoryState>,
}

impl View for Repository {
    type V = Option<StateModel>;

    open spec fn view(&self) -> Option<StateModel> {
        optional_state(self.state)
    }
}

impl Repository {
    /// Opens the repository on what was found beside the cache. A cache that
    /// was never filled is no error: the state is then empty.
    pub fn init(saved: Option<RepositoryState>) -> (repo: Repository)
        ensures
            repo.state == saved,
    {
        Repository { state: saved }
    }

    /// Plans a download against the recorded state.
    pub fn download(&self, fetched: Result<Vec<u8>, FetchError>, revision: Option<Vec<u8>>) -> (r:
        Result<DownloadPlan, RepositoryError>)
        ensures
            match fetched {
                Err(e) => r == Err::<DownloadPlan, RepositoryError>(RepositoryError::Fetch(e)),
                Ok(bytes) => r is Ok && r->Ok_0@ == plan_for(
                    self@,
                    bytes@,
                    sha256_digest(bytes@),
                    optional_bytes(revision),
                ),
            },
    {
        plan_download(&self.state, fetched, revision)
    }

    /// Records how a plan ended. Only a replacement that reached the cache
    /// changes the state; one that did not is a cache error and leaves it.
    pub fn finish_download(&mut self, plan: DownloadPlan, written: bool) -> (r: Result<
        (),
        RepositoryError,
    >)
        ensures
            final(self)@ == state_after(old(self)@, plan@, written),
            plan is Replace && !written ==> r == Err::<(), RepositoryError>(
                RepositoryError::CacheIo,
            ),
            !(plan is Replace && !written) ==> r is Ok,
    {
        match plan {
            DownloadPlan::Keep => Ok(()),
            DownloadPlan::Replace { bytes, state } => {
                if written {
                    self.state = Some(state);
                    Ok(())
                } else {
                    Err(RepositoryError::CacheIo)
                }
            },
        }
    }

    /// The upstream revision that rules with the given fingerprint were
    /// downloaded at, where the recorded state knows it.
    pub fn provenance(&self, digest: &Vec<u8>) -> (r: Option<Vec<u8>>)
        ensures
            optional_bytes(r) == if self@ is Some && self@->Some_0.fingerprint == digest@ {
                self@->Some_0.revision
            } else {
                None
            },
    {
        match &self.state {
            Some(state) => {
                if bytes_eq(&state.fingerprint, digest) {
                    match &state.revision {
                        Some(rev) => Some(copy_bytes(rev)),
                        None => None,
                    }
                } else {
                    None
                }
            },
            None => None,
        }
    }

    /// Parses the bytes of a rule document and hands back the rule set with
    /// its fingerprint. Nothing is kept between calls.
    pub fn load_rule_set(bytes: &Vec<u8>) -> (r: Result<(RuleSet, Vec<u8>), RepositoryError>)
        ensures
            match parse_rules(bytes@) {
                Ok(rules) => r is Ok && r->Ok_0.0@.rules == rules && r->Ok_0.0@.fingerprint
                    == sha256_digest(bytes@) && r->Ok_0.1@ == sha256_digest(bytes@),
                Err(e) => r == Err::<(RuleSet, Vec<u8>), RepositoryError>(
                    RepositoryError::Parse(e),
                ),
            },
    {
        match parse_document(bytes) {
            Ok(rules) => {
                let digest = copy_bytes(rules.fingerprint());
                Ok((rules, digest))
            },
            Err(e) => Err(RepositoryError::Parse(e)),
        }
    }
}

/// A download of bytes whose fingerprint is the recorded one leaves the
/// recorded state, and so its revision, as it was.
pub proof fn lemma_same_fingerprint_keeps_state(
    current: StateModel,
    bytes: Seq<u8>,
    revision: Option<Seq<u8>>,
    written: bool,
)
    requires
        current.fingerprint == sha256_digest(bytes),
    ensures
        state_after(
            Some(current),
            plan_for(Some(current), bytes, sha256_digest(bytes), revision),
            written,
        ) == Some(current),
{
}

/// A replacement that did not reach the cache leaves the recorded state as it was.
pub proof fn lemma_failed_write_keeps_state(current: Option<StateModel>, plan: PlanModel)
    ensures
        state_after(current, plan, false) == current,
{
}

/// The record of a state as it is kept beside the cached document: the
/// fingerprint in hexadecimal and, where a revision is known, a line feed and
/// the revision.
pub open spec fn record_of(state: StateModel) -> Seq<u8> {
    match state.revision {
        Some(rev) => hex(state.fingerprint) + seq![LINE_FEED] + rev,
        None => hex(state.fingerprint),
    }
}

/// The state that a record holds, where its first line is a hexadecimal
/// fingerprint; what follows the first line feed is the revision.
pub open spec fn state_of(record: Seq<u8>) -> Option<StateModel> {
    let k = first_at(record, LINE_FEED, 0);
    if is_hex(record.subrange(0, k)) {
        Some(
            StateModel {
                fingerprint: unhex(record.subrange(0, k)),
                revision: if k < record.len() {
                    Some(record.subrange(k + 1, record.len() as int))
                } else {
                    None
                },
            },
        )
    } else {
        None
    }
}

/// Writes the record of a state.
pub fn encode_state(state: &RepositoryState) -> (out: Vec<u8>)
    ensures
        out@ == record_of(state@),
{
    let mut out = to_hex(&state.fingerprint);
    match &state.revision {
        Some(rev) => {
            let ghost head = out@;
            out.push(LINE_FEED);
            let mut i: usize = 0;
            while i < rev.len()
                invariant
                    i <= rev.len(),
                    out@ == head + seq![LINE_FEED] + rev@.subrange(0, i as int),
                decreases rev.len() - i,
            {
                out.push(rev[i]);
                i += 1;
                assert(out@ =~= head + seq![LINE_FEED] + rev@.subrange(0, i as int));
            }
            assert(rev@.subrange(0, rev.len() as int) =~= rev@);
        },
        None => {},
    }
    out
}

/// Reads a record; one whose first line is no hexadecimal text holds no state.
pub fn decode_state(record: &Vec<u8>) -> (r: Option<RepositoryState>)
    ensures
        optional_state(r) == state_of(record@),
{
    let k = find_first(record, LINE_FEED);
    let head = copy_range(record, 0, k);
    match from_hex(&head) {
        None => None,
        Some(fingerprint) => {
            let revision = if k < record.len() {
                Some(copy_range(record, k + 1, record.len()))
            } else {
                None
            };
            Some(RepositoryState { fingerprint, revision })
        },
    }
}

proof fn lemma_first_line_feed(record: Seq<u8>, n: int, from: int)
    requires
        0 <= from <= n <= record.len(),
        forall|k: int| 0 <= k < n ==> record[k] != LINE_FEED,
        n < record.len() ==> record[n] == LINE_FEED,
    ensures
        first_at(record, LINE_FEED, from) == n,
    decreases n - from,
{
    if from < n {
        lemma_first_line_feed(record, n, from + 1);
    }
}

/// A record reads back as the state it was written from.
pub proof fn lemma_record_round_trip(state: StateModel)
    ensures
        state_of(record_of(state)) == Some(state),
{
    let record = record_of(state);
    let head = hex(state.fingerprint);
    lemma_hex_round_trip(state.fingerprint);
    assert forall|k: int| 0 <= k < head.len() implies record[k] != LINE_FEED by {
        assert(record[k] == head[k]);
        assert(crate::digest::hex_value(head[k]) is Some);
    }
    lemma_first_line_feed(record, head.len() as int, 0);
    assert(record.subrange(0, head.len() as int) =~= head);
    match state.revision {
        Some(rev) => {
            assert(record.subrange(head.len() as int + 1, record.len() as int) =~= rev);
        },
        None => {},
    }
}

} // verus!
