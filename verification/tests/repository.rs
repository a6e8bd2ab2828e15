use spytrap_engine::bootstrap::{
    judge_server_start, log_filter, needs_server_start, AdbServerChoice, BootstrapError,
    StartOutcome,
};
use spytrap_engine::digest::fingerprint;
use spytrap_engine::repository::{
    current_rule_set_path, decide_download, plan_download, DownloadPlan, FetchError, Repository,
    RepositoryError, RepositoryState,
};
use spytrap_engine::rules::RuleParseError;

fn b(s: &str) -> Vec<u8> {
    s.as_bytes().to_vec()
}

#[test]
fn explicit_path_comes_first() {
    assert_eq!(
        current_rule_set_path(Some("mine.rules".to_string()), Some("cache.rules".to_string())),
        Ok("mine.rules".to_string())
    );
    assert_eq!(
        current_rule_set_path(Some("mine.rules".to_string()), None),
        Ok("mine.rules".to_string())
    );
    assert_eq!(
        current_rule_set_path(None, Some("cache.rules".to_string())),
        Ok("cache.rules".to_string())
    );
    assert_eq!(current_rule_set_path(None, None), Err(RepositoryError::NoRulesAvailable));
}

#[test]
fn first_download_replaces() {
    let repo = Repository::init(None);
    let plan = repo.download(Ok(b("rules v1")), Some(b("c0ffee"))).unwrap();
    match &plan {
        DownloadPlan::Replace { bytes, state } => {
            assert_eq!(*bytes, b("rules v1"));
            assert_eq!(state.fingerprint, fingerprint(&b("rules v1")));
            assert_eq!(state.revision, Some(b("c0ffee")));
        }
        DownloadPlan::Keep => panic!("nothing is cached yet"),
    }
}

#[test]
fn same_bytes_keep_the_state() {
    let state = RepositoryState { fingerprint: fingerprint(&b("rules v1")), revision: Some(b("old")) };
    let mut repo = Repository::init(Some(state));
    let plan = repo.download(Ok(b("rules v1")), Some(b("new"))).unwrap();
    assert!(matches!(plan, DownloadPlan::Keep));
    assert_eq!(repo.finish_download(plan, true), Ok(()));
    assert_eq!(repo.state.as_ref().unwrap().revision, Some(b("old")));
    assert_eq!(repo.state.as_ref().unwrap().fingerprint, fingerprint(&b("rules v1")));
}

#[test]
fn changed_bytes_replace_the_state() {
    let state = RepositoryState { fingerprint: fingerprint(&b("rules v1")), revision: Some(b("old")) };
    let mut repo = Repository::init(Some(state));
    let plan = repo.download(Ok(b("rules v2")), Some(b("new"))).unwrap();
    assert!(matches!(plan, DownloadPlan::Replace { .. }));
    assert_eq!(repo.finish_download(plan, true), Ok(()));
    assert_eq!(repo.state.as_ref().unwrap().revision, Some(b("new")));
    assert_eq!(repo.state.as_ref().unwrap().fingerprint, fingerprint(&b("rules v2")));
}

#[test]
fn failed_write_keeps_the_state() {
    let state = RepositoryState { fingerprint: fingerprint(&b("rules v1")), revision: Some(b("old")) };
    let mut repo = Repository::init(Some(state));
    let plan = repo.download(Ok(b("rules v2")), Some(b("new"))).unwrap();
    assert_eq!(repo.finish_download(plan, false), Err(RepositoryError::CacheIo));
    assert_eq!(repo.state.as_ref().unwrap().revision, Some(b("old")));
    assert_eq!(repo.state.as_ref().unwrap().fingerprint, fingerprint(&b("rules v1")));
}

#[test]
fn failed_fetch_plans_nothing() {
    let state = RepositoryState { fingerprint: fingerprint(&b("rules v1")), revision: None };
    let repo = Repository::init(Some(state));
    for e in [FetchError::Network, FetchError::NotFound, FetchError::Server] {
        let r = repo.download(Err(e), None);
        assert!(matches!(r, Err(RepositoryError::Fetch(got)) if got == e));
        let r = plan_download(&None, Err(e), Some(b("x")));
        assert!(matches!(r, Err(RepositoryError::Fetch(got)) if got == e));
    }
}

#[test]
fn decision_goes_by_the_digest_given() {
    let state = Some(RepositoryState { fingerprint: b("d1"), revision: None });
    assert!(matches!(decide_download(&state, b("x"), b("d1"), None), DownloadPlan::Keep));
    assert!(matches!(
        decide_download(&state, b("x"), b("d2"), None),
        DownloadPlan::Replace { .. }
    ));
    assert!(matches!(decide_download(&None, b("x"), b("d1"), None), DownloadPlan::Replace { .. }));
}

#[test]
fn provenance_needs_the_same_fingerprint() {
    let state = RepositoryState { fingerprint: b("d1"), revision: Some(b("abc123")) };
    let repo = Repository::init(Some(state));
    assert_eq!(repo.provenance(&b("d1")), Some(b("abc123")));
    assert_eq!(repo.provenance(&b("d2")), None);
    assert_eq!(Repository::init(None).provenance(&b("d1")), None);
    let unknown = Repository::init(Some(RepositoryState { fingerprint: b("d1"), revision: None }));
    assert_eq!(unknown.provenance(&b("d1")), None);
}

#[test]
fn loading_gives_rules_and_fingerprint() {
    let doc = b("rule critical r\npackage evil.app\n");
    let (set, digest) = Repository::load_rule_set(&doc).unwrap();
    assert_eq!(set.rules().len(), 1);
    assert_eq!(digest, fingerprint(&doc));
    assert_eq!(*set.fingerprint(), digest);
    let bad = Repository::load_rule_set(&b("rule critical r\n"));
    assert!(matches!(
        bad,
        Err(RepositoryError::Parse(RuleParseError::NoPredicates { rule: 0 }))
    ));
}

#[test]
fn log_filter_by_verbosity() {
    assert_eq!(log_filter(0), "info");
    assert_eq!(log_filter(1), "spytrap_engine=debug,info");
    assert_eq!(log_filter(2), "spytrap_engine=trace,debug");
    assert_eq!(log_filter(3), "trace");
    assert_eq!(log_filter(255), "trace");
}

#[test]
fn server_start_decisions() {
    assert!(needs_server_start(AdbServerChoice::Auto));
    assert!(needs_server_start(AdbServerChoice::Always));
    assert!(!needs_server_start(AdbServerChoice::Never));
    assert_eq!(judge_server_start(StartOutcome::Exited { success: true }), Ok(()));
    assert_eq!(
        judge_server_start(StartOutcome::Exited { success: false }),
        Err(BootstrapError::ExitedWithFailure)
    );
    assert_eq!(judge_server_start(StartOutcome::NotRun), Err(BootstrapError::StartFailed));
}
