use cdu::dns::{set_a_record_result, DnsError, Handler};
use cdu::ip::Ipv4;
use cdu::orchestrator::{Action, Orchestrator, Outcome, Phase, RunError};
use cdu::state::Config;
use cdu::webhook::{update_message, webhook_body};

fn config() -> Config {
    let mut c = Config::default();
    c.last_updated = String::from("2024-03-10T13:54:04.032435Z");
    c
}

const RESOLVED: Ipv4 = Ipv4 { a: 5, b: 6, c: 7, d: 8 };

const RECORDS_BODY: &str = r#"{"result": [{"id": "rec1", "type": "A", "name": "home.example.com", "content": "1.2.3.4"}]}"#;

#[test]
fn unchanged_outside_ip_short_circuits() {
    let mut cfg = config();
    cfg.outside_ip = Some(RESOLVED);
    cfg.cloudflare_ip = Some(Ipv4 { a: 1, b: 2, c: 3, d: 4 });
    let before_cloudflare = cfg.cloudflare_ip;
    let mut run = Orchestrator::start(cfg, String::from("home.example.com"), false);
    let action = run.on_resolved(Ok(RESOLVED));
    // The run is over at once: no fetch, no update, no save.
    assert_eq!(action, Action::Finish(Outcome::UnchangedOutside));
    assert_eq!(run.phase, Phase::Done(Outcome::UnchangedOutside));
    assert_eq!(run.config.outside_ip, Some(RESOLVED));
    assert_eq!(run.config.cloudflare_ip, before_cloudflare);
}

#[test]
fn resolution_failure_aborts() {
    let mut run = Orchestrator::start(config(), String::from("home.example.com"), false);
    let action = run.on_resolved(Err(cdu::resolver::ResolveError::Exhausted));
    assert_eq!(
        action,
        Action::Abort(RunError::Resolve(cdu::resolver::ResolveError::Exhausted))
    );
    assert_eq!(run.phase, Phase::Failed);
}

#[test]
fn changed_ip_updates_record_once_and_persists() {
    let domain = "home.example.com";
    let mut run = Orchestrator::start(config(), String::from(domain), false);
    let mut handler = Handler::try_new("k", "zone123").unwrap();
    let mut updates_issued = 0;

    let action = run.on_resolved(Ok(RESOLVED));
    assert_eq!(action, Action::SaveState);
    assert_eq!(run.config.outside_ip, Some(RESOLVED));

    let action = run.on_state_saved(true);
    assert_eq!(action, Action::FetchRecord);

    let provider_ip = handler.get_a_record(domain, RECORDS_BODY);
    assert_eq!(provider_ip, Ok(Ipv4 { a: 1, b: 2, c: 3, d: 4 }));
    let action = run.on_record(provider_ip);
    let ip = match action {
        Action::UpdateRecord { ip } => {
            updates_issued += 1;
            ip
        }
        other => panic!("expected an update action, got {other:?}"),
    };
    assert_eq!(ip, RESOLVED);

    let rq = handler.set_a_record_request(domain, &ip).unwrap();
    assert_eq!(
        rq.body,
        "{\"type\":\"A\",\"name\":\"home.example.com\",\"content\":\"5.6.7.8\"}"
    );
    let action = run.on_updated(set_a_record_result(200, ""));
    assert_eq!(action, Action::SaveState);
    assert_eq!(run.config.cloudflare_ip, Some(RESOLVED));

    let action = run.on_state_saved(true);
    assert_eq!(action, Action::Finish(Outcome::Updated));
    assert_eq!(run.phase, Phase::Done(Outcome::Updated));
    assert_eq!(updates_issued, 1);
}

#[test]
fn dry_run_issues_no_update_and_keeps_provider_ip() {
    let domain = "home.example.com";
    let mut run = Orchestrator::start(config(), String::from(domain), true);
    let mut handler = Handler::try_new("k", "zone123").unwrap();

    assert_eq!(run.on_resolved(Ok(RESOLVED)), Action::SaveState);
    assert_eq!(run.on_state_saved(true), Action::FetchRecord);
    let provider_ip = handler.get_a_record(domain, RECORDS_BODY);
    let action = run.on_record(provider_ip);
    assert_eq!(action, Action::Finish(Outcome::DryRun));
    assert_eq!(run.phase, Phase::Done(Outcome::DryRun));
    // No update was asked for, and the persisted provider address is unchanged.
    assert_eq!(run.config.cloudflare_ip, None);
}

#[test]
fn provider_ip_already_current_ends_quietly() {
    let mut run = Orchestrator::start(config(), String::from("home.example.com"), false);
    assert_eq!(run.on_resolved(Ok(RESOLVED)), Action::SaveState);
    assert_eq!(run.on_state_saved(true), Action::FetchRecord);
    let action = run.on_record(Ok(RESOLVED));
    assert_eq!(action, Action::Finish(Outcome::AlreadyCurrent));
    assert_eq!(run.config.cloudflare_ip, None);
}

#[test]
fn refused_update_fails_with_body_text() {
    let mut run = Orchestrator::start(config(), String::from("home.example.com"), false);
    assert_eq!(run.on_resolved(Ok(RESOLVED)), Action::SaveState);
    assert_eq!(run.on_state_saved(true), Action::FetchRecord);
    assert_eq!(
        run.on_record(Ok(Ipv4 { a: 1, b: 2, c: 3, d: 4 })),
        Action::UpdateRecord { ip: RESOLVED }
    );
    let action = run.on_updated(set_a_record_result(400, "quota exceeded"));
    match action {
        Action::Abort(RunError::Dns(e)) => {
            assert_eq!(e, DnsError::UpdateFailed(String::from("quota exceeded")));
            assert!(e.describe().contains("quota exceeded"));
        }
        other => panic!("expected an abort, got {other:?}"),
    }
    assert_eq!(run.phase, Phase::Failed);
    // The failed update is not persisted.
    assert_eq!(run.config.cloudflare_ip, None);
}

#[test]
fn save_failure_is_fatal() {
    let mut run = Orchestrator::start(config(), String::from("home.example.com"), false);
    assert_eq!(run.on_resolved(Ok(RESOLVED)), Action::SaveState);
    assert_eq!(run.on_state_saved(false), Action::Abort(RunError::SaveFailed));
    assert_eq!(run.phase, Phase::Failed);
}

#[test]
fn webhook_is_notified_after_update_and_is_best_effort() {
    let mut cfg = config();
    cfg.webhook_url = Some(String::from("https://hooks.example/z"));
    let mut run = Orchestrator::start(cfg, String::from("home.example.com"), false);
    assert_eq!(run.on_resolved(Ok(RESOLVED)), Action::SaveState);
    assert_eq!(run.on_state_saved(true), Action::FetchRecord);
    assert_eq!(
        run.on_record(Ok(Ipv4 { a: 1, b: 2, c: 3, d: 4 })),
        Action::UpdateRecord { ip: RESOLVED }
    );
    assert_eq!(run.on_updated(Ok(())), Action::SaveState);
    assert_eq!(run.on_state_saved(true), Action::Notify);
    // Even an undelivered notification ends the run updated.
    assert_eq!(run.on_notified(false), Action::Finish(Outcome::Updated));
    assert_eq!(run.phase, Phase::Done(Outcome::Updated));
}

#[test]
fn webhook_payloads() {
    let msg = update_message("home.example.com", &RESOLVED);
    assert_eq!(msg, "Updated A record of home.example.com to 5.6.7.8");
    assert_eq!(
        webhook_body(msg.as_str()),
        "{\"content\":\"Updated A record of home.example.com to 5.6.7.8\"}"
    );
    assert_eq!(webhook_body("say \"hi\"\n"), "{\"content\":\"say \\\"hi\\\"\\u000a\"}");
}
