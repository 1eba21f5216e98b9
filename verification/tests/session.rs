//! Tests of the decisions that open a database session.

use blog::env::Environment;
use blog::session::{ConnectAction, ConnectEvent, Connector};
use blog::shared::{RetryConfig, RetryRun};
use blog::surreal::{ConnectionSettings, SignIn};

fn settings_of(pairs: &[(&str, &str)]) -> ConnectionSettings {
    ConnectionSettings::from_env(&Environment::from_pairs(
        pairs
            .iter()
            .map(|(k, v)| (k.to_string(), v.to_string()))
            .collect(),
    ))
}

fn failed(message: &str) -> ConnectEvent {
    ConnectEvent::Failed(message.to_string())
}

fn is_wait(a: &ConnectAction, millis: u128) -> bool {
    matches!(a, ConnectAction::Wait(d) if *d == millis)
}

fn gives_up_with(a: &ConnectAction, message: &str) -> bool {
    matches!(a, ConnectAction::GiveUp(e) if e == message)
}

fn signs_in_as(a: &ConnectAction, who: &str) -> bool {
    match a {
        ConnectAction::SignIn(SignIn::Database { username, .. }) => username == who,
        ConnectAction::SignIn(SignIn::Namespace { username, .. }) => username == who,
        ConnectAction::SignIn(SignIn::Root { username, .. }) => username == who,
        _ => false,
    }
}

#[test]
fn session_opens_after_a_failed_sign_in_round() {
    let settings = settings_of(&[
        ("SURREAL_USERNAME", "app"),
        ("SURREAL_PASSWORD", "apppw"),
        ("SURREAL_ROOT_USER", "root"),
        ("SURREAL_ROOT_PASS", "rootpw"),
    ]);
    let (mut c, first) = Connector::new(&settings);
    assert!(matches!(first, ConnectAction::Connect));
    assert!(signs_in_as(&c.step(ConnectEvent::Succeeded), "app"));
    // The next credentials are tried at once, without a wait.
    assert!(signs_in_as(&c.step(failed("db denied")), "root"));
    // The round failed: wait for the first retry, then start over.
    assert!(is_wait(&c.step(failed("root denied")), 100));
    assert!(signs_in_as(&c.step(ConnectEvent::Waited), "app"));
    // The first success ends the round.
    assert!(matches!(c.step(ConnectEvent::Succeeded), ConnectAction::SelectNamespace));
    assert!(matches!(c.step(ConnectEvent::Succeeded), ConnectAction::Ready));
}

#[test]
fn connecting_gives_up_after_its_schedule() {
    let (mut c, _) = Connector::new(&settings_of(&[]));
    let delays = [100u128, 5000, 5000, 5000, 5000];
    for d in delays {
        assert!(is_wait(&c.step(failed("refused")), d));
        assert!(matches!(c.step(ConnectEvent::Waited), ConnectAction::Connect));
    }
    assert!(gives_up_with(&c.step(failed("still refused")), "still refused"));
}

#[test]
fn sign_in_without_credentials_fails_each_round() {
    let (mut c, _) = Connector::new(&settings_of(&[]));
    assert!(is_wait(&c.step(ConnectEvent::Succeeded), 100));
    assert!(is_wait(&c.step(ConnectEvent::Waited), 3000));
    assert!(is_wait(&c.step(ConnectEvent::Waited), 3000));
    assert!(gives_up_with(
        &c.step(ConnectEvent::Waited),
        "No SurrealDB authentication methods succeeded"
    ));
}

#[test]
fn sign_in_gives_up_with_the_last_error() {
    let settings = settings_of(&[
        ("SURREAL_NAMESPACE_USER", "ns"),
        ("SURREAL_NAMESPACE_PASS", "nspw"),
        ("SURREAL_ROOT_USER", "root"),
        ("SURREAL_ROOT_PASS", "rootpw"),
    ]);
    let (mut c, _) = Connector::new(&settings);
    assert!(signs_in_as(&c.step(ConnectEvent::Succeeded), "ns"));
    for d in [100u128, 3000, 3000] {
        assert!(signs_in_as(&c.step(failed("ns denied")), "root"));
        assert!(is_wait(&c.step(failed("root denied")), d));
        assert!(signs_in_as(&c.step(ConnectEvent::Waited), "ns"));
    }
    assert!(signs_in_as(&c.step(failed("ns denied")), "root"));
    assert!(gives_up_with(&c.step(failed("root denied")), "root denied"));
}

#[test]
fn namespace_selection_is_retried_on_its_own_schedule() {
    let settings = settings_of(&[("SURREAL_ROOT_USER", "root"), ("SURREAL_ROOT_PASS", "rootpw")]);
    let (mut c, _) = Connector::new(&settings);
    assert!(is_wait(&c.step(failed("refused")), 100));
    assert!(matches!(c.step(ConnectEvent::Waited), ConnectAction::Connect));
    assert!(signs_in_as(&c.step(ConnectEvent::Succeeded), "root"));
    assert!(matches!(c.step(ConnectEvent::Succeeded), ConnectAction::SelectNamespace));
    assert!(is_wait(&c.step(failed("busy")), 50));
    assert!(matches!(c.step(ConnectEvent::Waited), ConnectAction::SelectNamespace));
    assert!(is_wait(&c.step(failed("busy")), 2000));
    assert!(matches!(c.step(ConnectEvent::Waited), ConnectAction::SelectNamespace));
    assert!(matches!(c.step(ConnectEvent::Succeeded), ConnectAction::Ready));
}

#[test]
fn retry_run_waits_each_delay_then_gives_up() {
    let mut run = RetryRun::new(RetryConfig::new(50, 2, 3));
    assert_eq!(run.after_failure(), Some(50));
    assert_eq!(run.after_failure(), Some(2000));
    assert_eq!(run.after_failure(), Some(2000));
    assert_eq!(run.after_failure(), None);
    assert_eq!(run.after_failure(), None);
}

/// Runs `operation` under the retries of `config`, as a caller of `RetryRun`
/// does (the waits themselves are skipped): it is tried once, and again after
/// each failure for which the run grants a retry.
fn run_with_retries<T, E>(
    config: RetryConfig,
    mut operation: impl FnMut() -> Result<T, E>,
) -> Result<T, E> {
    let mut run = RetryRun::new(config);
    loop {
        match operation() {
            Ok(value) => return Ok(value),
            Err(err) => match run.after_failure() {
                Some(_delay) => {}
                None => return Err(err),
            },
        }
    }
}

#[test]
fn succeeds_after_retries() {
    let mut attempts = 0usize;
    let result = run_with_retries(RetryConfig::default(), || {
        let current = attempts;
        attempts += 1;
        if current < 2 {
            Err::<&str, &str>("fail")
        } else {
            Ok::<&str, &str>("ok")
        }
    });
    assert_eq!(result.unwrap(), "ok");
    assert_eq!(attempts, 3);
}

#[test]
fn returns_error_after_exhausting_retries() {
    let mut attempts = 0usize;
    let config = RetryConfig::default();
    let result: Result<(), &str> = run_with_retries(config, || {
        attempts += 1;
        Err("nope")
    });
    assert!(result.is_err());
    assert_eq!(attempts, config.max_retries as usize + 1);
}

#[test]
fn honors_custom_config() {
    let config = RetryConfig::new(10, 1, 5);
    let mut attempts = 0usize;
    let _ = run_with_retries(config, || {
        attempts += 1;
        Err::<(), &str>("fail")
    });
    assert_eq!(attempts, config.max_retries as usize + 1);
}
