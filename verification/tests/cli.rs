use keyward::cli::{bind, mode, parse_args, BindAction, BindEvent, Mode, Outcome, Parsed};
use keyward::enclave::Policy;

fn parse(args: &[&str]) -> Parsed {
    parse_args(&args.iter().map(|a| a.to_string()).collect())
}

#[test]
fn nothing_asked_for_is_serving() {
    let p = parse(&[]);
    assert!(matches!(p.outcome, Outcome::Run));
    assert_eq!(p.options.config, None);
    assert_eq!(p.options.policy, Policy::UserPresence);
    assert!(!p.options.force && p.ignored.is_empty());
    assert_eq!(mode(&p.options), Mode::Serve);
}

#[test]
fn options_are_understood_in_any_order() {
    let p = parse(&["--force", "--policy", "biometry", "--generate-key", "--config", "c.json"]);
    assert!(matches!(p.outcome, Outcome::Run));
    assert!(p.options.force && p.options.generate);
    assert_eq!(p.options.policy, Policy::BiometryCurrentSet);
    assert_eq!(p.options.config.as_deref(), Some("c.json"));
    assert_eq!(mode(&p.options), Mode::Generate);
}

#[test]
fn the_last_policy_counts_and_a_bad_one_ends_it() {
    assert_eq!(parse(&["--policy", "none", "--policy", "presence"]).options.policy, Policy::UserPresence);
    assert!(matches!(parse(&["--policy", "all", "--help"]).outcome, Outcome::BadPolicy));
    assert!(matches!(parse(&["--policy"]).outcome, Outcome::BadPolicy));
}

#[test]
fn help_ends_it() {
    assert!(matches!(parse(&["-h", "--policy", "all"]).outcome, Outcome::Help));
    assert!(matches!(parse(&["--health", "--help"]).outcome, Outcome::Help));
}

#[test]
fn a_value_is_no_option() {
    let p = parse(&["--config", "--health"]);
    assert_eq!(p.options.config.as_deref(), Some("--health"));
    assert!(!p.options.health);
    let p = parse(&["--config", "a", "--config"]);
    assert_eq!(p.options.config, None);
}

#[test]
fn what_is_not_understood_is_passed_over() {
    let p = parse(&["x", "--pubkey", "-v"]);
    assert_eq!(p.ignored, vec!["x", "-v"]);
    assert!(p.options.pubkey);
}

#[test]
fn several_wishes_have_an_order() {
    assert_eq!(mode(&parse(&["--health", "--pubkey", "--generate-key"]).options), Mode::Generate);
    assert_eq!(mode(&parse(&["--health", "--pubkey"]).options), Mode::PubKey);
    assert_eq!(mode(&parse(&["--health"]).options), Mode::Health);
}

#[test]
fn a_stale_socket_goes_and_a_live_one_stays() {
    assert_eq!(bind(BindEvent::Found(false)), BindAction::Listen);
    assert_eq!(bind(BindEvent::Found(true)), BindAction::Probe);
    assert_eq!(bind(BindEvent::Probed(true)), BindAction::StandDown);
    assert_eq!(bind(BindEvent::Probed(false)), BindAction::ClearAndListen);
}
