use coreos_metadata::config::Config;
use coreos_metadata::errors::{Failure, Stage};
use coreos_metadata::providers::ProviderKind;
use coreos_metadata::run::{Action, Event, Run};

fn asked(provider: Option<&str>, cmdline: bool, targets: [Option<&str>; 4]) -> Config {
    Config {
        provider: provider.map(|p| p.to_string()),
        attributes_file: targets[0].map(|t| t.to_string()),
        ssh_keys_user: targets[1].map(|t| t.to_string()),
        hostname_file: targets[2].map(|t| t.to_string()),
        network_units_dir: targets[3].map(|t| t.to_string()),
        cmdline,
    }
}

fn write(stage: Stage, target: &str) -> Action {
    Action::Write { stage, target: target.to_string() }
}

fn failure(stage: Stage, message: &str) -> Failure {
    Failure { stage, message: message.to_string() }
}

const ALL: [Option<&str>; 4] = [Some("/run/attrs"), Some("core"), Some("/etc/hostname"), Some("/run/units")];
const NONE: [Option<&str>; 4] = [None, None, None, None];

#[test]
fn without_a_provider_the_run_ends_before_it_asks_for_anything() {
    let run = Run::new(asked(None, false, ALL));
    assert!(run.finished());
    assert_eq!(run.pending(), Action::Finish);
    assert_eq!(
        run.failures(),
        &vec![failure(Stage::Initialization, "Must set either --provider or --cmdline")]
    );
    assert_eq!(run.exit_code(), 1);
}

#[test]
fn a_full_run_asks_for_the_fetch_and_then_for_each_writer() {
    let mut run = Run::new(asked(Some("ec2"), false, ALL));
    assert_eq!(run.pending(), Action::Fetch(ProviderKind::Ec2));
    assert_eq!(run.step(Event::Fetched(Ok(()))), write(Stage::WritingAttributes, "/run/attrs"));
    assert_eq!(run.step(Event::Written(Ok(()))), write(Stage::WritingSshKeys, "core"));
    assert_eq!(run.step(Event::Written(Ok(()))), write(Stage::WritingHostname, "/etc/hostname"));
    assert_eq!(run.step(Event::Written(Ok(()))), write(Stage::WritingNetworkUnits, "/run/units"));
    assert!(!run.finished());
    assert_eq!(run.step(Event::Written(Ok(()))), Action::Finish);
    assert!(run.finished());
    assert_eq!(run.failures(), &Vec::new());
    assert_eq!(run.exit_code(), 0);
}

#[test]
fn the_provider_is_taken_from_the_boot_parameters() {
    let mut run = Run::new(asked(None, true, [Some("/run/attrs"), None, None, None]));
    assert_eq!(run.pending(), Action::ReadBootParameters);
    let contents = "BOOT_IMAGE=/vmlinuz coreos.oem.id=ec2 console=ttyS0".to_string();
    assert_eq!(run.step(Event::BootParameters(Ok(contents))), Action::Fetch(ProviderKind::Ec2));
    assert_eq!(run.step(Event::Fetched(Ok(()))), write(Stage::WritingAttributes, "/run/attrs"));
    assert_eq!(run.step(Event::Written(Ok(()))), Action::Finish);
    assert_eq!(run.exit_code(), 0);
}

#[test]
fn a_named_provider_wins_and_nothing_is_read() {
    let run = Run::new(asked(Some("gce"), true, NONE));
    assert_eq!(run.pending(), Action::Fetch(ProviderKind::Gce));
}

#[test]
fn writers_that_were_not_configured_are_passed_over() {
    let mut run = Run::new(asked(Some("packet"), false, [None, Some("core"), None, Some("/units")]));
    assert_eq!(run.step(Event::Fetched(Ok(()))), write(Stage::WritingSshKeys, "core"));
    assert_eq!(run.step(Event::Written(Ok(()))), write(Stage::WritingNetworkUnits, "/units"));
    assert_eq!(run.step(Event::Written(Ok(()))), Action::Finish);
    assert_eq!(run.exit_code(), 0);
}

#[test]
fn a_run_without_targets_only_fetches() {
    let mut run = Run::new(asked(Some("azure"), false, NONE));
    assert_eq!(run.pending(), Action::Fetch(ProviderKind::Azure));
    assert_eq!(run.step(Event::Fetched(Ok(()))), Action::Finish);
    assert_eq!(run.exit_code(), 0);
}

#[test]
fn a_writer_that_fails_does_not_stop_the_others() {
    let mut run = Run::new(asked(Some("ec2"), false, ALL));
    run.step(Event::Fetched(Ok(())));
    assert_eq!(
        run.step(Event::Written(Err("permission denied: /run/attrs".to_string()))),
        write(Stage::WritingSshKeys, "core")
    );
    assert_eq!(run.step(Event::Written(Ok(()))), write(Stage::WritingHostname, "/etc/hostname"));
    assert_eq!(
        run.step(Event::Written(Err("disk full: /etc/hostname".to_string()))),
        write(Stage::WritingNetworkUnits, "/run/units")
    );
    assert_eq!(run.step(Event::Written(Ok(()))), Action::Finish);
    assert_eq!(
        run.failures(),
        &vec![
            failure(Stage::WritingAttributes, "permission denied: /run/attrs"),
            failure(Stage::WritingHostname, "disk full: /etc/hostname"),
        ]
    );
    assert_eq!(run.exit_code(), 1);
    assert_eq!(
        run.failures()[0].report(),
        "writing metadata attributes: permission denied: /run/attrs"
    );
}

#[test]
fn a_failed_fetch_ends_the_run() {
    let mut run = Run::new(asked(Some("ec2"), false, ALL));
    assert_eq!(
        run.step(Event::Fetched(Err("giving up after 10 attempts: timeout".to_string()))),
        Action::Finish
    );
    assert_eq!(
        run.failures(),
        &vec![failure(Stage::FetchingMetadata, "giving up after 10 attempts: timeout")]
    );
    assert_eq!(run.exit_code(), 1);
}

#[test]
fn an_unknown_provider_ends_the_run() {
    let run = Run::new(asked(Some("openstack"), false, ALL));
    assert_eq!(run.pending(), Action::Finish);
    assert_eq!(
        run.failures(),
        &vec![failure(Stage::FetchingMetadata, "unknown provider 'openstack'")]
    );
    assert_eq!(run.exit_code(), 1);
}

#[test]
fn boot_parameters_that_cannot_be_used_end_the_run() {
    let mut run = Run::new(asked(None, true, ALL));
    assert_eq!(run.step(Event::BootParameters(Ok("quiet ro".to_string()))), Action::Finish);
    assert_eq!(
        run.failures(),
        &vec![failure(Stage::Initialization, "Couldn't find 'coreos.oem.id' flag in cmdline file (/proc/cmdline)"
        )]
    );

    let mut run = Run::new(asked(None, true, ALL));
    assert_eq!(
        run.step(Event::BootParameters(Err("Failed to open cmdline file".to_string()))),
        Action::Finish
    );
    assert_eq!(
        run.failures(),
        &vec![failure(Stage::Initialization, "Failed to open cmdline file")]
    );

    let mut run = Run::new(asked(None, true, ALL));
    assert_eq!(
        run.step(Event::BootParameters(Ok("coreos.oem.id=ec2\n".to_string()))),
        Action::Finish
    );
    assert_eq!(
        run.failures(),
        &vec![failure(Stage::FetchingMetadata, "unknown provider 'ec2\n'")]
    );
}

#[test]
fn an_event_that_is_not_awaited_changes_nothing() {
    let mut run = Run::new(asked(Some("ec2"), false, ALL));
    assert_eq!(run.step(Event::Written(Err("x".to_string()))), Action::Fetch(ProviderKind::Ec2));
    assert_eq!(
        run.step(Event::BootParameters(Ok("coreos.oem.id=gce".to_string()))),
        Action::Fetch(ProviderKind::Ec2)
    );
    assert_eq!(run.failures(), &Vec::new());
    run.step(Event::Fetched(Ok(())));
    assert_eq!(
        run.step(Event::Fetched(Err("late".to_string()))),
        write(Stage::WritingAttributes, "/run/attrs")
    );
    let mut done = Run::new(asked(None, false, ALL));
    assert_eq!(done.step(Event::Written(Err("x".to_string()))), Action::Finish);
    assert_eq!(done.failures().len(), 1);
}
