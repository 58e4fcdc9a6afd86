use coreos_metadata::errors::{Error, Stage};
use coreos_metadata::fetch_metadata;
use coreos_metadata::providers::{resolve, ProviderKind};

#[test]
fn every_supported_name_selects_its_provider() {
    assert_eq!(fetch_metadata("azure"), Ok(ProviderKind::Azure));
    assert_eq!(fetch_metadata("cloudstack-metadata"), Ok(ProviderKind::CloudstackMetadata));
    assert_eq!(fetch_metadata("cloudstack-configdrive"), Ok(ProviderKind::CloudstackConfigdrive));
    assert_eq!(fetch_metadata("digitalocean"), Ok(ProviderKind::Digitalocean));
    assert_eq!(fetch_metadata("ec2"), Ok(ProviderKind::Ec2));
    assert_eq!(fetch_metadata("gce"), Ok(ProviderKind::Gce));
    assert_eq!(fetch_metadata("openstack-metadata"), Ok(ProviderKind::OpenstackMetadata));
    assert_eq!(fetch_metadata("packet"), Ok(ProviderKind::Packet));
    assert_eq!(fetch_metadata("vagrant-virtualbox"), Ok(ProviderKind::VagrantVirtualbox));
}

#[test]
fn providers_are_found_under_their_own_names_and_are_distinct() {
    let all = ProviderKind::all();
    assert_eq!(all.len(), 9);
    for (i, kind) in all.iter().enumerate() {
        assert_eq!(resolve(kind.name()), Some(*kind));
        for (j, other) in all.iter().enumerate() {
            if i != j {
                assert_ne!(kind, other);
                assert_ne!(kind.name(), other.name());
            }
        }
    }
}

#[test]
fn an_unknown_name_is_refused_with_the_name() {
    assert_eq!(fetch_metadata("openstack"), Err(Error::UnknownProvider("openstack".to_string())));
    assert_eq!(fetch_metadata(""), Err(Error::UnknownProvider(String::new())));
    assert_eq!(resolve("aws"), None);
}

#[test]
fn names_are_case_sensitive_and_exact() {
    assert_eq!(fetch_metadata("EC2"), Err(Error::UnknownProvider("EC2".to_string())));
    assert_eq!(fetch_metadata("ec2 "), Err(Error::UnknownProvider("ec2 ".to_string())));
    assert_eq!(fetch_metadata("ec2\n"), Err(Error::UnknownProvider("ec2\n".to_string())));
    assert_eq!(fetch_metadata("ec"), Err(Error::UnknownProvider("ec".to_string())));
}

#[test]
fn error_messages_say_what_went_wrong() {
    assert_eq!(Error::UnknownProvider("foo".to_string()).message(), "unknown provider 'foo'");
    assert_eq!(Error::MissingProvider.message(), "Must set either --provider or --cmdline");
    assert_eq!(
        Error::OemNotFound.message(),
        "Couldn't find 'coreos.oem.id' flag in cmdline file (/proc/cmdline)"
    );
    assert_eq!(
        Error::Exhausted { attempts: 10, cause: "timed out".to_string() }.message(),
        "giving up after 10 attempts: timed out"
    );
    assert_eq!(Error::Permanent { cause: "404".to_string() }.message(), "404");
    assert_eq!(
        Error::UnreachableProvider { attempts: 3, cause: "refused".to_string() }.message(),
        "provider unreachable after 3 attempts: refused"
    );
    assert_eq!(
        Error::UnsupportedEnvironment("no config drive".to_string()).message(),
        "unsupported environment: no config drive"
    );
    assert_eq!(Error::InvalidHostname("a b".to_string()).message(), "invalid hostname 'a b'");
    assert_eq!(
        Error::InvalidInterfaceName("a/b".to_string()).message(),
        "invalid interface name 'a/b'"
    );
}

#[test]
fn a_failure_is_reported_with_its_stage() {
    let failure = Error::UnknownProvider("foo".to_string()).at(Stage::FetchingMetadata);
    assert_eq!(failure.stage, Stage::FetchingMetadata);
    assert_eq!(failure.report(), "fetching metadata from provider: unknown provider 'foo'");
}

#[test]
fn stages_have_their_labels() {
    assert_eq!(Stage::Initialization.label(), "initialization");
    assert_eq!(Stage::FetchingMetadata.label(), "fetching metadata from provider");
    assert_eq!(Stage::WritingAttributes.label(), "writing metadata attributes");
    assert_eq!(Stage::WritingSshKeys.label(), "writing ssh keys");
    assert_eq!(Stage::WritingHostname.label(), "writing hostname");
    assert_eq!(Stage::WritingNetworkUnits.label(), "writing network units");
}

#[test]
fn an_error_is_copied_as_it_is() {
    let e = Error::Exhausted { attempts: 3, cause: "reset".to_string() };
    assert_eq!(e.duplicate(), e);
}

#[test]
fn a_service_that_was_given_up_on_is_unreachable() {
    assert_eq!(
        Error::Exhausted { attempts: 10, cause: "timeout".to_string() }.at_construction(),
        Error::UnreachableProvider { attempts: 10, cause: "timeout".to_string() }
    );
    assert_eq!(
        Error::Permanent { cause: "404".to_string() }.at_construction(),
        Error::Permanent { cause: "404".to_string() }
    );
    assert_eq!(
        Error::UnsupportedEnvironment("x".to_string()).at_construction(),
        Error::UnsupportedEnvironment("x".to_string())
    );
}
