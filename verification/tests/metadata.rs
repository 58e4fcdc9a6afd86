use coreos_metadata::attributes::AttributeSet;
use coreos_metadata::errors::Error;
use coreos_metadata::hostname::Hostname;
use coreos_metadata::metadata::MetadataProvider;
use coreos_metadata::network::{Addressing, Interface, InterfaceName, Selector, UnitFile};
use coreos_metadata::output::FileWrite;
use coreos_metadata::providers::ProviderKind;
use coreos_metadata::ssh::{AuthorizedKeys, KeyEntry};

fn fetched() -> MetadataProvider {
    let mut attributes = AttributeSet::new();
    attributes.insert("local-ipv4".to_string(), "10.0.0.5".to_string());
    attributes.insert("instance-id".to_string(), "i-123".to_string());
    MetadataProvider::new(
        ProviderKind::Ec2,
        Ok(attributes),
        Ok(vec!["ssh-rsa A".to_string()]),
        Ok(Some(Hostname::parse("ip-10-0-0-5").unwrap())),
        Ok(vec![Interface {
            selector: Selector::Name(InterfaceName::parse("eth0").unwrap()),
            addressing: Addressing::Dhcp,
        }]),
    )
}

fn broken() -> MetadataProvider {
    MetadataProvider::new(
        ProviderKind::Gce,
        Err(Error::Exhausted { attempts: 3, cause: "timeout".to_string() }),
        Err(Error::Permanent { cause: "404".to_string() }),
        Err(Error::Permanent { cause: "bad body".to_string() }),
        Err(Error::Exhausted { attempts: 1, cause: "reset".to_string() }),
    )
}

fn bare() -> MetadataProvider {
    MetadataProvider::new(
        ProviderKind::VagrantVirtualbox,
        Ok(AttributeSet::new()),
        Ok(Vec::new()),
        Ok(None),
        Ok(Vec::new()),
    )
}

#[test]
fn the_end_to_end_attributes_file_is_exact() {
    assert_eq!(
        fetched().write_attributes("/run/metadata/coreos"),
        Ok(FileWrite {
            path: "/run/metadata/coreos".to_string(),
            contents: "instance-id=i-123\nlocal-ipv4=10.0.0.5\n".to_string(),
        })
    );
}

#[test]
fn every_reading_of_a_facet_gives_the_same() {
    let provider = fetched();
    assert_eq!(provider.kind(), ProviderKind::Ec2);
    assert_eq!(provider.attributes(), provider.attributes());
    assert_eq!(provider.ssh_keys(), &Ok(vec!["ssh-rsa A".to_string()]));
    assert_eq!(provider.ssh_keys(), provider.ssh_keys());
    assert_eq!(provider.hostname(), provider.hostname());
    assert_eq!(provider.network_units(), provider.network_units());
    assert_eq!(provider.write_attributes("f"), provider.write_attributes("f"));
    assert_eq!(provider.write_hostname("h"), provider.write_hostname("h"));
}

#[test]
fn all_four_artifacts_come_from_what_was_fetched() {
    let provider = fetched();
    assert_eq!(
        provider.write_hostname("/etc/hostname"),
        Ok(Some(FileWrite {
            path: "/etc/hostname".to_string(),
            contents: "ip-10-0-0-5\n".to_string(),
        }))
    );
    let store = AuthorizedKeys { entries: vec![KeyEntry { key: "mine".to_string(), managed: false }] };
    assert_eq!(
        provider.write_ssh_keys(&store),
        Ok(AuthorizedKeys {
            entries: vec![
                KeyEntry { key: "mine".to_string(), managed: false },
                KeyEntry { key: "ssh-rsa A".to_string(), managed: true },
            ],
        })
    );
    let plan = provider.write_network_units(&vec!["10-metadata-name-eth9.network".to_string()]).unwrap();
    assert_eq!(plan.remove, vec!["10-metadata-name-eth9.network".to_string()]);
    assert_eq!(
        plan.write,
        vec![UnitFile {
            name: "10-metadata-name-eth0.network".to_string(),
            contents: "[Match]\nName=eth0\n\n[Network]\nDHCP=yes\n".to_string(),
        }]
    );
}

#[test]
fn the_error_of_a_fetch_is_handed_on_and_not_swallowed() {
    let provider = broken();
    assert_eq!(
        provider.write_attributes("f"),
        Err(Error::Exhausted { attempts: 3, cause: "timeout".to_string() })
    );
    assert_eq!(
        provider.write_ssh_keys(&AuthorizedKeys { entries: Vec::new() }),
        Err(Error::Permanent { cause: "404".to_string() })
    );
    assert_eq!(provider.write_hostname("h"), Err(Error::Permanent { cause: "bad body".to_string() }));
    assert_eq!(
        provider.write_network_units(&Vec::new()),
        Err(Error::Exhausted { attempts: 1, cause: "reset".to_string() })
    );
}

#[test]
fn a_facet_that_the_platform_lacks_is_a_success() {
    let provider = bare();
    assert_eq!(provider.write_hostname("/etc/hostname"), Ok(None));
    assert_eq!(
        provider.write_attributes("f"),
        Ok(FileWrite { path: "f".to_string(), contents: String::new() })
    );
    assert_eq!(
        provider.write_ssh_keys(&AuthorizedKeys { entries: Vec::new() }),
        Ok(AuthorizedKeys { entries: Vec::new() })
    );
    let plan = provider.write_network_units(&Vec::new()).unwrap();
    assert!(plan.remove.is_empty() && plan.write.is_empty());
}
