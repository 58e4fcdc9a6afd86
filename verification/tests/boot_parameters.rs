use coreos_metadata::cmdline::{find_value, get_oem, CMDLINE_PATH, OEM_KEY};
use coreos_metadata::config::{normalize_arg, Config, ProviderSource};
use coreos_metadata::errors::Error;
use coreos_metadata::fetch_metadata;
use coreos_metadata::providers::ProviderKind;

#[test]
fn the_provider_is_read_from_the_boot_parameters() {
    let contents = "BOOT_IMAGE=/vmlinuz coreos.oem.id=ec2 console=ttyS0";
    let name = get_oem(contents).unwrap();
    assert_eq!(name, "ec2");
    assert_eq!(fetch_metadata(&name), Ok(ProviderKind::Ec2));
}

#[test]
fn boot_parameters_without_the_key_give_an_error() {
    assert_eq!(get_oem("BOOT_IMAGE=/vmlinuz console=ttyS0"), Err(Error::OemNotFound));
    assert_eq!(get_oem(""), Err(Error::OemNotFound));
    assert_eq!(get_oem("coreos.oem.id"), Err(Error::OemNotFound));
    assert_eq!(get_oem("xcoreos.oem.id=ec2"), Err(Error::OemNotFound));
    assert_eq!(get_oem("coreos.oem.idx=ec2"), Err(Error::OemNotFound));
}

#[test]
fn the_first_parameter_with_the_key_wins() {
    assert_eq!(get_oem("coreos.oem.id=gce coreos.oem.id=ec2"), Ok("gce".to_string()));
    assert_eq!(get_oem("coreos.oem.id coreos.oem.id=ec2"), Ok("ec2".to_string()));
}

#[test]
fn the_value_ends_before_the_next_equals_sign() {
    assert_eq!(get_oem("coreos.oem.id=ec2=more"), Ok("ec2".to_string()));
    assert_eq!(get_oem("coreos.oem.id="), Ok(String::new()));
    assert_eq!(get_oem("coreos.oem.id==x"), Ok(String::new()));
}

#[test]
fn nothing_is_trimmed_from_the_value() {
    assert_eq!(get_oem("quiet coreos.oem.id=ec2\n"), Ok("ec2\n".to_string()));
    assert_eq!(get_oem("quiet  coreos.oem.id=packet"), Ok("packet".to_string()));
    assert_eq!(get_oem("coreos.oem.id=digitalocean\tmore"), Ok("digitalocean\tmore".to_string()));
}

#[test]
fn any_key_can_be_looked_up() {
    assert_eq!(OEM_KEY, "coreos.oem.id");
    let contents = "root=/dev/sda1 console=ttyS0 ro";
    assert_eq!(find_value(contents, "root"), Some("/dev/sda1".to_string()));
    assert_eq!(find_value(contents, "console"), Some("ttyS0".to_string()));
    assert_eq!(find_value(contents, "ro"), None);
    assert_eq!(find_value(contents, "roo"), None);
    assert_eq!(find_value("π=3 é=ü", "é"), Some("ü".to_string()));
}

#[test]
fn a_long_flag_with_one_hyphen_gets_its_second() {
    assert_eq!(normalize_arg("-provider"), "--provider");
    assert_eq!(normalize_arg("-cmdline"), "--cmdline");
    assert_eq!(normalize_arg("-ssh-keys=core"), "--ssh-keys=core");
}

#[test]
fn other_arguments_stay_as_they_are() {
    assert_eq!(normalize_arg("--provider"), "--provider");
    assert_eq!(normalize_arg("-p"), "-p");
    assert_eq!(normalize_arg("-"), "-");
    assert_eq!(normalize_arg("--"), "--");
    assert_eq!(normalize_arg(""), "");
    assert_eq!(normalize_arg("ec2"), "ec2");
    assert_eq!(normalize_arg("/run/metadata"), "/run/metadata");
}

#[test]
fn the_length_of_a_flag_is_counted_in_bytes() {
    assert_eq!(normalize_arg("-é"), "--é");
    assert_eq!(normalize_arg("-ab"), "--ab");
}

#[test]
fn normalizing_twice_changes_nothing_more() {
    for arg in ["-provider", "--provider", "-p", "ec2", "-é"] {
        let once = normalize_arg(arg);
        assert_eq!(normalize_arg(&once), once);
    }
}

fn config(provider: Option<&str>, cmdline: bool) -> Config {
    Config {
        provider: provider.map(|p| p.to_string()),
        attributes_file: None,
        ssh_keys_user: None,
        hostname_file: None,
        network_units_dir: None,
        cmdline,
    }
}

#[test]
fn a_named_provider_wins_over_the_boot_parameters() {
    assert_eq!(
        config(Some("ec2"), true).provider_source(),
        ProviderSource::Named("ec2".to_string())
    );
    assert_eq!(
        config(Some("gce"), false).provider_source(),
        ProviderSource::Named("gce".to_string())
    );
}

#[test]
fn without_a_name_the_boot_parameters_are_read_if_asked_for() {
    assert_eq!(config(None, true).provider_source(), ProviderSource::BootParameters);
    assert_eq!(config(None, false).provider_source(), ProviderSource::Missing);
}

#[test]
fn the_error_names_the_key_and_the_file() {
    assert_eq!(CMDLINE_PATH, "/proc/cmdline");
    let error = get_oem("BOOT_IMAGE=/vmlinuz console=ttyS0").unwrap_err();
    assert_eq!(
        error.message(),
        "Couldn't find 'coreos.oem.id' flag in cmdline file (/proc/cmdline)"
    );
}
