use coreos_metadata::errors::Error;
use coreos_metadata::hostname::{dns_label, write_hostname, Hostname};
use coreos_metadata::output::FileWrite;
use coreos_metadata::text::trim;

#[test]
fn the_hostname_is_written_on_a_line_of_its_own() {
    let hostname = Hostname::parse("node-1").unwrap();
    assert_eq!(
        write_hostname("/etc/hostname", &Some(hostname)),
        Some(FileWrite { path: "/etc/hostname".to_string(), contents: "node-1\n".to_string() })
    );
}

#[test]
fn no_hostname_means_nothing_to_write() {
    assert_eq!(write_hostname("/etc/hostname", &None), None);
}

#[test]
fn the_hostname_is_trimmed() {
    assert_eq!(Hostname::parse("  ip-10-0-0-5\n").unwrap().as_str(), "ip-10-0-0-5");
    assert_eq!(Hostname::parse("\tweb01\r\n").unwrap().as_str(), "web01");
    assert_eq!(Hostname::parse("A").unwrap().as_str(), "A");
}

#[test]
fn what_is_no_label_is_refused() {
    for raw in ["", "   ", "-a", "a-", "a b", "a_b", "a.b", "ü", "node\n1"] {
        assert_eq!(
            Hostname::parse(raw),
            Err(Error::InvalidHostname(raw.to_string())),
            "{:?}",
            raw
        );
    }
}

#[test]
fn a_label_has_at_most_63_characters() {
    let longest = "a".repeat(63);
    let too_long = "a".repeat(64);
    assert!(dns_label(&longest));
    assert!(!dns_label(&too_long));
    assert_eq!(Hostname::parse(&longest).unwrap().as_str(), longest);
    assert_eq!(Hostname::parse(&too_long), Err(Error::InvalidHostname(too_long.clone())));
}

#[test]
fn labels_are_letters_digits_and_inner_hyphens() {
    assert!(dns_label("a"));
    assert!(dns_label("0"));
    assert!(dns_label("a-0"));
    assert!(dns_label("A-z-9"));
    assert!(!dns_label(""));
    assert!(!dns_label("-"));
    assert!(!dns_label("a/b"));
    assert!(!dns_label("a{"));
    assert!(!dns_label("a`"));
    assert!(!dns_label("a@"));
    assert!(!dns_label("a["));
    assert!(!dns_label("a:"));
}

#[test]
fn trimming_takes_blanks_from_both_ends_only() {
    assert_eq!(trim("  a b \n"), "a b");
    assert_eq!(trim("a"), "a");
    assert_eq!(trim(""), "");
    assert_eq!(trim(" \t\r\n"), "");
    assert_eq!(trim("\u{a0}a\u{a0}"), "\u{a0}a\u{a0}");
}
