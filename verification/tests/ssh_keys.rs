use coreos_metadata::ssh::{
    key_indices, write_ssh_keys, AuthorizedKeys, KeyEntry, MANAGED_MARKER,
};

fn entry(key: &str, managed: bool) -> KeyEntry {
    KeyEntry { key: key.to_string(), managed }
}

fn keys(list: &[&str]) -> Vec<String> {
    list.iter().map(|k| k.to_string()).collect()
}

fn managed(store: &AuthorizedKeys) -> Vec<String> {
    store.entries.iter().filter(|e| e.managed).map(|e| e.key.clone()).collect()
}

fn unmanaged(store: &AuthorizedKeys) -> Vec<String> {
    store.entries.iter().filter(|e| !e.managed).map(|e| e.key.clone()).collect()
}

#[test]
fn a_later_merge_replaces_the_managed_keys_and_keeps_the_users() {
    let start = AuthorizedKeys { entries: vec![entry("X", false)] };
    let first = write_ssh_keys(&start, &keys(&["A", "B"]));
    assert_eq!(managed(&first), keys(&["A", "B"]));
    assert_eq!(unmanaged(&first), keys(&["X"]));
    let second = write_ssh_keys(&first, &keys(&["B", "C"]));
    assert_eq!(managed(&second), keys(&["B", "C"]));
    assert_eq!(unmanaged(&second), keys(&["X"]));
    assert_eq!(second, write_ssh_keys(&start, &keys(&["B", "C"])));
}

#[test]
fn merging_the_same_keys_again_changes_nothing() {
    let start = AuthorizedKeys {
        entries: vec![entry("old", true), entry("X", false), entry("Y", false)],
    };
    let once = write_ssh_keys(&start, &keys(&["A", "B"]));
    let twice = write_ssh_keys(&once, &keys(&["A", "B"]));
    assert_eq!(once, twice);
    assert_eq!(
        once,
        AuthorizedKeys {
            entries: vec![entry("X", false), entry("Y", false), entry("A", true), entry("B", true)],
        }
    );
}

#[test]
fn a_key_given_twice_is_kept_once() {
    let start = AuthorizedKeys { entries: Vec::new() };
    let after = write_ssh_keys(&start, &keys(&["A", "B", "A", "C", "B"]));
    assert_eq!(after, AuthorizedKeys { entries: vec![entry("A", true), entry("B", true), entry("C", true)] });
}

#[test]
fn no_keys_leave_only_what_the_user_added() {
    let start = AuthorizedKeys { entries: vec![entry("A", true), entry("X", false)] };
    let after = write_ssh_keys(&start, &Vec::new());
    assert_eq!(after, AuthorizedKeys { entries: vec![entry("X", false)] });
}

#[test]
fn a_key_of_the_user_stays_even_if_it_is_also_managed() {
    let start = AuthorizedKeys { entries: vec![entry("A", false)] };
    let after = write_ssh_keys(&start, &keys(&["A"]));
    assert_eq!(after, AuthorizedKeys { entries: vec![entry("A", false), entry("A", true)] });
}

#[test]
fn the_store_is_written_line_by_line() {
    assert_eq!(MANAGED_MARKER, " # coreos-metadata");
    let store = AuthorizedKeys {
        entries: vec![entry("ssh-rsa AAAA user@host", false), entry("ssh-ed25519 BBBB", true)],
    };
    assert_eq!(
        store.render(),
        "ssh-rsa AAAA user@host\nssh-ed25519 BBBB # coreos-metadata\n"
    );
    assert_eq!(AuthorizedKeys { entries: Vec::new() }.render(), "");
}

#[test]
fn the_store_is_read_line_by_line() {
    let text = "ssh-rsa AAAA user@host\n\nssh-ed25519 BBBB # coreos-metadata\nlast";
    assert_eq!(
        AuthorizedKeys::parse(text),
        AuthorizedKeys {
            entries: vec![
                entry("ssh-rsa AAAA user@host", false),
                entry("ssh-ed25519 BBBB", true),
                entry("last", false),
            ],
        }
    );
    assert_eq!(AuthorizedKeys::parse(""), AuthorizedKeys { entries: Vec::new() });
    assert_eq!(AuthorizedKeys::parse("\n\n"), AuthorizedKeys { entries: Vec::new() });
}

#[test]
fn a_line_that_is_the_marker_alone_is_a_managed_key_without_text() {
    assert_eq!(
        AuthorizedKeys::parse(" # coreos-metadata\n"),
        AuthorizedKeys { entries: vec![entry("", true)] }
    );
    assert_eq!(
        AuthorizedKeys::parse("# coreos-metadata\n"),
        AuthorizedKeys { entries: vec![entry("# coreos-metadata", false)] }
    );
}

#[test]
fn what_was_written_is_read_back() {
    let store = AuthorizedKeys {
        entries: vec![entry("X", false), entry("A", true), entry("ssh-rsa B c", true)],
    };
    assert_eq!(AuthorizedKeys::parse(&store.render()), store);
}

#[test]
fn a_whole_update_of_the_file_keeps_the_users_lines() {
    let file = "ssh-rsa USER me@laptop\nssh-rsa OLD # coreos-metadata\n";
    let store = AuthorizedKeys::parse(file);
    let after = write_ssh_keys(&store, &keys(&["ssh-rsa NEW", "ssh-rsa NEWER"]));
    assert_eq!(
        after.render(),
        "ssh-rsa USER me@laptop\nssh-rsa NEW # coreos-metadata\nssh-rsa NEWER # coreos-metadata\n"
    );
}

#[test]
fn a_listing_names_the_indices_of_the_keys() {
    assert_eq!(key_indices("0=my-key\n1=other=key\n"), keys(&["0", "1"]));
    assert_eq!(key_indices("0=my-key"), keys(&["0"]));
    assert_eq!(key_indices("7\n\n=x\n12=\n"), keys(&["7", "", "12"]));
    assert_eq!(key_indices(""), keys(&[]));
    assert_eq!(key_indices("\n"), keys(&[]));
}
