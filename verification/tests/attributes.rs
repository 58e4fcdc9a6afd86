use coreos_metadata::attributes::{write_attributes, Attribute, AttributeSet};
use coreos_metadata::output::FileWrite;

fn set(pairs: &[(&str, &str)]) -> AttributeSet {
    let mut attrs = AttributeSet::new();
    for (k, v) in pairs {
        attrs.insert(k.to_string(), v.to_string());
    }
    attrs
}

fn attribute(key: &str, value: &str) -> Attribute {
    Attribute { key: key.to_string(), value: value.to_string() }
}

#[test]
fn attributes_are_written_in_the_order_of_their_keys() {
    let attrs = set(&[("local-ipv4", "10.0.0.5"), ("instance-id", "i-123")]);
    let file = write_attributes("/run/metadata/coreos", &attrs);
    assert_eq!(
        file,
        FileWrite {
            path: "/run/metadata/coreos".to_string(),
            contents: "instance-id=i-123\nlocal-ipv4=10.0.0.5\n".to_string(),
        }
    );
}

#[test]
fn the_order_of_insertion_does_not_show() {
    let a = set(&[("b", "2"), ("a", "1"), ("c", "3")]);
    let b = set(&[("c", "3"), ("a", "1"), ("b", "2")]);
    assert_eq!(a.render(), "a=1\nb=2\nc=3\n");
    assert_eq!(a.render(), b.render());
    assert_eq!(a, b);
}

#[test]
fn writing_twice_gives_the_same_file() {
    let attrs = set(&[("region", "us-east-1"), ("hostname", "node")]);
    assert_eq!(write_attributes("f", &attrs), write_attributes("f", &attrs));
}

#[test]
fn no_attributes_give_an_empty_file() {
    let attrs = AttributeSet::new();
    assert_eq!(attrs.len(), 0);
    assert_eq!(attrs.render(), "");
    assert_eq!(write_attributes("f", &attrs).contents, "");
}

#[test]
fn a_key_holds_its_last_value() {
    let attrs = set(&[("a", "1"), ("b", "2"), ("a", "3")]);
    assert_eq!(attrs.len(), 2);
    assert_eq!(attrs.get("a"), Some("3".to_string()));
    assert_eq!(attrs.render(), "a=3\nb=2\n");
}

#[test]
fn values_are_found_under_their_keys() {
    let attrs = set(&[("instance-id", "i-123"), ("local-ipv4", "10.0.0.5")]);
    assert_eq!(attrs.get("instance-id"), Some("i-123".to_string()));
    assert_eq!(attrs.get("local-ipv4"), Some("10.0.0.5".to_string()));
    assert_eq!(attrs.get("public-ipv4"), None);
    assert_eq!(attrs.get(""), None);
    assert_eq!(attrs.get("instance"), None);
}

#[test]
fn a_prefix_comes_before_the_longer_key() {
    let attrs = set(&[("ab", "2"), ("a", "1"), ("abc", "3"), ("B", "0")]);
    assert_eq!(attrs.render(), "B=0\na=1\nab=2\nabc=3\n");
}

#[test]
fn keys_are_ordered_by_code_point() {
    let attrs = set(&[("é", "3"), ("z", "2"), ("Z", "1"), ("0", "0"), ("中", "4")]);
    assert_eq!(attrs.render(), "0=0\nZ=1\nz=2\né=3\n中=4\n");
}

#[test]
fn the_attributes_come_out_sorted() {
    let attrs = set(&[("c", "3"), ("a", "1"), ("b", "2")]);
    assert_eq!(attrs.to_vec(), vec![attribute("a", "1"), attribute("b", "2"), attribute("c", "3")]);
}

#[test]
fn values_may_hold_anything() {
    let attrs = set(&[("k", "a=b c"), ("empty", "")]);
    assert_eq!(attrs.render(), "empty=\nk=a=b c\n");
}
