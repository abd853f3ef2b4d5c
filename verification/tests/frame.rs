use osc_commands::frame::{is_admitted, MAX_DATAGRAM, MAX_DEPTH};

fn message_with_tags(tags: &str) -> Vec<u8> {
    let mut data = b"/a\0\0".to_vec();
    data.extend_from_slice(tags.as_bytes());
    data.push(0);
    while data.len() % 4 != 0 {
        data.push(0);
    }
    data
}

fn bundle_of(elements: &[Vec<u8>]) -> Vec<u8> {
    let mut data = b"#bundle\0\0\0\0\0\0\0\0\x01".to_vec();
    for e in elements {
        data.extend_from_slice(&(e.len() as u32).to_be_bytes());
        data.extend_from_slice(e);
    }
    data
}

fn nested_bundle(levels: usize) -> Vec<u8> {
    let mut data = message_with_tags(",i");
    data.extend_from_slice(&[0, 0, 0, 1]);
    for _ in 0..levels {
        data = bundle_of(&[data]);
    }
    data
}

#[test]
fn limits_are_as_documented() {
    assert_eq!(MAX_DATAGRAM, 64 * 1024);
    assert_eq!(MAX_DEPTH, 32);
}

#[test]
fn anything_short_is_admitted() {
    assert!(is_admitted(b""));
    assert!(is_admitted(b"/"));
    assert!(is_admitted(b"#bundle"));
    assert!(is_admitted(b"no packet at all"));
    assert!(is_admitted(b"/a\0\0,\0\0\0"));
}

#[test]
fn arrays_are_counted_in_the_type_tags() {
    assert!(is_admitted(&message_with_tags(",[i[i]]")));
    assert!(is_admitted(&message_with_tags(&format!(",{}{}", "[".repeat(32), "]".repeat(32)))));
    assert!(!is_admitted(&message_with_tags(&format!(",{}{}", "[".repeat(33), "]".repeat(33)))));
    assert!(!is_admitted(&message_with_tags(&format!(",{}", "[".repeat(33)))));
}

#[test]
fn arrays_side_by_side_are_not_deep() {
    assert!(is_admitted(&message_with_tags(&format!(",{}", "[]".repeat(1000)))));
    assert!(is_admitted(&message_with_tags(&format!(",{}", "[[]]".repeat(1000)))));
    assert!(is_admitted(&message_with_tags(&format!(",{}", "]".repeat(1000)))));
}

#[test]
fn brackets_in_the_address_and_in_the_data_are_not_counted() {
    let mut data = format!("/{}", "[".repeat(99)).into_bytes();
    data.push(0);
    data.extend_from_slice(b",s\0\0");
    data.extend_from_slice("[".repeat(99).as_bytes());
    data.push(0);
    assert!(is_admitted(&data));
}

#[test]
fn bundles_are_counted_through_their_elements() {
    assert!(is_admitted(&bundle_of(&[])));
    assert!(is_admitted(&nested_bundle(1)));
    assert!(is_admitted(&nested_bundle(32)));
    assert!(!is_admitted(&nested_bundle(33)));
    assert!(!is_admitted(&nested_bundle(200)));
}

#[test]
fn bundles_side_by_side_are_not_deep() {
    let mut elements = Vec::new();
    for _ in 0..200 {
        elements.push(nested_bundle(3));
    }
    assert!(is_admitted(&bundle_of(&elements)));
    elements.push(nested_bundle(32));
    assert!(!is_admitted(&bundle_of(&elements)));
    elements.pop();
    elements.push(nested_bundle(31));
    assert!(is_admitted(&bundle_of(&elements)));
}

#[test]
fn deep_arrays_inside_a_bundle_are_found() {
    let deep = message_with_tags(&format!(",{}", "[".repeat(40)));
    assert!(!is_admitted(&bundle_of(&[message_with_tags(",i"), deep.clone()])));
    assert!(is_admitted(&bundle_of(&[message_with_tags(",i"), message_with_tags(",[[]]")])));
    assert!(!is_admitted(&bundle_of(&[bundle_of(&[deep])])));
}

#[test]
fn element_longer_than_the_bundle_ends_the_elements() {
    let mut data = bundle_of(&[message_with_tags(",i")]);
    data.extend_from_slice(&[0, 0, 0xff, 0xff]);
    data.extend_from_slice(&nested_bundle(40));
    assert!(is_admitted(&data));
}
