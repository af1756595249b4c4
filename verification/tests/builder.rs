use peers_updater::{build_replacement, contains_sub, split_spaces, Peer};

fn chars_of(s: &str) -> Vec<char> {
    s.chars().collect()
}

fn peer(uri: &str, region: &str, country: &str) -> Peer {
    Peer { uri: chars_of(uri), region: chars_of(region), country: chars_of(country) }
}

#[test]
fn builder_emits_capped_entries() {
    let peers = vec![peer("addr1", "EU", "FR"), peer("addr2", "AS", "JP")];
    let r = build_replacement(&peers, 1, None, None);
    assert_eq!(r, chars_of("Peers:\n  [\n    #EU/FR\n    addr1\n  ]"));
}

#[test]
fn builder_emits_all_when_cap_exceeds_candidates() {
    let peers = vec![peer("addr1", "EU", "FR"), peer("addr2", "AS", "JP")];
    let r = build_replacement(&peers, 5, None, None);
    assert_eq!(
        r,
        chars_of("Peers:\n  [\n    #EU/FR\n    addr1\n    #AS/JP\n    addr2\n  ]")
    );
}

#[test]
fn builder_emits_nothing_when_cap_is_zero() {
    let peers = vec![peer("addr1", "EU", "FR")];
    let r = build_replacement(&peers, 0, None, None);
    assert_eq!(r, chars_of("Peers:\n  [\n  ]"));
}

#[test]
fn builder_appends_fixed_additions_even_with_zero_cap() {
    let peers = vec![peer("addr1", "EU", "FR")];
    let extra = chars_of("addr9");
    let r = build_replacement(&peers, 0, Some(&extra), None);
    assert_eq!(r, chars_of("Peers:\n  [\n\n    #extra\n    addr9\n  ]"));
}

#[test]
fn builder_appends_each_fixed_address_in_order() {
    let peers = Vec::new();
    let extra = chars_of("a b");
    let r = build_replacement(&peers, 0, Some(&extra), None);
    assert_eq!(r, chars_of("Peers:\n  [\n\n    #extra\n    a\n    b\n  ]"));
}

#[test]
fn builder_exclusion_keeps_order_of_the_rest() {
    let peers = vec![
        peer("addr1", "EU", "FR"),
        peer("addr2", "AS", "JP"),
        peer("addr3", "NA", "US"),
    ];
    let ignored = chars_of("addr2");
    let r = build_replacement(&peers, 5, None, Some(&ignored));
    assert_eq!(
        r,
        chars_of("Peers:\n  [\n    #EU/FR\n    addr1\n    #NA/US\n    addr3\n  ]")
    );
}

#[test]
fn builder_excluded_candidates_do_not_consume_the_cap() {
    let peers = vec![
        peer("addr1", "EU", "FR"),
        peer("addr2", "AS", "JP"),
        peer("addr3", "NA", "US"),
    ];
    let ignored = chars_of("addr1");
    let r = build_replacement(&peers, 1, None, Some(&ignored));
    assert_eq!(r, chars_of("Peers:\n  [\n    #AS/JP\n    addr2\n  ]"));
}

#[test]
fn contains_sub_finds_inner_occurrence() {
    assert!(contains_sub(&chars_of("tcp://a:1 tcp://b:2"), &chars_of("tcp://b")));
}

#[test]
fn contains_sub_rejects_absent_needle() {
    assert!(!contains_sub(&chars_of("tcp://a:1"), &chars_of("udp")));
}

#[test]
fn contains_sub_accepts_empty_needle() {
    assert!(contains_sub(&chars_of("x"), &chars_of("")));
}

#[test]
fn split_spaces_separates_segments() {
    let r = split_spaces(&chars_of("a b"));
    assert_eq!(r, vec![chars_of("a"), chars_of("b")]);
}

#[test]
fn split_spaces_keeps_empty_segments() {
    let r = split_spaces(&chars_of("a  b"));
    assert_eq!(r, vec![chars_of("a"), chars_of(""), chars_of("b")]);
}

#[test]
fn split_spaces_of_empty_text_is_one_empty_segment() {
    let r = split_spaces(&chars_of(""));
    assert_eq!(r, vec![chars_of("")]);
}
