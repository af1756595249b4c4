use peers_updater::{add_peers_to_conf_new, splice_fragment, PatchError, Peer};

fn text(s: &str) -> Vec<char> {
    s.chars().collect()
}

fn candidate(uri: &str, region: &str, country: &str) -> Peer {
    Peer { uri: text(uri), region: text(region), country: text(country) }
}

#[test]
fn patches_array_value_in_place() {
    let doc = text("foo: 1\nPeers:\n  [\n    old\n  ]\nbar: 2\n");
    let peers = vec![candidate("addr1", "EU", "FR"), candidate("addr2", "AS", "JP")];
    let r = add_peers_to_conf_new(&peers, 1, None, None, &doc).unwrap();
    assert_eq!(r, text("foo: 1\nPeers:\n  [\n    #EU/FR\n    addr1\n  ]\nbar: 2\n"));
}

#[test]
fn patches_with_exclusion_applied() {
    let doc = text("foo: 1\nPeers:\n  [\n    old\n  ]\nbar: 2\n");
    let peers = vec![candidate("addr1", "EU", "FR"), candidate("addr2", "AS", "JP")];
    let ignored = text("addr1");
    let r = add_peers_to_conf_new(&peers, 5, None, Some(&ignored), &doc).unwrap();
    assert_eq!(r, text("foo: 1\nPeers:\n  [\n    #AS/JP\n    addr2\n  ]\nbar: 2\n"));
}

#[test]
fn key_only_inside_comment_is_not_found() {
    let doc = text("foo: 1\n/* Peers: [dead] */\nbar: 2\n");
    let peers = vec![candidate("addr1", "EU", "FR")];
    let r = add_peers_to_conf_new(&peers, 1, None, None, &doc);
    assert_eq!(r.unwrap_err(), PatchError::KeyNotFound);
}

#[test]
fn zero_cap_with_fixed_additions_keeps_only_fixed_section() {
    let doc = text("foo: 1\nPeers:\n  [\n    old\n  ]\nbar: 2\n");
    let peers = vec![candidate("addr1", "EU", "FR")];
    let extra = text("addr9");
    let r = add_peers_to_conf_new(&peers, 0, Some(&extra), None, &doc).unwrap();
    assert_eq!(r, text("foo: 1\nPeers:\n  [\n\n    #extra\n    addr9\n  ]\nbar: 2\n"));
}

#[test]
fn missing_key_reports_key_not_found() {
    let doc = text("foo: 1\nbar: 2\n");
    let peers = vec![candidate("addr1", "EU", "FR")];
    let r = add_peers_to_conf_new(&peers, 1, None, None, &doc);
    assert_eq!(r.unwrap_err(), PatchError::KeyNotFound);
}

#[test]
fn unbalanced_value_reports_value_unbalanced() {
    let doc = text("Peers:\n  [\n    old\n");
    let peers = vec![candidate("addr1", "EU", "FR")];
    let r = add_peers_to_conf_new(&peers, 1, None, None, &doc);
    assert_eq!(r.unwrap_err(), PatchError::ValueUnbalanced);
}

#[test]
fn quoted_spelling_is_patched_past_its_own_length() {
    let doc = text("a: 1\n\"Peers\": [old]\nb: 2\n");
    let peers = vec![candidate("addr1", "EU", "FR")];
    let r = add_peers_to_conf_new(&peers, 1, None, None, &doc).unwrap();
    assert_eq!(r, text("a: 1\nPeers:\n  [\n    #EU/FR\n    addr1\n  ]\nb: 2\n"));
}

#[test]
fn bytes_outside_span_are_untouched() {
    let doc = text("abcdef");
    let r = splice_fragment(&doc, 1, 3, &text("XY"));
    assert_eq!(r, text("aXYef"));
}
