use peers_updater::{find_comment_end_and_continue, find_end_of_peers_fragment, find_peers_start_pos};

fn cv(s: &str) -> Vec<char> {
    s.chars().collect()
}

#[test]
fn locator_matches_real_key_after_hash_decoy() {
    let d = cv("# Peers: [x]\nPeers:\n  [\n    1\n  ]");
    assert_eq!(find_peers_start_pos(&d, 0, d.len()), 13);
}

#[test]
fn locator_skips_line_comment_decoy() {
    let d = cv("// Peers: [x]\nPeers: []");
    assert_eq!(find_peers_start_pos(&d, 0, d.len()), 14);
}

#[test]
fn locator_skips_block_comment_decoy() {
    let d = cv("/* Peers: [dead] */\nPeers: []");
    assert_eq!(find_peers_start_pos(&d, 0, d.len()), 20);
}

#[test]
fn locator_reports_document_length_without_key() {
    let d = cv("foo: 1\nbar: 2\n");
    assert_eq!(find_peers_start_pos(&d, 0, d.len()), d.len());
}

#[test]
fn locator_finds_quoted_spelling() {
    let d = cv("{\n\"Peers\": []\n}");
    assert_eq!(find_peers_start_pos(&d, 0, d.len()), 2);
}

#[test]
fn locator_key_only_inside_block_comment_is_not_found() {
    let d = cv("a: 1\n/* Peers: [dead] */\nb: 2\n");
    assert_eq!(find_peers_start_pos(&d, 0, d.len()), d.len());
}

#[test]
fn skipper_continuation_mode_passes_terminator() {
    let d = cv("# hi\nrest");
    let nl = cv("\n");
    assert_eq!(find_comment_end_and_continue(&d, &nl, 1, d.len(), true), 5);
}

#[test]
fn skipper_inspection_mode_stops_on_terminator() {
    let d = cv("# hi\nrest");
    let nl = cv("\n");
    assert_eq!(find_comment_end_and_continue(&d, &nl, 1, d.len(), false), 4);
}

#[test]
fn skipper_returns_document_end_without_terminator() {
    let d = cv("# hi");
    let nl = cv("\n");
    assert_eq!(find_comment_end_and_continue(&d, &nl, 1, d.len(), true), 4);
}

#[test]
fn skipper_finds_block_terminator() {
    let d = cv("/* x */y");
    let close = cv("*/");
    assert_eq!(find_comment_end_and_continue(&d, &close, 2, d.len(), false), 5);
}

#[test]
fn extent_finds_simple_close() {
    let d = cv("[ a ]");
    assert_eq!(find_end_of_peers_fragment(&d, 0, d.len()), 4);
}

#[test]
fn extent_balances_nested_brackets() {
    let d = cv("[[x] ]");
    assert_eq!(find_end_of_peers_fragment(&d, 0, d.len()), 5);
}

#[test]
fn extent_ignores_bracket_inside_hash_comment() {
    let d = cv("[ # ]\n]");
    assert_eq!(find_end_of_peers_fragment(&d, 0, d.len()), 6);
}

#[test]
fn extent_handles_bracket_adjacent_to_block_close() {
    let d = cv("[/*x*/]");
    assert_eq!(find_end_of_peers_fragment(&d, 0, d.len()), 6);
}

#[test]
fn extent_reports_document_length_when_unbalanced() {
    let d = cv("[ a");
    assert_eq!(find_end_of_peers_fragment(&d, 0, d.len()), d.len());
}
