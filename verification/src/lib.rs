//! In-place, comment-aware patcher for the peer list of an HJSON-like
//! configuration document.
//!
//! The document is modelled as a sequence of characters. A left-to-right
//! scan that skips `#`, `//` and `/* ... */` comments locates the `Peers:`
//! (or `"Peers":`) key, a bracket-counting scan finds the matching closing
//! bracket of its array value, a pure builder renders the replacement
//! array from a ranked candidate list, and the patcher splices the
//! replacement between the two positions, leaving every other character
//! of the document untouched.

pub mod builder;
pub mod patch;
pub mod scan;

pub use builder::{build_replacement, contains_sub, split_spaces, Peer};
pub use patch::{add_peers_to_conf_new, splice_fragment, PatchError};
pub use scan::{
    find_comment_end_and_continue, find_end_of_peers_fragment, find_peers_start_pos, slice_eq_at,
};
