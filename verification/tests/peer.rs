use std::collections::HashMap;

use nysia_core::peer::{
    ancestry, parent_in_table, parent_of, sid_to_hex, PeerCredentials, PeerError,
    MAX_ANCESTRY_DEPTH,
};
use nysia_core::wire::{Incarnation, PaneKey, SessionHandle};

fn pane(text: &str) -> PaneKey {
    PaneKey { text: text.to_owned() }
}

fn leader(pid: u32) -> HashMap<u32, (SessionHandle, Incarnation)> {
    HashMap::from([(
        pid,
        (
            SessionHandle { text: "session-1".to_owned() },
            Incarnation { pane: pane("tab_1:leaf_1"), generation: 0 },
        ),
    )])
}

#[test]
fn a_peer_from_another_account_is_refused_and_one_from_this_account_is_not() {
    let mine = PeerCredentials {
        pid: Some(7),
        user: "1000".to_owned(),
        daemon_user: "1000".to_owned(),
    };
    assert!(mine.authorize());

    let theirs = PeerCredentials { user: "1001".to_owned(), ..mine.clone() };
    assert!(!theirs.authorize());

    let unknown = PeerCredentials { user: String::new(), daemon_user: String::new(), ..mine };
    assert!(!unknown.authorize());
}

#[test]
fn a_refusal_never_repeats_the_credentials_back() {
    let refused = PeerCredentials {
        pid: Some(4242),
        user: "S-1-5-21-secret".to_owned(),
        daemon_user: "S-1-5-18".to_owned(),
    };
    let detail = refused.refusal_detail();
    assert!(!detail.contains("S-1-5-21-secret"));
    assert!(!detail.contains("4242"));
}

#[test]
fn the_caller_that_is_the_session_leader_is_found_at_depth_zero() {
    let leaders = leader(1000);
    let found = ancestry(1000, &leaders, &HashMap::new()).expect("the leader is its own ancestor");
    assert_eq!(found.depth, 0);
}

#[test]
fn a_caller_that_descends_from_nothing_owned_is_not_an_error() {
    let parents = HashMap::from([(4000, 3000), (3000, 1)]);
    assert!(ancestry(4000, &HashMap::new(), &parents).is_none());
}

#[test]
fn the_walk_reaches_a_real_ancestor_of_this_process() {
    let parents = HashMap::from([(4000, 3000), (3000, 1)]);
    let found = ancestry(4000, &leader(3000), &parents).expect("the parent is owned");
    assert_eq!(found.depth, 1);
    assert_eq!(found.handle.text, "session-1");
    assert_eq!(found.incarnation.generation, 0);
}

#[test]
fn a_cycle_in_the_process_table_ends_the_walk() {
    let parents = HashMap::from([(10, 11), (11, 12), (12, 10)]);
    assert!(ancestry(10, &leader(99), &parents).is_none());
    let own = HashMap::from([(10, 10)]);
    assert!(ancestry(10, &leader(99), &own).is_none());
}

#[test]
fn the_walk_gives_up_at_its_depth() {
    let mut parents: HashMap<u32, u32> = HashMap::new();
    for pid in 1000..1200u32 {
        parents.insert(pid, pid + 1);
    }
    let last = 1000 + MAX_ANCESTRY_DEPTH as u32 - 1;
    let near = ancestry(1000, &leader(last), &parents).expect("within the bound");
    assert_eq!(near.depth, MAX_ANCESTRY_DEPTH - 1);
    assert!(ancestry(1000, &leader(last + 1), &parents).is_none());
}

#[test]
fn a_stat_record_is_read_after_its_last_bracket() {
    assert_eq!(parent_of("42 (bash) S 7 42 42 0"), Some(7));
    assert_eq!(parent_of("42 (a) b) c) S 77 42"), Some(77));
    assert_eq!(parent_of("42 (bash) S"), None);
    assert_eq!(parent_of("no bracket at all"), None);
    assert_eq!(parent_of("42 (bash) S seven 42"), None);
    assert_eq!(parent_of("42 (bash) S 4294967296 42"), None);
    assert_eq!(parent_of("42 (bash) S 4294967295 42"), Some(u32::MAX));
}

#[test]
fn a_unix_answer_becomes_credentials() {
    let known = PeerCredentials::from_unix(Some(31), 501, 501);
    assert_eq!(known.pid, Some(31));
    assert_eq!(known.user, "501");
    assert!(known.authorize());
    assert_eq!(known.describe(), "pid 31 as 501");
    let unknown = PeerCredentials::from_unix(Some(-1), 0, 501);
    assert_eq!(unknown.pid, None);
    assert_eq!(unknown.describe(), "unknown pid as 0");
    assert!(!unknown.authorize());
    assert_eq!(
        PeerError::Credentials("denied".to_owned()).message(),
        "could not read peer credentials from the kernel: denied"
    );
    assert_eq!(
        PeerError::Unsupported.message(),
        "peer credentials are not available on this platform"
    );
}

#[test]
fn a_sid_is_spelled_as_the_hex_of_its_bytes_and_an_empty_one_names_nobody() {
    let system = [1u8, 1, 0, 0, 0, 0, 0, 5, 18, 0, 0, 0];
    assert_eq!(sid_to_hex(&system).as_deref(), Some("010100000000000512000000"));
    assert_eq!(sid_to_hex(&[0xaf]).as_deref(), Some("af"));
    assert_eq!(sid_to_hex(&[]), None);
    assert_ne!(sid_to_hex(&[1, 0x10]), sid_to_hex(&[0x11, 0]));
}

#[test]
fn an_account_windows_would_not_name_is_let_in_nowhere() {
    let named = PeerCredentials::from_windows(7, sid_to_hex(&[1, 5]), sid_to_hex(&[1, 5]));
    assert_eq!(named.pid, Some(7));
    assert_eq!(named.user, "0105");
    assert!(named.authorize());

    let unnamed = PeerCredentials::from_windows(7, None, None);
    assert_eq!(unnamed.user, "");
    assert_eq!(unnamed.daemon_user, "");
    assert!(!unnamed.authorize());
}

#[test]
fn a_process_table_gives_the_parent_of_its_first_entry_for_a_process() {
    let table = [(4, 0), (812, 4), (900, 812), (812, 9)];
    assert_eq!(parent_in_table(&table, 812), Some(4));
    assert_eq!(parent_in_table(&table, 4), Some(0));
    assert_eq!(parent_in_table(&table, 7), None);
    assert_eq!(parent_in_table(&[], 7), None);
}
