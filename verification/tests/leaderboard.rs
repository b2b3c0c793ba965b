//! Score reconciliation, the identity hash, sorting, and reply
//! interpretation.
use tile_game::client::interpret_server_reply;
use tile_game::codec::encode_server_packet;
use tile_game::game_state::ClientError;
use tile_game::leader_board_stat::{LeaderBoardEntry, LeaderBoardList};
use tile_game::packet::{ClientPacket, GameDataPacket, LoginInfo, ServerPacket};
use tile_game::server::{
    apply_submit, discriminator, handle_packet, make_entry, snapshot_values, StoreAction,
};

fn login(user: &str, key: &str) -> LoginInfo {
    LoginInfo { user_name: user.to_string(), key: key.to_string() }
}

fn entry(user: &str, disc: &str, score: i32) -> LeaderBoardEntry {
    LeaderBoardEntry::new(user.to_string(), score, disc.to_string())
}

/// The pinned identity hash, restated independently: 64-bit FNV-1a over the
/// scalar values of the user name, a terminator, the key text, and a
/// terminator.
fn expected_hash(user: &str, key: &str) -> u64 {
    let mut h: u64 = 0xcbf29ce484222325;
    let mix = |v: u64, h: u64| -> u64 {
        (((h ^ v) as u128 * 0x100000001b3u128) % (1u128 << 64)) as u64
    };
    for c in user.chars() {
        h = mix(c as u64, h);
    }
    h = mix(0x110000, h);
    for c in key.chars() {
        h = mix(c as u64, h);
    }
    mix(0x110000, h)
}

#[test]
fn identity_hash_is_pinned() {
    let l = login("alice", "secret");
    assert_eq!(l.hash(), expected_hash("alice", "secret"));
    let empty = login("", "");
    assert_eq!(empty.hash(), expected_hash("", ""));
}

#[test]
fn identity_hash_separates_the_two_texts() {
    // Moving characters between the name and the key changes the key.
    assert_ne!(login("ab", "").hash(), login("a", "b").hash());
    assert_ne!(login("", "ab").hash(), login("ab", "").hash());
}

#[test]
fn discriminator_is_a_prefix_of_the_key_text() {
    assert_eq!(discriminator(123), "123");
    assert_eq!(discriminator(1234567), "123456");
    assert_eq!(discriminator(0), "0");
    assert_eq!(discriminator(u64::MAX), "184467");
}

#[test]
fn make_entry_carries_name_score_and_discriminator() {
    let l = login("alice", "secret");
    let e = make_entry(&l, 9);
    assert_eq!(e.username, "alice");
    assert_eq!(e.score, 9);
    assert_eq!(e.discriminator.chars().count(), 6.min(l.hash().to_string().len()));
    assert!(l.hash().to_string().starts_with(&e.discriminator));
}

#[test]
fn lower_or_equal_submission_keeps_the_stored_entry() {
    let alice = login("alice", "secret");
    let (snap, wrote) = apply_submit(&Vec::new(), &alice, 10);
    assert!(wrote);
    assert_eq!(snap.len(), 1);
    assert_eq!(snap[0].1.score, 10);

    let (snap2, wrote2) = apply_submit(&snap, &alice, 7);
    assert!(!wrote2);
    assert_eq!(snap2.len(), 1);
    assert_eq!(snap2[0].1.score, 10);

    let (snap3, wrote3) = apply_submit(&snap, &alice, 10);
    assert!(!wrote3);
    assert_eq!(snap3[0].1.score, 10);
}

#[test]
fn strictly_higher_submission_replaces_the_stored_entry() {
    let alice = login("alice", "secret");
    let (snap, _) = apply_submit(&Vec::new(), &alice, 10);
    let (snap2, wrote) = apply_submit(&snap, &alice, 15);
    assert!(wrote);
    assert_eq!(snap2.len(), 1);
    assert_eq!(snap2[0].1.score, 15);
}

#[test]
fn one_entry_per_distinct_identity() {
    let alice = login("alice", "secret");
    let bob = login("bob", "hunter2");
    let (snap, _) = apply_submit(&Vec::new(), &alice, 10);
    let (snap, _) = apply_submit(&snap, &bob, 4);
    let (snap, _) = apply_submit(&snap, &alice, 12);
    let (snap, _) = apply_submit(&snap, &bob, 2);
    assert_eq!(snap.len(), 2);
    let mut scores: Vec<i32> = snap.iter().map(|p| p.1.score).collect();
    scores.sort();
    assert_eq!(scores, vec![4, 12]);
}

#[test]
fn sort_list_orders_descending_and_keeps_entries() {
    let mut list = LeaderBoardList::new(vec![
        entry("a", "1", 1),
        entry("b", "2", 5),
        entry("c", "3", 3),
        entry("d", "4", 5),
    ]);
    list.sort_list();
    let scores: Vec<i32> = list.get_list().iter().map(|e| e.get_score()).collect();
    assert_eq!(scores, vec![5, 5, 3, 1]);
    let mut names: Vec<String> = list.get_list().iter().map(|e| e.username.clone()).collect();
    names.sort();
    assert_eq!(names, vec!["a", "b", "c", "d"]);
}

#[test]
fn handle_packet_answers_a_listing_request() {
    let alice = login("alice", "secret");
    let (snap, _) = apply_submit(&Vec::new(), &alice, 10);
    let (reply, action) = handle_packet(&ClientPacket::GetLeaderBoardsList, Some(&snap));
    assert!(matches!(action, StoreAction::NoAction));
    match reply {
        ServerPacket::LeaderBoard(l) => {
            assert_eq!(l.get_list().len(), 1);
            assert_eq!(l.get_list()[0].score, 10);
        }
        ServerPacket::ErrorState => panic!("expected a snapshot"),
    }
}

#[test]
fn handle_packet_writes_only_improvements() {
    let alice = login("alice", "secret");
    let (snap, _) = apply_submit(&Vec::new(), &alice, 10);
    let packet = ClientPacket::SubmitDataPacket(GameDataPacket {
        score: 15,
        login_info: alice.clone(),
    });
    let (reply, action) = handle_packet(&packet, Some(&snap));
    match action {
        StoreAction::WriteEntry(k, e) => {
            assert_eq!(k, alice.hash());
            assert_eq!(e.score, 15);
        }
        _ => panic!("an improvement must be written"),
    }
    match reply {
        ServerPacket::LeaderBoard(l) => assert_eq!(l.get_list()[0].score, 15),
        ServerPacket::ErrorState => panic!("expected a snapshot"),
    }

    let lower = ClientPacket::SubmitDataPacket(GameDataPacket {
        score: 3,
        login_info: alice.clone(),
    });
    let (reply2, action2) = handle_packet(&lower, Some(&snap));
    assert!(matches!(action2, StoreAction::NoAction));
    match reply2 {
        ServerPacket::LeaderBoard(l) => assert_eq!(l.get_list()[0].score, 10),
        ServerPacket::ErrorState => panic!("expected a snapshot"),
    }
}

#[test]
fn handle_packet_rolls_back_on_store_failure() {
    let alice = login("alice", "secret");
    let packet = ClientPacket::SubmitDataPacket(GameDataPacket {
        score: 15,
        login_info: alice.clone(),
    });
    let (reply, action) = handle_packet(&packet, None);
    assert!(matches!(reply, ServerPacket::ErrorState));
    match action {
        StoreAction::DeleteKey(k) => assert_eq!(k, alice.hash()),
        _ => panic!("a failed submission is rolled back"),
    }
    let (reply2, action2) = handle_packet(&ClientPacket::GetLeaderBoardsList, None);
    assert!(matches!(reply2, ServerPacket::ErrorState));
    assert!(matches!(action2, StoreAction::NoAction));
}

#[test]
fn snapshot_values_strips_the_keys() {
    let alice = login("alice", "secret");
    let (snap, _) = apply_submit(&Vec::new(), &alice, 10);
    let values = snapshot_values(&snap);
    assert_eq!(values.len(), 1);
    assert_eq!(values[0].username, "alice");
}

#[test]
fn interpret_reply_sorts_a_snapshot() {
    let reply = ServerPacket::LeaderBoard(LeaderBoardList::new(vec![
        entry("a", "1", 1),
        entry("b", "2", 5),
        entry("c", "3", 3),
    ]));
    let text = encode_server_packet(&reply);
    let list = interpret_server_reply(&text).expect("a snapshot reply is Ok");
    let scores: Vec<i32> = list.get_list().iter().map(|e| e.score).collect();
    assert_eq!(scores, vec![5, 3, 1]);
}

#[test]
fn interpret_reply_maps_the_error_envelope() {
    let text = encode_server_packet(&ServerPacket::ErrorState);
    assert!(matches!(interpret_server_reply(&text), Err(ClientError::PacketError)));
}

#[test]
fn interpret_reply_rejects_garbage() {
    assert!(matches!(
        interpret_server_reply("not a packet"),
        Err(ClientError::DeserializationError)
    ));
    assert!(matches!(interpret_server_reply(""), Err(ClientError::DeserializationError)));
}
