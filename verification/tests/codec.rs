//! The wire codec: exact encodings, round trips, and decode failures.
use tile_game::codec::{
    decode_client_packet, decode_server_packet, encode_client_packet, encode_server_packet,
};
use tile_game::digits::{parse_u64, u64_to_dec};
use tile_game::leader_board_stat::{LeaderBoardEntry, LeaderBoardList};
use tile_game::packet::{ClientPacket, GameDataPacket, LoginInfo, ServerPacket};

fn login(user: &str, key: &str) -> LoginInfo {
    LoginInfo { user_name: user.to_string(), key: key.to_string() }
}

fn submit(score: i32, user: &str, key: &str) -> ClientPacket {
    ClientPacket::SubmitDataPacket(GameDataPacket { score, login_info: login(user, key) })
}

fn entry(user: &str, disc: &str, score: i32) -> LeaderBoardEntry {
    LeaderBoardEntry::new(user.to_string(), score, disc.to_string())
}

fn board(entries: Vec<LeaderBoardEntry>) -> ServerPacket {
    ServerPacket::LeaderBoard(LeaderBoardList::new(entries))
}

#[test]
fn exact_client_encodings() {
    assert_eq!(encode_client_packet(&ClientPacket::GetLeaderBoardsList), "G");
    assert_eq!(encode_client_packet(&submit(5, "ab", "c")), "S5;2:ab1:c");
    assert_eq!(encode_client_packet(&submit(-12, "", "xy")), "S-12;0:2:xy");
}

#[test]
fn exact_server_encodings() {
    assert_eq!(encode_server_packet(&ServerPacket::ErrorState), "E");
    assert_eq!(encode_server_packet(&board(vec![])), "L0;");
    assert_eq!(encode_server_packet(&board(vec![entry("u", "d", -3)])), "L1;1:u1:d-3;");
    assert_eq!(
        encode_server_packet(&board(vec![entry("ann", "123456", 10), entry("bo", "9", 0)])),
        "L2;3:ann6:12345610;2:bo1:90;"
    );
}

fn client_round_trip(p: ClientPacket) {
    let text = encode_client_packet(&p);
    let back = decode_client_packet(&text).expect("round trip must decode");
    match (&p, &back) {
        (ClientPacket::GetLeaderBoardsList, ClientPacket::GetLeaderBoardsList) => {}
        (ClientPacket::SubmitDataPacket(a), ClientPacket::SubmitDataPacket(b)) => {
            assert_eq!(a.score, b.score);
            assert_eq!(a.login_info.user_name, b.login_info.user_name);
            assert_eq!(a.login_info.key, b.login_info.key);
        }
        _ => panic!("round trip changed the variant"),
    }
}

fn server_round_trip(p: ServerPacket) {
    let text = encode_server_packet(&p);
    let back = decode_server_packet(&text).expect("round trip must decode");
    match (&p, &back) {
        (ServerPacket::ErrorState, ServerPacket::ErrorState) => {}
        (ServerPacket::LeaderBoard(a), ServerPacket::LeaderBoard(b)) => {
            assert_eq!(a.list.len(), b.list.len());
            for (x, y) in a.list.iter().zip(b.list.iter()) {
                assert_eq!(x.username, y.username);
                assert_eq!(x.discriminator, y.discriminator);
                assert_eq!(x.score, y.score);
            }
        }
        _ => panic!("round trip changed the variant"),
    }
}

#[test]
fn client_packets_round_trip() {
    client_round_trip(ClientPacket::GetLeaderBoardsList);
    client_round_trip(submit(0, "", ""));
    client_round_trip(submit(i32::MAX, "alice", "secret"));
    client_round_trip(submit(i32::MIN, "a:b;c", "1:2;3"));
    client_round_trip(submit(-1, "99:", ";;;;"));
}

#[test]
fn server_packets_round_trip() {
    server_round_trip(ServerPacket::ErrorState);
    server_round_trip(board(vec![]));
    server_round_trip(board(vec![entry("u", "d", 42)]));
    server_round_trip(board(vec![
        entry("a;b", "1:", -7),
        entry("", "", 0),
        entry("third", "000000", i32::MAX),
    ]));
}

#[test]
fn malformed_client_texts_fail_to_decode() {
    for text in ["", "X", "G1", "GG", "S", "S;", "S5", "S5;", "S5;2:a", "S5;2:ab", "S5;2:ab1:",
        "S5;2:ab1:c ", "S99999999999;0:0:", "S-;0:0:", "S5,2:ab1:c"]
    {
        assert!(decode_client_packet(text).is_none(), "accepted {:?}", text);
    }
}

#[test]
fn malformed_server_texts_fail_to_decode() {
    for text in ["", "F", "E2", "L", "L;", "L1;", "L1;1:u1:d-3", "L2;1:u1:d-3;", "L0; ",
        "L1;1:u1:d3;x", "L184467440737095516170;"]
    {
        assert!(decode_server_packet(text).is_none(), "accepted {:?}", text);
    }
}

#[test]
fn decode_accepts_exactly_one_packet() {
    // Two packets in one read are a protocol-breaking edge case: the text
    // must be rejected rather than half-consumed.
    let one = encode_client_packet(&ClientPacket::GetLeaderBoardsList);
    let two = format!("{}{}", one, one);
    assert!(decode_client_packet(&two).is_none());
    let board_text = encode_server_packet(&board(vec![entry("u", "d", 1)]));
    let twice = format!("{}{}", board_text, board_text);
    assert!(decode_server_packet(&twice).is_none());
}

#[test]
fn decimal_text_prints_and_parses() {
    assert_eq!(u64_to_dec(0), "0");
    assert_eq!(u64_to_dec(42), "42");
    assert_eq!(u64_to_dec(u64::MAX), "18446744073709551615");
    assert_eq!(parse_u64("123abc", 0), Some((123, 3)));
    assert_eq!(parse_u64("a123", 0), None);
    assert_eq!(parse_u64("a123", 1), Some((123, 4)));
    assert_eq!(parse_u64("18446744073709551615", 0), Some((u64::MAX, 20)));
    // One past the largest value no longer fits.
    assert_eq!(parse_u64("18446744073709551616", 0), None);
}

#[test]
fn texts_beyond_ascii_round_trip() {
    // The length prefix counts characters, not bytes.
    client_round_trip(submit(7, "h\u{e9}l\u{e8}ne", "cl\u{e9} de s\u{fb}ret\u{e9}"));
    server_round_trip(board(vec![entry("\u{30bf}\u{30a4}\u{30eb}", "\u{265a}", 1)]));
}
