//! Client-side interpretation of the service's reply: decode the text, map
//! the error envelope to an error kind, and sort a snapshot for display.
//! Connecting, writing and reading the socket are the caller's work; a
//! transport failure is mapped to `FailedToConnect` or `SocketReadError`
//! there.
use crate::codec::{decode_server_packet, spec_dec_server};
use crate::game_state::ClientError;
use crate::leader_board_stat::{sorted_desc, LeaderBoardEntry, LeaderBoardList};
use crate::packet::{ServerPacket, ServerPacketView};
use vstd::prelude::*;

verus! {

/// A permutation of entries is a permutation of their ghost values.
proof fn lemma_map_multiset(s1: Seq<LeaderBoardEntry>, s2: Seq<LeaderBoardEntry>)
    requires
        s1.to_multiset() == s2.to_multiset(),
    ensures
        s1.map_values(|e: LeaderBoardEntry| e@).to_multiset() == s2.map_values(
            |e: LeaderBoardEntry| e@,
        ).to_multiset(),
    decreases s1.len(),
{
    broadcast use vstd::seq_lib::group_to_multiset_ensures;

    let f = |e: LeaderBoardEntry| e@;
    if s1.len() == 0 {
        assert(s1.len() == s1.to_multiset().len());
        assert(s2.len() == s2.to_multiset().len());
        assert(s2.len() == 0);
        assert(s1.map_values(f) =~= s2.map_values(f));
    } else {
        let x = s1.last();
        assert(s1 =~= s1.drop_last().push(x));
        assert(s1.to_multiset() == s1.drop_last().push(x).to_multiset());
        assert(s1.contains(x));
        assert(s2.to_multiset().count(x) > 0);
        assert(s2.contains(x));
        let j = choose|j: int| 0 <= j < s2.len() && s2[j] == x;
        assert(s2.remove(j).to_multiset() == s2.to_multiset().remove(x));
        assert(s1.drop_last().to_multiset() =~= s1.to_multiset().remove(x));
        lemma_map_multiset(s1.drop_last(), s2.remove(j));
        assert(s1.map_values(f) =~= s1.drop_last().map_values(f).push(f(x)));
        assert(s2.remove(j).map_values(f) =~= s2.map_values(f).remove(j));
        assert(s2.map_values(f)[j] == f(x));
        assert(s2.map_values(f).remove(j).to_multiset() == s2.map_values(f).to_multiset().remove(
            f(x),
        ));
        assert(s2.map_values(f).contains(f(x)));
        assert(s2.map_values(f).to_multiset().count(f(x)) > 0);
        assert(s1.map_values(f).to_multiset() =~= s2.map_values(f).to_multiset());
    }
}

/// Interprets one reply text from the service: text that is not a packet is
/// a decode failure, the error envelope is a protocol error, and a snapshot
/// is returned sorted descending by score — the sorting is this client's
/// presentation step, not a promise of the server.
pub fn interpret_server_reply(reply: &str) -> (r: Result<LeaderBoardList, ClientError>)
    ensures
        match spec_dec_server(reply@) {
            None => r == Err::<LeaderBoardList, ClientError>(ClientError::DeserializationError),
            Some(pv) => match pv {
                ServerPacketView::ErrorState => r == Err::<LeaderBoardList, ClientError>(
                    ClientError::PacketError,
                ),
                ServerPacketView::LeaderBoard(es) => r matches Ok(l) && l@.to_multiset()
                    == es.to_multiset() && sorted_desc(l.list@),
            },
        },
{
    match decode_server_packet(reply) {
        None => Err(ClientError::DeserializationError),
        Some(ServerPacket::ErrorState) => Err(ClientError::PacketError),
        Some(ServerPacket::LeaderBoard(mut list)) => {
            let ghost before = list.list@;
            list.sort_list();
            proof {
                lemma_map_multiset(list.list@, before);
            }
            Ok(list)
        },
    }
}

} // verus!
