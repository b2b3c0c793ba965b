//! The client and server packet envelopes of the leaderboard protocol, and
//! the derivation of the fixed-width score key from a player identity.
use crate::leader_board_stat::{EntryView, LeaderBoardList};
use vstd::prelude::*;

verus! {

/// The identity a player submits scores under. The pair is never used as a
/// record key directly; it is hashed into a `u64` score key first.
#[derive(Debug)]
pub struct LoginInfo {
    pub user_name: String,
    pub key: String,
}

/// The ghost value of an identity.
pub ghost struct LoginInfoView {
    pub user_name: Seq<char>,
    pub key: Seq<char>,
}

impl View for LoginInfo {
    type V = LoginInfoView;

    open spec fn view(&self) -> LoginInfoView {
        LoginInfoView { user_name: self.user_name@, key: self.key@ }
    }
}

impl Clone for LoginInfo {
    fn clone(&self) -> (r: Self)
        ensures
            r == *self,
    {
        LoginInfo { user_name: self.user_name.clone(), key: self.key.clone() }
    }
}

impl Default for LoginInfo {
    fn default() -> (r: Self)
        ensures
            r.user_name@ == Seq::<char>::empty(),
            r.key@ == Seq::<char>::empty(),
    {
        LoginInfo { user_name: String::new(), key: String::new() }
    }
}

/// A finished score together with the identity that earned it.
#[derive(Debug)]
pub struct GameDataPacket {
    pub score: i32,
    pub login_info: LoginInfo,
}

/// The ghost value of a score submission.
pub ghost struct GameDataView {
    pub score: int,
    pub login_info: LoginInfoView,
}

impl View for GameDataPacket {
    type V = GameDataView;

    open spec fn view(&self) -> GameDataView {
        GameDataView { score: self.score as int, login_info: self.login_info@ }
    }
}

impl Clone for GameDataPacket {
    fn clone(&self) -> (r: Self)
        ensures
            r == *self,
    {
        GameDataPacket { score: self.score, login_info: self.login_info.clone() }
    }
}

impl Default for GameDataPacket {
    fn default() -> (r: Self)
        ensures
            r.score == 0,
            r.login_info.user_name@ == Seq::<char>::empty(),
            r.login_info.key@ == Seq::<char>::empty(),
    {
        GameDataPacket { score: 0, login_info: LoginInfo::default() }
    }
}

/// What a client may ask the service: submit a finished score, or request the
/// current leaderboard.
#[derive(Debug)]
pub enum ClientPacket {
    SubmitDataPacket(GameDataPacket),
    GetLeaderBoardsList,
}

/// The ghost value of a client packet.
pub ghost enum ClientPacketView {
    SubmitDataPacket(GameDataView),
    GetLeaderBoardsList,
}

impl View for ClientPacket {
    type V = ClientPacketView;

    open spec fn view(&self) -> ClientPacketView {
        match self {
            ClientPacket::SubmitDataPacket(g) => ClientPacketView::SubmitDataPacket(g@),
            ClientPacket::GetLeaderBoardsList => ClientPacketView::GetLeaderBoardsList,
        }
    }
}

impl Clone for ClientPacket {
    fn clone(&self) -> (r: Self)
        ensures
            r == *self,
    {
        match self {
            ClientPacket::SubmitDataPacket(g) => ClientPacket::SubmitDataPacket(g.clone()),
            ClientPacket::GetLeaderBoardsList => ClientPacket::GetLeaderBoardsList,
        }
    }
}

/// What the service replies: a full unsorted snapshot of the leaderboard, or
/// an explicit error envelope.
#[derive(Debug)]
pub enum ServerPacket {
    LeaderBoard(LeaderBoardList),
    ErrorState,
}

/// The ghost value of a server packet.
pub ghost enum ServerPacketView {
    LeaderBoard(Seq<EntryView>),
    ErrorState,
}

impl View for ServerPacket {
    type V = ServerPacketView;

    open spec fn view(&self) -> ServerPacketView {
        match self {
            ServerPacket::LeaderBoard(l) => ServerPacketView::LeaderBoard(l@),
            ServerPacket::ErrorState => ServerPacketView::ErrorState,
        }
    }
}

/// The offset basis of the 64-bit FNV-1a hash.
pub open spec fn hash_offset_basis() -> u64 {
    0xcbf29ce484222325
}

/// The prime of the 64-bit FNV-1a hash.
pub open spec fn hash_prime() -> nat {
    0x100000001b3
}

/// The terminator folded in after each text, so that moving characters
/// between the two texts changes the key. It lies beyond every Unicode scalar
/// value, so no character folds to it.
pub open spec fn hash_terminator() -> u64 {
    0x110000
}

/// One FNV-1a round: the value is folded in by xor, then the state is
/// multiplied by the prime modulo two to the sixty-fourth.
pub open spec fn spec_hash_step(h: u64, v: u64) -> u64 {
    (((h ^ v) as nat * hash_prime()) % 0x10000000000000000) as u64
}

/// Folds a text into the hash state, one character's scalar value per round.
pub open spec fn spec_hash_chars(h: u64, s: Seq<char>) -> u64
    decreases s.len(),
{
    if s.len() == 0 {
        h
    } else {
        spec_hash_chars(spec_hash_step(h, s[0] as u64), s.drop_first())
    }
}

/// The score key of an identity: 64-bit FNV-1a over the scalar values of the
/// user name, a terminator, the key text, and a terminator. The algorithm is
/// pinned here so the derived store keys survive releases, instead of
/// inheriting whatever hasher the standard library ships.
pub open spec fn spec_identity_hash(user_name: Seq<char>, key: Seq<char>) -> u64 {
    spec_hash_step(
        spec_hash_chars(
            spec_hash_step(spec_hash_chars(hash_offset_basis(), user_name), hash_terminator()),
            key,
        ),
        hash_terminator(),
    )
}

impl LoginInfo {
    /// The score key this identity stores under.
    pub fn hash(&self) -> (r: u64)
        ensures
            r == spec_identity_hash(self.user_name@, self.key@),
    {
        let h = hash_str(0xcbf29ce484222325, self.user_name.as_str());
        let h = hash_mix(h, 0x110000);
        let h = hash_str(h, self.key.as_str());
        hash_mix(h, 0x110000)
    }
}

/// Folds every character of `s` into the hash state.
fn hash_str(h0: u64, s: &str) -> (r: u64)
    ensures
        r == spec_hash_chars(h0, s@),
{
    let len = s.unicode_len();
    let mut h = h0;
    let mut i: usize = 0;
    proof {
        assert(s@.skip(0) =~= s@);
    }
    while i < len
        invariant
            i <= len,
            len == s@.len(),
            spec_hash_chars(h, s@.skip(i as int)) == spec_hash_chars(h0, s@),
        decreases len - i,
    {
        let c = s.get_char(i);
        proof {
            assert(s@.skip(i as int).drop_first() =~= s@.skip(i as int + 1));
            assert(s@.skip(i as int)[0] == s@[i as int]);
        }
        h = hash_mix(h, c as u64);
        i = i + 1;
    }
    proof {
        assert(s@.skip(len as int) =~= Seq::<char>::empty());
    }
    h
}

/// One executable FNV-1a round.
fn hash_mix(h: u64, v: u64) -> (r: u64)
    ensures
        r == spec_hash_step(h, v),
{
    let x = h ^ v;
    let wide = (x as u128) * 0x100000001b3u128;
    (wide % 0x10000000000000000u128) as u64
}

} // verus!
