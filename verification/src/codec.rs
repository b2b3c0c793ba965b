//! The wire codec of the leaderboard protocol: a tagged text serialization of
//! the client and server packet envelopes. Numbers are decimal, texts are
//! length-prefixed, and a whole packet must be consumed for a decode to
//! succeed. Encoding and decoding are proved inverse to each other.
use crate::digits::{
    is_digit_char, lemma_dec_digits, lemma_parse_dec, parse_u64, spec_dec, spec_parse_nat,
    u64_to_dec,
};
use crate::leader_board_stat::{EntryView, LeaderBoardEntry, LeaderBoardList};
use crate::packet::{
    ClientPacket, ClientPacketView, GameDataPacket, GameDataView, LoginInfo, LoginInfoView,
    ServerPacket, ServerPacketView,
};
use vstd::prelude::*;

verus! {

/// A length-prefixed text: the character count in decimal, a colon, then the
/// characters themselves.
pub open spec fn spec_enc_str(s: Seq<char>) -> Seq<char> {
    spec_dec(s.len()) + seq![':'] + s
}

/// A signed decimal number.
pub open spec fn spec_enc_int(n: int) -> Seq<char> {
    if n < 0 {
        seq!['-'] + spec_dec((-n) as nat)
    } else {
        spec_dec(n as nat)
    }
}

/// One leaderboard entry: name, discriminator, score, and a closing
/// semicolon.
pub open spec fn spec_enc_entry(e: EntryView) -> Seq<char> {
    spec_enc_str(e.username) + spec_enc_str(e.discriminator) + spec_enc_int(e.score) + seq![';']
}

/// All entries of a snapshot, in order.
pub open spec fn spec_enc_entries(es: Seq<EntryView>) -> Seq<char>
    decreases es.len(),
{
    if es.len() == 0 {
        Seq::<char>::empty()
    } else {
        spec_enc_entry(es[0]) + spec_enc_entries(es.drop_first())
    }
}

/// A client packet: a submission is the tag, the score, a semicolon and the
/// two identity texts; a leaderboard request is its tag alone.
pub open spec fn spec_enc_client(p: ClientPacketView) -> Seq<char> {
    match p {
        ClientPacketView::SubmitDataPacket(g) => seq!['S'] + spec_enc_int(g.score) + seq![';']
            + spec_enc_str(g.login_info.user_name) + spec_enc_str(g.login_info.key),
        ClientPacketView::GetLeaderBoardsList => seq!['G'],
    }
}

/// A server packet: a snapshot is the tag, the entry count, a semicolon and
/// the entries; the error envelope is its tag alone.
pub open spec fn spec_enc_server(p: ServerPacketView) -> Seq<char> {
    match p {
        ServerPacketView::LeaderBoard(es) => seq!['L'] + spec_dec(es.len()) + seq![';']
            + spec_enc_entries(es),
        ServerPacketView::ErrorState => seq!['E'],
    }
}

/// Appending an entry to a snapshot appends its encoding to the text.
proof fn lemma_enc_entries_snoc(es: Seq<EntryView>, e: EntryView)
    ensures
        spec_enc_entries(es.push(e)) == spec_enc_entries(es) + spec_enc_entry(e),
    decreases es.len(),
{
    if es.len() == 0 {
        assert(es.push(e)[0] == e);
        assert(es.push(e).drop_first() =~= Seq::<EntryView>::empty());
        assert(spec_enc_entries(Seq::<EntryView>::empty()) =~= Seq::<char>::empty());
        assert(spec_enc_entries(es.push(e)) == spec_enc_entry(e) + spec_enc_entries(
            es.push(e).drop_first(),
        ));
        assert(spec_enc_entries(es) =~= Seq::<char>::empty());
        assert(spec_enc_entries(es.push(e)) =~= spec_enc_entries(es) + spec_enc_entry(e));
    } else {
        assert(es.push(e).drop_first() =~= es.drop_first().push(e));
        lemma_enc_entries_snoc(es.drop_first(), e);
        assert(es.push(e)[0] == es[0]);
        assert(spec_enc_entries(es.push(e)) == spec_enc_entry(es[0]) + (spec_enc_entries(
            es.drop_first(),
        ) + spec_enc_entry(e)));
        assert(spec_enc_entry(es[0]) + (spec_enc_entries(es.drop_first()) + spec_enc_entry(e))
            =~= spec_enc_entries(es) + spec_enc_entry(e));
    }
}

/// Appends the length-prefixed form of `s` to `out`.
fn encode_str_field(out: &mut String, s: &str)
    ensures
        final(out)@ == old(out)@ + spec_enc_str(s@),
{
    proof {
        reveal_strlit(":");
    }
    let len = s.unicode_len();
    let dec = u64_to_dec(len as u64);
    out.append(dec.as_str());
    out.append(":");
    out.append(s);
    assert(final(out)@ =~= old(out)@ + spec_enc_str(s@));
}

/// Appends the signed decimal form of `n` to `out`.
fn encode_i32_field(out: &mut String, n: i32)
    ensures
        final(out)@ == old(out)@ + spec_enc_int(n as int),
{
    proof {
        reveal_strlit("-");
    }
    if n < 0 {
        out.append("-");
        let mag = (-(n as i64)) as u64;
        let dec = u64_to_dec(mag);
        out.append(dec.as_str());
        assert(final(out)@ =~= old(out)@ + spec_enc_int(n as int));
    } else {
        let dec = u64_to_dec(n as u64);
        out.append(dec.as_str());
        assert(final(out)@ =~= old(out)@ + spec_enc_int(n as int));
    }
}

/// Appends the encoding of one entry to `out`.
fn encode_entry(out: &mut String, e: &LeaderBoardEntry)
    ensures
        final(out)@ == old(out)@ + spec_enc_entry(e@),
{
    proof {
        reveal_strlit(";");
    }
    encode_str_field(out, e.username.as_str());
    encode_str_field(out, e.discriminator.as_str());
    encode_i32_field(out, e.score);
    out.append(";");
    assert(final(out)@ =~= old(out)@ + spec_enc_entry(e@));
}

/// The wire text of a client packet.
pub fn encode_client_packet(p: &ClientPacket) -> (r: String)
    ensures
        r@ == spec_enc_client(p@),
{
    proof {
        reveal_strlit("S");
        reveal_strlit(";");
        reveal_strlit("G");
    }
    match p {
        ClientPacket::SubmitDataPacket(g) => {
            let mut out = String::from_str("S");
            encode_i32_field(&mut out, g.score);
            out.append(";");
            encode_str_field(&mut out, g.login_info.user_name.as_str());
            encode_str_field(&mut out, g.login_info.key.as_str());
            assert(out@ =~= spec_enc_client(p@));
            out
        },
        ClientPacket::GetLeaderBoardsList => {
            let out = String::from_str("G");
            assert(out@ =~= spec_enc_client(p@));
            out
        },
    }
}

/// The wire text of a server packet.
pub fn encode_server_packet(p: &ServerPacket) -> (r: String)
    ensures
        r@ == spec_enc_server(p@),
{
    proof {
        reveal_strlit("L");
        reveal_strlit(";");
        reveal_strlit("E");
    }
    match p {
        ServerPacket::LeaderBoard(l) => {
            let mut out = String::from_str("L");
            let dec = u64_to_dec(l.list.len() as u64);
            out.append(dec.as_str());
            out.append(";");
            let ghost head = out@;
            let mut i: usize = 0;
            assert(l@.take(0) =~= Seq::<EntryView>::empty());
            while i < l.list.len()
                invariant
                    i <= l.list.len(),
                    l@.len() == l.list@.len(),
                    forall|k: int| 0 <= k < l.list@.len() ==> l@[k] == #[trigger] l.list@[k]@,
                    out@ == head + spec_enc_entries(l@.take(i as int)),
                decreases l.list.len() - i,
            {
                encode_entry(&mut out, &l.list[i]);
                proof {
                    assert(l@.take(i + 1) =~= l@.take(i as int).push(l@[i as int]));
                    lemma_enc_entries_snoc(l@.take(i as int), l@[i as int]);
                }
                i = i + 1;
            }
            proof {
                assert(l@.take(l@.len() as int) =~= l@);
                assert(head =~= seq!['L'] + spec_dec(l@.len()) + seq![';']);
            }
            out
        },
        ServerPacket::ErrorState => {
            let out = String::from_str("E");
            assert(out@ =~= spec_enc_server(p@));
            out
        },
    }
}

/// Parses a signed decimal number in the range of an `i32`.
pub open spec fn spec_parse_int(s: Seq<char>) -> Option<(int, Seq<char>)> {
    if s.len() > 0 && s[0] == '-' {
        match spec_parse_nat(s.drop_first()) {
            Some((v, rest)) => if v <= 0x80000000 {
                Some((-(v as int), rest))
            } else {
                None
            },
            None => None,
        }
    } else {
        match spec_parse_nat(s) {
            Some((v, rest)) => if v <= 0x7fffffff {
                Some((v as int, rest))
            } else {
                None
            },
            None => None,
        }
    }
}

/// Parses a length-prefixed text.
pub open spec fn spec_parse_str(s: Seq<char>) -> Option<(Seq<char>, Seq<char>)> {
    match spec_parse_nat(s) {
        Some((v, rest)) => if rest.len() > 0 && rest[0] == ':' && v <= rest.len() - 1 {
            Some((rest.subrange(1, 1 + v as int), rest.skip(1 + v as int)))
        } else {
            None
        },
        None => None,
    }
}

/// Parses one leaderboard entry.
pub open spec fn spec_parse_entry(s: Seq<char>) -> Option<(EntryView, Seq<char>)> {
    match spec_parse_str(s) {
        Some((u, s1)) => match spec_parse_str(s1) {
            Some((d, s2)) => match spec_parse_int(s2) {
                Some((n, s3)) => if s3.len() > 0 && s3[0] == ';' {
                    Some(
                        (
                            EntryView { username: u, discriminator: d, score: n },
                            s3.drop_first(),
                        ),
                    )
                } else {
                    None
                },
                None => None,
            },
            None => None,
        },
        None => None,
    }
}

/// Parses exactly `n` leaderboard entries.
pub open spec fn spec_parse_entries(s: Seq<char>, n: nat) -> Option<(Seq<EntryView>, Seq<char>)>
    decreases n,
{
    if n == 0 {
        Some((Seq::<EntryView>::empty(), s))
    } else {
        match spec_parse_entry(s) {
            Some((e, s1)) => match spec_parse_entries(s1, (n - 1) as nat) {
                Some((es, s2)) => Some((seq![e] + es, s2)),
                None => None,
            },
            None => None,
        }
    }
}

/// Decodes a whole client packet; trailing text fails the decode.
pub open spec fn spec_dec_client(s: Seq<char>) -> Option<ClientPacketView> {
    if s.len() == 0 {
        None
    } else if s[0] == 'G' {
        if s.len() == 1 {
            Some(ClientPacketView::GetLeaderBoardsList)
        } else {
            None
        }
    } else if s[0] == 'S' {
        match spec_parse_int(s.drop_first()) {
            Some((n, s1)) => if s1.len() > 0 && s1[0] == ';' {
                match spec_parse_str(s1.drop_first()) {
                    Some((u, s2)) => match spec_parse_str(s2) {
                        Some((k, s3)) => if s3.len() == 0 {
                            Some(
                                ClientPacketView::SubmitDataPacket(
                                    GameDataView {
                                        score: n,
                                        login_info: LoginInfoView { user_name: u, key: k },
                                    },
                                ),
                            )
                        } else {
                            None
                        },
                        None => None,
                    },
                    None => None,
                }
            } else {
                None
            },
            None => None,
        }
    } else {
        None
    }
}

/// Decodes a whole server packet; trailing text fails the decode.
pub open spec fn spec_dec_server(s: Seq<char>) -> Option<ServerPacketView> {
    if s.len() == 0 {
        None
    } else if s[0] == 'E' {
        if s.len() == 1 {
            Some(ServerPacketView::ErrorState)
        } else {
            None
        }
    } else if s[0] == 'L' {
        match spec_parse_nat(s.drop_first()) {
            Some((n, s1)) => if s1.len() > 0 && s1[0] == ';' && n <= s1.len() - 1 {
                match spec_parse_entries(s1.drop_first(), n) {
                    Some((es, s2)) => if s2.len() == 0 {
                        Some(ServerPacketView::LeaderBoard(es))
                    } else {
                        None
                    },
                    None => None,
                }
            } else {
                None
            },
            None => None,
        }
    } else {
        None
    }
}

/// True when every score a client packet carries lies in the range of an
/// `i32`, as it does for the value of every executable packet.
pub open spec fn client_view_in_range(p: ClientPacketView) -> bool {
    match p {
        ClientPacketView::SubmitDataPacket(g) => -0x80000000 <= g.score <= 0x7fffffff,
        ClientPacketView::GetLeaderBoardsList => true,
    }
}

/// True when every score a server packet carries lies in the range of an
/// `i32`, as it does for the value of every executable packet.
pub open spec fn server_view_in_range(p: ServerPacketView) -> bool {
    match p {
        ServerPacketView::LeaderBoard(es) => forall|i: int|
            0 <= i < es.len() ==> -0x80000000 <= #[trigger] es[i].score <= 0x7fffffff,
        ServerPacketView::ErrorState => true,
    }
}

/// Parsing inverts encoding for a signed number followed by text that does
/// not begin with a digit.
proof fn lemma_parse_int_enc(n: int, rest: Seq<char>)
    requires
        -0x80000000 <= n <= 0x7fffffff,
        rest.len() == 0 || !is_digit_char(rest[0]),
    ensures
        spec_parse_int(spec_enc_int(n) + rest) == Some((n, rest)),
{
    let s = spec_enc_int(n) + rest;
    if n < 0 {
        assert(s[0] == '-');
        assert(s.drop_first() =~= spec_dec((-n) as nat) + rest);
        lemma_parse_dec((-n) as nat, rest);
    } else {
        lemma_dec_digits(n as nat);
        assert(s[0] == spec_dec(n as nat)[0]);
        assert(is_digit_char(s[0]));
        assert(s[0] != '-');
        lemma_parse_dec(n as nat, rest);
    }
}

/// Parsing inverts encoding for a length-prefixed text followed by anything.
proof fn lemma_parse_str_enc(t: Seq<char>, rest: Seq<char>)
    ensures
        spec_parse_str(spec_enc_str(t) + rest) == Some((t, rest)),
{
    let s = spec_enc_str(t) + rest;
    let r1 = seq![':'] + t + rest;
    assert(s =~= spec_dec(t.len()) + r1);
    assert(!is_digit_char(':'));
    lemma_parse_dec(t.len(), r1);
    assert(r1[0] == ':');
    assert(r1.len() - 1 == t.len() + rest.len());
    assert(r1.subrange(1, 1 + t.len() as int) =~= t);
    assert(r1.skip(1 + t.len() as int) =~= rest);
}

/// Parsing inverts encoding for one entry followed by anything.
proof fn lemma_parse_entry_enc(e: EntryView, rest: Seq<char>)
    requires
        -0x80000000 <= e.score <= 0x7fffffff,
    ensures
        spec_parse_entry(spec_enc_entry(e) + rest) == Some((e, rest)),
{
    let s = spec_enc_entry(e) + rest;
    let r3 = seq![';'] + rest;
    let r2 = spec_enc_int(e.score) + r3;
    let r1 = spec_enc_str(e.discriminator) + r2;
    assert(s =~= spec_enc_str(e.username) + r1);
    lemma_parse_str_enc(e.username, r1);
    lemma_parse_str_enc(e.discriminator, r2);
    assert(!is_digit_char(';'));
    lemma_parse_int_enc(e.score, r3);
    assert(r3[0] == ';');
    assert(r3.drop_first() =~= rest);
}

/// Every encoded entry takes at least one character.
proof fn lemma_enc_entries_min_len(es: Seq<EntryView>)
    ensures
        spec_enc_entries(es).len() >= es.len(),
    decreases es.len(),
{
    if es.len() > 0 {
        lemma_enc_entries_min_len(es.drop_first());
        lemma_dec_digits(es[0].username.len());
    }
}

/// Parsing inverts encoding for an entry run followed by anything.
proof fn lemma_parse_entries_enc(es: Seq<EntryView>, rest: Seq<char>)
    requires
        forall|i: int| 0 <= i < es.len() ==> -0x80000000 <= #[trigger] es[i].score <= 0x7fffffff,
    ensures
        spec_parse_entries(spec_enc_entries(es) + rest, es.len()) == Some((es, rest)),
    decreases es.len(),
{
    if es.len() == 0 {
        assert(spec_enc_entries(es) + rest =~= rest);
        assert(spec_parse_entries(rest, 0) == Some((Seq::<EntryView>::empty(), rest)));
        assert(Seq::<EntryView>::empty() =~= es);
    } else {
        let tail = es.drop_first();
        assert(spec_enc_entries(es) + rest =~= spec_enc_entry(es[0]) + (spec_enc_entries(tail)
            + rest));
        lemma_parse_entry_enc(es[0], spec_enc_entries(tail) + rest);
        assert(forall|i: int|
            0 <= i < tail.len() ==> -0x80000000 <= #[trigger] tail[i].score <= 0x7fffffff);
        lemma_parse_entries_enc(tail, rest);
        assert(seq![es[0]] + tail =~= es);
    }
}

/// Law: decoding inverts encoding for every client packet whose scores fit an
/// `i32`, as every executable packet's do.
pub proof fn lemma_client_round_trip(p: ClientPacketView)
    requires
        client_view_in_range(p),
    ensures
        spec_dec_client(spec_enc_client(p)) == Some(p),
{
    match p {
        ClientPacketView::SubmitDataPacket(g) => {
            let s = spec_enc_client(p);
            let rk = spec_enc_str(g.login_info.key);
            let ru = spec_enc_str(g.login_info.user_name) + rk;
            let r1 = seq![';'] + ru;
            assert(s =~= seq!['S'] + (spec_enc_int(g.score) + r1));
            assert(s[0] == 'S');
            assert(s.drop_first() =~= spec_enc_int(g.score) + r1);
            assert(!is_digit_char(';'));
            lemma_parse_int_enc(g.score, r1);
            assert(r1[0] == ';');
            assert(r1.drop_first() =~= spec_enc_str(g.login_info.user_name) + rk);
            lemma_parse_str_enc(g.login_info.user_name, rk);
            assert(rk =~= spec_enc_str(g.login_info.key) + Seq::<char>::empty());
            lemma_parse_str_enc(g.login_info.key, Seq::<char>::empty());
        },
        ClientPacketView::GetLeaderBoardsList => {
            assert(spec_enc_client(p)[0] == 'G');
        },
    }
}

/// Law: decoding inverts encoding for every server packet whose scores fit an
/// `i32`, as every executable packet's do.
pub proof fn lemma_server_round_trip(p: ServerPacketView)
    requires
        server_view_in_range(p),
    ensures
        spec_dec_server(spec_enc_server(p)) == Some(p),
{
    match p {
        ServerPacketView::LeaderBoard(es) => {
            let s = spec_enc_server(p);
            let body = spec_enc_entries(es);
            let r1 = seq![';'] + body;
            assert(s =~= seq!['L'] + (spec_dec(es.len()) + r1));
            assert(s[0] == 'L');
            assert(s.drop_first() =~= spec_dec(es.len()) + r1);
            assert(!is_digit_char(';'));
            lemma_parse_dec(es.len(), r1);
            assert(r1[0] == ';');
            lemma_enc_entries_min_len(es);
            assert(es.len() <= r1.len() - 1);
            assert(r1.drop_first() =~= body + Seq::<char>::empty());
            lemma_parse_entries_enc(es, Seq::<char>::empty());
        },
        ServerPacketView::ErrorState => {
            assert(spec_enc_server(p)[0] == 'E');
        },
    }
}

/// Parses a signed decimal number at `pos`, within the range of an `i32`.
fn parse_i32_at(s: &str, pos: usize) -> (r: Option<(i32, usize)>)
    requires
        pos <= s@.len(),
    ensures
        match spec_parse_int(s@.skip(pos as int)) {
            Some(t) => match r {
                Some(q) => q.0 as int == t.0 && pos < q.1 <= s@.len() && s@.skip(q.1 as int)
                    == t.1,
                None => false,
            },
            None => r is None,
        },
{
    let s_len = s.unicode_len();
    if pos < s_len && s.get_char(pos) == '-' {
        proof {
            assert(s@.skip(pos as int)[0] == s@[pos as int]);
            assert(s@.skip(pos as int).drop_first() =~= s@.skip(pos as int + 1));
        }
        match parse_u64(s, pos + 1) {
            Some((v, p1)) => {
                if v <= 0x80000000 {
                    Some(((-(v as i64)) as i32, p1))
                } else {
                    None
                }
            },
            None => None,
        }
    } else {
        proof {
            if pos < s@.len() {
                assert(s@.skip(pos as int)[0] == s@[pos as int]);
            }
        }
        match parse_u64(s, pos) {
            Some((v, p1)) => {
                if v <= 0x7fffffff {
                    Some((v as i32, p1))
                } else {
                    None
                }
            },
            None => None,
        }
    }
}

/// Parses a length-prefixed text at `pos`.
fn parse_str_at(s: &str, pos: usize) -> (r: Option<(String, usize)>)
    requires
        pos <= s@.len(),
    ensures
        match spec_parse_str(s@.skip(pos as int)) {
            Some(t) => match r {
                Some(q) => q.0@ == t.0 && pos < q.1 <= s@.len() && s@.skip(q.1 as int) == t.1,
                None => false,
            },
            None => r is None,
        },
{
    let s_len = s.unicode_len();
    match parse_u64(s, pos) {
        None => {
            proof {
                if spec_parse_nat(s@.skip(pos as int)) is Some {
                    let t = spec_parse_nat(s@.skip(pos as int)).unwrap();
                    crate::digits::lemma_parse_digits_rest_len(s@.skip(pos as int), 0);
                    assert(t.1.len() <= s@.len());
                    assert(t.0 > u64::MAX);
                }
            }
            None
        },
        Some((v, p1)) => {
            if p1 >= s_len {
                return None;
            }
            let c = s.get_char(p1);
            proof {
                assert(s@.skip(p1 as int)[0] == s@[p1 as int]);
            }
            if c != ':' {
                return None;
            }
            let remaining = s_len - (p1 + 1);
            if v > remaining as u64 {
                return None;
            }
            let vv = v as usize;
            let field = s.substring_char(p1 + 1, p1 + 1 + vv).to_owned();
            proof {
                assert(s@.skip(p1 as int).subrange(1, 1 + v as int) =~= s@.subrange(
                    p1 + 1,
                    p1 + 1 + v as int,
                ));
                assert(s@.skip(p1 as int).skip(1 + v as int) =~= s@.skip(p1 + 1 + v as int));
            }
            Some((field, p1 + 1 + vv))
        },
    }
}

/// Parses one leaderboard entry at `pos`.
fn parse_entry_at(s: &str, pos: usize) -> (r: Option<(LeaderBoardEntry, usize)>)
    requires
        pos <= s@.len(),
    ensures
        match spec_parse_entry(s@.skip(pos as int)) {
            Some(t) => match r {
                Some(q) => q.0@ == t.0 && pos < q.1 <= s@.len() && s@.skip(q.1 as int) == t.1,
                None => false,
            },
            None => r is None,
        },
{
    let s_len = s.unicode_len();
    match parse_str_at(s, pos) {
        None => None,
        Some((username, p1)) => match parse_str_at(s, p1) {
            None => None,
            Some((discriminator, p2)) => match parse_i32_at(s, p2) {
                None => None,
                Some((score, p3)) => {
                    if p3 >= s_len {
                        return None;
                    }
                    let c = s.get_char(p3);
                    proof {
                        assert(s@.skip(p3 as int)[0] == s@[p3 as int]);
                        assert(s@.skip(p3 as int).drop_first() =~= s@.skip(p3 as int + 1));
                    }
                    if c != ';' {
                        return None;
                    }
                    Some((LeaderBoardEntry { username, discriminator, score }, p3 + 1))
                },
            },
        },
    }
}

/// Decodes the wire text of a client packet; `None` where the text is not
/// exactly one well-formed packet.
pub fn decode_client_packet(s: &str) -> (r: Option<ClientPacket>)
    ensures
        match r {
            Some(p) => spec_dec_client(s@) == Some(p@),
            None => spec_dec_client(s@) is None,
        },
{
    let s_len = s.unicode_len();
    if s_len == 0 {
        return None;
    }
    let tag = s.get_char(0);
    if tag == 'G' {
        if s_len == 1 {
            Some(ClientPacket::GetLeaderBoardsList)
        } else {
            None
        }
    } else if tag == 'S' {
        proof {
            assert(s@.skip(1) =~= s@.drop_first());
        }
        match parse_i32_at(s, 1) {
            None => None,
            Some((score, p1)) => {
                if p1 >= s_len {
                    return None;
                }
                let c = s.get_char(p1);
                proof {
                    assert(s@.skip(p1 as int)[0] == s@[p1 as int]);
                    assert(s@.skip(p1 as int).drop_first() =~= s@.skip(p1 as int + 1));
                }
                if c != ';' {
                    return None;
                }
                match parse_str_at(s, p1 + 1) {
                    None => None,
                    Some((user_name, p2)) => match parse_str_at(s, p2) {
                        None => None,
                        Some((key, p3)) => {
                            if p3 == s_len {
                                Some(
                                    ClientPacket::SubmitDataPacket(
                                        GameDataPacket {
                                            score,
                                            login_info: LoginInfo { user_name, key },
                                        },
                                    ),
                                )
                            } else {
                                None
                            }
                        },
                    },
                }
            },
        }
    } else {
        None
    }
}

/// Decodes the wire text of a server packet; `None` where the text is not
/// exactly one well-formed packet.
#[verifier::loop_isolation(false)]
pub fn decode_server_packet(s: &str) -> (r: Option<ServerPacket>)
    ensures
        match r {
            Some(p) => spec_dec_server(s@) == Some(p@),
            None => spec_dec_server(s@) is None,
        },
{
    let s_len = s.unicode_len();
    if s_len == 0 {
        return None;
    }
    let tag = s.get_char(0);
    if tag == 'E' {
        if s_len == 1 {
            Some(ServerPacket::ErrorState)
        } else {
            None
        }
    } else if tag == 'L' {
        proof {
            assert(s@.skip(1) =~= s@.drop_first());
        }
        match parse_u64(s, 1) {
            None => {
                proof {
                    if spec_parse_nat(s@.skip(1)) is Some {
                        let t = spec_parse_nat(s@.skip(1)).unwrap();
                        crate::digits::lemma_parse_digits_rest_len(s@.skip(1), 0);
                        assert(t.1.len() <= s@.len());
                        assert(t.0 > u64::MAX);
                    }
                }
                None
            },
            Some((n, p1)) => {
                if p1 >= s_len {
                    return None;
                }
                let c = s.get_char(p1);
                proof {
                    assert(s@.skip(p1 as int)[0] == s@[p1 as int]);
                    assert(s@.skip(p1 as int).drop_first() =~= s@.skip(p1 as int + 1));
                }
                if c != ';' {
                    return None;
                }
                let remaining = s_len - (p1 + 1);
                if n > remaining as u64 {
                    return None;
                }
                let count = n as usize;
                let ghost start = s@.skip(p1 as int + 1);
                let mut entries: Vec<LeaderBoardEntry> = Vec::new();
                let mut cur: usize = p1 + 1;
                let mut k: usize = 0;
                proof {
                    assert(entries@.map_values(|e: LeaderBoardEntry| e@) =~= Seq::<
                        EntryView,
                    >::empty());
                }
                while k < count
                    invariant
                        k <= count,
                        cur <= s@.len(),
                        s_len == s@.len(),
                        start == s@.skip(p1 as int + 1),
                        match spec_parse_entries(s@.skip(cur as int), (count - k) as nat) {
                            Some(t) => spec_parse_entries(start, count as nat) == Some(
                                (entries@.map_values(|e: LeaderBoardEntry| e@) + t.0, t.1),
                            ),
                            None => spec_parse_entries(start, count as nat) is None,
                        },
                    decreases count - k,
                {
                    let ghost ev = entries@.map_values(|e: LeaderBoardEntry| e@);
                    match parse_entry_at(s, cur) {
                        None => {
                            return None;
                        },
                        Some((e, p)) => {
                            proof {
                                let tail = s@.skip(cur as int);
                                assert(spec_parse_entry(tail) matches Some(t2) && t2.0 == e@
                                    && t2.1 == s@.skip(p as int));
                                if spec_parse_entries(s@.skip(p as int), (count - k - 1) as nat)
                                    is Some {
                                    let t3 = spec_parse_entries(
                                        s@.skip(p as int),
                                        (count - k - 1) as nat,
                                    ).unwrap();
                                    assert(spec_parse_entries(tail, (count - k) as nat) == Some(
                                        (seq![e@] + t3.0, t3.1),
                                    ));
                                    assert(ev + (seq![e@] + t3.0) =~= ev.push(e@) + t3.0);
                                } else {
                                    assert(spec_parse_entries(tail, (count - k) as nat) is None);
                                }
                            }
                            entries.push(e);
                            proof {
                                assert(entries@.map_values(|x: LeaderBoardEntry| x@) =~= ev.push(
                                    e@,
                                ));
                            }
                            cur = p;
                            k = k + 1;
                        },
                    }
                }
                proof {
                    let ev = entries@.map_values(|e: LeaderBoardEntry| e@);
                    assert(spec_parse_entries(s@.skip(cur as int), 0) == Some(
                        (Seq::<EntryView>::empty(), s@.skip(cur as int)),
                    ));
                    assert(ev + Seq::<EntryView>::empty() =~= ev);
                }
                if cur == s_len {
                    proof {
                        assert(s@.skip(cur as int).len() == 0);
                    }
                    Some(ServerPacket::LeaderBoard(LeaderBoardList::new(entries)))
                } else {
                    proof {
                        assert(s@.skip(cur as int).len() > 0);
                    }
                    None
                }
            },
        }
    } else {
        None
    }
}

} // verus!
