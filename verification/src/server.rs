//! The score reconciliation rules of the leaderboard service. The backing
//! store is a collaborator outside this crate: the caller lists the stored
//! records, hands the listing in as plain pairs of score key and entry, and
//! performs the store write or rollback these functions decide on.
use crate::digits::{spec_dec, u64_to_dec};
use crate::leader_board_stat::{EntryView, LeaderBoardEntry, LeaderBoardList};
use crate::packet::{spec_identity_hash, ClientPacket, LoginInfo, ServerPacket};
use vstd::prelude::*;

verus! {

/// How many characters of the key's decimal text make the display
/// discriminator.
pub const DISCRIMINATOR_LEN: usize = 6;

/// The display discriminator of a score key: the first six characters of the
/// key's decimal text, or all of it where the text is shorter.
pub open spec fn spec_discriminator(key: u64) -> Seq<char> {
    let text = spec_dec(key as nat);
    if text.len() <= DISCRIMINATOR_LEN {
        text
    } else {
        text.take(DISCRIMINATOR_LEN as int)
    }
}

/// The discriminator shown beside a user name.
pub fn discriminator(key: u64) -> (r: String)
    ensures
        r@ == spec_discriminator(key),
{
    let text = u64_to_dec(key);
    let len = text.as_str().unicode_len();
    if len <= DISCRIMINATOR_LEN {
        text
    } else {
        let cut = text.as_str().substring_char(0, DISCRIMINATOR_LEN).to_owned();
        cut
    }
}

/// The entry a submission would store.
pub fn make_entry(login: &LoginInfo, score: i32) -> (e: LeaderBoardEntry)
    ensures
        e@ == (EntryView {
            username: login.user_name@,
            discriminator: spec_discriminator(spec_identity_hash(login.user_name@, login.key@)),
            score: score as int,
        }),
{
    let key = login.hash();
    LeaderBoardEntry::new(login.user_name.clone(), score, discriminator(key))
}

/// The ghost value of a store listing: score keys paired with entry values.
pub open spec fn snap_view(s: Seq<(u64, LeaderBoardEntry)>) -> Seq<(u64, EntryView)> {
    s.map_values(|p: (u64, LeaderBoardEntry)| (p.0, p.1@))
}

/// At most one entry per score key.
pub open spec fn unique_keys(s: Seq<(u64, EntryView)>) -> bool {
    forall|i: int, j: int| 0 <= i < j < s.len() ==> (#[trigger] s[i]).0 != (#[trigger] s[j]).0
}

/// Whether some entry is stored under `k`.
pub open spec fn spec_has_key(s: Seq<(u64, EntryView)>, k: u64) -> bool {
    exists|i: int| 0 <= i < s.len() && (#[trigger] s[i]).0 == k
}

/// The index of the entry stored under `k`.
pub open spec fn spec_index_of_key(s: Seq<(u64, EntryView)>, k: u64) -> int {
    choose|i: int| 0 <= i < s.len() && (#[trigger] s[i]).0 == k
}

/// The entry stored under `k`, if any.
pub open spec fn spec_lookup(s: Seq<(u64, EntryView)>, k: u64) -> Option<EntryView> {
    if spec_has_key(s, k) {
        Some(s[spec_index_of_key(s, k)].1)
    } else {
        None
    }
}

/// Whether a submission scoring `score` under `k` is written: there is no
/// record yet, or the new score is strictly greater.
pub open spec fn spec_should_write(s: Seq<(u64, EntryView)>, k: u64, score: int) -> bool {
    match spec_lookup(s, k) {
        None => true,
        Some(e) => e.score < score,
    }
}

/// The listing after a submission of `e` under `k`: appended where no record
/// exists, replacing the record where the score is strictly greater, and
/// otherwise unchanged.
pub open spec fn spec_apply(s: Seq<(u64, EntryView)>, k: u64, e: EntryView) -> Seq<
    (u64, EntryView),
> {
    if !spec_has_key(s, k) {
        s.push((k, e))
    } else if s[spec_index_of_key(s, k)].1.score < e.score {
        s.update(spec_index_of_key(s, k), (k, e))
    } else {
        s
    }
}

/// With unique keys, the entry found under `k` is the one at any index that
/// carries `k`.
pub proof fn lemma_lookup_at(s: Seq<(u64, EntryView)>, k: u64, i: int)
    requires
        unique_keys(s),
        0 <= i < s.len(),
        s[i].0 == k,
    ensures
        spec_has_key(s, k),
        spec_index_of_key(s, k) == i,
        spec_lookup(s, k) == Some(s[i].1),
{
    assert(spec_has_key(s, k));
    let j = spec_index_of_key(s, k);
    assert(0 <= j < s.len() && s[j].0 == k);
    if i < j {
        assert(s[i].0 != s[j].0);
    } else if j < i {
        assert(s[j].0 != s[i].0);
    }
}

/// Law: reconciliation keeps exactly one entry per distinct score key, a
/// submission that does not beat the stored score changes nothing, a
/// strictly higher one replaces the record under its key, and records under
/// every other key are untouched.
pub proof fn lemma_submit_reconciliation(s: Seq<(u64, EntryView)>, k: u64, e: EntryView)
    requires
        unique_keys(s),
    ensures
        unique_keys(spec_apply(s, k, e)),
        spec_lookup(spec_apply(s, k, e), k) == (if spec_should_write(s, k, e.score) {
            Some(e)
        } else {
            spec_lookup(s, k)
        }),
        !spec_should_write(s, k, e.score) ==> spec_apply(s, k, e) == s,
        forall|k2: u64| k2 != k ==> spec_lookup(spec_apply(s, k, e), k2) == spec_lookup(s, k2),
{
    let out = spec_apply(s, k, e);
    if !spec_has_key(s, k) {
        assert(out == s.push((k, e)));
        assert(forall|i: int| 0 <= i < s.len() ==> (#[trigger] s[i]).0 != k);
        assert(unique_keys(out));
        lemma_lookup_at(out, k, s.len() as int);
        assert forall|k2: u64| k2 != k implies spec_lookup(out, k2) == spec_lookup(s, k2) by {
            if spec_has_key(s, k2) {
                let i = spec_index_of_key(s, k2);
                lemma_lookup_at(out, k2, i);
            } else {
                assert(!spec_has_key(out, k2)) by {
                    if spec_has_key(out, k2) {
                        let i = spec_index_of_key(out, k2);
                        assert(0 <= i < s.len() && s[i].0 == k2);
                    }
                }
            }
        }
    } else {
        let idx = spec_index_of_key(s, k);
        assert(0 <= idx < s.len() && s[idx].0 == k);
        if s[idx].1.score < e.score {
            assert(out == s.update(idx, (k, e)));
            assert(unique_keys(out));
            lemma_lookup_at(out, k, idx);
            assert forall|k2: u64| k2 != k implies spec_lookup(out, k2) == spec_lookup(s, k2) by {
                if spec_has_key(s, k2) {
                    let i = spec_index_of_key(s, k2);
                    assert(i != idx);
                    lemma_lookup_at(out, k2, i);
                    lemma_lookup_at(s, k2, i);
                } else {
                    assert(!spec_has_key(out, k2)) by {
                        if spec_has_key(out, k2) {
                            let i = spec_index_of_key(out, k2);
                            assert(0 <= i < s.len() && s[i].0 == k2);
                        }
                    }
                }
            }
            lemma_lookup_at(s, k, idx);
        } else {
            lemma_lookup_at(s, k, idx);
        }
    }
}

/// Finds the entry stored under `key`.
fn find_key(snapshot: &Vec<(u64, LeaderBoardEntry)>, key: u64) -> (r: Option<usize>)
    ensures
        match r {
            Some(i) => i < snapshot@.len() && snapshot@[i as int].0 == key,
            None => forall|i: int|
                0 <= i < snapshot@.len() ==> (#[trigger] snapshot@[i]).0 != key,
        },
{
    let mut i: usize = 0;
    while i < snapshot.len()
        invariant
            i <= snapshot@.len(),
            forall|j: int| 0 <= j < i ==> (#[trigger] snapshot@[j]).0 != key,
        decreases snapshot@.len() - i,
    {
        if snapshot[i].0 == key {
            return Some(i);
        }
        i = i + 1;
    }
    None
}

/// A copy of the listing.
fn clone_snapshot(snapshot: &Vec<(u64, LeaderBoardEntry)>) -> (r: Vec<(u64, LeaderBoardEntry)>)
    ensures
        r@ == snapshot@,
{
    let mut out: Vec<(u64, LeaderBoardEntry)> = Vec::new();
    let mut i: usize = 0;
    while i < snapshot.len()
        invariant
            i <= snapshot@.len(),
            out@ =~= snapshot@.subrange(0, i as int),
        decreases snapshot@.len() - i,
    {
        let pair = (snapshot[i].0, snapshot[i].1.clone());
        out.push(pair);
        i = i + 1;
    }
    proof {
        assert(out@ =~= snapshot@);
    }
    out
}

/// Reconciles one submission against a listing of the store: the updated
/// listing, and whether it differs from the stored one, so the caller knows
/// to write the entry under its key.
pub fn apply_submit(snapshot: &Vec<(u64, LeaderBoardEntry)>, login: &LoginInfo, score: i32) -> (r:
    (Vec<(u64, LeaderBoardEntry)>, bool))
    requires
        unique_keys(snap_view(snapshot@)),
    ensures
        ({
            let key = spec_identity_hash(login.user_name@, login.key@);
            let e = EntryView {
                username: login.user_name@,
                discriminator: spec_discriminator(key),
                score: score as int,
            };
            &&& snap_view(r.0@) == spec_apply(snap_view(snapshot@), key, e)
            &&& r.1 == spec_should_write(snap_view(snapshot@), key, score as int)
            &&& unique_keys(snap_view(r.0@))
        }),
{
    let ghost sv = snap_view(snapshot@);
    let key = login.hash();
    let ghost ev = EntryView {
        username: login.user_name@,
        discriminator: spec_discriminator(key),
        score: score as int,
    };
    proof {
        lemma_submit_reconciliation(sv, key, ev);
    }
    match find_key(snapshot, key) {
        None => {
            proof {
                assert(!spec_has_key(sv, key)) by {
                    if spec_has_key(sv, key) {
                        let i = spec_index_of_key(sv, key);
                        assert(0 <= i < snapshot@.len() && snapshot@[i].0 == key);
                    }
                }
            }
            let entry = make_entry(login, score);
            let mut out = clone_snapshot(snapshot);
            out.push((key, entry));
            proof {
                assert(snap_view(out@) =~= spec_apply(sv, key, ev));
            }
            (out, true)
        },
        Some(i) => {
            proof {
                assert(snap_view(snapshot@)[i as int].0 == key);
                lemma_lookup_at(sv, key, i as int);
            }
            if snapshot[i].1.get_score() < score {
                let entry = make_entry(login, score);
                let mut out = clone_snapshot(snapshot);
                out[i] = (key, entry);
                proof {
                    assert(snap_view(out@) =~= spec_apply(sv, key, ev));
                }
                (out, true)
            } else {
                let out = clone_snapshot(snapshot);
                proof {
                    assert(snap_view(out@) =~= spec_apply(sv, key, ev));
                }
                (out, false)
            }
        },
    }
}

/// The entries of a listing, without their keys: what a snapshot reply
/// carries.
pub fn snapshot_values(snapshot: &Vec<(u64, LeaderBoardEntry)>) -> (r: Vec<LeaderBoardEntry>)
    ensures
        r@ == snapshot@.map_values(|p: (u64, LeaderBoardEntry)| p.1),
{
    let mut out: Vec<LeaderBoardEntry> = Vec::new();
    let mut i: usize = 0;
    while i < snapshot.len()
        invariant
            i <= snapshot@.len(),
            out@ =~= snapshot@.subrange(0, i as int).map_values(
                |p: (u64, LeaderBoardEntry)| p.1,
            ),
        decreases snapshot@.len() - i,
    {
        out.push(snapshot[i].1.clone());
        i = i + 1;
    }
    proof {
        assert(out@ =~= snapshot@.map_values(|p: (u64, LeaderBoardEntry)| p.1));
    }
    out
}

/// What the worker does to the store after deciding a request: write the
/// reconciled entry under its key, delete a partial record as the rollback
/// of a failed listing, or nothing.
#[derive(Debug)]
pub enum StoreAction {
    WriteEntry(u64, LeaderBoardEntry),
    DeleteKey(u64),
    NoAction,
}

/// Decides one decoded request against the store listing the caller took
/// under the lock; `None` stands for a failed listing. Returns the reply to
/// send and the store action to perform. On a failed listing a submission is
/// answered with the error envelope and rolled back by deleting its key.
pub fn handle_packet(packet: &ClientPacket, listing: Option<&Vec<(u64, LeaderBoardEntry)>>) -> (r:
    (ServerPacket, StoreAction))
    requires
        match listing {
            Some(snap) => unique_keys(snap_view(snap@)),
            None => true,
        },
    ensures
        match listing {
            Some(snap) => {
                match packet {
                    ClientPacket::SubmitDataPacket(g) => {
                        let key = spec_identity_hash(
                            g.login_info.user_name@,
                            g.login_info.key@,
                        );
                        let e = EntryView {
                            username: g.login_info.user_name@,
                            discriminator: spec_discriminator(key),
                            score: g.score as int,
                        };
                        let updated = spec_apply(snap_view(snap@), key, e);
                        &&& r.0 matches ServerPacket::LeaderBoard(l) && l.list@.map_values(
                            |x: LeaderBoardEntry| x@,
                        ) == updated.map_values(|p: (u64, EntryView)| p.1)
                        &&& (spec_should_write(snap_view(snap@), key, g.score as int) ==> (
                        r.1 matches StoreAction::WriteEntry(k2, e2) && k2 == key && e2@ == e))
                        &&& (!spec_should_write(snap_view(snap@), key, g.score as int)
                            ==> r.1 is NoAction)
                    },
                    ClientPacket::GetLeaderBoardsList => {
                        &&& r.0 matches ServerPacket::LeaderBoard(l) && l.list@.map_values(
                            |x: LeaderBoardEntry| x@,
                        ) == snap_view(snap@).map_values(|p: (u64, EntryView)| p.1)
                        &&& r.1 is NoAction
                    },
                }
            },
            None => {
                &&& r.0 is ErrorState
                &&& match packet {
                    ClientPacket::SubmitDataPacket(g) => r.1 matches StoreAction::DeleteKey(k2)
                        && k2 == spec_identity_hash(g.login_info.user_name@, g.login_info.key@),
                    ClientPacket::GetLeaderBoardsList => r.1 is NoAction,
                }
            },
        },
{
    match packet {
        ClientPacket::SubmitDataPacket(g) => match listing {
            Some(snap) => {
                let (updated, wrote) = apply_submit(snap, &g.login_info, g.score);
                let values = snapshot_values(&updated);
                let action = if wrote {
                    let key = g.login_info.hash();
                    let entry = make_entry(&g.login_info, g.score);
                    StoreAction::WriteEntry(key, entry)
                } else {
                    StoreAction::NoAction
                };
                proof {
                    assert(values@.map_values(|x: LeaderBoardEntry| x@) =~= snap_view(
                        updated@,
                    ).map_values(|p: (u64, EntryView)| p.1));
                }
                (ServerPacket::LeaderBoard(LeaderBoardList::new(values)), action)
            },
            None => {
                let key = g.login_info.hash();
                (ServerPacket::ErrorState, StoreAction::DeleteKey(key))
            },
        },
        ClientPacket::GetLeaderBoardsList => match listing {
            Some(snap) => {
                let values = snapshot_values(snap);
                proof {
                    assert(values@.map_values(|x: LeaderBoardEntry| x@) =~= snap_view(
                        snap@,
                    ).map_values(|p: (u64, EntryView)| p.1));
                }
                (ServerPacket::LeaderBoard(LeaderBoardList::new(values)), StoreAction::NoAction)
            },
            None => (ServerPacket::ErrorState, StoreAction::NoAction),
        },
    }
}

} // verus!
