//! The simulation engine and session state machine: the tile collection,
//! spawn cadence, difficulty curve, scoring counters, and the transitions
//! between menu, play, score screen and leaderboard view.
//!
//! Distances are in hundredths of a screen unit and times in milliseconds;
//! the clock value a tick works from is handed in by the caller.
use crate::leader_board_stat::LeaderBoardList;
use crate::packet::{ClientPacket, ClientPacketView, GameDataPacket, GameDataView, LoginInfo};
use crate::tile::{
    lemma_centered_tile_is_hit, random_below, spec_is_hit, Tile, BOTTOM_BOUND, CENTERED_DISTANCE,
    TILE_HEIGHT,
};
use vstd::prelude::*;

verus! {

/// How hard a session plays: Hard pre-seeds the counters so the curve starts
/// steeper, and draws tile speeds at random instead of ramping them.
#[derive(Clone, Copy, Debug, PartialEq, Eq, Structural)]
pub enum Difficulty {
    Normal,
    Hard,
}

/// What the player is doing: at the menu, in a session, reading the final
/// score, or looking at the leaderboards.
#[derive(Clone, Copy, Debug, PartialEq, Eq, Structural)]
pub enum GameState {
    MainMenu,
    Playing(Difficulty),
    ScoreScreen,
    Leaderboards,
}

/// How a leaderboard call failed on the client side.
#[derive(Clone, Copy, Debug, PartialEq, Eq, Structural)]
pub enum ClientError {
    /// The client failed to connect.
    FailedToConnect,
    /// The socket was unable to read bytes.
    SocketReadError,
    /// The socket read bytes, but they did not decode to a packet.
    DeserializationError,
    /// The server replied with its error envelope.
    PacketError,
}

/// The largest travel per tick a tile may be given.
pub const MAX_TILE_SPEED: i64 = 100000;

/// The most tiles a state may hold before a tick.
pub const MAX_TILES: usize = 0x100000;

/// The widest range the scoring counters may ever reach.
pub const COUNTER_SLACK: i32 = 0x40000000;

/// The counter range a tick may start from; one tick always keeps the
/// counters within `COUNTER_SLACK`.
pub const COUNTER_LIMIT: i32 = 0x3f000000;

/// The whole game state of one client.
#[derive(Debug)]
pub struct TileGameState {
    /// What should be going on: the menu, a session, the score screen.
    pub state: GameState,
    /// Every tile currently in the game.
    pub tiles: Vec<Tile>,
    /// Per slot, the clock value of the last strike on it; zero means never.
    pub slot_press_time: Vec<u64>,
    /// The clock value at which the last tile was spawned.
    pub time_since_tile: u64,
    /// Milliseconds between tile spawns.
    pub tile_spawn_time: u32,
    /// The hit counter: up by two for every tile struck in its window.
    pub tile_hit_count: i32,
    /// Lives left; a missed tile costs one.
    pub lives: i32,
    /// The strike counter: up by one for every press that hit nothing.
    pub slot_clicks: i32,
    /// The clock value at which the session started.
    pub game_start_time: u64,
    /// The clock value at which the session ended.
    pub game_end_time: u64,
    /// How many slots the session plays with, frozen when it starts.
    pub slot_count: u8,
    /// The identity scores are submitted under.
    pub login_info: LoginInfo,
    /// The last leaderboard snapshot fetched, if any.
    pub leader_boards: Option<LeaderBoardList>,
    /// Where the leaderboard service listens.
    pub ip_address: String,
}

/// The ghost value of the simulation: every quantity a tick reads or writes.
pub ghost struct StateView {
    pub state: GameState,
    pub tiles: Seq<Tile>,
    pub slot_press_time: Seq<u64>,
    pub time_since_tile: int,
    pub tile_spawn_time: int,
    pub tile_hit_count: int,
    pub lives: int,
    pub slot_clicks: int,
    pub game_start_time: int,
    pub game_end_time: int,
    pub slot_count: u8,
}

impl View for TileGameState {
    type V = StateView;

    open spec fn view(&self) -> StateView {
        StateView {
            state: self.state,
            tiles: self.tiles@,
            slot_press_time: self.slot_press_time@,
            time_since_tile: self.time_since_tile as int,
            tile_spawn_time: self.tile_spawn_time as int,
            tile_hit_count: self.tile_hit_count as int,
            lives: self.lives as int,
            slot_clicks: self.slot_clicks as int,
            game_start_time: self.game_start_time as int,
            game_end_time: self.game_end_time as int,
            slot_count: self.slot_count,
        }
    }
}

/// The invariant every reachable state keeps between operations.
pub open spec fn wf(v: StateView) -> bool {
    &&& 1 <= v.slot_count
    &&& v.tiles.len() <= MAX_TILES
    &&& forall|i: int|
        0 <= i < v.tiles.len() ==> {
            &&& (#[trigger] v.tiles[i]).slot < v.slot_count
            &&& 1 <= v.tiles[i].speed <= MAX_TILE_SPEED
            &&& -TILE_HEIGHT <= v.tiles[i].distance < BOTTOM_BOUND
        }
    &&& v.state is Playing ==> {
        &&& v.slot_press_time.len() == v.slot_count
        &&& v.lives >= 0
    }
    &&& -COUNTER_SLACK <= v.tile_hit_count <= COUNTER_SLACK
    &&& 0 <= v.slot_clicks <= COUNTER_SLACK
    &&& -COUNTER_SLACK <= v.lives <= COUNTER_SLACK
    &&& 0 <= v.tile_spawn_time <= 1750
}

/// The identity-preserving fields a tick never touches.
pub open spec fn non_sim_unchanged(a: &TileGameState, b: &TileGameState) -> bool {
    &&& a.login_info == b.login_info
    &&& a.leader_boards == b.leader_boards
    &&& a.ip_address == b.ip_address
}

/// The spawn cadence as a step function of the hit counter, in milliseconds:
/// the better the player does, the shorter the interval.
pub open spec fn spec_spawn_interval(hit_count: int) -> int {
    if hit_count < 0 {
        1750
    } else if hit_count <= 5 {
        1500
    } else if hit_count <= 10 {
        1250
    } else if hit_count <= 20 {
        1000
    } else if hit_count <= 30 {
        750
    } else if hit_count <= 50 {
        500
    } else {
        250
    }
}

/// The deterministic tile speed ramp, used on Normal and outside a session.
pub open spec fn spec_tile_speed_fixed(hit_count: int) -> int {
    if hit_count <= 20 {
        200
    } else if hit_count <= 40 {
        400
    } else {
        600
    }
}

/// Which speeds a new tile may be given: Normal follows the fixed ramp; Hard
/// keeps the ramp's ceiling but draws uniformly from the speeds below it.
pub open spec fn spec_speed_allowed(hit_count: int, state: GameState, v: int) -> bool {
    if state == GameState::Playing(Difficulty::Hard) {
        if hit_count <= 20 {
            v == 200
        } else if hit_count <= 40 {
            v == 200 || v == 400
        } else {
            v == 200 || v == 400 || v == 600
        }
    } else {
        v == spec_tile_speed_fixed(hit_count)
    }
}

/// One strike on a slot: the slot's press time is recorded; every tile in
/// the slot's hit window is removed, two hits counted for each; a press that
/// removes nothing counts one strike.
pub open spec fn spec_press(v: StateView, slot: u8, now: u64) -> StateView {
    let kept = v.tiles.filter(|t: Tile| !spec_is_hit(t, slot));
    let times = if (slot as int) < v.slot_press_time.len() {
        v.slot_press_time.update(slot as int, now)
    } else {
        v.slot_press_time
    };
    if kept.len() == v.tiles.len() {
        StateView { slot_clicks: v.slot_clicks + 1, slot_press_time: times, ..v }
    } else {
        StateView {
            tiles: kept,
            tile_hit_count: v.tile_hit_count + 2 * (v.tiles.len() - kept.len()),
            slot_press_time: times,
            ..v
        }
    }
}

/// Cleanup: every tile past the lower bound is removed, and each removal
/// costs one life. The hit counter is left alone: a miss costs a life only,
/// which is the policy this engine commits to.
pub open spec fn spec_cleanup(v: StateView) -> StateView {
    let kept = v.tiles.filter(|t: Tile| t.distance < BOTTOM_BOUND);
    StateView { tiles: kept, lives: v.lives - (v.tiles.len() - kept.len()), ..v }
}

/// Every tile advanced by its speed.
pub open spec fn spec_advance(tiles: Seq<Tile>) -> Seq<Tile> {
    tiles.map_values(
        |t: Tile| Tile { distance: (t.distance + t.speed) as i64, slot: t.slot, speed: t.speed },
    )
}

/// The strikes of one tick, resolved slot by slot from slot zero up to but
/// not including `n`; slots outside the configured range are never looked
/// at, so invalid indices in the pressed set are ignored.
pub open spec fn spec_press_upto(v: StateView, pressed: Seq<u8>, now: u64, n: int) -> StateView
    decreases n,
{
    if n <= 0 {
        v
    } else {
        let prev = spec_press_upto(v, pressed, now, n - 1);
        if pressed.contains((n - 1) as u8) {
            spec_press(prev, (n - 1) as u8, now)
        } else {
            prev
        }
    }
}

/// One whole tick, given the slot and speed of the tile that a spawn would
/// release: the cadence update, the advance, the spawn decision, the strikes,
/// the cleanup, and the transition to the score screen the tick lives would
/// go negative.
pub open spec fn spec_tick(v: StateView, pressed: Seq<u8>, now: u64, slot: u8, speed: i64) -> StateView {
    let v1 = StateView { tile_spawn_time: spec_spawn_interval(v.tile_hit_count), ..v };
    let v2 = StateView { tiles: spec_advance(v1.tiles), ..v1 };
    let v3 = if now - v2.time_since_tile >= v2.tile_spawn_time {
        StateView {
            tiles: v2.tiles.push(Tile { distance: (-TILE_HEIGHT) as i64, slot, speed }),
            time_since_tile: now as int,
            ..v2
        }
    } else {
        v2
    };
    let v4 = spec_press_upto(v3, pressed, now, v.slot_count as int);
    let v5 = spec_cleanup(v4);
    if v5.lives < 0 {
        StateView { state: GameState::ScoreScreen, game_end_time: now as int, ..v5 }
    } else {
        v5
    }
}

/// A sequence whose elements all satisfy the predicate filters to itself.
proof fn lemma_filter_keeps_all(s: Seq<Tile>, pred: spec_fn(Tile) -> bool)
    requires
        forall|j: int| 0 <= j < s.len() ==> pred(#[trigger] s[j]),
    ensures
        s.filter(pred) =~= s,
    decreases s.len(),
{
    reveal(Seq::filter);
    if s.len() > 0 {
        lemma_filter_keeps_all(s.drop_last(), pred);
    }
}

/// Filtering a sequence whose only failing element is at `i` removes exactly
/// that element.
proof fn lemma_filter_single_out(s: Seq<Tile>, pred: spec_fn(Tile) -> bool, i: int)
    requires
        0 <= i < s.len(),
        !pred(s[i]),
        forall|j: int| 0 <= j < s.len() && j != i ==> pred(#[trigger] s[j]),
    ensures
        s.filter(pred) =~= s.remove(i),
    decreases s.len(),
{
    reveal(Seq::filter);
    if i == s.len() - 1 {
        lemma_filter_keeps_all(s.drop_last(), pred);
        assert(s.remove(i) =~= s.drop_last());
    } else {
        lemma_filter_single_out(s.drop_last(), pred, i);
        assert(s.remove(i) =~= s.drop_last().remove(i).push(s.last()));
    }
}

/// An element that fails the predicate makes the filtered sequence strictly
/// shorter.
proof fn lemma_filter_drops_some(s: Seq<Tile>, pred: spec_fn(Tile) -> bool, i: int)
    requires
        0 <= i < s.len(),
        !pred(s[i]),
    ensures
        s.filter(pred).len() < s.len(),
    decreases s.len(),
{
    reveal(Seq::filter);
    if i < s.len() - 1 {
        lemma_filter_drops_some(s.drop_last(), pred, i);
    } else {
        s.drop_last().lemma_filter_len(pred);
    }
}

/// Law: a press on a slot never removes a tile outside its hit window; such
/// a tile is still in the collection afterwards.
pub proof fn lemma_press_keeps_out_of_window(v: StateView, slot: u8, now: u64, i: int)
    requires
        0 <= i < v.tiles.len(),
        !spec_is_hit(v.tiles[i], slot),
    ensures
        spec_press(v, slot, now).tiles.contains(v.tiles[i]),
{
    broadcast use vstd::seq_lib::group_filter_ensures;

    let pred = |t: Tile| !spec_is_hit(t, slot);
    let kept = v.tiles.filter(pred);
    assert(pred(v.tiles[i]));
    assert(kept.contains(v.tiles[i]));
    if kept.len() == v.tiles.len() {
        assert(spec_press(v, slot, now).tiles == v.tiles);
        assert(v.tiles.contains(v.tiles[i]));
    }
}

/// Law: a tile sitting exactly on the bar's center when its slot is pressed
/// is removed by that press, the press is no strike, and where it is the
/// only tile in the window the hit counter rises by exactly two.
pub proof fn lemma_press_hits_centered(v: StateView, slot: u8, now: u64, i: int)
    requires
        0 <= i < v.tiles.len(),
        v.tiles[i].slot == slot,
        v.tiles[i].distance == CENTERED_DISTANCE,
    ensures
        !spec_press(v, slot, now).tiles.contains(v.tiles[i]),
        spec_press(v, slot, now).tile_hit_count >= v.tile_hit_count + 2,
        spec_press(v, slot, now).slot_clicks == v.slot_clicks,
        (forall|j: int|
            0 <= j < v.tiles.len() && j != i ==> !spec_is_hit(#[trigger] v.tiles[j], slot)) ==> {
            &&& spec_press(v, slot, now).tiles == v.tiles.remove(i)
            &&& spec_press(v, slot, now).tile_hit_count == v.tile_hit_count + 2
        },
{
    broadcast use vstd::seq_lib::group_filter_ensures;

    let pred = |t: Tile| !spec_is_hit(t, slot);
    let kept = v.tiles.filter(pred);
    lemma_centered_tile_is_hit(v.tiles[i]);
    lemma_filter_drops_some(v.tiles, pred, i);
    assert forall|k: int| 0 <= k < kept.len() implies kept[k] != v.tiles[i] by {
        assert(pred(kept[k]));
    }
    assert(!kept.contains(v.tiles[i]));
    if forall|j: int|
        0 <= j < v.tiles.len() && j != i ==> !spec_is_hit(#[trigger] v.tiles[j], slot) {
        lemma_filter_single_out(v.tiles, pred, i);
    }
}

/// Whether `x` occurs in `v`.
fn vec_contains(v: &Vec<u8>, x: u8) -> (r: bool)
    ensures
        r == v@.contains(x),
{
    let mut i: usize = 0;
    while i < v.len()
        invariant
            i <= v@.len(),
            forall|k: int| 0 <= k < i ==> v@[k] != x,
        decreases v@.len() - i,
    {
        if v[i] == x {
            return true;
        }
        i = i + 1;
    }
    false
}

impl Default for TileGameState {
    fn default() -> (r: Self)
        ensures
            r.state == GameState::MainMenu,
            r.tiles@ == Seq::<Tile>::empty(),
            r.slot_press_time@ == Seq::<u64>::empty(),
            r.time_since_tile == 0,
            r.tile_spawn_time == 1500,
            r.tile_hit_count == 0,
            r.lives == 10,
            r.slot_clicks == 0,
            r.game_start_time == 0,
            r.game_end_time == 0,
            r.slot_count == 3,
            r.login_info.user_name@ == Seq::<char>::empty(),
            r.login_info.key@ == Seq::<char>::empty(),
            r.leader_boards is None,
            r.ip_address@ == "localhost:8114"@,
            wf(r@),
    {
        TileGameState {
            state: GameState::MainMenu,
            tiles: Vec::new(),
            slot_press_time: TileGameState::new_slot_press_time(),
            time_since_tile: 0,
            tile_spawn_time: 1500,
            tile_hit_count: 0,
            lives: 10,
            slot_clicks: 0,
            game_start_time: 0,
            game_end_time: 0,
            slot_count: 3,
            login_info: LoginInfo::default(),
            leader_boards: None,
            ip_address: String::from_str("localhost:8114"),
        }
    }
}

impl TileGameState {
    /// A fresh tracker of per-slot strike times; it grows to the slot count
    /// when a session starts.
    pub fn new_slot_press_time() -> (r: Vec<u64>)
        ensures
            r@ == Seq::<u64>::empty(),
    {
        Vec::new()
    }

    /// The score: hits minus strikes, in any state.
    pub fn get_score(&self) -> (r: i32)
        requires
            wf(self@),
        ensures
            r == self.tile_hit_count - self.slot_clicks,
    {
        self.tile_hit_count - self.slot_clicks
    }

    /// The submission packet for the current score and identity.
    pub fn to_score_packet(&self) -> (p: ClientPacket)
        requires
            wf(self@),
        ensures
            p@ == ClientPacketView::SubmitDataPacket(
                GameDataView {
                    score: self.tile_hit_count - self.slot_clicks,
                    login_info: self.login_info@,
                },
            ),
    {
        ClientPacket::SubmitDataPacket(
            GameDataPacket { score: self.get_score(), login_info: self.login_info.clone() },
        )
    }

    /// Updates the spawn cadence from the hit counter; recomputed every tick
    /// so difficulty tracks the player's current run.
    pub fn update_tile_spawn_time(&mut self)
        ensures
            *final(self) == (TileGameState {
                tile_spawn_time: spec_spawn_interval(old(self).tile_hit_count as int) as u32,
                ..*old(self)
            }),
    {
        if self.tile_hit_count < 0 {
            self.tile_spawn_time = 1750;
        } else if self.tile_hit_count <= 5 {
            self.tile_spawn_time = 1500;
        } else if self.tile_hit_count <= 10 {
            self.tile_spawn_time = 1250;
        } else if self.tile_hit_count <= 20 {
            self.tile_spawn_time = 1000;
        } else if self.tile_hit_count <= 30 {
            self.tile_spawn_time = 750;
        } else if self.tile_hit_count <= 50 {
            self.tile_spawn_time = 500;
        } else {
            self.tile_spawn_time = 250;
        }
    }

    /// The speed the next tile should fall at. On Hard the choice above the
    /// opening ramp is drawn at random, so only membership in the allowed
    /// set is promised.
    pub fn get_tile_speed(&self) -> (v: i64)
        ensures
            spec_speed_allowed(self.tile_hit_count as int, self.state, v as int),
            200 <= v <= 600,
    {
        if self.tile_hit_count <= 20 {
            200
        } else if self.tile_hit_count <= 40 {
            match self.state {
                GameState::Playing(Difficulty::Hard) => {
                    let pick = random_below(2);
                    if pick == 0 {
                        200
                    } else {
                        400
                    }
                },
                _ => 400,
            }
        } else {
            match self.state {
                GameState::Playing(Difficulty::Hard) => {
                    let pick = random_below(3);
                    if pick == 0 {
                        200
                    } else if pick == 1 {
                        400
                    } else {
                        600
                    }
                },
                _ => 600,
            }
        }
    }

    /// Appends a tile at the top boundary in a random slot; a spawn only
    /// happens while a session is being played.
    pub fn add_tile(&mut self, speed: i64)
        requires
            old(self).state is Playing,
            old(self).slot_count >= 1,
            1 <= speed <= MAX_TILE_SPEED,
            old(self).tiles@.len() < MAX_TILES,
        ensures
            final(self).tiles@.len() == old(self).tiles@.len() + 1,
            final(self).tiles@.drop_last() == old(self).tiles@,
            final(self).tiles@.last().distance == -TILE_HEIGHT,
            final(self).tiles@.last().speed == speed,
            final(self).tiles@.last().slot < old(self).slot_count,
            *final(self) == (TileGameState { tiles: final(self).tiles, ..*old(self) }),
    {
        let t = Tile::random_new(speed, self.slot_count);
        self.tiles.push(t);
        proof {
            assert(final(self).tiles@.drop_last() =~= old(self).tiles@);
        }
    }

    /// Starts a session: only valid at the main menu, where it freezes the
    /// slot count, resets the session state, and on Hard pre-seeds the hit
    /// counter to thirty and the lives to five.
    pub fn start_game(&mut self, difficulty: Difficulty, slot_count: u8, now_ms: u64)
        requires
            wf(old(self)@),
            slot_count >= 1,
            now_ms <= 0x1000_0000_0000_0000,
        ensures
            wf(final(self)@),
            old(self).state == GameState::MainMenu ==> {
                &&& final(self).state == GameState::Playing(difficulty)
                &&& final(self).tiles@ == Seq::<Tile>::empty()
                &&& final(self).slot_press_time@.len() == slot_count
                &&& forall|i: int|
                    0 <= i < slot_count ==> final(self).slot_press_time@[i] == 0
                &&& final(self).time_since_tile == now_ms
                &&& final(self).tile_spawn_time == 1500
                &&& final(self).tile_hit_count == (if difficulty == Difficulty::Hard {
                    30int
                } else {
                    0int
                })
                &&& final(self).lives == (if difficulty == Difficulty::Hard {
                    5int
                } else {
                    10int
                })
                &&& final(self).slot_clicks == 0
                &&& final(self).game_start_time == now_ms
                &&& final(self).game_end_time == now_ms
                &&& final(self).slot_count == slot_count
                &&& final(self).login_info == old(self).login_info
                &&& final(self).ip_address == old(self).ip_address
                &&& final(self).leader_boards is None
            },
            old(self).state != GameState::MainMenu ==> *final(self) == *old(self),
    {
        match self.state {
            GameState::MainMenu => {},
            _ => {
                return ;
            },
        }
        self.state = GameState::Playing(difficulty);
        self.tiles = Vec::new();
        self.slot_press_time = vec![0u64; slot_count as usize];
        self.time_since_tile = now_ms;
        self.tile_spawn_time = 1500;
        self.tile_hit_count = 0;
        self.lives = 10;
        self.slot_clicks = 0;
        self.game_start_time = now_ms;
        self.game_end_time = now_ms;
        self.slot_count = slot_count;
        self.leader_boards = None;
        if matches!(difficulty, Difficulty::Hard) {
            self.tile_hit_count = 30;
            self.lives = 5;
        }
    }

    /// Resolves one strike on `slot` at clock value `now_ms`.
    pub fn press_slot(&mut self, slot: u8, now_ms: u64)
        requires
            (slot as int) < old(self).slot_press_time@.len(),
            old(self).tiles@.len() <= MAX_TILES,
            -COUNTER_SLACK <= old(self).tile_hit_count,
            old(self).tile_hit_count + 2 * old(self).tiles@.len() <= COUNTER_SLACK,
            0 <= old(self).slot_clicks < COUNTER_SLACK,
        ensures
            final(self)@ == spec_press(old(self)@, slot, now_ms),
            non_sim_unchanged(final(self), old(self)),
    {
        self.slot_press_time[slot as usize] = now_ms;
        let ghost tiles0 = self.tiles@;
        let ghost pred = |t: Tile| !spec_is_hit(t, slot);
        let mut kept: Vec<Tile> = Vec::new();
        let mut i: usize = 0;
        proof {
            reveal(Seq::filter);
            assert(tiles0.subrange(0, 0).filter(pred) =~= Seq::<Tile>::empty());
        }
        while i < self.tiles.len()
            invariant
                i <= self.tiles@.len(),
                self.tiles@ == tiles0,
                pred == (|t: Tile| !spec_is_hit(t, slot)),
                kept@ == tiles0.subrange(0, i as int).filter(pred),
                kept@.len() <= i,
            decreases self.tiles@.len() - i,
        {
            let t = self.tiles[i];
            proof {
                reveal(Seq::filter);
                assert(tiles0.subrange(0, i + 1).drop_last() =~= tiles0.subrange(0, i as int));
                assert(tiles0.subrange(0, i + 1).last() == tiles0[i as int]);
                assert(tiles0.subrange(0, i + 1).filter(pred) == (if pred(tiles0[i as int]) {
                    tiles0.subrange(0, i as int).filter(pred).push(tiles0[i as int])
                } else {
                    tiles0.subrange(0, i as int).filter(pred)
                }));
            }
            if !t.is_hit(slot) {
                kept.push(t);
            }
            i = i + 1;
        }
        proof {
            assert(tiles0.subrange(0, tiles0.len() as int) =~= tiles0);
        }
        if kept.len() == self.tiles.len() {
            self.slot_clicks = self.slot_clicks + 1;
        } else {
            let hits = self.tiles.len() - kept.len();
            self.tile_hit_count = self.tile_hit_count + 2 * (hits as i32);
            self.tiles = kept;
        }
    }

    /// Removes every tile past the lower screen bound; each such miss costs
    /// one life.
    pub fn cleanup_tiles(&mut self)
        requires
            old(self).tiles@.len() <= MAX_TILES + 1,
            old(self).lives >= -COUNTER_LIMIT,
        ensures
            final(self)@ == spec_cleanup(old(self)@),
            non_sim_unchanged(final(self), old(self)),
    {
        let ghost tiles0 = self.tiles@;
        let ghost pred = |t: Tile| t.distance < BOTTOM_BOUND;
        let mut kept: Vec<Tile> = Vec::new();
        let mut i: usize = 0;
        proof {
            reveal(Seq::filter);
            assert(tiles0.subrange(0, 0).filter(pred) =~= Seq::<Tile>::empty());
        }
        while i < self.tiles.len()
            invariant
                i <= self.tiles@.len(),
                self.tiles@ == tiles0,
                pred == (|t: Tile| t.distance < BOTTOM_BOUND),
                kept@ == tiles0.subrange(0, i as int).filter(pred),
                kept@.len() <= i,
            decreases self.tiles@.len() - i,
        {
            let t = self.tiles[i];
            proof {
                reveal(Seq::filter);
                assert(tiles0.subrange(0, i + 1).drop_last() =~= tiles0.subrange(0, i as int));
                assert(tiles0.subrange(0, i + 1).last() == tiles0[i as int]);
                assert(tiles0.subrange(0, i + 1).filter(pred) == (if pred(tiles0[i as int]) {
                    tiles0.subrange(0, i as int).filter(pred).push(tiles0[i as int])
                } else {
                    tiles0.subrange(0, i as int).filter(pred)
                }));
            }
            if t.distance < BOTTOM_BOUND {
                kept.push(t);
            }
            i = i + 1;
        }
        proof {
            assert(tiles0.subrange(0, tiles0.len() as int) =~= tiles0);
        }
        let missed = self.tiles.len() - kept.len();
        self.lives = self.lives - (missed as i32);
        self.tiles = kept;
    }

    /// One simulation tick at clock value `now_ms`, with the set of slots
    /// struck since the last tick. In order: the spawn cadence is recomputed
    /// from the hit counter, every tile advances, a tile is spawned if the
    /// cadence interval has elapsed, the strikes are resolved, tiles past
    /// the lower bound are removed at one life each, and the session moves
    /// to the score screen the tick lives would go negative. The slot and
    /// speed of a spawned tile are drawn at random, so the contract promises
    /// the tick's effect for some in-range slot and some allowed speed.
    #[verifier::loop_isolation(false)]
    pub fn tick_game_state(&mut self, now_ms: u64, pressed: &Vec<u8>)
        requires
            wf(old(self)@),
            old(self).state is Playing,
            old(self).time_since_tile <= now_ms,
            old(self).tiles@.len() < MAX_TILES,
            -COUNTER_LIMIT <= old(self).tile_hit_count <= COUNTER_LIMIT,
            old(self).slot_clicks <= COUNTER_LIMIT,
        ensures
            wf(final(self)@),
            non_sim_unchanged(final(self), old(self)),
            exists|slot: u8, speed: i64|
                {
                    &&& slot < old(self).slot_count
                    &&& spec_speed_allowed(
                        old(self).tile_hit_count as int,
                        old(self).state,
                        speed as int,
                    )
                    &&& final(self)@ == spec_tick(old(self)@, pressed@, now_ms, slot, speed)
                },
    {
        let ghost v0 = self@;
        self.update_tile_spawn_time();
        let ghost v1 = self@;
        proof {
            assert(v1 == StateView { tile_spawn_time: spec_spawn_interval(v0.tile_hit_count), ..v0 });
        }
        // Advance every tile.
        let mut moved: Vec<Tile> = Vec::new();
        let mut i: usize = 0;
        while i < self.tiles.len()
            invariant
                i <= self.tiles@.len(),
                moved@.len() == i,
                forall|k: int|
                    0 <= k < i ==> moved@[k] == (Tile {
                        distance: (v1.tiles[k].distance + v1.tiles[k].speed) as i64,
                        slot: v1.tiles[k].slot,
                        speed: v1.tiles[k].speed,
                    }),
            decreases self.tiles@.len() - i,
        {
            let mut t = self.tiles[i];
            t.tick();
            moved.push(t);
            i = i + 1;
        }
        self.tiles = moved;
        let ghost v2 = self@;
        proof {
            assert(v2.tiles =~= spec_advance(v1.tiles));
            assert(v2 == StateView { tiles: spec_advance(v1.tiles), ..v1 });
        }
        // Spawn a tile when the cadence interval has elapsed.
        let elapsed = now_ms - self.time_since_tile;
        let ghost mut spawn_slot: u8 = 0;
        let ghost mut spawn_speed: i64 = spec_tile_speed_fixed(v0.tile_hit_count) as i64;
        if elapsed >= self.tile_spawn_time as u64 {
            let speed = self.get_tile_speed();
            self.add_tile(speed);
            self.time_since_tile = now_ms;
            proof {
                spawn_slot = self.tiles@.last().slot;
                spawn_speed = speed;
                assert(self.tiles@ =~= v2.tiles.push(
                    Tile { distance: (-TILE_HEIGHT) as i64, slot: spawn_slot, speed },
                ));
            }
        }
        let ghost v3 = self@;
        proof {
            assert(spawn_slot < v0.slot_count);
            assert(spec_speed_allowed(v0.tile_hit_count as int, v0.state, spawn_speed as int));
            assert(v3 == (if now_ms - v2.time_since_tile >= v2.tile_spawn_time {
                StateView {
                    tiles: v2.tiles.push(
                        Tile { distance: (-TILE_HEIGHT) as i64, slot: spawn_slot, speed: spawn_speed },
                    ),
                    time_since_tile: now_ms as int,
                    ..v2
                }
            } else {
                v2
            }));
        }
        // Resolve the strikes slot by slot.
        let mut s: usize = 0;
        while s < self.slot_count as usize
            invariant
                s <= self.slot_count as usize,
                self@ == spec_press_upto(v3, pressed@, now_ms, s as int),
                self.slot_press_time@.len() == v0.slot_count,
                self.slot_count == v0.slot_count,
                self.tiles@.len() <= v3.tiles.len(),
                self.tile_hit_count + 2 * self.tiles@.len() == v3.tile_hit_count + 2
                    * v3.tiles.len(),
                self.tile_hit_count >= v3.tile_hit_count,
                self.slot_clicks <= v3.slot_clicks + s,
                self.slot_clicks >= v3.slot_clicks,
                self.lives == v3.lives,
                self.state == v3.state,
                self.tile_spawn_time as int == v3.tile_spawn_time,
                self.time_since_tile as int == v3.time_since_tile,
                self.game_start_time as int == v3.game_start_time,
                self.game_end_time as int == v3.game_end_time,
                forall|x: Tile| self.tiles@.contains(x) ==> v3.tiles.contains(x),
                non_sim_unchanged(self, old(self)),
            decreases self.slot_count as int - s,
        {
            let ghost before = self@;
            if vec_contains(pressed, s as u8) {
                self.press_slot(s as u8, now_ms);
                proof {
                    broadcast use vstd::seq_lib::group_filter_ensures, vstd::prelude::Seq::lemma_filter_contains_rev;

                    assert(self.tiles@ == before.tiles || self.tiles@ == before.tiles.filter(
                        |t: Tile| !spec_is_hit(t, s as u8),
                    ));
                }
            }
            proof {
                assert(spec_press_upto(v3, pressed@, now_ms, s + 1) == (if pressed@.contains(
                    s as u8,
                ) {
                    spec_press(spec_press_upto(v3, pressed@, now_ms, s as int), s as u8, now_ms)
                } else {
                    spec_press_upto(v3, pressed@, now_ms, s as int)
                }));
            }
            s = s + 1;
        }
        let ghost v4 = self@;
        // Remove missed tiles and pay lives for them.
        self.cleanup_tiles();
        let ghost v5 = self@;
        proof {
            assert(v5 == spec_cleanup(v4));
        }
        // Leave the session the tick lives would go negative.
        if self.lives < 0 {
            self.state = GameState::ScoreScreen;
            self.game_end_time = now_ms;
        }
        proof {
            broadcast use vstd::seq_lib::group_filter_ensures, vstd::prelude::Seq::lemma_filter_contains_rev;
            
            

            assert(self@ == spec_tick(v0, pressed@, now_ms, spawn_slot, spawn_speed));
            assert forall|j: int| 0 <= j < v3.tiles.len() implies {
                &&& (#[trigger] v3.tiles[j]).slot < v0.slot_count
                &&& 1 <= v3.tiles[j].speed <= MAX_TILE_SPEED
                &&& -TILE_HEIGHT <= v3.tiles[j].distance
            } by {
                if j < v1.tiles.len() {
                    assert(v2.tiles[j] == (Tile {
                        distance: (v1.tiles[j].distance + v1.tiles[j].speed) as i64,
                        slot: v1.tiles[j].slot,
                        speed: v1.tiles[j].speed,
                    }));
                }
            }
            assert forall|k: int| 0 <= k < self.tiles@.len() implies {
                &&& (#[trigger] self.tiles@[k]).slot < v0.slot_count
                &&& 1 <= self.tiles@[k].speed <= MAX_TILE_SPEED
                &&& -TILE_HEIGHT <= self.tiles@[k].distance < BOTTOM_BOUND
            } by {
                let x = self.tiles@[k];
                assert(self.tiles@.contains(x));
                assert(v4.tiles.contains(x));
                assert(v3.tiles.contains(x));
                let j = choose|j: int| 0 <= j < v3.tiles.len() && v3.tiles[j] == x;
                assert(x.distance < BOTTOM_BOUND);
            }
            assert(wf(self@));
        }
    }

    /// Returns to the main menu from the score screen or the leaderboard
    /// view; a no-op anywhere else.
    pub fn goto_main_menu(&mut self)
        requires
            wf(old(self)@),
        ensures
            wf(final(self)@),
            (old(self).state == GameState::ScoreScreen || old(self).state
                == GameState::Leaderboards) ==> *final(self) == (TileGameState {
                state: GameState::MainMenu,
                ..*old(self)
            }),
            !(old(self).state == GameState::ScoreScreen || old(self).state
                == GameState::Leaderboards) ==> *final(self) == *old(self),
    {
        match self.state {
            GameState::ScoreScreen | GameState::Leaderboards => {
                self.state = GameState::MainMenu;
            },
            _ => {},
        }
    }

    /// Opens the leaderboard view from the main menu; a no-op anywhere else.
    /// Entering is the caller's cue to request a refresh.
    pub fn goto_leaderboards(&mut self)
        requires
            wf(old(self)@),
        ensures
            wf(final(self)@),
            old(self).state == GameState::MainMenu ==> *final(self) == (TileGameState {
                state: GameState::Leaderboards,
                ..*old(self)
            }),
            old(self).state != GameState::MainMenu ==> *final(self) == *old(self),
    {
        match self.state {
            GameState::MainMenu => {
                self.state = GameState::Leaderboards;
            },
            _ => {},
        }
    }
}

} // verus!
