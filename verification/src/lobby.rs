//! Lobbies: the players who wait for a game, and how long they may wait.

use vstd::prelude::*;

verus! {

/// Whether a lobby takes new players.
#[derive(Clone, Copy, Debug, PartialEq, Eq, Structural)]
pub enum VuLobbyStatus {
    /// Lobby is waiting and accepting new players
    Waiting,
    /// Lobby is in-game and not accepting new players
    InGame,
}

/// A moment in time: whole seconds since the start of 1970 in UTC, and the
/// nanoseconds since the last whole second.
#[derive(Clone, Copy, Debug, PartialEq, Eq, Structural)]
pub struct Timestamp {
    pub seconds: i64,
    pub nanoseconds: u32,
}

impl Timestamp {
    /// This moment is `other` or later.
    pub open spec fn at_or_after(self, other: Timestamp) -> bool {
        self.seconds > other.seconds || (self.seconds == other.seconds && self.nanoseconds
            >= other.nanoseconds)
    }

    /// This moment with `minutes` whole minutes added.
    pub open spec fn plus_minutes(self, minutes: int) -> Timestamp {
        Timestamp { seconds: (self.seconds + 60 * minutes) as i64, nanoseconds: self.nanoseconds }
    }

    /// Whether this moment is `other` or later.
    pub fn is_at_or_after(&self, other: &Timestamp) -> (later: bool)
        ensures
            later == self.at_or_after(*other),
    {
        self.seconds > other.seconds || (self.seconds == other.seconds && self.nanoseconds
            >= other.nanoseconds)
    }
}

/// Calls `chrono::Utc::now` and reads the result with `DateTime::timestamp`
/// and `DateTime::timestamp_subsec_nanos`. The moment itself is the clock's;
/// the contract claims only that its seconds stay within what a day count of
/// 32 bits allows, which is how `timestamp` computes them. `Utc::now` panics
/// where the system clock stands before 1970.
#[verifier::external_body]
fn utc_now() -> (now: Timestamp)
    ensures
        -371_085_174_374_400 < now.seconds < 371_085_174_374_400,
{
    let now = chrono::Utc::now();
    Timestamp { seconds: now.timestamp(), nanoseconds: now.timestamp_subsec_nanos() }
}

/// Calls `uuid::Uuid::new_v4` and reads the result with `Uuid::as_u128`. The
/// id is random; the contract claims only the version and variant bits that
/// `new_v4` sets in each: version 4 in bits 76 to 79, variant `10` in bits 62
/// and 63.
#[verifier::external_body]
fn random_id() -> (id: u128)
    ensures
        (id / 0x1000_0000_0000_0000_0000) % 16 == 4,
        (id / 0x4000_0000_0000_0000) % 4 == 2,
{
    uuid::Uuid::new_v4().as_u128()
}

/// What a lobby holds.
pub struct LobbyView {
    pub id: u128,
    pub status: VuLobbyStatus,
    /// The ids of the players, in the order in which they joined.
    pub players: Seq<u128>,
    pub max_players: usize,
    pub creation_time: Timestamp,
    pub expiry_time: Timestamp,
}

impl LobbyView {
    /// The lobby has room for one more player.
    pub open spec fn has_room(self) -> bool {
        self.players.len() < self.max_players
    }

    /// The lobby after `player_id` asked to join: a newcomer joins at the end
    /// where there is room; otherwise nothing changes.
    pub open spec fn with_player(self, player_id: u128) -> LobbyView {
        if self.has_room() && !self.players.contains(player_id) {
            LobbyView { players: self.players.push(player_id), ..self }
        } else {
            self
        }
    }

    /// The lobby after `player_id` left: the other players stay, in order.
    pub open spec fn without_player(self, player_id: u128) -> LobbyView {
        if self.players.contains(player_id) {
            LobbyView {
                players: self.players.remove(self.players.index_of(player_id)),
                ..self
            }
        } else {
            self
        }
    }

    /// The lobby has run out at `now`.
    pub open spec fn expired_at(self, now: Timestamp) -> bool {
        now.at_or_after(self.expiry_time)
    }

    /// The lobby after it was asked at `now` for more time: one that has not
    /// run out yet runs for five minutes from `now`; one that has stays as it
    /// is.
    pub open spec fn extended_at(self, now: Timestamp) -> LobbyView {
        if self.expired_at(now) {
            self
        } else {
            LobbyView { expiry_time: now.plus_minutes(5), ..self }
        }
    }
}

/// The lobby implementation
///
/// This is responsible for keeping all players in a lobby until they are
/// put into a game.
#[derive(Debug)]
pub struct VuLobby {
    /// Current lobby id
    id: u128,
    /// Current lobby status
    status: VuLobbyStatus,
    /// Current id of players joined to the lobby
    players: Vec<u128>,
    /// Maximum amount of players allowed in the lobby
    max_players: usize,
    /// Creation time of this lobby
    creation_time: Timestamp,
    /// Expiry time of this lobby
    expiry_time: Timestamp,
}

impl View for VuLobby {
    type V = LobbyView;

    closed spec fn view(&self) -> LobbyView {
        LobbyView {
            id: self.id,
            status: self.status,
            players: self.players@,
            max_players: self.max_players,
            creation_time: self.creation_time,
            expiry_time: self.expiry_time,
        }
    }
}

impl VuLobby {
    /// Default maximum player count (default: 4)
    pub const DEFAULT_MAX_PLAYERS: usize = 4;

    /// Default expiry time in MINUTES
    pub const DEFAULT_EXPIRY_TIME: usize = 5;

    #[verifier::type_invariant]
    spec fn well_formed(&self) -> bool {
        &&& self.players@.no_duplicates()
        &&& self.players@.len() <= self.max_players
    }

    /// A waiting lobby without players, made at `now` under the id `id`, for
    /// `DEFAULT_MAX_PLAYERS` players and `DEFAULT_EXPIRY_TIME` minutes.
    pub fn new_at(id: u128, now: Timestamp) -> (lobby: VuLobby)
        requires
            now.seconds + 300 <= i64::MAX,
        ensures
            lobby@ == (LobbyView {
                id,
                status: VuLobbyStatus::Waiting,
                players: Seq::empty(),
                max_players: 4,
                creation_time: now,
                expiry_time: now.plus_minutes(5),
            }),
    {
        VuLobby {
            id,
            status: VuLobbyStatus::Waiting,
            players: Vec::new(),
            max_players: VuLobby::DEFAULT_MAX_PLAYERS,
            creation_time: now,
            expiry_time: Timestamp { seconds: now.seconds + 300, nanoseconds: now.nanoseconds },
        }
    }

    /// Creates a new instance of a VuLobby in waiting state, under a random
    /// id, at the present moment.
    ///
    /// Uses the `VuLobby::DEFAULT_MAX_PLAYERS` for player count
    pub fn new() -> (lobby: VuLobby)
        ensures
            lobby@ == (LobbyView {
                id: lobby@.id,
                status: VuLobbyStatus::Waiting,
                players: Seq::empty(),
                max_players: 4,
                creation_time: lobby@.creation_time,
                expiry_time: lobby@.creation_time.plus_minutes(5),
            }),
            (lobby@.id / 0x1000_0000_0000_0000_0000) % 16 == 4,
            (lobby@.id / 0x4000_0000_0000_0000) % 4 == 2,
    {
        let now = utc_now();
        VuLobby::new_at(random_id(), now)
    }

    /// The id of the lobby.
    pub fn id(&self) -> (id: u128)
        ensures
            id == self@.id,
    {
        self.id
    }

    /// Whether the lobby takes new players.
    pub fn status(&self) -> (status: VuLobbyStatus)
        ensures
            status == self@.status,
    {
        self.status
    }

    /// The ids of the players, in the order in which they joined; none
    /// twice, and no more than the lobby allows.
    pub fn players(&self) -> (players: &Vec<u128>)
        ensures
            players@ == self@.players,
            players@.no_duplicates(),
            players@.len() <= self@.max_players,
    {
        proof {
            use_type_invariant(self);
        }
        &self.players
    }

    /// The number of players that the lobby allows.
    pub fn max_players(&self) -> (max_players: usize)
        ensures
            max_players == self@.max_players,
    {
        self.max_players
    }

    /// When the lobby was made.
    pub fn creation_time(&self) -> (time: Timestamp)
        ensures
            time == self@.creation_time,
    {
        self.creation_time
    }

    /// When the lobby runs out.
    pub fn expiry_time(&self) -> (time: Timestamp)
        ensures
            time == self@.expiry_time,
    {
        self.expiry_time
    }

    /// Where `player_id` stands among the players.
    #[verifier::loop_isolation(false)]
    fn position(&self, player_id: u128) -> (position: Option<usize>)
        ensures
            self@.players.no_duplicates(),
            self@.players.len() <= self@.max_players,
            match position {
                Some(i) => i < self@.players.len() && self@.players[i as int] == player_id
                    && self@.players.index_of(player_id) == i,
                None => !self@.players.contains(player_id),
            },
    {
        proof {
            use_type_invariant(self);
        }
        let mut i: usize = 0;
        while i < self.players.len()
            invariant
                i <= self.players@.len(),
                forall|k: int| 0 <= k < i ==> self.players@[k] != player_id,
            decreases self.players@.len() - i,
        {
            if self.players[i] == player_id {
                return Some(i);
            }
            i += 1;
        }
        None
    }

    /// Adds a player to the lobby
    ///
    /// `player_id` - Player uuid
    ///
    /// Returns `true` on success, `false` otherwise: a full lobby takes
    /// nobody, not even a player who is in it; a player who is in a lobby
    /// with room succeeds and is not added again.
    pub fn add_player(&mut self, player_id: u128) -> (added: bool)
        ensures
            added == old(self)@.has_room(),
            final(self)@ == old(self)@.with_player(player_id),
    {
        // Verify that there is space in this lobby
        if self.players.len() >= self.max_players {
            return false;
        }
        // Check if we already have this player, if so then return success but do not add the duplicate
        if self.position(player_id).is_some() {
            return true;
        }
        // Add the player id to this lobby
        let mut players: Vec<u128> = Vec::new();
        std::mem::swap(&mut players, &mut self.players);
        players.push(player_id);
        self.players = players;
        true
    }

    /// Removes a player from the lobby
    ///
    /// `player_id` - Player uuid
    ///
    /// Returns `true` on success, `false` otherwise
    pub fn remove_player(&mut self, player_id: u128) -> (removed: bool)
        ensures
            removed == old(self)@.players.contains(player_id),
            final(self)@ == old(self)@.without_player(player_id),
            !final(self)@.players.contains(player_id),
    {
        match self.position(player_id) {
            Some(i) => {
                let ghost before = self.players@;
                let mut players: Vec<u128> = Vec::new();
                std::mem::swap(&mut players, &mut self.players);
                players.remove(i);
                assert(!players@.contains(player_id)) by {
                    if players@.contains(player_id) {
                        let k = choose|k: int| 0 <= k < players@.len() && players@[k] == player_id;
                        if k < i {
                            assert(before[k] == player_id);
                        } else {
                            assert(before[k + 1] == player_id);
                        }
                    }
                }
                assert(players@.no_duplicates()) by {
                    assert forall|a: int, b: int|
                        0 <= a < players@.len() && 0 <= b < players@.len() && a != b implies players@[a]
                        != players@[b] by {
                        let x = if a < i { a } else { a + 1 };
                        let y = if b < i { b } else { b + 1 };
                        assert(before[x] != before[y]);
                    }
                }
                self.players = players;
                true
            },
            None => false,
        }
    }

    /// Gives a lobby that has not run out at `now` five minutes from `now`.
    ///
    /// Returns `false`, and changes nothing, if the lobby has already
    /// expired; `true` on success.
    pub fn extend_expiry_at(&mut self, now: Timestamp) -> (extended: bool)
        requires
            now.seconds + 300 <= i64::MAX,
        ensures
            extended == !old(self)@.expired_at(now),
            final(self)@ == old(self)@.extended_at(now),
    {
        proof {
            use_type_invariant(&*self);
        }
        // Check to see if the lobby has already expired
        if now.is_at_or_after(&self.expiry_time) {
            return false;
        }
        // Set the new expiry time
        self.expiry_time = Timestamp { seconds: now.seconds + 300, nanoseconds: now.nanoseconds };
        true
    }

    /// Extends the expiration time of this lobby by the default expiry time,
    /// counted from the present moment.
    ///
    /// This will return `false` if the current lobby has already expired
    ///
    /// Returns `true` on success, `false` otherwise
    pub fn extend_expiry(&mut self) -> (extended: bool)
        ensures
            exists|now: Timestamp|
                extended == !old(self)@.expired_at(now) && final(self)@ == old(self)@.extended_at(
                    now,
                ),
    {
        let now = utc_now();
        let ghost before = self@;
        let extended = self.extend_expiry_at(now);
        assert(extended == !before.expired_at(now) && self@ == before.extended_at(now));
        extended
    }

    /// Whether the lobby has run out at `now`.
    pub fn is_expired_at(&self, now: Timestamp) -> (expired: bool)
        ensures
            expired == self@.expired_at(now),
    {
        now.is_at_or_after(&self.expiry_time)
    }

    /// Returns if this lobby is expired and should be removed
    pub fn is_expired(&self) -> (expired: bool)
        ensures
            exists|now: Timestamp| expired == self@.expired_at(now),
    {
        let now = utc_now();
        let expired = self.is_expired_at(now);
        assert(expired == self@.expired_at(now));
        expired
    }
}

} // verus!
