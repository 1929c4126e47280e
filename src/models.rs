use std::collections::HashMap;
use vstd::prelude::*;

verus! {

pub type GameCode = usize;

pub type PlayerId = String;

#[derive(Debug, Clone, Copy, PartialEq, Eq, Structural)]
pub enum PlayerStatus {
    Joined,
    Ready,
}

/// A participant of a session, keyed by its name.
#[derive(Debug)]
pub struct Player {
    pub status: PlayerStatus,
    pub id: String,
    pub points: usize,
}

/// What a player is, as plain values.
pub ghost struct PlayerView {
    pub id: Seq<char>,
    pub status: PlayerStatus,
    pub points: nat,
}

impl View for Player {
    type V = PlayerView;

    open spec fn view(&self) -> PlayerView {
        PlayerView { id: self.id@, status: self.status, points: self.points as nat }
    }
}

impl Player {
    /// A freshly joined player with no points.
    pub fn new(id: String) -> (r: Player)
        ensures
            r@ == (PlayerView { id: id@, status: PlayerStatus::Joined, points: 0 }),
    {
        Player { id, status: PlayerStatus::Joined, points: 0 }
    }

    /// An independent copy of this player.
    pub fn snapshot(&self) -> (r: Player)
        ensures
            r@ == self@,
    {
        Player { id: self.id.clone(), status: self.status, points: self.points }
    }
}

#[derive(Debug, Clone, Copy, PartialEq, Eq, Structural)]
pub enum GameRoundStatus {
    NotStarted,
    SelectGif,
    Present,
    Vote,
    Finished,
}

/// An image that a player submitted in a round.
#[derive(Debug)]
pub struct Image {
    pub id: usize,
    pub url: String,
    pub player: PlayerId,
    pub votes: usize,
}

/// One round of a game. Sessions hold none yet: rounds are not played.
#[derive(Debug)]
pub struct GameRound {
    pub order: usize,
    pub status: GameRoundStatus,
    pub caption: String,
    pub present_image: String,
    pub images: HashMap<PlayerId, Image>,
}

#[derive(Debug, Clone, Copy, PartialEq, Eq, Structural)]
pub enum GameStatus {
    Active,
    Finished,
}

/// A game session: its code, its capacity and the players that joined it.
#[derive(Debug)]
pub struct Game {
    code: GameCode,
    players: Vec<Player>,
    status: GameStatus,
    total_players: usize,
    rounds: Vec<GameRound>,
}

/// What a session is, as plain values: its players in the order they joined.
pub ghost struct GameView {
    pub code: nat,
    pub players: Seq<PlayerView>,
    pub status: GameStatus,
    pub total_players: nat,
}

/// Whether some player in `ps` has the name `id`.
pub open spec fn has_player(ps: Seq<PlayerView>, id: Seq<char>) -> bool {
    exists|i: int| 0 <= i < ps.len() && ps[i].id == id
}

/// No two players in `ps` share a name.
pub open spec fn unique_ids(ps: Seq<PlayerView>) -> bool {
    forall|i: int, j: int| 0 <= i < ps.len() && 0 <= j < ps.len() && i != j ==> ps[i].id != ps[j].id
}

/// The players after `p` is put in: it replaces the player of the same name,
/// or joins at the end.
pub open spec fn with_player(ps: Seq<PlayerView>, p: PlayerView) -> Seq<PlayerView> {
    if has_player(ps, p.id) {
        ps.update(choose|i: int| 0 <= i < ps.len() && ps[i].id == p.id, p)
    } else {
        ps.push(p)
    }
}

impl View for Game {
    type V = GameView;

    closed spec fn view(&self) -> GameView {
        GameView {
            code: self.code as nat,
            players: self.players@.map_values(|p: Player| p@),
            status: self.status,
            total_players: self.total_players as nat,
        }
    }
}

impl Game {
    /// Player names are unique, and no round has been played.
    pub closed spec fn wf(&self) -> bool {
        &&& unique_ids(self@.players)
        &&& self.rounds@.len() == 0
    }

    /// An active session with no players.
    pub fn new(code: usize, players: usize, _rounds: usize) -> (r: Game)
        ensures
            r.wf(),
            r@ == (GameView {
                code: code as nat,
                players: Seq::empty(),
                status: GameStatus::Active,
                total_players: players as nat,
            }),
    {
        let r = Game {
            code,
            players: Vec::new(),
            status: GameStatus::Active,
            total_players: players,
            rounds: Vec::new(),
        };
        assert(r@.players =~= Seq::empty());
        r
    }

    /// Where the player named `id` stands, if it has joined.
    fn find_player(&self, id: &String) -> (r: Option<usize>)
        ensures
            match r {
                Some(i) => i < self@.players.len() && self@.players[i as int].id == id@,
                None => !has_player(self@.players, id@),
            },
    {
        let mut i: usize = 0;
        while i < self.players.len()
            invariant
                i <= self.players@.len(),
                forall|j: int| 0 <= j < i ==> self@.players[j].id != id@,
            decreases self.players@.len() - i,
        {
            if self.players[i].id == *id {
                return Some(i);
            }
            i = i + 1;
        }
        None
    }

    /// Puts a copy of `p` in the session, in place of a player of the same name.
    pub fn add_player(&mut self, p: &Player)
        requires
            old(self).wf(),
        ensures
            final(self).wf(),
            final(self)@ == (GameView { players: with_player(old(self)@.players, p@), ..old(self)@ }),
    {
        let ghost ps = self@.players;
        match self.find_player(&p.id) {
            Some(i) => {
                assert(ps[i as int].id == p@.id);
                let ghost k = choose|k: int| 0 <= k < ps.len() && ps[k].id == p@.id;
                assert(k == i);
                self.players.set(i, p.snapshot());
                assert(self@.players =~= ps.update(i as int, p@));
            },
            None => {
                self.players.push(p.snapshot());
                assert(self@.players =~= ps.push(p@));
            },
        }
    }

    /// Whether a player named `id` has joined the session.
    pub fn player_exists(&self, id: &String) -> (r: bool)
        ensures
            r == has_player(self@.players, id@),
    {
        self.find_player(id).is_some()
    }

    /// An independent copy of this session.
    pub fn snapshot(&self) -> (r: Game)
        requires
            self.wf(),
        ensures
            r.wf(),
            r@ == self@,
    {
        let mut players: Vec<Player> = Vec::new();
        let mut i: usize = 0;
        while i < self.players.len()
            invariant
                i <= self.players@.len(),
                players@.len() == i,
                forall|j: int| 0 <= j < i ==> players@[j]@ == self.players@[j]@,
            decreases self.players@.len() - i,
        {
            players.push(self.players[i].snapshot());
            i = i + 1;
        }
        let r = Game {
            code: self.code,
            players,
            status: self.status,
            total_players: self.total_players,
            rounds: Vec::new(),
        };
        assert(r@.players =~= self@.players);
        r
    }

    pub fn code(&self) -> (r: GameCode)
        ensures
            r as nat == self@.code,
    {
        self.code
    }

    pub fn status(&self) -> (r: GameStatus)
        ensures
            r == self@.status,
    {
        self.status
    }

    pub fn total_players(&self) -> (r: usize)
        ensures
            r as nat == self@.total_players,
    {
        self.total_players
    }

    /// The players, in the order they joined.
    pub fn players(&self) -> (r: &Vec<Player>)
        requires
            self.wf(),
        ensures
            r@.map_values(|p: Player| p@) == self@.players,
    {
        &self.players
    }

    /// The rounds played so far: none yet.
    pub fn rounds(&self) -> (r: &Vec<GameRound>)
        requires
            self.wf(),
        ensures
            r@.len() == 0,
    {
        &self.rounds
    }
}

} // verus!
