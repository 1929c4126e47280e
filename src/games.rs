use crate::models::{has_player, Game, GameStatus, GameView, Player, PlayerStatus, PlayerView};
use crate::registry::{
    delivered_ids, handed_out, outcomes, survivors, targets, Audience, Delivery, Duplicate, Registry,
};
use crate::util::random_number;
use std::collections::HashMap;
use vstd::prelude::*;

verus! {

broadcast use vstd::std_specs::hash::group_hash_axioms;

/// An event sent to the subscribers of a session.
#[derive(Debug, Clone)]
pub enum Message {
    PlayerJoined(String),
}

impl View for Message {
    /// The name of the player that joined.
    type V = Seq<char>;

    open spec fn view(&self) -> Seq<char> {
        match self {
            Message::PlayerJoined(name) => name@,
        }
    }
}

impl Duplicate for Message {
    fn duplicate(&self) -> (r: Message)
        ensures
            r@ == self@,
    {
        match self {
            Message::PlayerJoined(name) => Message::PlayerJoined(name.clone()),
        }
    }
}

/// Why a join was refused.
#[derive(Debug, Clone, Copy, PartialEq, Eq, Structural)]
pub enum JoinError {
    /// The request named no player.
    Validation,
    /// No session has this code.
    NotFound,
    /// A player of this name has already joined.
    Conflict,
}

/// The lowest session code.
pub const CODE_BASE: usize = 1000;

/// How many session codes there are: they run from 1000 to 9999.
pub const CODE_SPAN: usize = 9000;

/// The code tried at step `k` when a session is created from `seed`: the codes
/// are walked in a circle, starting at the one that `seed` picks.
pub open spec fn probe(seed: u32, k: int) -> int {
    CODE_BASE + (seed as int % CODE_SPAN as int + k) % CODE_SPAN as int
}

/// A session with no players, as a fresh create makes it.
pub open spec fn fresh_game(code: int, players: usize) -> GameView {
    GameView {
        code: code as nat,
        players: Seq::empty(),
        status: GameStatus::Active,
        total_players: players as nat,
    }
}

/// A player that has just joined under `name`.
pub open spec fn newcomer(name: Seq<char>) -> PlayerView {
    PlayerView { id: name, status: PlayerStatus::Joined, points: 0 }
}

/// The name that a join request carries, as plain values.
pub open spec fn given(name: Option<String>) -> Option<Seq<char>> {
    match name {
        Some(n) => Some(n@),
        None => None,
    }
}

/// What a join of `name` to session `code` answers.
pub open spec fn join_result(store: Map<usize, GameView>, code: usize, name: Option<Seq<char>>) -> Result<
    PlayerView,
    JoinError,
> {
    match name {
        None => Err(JoinError::Validation),
        Some(n) => if !store.contains_key(code) {
            Err(JoinError::NotFound)
        } else if has_player(store[code].players, n) {
            Err(JoinError::Conflict)
        } else {
            Ok(newcomer(n))
        },
    }
}

/// The sessions after a join of `name` to session `code`: on success the
/// newcomer is last among its players, and otherwise nothing changes.
pub open spec fn after_join(store: Map<usize, GameView>, code: usize, name: Option<Seq<char>>) -> Map<
    usize,
    GameView,
> {
    match join_result(store, code, name) {
        Ok(p) => store.insert(
            code,
            GameView { players: store[code].players.push(p), ..store[code] },
        ),
        Err(_) => store,
    }
}

/// The sessions after `names` join session `code` one after another, and
/// whether every one of those joins succeeded.
pub open spec fn join_each(store: Map<usize, GameView>, code: usize, names: Seq<Seq<char>>) -> (Map<
    usize,
    GameView,
>, bool)
    decreases names.len(),
{
    if names.len() == 0 {
        (store, true)
    } else {
        let (s, ok) = join_each(store, code, names.drop_last());
        let n = names.last();
        (after_join(s, code, Some(n)), ok && join_result(s, code, Some(n)) is Ok)
    }
}

/// Joins of distinct new names to an existing session all succeed, and the
/// session ends up with one more player for each name, in the order given.
pub proof fn lemma_distinct_joins_succeed(
    store: Map<usize, GameView>,
    code: usize,
    names: Seq<Seq<char>>,
)
    requires
        store.contains_key(code),
        forall|i: int, j: int| 0 <= i < j < names.len() ==> names[i] != names[j],
        forall|i: int| 0 <= i < names.len() ==> !has_player(store[code].players, #[trigger] names[i]),
    ensures
        join_each(store, code, names).1,
        join_each(store, code, names).0 == store.insert(
            code,
            GameView {
                players: store[code].players + names.map_values(|n: Seq<char>| newcomer(n)),
                ..store[code]
            },
        ),
        join_each(store, code, names).0[code].players.len() == store[code].players.len()
            + names.len(),
    decreases names.len(),
{
    if names.len() == 0 {
        assert(store[code].players + names.map_values(|n: Seq<char>| newcomer(n)) =~= store[code].players);
        assert(store.insert(code, store[code]) =~= store);
    } else {
        let prev = names.drop_last();
        lemma_distinct_joins_succeed(store, code, prev);
        let s = join_each(store, code, prev).0;
        let n = names.last();
        let ps = s[code].players;
        assert(ps == store[code].players + prev.map_values(|n: Seq<char>| newcomer(n)));
        assert(!has_player(ps, n)) by {
            if has_player(ps, n) {
                let i = choose|i: int| 0 <= i < ps.len() && ps[i].id == n;
                if i < store[code].players.len() {
                    assert(ps[i] == store[code].players[i]);
                    assert(has_player(store[code].players, names[names.len() - 1]));
                } else {
                    let m = i - store[code].players.len();
                    assert(ps[i] == newcomer(prev[m]));
                    assert(names[m] == prev[m]);
                }
            }
        }
        assert(ps.push(newcomer(n)) =~= store[code].players + names.map_values(
            |n: Seq<char>| newcomer(n),
        ));
        assert(after_join(s, code, Some(n)) =~= store.insert(
            code,
            GameView {
                players: store[code].players + names.map_values(|n: Seq<char>| newcomer(n)),
                ..store[code]
            },
        ));
    }
}

/// Two joins of the same new name to a session, one after the other as the
/// store serialises them: the first succeeds, the second is a conflict that
/// changes nothing, and the session has exactly one more player.
pub proof fn lemma_same_name_joins_once(store: Map<usize, GameView>, code: usize, name: Seq<char>)
    requires
        store.contains_key(code),
        !has_player(store[code].players, name),
    ensures
        join_result(store, code, Some(name)) == Ok::<PlayerView, JoinError>(newcomer(name)),
        join_result(after_join(store, code, Some(name)), code, Some(name)) == Err::<
            PlayerView,
            JoinError,
        >(JoinError::Conflict),
        after_join(after_join(store, code, Some(name)), code, Some(name)) == after_join(
            store,
            code,
            Some(name),
        ),
        after_join(store, code, Some(name))[code].players.len() == store[code].players.len() + 1,
{
    let ps = after_join(store, code, Some(name))[code].players;
    assert(ps[ps.len() - 1].id == name);
}

/// A join to a code that no session has is refused as not found, whatever
/// session is created under another code in the meantime.
pub proof fn lemma_unknown_code_not_found(
    store: Map<usize, GameView>,
    code: usize,
    other: usize,
    g: GameView,
    name: Seq<char>,
)
    requires
        !store.contains_key(code),
        other != code,
    ensures
        join_result(store, code, Some(name)) == Err::<PlayerView, JoinError>(JoinError::NotFound),
        join_result(store.insert(other, g), code, Some(name)) == Err::<PlayerView, JoinError>(
            JoinError::NotFound,
        ),
{
}

/// All sessions, keyed by code.
pub struct GameStore {
    games: HashMap<usize, Game>,
}

impl View for GameStore {
    type V = Map<usize, GameView>;

    closed spec fn view(&self) -> Map<usize, GameView> {
        self.games@.map_values(|g: Game| g@)
    }
}

impl GameStore {
    /// Each session is well formed and stored under its own code.
    pub closed spec fn wf(&self) -> bool {
        forall|c: usize| #[trigger]
            self.games@.contains_key(c) ==> self.games@[c].wf() && self.games@[c]@.code == c
    }

    /// A store with no sessions.
    pub fn new() -> (r: GameStore)
        ensures
            r.wf(),
            r@ == Map::<usize, GameView>::empty(),
    {
        let r = GameStore { games: HashMap::new() };
        assert(r@ =~= Map::<usize, GameView>::empty());
        r
    }

    /// Whether a session has this code.
    pub fn contains(&self, code: usize) -> (r: bool)
        ensures
            r == self@.contains_key(code),
    {
        self.games.contains_key(&code)
    }
}

/// Creates a session for `players` players under the first free code on the
/// circle of codes that starts where `seed` points, and returns a copy of it.
/// Returns `None`, and changes nothing, only where every code is taken.
pub fn create_game_with(games: &mut GameStore, seed: u32, players: usize, rounds: usize) -> (r:
    Option<Game>)
    requires
        old(games).wf(),
    ensures
        final(games).wf(),
        match r {
            Some(g) => exists|k: int|
                0 <= k < CODE_SPAN && probe(seed, k) == g@.code && !old(games)@.contains_key(
                    g@.code as usize,
                ) && (forall|j: int| 0 <= j < k ==> old(games)@.contains_key(probe(seed, j) as usize))
                    && g.wf() && g@ == fresh_game(g@.code as int, players) && final(games)@ == old(
                    games,
                )@.insert(g@.code as usize, g@),
            None => final(games)@ == old(games)@ && forall|c: usize|
                CODE_BASE <= c < CODE_BASE + CODE_SPAN ==> old(games)@.contains_key(c),
        },
{
    let start: usize = (seed % (CODE_SPAN as u32)) as usize;
    let mut k: usize = 0;
    while k < CODE_SPAN
        invariant
            games.wf(),
            games@ == old(games)@,
            start == seed as int % CODE_SPAN as int,
            k <= CODE_SPAN,
            forall|j: int| 0 <= j < k ==> old(games)@.contains_key(probe(seed, j) as usize),
        decreases CODE_SPAN - k,
    {
        let code: usize = CODE_BASE + (start + k) % CODE_SPAN;
        assert(code == probe(seed, k as int));
        if !games.games.contains_key(&code) {
            let g = Game::new(code, players, rounds);
            let copy = g.snapshot();
            games.games.insert(code, g);
            assert(games@ =~= old(games)@.insert(code, copy@));
            return Some(copy);
        }
        k = k + 1;
    }
    assert forall|c: usize| CODE_BASE <= c < CODE_BASE + CODE_SPAN implies old(games)@.contains_key(c) by {
        let s = seed as int % CODE_SPAN as int;
        let j = if c - CODE_BASE >= s {
            c - CODE_BASE - s
        } else {
            c - CODE_BASE - s + CODE_SPAN
        };
        assert(probe(seed, j) == c);
    }
    None
}

/// Creates a session for `players` players under a code drawn from the clock,
/// or the next free one after it, and returns a copy of it. Returns `None`,
/// and changes nothing, only where every code from 1000 to 9999 is taken.
pub fn create_game(games: &mut GameStore, players: usize, rounds: usize) -> (r: Option<Game>)
    requires
        old(games).wf(),
    ensures
        final(games).wf(),
        match r {
            Some(g) => CODE_BASE <= g@.code < CODE_BASE + CODE_SPAN && !old(games)@.contains_key(
                g@.code as usize,
            ) && g.wf() && g@ == fresh_game(g@.code as int, players) && final(games)@ == old(
                games,
            )@.insert(g@.code as usize, g@),
            None => final(games)@ == old(games)@ && forall|c: usize|
                CODE_BASE <= c < CODE_BASE + CODE_SPAN ==> old(games)@.contains_key(c),
        },
{
    let seed = random_number();
    create_game_with(games, seed, players, rounds)
}

/// A copy of the session with this code, if there is one.
pub fn get_game(games: &GameStore, code: usize) -> (r: Option<Game>)
    requires
        games.wf(),
    ensures
        match r {
            Some(g) => games@.contains_key(code) && g.wf() && g@ == games@[code],
            None => !games@.contains_key(code),
        },
{
    match games.games.get(&code) {
        Some(g) => Some(g.snapshot()),
        None => None,
    }
}

/// Adds a player named `name` to session `code`, in one step: refused where no
/// name is given, where no session has the code, or where the name has joined
/// already. On success returns a copy of the new player.
pub fn join_game(games: &mut GameStore, code: usize, name: Option<String>) -> (r: Result<
    Player,
    JoinError,
>)
    requires
        old(games).wf(),
    ensures
        final(games).wf(),
        final(games)@ == after_join(old(games)@, code, given(name)),
        match r {
            Ok(p) => join_result(old(games)@, code, given(name)) == Ok::<PlayerView, JoinError>(p@),
            Err(e) => join_result(old(games)@, code, given(name)) == Err::<PlayerView, JoinError>(e),
        },
{
    let name = match name {
        Some(n) => n,
        None => return Err(JoinError::Validation),
    };
    match games.games.remove(&code) {
        None => Err(JoinError::NotFound),
        Some(mut g) => {
            assert(g@ == old(games)@[code]);
            if g.player_exists(&name) {
                games.games.insert(code, g);
                assert(games@ =~= old(games)@);
                return Err(JoinError::Conflict);
            }
            let p = Player::new(name);
            g.add_player(&p);
            assert(g@.players == old(games)@[code].players.push(p@));
            games.games.insert(code, g);
            assert(games@ =~= after_join(old(games)@, code, Some(name@)));
            Ok(p)
        },
    }
}

/// Hands `PlayerJoined(name)` to each subscriber of session `code`, and prunes
/// those whose channel has closed; subscribers of other sessions hear nothing
/// and stay. Returns the outcome of each send.
pub fn player_joined(clients: &mut Registry<Message>, code: usize, name: &String) -> (r: Vec<
    Delivery,
>)
    requires
        old(clients).wf(),
    ensures
        final(clients).wf(),
        delivered_ids(r@) == targets(old(clients)@.subscribers, Audience::Session(code)),
        final(clients)@.subscribers == survivors(
            old(clients)@.subscribers,
            Audience::Session(code),
            outcomes(r@),
        ),
        final(clients)@.next_id == old(clients)@.next_id,
        handed_out(old(clients)@.handed, final(clients)@.handed, delivered_ids(r@), name@),
{
    let event = Message::PlayerJoined(name.clone());
    clients.broadcast(Audience::Session(code), &event)
}

} // verus!
