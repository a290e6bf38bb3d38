//! The roster of players: adding players, recording games, lookups and
//! rankings, and the checks on a roster read back from storage.

use vstd::prelude::*;

use skillratings::glicko2::Glicko2Rating;

use crate::player::{
    blank, counter_room, info_matches, is_blank, is_fresh, tallied, GameResult, Player,
    PlayerInfo, PlayerView,
};
use crate::rating::{
    glicko2_gives, glicko2_update, is_valid_rating, lemma_default_mean_rounds, mean_bits,
    mean_bits_of, rank_key, rating_key, round_bits, rounded_mean_of, valid_rating,
};

verus! {

/// Why a player could not be added.
#[derive(Clone, Copy, Debug, PartialEq, Eq, Structural)]
pub enum AddError {
    /// The identifier is empty or white space alone.
    BlankId,
    /// A player with this identifier is already on the roster.
    DuplicateId,
}

/// Why a game could not be recorded.
#[derive(Clone, Copy, Debug, PartialEq, Eq, Structural)]
pub enum RecordError {
    /// One of the two players is not on the roster.
    UnknownPlayer,
    /// Both sides name the same player.
    SelfPlay,
    /// A counter of one of the players is at its largest value.
    CounterLimit,
    /// The rating formula gave a rating that is not finite and positive.
    RatingOutOfRange,
}

/// Why a stored roster was refused as corrupt.
#[derive(Clone, Copy, Debug, PartialEq, Eq, Structural)]
pub enum LoadError {
    /// An entry is stored under a key other than its player's identifier.
    KeyMismatch,
    /// A rating is not finite, or its deviation or volatility is not positive.
    InvalidRating,
    /// Two entries hold the same identifier.
    DuplicateId,
}

/// How the ratings of the two players of a game moved.
pub struct RatingChange {
    pub id: String,
    pub before: Glicko2Rating,
    pub after: Glicko2Rating,
}

/// The report of a recorded game, first player then second.
pub struct GameReport {
    pub first: RatingChange,
    pub second: RatingChange,
}

/// The roster: every player, each identifier once, in order of addition.
pub struct EloSystem {
    players: Vec<Player>,
}

/// The players of a sequence, as values.
pub open spec fn views_of(v: Seq<Player>) -> Seq<PlayerView> {
    v.map_values(|p: Player| p@)
}

/// No identifier occurs twice.
pub open spec fn ids_unique(s: Seq<PlayerView>) -> bool {
    forall|i: int, j: int|
        0 <= i < s.len() && 0 <= j < s.len() && i != j ==> #[trigger] s[i].id != #[trigger] s[j].id
}

/// Every rating is one on which the formula is defined.
pub open spec fn ratings_valid(s: Seq<PlayerView>) -> bool {
    forall|i: int| 0 <= i < s.len() ==> valid_rating(#[trigger] s[i].rating)
}

/// A well-formed roster.
pub open spec fn roster_ok(s: Seq<PlayerView>) -> bool {
    ids_unique(s) && ratings_valid(s)
}

/// Some player has the identifier `id`.
pub open spec fn has_id(s: Seq<PlayerView>, id: Seq<char>) -> bool {
    exists|i: int| 0 <= i < s.len() && s[i].id == id
}

/// The place of the player with identifier `id`, where there is one.
pub open spec fn position(s: Seq<PlayerView>, id: Seq<char>) -> int {
    choose|i: int| 0 <= i < s.len() && s[i].id == id
}

/// The player with identifier `id`, if any.
pub open spec fn lookup(s: Seq<PlayerView>, id: Seq<char>) -> Option<PlayerView> {
    if has_id(s, id) {
        Some(s[position(s, id)])
    } else {
        None
    }
}

/// Why `add_player(id)` fails on the roster `s`, if it does.
pub open spec fn add_error(s: Seq<PlayerView>, id: Seq<char>) -> Option<AddError> {
    if blank(id) {
        Some(AddError::BlankId)
    } else if has_id(s, id) {
        Some(AddError::DuplicateId)
    } else {
        None
    }
}

/// `after` is `before` with a fresh player under `id` added at the end.
pub open spec fn player_added(before: Seq<PlayerView>, id: Seq<char>, after: Seq<PlayerView>) -> bool {
    &&& after.len() == before.len() + 1
    &&& after.take(before.len() as int) == before
    &&& is_fresh(after.last(), id)
}

/// Why a game between `a` and `b` cannot be recorded on the roster `s`
/// before any rating is computed, if it cannot; the checks come in this order.
pub open spec fn game_error(
    s: Seq<PlayerView>,
    a: Seq<char>,
    result: GameResult,
    b: Seq<char>,
) -> Option<RecordError> {
    if !has_id(s, a) || !has_id(s, b) {
        Some(RecordError::UnknownPlayer)
    } else if a == b {
        Some(RecordError::SelfPlay)
    } else if !counter_room(s[position(s, a)], result, true) || !counter_room(
        s[position(s, b)],
        result,
        false,
    ) {
        Some(RecordError::CounterLimit)
    } else {
        None
    }
}

/// Why the game cannot be recorded with the new ratings `ra` and `rb`, if it
/// cannot: the checks of `game_error`, then the validity of both ratings.
pub open spec fn apply_error(
    s: Seq<PlayerView>,
    a: Seq<char>,
    result: GameResult,
    b: Seq<char>,
    ra: Glicko2Rating,
    rb: Glicko2Rating,
) -> Option<RecordError> {
    if game_error(s, a, result, b) is Some {
        game_error(s, a, result, b)
    } else if !valid_rating(ra) || !valid_rating(rb) {
        Some(RecordError::RatingOutOfRange)
    } else {
        None
    }
}

/// A player after a game: the counters moved and the new rating.
pub open spec fn after_game(
    p: PlayerView,
    result: GameResult,
    is_first: bool,
    rating: Glicko2Rating,
) -> PlayerView {
    PlayerView { rating, ..tallied(p, result, is_first) }
}

/// The roster after a game between `a` and `b` recorded with the new
/// ratings `ra` and `rb`.
pub open spec fn recorded(
    s: Seq<PlayerView>,
    a: Seq<char>,
    result: GameResult,
    b: Seq<char>,
    ra: Glicko2Rating,
    rb: Glicko2Rating,
) -> Seq<PlayerView> {
    s.update(position(s, a), after_game(s[position(s, a)], result, true, ra)).update(
        position(s, b),
        after_game(s[position(s, b)], result, false, rb),
    )
}

/// What recording the game between `a` and `b` with the new ratings `ra` and
/// `rb` does: on success the roster `after` is `recorded(..)` and the report
/// gives each player's rating before and after; on failure `after` is
/// `before` and the error is `apply_error(..)`.
pub open spec fn game_applied(
    before: Seq<PlayerView>,
    a: Seq<char>,
    result: GameResult,
    b: Seq<char>,
    ra: Glicko2Rating,
    rb: Glicko2Rating,
    after: Seq<PlayerView>,
    r: Result<GameReport, RecordError>,
) -> bool {
    match r {
        Ok(report) => {
            &&& apply_error(before, a, result, b, ra, rb) is None
            &&& after == recorded(before, a, result, b, ra, rb)
            &&& report.first.id@ == a
            &&& report.first.before == before[position(before, a)].rating
            &&& report.first.after == ra
            &&& report.second.id@ == b
            &&& report.second.before == before[position(before, b)].rating
            &&& report.second.after == rb
        },
        Err(e) => {
            &&& apply_error(before, a, result, b, ra, rb) == Some(e)
            &&& after == before
        },
    }
}

/// How many players a ranking of `n` holds, five when `n` is not given.
pub open spec fn top_count(len: nat, n: Option<usize>) -> nat {
    let k: nat = match n {
        Some(k) => k as nat,
        None => 5,
    };
    if k < len {
        k
    } else {
        len
    }
}

/// `out` lists distinct players of `s` at the places `idx`, by mean rating from
/// the highest down, and no player left out ranks above the last one listed.
/// Among equal means the order is left open.
pub open spec fn top_selection(s: Seq<PlayerView>, idx: Seq<int>, out: Seq<PlayerView>) -> bool {
    &&& idx.len() == out.len()
    &&& forall|p: int| 0 <= p < idx.len() ==> 0 <= #[trigger] idx[p] < s.len() && out[p] == s[idx[p]]
    &&& forall|p: int, q: int| 0 <= p < q < idx.len() ==> #[trigger] idx[p] != #[trigger] idx[q]
    &&& forall|p: int, q: int|
        0 <= p < q < out.len() ==> rank_key(#[trigger] out[p].rating) >= rank_key(
            #[trigger] out[q].rating,
        )
    &&& out.len() > 0 ==> forall|i: int|
        0 <= i < s.len() && !idx.contains(i) ==> rank_key(#[trigger] s[i].rating) <= rank_key(
            out.last().rating,
        )
}

/// `out` is a ranking of the `top_count(s.len(), n)` best players of `s`.
pub open spec fn is_top(s: Seq<PlayerView>, n: Option<usize>, out: Seq<PlayerView>) -> bool {
    &&& out.len() == top_count(s.len(), n)
    &&& exists|idx: Seq<int>| top_selection(s, idx, out)
}

/// A stored roster as key and player, one entry per player.
pub open spec fn entries_of(s: Seq<PlayerView>) -> Seq<(Seq<char>, PlayerView)> {
    s.map_values(|p: PlayerView| (p.id, p))
}

/// The players of stored entries.
pub open spec fn players_of(e: Seq<(Seq<char>, PlayerView)>) -> Seq<PlayerView> {
    e.map_values(|kp: (Seq<char>, PlayerView)| kp.1)
}

/// Stored entries as values.
pub open spec fn stored_view(v: Seq<(String, Player)>) -> Seq<(Seq<char>, PlayerView)> {
    v.map_values(|e: (String, Player)| (e.0@, e.1@))
}

/// Why stored entries are refused, if they are: keys first, then ratings,
/// then duplicate identifiers.
pub open spec fn load_error(e: Seq<(Seq<char>, PlayerView)>) -> Option<LoadError> {
    if exists|i: int| 0 <= i < e.len() && #[trigger] e[i].0 != e[i].1.id {
        Some(LoadError::KeyMismatch)
    } else if !ratings_valid(players_of(e)) {
        Some(LoadError::InvalidRating)
    } else if !ids_unique(players_of(e)) {
        Some(LoadError::DuplicateId)
    } else {
        None
    }
}

/// The only place of `id` in a roster without duplicates is the one found.
proof fn lemma_position_unique(s: Seq<PlayerView>, id: Seq<char>, i: int)
    requires
        ids_unique(s),
        0 <= i < s.len(),
        s[i].id == id,
    ensures
        has_id(s, id),
        position(s, id) == i,
{
    assert(has_id(s, id));
    let k = position(s, id);
    assert(s[k].id == id);
}

/// What one call of `add_player(id)` leaves of the roster `before`.
pub open spec fn add_outcome(before: Seq<PlayerView>, id: Seq<char>, after: Seq<PlayerView>) -> bool {
    match add_error(before, id) {
        Some(_) => after == before,
        None => player_added(before, id, after),
    }
}

/// A player just added is found under its identifier with no games and the
/// default rating, which a lookup reports as 1500.
pub proof fn lemma_added_player_is_fresh(before: Seq<PlayerView>, id: Seq<char>, after: Seq<PlayerView>)
    requires
        roster_ok(before),
        add_error(before, id) is None,
        player_added(before, id, after),
    ensures
        lookup(after, id) == Some(after.last()),
        is_fresh(lookup(after, id)->Some_0, id),
        rounded_mean_of(mean_bits_of(lookup(after, id)->Some_0.rating)) == 1500,
{
    lemma_default_mean_rounds();
    let n = before.len() as int;
    assert forall|i: int, j: int|
        0 <= i < after.len() && 0 <= j < after.len() && i != j implies #[trigger] after[i].id
        != #[trigger] after[j].id by {
        if i < n && j < n {
            assert(after[i] == after.take(n)[i] && after[j] == after.take(n)[j]);
        } else if i < n {
            assert(after[i] == before[i]);
        } else {
            assert(after[j] == before[j]);
        }
    };
    lemma_position_unique(after, id, n);
}

/// Adding the same identifier twice: whatever the first call did, the second
/// one fails, and so leaves the roster as it is.
pub proof fn lemma_add_twice(before: Seq<PlayerView>, id: Seq<char>, after: Seq<PlayerView>)
    requires
        add_outcome(before, id, after),
    ensures
        add_error(after, id) is Some,
{
    if add_error(before, id) is None {
        assert(after[before.len() as int].id == id);
    }
}

/// A win of `a` over `b` adds one win to `a`, one loss to `b`, and nothing
/// else to their counters.
pub proof fn lemma_win_tally(
    s: Seq<PlayerView>,
    a: Seq<char>,
    b: Seq<char>,
    ra: Glicko2Rating,
    rb: Glicko2Rating,
)
    requires
        roster_ok(s),
        game_error(s, a, GameResult::Player1Wins, b) is None,
    ensures
        ({
            let t = recorded(s, a, GameResult::Player1Wins, b, ra, rb);
            let (pa, pb) = (lookup(s, a)->Some_0, lookup(s, b)->Some_0);
            let (qa, qb) = (lookup(t, a)->Some_0, lookup(t, b)->Some_0);
            &&& lookup(t, a) is Some && lookup(t, b) is Some
            &&& qa.wins == pa.wins + 1 && qa.losses == pa.losses && qa.ties == pa.ties
            &&& qb.wins == pb.wins && qb.losses == pb.losses + 1 && qb.ties == pb.ties
        }),
{
    lemma_recorded_positions(s, a, GameResult::Player1Wins, b, ra, rb);
}

/// When a win of `a` over `b` was recorded, whatever new ratings it was
/// recorded with, `a` has one more win and `b` one more loss, and their other
/// counters are as they were.
pub proof fn lemma_recorded_win_counts(
    before: Seq<PlayerView>,
    a: Seq<char>,
    b: Seq<char>,
    ra: Glicko2Rating,
    rb: Glicko2Rating,
    after: Seq<PlayerView>,
    r: Result<GameReport, RecordError>,
)
    requires
        roster_ok(before),
        game_applied(before, a, GameResult::Player1Wins, b, ra, rb, after, r),
        r is Ok,
    ensures
        ({
            let (pa, pb) = (lookup(before, a)->Some_0, lookup(before, b)->Some_0);
            let (qa, qb) = (lookup(after, a)->Some_0, lookup(after, b)->Some_0);
            &&& lookup(before, a) is Some && lookup(before, b) is Some
            &&& lookup(after, a) is Some && lookup(after, b) is Some
            &&& qa.wins == pa.wins + 1 && qa.losses == pa.losses && qa.ties == pa.ties
            &&& qb.wins == pb.wins && qb.losses == pb.losses + 1 && qb.ties == pb.ties
        }),
{
    lemma_win_tally(before, a, b, ra, rb);
    lemma_recorded_positions(before, a, GameResult::Player1Wins, b, ra, rb);
}

/// A draw adds one tie to each player and nothing else to their counters.
pub proof fn lemma_draw_tally(
    s: Seq<PlayerView>,
    a: Seq<char>,
    b: Seq<char>,
    ra: Glicko2Rating,
    rb: Glicko2Rating,
)
    requires
        roster_ok(s),
        game_error(s, a, GameResult::Tie, b) is None,
    ensures
        ({
            let t = recorded(s, a, GameResult::Tie, b, ra, rb);
            let (pa, pb) = (lookup(s, a)->Some_0, lookup(s, b)->Some_0);
            let (qa, qb) = (lookup(t, a)->Some_0, lookup(t, b)->Some_0);
            &&& lookup(t, a) is Some && lookup(t, b) is Some
            &&& qa.wins == pa.wins && qa.losses == pa.losses && qa.ties == pa.ties + 1
            &&& qb.wins == pb.wins && qb.losses == pb.losses && qb.ties == pb.ties + 1
        }),
{
    lemma_recorded_positions(s, a, GameResult::Tie, b, ra, rb);
}

/// A game with a player missing from the roster, or of a player against
/// themselves, is refused, and so leaves the roster as it is.
pub proof fn lemma_missing_or_self_play_refused(
    s: Seq<PlayerView>,
    a: Seq<char>,
    result: GameResult,
    b: Seq<char>,
)
    requires
        !has_id(s, a) || !has_id(s, b) || a == b,
    ensures
        game_error(s, a, result, b) is Some,
        !has_id(s, a) || !has_id(s, b) ==> game_error(s, a, result, b) == Some(
            RecordError::UnknownPlayer,
        ),
{
}

/// After a recorded game both players stay where they were, without
/// duplicate identifiers.
proof fn lemma_recorded_positions(
    s: Seq<PlayerView>,
    a: Seq<char>,
    result: GameResult,
    b: Seq<char>,
    ra: Glicko2Rating,
    rb: Glicko2Rating,
)
    requires
        roster_ok(s),
        game_error(s, a, result, b) is None,
    ensures
        ids_unique(recorded(s, a, result, b, ra, rb)),
        position(recorded(s, a, result, b, ra, rb), a) == position(s, a),
        position(recorded(s, a, result, b, ra, rb), b) == position(s, b),
        has_id(recorded(s, a, result, b, ra, rb), a),
        has_id(recorded(s, a, result, b, ra, rb), b),
        lookup(s, a) == Some(s[position(s, a)]),
        lookup(s, b) == Some(s[position(s, b)]),
{
    let t = recorded(s, a, result, b, ra, rb);
    assert forall|i: int| 0 <= i < t.len() implies #[trigger] t[i].id == s[i].id by {};
    assert forall|i: int, j: int|
        0 <= i < t.len() && 0 <= j < t.len() && i != j implies #[trigger] t[i].id
        != #[trigger] t[j].id by {
        assert(t[i].id == s[i].id && t[j].id == s[j].id);
    };
    lemma_position_unique(t, a, position(s, a));
    lemma_position_unique(t, b, position(s, b));
}

/// Storing a well-formed roster and reading it back gives the same roster,
/// player for player and field for field.
pub proof fn lemma_entries_round_trip(s: Seq<PlayerView>)
    requires
        roster_ok(s),
    ensures
        load_error(entries_of(s)) is None,
        players_of(entries_of(s)) == s,
{
    let e = entries_of(s);
    assert(players_of(e) =~= s);
    assert forall|i: int| 0 <= i < e.len() implies #[trigger] e[i].0 == e[i].1.id by {};
}

impl View for EloSystem {
    type V = Seq<PlayerView>;

    closed spec fn view(&self) -> Seq<PlayerView> {
        views_of(self.players@)
    }
}

impl EloSystem {
    /// The roster is well formed.
    pub open spec fn wf(&self) -> bool {
        roster_ok(self@)
    }

    /// An empty roster.
    pub fn new() -> (r: EloSystem)
        ensures
            r.wf(),
            r@ == Seq::<PlayerView>::empty(),
    {
        let r = EloSystem { players: Vec::new() };
        assert(r@ =~= Seq::<PlayerView>::empty());
        r
    }

    /// The number of players.
    pub fn len(&self) -> (n: usize)
        ensures
            n == self@.len(),
    {
        self.players.len()
    }

    /// The place of the player with identifier `id`.
    fn find(&self, id: &String) -> (r: Option<usize>)
        requires
            self.wf(),
        ensures
            match r {
                Some(i) => i < self@.len() && self@[i as int].id == id@ && position(self@, id@)
                    == i && has_id(self@, id@),
                None => !has_id(self@, id@),
            },
    {
        let mut i: usize = 0;
        while i < self.players.len()
            invariant
                self.wf(),
                i <= self.players@.len(),
                forall|k: int| 0 <= k < i ==> #[trigger] self@[k].id != id@,
            decreases self.players@.len() - i,
        {
            if self.players[i].id == *id {
                proof {
                    lemma_position_unique(self@, id@, i as int);
                }
                return Some(i);
            }
            i = i + 1;
        }
        None
    }

    /// Adds a player with no games and the default rating, unless `id` is
    /// blank or already on the roster; then the roster is left as it is.
    pub fn add_player(&mut self, id: &str) -> (r: Result<(), AddError>)
        requires
            old(self).wf(),
        ensures
            final(self).wf(),
            match add_error(old(self)@, id@) {
                Some(e) => r == Err::<(), AddError>(e) && final(self)@ == old(self)@,
                None => r is Ok && player_added(old(self)@, id@, final(self)@),
            },
    {
        if is_blank(id) {
            return Err(AddError::BlankId);
        }
        let key = id.to_owned();
        if self.find(&key).is_some() {
            return Err(AddError::DuplicateId);
        }
        let p = Player::new(id);
        proof {
            crate::rating::lemma_default_rating_valid(p.rating);
        }
        self.players.push(p);
        assert(self@ =~= old(self)@.push(p@));
        assert(self@.take(old(self)@.len() as int) =~= old(self)@);
        Ok(())
    }

    /// The places of the two players of a game, or why the game cannot be
    /// recorded before any rating is computed.
    fn check_game(&self, id1: &str, result: GameResult, id2: &str) -> (r: Result<
        (usize, usize),
        RecordError,
    >)
        requires
            self.wf(),
        ensures
            match r {
                Ok((i, j)) => {
                    &&& game_error(self@, id1@, result, id2@) is None
                    &&& i < self@.len() && j < self@.len() && i != j
                    &&& i == position(self@, id1@) && j == position(self@, id2@)
                },
                Err(e) => game_error(self@, id1@, result, id2@) == Some(e),
            },
    {
        let key1 = id1.to_owned();
        let key2 = id2.to_owned();
        let found1 = self.find(&key1);
        let found2 = self.find(&key2);
        let (i, j) = match (found1, found2) {
            (Some(i), Some(j)) => (i, j),
            _ => {
                return Err(RecordError::UnknownPlayer);
            },
        };
        if i == j {
            return Err(RecordError::SelfPlay);
        }
        assert(id1@ != id2@);
        if !self.players[i].has_counter_room(result, true) || !self.players[j].has_counter_room(
            result,
            false,
        ) {
            return Err(RecordError::CounterLimit);
        }
        Ok((i, j))
    }

    /// Records a game between `id1` and `id2` whose new ratings are `after1`
    /// and `after2`: counts it for both players and stores the ratings. When
    /// the game cannot be recorded, or a new rating is not finite with a
    /// positive deviation and volatility, the roster is left as it is and the
    /// reason returned.
    pub fn apply_game(
        &mut self,
        id1: &str,
        result: GameResult,
        id2: &str,
        after1: Glicko2Rating,
        after2: Glicko2Rating,
    ) -> (r: Result<GameReport, RecordError>)
        requires
            old(self).wf(),
        ensures
            final(self).wf(),
            game_applied(old(self)@, id1@, result, id2@, after1, after2, final(self)@, r),
    {
        let (i, j) = match self.check_game(id1, result, id2) {
            Ok(places) => places,
            Err(e) => {
                return Err(e);
            },
        };
        if !is_valid_rating(&after1) || !is_valid_rating(&after2) {
            return Err(RecordError::RatingOutOfRange);
        }
        let before1 = self.players[i].rating;
        let before2 = self.players[j].rating;
        let mut p1 = self.players[i].clone();
        p1.update_stats(result, true);
        p1.rating = after1;
        let mut p2 = self.players[j].clone();
        p2.update_stats(result, false);
        p2.rating = after2;
        let key1 = p1.id.clone();
        let key2 = p2.id.clone();
        self.players.set(i, p1);
        self.players.set(j, p2);
        assert(self@ =~= recorded(old(self)@, id1@, result, id2@, after1, after2));
        Ok(
            GameReport {
                first: RatingChange { id: key1, before: before1, after: after1 },
                second: RatingChange { id: key2, before: before2, after: after2 },
            },
        )
    }

    /// Records a game between `id1` and `id2`: counts it for both players and
    /// moves both ratings by the Glicko-2 formula. A missing player, a game
    /// against oneself or a full counter is refused before the formula runs.
    /// Otherwise the formula runs once, on the two players' ratings before the
    /// game and the outcome, and the rest is `apply_game` on the two ratings
    /// it gave, whatever they are.
    /// When the game cannot be recorded, the roster is left as it is and the
    /// reason returned.
    pub fn record_game(&mut self, id1: &str, result: GameResult, id2: &str) -> (r: Result<
        GameReport,
        RecordError,
    >)
        requires
            old(self).wf(),
        ensures
            final(self).wf(),
            match game_error(old(self)@, id1@, result, id2@) {
                Some(e) => r == Err::<GameReport, RecordError>(e) && final(self)@ == old(self)@,
                None => exists|ra: Glicko2Rating, rb: Glicko2Rating|
                    {
                        &&& glicko2_gives(
                            old(self)@[position(old(self)@, id1@)].rating,
                            old(self)@[position(old(self)@, id2@)].rating,
                            result,
                            ra,
                            rb,
                        )
                        &&& #[trigger] game_applied(
                            old(self)@,
                            id1@,
                            result,
                            id2@,
                            ra,
                            rb,
                            final(self)@,
                            r,
                        )
                    },
            },
    {
        let (i, j) = match self.check_game(id1, result, id2) {
            Ok(places) => places,
            Err(e) => {
                return Err(e);
            },
        };
        assert(valid_rating(self@[i as int].rating) && valid_rating(self@[j as int].rating));
        let (after1, after2) = glicko2_update(
            &self.players[i].rating,
            &self.players[j].rating,
            result,
        );
        let r = self.apply_game(id1, result, id2, after1, after2);
        assert(game_applied(old(self)@, id1@, result, id2@, after1, after2, self@, r));
        r
    }

    /// The `n` players with the highest mean rating (five when `n` is not
    /// given), from the highest down; fewer when the roster is smaller.
    /// Among equal means the order is left open.
    pub fn get_top_n(&self, n: Option<usize>) -> (r: Vec<Player>)
        ensures
            is_top(self@, n, views_of(r@)),
    {
        let num: usize = match n {
            Some(k) => k,
            None => 5,
        };
        let len = self.players.len();
        let count: usize = if num < len {
            num
        } else {
            len
        };
        let mut remaining: Vec<usize> = Vec::new();
        let mut k: usize = 0;
        while k < len
            invariant
                len == self@.len(),
                k <= len,
                remaining@.len() == k,
                forall|r: int| 0 <= r < k ==> #[trigger] remaining@[r] == r,
            decreases len - k,
        {
            remaining.push(k);
            k = k + 1;
        }
        let mut out: Vec<Player> = Vec::new();
        let ghost mut idx: Seq<int> = Seq::empty();
        assert forall|i: int| 0 <= i < len implies (exists|r: int|
            0 <= r < remaining@.len() && #[trigger] remaining@[r] == i) || idx.contains(i) by {
            assert(remaining@[i] == i);
        };
        while out.len() < count
            invariant
                len == self@.len(),
                count == top_count(len as nat, n),
                count <= len,
                out@.len() <= count,
                remaining@.len() + idx.len() == len,
                forall|r: int| 0 <= r < remaining@.len() ==> #[trigger] remaining@[r] < len,
                forall|r: int, t: int|
                    0 <= r < t < remaining@.len() ==> #[trigger] remaining@[r] != #[trigger] remaining@[t],
                forall|r: int, p: int|
                    0 <= r < remaining@.len() && 0 <= p < idx.len() ==> #[trigger] remaining@[r]
                        != #[trigger] idx[p],
                forall|i: int|
                    0 <= i < len ==> (exists|r: int| 0 <= r < remaining@.len() && #[trigger] remaining@[r] == i)
                        || idx.contains(i),
                out@.len() > 0 ==> forall|r: int|
                    0 <= r < remaining@.len() ==> rank_key(self@[#[trigger] remaining@[r] as int].rating)
                        <= rank_key(views_of(out@).last().rating),
                top_selection(self@, idx, views_of(out@)),
            decreases count - out@.len(),
        {
            let mut best: usize = 0;
            let mut best_key: u64 = rating_key(&self.players[remaining[0]].rating);
            let mut t: usize = 1;
            while t < remaining.len()
                invariant
                    len == self@.len(),
                    1 <= t <= remaining@.len(),
                    best < t,
                    forall|r: int| 0 <= r < remaining@.len() ==> #[trigger] remaining@[r] < len,
                    best_key == rank_key(self@[remaining@[best as int] as int].rating),
                    forall|r: int|
                        0 <= r < t ==> rank_key(self@[#[trigger] remaining@[r] as int].rating)
                            <= best_key,
                decreases remaining@.len() - t,
            {
                let key = rating_key(&self.players[remaining[t]].rating);
                if key > best_key {
                    best = t;
                    best_key = key;
                }
                t = t + 1;
            }
            let chosen = remaining[best];
            let ghost old_rem = remaining@;
            let ghost old_out = views_of(out@);
            let ghost old_idx = idx;
            remaining.remove(best);
            out.push(self.players[chosen].clone());
            proof {
                idx = idx.push(chosen as int);
                let vo = views_of(out@);
                assert(vo =~= old_out.push(self@[chosen as int]));
                assert forall|i: int| 0 <= i < len implies (exists|r: int|
                    0 <= r < remaining@.len() && #[trigger] remaining@[r] == i) || idx.contains(i) by {
                    if !old_idx.contains(i) {
                        let r0 = choose|r: int| 0 <= r < old_rem.len() && #[trigger] old_rem[r] == i;
                        if r0 == best {
                            assert(idx[idx.len() - 1] == i);
                        } else if r0 < best {
                            assert(remaining@[r0] == i);
                        } else {
                            assert(remaining@[r0 - 1] == i);
                        }
                    } else {
                        let p = choose|p: int| 0 <= p < old_idx.len() && old_idx[p] == i;
                        assert(idx[p] == i);
                    }
                };
                assert forall|i: int|
                    0 <= i < self@.len() && !idx.contains(i) implies rank_key(
                    #[trigger] self@[i].rating) <= rank_key(vo.last().rating) by {
                    let r0 = choose|r: int| 0 <= r < remaining@.len() && #[trigger] remaining@[r] == i;
                    if r0 < best {
                        assert(old_rem[r0] == i);
                    } else {
                        assert(old_rem[r0 + 1] == i);
                    }
                };
                assert forall|r: int, p: int|
                    0 <= r < remaining@.len() && 0 <= p < idx.len() implies #[trigger] remaining@[r]
                        != #[trigger] idx[p] by {
                    if r < best {
                        assert(remaining@[r] == old_rem[r]);
                    } else {
                        assert(remaining@[r] == old_rem[r + 1]);
                    }
                };
                assert forall|p: int, q: int| 0 <= p < q < idx.len() implies #[trigger] idx[p]
                    != #[trigger] idx[q] by {
                    if q == idx.len() - 1 {
                        assert(old_rem[best as int] == idx[q]);
                    }
                };
                assert forall|p: int, q: int| 0 <= p < q < vo.len() implies rank_key(
                    #[trigger] vo[p].rating) >= rank_key(#[trigger] vo[q].rating) by {
                    if q == vo.len() - 1 && p < q {
                        assert(old_out.len() > 0);
                        assert(rank_key(old_out[p].rating) >= rank_key(old_out.last().rating));
                    }
                };
                assert(top_selection(self@, idx, vo));
            }
        }
        proof {
            assert(top_selection(self@, idx, views_of(out@)));
        }
        out
    }

    /// The roster as entries to store: each player under its identifier, in
    /// order of addition.
    pub fn to_entries(&self) -> (r: Vec<(String, Player)>)
        ensures
            stored_view(r@) == entries_of(self@),
    {
        let mut r: Vec<(String, Player)> = Vec::new();
        let mut i: usize = 0;
        while i < self.players.len()
            invariant
                i <= self@.len(),
                stored_view(r@) == entries_of(self@.take(i as int)),
            decreases self@.len() - i,
        {
            let p = &self.players[i];
            let e = (p.id.clone(), p.clone());
            assert(e.0@ == self@[i as int].id && e.1@ == self@[i as int]);
            let ghost prev = r@;
            r.push(e);
            assert(r@ =~= prev.push(e));
            assert(stored_view(r@) =~= stored_view(prev).push((e.0@, e.1@)));
            assert(self@.take(i + 1) =~= self@.take(i as int).push(self@[i as int]));
            assert(entries_of(self@.take(i + 1)) =~= entries_of(self@.take(i as int)).push(
                (self@[i as int].id, self@[i as int]),
            ));
            i = i + 1;
        }
        assert(self@.take(i as int) =~= self@);
        r
    }

    /// The roster of stored entries, or why they are corrupt: a key that is
    /// not its player's identifier, a rating that is not finite with a
    /// positive deviation and volatility, or an identifier that occurs twice.
    pub fn from_entries(entries: Vec<(String, Player)>) -> (r: Result<EloSystem, LoadError>)
        ensures
            match load_error(stored_view(entries@)) {
                Some(e) => r == Err::<EloSystem, LoadError>(e),
                None => r is Ok && r->Ok_0.wf() && r->Ok_0@ == players_of(stored_view(entries@)),
            },
    {
        let ghost ev = stored_view(entries@);
        let ghost pv = players_of(ev);
        let n = entries.len();
        let mut i: usize = 0;
        while i < n
            invariant
                n == entries@.len(),
                ev == stored_view(entries@),
                i <= n,
                forall|k: int| 0 <= k < i ==> #[trigger] ev[k].0 == ev[k].1.id,
            decreases n - i,
        {
            if entries[i].0 != entries[i].1.id {
                assert(ev[i as int].0 != ev[i as int].1.id);
                return Err(LoadError::KeyMismatch);
            }
            i = i + 1;
        }
        i = 0;
        while i < n
            invariant
                n == entries@.len(),
                ev == stored_view(entries@),
                pv == players_of(ev),
                i <= n,
                forall|k: int| 0 <= k < n ==> #[trigger] ev[k].0 == ev[k].1.id,
                forall|k: int| 0 <= k < i ==> valid_rating(#[trigger] pv[k].rating),
            decreases n - i,
        {
            if !is_valid_rating(&entries[i].1.rating) {
                assert(!valid_rating(pv[i as int].rating));
                return Err(LoadError::InvalidRating);
            }
            i = i + 1;
        }
        i = 0;
        while i < n
            invariant
                n == entries@.len(),
                ev == stored_view(entries@),
                pv == players_of(ev),
                i <= n,
                forall|k: int| 0 <= k < n ==> #[trigger] ev[k].0 == ev[k].1.id,
                ratings_valid(pv),
                ids_unique(pv.take(i as int)),
            decreases n - i,
        {
            let mut j: usize = 0;
            while j < i
                invariant
                    n == entries@.len(),
                    ev == stored_view(entries@),
                    pv == players_of(ev),
                    j <= i < n,
                    forall|k: int| 0 <= k < n ==> #[trigger] ev[k].0 == ev[k].1.id,
                    ratings_valid(pv),
                    forall|k: int| 0 <= k < j ==> #[trigger] pv[k].id != pv[i as int].id,
                decreases i - j,
            {
                if entries[i].1.id == entries[j].1.id {
                    assert(pv[i as int].id == pv[j as int].id);
                    return Err(LoadError::DuplicateId);
                }
                j = j + 1;
            }
            assert forall|a: int, b: int|
                0 <= a < i + 1 && 0 <= b < i + 1 && a != b implies #[trigger] pv.take(i + 1)[a].id
                != #[trigger] pv.take(i + 1)[b].id by {
                if a < i && b < i {
                    assert(pv.take(i as int)[a] == pv[a] && pv.take(i as int)[b] == pv[b]);
                }
            };
            i = i + 1;
        }
        assert(pv.take(n as int) =~= pv);
        let mut players: Vec<Player> = Vec::new();
        i = 0;
        while i < n
            invariant
                n == entries@.len(),
                ev == stored_view(entries@),
                pv == players_of(ev),
                i <= n,
                views_of(players@) == pv.take(i as int),
            decreases n - i,
        {
            let p = entries[i].1.clone();
            assert(p@ == pv[i as int]);
            let ghost prev = players@;
            players.push(p);
            assert(players@ =~= prev.push(p));
            assert(views_of(players@) =~= views_of(prev).push(p@));
            assert(pv.take(i + 1) =~= pv.take(i as int).push(pv[i as int]));
            i = i + 1;
        }
        let sys = EloSystem { players };
        assert(sys@ =~= pv);
        Ok(sys)
    }

    /// What the roster holds of the player `id`: identifier, rounded mean
    /// rating and counters; `None` when there is no such player.
    pub fn player_info(&self, id: &str) -> (r: Option<PlayerInfo>)
        requires
            self.wf(),
        ensures
            match lookup(self@, id@) {
                Some(p) => r is Some && info_matches(r->Some_0, p),
                None => r is None,
            },
    {
        let key = id.to_owned();
        match self.find(&key) {
            Some(i) => {
                let p = &self.players[i];
                Some(
                    PlayerInfo {
                        id: p.id.clone(),
                        rating: round_bits(mean_bits(&p.rating)),
                        wins: p.wins,
                        losses: p.losses,
                        ties: p.ties,
                    },
                )
            },
            None => None,
        }
    }
}

} // verus!
