//! Players, their counters of results, and the outcome of one game.

use vstd::prelude::*;

use skillratings::glicko2::Glicko2Rating;

use crate::rating::{
    default_rating, deviation_bits_of, mean_bits_of, rounded_mean_of, volatility_bits_of,
    DEFAULT_DEVIATION_BITS, DEFAULT_MEAN_BITS, DEFAULT_VOLATILITY_BITS,
};

verus! {

/// The result of one game, seen from the first player's side.
#[derive(Clone, Copy, Debug, PartialEq, Eq, Structural)]
pub enum GameResult {
    Player1Wins,
    Player2Wins,
    Tie,
}

impl GameResult {
    /// The player on the given side won.
    pub open spec fn won_by(self, is_first: bool) -> bool {
        if is_first {
            self == GameResult::Player1Wins
        } else {
            self == GameResult::Player2Wins
        }
    }

    /// The player on the given side lost.
    pub open spec fn lost_by(self, is_first: bool) -> bool {
        self.won_by(!is_first)
    }
}

/// One player of a roster.
pub struct Player {
    pub id: String,
    pub wins: u32,
    pub losses: u32,
    pub ties: u32,
    pub rating: Glicko2Rating,
}

/// A player as a value: the identifier as characters.
pub struct PlayerView {
    pub id: Seq<char>,
    pub wins: u32,
    pub losses: u32,
    pub ties: u32,
    pub rating: Glicko2Rating,
}

impl View for Player {
    type V = PlayerView;

    open spec fn view(&self) -> PlayerView {
        PlayerView {
            id: self.id@,
            wins: self.wins,
            losses: self.losses,
            ties: self.ties,
            rating: self.rating,
        }
    }
}

impl Clone for Player {
    fn clone(&self) -> (r: Self)
        ensures
            r@ == self@,
    {
        Player {
            id: self.id.clone(),
            wins: self.wins,
            losses: self.losses,
            ties: self.ties,
            rating: self.rating,
        }
    }
}

/// What a lookup reports of one player.
pub struct PlayerInfo {
    pub id: String,
    /// The mean rating rounded half away from zero.
    pub rating: i64,
    pub wins: u32,
    pub losses: u32,
    pub ties: u32,
}

/// A player just added under `id`: no games and the default rating.
pub open spec fn is_fresh(p: PlayerView, id: Seq<char>) -> bool {
    &&& p.id == id
    &&& p.wins == 0
    &&& p.losses == 0
    &&& p.ties == 0
    &&& mean_bits_of(p.rating) == DEFAULT_MEAN_BITS
    &&& deviation_bits_of(p.rating) == DEFAULT_DEVIATION_BITS
    &&& volatility_bits_of(p.rating) == DEFAULT_VOLATILITY_BITS
}

/// The counter that a game moves for the player on the given side has room
/// for one more.
pub open spec fn counter_room(p: PlayerView, result: GameResult, is_first: bool) -> bool {
    if result.won_by(is_first) {
        p.wins < u32::MAX
    } else if result.lost_by(is_first) {
        p.losses < u32::MAX
    } else {
        p.ties < u32::MAX
    }
}

/// The counters of the player on the given side after the game: exactly one
/// of wins, losses and ties goes up by one.
pub open spec fn tallied(p: PlayerView, result: GameResult, is_first: bool) -> PlayerView {
    if result.won_by(is_first) {
        PlayerView { wins: (p.wins + 1) as u32, ..p }
    } else if result.lost_by(is_first) {
        PlayerView { losses: (p.losses + 1) as u32, ..p }
    } else {
        PlayerView { ties: (p.ties + 1) as u32, ..p }
    }
}

/// What a lookup reports of the player `p`.
pub open spec fn info_matches(info: PlayerInfo, p: PlayerView) -> bool {
    &&& info.id@ == p.id
    &&& info.rating == rounded_mean_of(mean_bits_of(p.rating))
    &&& info.wins == p.wins
    &&& info.losses == p.losses
    &&& info.ties == p.ties
}

/// Whether `c` has Unicode's `White_Space` property, which is what
/// `char::is_whitespace` tests: tab to carriage return, space, next line,
/// no-break space, ogham space mark, the spaces from en quad to hair space,
/// line and paragraph separator, narrow no-break space, medium mathematical
/// space and ideographic space.
pub open spec fn white_space(c: char) -> bool {
    let u = c as u32;
    ||| 0x09 <= u <= 0x0D
    ||| u == 0x20
    ||| u == 0x85
    ||| u == 0xA0
    ||| u == 0x1680
    ||| 0x2000 <= u <= 0x200A
    ||| u == 0x2028
    ||| u == 0x2029
    ||| u == 0x202F
    ||| u == 0x205F
    ||| u == 0x3000
}

/// An identifier made of white space alone, the empty one included.
pub open spec fn blank(id: Seq<char>) -> bool {
    forall|i: int| 0 <= i < id.len() ==> white_space(#[trigger] id[i])
}

/// Whether `c` is white space.
pub fn is_white_space(c: char) -> (r: bool)
    ensures
        r == white_space(c),
{
    let u = c as u32;
    (0x09 <= u && u <= 0x0D) || u == 0x20 || u == 0x85 || u == 0xA0 || u == 0x1680 || (0x2000
        <= u && u <= 0x200A) || u == 0x2028 || u == 0x2029 || u == 0x202F || u == 0x205F || u
        == 0x3000
}

/// Whether `id` is empty or white space alone, which is what trimming it
/// would leave empty.
pub fn is_blank(id: &str) -> (r: bool)
    ensures
        r == blank(id@),
{
    let n = id.unicode_len();
    let mut i: usize = 0;
    while i < n
        invariant
            n == id@.len(),
            i <= n,
            forall|k: int| 0 <= k < i ==> white_space(#[trigger] id@[k]),
        decreases n - i,
    {
        if !is_white_space(id.get_char(i)) {
            return false;
        }
        i = i + 1;
    }
    true
}

impl Player {
    /// A player with no games and the default rating.
    pub fn new(id: &str) -> (p: Player)
        ensures
            is_fresh(p@, id@),
    {
        Player { id: id.to_owned(), wins: 0, losses: 0, ties: 0, rating: default_rating() }
    }

    /// Counts one game for this player, who played on the given side.
    pub fn update_stats(&mut self, result: GameResult, is_first: bool)
        requires
            counter_room(old(self)@, result, is_first),
        ensures
            final(self)@ == tallied(old(self)@, result, is_first),
    {
        match result {
            GameResult::Player1Wins => {
                if is_first {
                    self.wins = self.wins + 1;
                } else {
                    self.losses = self.losses + 1;
                }
            },
            GameResult::Player2Wins => {
                if is_first {
                    self.losses = self.losses + 1;
                } else {
                    self.wins = self.wins + 1;
                }
            },
            GameResult::Tie => {
                self.ties = self.ties + 1;
            },
        }
    }

    /// Whether the counter that a game moves for this player has room.
    pub fn has_counter_room(&self, result: GameResult, is_first: bool) -> (r: bool)
        ensures
            r == counter_room(self@, result, is_first),
    {
        match result {
            GameResult::Player1Wins => {
                if is_first {
                    self.wins < u32::MAX
                } else {
                    self.losses < u32::MAX
                }
            },
            GameResult::Player2Wins => {
                if is_first {
                    self.losses < u32::MAX
                } else {
                    self.wins < u32::MAX
                }
            },
            GameResult::Tie => self.ties < u32::MAX,
        }
    }
}

} // verus!
