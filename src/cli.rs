//! The commands of the command-line tool, and the words for a game's result.

use vstd::prelude::*;

use crate::player::GameResult;

verus! {

/// A game's result as the command line writes it.
#[derive(Clone, Copy, Debug, PartialEq, Eq, Structural)]
pub enum VsResult {
    /// The first player wins (`gt`).
    Gt,
    /// The second player wins (`lt`).
    Lt,
    /// The game is a tie (`eq`).
    Eq,
}

impl VsResult {
    /// The game result that this word stands for.
    pub fn game_result(self) -> (r: GameResult)
        ensures
            r == match self {
                VsResult::Gt => GameResult::Player1Wins,
                VsResult::Lt => GameResult::Player2Wins,
                VsResult::Eq => GameResult::Tie,
            },
    {
        match self {
            VsResult::Gt => GameResult::Player1Wins,
            VsResult::Lt => GameResult::Player2Wins,
            VsResult::Eq => GameResult::Tie,
        }
    }
}

/// The whole command line: one command.
#[derive(Debug)]
pub struct Cli {
    pub command: Commands,
}

/// The commands of the tool.
#[derive(Debug)]
pub enum Commands {
    /// Creates a project and makes it the active one.
    Init { project_name: String },
    /// Makes an existing project the active one.
    Activate { project_name: String },
    /// Lists the projects.
    List,
    /// Shows the active project.
    Whoami,
    /// Leaves no project active.
    Deactivate,
    /// Deletes a project.
    Delete { project_name: String },
    /// Shows the players with the highest ratings.
    Head { count: Option<usize> },
    /// Adds a player.
    Add { id: String },
    /// Records a game between two players.
    Vs { id1: String, result: VsResult, id2: String },
    /// Shows one player.
    Info { id: String },
}

/// The same characters.
fn same_text(a: &str, b: &str) -> (r: bool)
    ensures
        r == (a@ == b@),
{
    let n = a.unicode_len();
    if n != b.unicode_len() {
        return false;
    }
    let mut i: usize = 0;
    while i < n
        invariant
            n == a@.len(),
            n == b@.len(),
            i <= n,
            forall|k: int| 0 <= k < i ==> a@[k] == b@[k],
        decreases n - i,
    {
        if a.get_char(i) != b.get_char(i) {
            return false;
        }
        i = i + 1;
    }
    assert(a@ =~= b@);
    true
}

/// The game result that a word of an embedding host stands for: `gt` or `>`
/// for a win of the first player, `lt` or `<` for a win of the second, `eq`
/// or `==` for a tie; `None` for any other word.
pub fn parse_game_result(token: &str) -> (r: Option<GameResult>)
    ensures
        r == if token@ == "gt"@ || token@ == ">"@ {
            Some(GameResult::Player1Wins)
        } else if token@ == "lt"@ || token@ == "<"@ {
            Some(GameResult::Player2Wins)
        } else if token@ == "eq"@ || token@ == "=="@ {
            Some(GameResult::Tie)
        } else {
            None::<GameResult>
        },
{
    if same_text(token, "gt") || same_text(token, ">") {
        Some(GameResult::Player1Wins)
    } else if same_text(token, "lt") || same_text(token, "<") {
        Some(GameResult::Player2Wins)
    } else if same_text(token, "eq") || same_text(token, "==") {
        Some(GameResult::Tie)
    } else {
        None
    }
}

} // verus!
