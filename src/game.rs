//! The progression of a game: three rounds, in each of which the first and
//! then the second player hand in one accepted submission.

use vstd::prelude::*;
use crate::error::Error;
use crate::round::{calc_player_round_score, round_outcome, scored_as, LoggedResult};

verus! {

/// The number of rounds in a game.
pub const ROUNDS: usize = 3;

/// A player: a display name and a running total.
pub struct Player {
    /// The display name.
    pub name: String,
    /// The running total.
    pub score: i16,
}

impl Player {
    /// A player with the given name and a total of zero.
    pub fn new(name: String) -> (r: Player)
        ensures
            r.name@ == name@,
            r.score == 0,
    {
        Player { name, score: 0 }
    }
}

/// Where a game stands.
#[derive(Clone, Copy, Debug, PartialEq, Eq, Structural)]
pub enum Phase {
    /// Waiting for the submission of `player` (0 or 1) in `round` (0 to 2).
    Awaiting { round: usize, player: usize },
    /// All rounds are played.
    GameOver,
    /// A player quit.
    Cancelled,
}

/// What a game is, seen from outside: the names, the totals and the phase.
pub struct GameModel {
    /// The first player's name.
    pub first_name: Seq<char>,
    /// The second player's name.
    pub second_name: Seq<char>,
    /// The first player's running total.
    pub first_total: int,
    /// The second player's running total.
    pub second_total: int,
    /// Where the game stands.
    pub phase: Phase,
}

/// A game between two players.
pub struct Game {
    first: Player,
    second: Player,
    phase: Phase,
}

/// What became of a line handed to a game.
pub enum Response {
    /// The submission was scored and added to the player's total.
    Accepted(LoggedResult),
    /// The submission was turned down; the game stands as it was.
    Rejected(Error),
    /// The line asked to quit; the game is over without a winner.
    Cancelled,
    /// The game was already over; the line was ignored.
    Closed,
}

/// Whether a line asks to quit: `quit`, with or without a line end.
pub open spec fn is_quit(line: Seq<char>) -> bool {
    line == seq!['q', 'u', 'i', 't'] || line == seq!['q', 'u', 'i', 't', '\n']
}

/// The phase after `player` of `round` was accepted.
pub open spec fn next_phase(round: usize, player: usize) -> Phase {
    if player == 0 {
        Phase::Awaiting { round, player: 1 }
    } else if round + 1 < ROUNDS {
        Phase::Awaiting { round: (round + 1) as usize, player: 0 }
    } else {
        Phase::GameOver
    }
}

/// The game as it starts: both totals zero, the first player of the first
/// round to submit.
pub open spec fn initial_model(first_name: Seq<char>, second_name: Seq<char>) -> GameModel {
    GameModel {
        first_name,
        second_name,
        first_total: 0,
        second_total: 0,
        phase: Phase::Awaiting { round: 0, player: 0 },
    }
}

/// The game after one line: a quit cancels it; an accepted submission adds
/// its score to the current player's total and moves on; anything else
/// leaves it as it was.
pub open spec fn after_line(m: GameModel, line: Seq<char>) -> GameModel {
    match m.phase {
        Phase::Awaiting { round, player } => {
            if is_quit(line) {
                GameModel { phase: Phase::Cancelled, ..m }
            } else {
                match round_outcome(line) {
                    Ok(v) => if player == 0 {
                        GameModel {
                            first_total: m.first_total + v,
                            phase: next_phase(round, player),
                            ..m
                        }
                    } else {
                        GameModel {
                            second_total: m.second_total + v,
                            phase: next_phase(round, player),
                            ..m
                        }
                    },
                    Err(_) => m,
                }
            }
        },
        _ => m,
    }
}

/// The winner of a finished game: the second player when their total is
/// strictly greater, else the first.
pub open spec fn winner_of(m: GameModel) -> Option<usize> {
    if m.phase == Phase::GameOver {
        if m.first_total < m.second_total {
            Some(1)
        } else {
            Some(0)
        }
    } else {
        None
    }
}

/// How many submissions of `player` were accepted by `phase`.
pub open spec fn turns_taken(phase: Phase, player: int) -> int {
    match phase {
        Phase::Awaiting { round, player: current } => round + if player < current {
            1int
        } else {
            0int
        },
        _ => ROUNDS as int,
    }
}

impl View for Game {
    type V = GameModel;

    closed spec fn view(&self) -> GameModel {
        GameModel {
            first_name: self.first.name@,
            second_name: self.second.name@,
            first_total: self.first.score as int,
            second_total: self.second.score as int,
            phase: self.phase,
        }
    }
}

impl Game {
    /// The game's invariant: a valid phase, and totals within what the
    /// accepted submissions can have brought.
    pub closed spec fn wf(&self) -> bool {
        &&& match self.phase {
            Phase::Awaiting { round, player } => round < ROUNDS && player < 2,
            _ => true,
        }
        &&& -480 * turns_taken(self.phase, 0) <= self.first.score <= 936 * turns_taken(
            self.phase,
            0,
        )
        &&& -480 * turns_taken(self.phase, 1) <= self.second.score <= 936 * turns_taken(
            self.phase,
            1,
        )
    }

    /// Starts a game between two named players; `None` when a name is empty.
    pub fn new(first_name: String, second_name: String) -> (r: Option<Game>)
        ensures
            match r {
                Some(g) => g.wf() && g@ == initial_model(first_name@, second_name@)
                    && first_name@.len() > 0 && second_name@.len() > 0,
                None => first_name@.len() == 0 || second_name@.len() == 0,
            },
    {
        if first_name.as_str().is_empty() || second_name.as_str().is_empty() {
            return None;
        }
        Some(
            Game {
                first: Player::new(first_name),
                second: Player::new(second_name),
                phase: Phase::Awaiting { round: 0, player: 0 },
            },
        )
    }

    /// Where the game stands.
    pub fn phase(&self) -> (r: Phase)
        ensures
            r == self@.phase,
    {
        self.phase
    }

    /// The first (`0`) or the second (`1`) player.
    pub fn player(&self, index: usize) -> (r: &Player)
        requires
            index < 2,
        ensures
            r.name@ == if index == 0 {
                self@.first_name
            } else {
                self@.second_name
            },
            r.score == if index == 0 {
                self@.first_total
            } else {
                self@.second_total
            },
    {
        if index == 0 {
            &self.first
        } else {
            &self.second
        }
    }

    /// The winner's index once all rounds are played: `1` only when the
    /// second player's total is strictly greater. `None` before that and
    /// after a quit.
    pub fn winner(&self) -> (r: Option<usize>)
        ensures
            r == winner_of(self@),
    {
        match self.phase {
            Phase::GameOver => if self.first.score < self.second.score {
                Some(1)
            } else {
                Some(0)
            },
            _ => None,
        }
    }

    /// Hands one line of input to the game: a quit, or the current player's
    /// submission for the current round.
    pub fn handle_line(&mut self, line: &str) -> (r: Response)
        requires
            old(self).wf(),
        ensures
            final(self).wf(),
            final(self)@ == after_line(old(self)@, line@),
            match old(self)@.phase {
                Phase::Awaiting { .. } => if is_quit(line@) {
                    r is Cancelled
                } else {
                    match round_outcome(line@) {
                        Ok(v) => r matches Response::Accepted(res) && scored_as(res, line@, v),
                        Err(e) => r == Response::Rejected(e),
                    }
                },
                _ => r is Closed,
            },
    {
        let (round, player) = match self.phase {
            Phase::Awaiting { round, player } => (round, player),
            _ => {
                return Response::Closed;
            },
        };
        if is_quit_line(line) {
            self.phase = Phase::Cancelled;
            return Response::Cancelled;
        }
        match calc_player_round_score(line) {
            Err(e) => Response::Rejected(e),
            Ok(res) => {
                if player == 0 {
                    self.first.score = self.first.score + res.result;
                } else {
                    self.second.score = self.second.score + res.result;
                }
                self.phase = if player == 0 {
                    Phase::Awaiting { round, player: 1 }
                } else if round + 1 < ROUNDS {
                    Phase::Awaiting { round: round + 1, player: 0 }
                } else {
                    Phase::GameOver
                };
                Response::Accepted(res)
            },
        }
    }
}

/// Whether `line` asks to quit.
pub fn is_quit_line(line: &str) -> (r: bool)
    ensures
        r == is_quit(line@),
{
    let word = ['q', 'u', 'i', 't'];
    let n = line.unicode_len();
    if n != 4 && n != 5 {
        return false;
    }
    let mut i: usize = 0;
    while i < 4
        invariant
            n == line@.len(),
            n == 4 || n == 5,
            i <= 4,
            word@ == seq!['q', 'u', 'i', 't'],
            forall|j: int| 0 <= j < i ==> line@[j] == word@[j],
        decreases 4 - i,
    {
        if line.get_char(i) != word[i] {
            return false;
        }
        i = i + 1;
    }
    if n == 5 && line.get_char(4) != '\n' {
        return false;
    }
    proof {
        if n == 4 {
            assert(line@ =~= seq!['q', 'u', 'i', 't']);
        } else {
            assert(line@ =~= seq!['q', 'u', 'i', 't', '\n']);
        }
    }
    true
}

} // verus!

verus! {

/// The game after each line of `lines`, in order.
pub open spec fn play(m: GameModel, lines: Seq<Seq<char>>) -> GameModel
    decreases lines.len(),
{
    if lines.len() == 0 {
        m
    } else {
        after_line(play(m, lines.drop_last()), lines.last())
    }
}

/// The round score of an accepted line.
pub open spec fn accepted_score(line: Seq<char>) -> int {
    match round_outcome(line) {
        Ok(v) => v,
        Err(_) => 0,
    }
}

/// A line that neither quits nor is accepted leaves the game as it was.
pub proof fn lemma_rejected_line_keeps_game(m: GameModel, line: Seq<char>)
    requires
        !is_quit(line),
        round_outcome(line) is Err,
    ensures
        after_line(m, line) == m,
{
}

/// A whole game: when the six lines of three rounds are all accepted, the
/// game is over, each total is the sum of that player's three round scores,
/// and the winner is the second player only when their total is strictly
/// greater.
pub proof fn lemma_full_game(first_name: Seq<char>, second_name: Seq<char>, lines: Seq<Seq<char>>)
    requires
        lines.len() == 2 * ROUNDS,
        forall|i: int|
            0 <= i < lines.len() ==> !is_quit(#[trigger] lines[i]) && round_outcome(lines[i]) is Ok,
    ensures
        ({
            let end = play(initial_model(first_name, second_name), lines);
            let first = accepted_score(lines[0]) + accepted_score(lines[2]) + accepted_score(
                lines[4],
            );
            let second = accepted_score(lines[1]) + accepted_score(lines[3]) + accepted_score(
                lines[5],
            );
            &&& end.phase == Phase::GameOver
            &&& end.first_total == first
            &&& end.second_total == second
            &&& winner_of(end) == Some(
                if first < second {
                    1usize
                } else {
                    0usize
                },
            )
        }),
{
    let m0 = initial_model(first_name, second_name);
    assert(lines.take(0) =~= Seq::<Seq<char>>::empty());
    assert(lines.take(1).drop_last() =~= lines.take(0));
    assert(lines.take(2).drop_last() =~= lines.take(1));
    assert(lines.take(3).drop_last() =~= lines.take(2));
    assert(lines.take(4).drop_last() =~= lines.take(3));
    assert(lines.take(5).drop_last() =~= lines.take(4));
    assert(lines.take(6).drop_last() =~= lines.take(5));
    assert(!is_quit(lines[0]) && !is_quit(lines[1]) && !is_quit(lines[2]));
    assert(!is_quit(lines[3]) && !is_quit(lines[4]) && !is_quit(lines[5]));
    assert(round_outcome(lines[0]) is Ok && round_outcome(lines[1]) is Ok);
    assert(round_outcome(lines[2]) is Ok && round_outcome(lines[3]) is Ok);
    assert(round_outcome(lines[4]) is Ok && round_outcome(lines[5]) is Ok);
    let step0 = play(m0, lines.take(0));
    assert(step0 == m0);
    let step1 = play(m0, lines.take(1));
    assert(step1 == after_line(step0, lines[0]));
    assert(step1.phase == Phase::Awaiting { round: 0, player: 1 });
    let step2 = play(m0, lines.take(2));
    assert(step2 == after_line(step1, lines[1]));
    assert(step2.phase == Phase::Awaiting { round: 1, player: 0 });
    let step3 = play(m0, lines.take(3));
    assert(step3 == after_line(step2, lines[2]));
    assert(step3.phase == Phase::Awaiting { round: 1, player: 1 });
    let step4 = play(m0, lines.take(4));
    assert(step4 == after_line(step3, lines[3]));
    assert(step4.phase == Phase::Awaiting { round: 2, player: 0 });
    let step5 = play(m0, lines.take(5));
    assert(step5 == after_line(step4, lines[4]));
    assert(step5.phase == Phase::Awaiting { round: 2, player: 1 });
    let step6 = play(m0, lines.take(6));
    assert(step6 == after_line(step5, lines[5]));
    assert(step6.phase == Phase::GameOver);
    assert(lines.take(6) =~= lines);
}

} // verus!
