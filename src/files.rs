//! The names of the files a game writes: a text log and a record of the
//! rounds, both named after the time the game started.

use vstd::prelude::*;

verus! {

/// The name that every log file starts with.
pub const GAME_LOG_FILE_NAME: &'static str = "LostCitiesScores";

/// The file name for a game started at `stamp`:
/// `LostCitiesScores_<stamp><extension>`.
pub open spec fn file_name(stamp: Seq<char>, extension: Seq<char>) -> Seq<char> {
    GAME_LOG_FILE_NAME@ + seq!['_'] + stamp + extension
}

/// The name of the text log of a game started at `stamp`.
pub fn log_file_name(stamp: &str) -> (r: String)
    ensures
        r@ == file_name(stamp@, seq!['.', 't', 'x', 't']),
{
    let mut name = String::from_str(GAME_LOG_FILE_NAME);
    name.append("_");
    name.append(stamp);
    name.append(".txt");
    proof {
        reveal_strlit("_");
        reveal_strlit(".txt");
    }
    name
}

/// The name of the round record of a game started at `stamp`.
pub fn record_file_name(stamp: &str) -> (r: String)
    ensures
        r@ == file_name(stamp@, seq!['.', 'j', 's', 'o', 'n']),
{
    let mut name = String::from_str(GAME_LOG_FILE_NAME);
    name.append("_");
    name.append(stamp);
    name.append(".json");
    proof {
        reveal_strlit("_");
        reveal_strlit(".json");
    }
    name
}

} // verus!
