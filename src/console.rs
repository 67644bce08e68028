//! Decisions of the administrator and participant consoles: reading the
//! one-letter commands, reacting to what the server sends, and ordering the
//! leaderboard.
use vstd::prelude::*;
use crate::protocol::{GuessResult, Nonce, ParticipantId, ServerToClient};

verus! {

broadcast use vstd::seq_lib::group_to_multiset_ensures;

/// What an administrator can ask for at the prompt.
#[derive(Clone, Copy, PartialEq, Eq, Debug, Structural)]
pub enum AdminCommand {
    /// `s`: start the experiment.
    Start,
    /// `a`: answer a participant.
    Answer,
    /// `l`: show the leaderboard.
    Leaderboard,
    /// `w`: show the participants awaiting an answer.
    Waiting,
}

/// What a participant can ask for at the prompt.
#[derive(Clone, Copy, PartialEq, Eq, Debug, Structural)]
pub enum ClientCommand {
    /// `g`: submit a guess.
    Guess,
    /// `h`: show the guesses submitted so far.
    History,
}

/// `line` is the single character `c`.
pub open spec fn is_single(line: Seq<char>, c: char) -> bool {
    line.len() == 1 && line[0] == c
}

pub open spec fn admin_command_of(line: Seq<char>) -> Option<AdminCommand> {
    if is_single(line, 's') {
        Some(AdminCommand::Start)
    } else if is_single(line, 'a') {
        Some(AdminCommand::Answer)
    } else if is_single(line, 'l') {
        Some(AdminCommand::Leaderboard)
    } else if is_single(line, 'w') {
        Some(AdminCommand::Waiting)
    } else {
        None
    }
}

pub open spec fn client_command_of(line: Seq<char>) -> Option<ClientCommand> {
    if is_single(line, 'g') {
        Some(ClientCommand::Guess)
    } else if is_single(line, 'h') {
        Some(ClientCommand::History)
    } else {
        None
    }
}

pub open spec fn answer_of(line: Seq<char>) -> Option<GuessResult> {
    if is_single(line, '<') {
        Some(GuessResult::Less)
    } else if is_single(line, '>') {
        Some(GuessResult::More)
    } else if is_single(line, '=') {
        Some(GuessResult::Equal)
    } else {
        None
    }
}

/// The byte of `s` when `s` is a single ASCII character.
fn single_ascii(s: &str) -> (r: Option<u8>)
    ensures
        match r {
            Some(b) => b < 128 && s@.len() == 1 && s@[0] == b as char,
            None => forall|c: char| '\0' <= c <= '\u{7f}' ==> !is_single(s@, c),
        },
{
    broadcast use vstd::string::is_ascii_spec_bytes;

    if !s.is_ascii() {
        proof {
            assert forall|c: char| '\0' <= c <= '\u{7f}' implies !is_single(s@, c) by {
                if is_single(s@, c) {
                    assert(vstd::string::is_ascii(s));
                }
            }
        }
        return None;
    }
    let bytes = s.as_bytes();
    if bytes.len() != 1 {
        return None;
    }
    let b = bytes[0];
    proof {
        assert(s@.len() == 1);
        assert('\0' <= s@[0] <= '\u{7f}');
        assert(b == s@[0] as u8);
    }
    Some(b)
}

/// Reads an administrator command line (surrounding blanks already removed).
pub fn parse_admin_command(line: &str) -> (r: Option<AdminCommand>)
    ensures
        r == admin_command_of(line@),
{
    match single_ascii(line) {
        Some(b) => if b == 115 {
            Some(AdminCommand::Start)
        } else if b == 97 {
            Some(AdminCommand::Answer)
        } else if b == 108 {
            Some(AdminCommand::Leaderboard)
        } else if b == 119 {
            Some(AdminCommand::Waiting)
        } else {
            None
        },
        None => None,
    }
}

/// Reads a participant command line (surrounding blanks already removed).
pub fn parse_client_command(line: &str) -> (r: Option<ClientCommand>)
    ensures
        r == client_command_of(line@),
{
    match single_ascii(line) {
        Some(b) => if b == 103 {
            Some(ClientCommand::Guess)
        } else if b == 104 {
            Some(ClientCommand::History)
        } else {
            None
        },
        None => None,
    }
}

/// Reads the administrator's judgement: `<`, `>` or `=`.
pub fn parse_answer(line: &str) -> (r: Option<GuessResult>)
    ensures
        r == answer_of(line@),
{
    match single_ascii(line) {
        Some(b) => if b == 60 {
            Some(GuessResult::Less)
        } else if b == 62 {
            Some(GuessResult::More)
        } else if b == 61 {
            Some(GuessResult::Equal)
        } else {
            None
        },
        None => None,
    }
}

/// How a participant console reacts to a message from the server.
#[derive(Clone, Copy, PartialEq, Eq, Debug, Structural)]
pub struct ClientReaction {
    /// The nonce to acknowledge, if any.
    pub ack: Option<Nonce>,
    /// Whether the participant may (again) submit a guess.
    pub may_guess: bool,
}

/// An experiment start and every answer are acknowledged with their nonce; the
/// participant may guess after the start and after any answer but `Equal`.
pub fn client_reaction(message: ServerToClient) -> (r: ClientReaction)
    ensures
        r == match message {
            ServerToClient::RegisterUUID(_) => ClientReaction { ack: None, may_guess: false },
            ServerToClient::ExperimentStart(n) => ClientReaction { ack: Some(n), may_guess: true },
            ServerToClient::Answer(a, n) => ClientReaction {
                ack: Some(n),
                may_guess: a != GuessResult::Equal,
            },
        },
{
    match message {
        ServerToClient::RegisterUUID(_) => ClientReaction { ack: None, may_guess: false },
        ServerToClient::ExperimentStart(n) => ClientReaction { ack: Some(n), may_guess: true },
        ServerToClient::Answer(a, n) => ClientReaction {
            ack: Some(n),
            may_guess: match a {
                GuessResult::Equal => false,
                _ => true,
            },
        },
    }
}

/// Counts never increase along `s`.
pub open spec fn by_count_desc(s: Seq<(ParticipantId, u64)>) -> bool {
    forall|i: int, j: int| 0 <= i < j < s.len() ==> #[trigger] s[i].1 >= #[trigger] s[j].1
}

/// The leaderboard: the same entries, most guesses first.
pub fn leaderboard(entries: Vec<(ParticipantId, u64)>) -> (r: Vec<(ParticipantId, u64)>)
    ensures
        by_count_desc(r@),
        r@.to_multiset() == entries@.to_multiset(),
{
    let mut r: Vec<(ParticipantId, u64)> = Vec::new();
    let mut k: usize = 0;
    while k < entries.len()
        invariant
            k <= entries@.len(),
            by_count_desc(r@),
            r@.to_multiset() == entries@.subrange(0, k as int).to_multiset(),
        decreases entries@.len() - k,
    {
        let x = entries[k];
        let mut pos: usize = 0;
        while pos < r.len() && r[pos].1 >= x.1
            invariant
                pos <= r@.len(),
                forall|i: int| 0 <= i < pos ==> #[trigger] r@[i].1 >= x.1,
            decreases r@.len() - pos,
        {
            pos = pos + 1;
        }
        let ghost r0 = r@;
        r.insert(pos, x);
        proof {
            assert forall|i: int, j: int| 0 <= i < j < r@.len() implies #[trigger] r@[i].1
                >= #[trigger] r@[j].1 by {
                if j < pos {
                    assert(r@[i] == r0[i] && r@[j] == r0[j]);
                } else if j == pos {
                    assert(r@[i] == r0[i]);
                } else if i < pos {
                    assert(r@[i] == r0[i] && r@[j] == r0[j - 1]);
                    assert(r0[j - 1].1 <= r0[pos as int].1 || j - 1 == pos);
                } else if i == pos {
                    assert(r@[j] == r0[j - 1]);
                    assert(r0[pos as int].1 < x.1);
                    assert(r0[j - 1].1 <= r0[pos as int].1 || j - 1 == pos);
                } else {
                    assert(r@[i] == r0[i - 1] && r@[j] == r0[j - 1]);
                }
            }
            assert(entries@.subrange(0, k + 1) =~= entries@.subrange(0, k as int).push(x));
        }
        k = k + 1;
    }
    assert(entries@.subrange(0, entries@.len() as int) =~= entries@);
    r
}

/// Number of guesses shown on one line of the history.
pub const HISTORY_ROW: usize = 5;

/// Row `i` of the history: the guesses from `HISTORY_ROW * i` on, at most
/// `HISTORY_ROW` of them.
pub open spec fn history_row(h: Seq<i64>, i: int) -> Seq<i64> {
    let start = HISTORY_ROW * i;
    let end = if start + HISTORY_ROW <= h.len() {
        start + HISTORY_ROW
    } else {
        h.len() as int
    };
    h.subrange(start, end)
}

/// The participant's guesses, in order, cut into rows of `HISTORY_ROW`.
pub fn history_rows(history: &Vec<i64>) -> (r: Vec<Vec<i64>>)
    ensures
        r@.len() == (history@.len() + HISTORY_ROW - 1) / HISTORY_ROW as int,
        forall|i: int| 0 <= i < r@.len() ==> #[trigger] r@[i]@ == history_row(history@, i),
{
    let mut r: Vec<Vec<i64>> = Vec::new();
    let mut start: usize = 0;
    while start < history.len()
        invariant
            start <= history@.len(),
            start == history@.len() || start == HISTORY_ROW * r@.len(),
            r@.len() == (start + HISTORY_ROW - 1) / HISTORY_ROW as int,
            forall|i: int| 0 <= i < r@.len() ==> #[trigger] r@[i]@ == history_row(history@, i),
        decreases history@.len() - start,
    {
        let end: usize = if history.len() - start >= HISTORY_ROW {
            start + HISTORY_ROW
        } else {
            history.len()
        };
        let mut row: Vec<i64> = Vec::new();
        let mut j: usize = start;
        while j < end
            invariant
                start <= j <= end <= history@.len(),
                row@ == history@.subrange(start as int, j as int),
            decreases end - j,
        {
            row.push(history[j]);
            assert(history@.subrange(start as int, j + 1) =~= history@.subrange(start as int, j as int).push(history@[j as int]));
            j = j + 1;
        }
        let ghost r0 = r@;
        r.push(row);
        proof {
            assert forall|i: int| 0 <= i < r@.len() implies #[trigger] r@[i]@ == history_row(history@, i) by {
                if i < r0.len() {
                    assert(r@[i] == r0[i]);
                }
            }
        }
        proof {
            let n = r0.len() as int;
            assert(start == 5 * n) by (nonlinear_arith)
                requires
                    start < history@.len(),
                    start == history@.len() || start == 5 * n,
            ;
            assert((end + 4) / 5 == n + 1) by (nonlinear_arith)
                requires
                    start == 5 * n,
                    start < end <= start + 5,
            ;
        }
        start = end;
    }
    r
}

} // verus!
