//! Move notation: turning text such as `R, U'` into twists of a puzzle.
//!
//! A move is the name of a twist, optionally followed by an inverse marker
//! (an apostrophe or a right single quotation mark). A move sequence is a
//! list of moves separated by commas. Repetition counts (`R2`) and layer
//! ranges are not part of the notation: such a token is looked up as a name
//! like any other, and every move turns the outermost layer only.

use vstd::prelude::*;
use vstd::string::*;

use crate::puzzle::{find_name, LayerMask, LayeredTwist, Puzzle, TwistInfo};
use crate::text::{split, split_on, trim, trimmed, views};

verus! {

/// Why a move could not be resolved.
#[derive(Clone, Debug, PartialEq, Eq)]
pub enum ParseError {
    /// The move is empty or consists of white space.
    EmptyMove,
    /// The puzzle has no twist of this name.
    UnknownOperation(String),
}

/// The mathematical model of a `ParseError`.
pub enum MoveError {
    EmptyMove,
    UnknownOperation(Seq<char>),
}

impl View for ParseError {
    type V = MoveError;

    open spec fn view(&self) -> MoveError {
        match self {
            ParseError::EmptyMove => MoveError::EmptyMove,
            ParseError::UnknownOperation(name) => MoveError::UnknownOperation(name@),
        }
    }
}

/// The text of an error message.
pub open spec fn message_of(error: MoveError) -> Seq<char> {
    match error {
        MoveError::EmptyMove => "Empty move string"@,
        MoveError::UnknownOperation(name) => "Unknown move: '"@ + name + "'"@,
    }
}

impl ParseError {
    /// A description of the error for the user.
    pub fn message(&self) -> (text: String)
        ensures
            text@ == message_of(self@),
    {
        match self {
            ParseError::EmptyMove => String::from_str("Empty move string"),
            ParseError::UnknownOperation(name) => {
                let mut text = String::from_str("Unknown move: '");
                text.append(name.as_str());
                text.append("'");
                text
            },
        }
    }
}

/// Whether `c` marks a move as the inverse of the named twist.
pub open spec fn is_inverse_marker(c: char) -> bool {
    c == '\'' || c == '\u{2019}'
}

/// What a single move resolves to.
///
/// The move is trimmed; a final inverse marker is taken off and selects the
/// reverse of the named twist, as the catalog gives it.
pub open spec fn resolve(twists: Seq<TwistInfo>, token: Seq<char>) -> Result<
    LayeredTwist,
    MoveError,
> {
    let text = trim(token);
    if text.len() == 0 {
        Err(MoveError::EmptyMove)
    } else {
        let inverse = is_inverse_marker(text.last());
        let base = if inverse {
            text.drop_last()
        } else {
            text
        };
        match find_name(twists, base, 0) {
            None => Err(MoveError::UnknownOperation(base)),
            Some(i) => Ok(
                LayeredTwist {
                    layers: LayerMask(1),
                    transform: if inverse {
                        twists[i].reverse
                    } else {
                        twists[i].id
                    },
                },
            ),
        }
    }
}

/// What a list of moves resolves to: the twists in order, or the error of
/// the first move that does not resolve.
pub open spec fn resolve_all(twists: Seq<TwistInfo>, tokens: Seq<Seq<char>>) -> Result<
    Seq<LayeredTwist>,
    MoveError,
>
    decreases tokens.len(),
{
    if tokens.len() == 0 {
        Ok(Seq::empty())
    } else {
        match resolve_all(twists, tokens.drop_last()) {
            Err(error) => Err(error),
            Ok(done) => match resolve(twists, tokens.last()) {
                Err(error) => Err(error),
                Ok(twist) => Ok(done.push(twist)),
            },
        }
    }
}

/// What a comma-separated move sequence resolves to.
pub open spec fn resolve_sequence(twists: Seq<TwistInfo>, text: Seq<char>) -> Result<
    Seq<LayeredTwist>,
    MoveError,
> {
    resolve_all(twists, split_on(text, ','))
}

/// A list resolves if and only if each of its moves does; otherwise the
/// error is that of the first move that fails.
pub proof fn lemma_resolve_all(twists: Seq<TwistInfo>, tokens: Seq<Seq<char>>)
    ensures
        match resolve_all(twists, tokens) {
            Ok(moves) => {
                &&& moves.len() == tokens.len()
                &&& forall|i: int|
                    0 <= i < tokens.len() ==> resolve(twists, #[trigger] tokens[i]) == Ok::<
                        LayeredTwist,
                        MoveError,
                    >(moves[i])
            },
            Err(error) => exists|k: int|
                {
                    &&& 0 <= k < tokens.len()
                    &&& resolve(twists, #[trigger] tokens[k]) == Err::<LayeredTwist, MoveError>(
                        error,
                    )
                    &&& forall|i: int| 0 <= i < k ==> resolve(twists, #[trigger] tokens[i]).is_ok()
                },
        },
    decreases tokens.len(),
{
    if tokens.len() > 0 {
        let front = tokens.drop_last();
        lemma_resolve_all(twists, front);
        match resolve_all(twists, front) {
            Err(error) => {
                let k = choose|k: int|
                    {
                        &&& 0 <= k < front.len()
                        &&& resolve(twists, #[trigger] front[k]) == Err::<
                            LayeredTwist,
                            MoveError,
                        >(error)
                        &&& forall|i: int|
                            0 <= i < k ==> resolve(twists, #[trigger] front[i]).is_ok()
                    };
                assert(tokens[k] == front[k]);
                assert forall|i: int| 0 <= i < k implies resolve(
                    twists,
                    #[trigger] tokens[i],
                ).is_ok() by {
                    assert(tokens[i] == front[i]);
                }
            },
            Ok(done) => {
                match resolve(twists, tokens.last()) {
                    Err(error) => {
                        let k = tokens.len() - 1;
                        assert(tokens[k] == tokens.last());
                        assert forall|i: int| 0 <= i < k implies resolve(
                            twists,
                            #[trigger] tokens[i],
                        ).is_ok() by {
                            assert(tokens[i] == front[i]);
                        }
                    },
                    Ok(twist) => {
                        let moves = done.push(twist);
                        assert forall|i: int| 0 <= i < tokens.len() implies resolve(
                            twists,
                            #[trigger] tokens[i],
                        ) == Ok::<LayeredTwist, MoveError>(moves[i]) by {
                            if i < front.len() {
                                assert(tokens[i] == front[i]);
                            }
                        }
                    },
                }
            },
        }
    }
}

/// Once a prefix of a list fails, the whole list fails with the same error.
proof fn lemma_resolve_all_prefix_error(
    twists: Seq<TwistInfo>,
    tokens: Seq<Seq<char>>,
    k: int,
    error: MoveError,
)
    requires
        0 <= k <= tokens.len(),
        resolve_all(twists, tokens.take(k)) == Err::<Seq<LayeredTwist>, MoveError>(error),
    ensures
        resolve_all(twists, tokens) == Err::<Seq<LayeredTwist>, MoveError>(error),
    decreases tokens.len() - k,
{
    if k == tokens.len() {
        assert(tokens.take(k) =~= tokens);
    } else {
        assert(tokens.take(k + 1).drop_last() =~= tokens.take(k));
        lemma_resolve_all_prefix_error(twists, tokens, k + 1, error);
    }
}

/// Resolves one move against the twist catalog of `puzzle`.
pub fn parse_move(puzzle: &Puzzle, move_str: &str) -> (result: Result<LayeredTwist, ParseError>)
    ensures
        match resolve(puzzle.twists@, move_str@) {
            Ok(twist) => result == Ok::<LayeredTwist, ParseError>(twist),
            Err(error) => result.is_err() && result.unwrap_err()@ == error,
        },
{
    let text = trimmed(move_str);
    let n: usize = text.unicode_len();
    if n == 0 {
        return Err(ParseError::EmptyMove);
    }
    let last = text.get_char(n - 1);
    let inverse = last == '\'' || last == '\u{2019}';
    let base = if inverse {
        text.substring_char(0, n - 1)
    } else {
        text
    };
    assert(base@ =~= if inverse {
        text@.drop_last()
    } else {
        text@
    });
    match puzzle.twist_from_name(base) {
        None => Err(ParseError::UnknownOperation(String::from_str(base))),
        Some(info) => Ok(
            LayeredTwist {
                layers: LayerMask::default(),
                transform: if inverse {
                    info.reverse
                } else {
                    info.id
                },
            },
        ),
    }
}

/// Resolves a comma-separated move sequence against the twist catalog of
/// `puzzle`. The first move that does not resolve decides the error.
pub fn parse_moves(puzzle: &Puzzle, moves_str: &str) -> (result: Result<
    Vec<LayeredTwist>,
    ParseError,
>)
    ensures
        match resolve_sequence(puzzle.twists@, moves_str@) {
            Ok(moves) => result.is_ok() && result.unwrap()@ == moves,
            Err(error) => result.is_err() && result.unwrap_err()@ == error,
        },
{
    let pieces = split(moves_str, ',');
    let ghost tokens = views(pieces@);
    let mut moves: Vec<LayeredTwist> = Vec::new();
    let mut i: usize = 0;
    assert(tokens.take(0) =~= Seq::<Seq<char>>::empty());
    while i < pieces.len()
        invariant
            i <= pieces.len(),
            tokens == split_on(moves_str@, ','),
            tokens == views(pieces@),
            resolve_all(puzzle.twists@, tokens.take(i as int)) == Ok::<
                Seq<LayeredTwist>,
                MoveError,
            >(moves@),
        decreases pieces.len() - i,
    {
        proof {
            assert(tokens.take(i + 1).drop_last() =~= tokens.take(i as int));
            assert(tokens.take(i + 1).last() == pieces@[i as int]@);
        }
        match parse_move(puzzle, pieces[i]) {
            Ok(twist) => {
                moves.push(twist);
            },
            Err(error) => {
                proof {
                    lemma_resolve_all_prefix_error(puzzle.twists@, tokens, i + 1, error@);
                }
                return Err(error);
            },
        }
        i = i + 1;
    }
    assert(tokens.take(i as int) =~= tokens);
    Ok(moves)
}

} // verus!
