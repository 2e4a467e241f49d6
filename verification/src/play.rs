//! Whole games: what holds of a position that was reached by a sequence of
//! moves.

use crate::nim::{NimError, Position, TokenState};
use vstd::arithmetic::div_mod::{lemma_add_mod_noop, lemma_mod_self_0, lemma_small_mod};
use vstd::prelude::*;

verus! {

/// The position reached from `start` by making the moves of `moves` in order,
/// or `None` if one of them is refused.
pub open spec fn play(start: Position, moves: Seq<Set<usize>>) -> Option<Position>
    decreases moves.len(),
{
    if moves.len() == 0 {
        Some(start)
    } else {
        match play(start, moves.drop_last()) {
            Some(position) => match position.apply_move(moves.last()) {
                Ok(next) => Some(next),
                Err(_) => None,
            },
            None => None,
        }
    }
}

/// Every index that occurs in one of the moves.
pub open spec fn indices_of(moves: Seq<Set<usize>>) -> Set<usize> {
    Set::new(|i: usize| exists|k: int| 0 <= k < moves.len() && #[trigger] moves[k].contains(i))
}

/// No index occurs in two of the moves.
pub open spec fn pairwise_disjoint(moves: Seq<Set<usize>>) -> bool {
    forall|a: int, b: int|
        #![trigger moves[a], moves[b]]
        0 <= a < b < moves.len() ==> moves[a].disjoint(moves[b])
}

/// A legal move takes exactly its own tokens, none of which was taken
/// before, and keeps the game well formed: the number of tokens and of
/// players stays, and a winner is recorded only on an empty table.
pub proof fn lemma_legal_move(position: Position, indices: Set<usize>)
    requires
        position.wf(),
        position.apply_move(indices) is Ok,
    ensures
        ({
            let next = position.apply_move(indices)->Ok_0;
            &&& next.wf()
            &&& next.tokens.len() == position.tokens.len()
            &&& next.player_count == position.player_count
            &&& next.missing() == position.missing().union(indices)
            &&& indices.disjoint(position.missing())
            &&& position.last_token_taken_by is None
            &&& next.last_token_taken_by is None ==> next.current_player == (position.current_player
                + 1) % position.player_count
            &&& next.last_token_taken_by is Some ==> next.last_token_taken_by == Some(
                position.current_player,
            )
        }),
{
    let next = position.after(indices);
    assert(position.rejection(indices) is None);
    assert(next.tokens == position.take(indices));
    assert forall|i: usize| indices.contains(i) implies i < position.tokens.len()
        && position.tokens[i as int] == TokenState::TokenPresent by {
        if position.tokens[i as int] == TokenState::TokenMissing {
            assert(false);
        }
    }
    assert(next.missing() =~= position.missing().union(indices));
    if next.last_token_taken_by is None {
        if position.current_player + 1 < position.player_count {
            lemma_small_mod(position.current_player + 1, position.player_count);
        } else {
            lemma_mod_self_0(position.player_count as int);
        }
    }
}

/// After any sequence of legal moves the tokens that are missing are those
/// that were missing at the start together with every index that was
/// submitted, and no index was submitted twice or named a token that was
/// missing at the start.
pub proof fn lemma_missing_after_play(start: Position, moves: Seq<Set<usize>>)
    requires
        start.wf(),
        play(start, moves) is Some,
    ensures
        ({
            let end = play(start, moves)->Some_0;
            &&& end.wf()
            &&& end.tokens.len() == start.tokens.len()
            &&& end.player_count == start.player_count
            &&& end.missing() == start.missing().union(indices_of(moves))
            &&& indices_of(moves).disjoint(start.missing())
            &&& pairwise_disjoint(moves)
        }),
    decreases moves.len(),
{
    if moves.len() == 0 {
        assert(indices_of(moves) =~= Set::<usize>::empty());
        assert(start.missing().union(indices_of(moves)) =~= start.missing());
    } else {
        let earlier = moves.drop_last();
        let last = moves.last();
        lemma_missing_after_play(start, earlier);
        let before = play(start, earlier)->Some_0;
        lemma_legal_move(before, last);
        let end = play(start, moves)->Some_0;
        assert forall|i: usize| indices_of(moves).contains(i) <==> (indices_of(earlier).contains(i)
            || last.contains(i)) by {
            if indices_of(moves).contains(i) {
                let k = choose|k: int| 0 <= k < moves.len() && #[trigger] moves[k].contains(i);
                if k < earlier.len() {
                    assert(earlier[k].contains(i));
                }
            }
            if indices_of(earlier).contains(i) {
                let k = choose|k: int| 0 <= k < earlier.len() && #[trigger] earlier[k].contains(i);
                assert(moves[k].contains(i));
            }
            if last.contains(i) {
                assert(moves[moves.len() - 1].contains(i));
            }
        }
        assert(end.missing() =~= start.missing().union(indices_of(moves)));
        assert forall|i: usize| indices_of(moves).contains(i) implies !start.missing().contains(
            i,
        ) by {
            if last.contains(i) {
                assert(!before.missing().contains(i));
            }
        }
        assert forall|a: int, b: int| 0 <= a < b < moves.len() implies (
        #[trigger] moves[a]).disjoint(#[trigger] moves[b]) by {
            if b < earlier.len() {
                assert(earlier[a].disjoint(earlier[b]));
            } else {
                assert(earlier[a] == moves[a]);
                assert forall|i: usize| moves[a].contains(i) implies !last.contains(i) by {
                    assert(indices_of(earlier).contains(i));
                    assert(before.missing().contains(i));
                }
            }
        }
    }
}

/// In a game played from its start, the set of missing tokens is the union of
/// all indices ever submitted, and no index appears twice.
pub proof fn lemma_missing_is_union_of_moves(
    token_count: nat,
    player_count: nat,
    moves: Seq<Set<usize>>,
)
    requires
        player_count >= 1,
        play(Position::initial(token_count, player_count), moves) is Some,
    ensures
        play(Position::initial(token_count, player_count), moves)->Some_0.missing() == indices_of(
            moves,
        ),
        pairwise_disjoint(moves),
{
    let start = Position::initial(token_count, player_count);
    lemma_missing_after_play(start, moves);
    assert(start.missing() =~= Set::<usize>::empty());
    assert(start.missing().union(indices_of(moves)) =~= indices_of(moves));
}

/// Turns go round: while nobody has won, the player to move after `n` legal
/// moves in a game of `p` players that started with player 0 is player
/// `n mod p`.
pub proof fn lemma_round_robin(token_count: nat, player_count: nat, moves: Seq<Set<usize>>)
    requires
        player_count >= 1,
        play(Position::initial(token_count, player_count), moves) is Some,
        play(Position::initial(token_count, player_count), moves)->Some_0.last_token_taken_by
            is None,
    ensures
        play(Position::initial(token_count, player_count), moves)->Some_0.current_player
            == moves.len() % player_count,
    decreases moves.len(),
{
    let start = Position::initial(token_count, player_count);
    if moves.len() == 0 {
        lemma_small_mod(0, player_count);
    } else {
        let earlier = moves.drop_last();
        let before = play(start, earlier)->Some_0;
        lemma_missing_after_play(start, earlier);
        lemma_legal_move(before, moves.last());
        lemma_round_robin(token_count, player_count, earlier);
        lemma_add_mod_noop(earlier.len() as int, 1, player_count as int);
        if player_count == 1 {
            lemma_mod_self_0(1);
        } else {
            lemma_small_mod(1, player_count);
        }
    }
}

/// A game that is over stays over: every further move is refused because the
/// game is over, whatever the move.
pub proof fn lemma_game_over_is_final(position: Position, indices: Set<usize>)
    requires
        position.last_token_taken_by is Some,
    ensures
        position.apply_move(indices) == Err::<Position, NimError>(NimError::GameAlreadyOver),
{
}

/// From a game that is over no sequence of one or more moves can be played.
pub proof fn lemma_no_play_after_game_over(position: Position, moves: Seq<Set<usize>>)
    requires
        position.last_token_taken_by is Some,
        moves.len() >= 1,
    ensures
        play(position, moves) is None,
    decreases moves.len(),
{
    if moves.len() > 1 {
        lemma_no_play_after_game_over(position, moves.drop_last());
    } else {
        assert(moves.drop_last().len() == 0);
        assert(play(position, moves.drop_last()) == Some(position));
    }
}

/// While the game is running, a move without any index is refused for want
/// of tokens.
pub proof fn lemma_empty_move_rejected(position: Position)
    requires
        position.last_token_taken_by is None,
    ensures
        position.apply_move(Set::<usize>::empty()) == Err::<Position, NimError>(
            NimError::NotEnoughtTokens,
        ),
{
}

/// While the game is running, a move of four or more indices is refused for
/// taking too many.
pub proof fn lemma_large_move_rejected(position: Position, indices: Set<usize>)
    requires
        position.last_token_taken_by is None,
        indices.finite(),
        indices.len() >= 4,
    ensures
        position.apply_move(indices) == Err::<Position, NimError>(NimError::ToManyTokens),
{
}

/// A move that names an index at or beyond the number of tokens is always
/// refused. While the game is running and the move has one to three indices,
/// the reason given is that a token is out of bounds.
pub proof fn lemma_out_of_bounds_rejected(position: Position, indices: Set<usize>, index: usize)
    requires
        indices.finite(),
        indices.contains(index),
        index >= position.tokens.len(),
    ensures
        position.apply_move(indices) is Err,
        position.last_token_taken_by is None && indices.len() <= 3 ==> position.apply_move(indices)
            == Err::<Position, NimError>(NimError::TokenOutOfBounds),
{
    if indices.len() == 0 {
        assert(indices.contains(index));
        indices.lemma_len0_is_empty();
    }
}

} // verus!
