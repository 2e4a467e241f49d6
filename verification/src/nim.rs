//! The rule engine of the token-removal game.

use std::collections::HashSet;
use vstd::arithmetic::div_mod::{lemma_mod_self_0, lemma_small_mod};
use vstd::prelude::*;
use vstd::std_specs::hash::spec_hash_keys_iter;
use vstd::std_specs::iter::IteratorSpec;

verus! {

broadcast use vstd::std_specs::hash::group_hash_axioms;

/// Whether a token is still on the table.
#[derive(Clone, Copy, Debug, PartialEq, Eq, Structural)]
pub enum TokenState {
    /// The token can still be taken.
    TokenPresent,
    /// The token has been taken, for good.
    TokenMissing,
}

/// Why a move was rejected.
#[derive(Clone, Copy, Debug, PartialEq, Eq, Structural)]
pub enum NimError {
    /// The move names a token that has been taken already.
    TokenAlreadyMissing,
    /// The move names a position at which the game has no token.
    TokenOutOfBounds,
    /// The move names more than three tokens.
    ToManyTokens,
    /// The move names no token.
    NotEnoughtTokens,
    /// Somebody has taken the last token.
    GameAlreadyOver,
}

/// The first `k + 1` entries of a list hold what the first `k` hold and the
/// entry at `k`.
proof fn lemma_take_one_more(indices: Seq<usize>, k: int)
    requires
        0 <= k < indices.len(),
    ensures
        indices.take(k + 1).to_set() == indices.take(k).to_set().insert(indices[k]),
{
    let done = indices.take(k);
    let next = indices.take(k + 1);
    assert forall|i: usize| next.to_set().contains(i) <==> (done.to_set().contains(i) || i
        == indices[k]) by {
        if next.to_set().contains(i) {
            let j = choose|j: int| 0 <= j < next.len() && next[j] == i;
            if j < k {
                assert(done[j] == i);
            }
        }
        if done.to_set().contains(i) {
            let j = choose|j: int| 0 <= j < done.len() && done[j] == i;
            assert(next[j] == i);
        }
        if i == indices[k] {
            assert(next[k] == i);
        }
    }
    assert(next.to_set() =~= done.to_set().insert(indices[k]));
}

/// The tokens that a player claims in one turn, as a set of positions.
pub struct NimAction {
    token_indices: HashSet<usize>,
}

impl View for NimAction {
    type V = Set<usize>;

    closed spec fn view(&self) -> Set<usize> {
        self.token_indices@
    }
}

impl NimAction {
    /// Collects the positions of `token_indices`; a position named twice
    /// counts once and the order is forgotten.
    pub fn from_vec(token_indices: Vec<usize>) -> (action: Self)
        ensures
            action@ == token_indices@.to_set(),
            action@.finite(),
    {
        let mut set: HashSet<usize> = HashSet::new();
        let mut i: usize = 0;
        while i < token_indices.len()
            invariant
                i <= token_indices.len(),
                set@ == token_indices@.take(i as int).to_set(),
            decreases token_indices.len() - i,
        {
            set.insert(token_indices[i]);
            proof {
                lemma_take_one_more(token_indices@, i as int);
            }
            i += 1;
        }
        assert(token_indices@.take(i as int) == token_indices@);
        NimAction { token_indices: set }
    }
}

/// A game as the rules see it: every token's state, whose turn it is, how
/// many players take turns, and who took the last token once someone has.
pub struct Position {
    pub tokens: Seq<TokenState>,
    pub current_player: nat,
    pub player_count: nat,
    pub last_token_taken_by: Option<nat>,
}

impl Position {
    /// The position in which a game of `token_count` tokens and `player_count`
    /// players starts.
    pub open spec fn initial(token_count: nat, player_count: nat) -> Position {
        Position {
            tokens: Seq::new(token_count, |i: int| TokenState::TokenPresent),
            current_player: 0,
            player_count,
            last_token_taken_by: None,
        }
    }

    /// No token is left on the table.
    pub open spec fn all_taken(self) -> bool {
        forall|i: int| 0 <= i < self.tokens.len() ==> self.tokens[i] == TokenState::TokenMissing
    }

    /// The positions of the tokens that have been taken.
    pub open spec fn missing(self) -> Set<usize> {
        Set::new(
            |i: usize| i < self.tokens.len() && self.tokens[i as int] == TokenState::TokenMissing,
        )
    }

    /// What every position of a game satisfies: there is at least one player,
    /// it is the turn of one of them, and a winner is recorded only when no
    /// token is left.
    pub open spec fn wf(self) -> bool {
        &&& self.player_count >= 1
        &&& self.current_player < self.player_count
        &&& self.last_token_taken_by is Some ==> self.all_taken()
    }

    /// The reason for which the move `indices` is refused in this position,
    /// if it is. The tests are made in a fixed order and the first that fails
    /// decides.
    pub open spec fn rejection(self, indices: Set<usize>) -> Option<NimError> {
        if self.last_token_taken_by is Some {
            Some(NimError::GameAlreadyOver)
        } else if indices.len() == 0 {
            Some(NimError::NotEnoughtTokens)
        } else if indices.len() > 3 {
            Some(NimError::ToManyTokens)
        } else if exists|i: usize| indices.contains(i) && i >= self.tokens.len() {
            Some(NimError::TokenOutOfBounds)
        } else if exists|i: usize|
            indices.contains(i) && self.tokens[i as int] == TokenState::TokenMissing {
            Some(NimError::TokenAlreadyMissing)
        } else {
            None
        }
    }

    /// The tokens after those at `indices` have been taken.
    pub open spec fn take(self, indices: Set<usize>) -> Seq<TokenState> {
        Seq::new(
            self.tokens.len(),
            |i: int|
                if indices.contains(i as usize) {
                    TokenState::TokenMissing
                } else {
                    self.tokens[i]
                },
        )
    }

    /// The position that a legal move `indices` leads to: the tokens are
    /// taken; if none is left the mover has won, otherwise the turn passes to
    /// the next player, and from the last player back to the first.
    pub open spec fn after(self, indices: Set<usize>) -> Position {
        let taken = Position { tokens: self.take(indices), ..self };
        if taken.all_taken() {
            Position { last_token_taken_by: Some(self.current_player), ..taken }
        } else {
            Position {
                current_player: (self.current_player + 1) % self.player_count,
                ..taken
            }
        }
    }

    /// One move: the new position, or the reason for which the move is
    /// refused.
    pub open spec fn apply_move(self, indices: Set<usize>) -> Result<Position, NimError> {
        match self.rejection(indices) {
            Some(error) => Err(error),
            None => Ok(self.after(indices)),
        }
    }
}

/// One game of Nim.
#[derive(Debug, PartialEq, Eq)]
pub struct Nim {
    tokens: Vec<TokenState>,
    current_player: u8,
    player_count: u8,
    last_token_taken_by: Option<u8>,
}

impl View for Nim {
    type V = Position;

    closed spec fn view(&self) -> Position {
        Position {
            tokens: self.tokens@,
            current_player: self.current_player as nat,
            player_count: self.player_count as nat,
            last_token_taken_by: match self.last_token_taken_by {
                Some(player) => Some(player as nat),
                None => None,
            },
        }
    }
}

/// Lists the members of `set`, each once, in the order in which the set
/// hands them out.
fn members_of(set: &HashSet<usize>) -> (members: Vec<usize>)
    ensures
        members@.to_set() == set@,
        members@.no_duplicates(),
        members@.len() == set@.len(),
{
    let mut members: Vec<usize> = Vec::new();
    for x in it: set.iter()
        invariant
            it.seq() == spec_hash_keys_iter(set).remaining(),
            members@ == it.seq().unref().take(it.index()),
    {
        members.push(*x);
        assert(it.seq().unref().take(it.index() + 1) == it.seq().unref().take(it.index()).push(*x));
    }
    proof {
        let all = spec_hash_keys_iter(set).remaining();
        assert(members@ == all.unref());
        assert forall|i: int, j: int|
            0 <= i < members@.len() && 0 <= j < members@.len() && i != j implies members@[i]
            != members@[j] by {
            assert(all[i] != all[j]);
        }
    }
    members
}

impl Clone for NimAction {
    fn clone(&self) -> (copy: Self)
        ensures
            copy@ == self@,
    {
        let members = members_of(&self.token_indices);
        NimAction::from_vec(members)
    }
}

impl Clone for Nim {
    fn clone(&self) -> (copy: Self)
        ensures
            copy@ == self@,
    {
        proof {
            use_type_invariant(self);
        }
        let tokens = self.tokens.clone();
        assert(tokens@ =~= self.tokens@);
        Nim {
            tokens,
            current_player: self.current_player,
            player_count: self.player_count,
            last_token_taken_by: self.last_token_taken_by,
        }
    }
}

impl Nim {
    #[verifier::type_invariant]
    spec fn well_formed(self) -> bool {
        self@.wf()
    }

    /// Starts a game with `token_count` tokens on the table and
    /// `player_count` players, of whom the first is to move.
    pub fn new(token_count: usize, player_count: u8) -> (game: Self)
        requires
            player_count >= 1,
        ensures
            game@ == Position::initial(token_count as nat, player_count as nat),
            game@.wf(),
    {
        let tokens = vec![TokenState::TokenPresent; token_count];
        assert(tokens@ =~= Position::initial(token_count as nat, player_count as nat).tokens);
        Nim { tokens, current_player: 0, player_count, last_token_taken_by: None }
    }

    /// The player who took the last token, once the game is over.
    pub fn last_token_taken_by(&self) -> (winner: Option<u8>)
        ensures
            self@.wf(),
            match winner {
                Some(player) => self@.last_token_taken_by == Some(player as nat),
                None => self@.last_token_taken_by is None,
            },
    {
        proof {
            use_type_invariant(self);
        }
        self.last_token_taken_by
    }

    /// The player whose turn it is; once the game is over, the winner.
    pub fn current_player(&self) -> (player: u8)
        ensures
            self@.wf(),
            player == self@.current_player,
    {
        proof {
            use_type_invariant(self);
        }
        self.current_player
    }

    /// How many players take turns.
    pub fn player_count(&self) -> (count: u8)
        ensures
            self@.wf(),
            count == self@.player_count,
    {
        proof {
            use_type_invariant(self);
        }
        self.player_count
    }

    /// The state of every token, by position.
    pub fn tokens(&self) -> (tokens: &Vec<TokenState>)
        ensures
            self@.wf(),
            tokens@ == self@.tokens,
    {
        proof {
            use_type_invariant(self);
        }
        &self.tokens
    }

    /// Lets the player whose turn it is take the tokens of `action`. A move
    /// that the rules refuse leaves the game as it was.
    #[verifier::loop_isolation(false)]
    pub fn execute(&mut self, action: &NimAction) -> (result: Result<(), NimError>)
        ensures
            old(self)@.wf(),
            final(self)@.wf(),
            match old(self)@.apply_move(action@) {
                Ok(position) => result is Ok && final(self)@ == position,
                Err(error) => result == Err::<(), NimError>(error) && final(self)@ == old(self)@,
            },
    {
        proof {
            use_type_invariant(&*self);
        }
        if self.last_token_taken_by.is_some() {
            return Err(NimError::GameAlreadyOver);
        }
        if action.token_indices.is_empty() {
            assert(action@.len() == 0);
            return Err(NimError::NotEnoughtTokens);
        }
        if action.token_indices.len() > 3 {
            return Err(NimError::ToManyTokens);
        }
        let indices = members_of(&action.token_indices);
        let token_count = self.tokens.len();
        let mut k: usize = 0;
        while k < indices.len()
            invariant
                k <= indices.len(),
                forall|j: int| 0 <= j < k ==> indices@[j] < token_count,
            decreases indices.len() - k,
        {
            if indices[k] >= token_count {
                assert(action@.contains(indices@[k as int]));
                return Err(NimError::TokenOutOfBounds);
            }
            k += 1;
        }
        assert forall|i: usize| action@.contains(i) implies i < token_count by {
            let j = choose|j: int| 0 <= j < indices@.len() && indices@[j] == i;
        }
        k = 0;
        while k < indices.len()
            invariant
                k <= indices.len(),
                token_count == self.tokens.len(),
                forall|j: int| 0 <= j < indices.len() ==> indices@[j] < token_count,
                forall|j: int|
                    0 <= j < k ==> self.tokens@[indices@[j] as int] == TokenState::TokenPresent,
            decreases indices.len() - k,
        {
            if self.tokens[indices[k]] == TokenState::TokenMissing {
                assert(action@.contains(indices@[k as int]));
                return Err(NimError::TokenAlreadyMissing);
            }
            k += 1;
        }
        assert forall|i: usize| action@.contains(i) implies self.tokens@[i as int]
            != TokenState::TokenMissing by {
            let j = choose|j: int| 0 <= j < indices@.len() && indices@[j] == i;
        }
        assert(old(self)@.rejection(action@) is None);
        let mut tokens: Vec<TokenState> = Vec::new();
        std::mem::swap(&mut tokens, &mut self.tokens);
        k = 0;
        while k < indices.len()
            invariant
                k <= indices.len(),
                token_count == tokens.len(),
                forall|j: int| 0 <= j < indices.len() ==> indices@[j] < token_count,
                tokens@ == old(self)@.take(indices@.take(k as int).to_set()),
            decreases indices.len() - k,
        {
            tokens.set(indices[k], TokenState::TokenMissing);
            proof {
                lemma_take_one_more(indices@, k as int);
                assert(tokens@ =~= old(self)@.take(indices@.take(k + 1).to_set()));
            }
            k += 1;
        }
        assert(indices@.take(k as int) == indices@);
        assert(tokens@ == old(self)@.take(action@));
        let mut all_missing = true;
        k = 0;
        while k < tokens.len()
            invariant
                k <= tokens.len(),
                all_missing <==> forall|j: int|
                    0 <= j < k ==> tokens@[j] == TokenState::TokenMissing,
            decreases tokens.len() - k,
        {
            if tokens[k] != TokenState::TokenMissing {
                all_missing = false;
            }
            k += 1;
        }
        self.tokens = tokens;
        proof {
            let taken = Position { tokens: old(self)@.take(action@), ..old(self)@ };
            assert(all_missing == taken.all_taken());
            if self.current_player + 1 == self.player_count {
                lemma_mod_self_0(self.player_count as int);
            } else {
                lemma_small_mod((self.current_player + 1) as nat, self.player_count as nat);
            }
        }
        if all_missing {
            self.last_token_taken_by = Some(self.current_player);
        } else {
            let next_player = if self.current_player + 1 == self.player_count {
                0
            } else {
                self.current_player + 1
            };
            self.current_player = next_player;
        }
        Ok(())
    }
}

} // verus!
