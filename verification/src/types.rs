//! Records that keep a row's id apart from its data.

use vstd::prelude::*;

verus! {

/// A game as it is stored: who owns it, if anyone, and its description.
#[derive(Debug, PartialEq, Eq)]
pub struct GameHeader {
    pub owner: Option<i64>,
    pub description: String,
}

impl Clone for GameHeader {
    fn clone(&self) -> (copy: Self)
        ensures
            copy.owner == self.owner,
            copy.description@ == self.description@,
    {
        GameHeader { owner: self.owner, description: self.description.clone() }
    }
}

/// A record together with the id of its row.
#[derive(Clone, Debug, PartialEq, Eq)]
pub struct WithID<T> {
    pub id: i64,
    pub data: T,
}

} // verus!
