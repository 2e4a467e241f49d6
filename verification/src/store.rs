//! Users, games and memberships as plain values: what a store holds, what
//! each request makes of it, and what every store satisfies.

use crate::dto::{GameHeader, GameHeaderView, MemberRole, MemberView, UserInfoView};
use vstd::prelude::*;

verus! {

/// Why a request to change a game or its members was turned down.
#[derive(Debug, Copy, Clone, PartialEq, Eq, Structural)]
pub enum MembershipError {
    /// The acting user is known but takes no part in the game.
    NotAuthorized,
    /// No user goes by the acting user's name.
    NoSuchMember,
    /// The store cannot number another game.
    StorageFull,
}

/// A user as the store keeps them: id, name and the hash of their password.
#[derive(Debug, PartialEq, Eq)]
pub struct UserRecord {
    pub id: i64,
    pub username: String,
    pub password: String,
}

/// A [`UserRecord`] as a plain value.
pub struct UserRecordView {
    pub id: i64,
    pub username: Seq<char>,
    pub password: Seq<char>,
}

impl View for UserRecord {
    type V = UserRecordView;

    open spec fn view(&self) -> UserRecordView {
        UserRecordView { id: self.id, username: self.username@, password: self.password@ }
    }
}

/// The users of `users`, each as a plain value, in the same order.
pub open spec fn user_views(users: Seq<UserRecord>) -> Seq<UserRecordView> {
    Seq::new(users.len(), |i: int| users[i]@)
}

/// The games of `games`, each as a plain value, in the same order.
pub open spec fn game_views(games: Seq<GameHeader>) -> Seq<GameHeaderView> {
    Seq::new(games.len(), |i: int| games[i]@)
}

/// No two entries of the roster are for the same user.
pub open spec fn distinct_members(members: Seq<MemberView>) -> bool {
    forall|i: int, j: int|
        0 <= i < j < members.len() ==> (#[trigger] members[i]).id != (#[trigger] members[j]).id
}

/// The roster has an entry for the user.
pub open spec fn has_member(members: Seq<MemberView>, user_id: i64) -> bool {
    exists|i: int| 0 <= i < members.len() && (#[trigger] members[i]).id == user_id
}

/// The roster's entry for the user, if it has one.
pub open spec fn member_of(members: Seq<MemberView>, user_id: i64) -> Option<MemberView> {
    if has_member(members, user_id) {
        Some(
            members[choose|i: int| 0 <= i < members.len() && (#[trigger] members[i]).id == user_id],
        )
    } else {
        None
    }
}

/// The roster after the entry for `info.id`, if there is one, has taken the
/// role and the acceptance of `info`.
pub open spec fn roster_with_info(members: Seq<MemberView>, info: MemberView) -> Seq<MemberView> {
    Seq::new(
        members.len(),
        |i: int|
            if members[i].id == info.id {
                MemberView { role: info.role, accepted: info.accepted, ..members[i] }
            } else {
                members[i]
            },
    )
}

/// A [`Store`] as a plain value: the users and the games, in the order in
/// which they were added.
pub struct StoreView {
    pub users: Seq<UserRecordView>,
    pub games: Seq<GameHeaderView>,
}

impl StoreView {
    /// What holds of every store: no two users share an id or a name, no two
    /// games share an id, and no game has two entries for one user.
    pub open spec fn wf(self) -> bool {
        &&& forall|i: int, j: int|
            0 <= i < j < self.users.len() ==> (#[trigger] self.users[i]).id != (
            #[trigger] self.users[j]).id
        &&& forall|i: int, j: int|
            0 <= i < j < self.users.len() ==> (#[trigger] self.users[i]).username != (
            #[trigger] self.users[j]).username
        &&& forall|i: int, j: int|
            0 <= i < j < self.games.len() ==> (#[trigger] self.games[i]).id != (
            #[trigger] self.games[j]).id
        &&& forall|i: int|
            0 <= i < self.games.len() ==> distinct_members((#[trigger] self.games[i]).members)
    }

    /// Neither the id nor the name of `user` is taken.
    pub open spec fn has_room_for_user(self, user: UserRecordView) -> bool {
        forall|i: int|
            0 <= i < self.users.len() ==> (#[trigger] self.users[i]).id != user.id
                && self.users[i].username != user.username
    }

    /// Some user goes by this name.
    pub open spec fn has_user(self, username: Seq<char>) -> bool {
        exists|i: int| 0 <= i < self.users.len() && (#[trigger] self.users[i]).username == username
    }

    /// The user who goes by this name, if there is one.
    pub open spec fn user(self, username: Seq<char>) -> Option<UserRecordView> {
        if self.has_user(username) {
            Some(
                self.users[choose|i: int|
                    0 <= i < self.users.len() && (#[trigger] self.users[i]).username == username],
            )
        } else {
            None
        }
    }

    /// The id of the user who goes by this name, if there is one.
    pub open spec fn user_id(self, username: Seq<char>) -> Option<i64> {
        match self.user(username) {
            Some(user) => Some(user.id),
            None => None,
        }
    }

    /// A game has this id.
    pub open spec fn has_game(self, game_id: i64) -> bool {
        exists|i: int| 0 <= i < self.games.len() && (#[trigger] self.games[i]).id == game_id
    }

    /// A place at which the game with this id stands, if there is one.
    pub open spec fn game_place(self, game_id: i64) -> int {
        choose|i: int| 0 <= i < self.games.len() && (#[trigger] self.games[i]).id == game_id
    }

    /// The game with this id, if there is one.
    pub open spec fn game(self, game_id: i64) -> Option<GameHeaderView> {
        if self.has_game(game_id) {
            Some(self.games[self.game_place(game_id)])
        } else {
            None
        }
    }

    /// The members of the game with this id; none if there is no such game.
    pub open spec fn roster(self, game_id: i64) -> Seq<MemberView> {
        match self.game(game_id) {
            Some(game) => game.members,
            None => Seq::empty(),
        }
    }

    /// The entry of a user in the roster of a game, if there is one.
    pub open spec fn member(self, game_id: i64, user_id: i64) -> Option<MemberView> {
        member_of(self.roster(game_id), user_id)
    }

    /// The games in which the user of this name takes part, in the store's
    /// order; none if nobody goes by the name.
    pub open spec fn games_of(self, username: Seq<char>) -> Seq<GameHeaderView> {
        match self.user_id(username) {
            Some(user_id) => self.games.filter(
                |game: GameHeaderView| has_member(game.members, user_id),
            ),
            None => Seq::empty(),
        }
    }

    /// What everybody may know of the users, in the store's order.
    pub open spec fn user_infos(self) -> Seq<UserInfoView> {
        Seq::new(
            self.users.len(),
            |i: int| UserInfoView { id: self.users[i].id, username: self.users[i].username },
        )
    }

    /// The store in which the game with this id, if there is one, has
    /// `roster` for its members.
    pub open spec fn with_roster(self, game_id: i64, roster: Seq<MemberView>) -> StoreView {
        StoreView {
            games: Seq::new(
                self.games.len(),
                |i: int|
                    if self.games[i].id == game_id {
                        GameHeaderView { members: roster, ..self.games[i] }
                    } else {
                        self.games[i]
                    },
            ),
            ..self
        }
    }

    /// The store in which the game with this id, if there is one, has
    /// `description` for its description.
    pub open spec fn with_description(self, game_id: i64, description: Seq<char>) -> StoreView {
        StoreView {
            games: Seq::new(
                self.games.len(),
                |i: int|
                    if self.games[i].id == game_id {
                        GameHeaderView { description, ..self.games[i] }
                    } else {
                        self.games[i]
                    },
            ),
            ..self
        }
    }
}

/// In a roster without repeated users, the entry found at a place is the
/// entry of its user.
pub proof fn lemma_member_at(members: Seq<MemberView>, i: int)
    requires
        distinct_members(members),
        0 <= i < members.len(),
    ensures
        has_member(members, members[i].id),
        member_of(members, members[i].id) == Some(members[i]),
{
    let user_id = members[i].id;
    assert(has_member(members, user_id));
    let c = choose|c: int| 0 <= c < members.len() && (#[trigger] members[c]).id == user_id;
    if c != i {
        if c < i {
            assert(members[c].id != members[i].id);
        } else {
            assert(members[i].id != members[c].id);
        }
    }
}

/// The largest id among the games, and 0 if that is larger or there is no
/// game.
pub open spec fn highest_game_id(games: Seq<GameHeaderView>) -> int
    decreases games.len(),
{
    if games.len() == 0 {
        0
    } else {
        let rest = highest_game_id(games.drop_last());
        if games.last().id > rest {
            games.last().id as int
        } else {
            rest
        }
    }
}

impl StoreView {
    /// The game that `create_game` adds for this owner: it is numbered one
    /// above the highest id in use, and its only member is the owner, as
    /// white player, who has accepted.
    pub open spec fn created_game(
        self,
        owner: UserRecordView,
        description: Seq<char>,
    ) -> GameHeaderView {
        GameHeaderView {
            id: (highest_game_id(self.games) + 1) as i64,
            description,
            members: seq![
                MemberView {
                    id: owner.id,
                    username: owner.username,
                    role: MemberRole::WhitePlayer,
                    accepted: true,
                },
            ],
        }
    }

    /// Creating a game: the store with the new game added behind the others,
    /// or why none was created. The owner must be a known user, and an id
    /// must be left for the game.
    pub open spec fn create_game(self, username: Seq<char>, description: Seq<char>) -> Result<
        StoreView,
        MembershipError,
    > {
        match self.user(username) {
            None => Err(MembershipError::NoSuchMember),
            Some(owner) => if highest_game_id(self.games) >= i64::MAX {
                Err(MembershipError::StorageFull)
            } else {
                Ok(
                    StoreView {
                        games: self.games.push(self.created_game(owner, description)),
                        ..self
                    },
                )
            },
        }
    }

    /// Whether the user of this name may change the game: the error if not.
    pub open spec fn refusal(self, username: Seq<char>, game_id: i64) -> Option<MembershipError> {
        match self.user_id(username) {
            None => Some(MembershipError::NoSuchMember),
            Some(user_id) => if self.member(game_id, user_id) is None {
                Some(MembershipError::NotAuthorized)
            } else {
                None
            },
        }
    }

    /// Changing a game's description: the store after the change, or why the
    /// request was turned down. Only a member of the game may change it.
    pub open spec fn update_description(
        self,
        username: Seq<char>,
        game_id: i64,
        description: Seq<char>,
    ) -> Result<StoreView, MembershipError> {
        match self.refusal(username, game_id) {
            Some(error) => Err(error),
            None => Ok(self.with_description(game_id, description)),
        }
    }

    /// Changing a game's members: the store after the change, or why the
    /// request was turned down. Only a member of the game may ask. For a user
    /// who is in the roster already, the entry takes the proposed role and
    /// keeps the rest. For any other user a new entry is added behind the
    /// others, as proposed but not accepted.
    pub open spec fn update_member(
        self,
        username: Seq<char>,
        game_id: i64,
        new_member: MemberView,
    ) -> Result<StoreView, MembershipError> {
        match self.refusal(username, game_id) {
            Some(error) => Err(error),
            None => match self.member(game_id, new_member.id) {
                Some(existing) => Ok(
                    self.with_roster(
                        game_id,
                        roster_with_info(
                            self.roster(game_id),
                            MemberView { role: new_member.role, ..existing },
                        ),
                    ),
                ),
                None => Ok(
                    self.with_roster(
                        game_id,
                        self.roster(game_id).push(MemberView { accepted: false, ..new_member }),
                    ),
                ),
            },
        }
    }
}

impl StoreView {
    /// In a well-formed store, the game found at a place is the game of its
    /// id.
    pub proof fn lemma_game_at(self, i: int)
        requires
            self.wf(),
            0 <= i < self.games.len(),
        ensures
            self.has_game(self.games[i].id),
            self.game(self.games[i].id) == Some(self.games[i]),
    {
        let game_id = self.games[i].id;
        assert(self.has_game(game_id));
        let c = self.game_place(game_id);
        if c != i {
            if c < i {
                assert(self.games[c].id != self.games[i].id);
            } else {
                assert(self.games[i].id != self.games[c].id);
            }
        }
    }

    /// In a well-formed store, the user found at a place is the user of their
    /// name.
    pub proof fn lemma_user_at(self, i: int)
        requires
            self.wf(),
            0 <= i < self.users.len(),
        ensures
            self.has_user(self.users[i].username),
            self.user(self.users[i].username) == Some(self.users[i]),
    {
        let username = self.users[i].username;
        assert(self.has_user(username));
        let c = choose|c: int|
            0 <= c < self.users.len() && (#[trigger] self.users[c]).username == username;
        if c != i {
            if c < i {
                assert(self.users[c].username != self.users[i].username);
            } else {
                assert(self.users[i].username != self.users[c].username);
            }
        }
    }
}

/// Changing the role and acceptance of an entry keeps every entry's user.
pub proof fn lemma_roster_with_info_distinct(members: Seq<MemberView>, info: MemberView)
    requires
        distinct_members(members),
    ensures
        distinct_members(roster_with_info(members, info)),
        forall|user_id: i64|
            has_member(roster_with_info(members, info), user_id) == has_member(members, user_id),
{
    let changed = roster_with_info(members, info);
    assert forall|i: int, j: int| 0 <= i < j < changed.len() implies (#[trigger] changed[i]).id != (
        #[trigger] changed[j]).id by {
        assert(members[i].id != members[j].id);
    }
    assert forall|user_id: i64| has_member(changed, user_id) == has_member(members, user_id) by {
        if has_member(changed, user_id) {
            let i = choose|i: int| 0 <= i < changed.len() && (#[trigger] changed[i]).id == user_id;
            assert(members[i].id == user_id);
        }
        if has_member(members, user_id) {
            let i = choose|i: int| 0 <= i < members.len() && (#[trigger] members[i]).id == user_id;
            assert(changed[i].id == user_id);
        }
    }
}

/// An entry for a user who has none can be added behind the others without
/// any user getting two.
pub proof fn lemma_roster_push_distinct(members: Seq<MemberView>, member: MemberView)
    requires
        distinct_members(members),
        !has_member(members, member.id),
    ensures
        distinct_members(members.push(member)),
        member_of(members.push(member), member.id) == Some(member),
{
    let grown = members.push(member);
    assert forall|i: int, j: int| 0 <= i < j < grown.len() implies (#[trigger] grown[i]).id != (
        #[trigger] grown[j]).id by {
        if j < members.len() {
            assert(members[i].id != members[j].id);
        } else {
            assert(members[i].id != member.id);
        }
    }
    assert(grown[members.len() as int] == member);
    lemma_member_at(grown, members.len() as int);
}

/// No game has an id above the highest.
pub proof fn lemma_highest_game_id(games: Seq<GameHeaderView>, i: int)
    requires
        0 <= i < games.len(),
    ensures
        games[i].id <= highest_game_id(games),
        0 <= highest_game_id(games) <= i64::MAX,
    decreases games.len(),
{
    let rest = games.drop_last();
    if rest.len() == 0 {
        assert(highest_game_id(rest) == 0);
    } else if i < rest.len() {
        lemma_highest_game_id(rest, i);
    } else {
        lemma_highest_game_id(rest, 0);
    }
}

impl StoreView {
    /// Giving one game another roster without repeated users keeps the store
    /// well formed, changes that game's roster and no other.
    pub proof fn lemma_with_roster(self, game_id: i64, roster: Seq<MemberView>)
        requires
            self.wf(),
            distinct_members(roster),
        ensures
            self.with_roster(game_id, roster).wf(),
            self.has_game(game_id) ==> self.with_roster(game_id, roster).roster(game_id) == roster,
            forall|other: i64|
                other != game_id ==> self.with_roster(game_id, roster).game(other) == self.game(
                    other,
                ),
    {
        let next = self.with_roster(game_id, roster);
        assert(next.wf()) by {
            assert forall|i: int, j: int| 0 <= i < j < next.games.len() implies (
            #[trigger] next.games[i]).id != (#[trigger] next.games[j]).id by {
                assert(self.games[i].id != self.games[j].id);
            }
            assert forall|i: int| 0 <= i < next.games.len() implies distinct_members(
                (#[trigger] next.games[i]).members,
            ) by {
                assert(distinct_members(self.games[i].members));
            }
        }
        if self.has_game(game_id) {
            let i = self.game_place(game_id);
            assert(next.games[i].id == game_id);
            next.lemma_game_at(i);
        }
        assert forall|other: i64| other != game_id implies next.game(other) == self.game(other) by {
            if self.has_game(other) {
                let i = self.game_place(other);
                self.lemma_game_at(i);
                assert(next.games[i] == self.games[i]);
                next.lemma_game_at(i);
            } else if next.has_game(other) {
                let i = next.game_place(other);
                assert(self.games[i].id == other);
            }
        }
    }
}

} // verus!
