//! Users, games and memberships, kept in memory.
//!
//! A [`Store`] is a snapshot of what is known: the users, and the games with
//! the members of each. Its operations decide who may create, read or change
//! a game's members, and change the snapshot accordingly. Loading a snapshot
//! and writing it back is left to the caller.

use crate::dto::{
    clone_members, member_views, GameCreate, GameHeader, GameHeaderView, Member, MemberRole,
    SetupMessage, UserInfo,
};
use crate::password::{password_accepted, pbkdf2_check, pbkdf2_outcome};
use crate::store::{
    distinct_members, game_views, has_member, highest_game_id, lemma_highest_game_id,
    lemma_member_at, lemma_roster_push_distinct, lemma_roster_with_info_distinct,
    roster_with_info, user_views, MembershipError, StoreView, UserRecord,
};
use vstd::prelude::*;

verus! {

/// A snapshot of the users and of the games with their members.
#[derive(Debug, PartialEq, Eq)]
pub struct Store {
    users: Vec<UserRecord>,
    games: Vec<GameHeader>,
}

impl View for Store {
    type V = StoreView;

    closed spec fn view(&self) -> StoreView {
        StoreView { users: user_views(self.users@), games: game_views(self.games@) }
    }
}

/// The place of the first user of this name.
fn find_user(users: &Vec<UserRecord>, username: &String) -> (place: Option<usize>)
    ensures
        match place {
            Some(i) => i < users.len() && users@[i as int].username@ == username@,
            None => forall|j: int| 0 <= j < users.len() ==> users@[j].username@ != username@,
        },
{
    let mut i: usize = 0;
    while i < users.len()
        invariant
            i <= users.len(),
            forall|j: int| 0 <= j < i ==> users@[j].username@ != username@,
        decreases users.len() - i,
    {
        if users[i].username == *username {
            return Some(i);
        }
        i += 1;
    }
    None
}

/// The place of the first game with this id.
fn find_game(games: &Vec<GameHeader>, game_id: i64) -> (place: Option<usize>)
    ensures
        match place {
            Some(i) => i < games.len() && games@[i as int].id == game_id,
            None => forall|j: int| 0 <= j < games.len() ==> games@[j].id != game_id,
        },
{
    let mut i: usize = 0;
    while i < games.len()
        invariant
            i <= games.len(),
            forall|j: int| 0 <= j < i ==> games@[j].id != game_id,
        decreases games.len() - i,
    {
        if games[i].id == game_id {
            return Some(i);
        }
        i += 1;
    }
    None
}

/// The place of the first entry for this user.
fn find_member(members: &Vec<Member>, user_id: i64) -> (place: Option<usize>)
    ensures
        match place {
            Some(i) => i < members.len() && members@[i as int].id == user_id,
            None => forall|j: int| 0 <= j < members.len() ==> members@[j].id != user_id,
        },
{
    let mut i: usize = 0;
    while i < members.len()
        invariant
            i <= members.len(),
            forall|j: int| 0 <= j < i ==> members@[j].id != user_id,
        decreases members.len() - i,
    {
        if members[i].id == user_id {
            return Some(i);
        }
        i += 1;
    }
    None
}

impl Store {
    #[verifier::type_invariant]
    spec fn well_formed(self) -> bool {
        self@.wf()
    }

    /// A store without users and without games.
    pub fn new() -> (store: Store)
        ensures
            store@.users.len() == 0,
            store@.games.len() == 0,
            store@.wf(),
    {
        Store { users: Vec::new(), games: Vec::new() }
    }

    /// Adds a user behind the others, unless their id or their name is taken
    /// already; says whether the user was added.
    #[verifier::loop_isolation(false)]
    pub fn add_user(&mut self, user: UserRecord) -> (added: bool)
        ensures
            old(self)@.wf(),
            final(self)@.wf(),
            added == old(self)@.has_room_for_user(user@),
            final(self)@ == if added {
                StoreView { users: old(self)@.users.push(user@), ..old(self)@ }
            } else {
                old(self)@
            },
    {
        proof {
            use_type_invariant(&*self);
        }
        let mut i: usize = 0;
        while i < self.users.len()
            invariant
                i <= self.users.len(),
                *self == *old(self),
                forall|j: int|
                    0 <= j < i ==> (#[trigger] self@.users[j]).id != user.id
                        && self@.users[j].username != user.username@,
            decreases self.users.len() - i,
        {
            if self.users[i].id == user.id || self.users[i].username == user.username {
                assert(self@.users[i as int].id == user.id || self@.users[i as int].username
                    == user.username@);
                return false;
            }
            i += 1;
        }
        let mut users: Vec<UserRecord> = Vec::new();
        assert((StoreView { users: user_views(users@), games: self@.games }).wf());
        std::mem::swap(&mut users, &mut self.users);
        users.push(user);
        assert(user_views(users@) =~= old(self)@.users.push(user@));
        self.users = users;
        true
    }

    /// Adds a game with its members behind the others, unless its id is
    /// taken already or a user occurs twice among its members; says whether
    /// the game was added.
    pub fn add_game(&mut self, game: GameHeader) -> (added: bool)
        ensures
            old(self)@.wf(),
            final(self)@.wf(),
            added == (!old(self)@.has_game(game.id) && distinct_members(game@.members)),
            final(self)@ == if added {
                StoreView { games: old(self)@.games.push(game@), ..old(self)@ }
            } else {
                old(self)@
            },
    {
        proof {
            use_type_invariant(&*self);
        }
        match find_game(&self.games, game.id) {
            Some(i) => {
                assert(self@.games[i as int].id == game.id);
                return false;
            },
            None => {},
        }
        if !has_distinct_members(&game.members) {
            return false;
        }
        assert(!self@.has_game(game.id));
        let mut games: Vec<GameHeader> = Vec::new();
        assert((StoreView { users: self@.users, games: game_views(games@) }).wf());
        std::mem::swap(&mut games, &mut self.games);
        games.push(game);
        assert(game_views(games@) =~= old(self)@.games.push(game@));
        self.games = games;
        true
    }

    /// All games with their members, in the store's order.
    pub fn all_games(&self) -> (games: Vec<GameHeader>)
        ensures
            self@.wf(),
            game_views(games@) == self@.games,
    {
        proof {
            use_type_invariant(self);
        }
        let mut games: Vec<GameHeader> = Vec::new();
        let mut i: usize = 0;
        while i < self.games.len()
            invariant
                i <= self.games.len(),
                games@.len() == i,
                forall|j: int| 0 <= j < i ==> (#[trigger] games@[j])@ == self.games@[j]@,
            decreases self.games.len() - i,
        {
            games.push(self.games[i].clone());
            i += 1;
        }
        assert(game_views(games@) =~= self@.games);
        games
    }
}

/// Whether no user occurs twice among `members`.
fn has_distinct_members(members: &Vec<Member>) -> (distinct: bool)
    ensures
        distinct == distinct_members(member_views(members@)),
{
    let mut j: usize = 0;
    while j < members.len()
        invariant
            j <= members.len(),
            forall|a: int, b: int| 0 <= a < b < j ==> members@[a].id != members@[b].id,
        decreases members.len() - j,
    {
        let mut i: usize = 0;
        while i < j
            invariant
                i <= j < members.len(),
                forall|a: int| 0 <= a < i ==> members@[a].id != members@[j as int].id,
            decreases j - i,
        {
            if members[i].id == members[j].id {
                assert(member_views(members@)[i as int].id == member_views(members@)[j as int].id);
                return false;
            }
            i += 1;
        }
        j += 1;
    }
    assert forall|a: int, b: int| 0 <= a < b < members.len() implies (#[trigger] member_views(
        members@,
    )[a]).id != (#[trigger] member_views(members@)[b]).id by {
        assert(members@[a].id != members@[b].id);
    }
    true
}

/// The id of the user who goes by `username`, if there is one.
pub fn get_user_id_(username: &String, store: &Store) -> (user_id: Option<i64>)
    ensures
        store@.wf(),
        user_id == store@.user_id(username@),
{
    proof {
        use_type_invariant(store);
    }
    match find_user(&store.users, username) {
        Some(i) => {
            proof {
                store@.lemma_user_at(i as int);
            }
            Some(store.users[i].id)
        },
        None => None,
    }
}

/// What everybody may know of all users known to the store, in its order.
pub fn all_users(store: &Store) -> (users: Vec<UserInfo>)
    ensures
        store@.wf(),
        users@.len() == store@.users.len(),
        forall|i: int| 0 <= i < users@.len() ==> (#[trigger] users@[i])@ == store@.user_infos()[i],
{
    proof {
        use_type_invariant(store);
    }
    let mut users: Vec<UserInfo> = Vec::new();
    let mut i: usize = 0;
    while i < store.users.len()
        invariant
            i <= store.users.len(),
            users@.len() == i,
            forall|j: int| 0 <= j < i ==> (#[trigger] users@[j])@ == store@.user_infos()[j],
        decreases store.users.len() - i,
    {
        let user = &store.users[i];
        users.push(UserInfo { id: user.id, username: user.username.clone() });
        i += 1;
    }
    users
}

/// The game with this id, with its members; `None` if there is none.
pub fn game(game_id: i64, store: &Store) -> (found: Option<GameHeader>)
    ensures
        store@.wf(),
        match found {
            Some(game) => store@.game(game_id) == Some(game@),
            None => store@.game(game_id) is None,
        },
{
    proof {
        use_type_invariant(store);
    }
    match find_game(&store.games, game_id) {
        Some(i) => {
            proof {
                store@.lemma_game_at(i as int);
            }
            Some(store.games[i].clone())
        },
        None => None,
    }
}

/// The members of the game with this id, in the order in which they joined;
/// none if there is no such game.
pub fn members_by_game_(game: i64, store: &Store) -> (members: Vec<Member>)
    ensures
        store@.wf(),
        member_views(members@) == store@.roster(game),
{
    proof {
        use_type_invariant(store);
    }
    match find_game(&store.games, game) {
        Some(i) => {
            proof {
                store@.lemma_game_at(i as int);
            }
            clone_members(&store.games[i].members)
        },
        None => {
            let members: Vec<Member> = Vec::new();
            assert(member_views(members@) =~= store@.roster(game));
            members
        },
    }
}

/// The entry of the user `user_id` among the members of the game `game_id`;
/// `None` if there is no such game or the user takes no part in it.
pub fn member_info_(game_id: i64, user_id: i64, store: &Store) -> (info: Option<Member>)
    ensures
        store@.wf(),
        match info {
            Some(member) => store@.member(game_id, user_id) == Some(member@),
            None => store@.member(game_id, user_id) is None,
        },
{
    proof {
        use_type_invariant(store);
    }
    match find_game(&store.games, game_id) {
        Some(i) => {
            proof {
                store@.lemma_game_at(i as int);
            }
            let members = &store.games[i].members;
            match find_member(members, user_id) {
                Some(k) => {
                    proof {
                        lemma_member_at(member_views(members@), k as int);
                    }
                    Some(members[k].clone())
                },
                None => {
                    assert(!has_member(member_views(members@), user_id));
                    None
                },
            }
        },
        None => {
            assert(store@.roster(game_id).len() == 0);
            None
        },
    }
}

/// The games in which the user who goes by `username` takes part, each with
/// all its members, in the store's order; none if nobody goes by that name.
pub fn games_by_user(username: String, store: &Store) -> (games: Vec<GameHeader>)
    ensures
        store@.wf(),
        game_views(games@) == store@.games_of(username@),
{
    proof {
        use_type_invariant(store);
    }
    let mut games: Vec<GameHeader> = Vec::new();
    match get_user_id_(&username, store) {
        None => {
            assert(game_views(games@) =~= store@.games_of(username@));
        },
        Some(user_id) => {
            let ghost takes_part = |game: GameHeaderView| has_member(game.members, user_id);
            let mut i: usize = 0;
            assert(store@.games.take(0) =~= Seq::<GameHeaderView>::empty());
            assert(game_views(games@) =~= Seq::<GameHeaderView>::empty());
            assert(store@.games.take(0).filter(takes_part) =~= Seq::<GameHeaderView>::empty()) by {
                reveal(Seq::filter);
            }
            while i < store.games.len()
                invariant
                    i <= store.games.len(),
                    store@.games == game_views(store.games@),
                    takes_part == |game: GameHeaderView| has_member(game.members, user_id),
                    game_views(games@) == store@.games.take(i as int).filter(takes_part),
                decreases store.games.len() - i,
            {
                let candidate = &store.games[i];
                let place = find_member(&candidate.members, user_id);
                proof {
                    let sofar = store@.games.take(i as int);
                    assert(store@.games.take(i + 1) =~= sofar.push(candidate@));
                    sofar.lemma_filter_push(candidate@, takes_part);
                    if place is Some {
                        let k = place.unwrap() as int;
                        assert(member_views(candidate.members@)[k].id == user_id);
                    }
                    assert(takes_part(candidate@) == (place is Some));
                }
                if place.is_some() {
                    let ghost before = game_views(games@);
                    games.push(candidate.clone());
                    assert(game_views(games@) =~= before.push(candidate@));
                }
                i += 1;
            }
            assert(store@.games.take(i as int) =~= store@.games);
        },
    }
    games
}

/// Gives the game at place `i` the roster `members`.
fn set_roster(store: &mut Store, i: usize, members: Vec<Member>)
    requires
        i < old(store)@.games.len(),
        distinct_members(member_views(members@)),
    ensures
        final(store)@ == old(store)@.with_roster(
            old(store)@.games[i as int].id,
            member_views(members@),
        ),
        final(store)@.wf(),
{
    proof {
        use_type_invariant(&*store);
        old(store)@.lemma_with_roster(old(store)@.games[i as int].id, member_views(members@));
    }
    let ghost game_id = store@.games[i as int].id;
    let ghost roster = member_views(members@);
    let mut games: Vec<GameHeader> = Vec::new();
    std::mem::swap(&mut games, &mut store.games);
    let mut game = games.remove(i);
    game.members = members;
    games.insert(i, game);
    proof {
        let next = old(store)@.with_roster(game_id, roster);
        assert forall|j: int| 0 <= j < games@.len() implies (#[trigger] game_views(games@)[j])
            == next.games[j] by {
            if j != i {
                assert(old(store)@.games[j].id != old(store)@.games[i as int].id);
            }
        }
        assert(game_views(games@) =~= next.games);
    }
    store.games = games;
}

/// Gives the entry of the user `member_info.id` in the game `game_id` the
/// role and the acceptance of `member_info`. Neither the user nor the game of
/// an entry changes. Where there is no such entry nothing changes.
fn update_member_info_(game_id: i64, member_info: Member, store: &mut Store)
    ensures
        final(store)@ == old(store)@.with_roster(
            game_id,
            roster_with_info(old(store)@.roster(game_id), member_info@),
        ),
        final(store)@.wf(),
{
    proof {
        use_type_invariant(&*store);
    }
    match find_game(&store.games, game_id) {
        Some(i) => {
            let mut members = clone_members(&store.games[i].members);
            let ghost roster = member_views(members@);
            proof {
                store@.lemma_game_at(i as int);
                lemma_roster_with_info_distinct(roster, member_info@);
            }
            match find_member(&members, member_info.id) {
                Some(k) => {
                    let mut member = members.remove(k);
                    member.role = member_info.role;
                    member.accepted = member_info.accepted;
                    members.insert(k, member);
                    assert forall|j: int| 0 <= j < roster.len() implies (#[trigger] member_views(
                        members@,
                    )[j]) == roster_with_info(roster, member_info@)[j] by {
                        if j != k {
                            if j < k {
                                assert(roster[j].id != roster[k as int].id);
                            } else {
                                assert(roster[k as int].id != roster[j].id);
                            }
                        }
                    }
                },
                None => {},
            }
            assert(member_views(members@) =~= roster_with_info(roster, member_info@));
            set_roster(store, i, members);
        },
        None => {
            assert(!store@.has_game(game_id));
            assert(store@.with_roster(
                game_id,
                roster_with_info(store@.roster(game_id), member_info@),
            ).games =~= store@.games);
        },
    }
}

/// Adds `member_info` behind the members of the game `game_id`. The user
/// must not have an entry in that game yet. Where there is no such game
/// nothing changes.
fn insert_member_info_(game_id: i64, member_info: Member, store: &mut Store)
    requires
        old(store)@.member(game_id, member_info.id) is None,
    ensures
        final(store)@ == old(store)@.with_roster(
            game_id,
            old(store)@.roster(game_id).push(member_info@),
        ),
        final(store)@.wf(),
{
    proof {
        use_type_invariant(&*store);
    }
    match find_game(&store.games, game_id) {
        Some(i) => {
            let mut members = clone_members(&store.games[i].members);
            let ghost roster = member_views(members@);
            proof {
                store@.lemma_game_at(i as int);
                lemma_roster_push_distinct(roster, member_info@);
            }
            members.push(member_info);
            assert(member_views(members@) =~= roster.push(member_info@));
            set_roster(store, i, members);
        },
        None => {
            assert(!store@.has_game(game_id));
            assert(store@.with_roster(game_id, store@.roster(game_id).push(member_info@)).games
                =~= store@.games);
        },
    }
}

/// Lets the user who goes by `username` change the members of the game
/// `game_id`. Only a member of the game may do so: a name that nobody goes
/// by gives `NoSuchMember`, a user who takes no part in the game gives
/// `NotAuthorized`, and in both cases nothing changes.
///
/// If the user `new_member.id` is in the game already, their entry takes the
/// role of `new_member`; whether they have accepted is left as it was. If
/// not, they are invited: an entry is added as `new_member` says, except that
/// it is not accepted, whatever `new_member` claims.
pub fn update_member(
    username: String,
    game_id: i64,
    new_member: Member,
    store: &mut Store,
) -> (result: Result<(), MembershipError>)
    ensures
        old(store)@.wf(),
        final(store)@.wf(),
        match old(store)@.update_member(username@, game_id, new_member@) {
            Ok(next) => result is Ok && final(store)@ == next,
            Err(error) => result == Err::<(), MembershipError>(error)
                && final(store)@ == old(store)@,
        },
{
    proof {
        use_type_invariant(&*store);
    }
    let mut new_member = new_member;
    match get_user_id_(&username, store) {
        Some(user_id) => {
            if member_info_(game_id, user_id, store).is_none() {
                return Err(MembershipError::NotAuthorized);
            }
            match member_info_(game_id, new_member.id, store) {
                Some(member_info) => {
                    let mut member_info = member_info;
                    member_info.role = new_member.role;
                    update_member_info_(game_id, member_info, store);
                },
                None => {
                    new_member.accepted = false;
                    insert_member_info_(game_id, new_member, store);
                },
            }
            Ok(())
        },
        None => Err(MembershipError::NoSuchMember),
    }
}

/// Lets the user who goes by `username` give the game `game_id` a new
/// description. Only a member of the game may do so: a name that nobody goes
/// by gives `NoSuchMember`, a user who takes no part in the game gives
/// `NotAuthorized`, and in both cases nothing changes.
pub fn update_description(
    username: String,
    game_id: i64,
    new_description: String,
    store: &mut Store,
) -> (result: Result<(), MembershipError>)
    ensures
        old(store)@.wf(),
        final(store)@.wf(),
        match old(store)@.update_description(username@, game_id, new_description@) {
            Ok(next) => result is Ok && final(store)@ == next,
            Err(error) => result == Err::<(), MembershipError>(error)
                && final(store)@ == old(store)@,
        },
{
    proof {
        use_type_invariant(&*store);
    }
    let user_id = match get_user_id_(&username, store) {
        Some(user_id) => user_id,
        None => {
            return Err(MembershipError::NoSuchMember);
        },
    };
    let members = members_by_game_(game_id, store);
    match find_member(&members, user_id) {
        Some(k) => {
            proof {
                assert(member_views(members@)[k as int].id == user_id);
            }
        },
        None => {
            assert(!has_member(member_views(members@), user_id));
            return Err(MembershipError::NotAuthorized);
        },
    }
    match find_game(&store.games, game_id) {
        Some(i) => {
            let mut games: Vec<GameHeader> = Vec::new();
            std::mem::swap(&mut games, &mut store.games);
            let mut game = games.remove(i);
            game.description = new_description;
            games.insert(i, game);
            proof {
                let next = old(store)@.with_description(game_id, new_description@);
                assert forall|j: int| 0 <= j < games@.len() implies (#[trigger] game_views(
                    games@,
                )[j]) == next.games[j] by {
                    if j != i {
                        if j < i {
                            assert(old(store)@.games[j].id != old(store)@.games[i as int].id);
                        } else {
                            assert(old(store)@.games[i as int].id != old(store)@.games[j].id);
                        }
                    }
                }
                assert(game_views(games@) =~= next.games);
                assert(next.wf()) by {
                    assert forall|a: int, b: int| 0 <= a < b < next.games.len() implies (
                    #[trigger] next.games[a]).id != (#[trigger] next.games[b]).id by {
                        assert(old(store)@.games[a].id != old(store)@.games[b].id);
                    }
                    assert forall|a: int| 0 <= a < next.games.len() implies distinct_members(
                        (#[trigger] next.games[a]).members,
                    ) by {
                        assert(distinct_members(old(store)@.games[a].members));
                    }
                }
            }
            store.games = games;
        },
        None => {
            assert(!store@.has_game(game_id));
            assert(store@.roster(game_id).len() == 0);
        },
    }
    Ok(())
}

/// Serves a request of the user who goes by `username` to change the game
/// `game_id` while it is being set up: a new description is handled as
/// [`update_description`] does, a proposed member as [`update_member`] does.
pub fn setup_game(
    username: String,
    game_id: i64,
    message: SetupMessage,
    store: &mut Store,
) -> (result: Result<(), MembershipError>)
    ensures
        old(store)@.wf(),
        final(store)@.wf(),
        match (match message {
            SetupMessage::SetDescription(description) => old(store)@.update_description(
                username@,
                game_id,
                description@,
            ),
            SetupMessage::UpdateMember(member) => old(store)@.update_member(
                username@,
                game_id,
                member@,
            ),
        }) {
            Ok(next) => result is Ok && final(store)@ == next,
            Err(error) => result == Err::<(), MembershipError>(error)
                && final(store)@ == old(store)@,
        },
{
    match message {
        SetupMessage::SetDescription(description) => update_description(
            username,
            game_id,
            description,
            store,
        ),
        SetupMessage::UpdateMember(member) => update_member(username, game_id, member, store),
    }
}

/// Creates a game for the user who goes by `username`, who becomes its
/// first member: white player, and accepted without being asked. The game is
/// numbered one above the highest id in use and is returned as it was
/// stored. A name that nobody goes by gives `NoSuchMember`; when no id is
/// left, `StorageFull`; in both cases nothing changes.
pub fn create_game(username: String, game: GameCreate, store: &mut Store) -> (result: Result<
    GameHeader,
    MembershipError,
>)
    ensures
        old(store)@.wf(),
        final(store)@.wf(),
        match old(store)@.create_game(username@, game.description@) {
            Ok(next) => result matches Ok(header) && header@ == next.games.last()
                && final(store)@ == next && next.game(header.id) == Some(header@),
            Err(error) => result matches Err(e) && e == error && final(store)@ == old(store)@,
        },
{
    proof {
        use_type_invariant(&*store);
    }
    let owner = match find_user(&store.users, &username) {
        Some(i) => {
            proof {
                store@.lemma_user_at(i as int);
            }
            &store.users[i]
        },
        None => {
            return Err(MembershipError::NoSuchMember);
        },
    };
    let mut highest: i64 = 0;
    let mut i: usize = 0;
    while i < store.games.len()
        invariant
            i <= store.games.len(),
            store@.games == game_views(store.games@),
            highest == highest_game_id(store@.games.take(i as int)),
        decreases store.games.len() - i,
    {
        assert(store@.games.take(i + 1).drop_last() =~= store@.games.take(i as int));
        if store.games[i].id > highest {
            highest = store.games[i].id;
        }
        i += 1;
    }
    assert(store@.games.take(i as int) =~= store@.games);
    if highest == i64::MAX {
        return Err(MembershipError::StorageFull);
    }
    let header = GameHeader {
        id: highest + 1,
        description: game.description,
        members: vec![
            Member {
                id: owner.id,
                username: owner.username.clone(),
                role: MemberRole::WhitePlayer,
                accepted: true,
            },
        ],
    };
    let stored = header.clone();
    let mut games: Vec<GameHeader> = Vec::new();
    std::mem::swap(&mut games, &mut store.games);
    games.push(stored);
    proof {
        let next = old(store)@.create_game(username@, game.description@)->Ok_0;
        assert(header@.members =~= next.games.last().members);
        assert(game_views(games@) =~= next.games);
        assert(next.wf()) by {
            assert forall|a: int, b: int| 0 <= a < b < next.games.len() implies (
            #[trigger] next.games[a]).id != (#[trigger] next.games[b]).id by {
                if b < old(store)@.games.len() {
                    assert(old(store)@.games[a].id != old(store)@.games[b].id);
                } else {
                    lemma_highest_game_id(old(store)@.games, a);
                }
            }
            assert forall|a: int| 0 <= a < next.games.len() implies distinct_members(
                (#[trigger] next.games[a]).members,
            ) by {
                if a < old(store)@.games.len() {
                    assert(distinct_members(old(store)@.games[a].members));
                }
            }
        }
        next.lemma_game_at(next.games.len() - 1);
    }
    store.games = games;
    Ok(header)
}

/// Whether `password` is the password of the user who goes by `username`:
/// the user must be known, and the password must pass the check against the
/// hash that the store keeps for them.
pub fn check_password(username: String, password: String, store: &Store) -> (accepted: bool)
    ensures
        store@.wf(),
        accepted == (match store@.user(username@) {
            Some(user) => pbkdf2_outcome(password@, user.password) is Ok,
            None => false,
        }),
{
    proof {
        use_type_invariant(store);
    }
    match find_user(&store.users, &username) {
        Some(i) => {
            proof {
                store@.lemma_user_at(i as int);
            }
            password_accepted(pbkdf2_check(password.as_str(), store.users[i].password.as_str()))
        },
        None => false,
    }
}

} // verus!
