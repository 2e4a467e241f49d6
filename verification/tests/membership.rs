use nim_server::db::{
    all_users, check_password, create_game, game, games_by_user, get_user_id_, members_by_game_,
    member_info_, setup_game, update_description, update_member, Store,
};
use nim_server::store::{MembershipError, UserRecord};
use nim_server::dto::{
    ColumnValue, GameCreate, GameHeader, Member, MemberRole, RoleDecodeError, SetupMessage,
    UserInfo,
};

const HASH_OF_CORRECT_HORSE: &str =
    "$rpbkdf2$0$AAAD6A==$AAECAwQFBgcICQoLDA0ODw==$yRTMTwbMbo9G0VfjobWqerzuuxe7BETNTErBbKKumGQ=$";

fn user(id: i64, name: &str) -> UserRecord {
    UserRecord { id, username: name.to_string(), password: HASH_OF_CORRECT_HORSE.to_string() }
}

fn store_with_users() -> Store {
    let mut store = Store::new();
    assert!(store.add_user(user(1, "alice")));
    assert!(store.add_user(user(2, "bob")));
    assert!(store.add_user(user(3, "carol")));
    store
}

fn member(id: i64, name: &str, role: MemberRole, accepted: bool) -> Member {
    Member { id, username: name.to_string(), role, accepted }
}

fn new_game(store: &mut Store, owner: &str, description: &str) -> GameHeader {
    create_game(owner.to_string(), GameCreate { description: description.to_string() }, store)
        .unwrap()
}

#[test]
fn owner_is_the_only_member_and_has_accepted() {
    let mut store = store_with_users();
    let header = new_game(&mut store, "alice", "first game");
    assert_eq!(header.id, 1);
    assert_eq!(header.description, "first game");
    assert_eq!(header.members, vec![member(1, "alice", MemberRole::WhitePlayer, true)]);
    assert_eq!(game(header.id, &store), Some(header));
}

#[test]
fn games_are_numbered_above_the_highest_id() {
    let mut store = store_with_users();
    assert!(store.add_game(GameHeader { id: 41, description: "old".to_string(), members: vec![] }));
    let header = new_game(&mut store, "bob", "new");
    assert_eq!(header.id, 42);
    let next = new_game(&mut store, "bob", "newer");
    assert_eq!(next.id, 43);
}

#[test]
fn unknown_owner_creates_nothing() {
    let mut store = store_with_users();
    let before = store.all_games();
    let result =
        create_game("mallory".to_string(), GameCreate { description: "x".to_string() }, &mut store);
    assert_eq!(result, Err(MembershipError::NoSuchMember));
    assert_eq!(store.all_games(), before);
}

#[test]
fn no_id_left_creates_nothing() {
    let mut store = store_with_users();
    assert!(store.add_game(GameHeader {
        id: i64::MAX,
        description: "last".to_string(),
        members: vec![],
    }));
    let result =
        create_game("alice".to_string(), GameCreate { description: "x".to_string() }, &mut store);
    assert_eq!(result, Err(MembershipError::StorageFull));
    assert_eq!(store.all_games().len(), 1);
}

#[test]
fn stranger_cannot_change_a_role() {
    let mut store = store_with_users();
    let header = new_game(&mut store, "alice", "g");
    let before = store.all_games();
    let result = update_member(
        "bob".to_string(),
        header.id,
        member(1, "alice", MemberRole::Watcher, true),
        &mut store,
    );
    assert_eq!(result, Err(MembershipError::NotAuthorized));
    assert_eq!(store.all_games(), before);
    assert_eq!(
        member_info_(header.id, 1, &store),
        Some(member(1, "alice", MemberRole::WhitePlayer, true))
    );
}

#[test]
fn unknown_user_cannot_change_members() {
    let mut store = store_with_users();
    let header = new_game(&mut store, "alice", "g");
    let before = store.all_games();
    let result = update_member(
        "mallory".to_string(),
        header.id,
        member(2, "bob", MemberRole::BlackPlayer, true),
        &mut store,
    );
    assert_eq!(result, Err(MembershipError::NoSuchMember));
    assert_eq!(store.all_games(), before);
}

#[test]
fn member_of_another_game_is_not_authorized() {
    let mut store = store_with_users();
    let first = new_game(&mut store, "alice", "one");
    let second = new_game(&mut store, "bob", "two");
    let result = update_member(
        "bob".to_string(),
        first.id,
        member(3, "carol", MemberRole::Watcher, false),
        &mut store,
    );
    assert_eq!(result, Err(MembershipError::NotAuthorized));
    assert_eq!(members_by_game_(first.id, &store).len(), 1);
    assert_eq!(members_by_game_(second.id, &store).len(), 1);
}

#[test]
fn request_for_a_game_that_does_not_exist_is_not_authorized() {
    let mut store = store_with_users();
    let result = update_member(
        "alice".to_string(),
        77,
        member(2, "bob", MemberRole::Watcher, false),
        &mut store,
    );
    assert_eq!(result, Err(MembershipError::NotAuthorized));
    assert_eq!(store.all_games(), vec![]);
}

#[test]
fn invitation_is_never_accepted_by_the_inviter() {
    let mut store = store_with_users();
    let header = new_game(&mut store, "alice", "g");
    let result = update_member(
        "alice".to_string(),
        header.id,
        member(3, "carol", MemberRole::Watcher, true),
        &mut store,
    );
    assert_eq!(result, Ok(()));
    assert_eq!(
        member_info_(header.id, 3, &store),
        Some(member(3, "carol", MemberRole::Watcher, false))
    );
    assert_eq!(
        members_by_game_(header.id, &store),
        vec![
            member(1, "alice", MemberRole::WhitePlayer, true),
            member(3, "carol", MemberRole::Watcher, false),
        ]
    );
}

#[test]
fn role_update_copies_only_the_role() {
    let mut store = store_with_users();
    let header = new_game(&mut store, "alice", "g");
    update_member(
        "alice".to_string(),
        header.id,
        member(2, "bob", MemberRole::Invited, false),
        &mut store,
    )
    .unwrap();
    // Bob is in the roster now and may act; he cannot accept for himself.
    let result = update_member(
        "bob".to_string(),
        header.id,
        member(2, "robert", MemberRole::BlackPlayer, true),
        &mut store,
    );
    assert_eq!(result, Ok(()));
    assert_eq!(
        member_info_(header.id, 2, &store),
        Some(member(2, "bob", MemberRole::BlackPlayer, false))
    );
    // The owner stays accepted when her role changes.
    let result = update_member(
        "bob".to_string(),
        header.id,
        member(1, "alice", MemberRole::Watcher, false),
        &mut store,
    );
    assert_eq!(result, Ok(()));
    assert_eq!(
        member_info_(header.id, 1, &store),
        Some(member(1, "alice", MemberRole::Watcher, true))
    );
}

#[test]
fn repeated_invitations_leave_one_entry() {
    let mut store = store_with_users();
    let header = new_game(&mut store, "alice", "g");
    for role in [MemberRole::Watcher, MemberRole::BlackPlayer, MemberRole::Invited] {
        let proposed = member(3, "carol", role, true);
        let result = update_member("alice".to_string(), header.id, proposed, &mut store);
        assert_eq!(result, Ok(()));
    }
    let members = members_by_game_(header.id, &store);
    assert_eq!(members.len(), 2);
    assert_eq!(members.iter().filter(|m| m.id == 3).count(), 1);
    assert_eq!(members[1], member(3, "carol", MemberRole::Invited, false));
}

#[test]
fn members_of_other_games_are_untouched() {
    let mut store = store_with_users();
    let first = new_game(&mut store, "alice", "one");
    let second = new_game(&mut store, "alice", "two");
    update_member(
        "alice".to_string(),
        second.id,
        member(2, "bob", MemberRole::BlackPlayer, false),
        &mut store,
    )
    .unwrap();
    assert_eq!(
        members_by_game_(first.id, &store),
        vec![member(1, "alice", MemberRole::WhitePlayer, true)]
    );
    assert_eq!(members_by_game_(second.id, &store).len(), 2);
}

#[test]
fn member_may_change_the_description() {
    let mut store = store_with_users();
    let header = new_game(&mut store, "alice", "old");
    let other = new_game(&mut store, "bob", "other");
    let result = update_description("alice".to_string(), header.id, "new".to_string(), &mut store);
    assert_eq!(result, Ok(()));
    assert_eq!(game(header.id, &store).unwrap().description, "new");
    assert_eq!(game(header.id, &store).unwrap().members, header.members);
    assert_eq!(game(other.id, &store), Some(other));
}

#[test]
fn stranger_may_not_change_the_description() {
    let mut store = store_with_users();
    let header = new_game(&mut store, "alice", "old");
    let result = update_description("bob".to_string(), header.id, "new".to_string(), &mut store);
    assert_eq!(result, Err(MembershipError::NotAuthorized));
    let result =
        update_description("mallory".to_string(), header.id, "new".to_string(), &mut store);
    assert_eq!(result, Err(MembershipError::NoSuchMember));
    let result = update_description("alice".to_string(), 99, "new".to_string(), &mut store);
    assert_eq!(result, Err(MembershipError::NotAuthorized));
    assert_eq!(game(header.id, &store), Some(header));
}

#[test]
fn games_are_listed_for_their_members_only() {
    let mut store = store_with_users();
    let first = new_game(&mut store, "alice", "one");
    let second = new_game(&mut store, "bob", "two");
    let third = new_game(&mut store, "alice", "three");
    update_member(
        "bob".to_string(),
        second.id,
        member(1, "alice", MemberRole::Watcher, false),
        &mut store,
    )
    .unwrap();
    let listed: Vec<i64> =
        games_by_user("alice".to_string(), &store).iter().map(|g| g.id).collect();
    assert_eq!(listed, vec![first.id, second.id, third.id]);
    let listed = games_by_user("bob".to_string(), &store);
    assert_eq!(listed.len(), 1);
    assert_eq!(listed[0].id, second.id);
    assert_eq!(listed[0].members.len(), 2);
    assert_eq!(games_by_user("carol".to_string(), &store), vec![]);
    assert_eq!(games_by_user("mallory".to_string(), &store), vec![]);
}

#[test]
fn reading_what_does_not_exist_gives_nothing() {
    let store = store_with_users();
    assert_eq!(game(5, &store), None);
    assert_eq!(members_by_game_(5, &store), vec![]);
    assert_eq!(member_info_(5, 1, &store), None);
    assert_eq!(get_user_id_(&"mallory".to_string(), &store), None);
    assert_eq!(get_user_id_(&"carol".to_string(), &store), Some(3));
}

#[test]
fn users_are_listed_without_their_passwords() {
    let store = store_with_users();
    assert_eq!(
        all_users(&store),
        vec![
            UserInfo { id: 1, username: "alice".to_string() },
            UserInfo { id: 2, username: "bob".to_string() },
            UserInfo { id: 3, username: "carol".to_string() },
        ]
    );
    assert_eq!(all_users(&Store::new()), vec![]);
}

#[test]
fn a_user_is_added_once() {
    let mut store = store_with_users();
    assert!(!store.add_user(user(1, "dave")));
    assert!(!store.add_user(user(4, "alice")));
    assert!(store.add_user(user(4, "dave")));
    assert_eq!(all_users(&store).len(), 4);
}

#[test]
fn a_game_is_added_only_with_a_free_id_and_distinct_members() {
    let mut store = store_with_users();
    let twice = GameHeader {
        id: 9,
        description: "twice".to_string(),
        members: vec![
            member(1, "alice", MemberRole::WhitePlayer, true),
            member(2, "bob", MemberRole::BlackPlayer, true),
            member(1, "alice", MemberRole::Watcher, false),
        ],
    };
    assert!(!store.add_game(twice));
    let fine = GameHeader {
        id: 9,
        description: "fine".to_string(),
        members: vec![
            member(1, "alice", MemberRole::WhitePlayer, true),
            member(2, "bob", MemberRole::BlackPlayer, true),
        ],
    };
    assert!(store.add_game(fine.clone()));
    assert!(!store.add_game(fine.clone()));
    assert_eq!(store.all_games(), vec![fine]);
}

#[test]
fn password_is_checked_against_the_stored_hash() {
    let store = store_with_users();
    assert!(check_password("alice".to_string(), "correct horse".to_string(), &store));
    assert!(!check_password("alice".to_string(), "wrong horse".to_string(), &store));
    assert!(!check_password("alice".to_string(), "alice".to_string(), &store));
    assert!(!check_password("alice".to_string(), HASH_OF_CORRECT_HORSE.to_string(), &store));
    assert!(!check_password("mallory".to_string(), "correct horse".to_string(), &store));
}

#[test]
fn password_hashed_by_the_crate_is_accepted() {
    let hash = pbkdf2::pbkdf2_simple("s3cret", 10).unwrap();
    let mut store = Store::new();
    assert!(store.add_user(UserRecord { id: 1, username: "dave".to_string(), password: hash }));
    assert!(check_password("dave".to_string(), "s3cret".to_string(), &store));
    assert!(!check_password("dave".to_string(), "s3cret ".to_string(), &store));
}

#[test]
fn malformed_hash_accepts_no_password() {
    let mut store = Store::new();
    assert!(store.add_user(UserRecord {
        id: 1,
        username: "dave".to_string(),
        password: "plain text".to_string(),
    }));
    assert!(!check_password("dave".to_string(), "plain text".to_string(), &store));
    assert!(!check_password("dave".to_string(), "".to_string(), &store));
}

#[test]
fn roles_are_stored_as_one_to_four() {
    assert_eq!(MemberRole::WhitePlayer.to_sql(), 1);
    assert_eq!(MemberRole::BlackPlayer.to_sql(), 2);
    assert_eq!(MemberRole::Watcher.to_sql(), 3);
    assert_eq!(MemberRole::Invited.to_sql(), 4);
}

#[test]
fn roles_are_read_back_as_stored() {
    for role in
        [MemberRole::WhitePlayer, MemberRole::BlackPlayer, MemberRole::Watcher, MemberRole::Invited]
    {
        assert_eq!(MemberRole::column_result(ColumnValue::Integer(role.to_sql())), Ok(role));
    }
}

#[test]
fn unknown_role_numbers_are_errors() {
    assert_eq!(
        MemberRole::column_result(ColumnValue::Integer(0)),
        Err(RoleDecodeError::OutOfRange(0))
    );
    assert_eq!(
        MemberRole::column_result(ColumnValue::Integer(5)),
        Err(RoleDecodeError::OutOfRange(5))
    );
    assert_eq!(
        MemberRole::column_result(ColumnValue::Integer(-1)),
        Err(RoleDecodeError::OutOfRange(-1))
    );
    assert_eq!(MemberRole::column_result(ColumnValue::Other), Err(RoleDecodeError::InvalidType));
}

#[test]
fn setup_messages_are_served_like_the_requests_they_stand_for() {
    let mut store = store_with_users();
    let header = new_game(&mut store, "alice", "old");
    let rename = SetupMessage::SetDescription("new".to_string());
    assert_eq!(setup_game("alice".to_string(), header.id, rename.clone(), &mut store), Ok(()));
    assert_eq!(game(header.id, &store).unwrap().description, "new");
    let invite = SetupMessage::UpdateMember(member(2, "bob", MemberRole::BlackPlayer, true));
    assert_eq!(setup_game("alice".to_string(), header.id, invite.clone(), &mut store), Ok(()));
    assert_eq!(
        member_info_(header.id, 2, &store),
        Some(member(2, "bob", MemberRole::BlackPlayer, false))
    );
    let before = store.all_games();
    assert_eq!(
        setup_game("carol".to_string(), header.id, rename, &mut store),
        Err(MembershipError::NotAuthorized)
    );
    assert_eq!(
        setup_game("mallory".to_string(), header.id, invite, &mut store),
        Err(MembershipError::NoSuchMember)
    );
    assert_eq!(store.all_games(), before);
}
