//! What holds of the rosters whatever requests are made.

use crate::store::{
    distinct_members, has_member, lemma_member_at, lemma_roster_push_distinct,
    lemma_roster_with_info_distinct, roster_with_info, MembershipError, StoreView,
};
use crate::dto::MemberView;
use vstd::prelude::*;

verus! {

/// A request to change the members of a game.
pub struct MemberRequest {
    /// The name of the user who asks.
    pub username: Seq<char>,
    /// The game whose members are to change.
    pub game_id: i64,
    /// The entry that the user proposes.
    pub new_member: MemberView,
}

/// The store after one request: changed as the request asks if it is
/// granted, and as before if it is turned down.
pub open spec fn after_request(store: StoreView, request: MemberRequest) -> StoreView {
    match store.update_member(request.username, request.game_id, request.new_member) {
        Ok(next) => next,
        Err(_) => store,
    }
}

/// The store after the requests of `requests` have been handled one after
/// the other.
pub open spec fn after_requests(store: StoreView, requests: Seq<MemberRequest>) -> StoreView
    decreases requests.len(),
{
    if requests.len() == 0 {
        store
    } else {
        after_request(after_requests(store, requests.drop_last()), requests.last())
    }
}

/// Only a member of a game has a say in it, so a game whose members may be
/// changed exists.
pub proof fn lemma_granted_means_game_exists(store: StoreView, username: Seq<char>, game_id: i64)
    requires
        store.refusal(username, game_id) is None,
    ensures
        store.has_game(game_id),
        store.user_id(username) matches Some(user_id) && has_member(store.roster(game_id), user_id),
{
    let user_id = store.user_id(username)->Some_0;
    assert(has_member(store.roster(game_id), user_id));
    assert(store.roster(game_id).len() > 0);
}

/// A granted request keeps the store well formed: in particular no user has
/// two entries in one game afterwards.
pub proof fn lemma_update_member_keeps_wf(
    store: StoreView,
    username: Seq<char>,
    game_id: i64,
    new_member: MemberView,
)
    requires
        store.wf(),
    ensures
        store.update_member(username, game_id, new_member) matches Ok(next) ==> next.wf(),
{
    if store.update_member(username, game_id, new_member) is Ok {
        lemma_granted_means_game_exists(store, username, game_id);
        let i = store.game_place(game_id);
        store.lemma_game_at(i);
        let roster = store.roster(game_id);
        assert(distinct_members(roster));
        match store.member(game_id, new_member.id) {
            Some(existing) => {
                let info = MemberView { role: new_member.role, ..existing };
                lemma_roster_with_info_distinct(roster, info);
                store.lemma_with_roster(game_id, roster_with_info(roster, info));
            },
            None => {
                let invited = MemberView { accepted: false, ..new_member };
                lemma_roster_push_distinct(roster, invited);
                store.lemma_with_roster(game_id, roster.push(invited));
            },
        }
    }
}

/// Whatever requests are made, by whom and in what order, and whether they
/// are granted or not: afterwards no two users share an id or a name, no two
/// games share an id, and for every user and every game there is at most one
/// entry of that user in that game.
pub proof fn lemma_memberships_stay_unique(store: StoreView, requests: Seq<MemberRequest>)
    requires
        store.wf(),
    ensures
        after_requests(store, requests).wf(),
        forall|i: int|
            0 <= i < after_requests(store, requests).games.len() ==> distinct_members(
                (#[trigger] after_requests(store, requests).games[i]).members,
            ),
    decreases requests.len(),
{
    if requests.len() > 0 {
        lemma_memberships_stay_unique(store, requests.drop_last());
        let before = after_requests(store, requests.drop_last());
        let request = requests.last();
        lemma_update_member_keeps_wf(before, request.username, request.game_id, request.new_member);
    }
}

/// An invitation cannot be forged into a membership: when a granted request
/// names a user who has no entry in the game, the entry that the user gets is
/// the proposed one except that it is not accepted, whatever the request
/// claimed.
pub proof fn lemma_invitation_is_not_accepted(
    store: StoreView,
    username: Seq<char>,
    game_id: i64,
    new_member: MemberView,
)
    requires
        store.wf(),
        store.update_member(username, game_id, new_member) is Ok,
        store.member(game_id, new_member.id) is None,
    ensures
        ({
            let next = store.update_member(username, game_id, new_member)->Ok_0;
            &&& next.member(game_id, new_member.id) == Some(
                MemberView { accepted: false, ..new_member },
            )
            &&& next.roster(game_id) == store.roster(game_id).push(
                MemberView { accepted: false, ..new_member },
            )
        }),
{
    lemma_granted_means_game_exists(store, username, game_id);
    let i = store.game_place(game_id);
    store.lemma_game_at(i);
    let roster = store.roster(game_id);
    let invited = MemberView { accepted: false, ..new_member };
    lemma_roster_push_distinct(roster, invited);
    store.lemma_with_roster(game_id, roster.push(invited));
}

/// A granted request that names a user who is in the game already changes
/// that user's role and nothing else: whether they have accepted stays as it
/// was, and so does every other entry.
pub proof fn lemma_role_update_keeps_acceptance(
    store: StoreView,
    username: Seq<char>,
    game_id: i64,
    new_member: MemberView,
)
    requires
        store.wf(),
        store.update_member(username, game_id, new_member) is Ok,
        store.member(game_id, new_member.id) is Some,
    ensures
        ({
            let next = store.update_member(username, game_id, new_member)->Ok_0;
            let existing = store.member(game_id, new_member.id)->Some_0;
            &&& next.member(game_id, new_member.id) == Some(
                MemberView { role: new_member.role, ..existing },
            )
            &&& next.roster(game_id).len() == store.roster(game_id).len()
            &&& forall|k: int|
                0 <= k < store.roster(game_id).len() && (#[trigger] store.roster(game_id)[k]).id
                    != new_member.id ==> next.roster(game_id)[k] == store.roster(game_id)[k]
        }),
{
    lemma_granted_means_game_exists(store, username, game_id);
    let i = store.game_place(game_id);
    store.lemma_game_at(i);
    let roster = store.roster(game_id);
    let existing = store.member(game_id, new_member.id)->Some_0;
    let info = MemberView { role: new_member.role, ..existing };
    let changed = roster_with_info(roster, info);
    lemma_roster_with_info_distinct(roster, info);
    store.lemma_with_roster(game_id, changed);
    let k = choose|k: int| 0 <= k < roster.len() && (#[trigger] roster[k]).id == new_member.id;
    assert(existing == roster[k]);
    assert(changed[k] == info);
    lemma_member_at(changed, k);
}

/// Who takes no part in a game cannot change its members: the request is
/// turned down, with `NoSuchMember` when nobody goes by the name and with
/// `NotAuthorized` when the user is not in the game.
pub proof fn lemma_stranger_is_turned_down(
    store: StoreView,
    username: Seq<char>,
    game_id: i64,
    new_member: MemberView,
)
    ensures
        store.user_id(username) is None ==> store.update_member(username, game_id, new_member)
            == Err::<StoreView, MembershipError>(MembershipError::NoSuchMember),
        store.user_id(username) matches Some(user_id) && !has_member(
            store.roster(game_id),
            user_id,
        ) ==> store.update_member(username, game_id, new_member) == Err::<
            StoreView,
            MembershipError,
        >(MembershipError::NotAuthorized),
        after_request(store, MemberRequest { username, game_id, new_member }) == store
            || store.refusal(username, game_id) is None,
{
}

} // verus!
