//! The records that describe games, users and memberships to the outside.

use vstd::prelude::*;

verus! {

/// The part that a member plays in a game. Only these four exist.
#[derive(Debug, Copy, Clone, PartialEq, Eq, Structural)]
pub enum MemberRole {
    WhitePlayer,
    BlackPlayer,
    Watcher,
    Invited,
}

/// A column of a stored row, as far as a role can be read from it.
#[derive(Debug, Copy, Clone, PartialEq, Eq, Structural)]
pub enum ColumnValue {
    /// The column holds this integer.
    Integer(i64),
    /// The column holds something that is not an integer.
    Other,
}

/// Why a stored value is no role.
#[derive(Debug, Copy, Clone, PartialEq, Eq, Structural)]
pub enum RoleDecodeError {
    /// The column holds this integer, which stands for no role.
    OutOfRange(i64),
    /// The column does not hold an integer.
    InvalidType,
}

impl MemberRole {
    /// The integer under which a role is stored.
    pub open spec fn code(self) -> int {
        match self {
            MemberRole::WhitePlayer => 1,
            MemberRole::BlackPlayer => 2,
            MemberRole::Watcher => 3,
            MemberRole::Invited => 4,
        }
    }

    /// The role that a stored integer stands for, if any.
    pub open spec fn with_code(code: int) -> Option<MemberRole> {
        if code == 1 {
            Some(MemberRole::WhitePlayer)
        } else if code == 2 {
            Some(MemberRole::BlackPlayer)
        } else if code == 3 {
            Some(MemberRole::Watcher)
        } else if code == 4 {
            Some(MemberRole::Invited)
        } else {
            None
        }
    }

    /// Reads a role from a stored column. An integer that stands for no role
    /// is an error, never a default role.
    pub fn column_result(value: ColumnValue) -> (role: Result<MemberRole, RoleDecodeError>)
        ensures
            role == (match value {
                ColumnValue::Integer(n) => match MemberRole::with_code(n as int) {
                    Some(r) => Ok::<MemberRole, RoleDecodeError>(r),
                    None => Err(RoleDecodeError::OutOfRange(n)),
                },
                ColumnValue::Other => Err(RoleDecodeError::InvalidType),
            }),
    {
        match value {
            ColumnValue::Integer(1) => Ok(MemberRole::WhitePlayer),
            ColumnValue::Integer(2) => Ok(MemberRole::BlackPlayer),
            ColumnValue::Integer(3) => Ok(MemberRole::Watcher),
            ColumnValue::Integer(4) => Ok(MemberRole::Invited),
            ColumnValue::Integer(n) => Err(RoleDecodeError::OutOfRange(n)),
            ColumnValue::Other => Err(RoleDecodeError::InvalidType),
        }
    }

    /// The integer to store for this role.
    pub fn to_sql(&self) -> (code: i64)
        ensures
            code == self.code(),
    {
        match self {
            MemberRole::WhitePlayer => 1,
            MemberRole::BlackPlayer => 2,
            MemberRole::Watcher => 3,
            MemberRole::Invited => 4,
        }
    }

    /// Storing a role and reading it back gives the same role, and the only
    /// integers that can be read as a role are those that some role is stored
    /// as.
    pub proof fn lemma_code_round_trip(role: MemberRole, code: int)
        ensures
            MemberRole::with_code(role.code()) == Some(role),
            MemberRole::with_code(code) matches Some(r) ==> r.code() == code,
    {
    }
}

/// One user's part in one game.
#[derive(Debug, PartialEq, Eq)]
pub struct Member {
    pub id: i64,
    pub username: String,
    pub role: MemberRole,
    pub accepted: bool,
}

/// A [`Member`] as a plain value.
pub struct MemberView {
    pub id: i64,
    pub username: Seq<char>,
    pub role: MemberRole,
    pub accepted: bool,
}

impl View for Member {
    type V = MemberView;

    open spec fn view(&self) -> MemberView {
        MemberView {
            id: self.id,
            username: self.username@,
            role: self.role,
            accepted: self.accepted,
        }
    }
}

impl Clone for Member {
    fn clone(&self) -> (copy: Self)
        ensures
            copy@ == self@,
    {
        Member {
            id: self.id,
            username: self.username.clone(),
            role: self.role,
            accepted: self.accepted,
        }
    }
}

/// The members of `members`, each as a plain value, in the same order.
pub open spec fn member_views(members: Seq<Member>) -> Seq<MemberView> {
    Seq::new(members.len(), |i: int| members[i]@)
}

/// Copies a list of members.
pub fn clone_members(members: &Vec<Member>) -> (copy: Vec<Member>)
    ensures
        member_views(copy@) == member_views(members@),
{
    let mut copy: Vec<Member> = Vec::new();
    let mut i: usize = 0;
    while i < members.len()
        invariant
            i <= members.len(),
            copy.len() == i,
            forall|j: int| 0 <= j < i ==> copy@[j]@ == members@[j]@,
        decreases members.len() - i,
    {
        copy.push(members[i].clone());
        i += 1;
    }
    assert(member_views(copy@) =~= member_views(members@));
    copy
}

/// What an overview shows of a game: its id, its description and who takes
/// part in it.
#[derive(Debug, PartialEq, Eq)]
pub struct GameHeader {
    pub id: i64,
    pub description: String,
    pub members: Vec<Member>,
}

/// A [`GameHeader`] as a plain value.
pub struct GameHeaderView {
    pub id: i64,
    pub description: Seq<char>,
    pub members: Seq<MemberView>,
}

impl View for GameHeader {
    type V = GameHeaderView;

    open spec fn view(&self) -> GameHeaderView {
        GameHeaderView {
            id: self.id,
            description: self.description@,
            members: member_views(self.members@),
        }
    }
}

impl Clone for GameHeader {
    fn clone(&self) -> (copy: Self)
        ensures
            copy@ == self@,
    {
        GameHeader {
            id: self.id,
            description: self.description.clone(),
            members: clone_members(&self.members),
        }
    }
}

/// What is needed to create a game. Who creates it is known from the login
/// and is not part of the request.
#[derive(Debug, PartialEq, Eq)]
pub struct GameCreate {
    pub description: String,
}

impl Clone for GameCreate {
    fn clone(&self) -> (copy: Self)
        ensures
            copy.description@ == self.description@,
    {
        GameCreate { description: self.description.clone() }
    }
}

/// What everybody may know of a user.
#[derive(Debug, PartialEq, Eq)]
pub struct UserInfo {
    pub id: i64,
    pub username: String,
}

/// A [`UserInfo`] as a plain value.
pub struct UserInfoView {
    pub id: i64,
    pub username: Seq<char>,
}

impl View for UserInfo {
    type V = UserInfoView;

    open spec fn view(&self) -> UserInfoView {
        UserInfoView { id: self.id, username: self.username@ }
    }
}

impl Clone for UserInfo {
    fn clone(&self) -> (copy: Self)
        ensures
            copy@ == self@,
    {
        UserInfo { id: self.id, username: self.username.clone() }
    }
}

/// A request to change a game that is still being set up.
#[derive(Debug, PartialEq, Eq)]
pub enum SetupMessage {
    SetDescription(String),
    UpdateMember(Member),
}

impl Clone for SetupMessage {
    fn clone(&self) -> (copy: Self)
        ensures
            match (*self, copy) {
                (SetupMessage::SetDescription(a), SetupMessage::SetDescription(b)) => a@ == b@,
                (SetupMessage::UpdateMember(a), SetupMessage::UpdateMember(b)) => a@ == b@,
                _ => false,
            },
    {
        match self {
            SetupMessage::SetDescription(description) => SetupMessage::SetDescription(
                description.clone(),
            ),
            SetupMessage::UpdateMember(member) => SetupMessage::UpdateMember(member.clone()),
        }
    }
}

} // verus!
