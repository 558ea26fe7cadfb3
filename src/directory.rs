//! The public directory: per identity, an unread flag and a session token.
//! Requests arrive already decoded into `DirectoryRequest`; the database
//! applies one request at a time to its records and says whether they have
//! to be written back.

use vstd::prelude::*;

verus! {

/// One identity known to the directory.
pub struct UserRecord {
    pub id_string: String,
    pub unread: bool,
    pub session: String,
}

/// The mathematical content of a `UserRecord`.
pub struct UserView {
    pub id: Seq<char>,
    pub unread: bool,
    pub session: Seq<char>,
}

impl View for UserRecord {
    type V = UserView;

    open spec fn view(&self) -> UserView {
        UserView { id: self.id_string@, unread: self.unread, session: self.session@ }
    }
}

impl UserRecord {
    pub fn new(id_string: String, unread: bool, session: String) -> (r: Self)
        ensures
            r@ == (UserView { id: id_string@, unread, session: session@ }),
    {
        UserRecord { id_string, unread, session }
    }
}

/// What a read-or-write request on the unread flag asks for.
#[derive(Debug, Clone, Copy, PartialEq, Eq, Structural)]
pub enum FlagOp {
    /// Read the flag (allowed only with the current session token).
    Read,
    /// Set the flag.
    SetTrue,
    /// Clear the flag.
    SetFalse,
}

/// The flag operation that the request word `rw` names: `r`, `wt` or `wf`.
pub open spec fn flag_op_of(rw: Seq<char>) -> Option<FlagOp> {
    if rw == seq!['r'] {
        Some(FlagOp::Read)
    } else if rw == seq!['w', 't'] {
        Some(FlagOp::SetTrue)
    } else if rw == seq!['w', 'f'] {
        Some(FlagOp::SetFalse)
    } else {
        None
    }
}

/// Reads the request word of a flag request.
pub fn parse_flag_op(rw: &str) -> (r: Option<FlagOp>)
    ensures
        r == flag_op_of(rw@),
{
    let n = rw.unicode_len();
    if n == 1 && rw.get_char(0) == 'r' {
        assert(rw@ =~= seq!['r']);
        Some(FlagOp::Read)
    } else if n == 2 && rw.get_char(0) == 'w' && rw.get_char(1) == 't' {
        assert(rw@ =~= seq!['w', 't']);
        Some(FlagOp::SetTrue)
    } else if n == 2 && rw.get_char(0) == 'w' && rw.get_char(1) == 'f' {
        assert(rw@ =~= seq!['w', 'f']);
        Some(FlagOp::SetFalse)
    } else {
        assert(rw@.len() != 1 || rw@[0] != 'r');
        assert(rw@ != seq!['r']);
        assert(rw@ != seq!['w', 't']);
        assert(rw@ != seq!['w', 'f']);
        None
    }
}

/// A request to the directory.
pub enum DirectoryRequest {
    AddUser { id_string: String, unread: bool, session: String },
    /// `candidate` is `None` when the request carried no identity.
    CheckUniqueness { candidate: Option<String> },
    UpdateSession { id_string: String, session: String },
    UnreadFlag { id_string: String, session: String, rw: String },
    /// An action the directory does not know.
    Unknown,
}

/// The directory's answer to one request.
#[derive(Debug, Clone, Copy, PartialEq, Eq, Structural)]
pub enum DirectoryReply {
    UserAdded,
    IdTaken,
    IdAvailable,
    MissingId,
    SessionSet,
    GotFlag(bool),
    InvalidSession,
    FlagSetTrue,
    FlagSetFalse,
    InvalidRw,
    UserNotFound,
    InvalidAction,
}

impl DirectoryReply {
    /// Whether the reply reports success.
    pub open spec fn spec_is_success(self) -> bool {
        match self {
            DirectoryReply::UserAdded | DirectoryReply::IdAvailable | DirectoryReply::SessionSet
            | DirectoryReply::GotFlag(_) | DirectoryReply::FlagSetTrue
            | DirectoryReply::FlagSetFalse => true,
            _ => false,
        }
    }

    #[verifier::when_used_as_spec(spec_is_success)]
    pub fn is_success(self) -> (r: bool)
        ensures
            r == self.spec_is_success(),
    {
        match self {
            DirectoryReply::UserAdded | DirectoryReply::IdAvailable | DirectoryReply::SessionSet
            | DirectoryReply::GotFlag(_) | DirectoryReply::FlagSetTrue
            | DirectoryReply::FlagSetFalse => true,
            _ => false,
        }
    }

    /// The human-readable message sent with the reply.
    pub open spec fn spec_message(self) -> Seq<char> {
        match self {
            DirectoryReply::UserAdded => "✓ User added"@,
            DirectoryReply::IdTaken => "User with same ID found"@,
            DirectoryReply::IdAvailable => "✓ No user with same ID"@,
            DirectoryReply::MissingId => "missing ID"@,
            DirectoryReply::SessionSet => "✓ Set session"@,
            DirectoryReply::GotFlag(_) => "✓ Got flag"@,
            DirectoryReply::InvalidSession => "invalid session"@,
            DirectoryReply::FlagSetTrue => "✓ Set flag to true"@,
            DirectoryReply::FlagSetFalse => "✓ Set flag to false"@,
            DirectoryReply::InvalidRw => "invalid rw"@,
            DirectoryReply::UserNotFound => "user not found"@,
            DirectoryReply::InvalidAction => "invalid action"@,
        }
    }

    /// The human-readable message sent with the reply.
    pub fn message(self) -> (r: &'static str)
        ensures
            r@ == self.spec_message(),
    {
        match self {
            DirectoryReply::UserAdded => "✓ User added",
            DirectoryReply::IdTaken => "User with same ID found",
            DirectoryReply::IdAvailable => "✓ No user with same ID",
            DirectoryReply::MissingId => "missing ID",
            DirectoryReply::SessionSet => "✓ Set session",
            DirectoryReply::GotFlag(_) => "✓ Got flag",
            DirectoryReply::InvalidSession => "invalid session",
            DirectoryReply::FlagSetTrue => "✓ Set flag to true",
            DirectoryReply::FlagSetFalse => "✓ Set flag to false",
            DirectoryReply::InvalidRw => "invalid rw",
            DirectoryReply::UserNotFound => "user not found",
            DirectoryReply::InvalidAction => "invalid action",
        }
    }
}

/// The position of the first record with identity `id`, if any.
pub open spec fn first_with_id(users: Seq<UserView>, id: Seq<char>) -> Option<int>
    decreases users.len(),
{
    if users.len() == 0 {
        None
    } else if users[0].id == id {
        Some(0)
    } else {
        match first_with_id(users.drop_first(), id) {
            Some(i) => Some(i + 1),
            None => None,
        }
    }
}

/// A record with identity `id` and none before it is what `first_with_id` finds.
pub proof fn lemma_first_with_id_at(users: Seq<UserView>, id: Seq<char>, i: int)
    requires
        0 <= i < users.len(),
        users[i].id == id,
        forall|j: int| 0 <= j < i ==> (#[trigger] users[j]).id != id,
    ensures
        first_with_id(users, id) == Some(i),
    decreases i,
{
    if i > 0 {
        assert(users[0].id != id);
        let rest = users.drop_first();
        assert forall|j: int| 0 <= j < i - 1 implies (#[trigger] rest[j]).id != id by {
            assert(rest[j] == users[j + 1]);
        }
        lemma_first_with_id_at(rest, id, i - 1);
    }
}

/// With no record of identity `id`, `first_with_id` finds nothing.
pub proof fn lemma_first_with_id_none(users: Seq<UserView>, id: Seq<char>)
    requires
        forall|j: int| 0 <= j < users.len() ==> (#[trigger] users[j]).id != id,
    ensures
        first_with_id(users, id) is None,
    decreases users.len(),
{
    if users.len() > 0 {
        let rest = users.drop_first();
        assert forall|j: int| 0 <= j < rest.len() implies (#[trigger] rest[j]).id != id by {
            assert(rest[j] == users[j + 1]);
        }
        lemma_first_with_id_none(rest, id);
    }
}

/// The records after the request, the reply, and whether the records are
/// to be written back.
pub open spec fn directory_step(users: Seq<UserView>, req: DirectoryRequest) -> (
    Seq<UserView>,
    DirectoryReply,
    bool,
) {
    match req {
        DirectoryRequest::AddUser { id_string, unread, session } => (
            users.push(UserView { id: id_string@, unread, session: session@ }),
            DirectoryReply::UserAdded,
            true,
        ),
        DirectoryRequest::CheckUniqueness { candidate } => match candidate {
            None => (users, DirectoryReply::MissingId, false),
            Some(id) => if first_with_id(users, id@) is Some {
                (users, DirectoryReply::IdTaken, false)
            } else {
                (users, DirectoryReply::IdAvailable, false)
            },
        },
        DirectoryRequest::UpdateSession { id_string, session } => match first_with_id(
            users,
            id_string@,
        ) {
            Some(i) => (
                users.update(i, UserView { session: session@, ..users[i] }),
                DirectoryReply::SessionSet,
                true,
            ),
            None => (users, DirectoryReply::SessionSet, true),
        },
        DirectoryRequest::UnreadFlag { id_string, session, rw } => match first_with_id(
            users,
            id_string@,
        ) {
            None => (users, DirectoryReply::UserNotFound, false),
            Some(i) => match flag_op_of(rw@) {
                Some(FlagOp::Read) => if users[i].session == session@ {
                    (users, DirectoryReply::GotFlag(users[i].unread), false)
                } else {
                    (users, DirectoryReply::InvalidSession, false)
                },
                Some(FlagOp::SetTrue) => (
                    users.update(i, UserView { unread: true, ..users[i] }),
                    DirectoryReply::FlagSetTrue,
                    true,
                ),
                Some(FlagOp::SetFalse) => (
                    users.update(i, UserView { unread: false, ..users[i] }),
                    DirectoryReply::FlagSetFalse,
                    true,
                ),
                None => (users, DirectoryReply::InvalidRw, false),
            },
        },
        DirectoryRequest::Unknown => (users, DirectoryReply::InvalidAction, false),
    }
}

/// Whether two strings hold the same characters.
pub fn same_text(a: &String, b: &String) -> (r: bool)
    ensures
        r == (a@ == b@),
{
    a.eq(b)
}

/// The directory's records, with the path of the file they are kept in.
pub struct UserDatabase {
    path: String,
    users: Vec<UserRecord>,
}

impl UserDatabase {
    /// The records as a sequence of views.
    pub closed spec fn users_view(&self) -> Seq<UserView> {
        self.users@.map_values(|u: UserRecord| u@)
    }

    pub closed spec fn spec_path(&self) -> Seq<char> {
        self.path@
    }

    /// A database kept at `path`, holding no records yet.
    pub fn new(path: &str) -> (r: Self)
        ensures
            r.spec_path() == path@,
            r.users_view().len() == 0,
    {
        UserDatabase { path: path.to_owned(), users: Vec::new() }
    }

    /// The path of the file that holds the records.
    pub fn path(&self) -> (r: &str)
        ensures
            r@ == self.spec_path(),
    {
        self.path.as_str()
    }

    /// The records.
    pub fn records(&self) -> (r: &Vec<UserRecord>)
        ensures
            r@.map_values(|u: UserRecord| u@) == self.users_view(),
    {
        &self.users
    }

    /// Replaces the records by those just read from the file.
    pub fn replace_records(&mut self, users: Vec<UserRecord>)
        ensures
            final(self).users_view() == users@.map_values(|u: UserRecord| u@),
            final(self).spec_path() == old(self).spec_path(),
    {
        self.users = users;
    }

    /// The position of the first record with identity `id`, if any.
    pub fn find(&self, id: &String) -> (r: Option<usize>)
        ensures
            r matches Some(i) ==> first_with_id(self.users_view(), id@) == Some(i as int) && i
                < self.users_view().len(),
            r is None ==> first_with_id(self.users_view(), id@) is None,
    {
        let mut i: usize = 0;
        while i < self.users.len()
            invariant
                0 <= i <= self.users@.len(),
                forall|j: int| 0 <= j < i ==> (#[trigger] self.users_view()[j]).id != id@,
            decreases self.users@.len() - i,
        {
            if same_text(&self.users[i].id_string, id) {
                proof {
                    lemma_first_with_id_at(self.users_view(), id@, i as int);
                }
                return Some(i);
            }
            i = i + 1;
        }
        proof {
            lemma_first_with_id_none(self.users_view(), id@);
        }
        None
    }

    /// Applies one request; returns the reply and whether the records are to
    /// be written back to the file.
    pub fn process_request(&mut self, req: DirectoryRequest) -> (r: (DirectoryReply, bool))
        ensures
            ({
                let (users, reply, save) = directory_step(old(self).users_view(), req);
                &&& final(self).users_view() == users
                &&& r == (reply, save)
            }),
            final(self).spec_path() == old(self).spec_path(),
    {
        assert(self.users_view().skip(0) =~= self.users_view());
        match req {
            DirectoryRequest::AddUser { id_string, unread, session } => {
                self.users.push(UserRecord { id_string, unread, session });
                assert(self.users_view() =~= directory_step(old(self).users_view(), req).0);
                (DirectoryReply::UserAdded, true)
            },
            DirectoryRequest::CheckUniqueness { candidate } => match candidate {
                None => (DirectoryReply::MissingId, false),
                Some(id) => {
                    if self.find(&id).is_some() {
                        (DirectoryReply::IdTaken, false)
                    } else {
                        (DirectoryReply::IdAvailable, false)
                    }
                },
            },
            DirectoryRequest::UpdateSession { id_string, session } => {
                match self.find(&id_string) {
                    Some(i) => {
                        let unread = self.users[i].unread;
                        let id = self.users[i].id_string.clone();
                        self.users[i] = UserRecord { id_string: id, unread, session };
                        assert(self.users_view() =~= directory_step(
                            old(self).users_view(),
                            req,
                        ).0);
                    },
                    None => {},
                }
                (DirectoryReply::SessionSet, true)
            },
            DirectoryRequest::UnreadFlag { id_string, session, rw } => {
                match self.find(&id_string) {
                    None => (DirectoryReply::UserNotFound, false),
                    Some(i) => match parse_flag_op(rw.as_str()) {
                        Some(FlagOp::Read) => {
                            if same_text(&self.users[i].session, &session) {
                                (DirectoryReply::GotFlag(self.users[i].unread), false)
                            } else {
                                (DirectoryReply::InvalidSession, false)
                            }
                        },
                        Some(FlagOp::SetTrue) => {
                            self.users[i].unread = true;
                            assert(self.users_view() =~= directory_step(
                                old(self).users_view(),
                                req,
                            ).0);
                            (DirectoryReply::FlagSetTrue, true)
                        },
                        Some(FlagOp::SetFalse) => {
                            self.users[i].unread = false;
                            assert(self.users_view() =~= directory_step(
                                old(self).users_view(),
                                req,
                            ).0);
                            (DirectoryReply::FlagSetFalse, true)
                        },
                        None => (DirectoryReply::InvalidRw, false),
                    },
                }
            },
            DirectoryRequest::Unknown => (DirectoryReply::InvalidAction, false),
        }
    }
}

} // verus!
