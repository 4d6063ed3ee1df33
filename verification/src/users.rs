//! The users of a session: who enrolled, and who of them is the default.
//!
//! The store is the table `user` with the primary key `email`. Whoever
//! persists the table loads its rows with [`UsersSqlxDatabase::new`] and
//! writes back what [`UsersSqlxDatabase::rows`] returns.

use vstd::prelude::*;

verus! {

/// What is known of a user.
#[derive(Debug, PartialEq, Eq)]
pub struct UserInfo {
    pub sub: String,
    pub nickname: String,
    pub name: String,
    pub picture: String,
    pub updated_at: String,
    pub email: String,
    pub email_verified: bool,
}

pub struct UserInfoView {
    pub sub: Seq<char>,
    pub nickname: Seq<char>,
    pub name: Seq<char>,
    pub picture: Seq<char>,
    pub updated_at: Seq<char>,
    pub email: Seq<char>,
    pub email_verified: bool,
}

impl View for UserInfo {
    type V = UserInfoView;

    open spec fn view(&self) -> UserInfoView {
        UserInfoView {
            sub: self.sub@,
            nickname: self.nickname@,
            name: self.name@,
            picture: self.picture@,
            updated_at: self.updated_at@,
            email: self.email@,
            email_verified: self.email_verified,
        }
    }
}

impl Clone for UserInfo {
    fn clone(&self) -> (r: UserInfo)
        ensures
            r@ == self@,
    {
        UserInfo {
            sub: self.sub.clone(),
            nickname: self.nickname.clone(),
            name: self.name.clone(),
            picture: self.picture.clone(),
            updated_at: self.updated_at.clone(),
            email: self.email.clone(),
            email_verified: self.email_verified,
        }
    }
}

/// A row of the table.
#[derive(Debug, PartialEq, Eq)]
pub struct UserRow {
    email: String,
    sub: String,
    nickname: String,
    name: String,
    picture: String,
    updated_at: String,
    email_verified: bool,
    is_default: bool,
}

/// What a row stands for.
pub struct UserRowView {
    pub user: UserInfoView,
    pub is_default: bool,
}

impl View for UserRow {
    type V = UserRowView;

    closed spec fn view(&self) -> UserRowView {
        UserRowView {
            user: UserInfoView {
                sub: self.sub@,
                nickname: self.nickname@,
                name: self.name@,
                picture: self.picture@,
                updated_at: self.updated_at@,
                email: self.email@,
                email_verified: self.email_verified,
            },
            is_default: self.is_default,
        }
    }
}

impl Clone for UserRow {
    fn clone(&self) -> (r: UserRow)
        ensures
            r@ == self@,
    {
        UserRow {
            email: self.email.clone(),
            sub: self.sub.clone(),
            nickname: self.nickname.clone(),
            name: self.name.clone(),
            picture: self.picture.clone(),
            updated_at: self.updated_at.clone(),
            email_verified: self.email_verified,
            is_default: self.is_default,
        }
    }
}

impl UserRow {
    pub fn new(user: &UserInfo, is_default: bool) -> (row: UserRow)
        ensures
            row@ == (UserRowView { user: user@, is_default }),
    {
        UserRow {
            email: user.email.clone(),
            sub: user.sub.clone(),
            nickname: user.nickname.clone(),
            name: user.name.clone(),
            picture: user.picture.clone(),
            updated_at: user.updated_at.clone(),
            email_verified: user.email_verified,
            is_default,
        }
    }

    /// The user of the row.
    pub fn user(&self) -> (u: UserInfo)
        ensures
            u@ == self@.user,
    {
        UserInfo {
            email: self.email.clone(),
            sub: self.sub.clone(),
            nickname: self.nickname.clone(),
            name: self.name.clone(),
            picture: self.picture.clone(),
            updated_at: self.updated_at.clone(),
            email_verified: self.email_verified,
        }
    }

    /// Whether the row is marked as the default.
    pub fn is_default(&self) -> (b: bool)
        ensures
            b == self@.is_default,
    {
        self.is_default
    }
}

/// Whether no two rows share an email.
pub open spec fn unique_emails(rows: Seq<UserRowView>) -> bool {
    forall|i: int, j: int|
        0 <= i < j < rows.len() ==> (#[trigger] rows[i]).user.email != (
        #[trigger] rows[j]).user.email
}

/// Whether the table holds a user with `email`.
pub open spec fn has_user(rows: Seq<UserRowView>, email: Seq<char>) -> bool {
    exists|i: int| 0 <= i < rows.len() && (#[trigger] rows[i]).user.email == email
}

/// The index of a user with `email`, where there is one.
pub open spec fn index_user(rows: Seq<UserRowView>, email: Seq<char>) -> int {
    choose|i: int| 0 <= i < rows.len() && (#[trigger] rows[i]).user.email == email
}

/// The user with `email`, if there is one.
pub open spec fn spec_user(rows: Seq<UserRowView>, email: Seq<char>) -> Option<UserInfoView> {
    if has_user(rows, email) {
        Some(rows[index_user(rows, email)].user)
    } else {
        None
    }
}

/// The index of the first row that is marked as the default, if there is
/// one.
pub open spec fn default_index(rows: Seq<UserRowView>) -> Option<int>
    decreases rows.len(),
{
    if rows.len() == 0 {
        None
    } else {
        match default_index(rows.drop_last()) {
            Some(i) => Some(i),
            None => if rows.last().is_default {
                Some(rows.len() - 1)
            } else {
                None
            },
        }
    }
}

/// The default user: the user of the first row that is marked as the
/// default.
pub open spec fn spec_default_user(rows: Seq<UserRowView>) -> Option<UserInfoView> {
    match default_index(rows) {
        Some(i) => Some(rows[i].user),
        None => None,
    }
}

/// The table after `user` was stored: the row of its email is replaced, or
/// a new last row is added. The user stays the default where it is the
/// default user, and is not the default otherwise.
pub open spec fn spec_store_user(rows: Seq<UserRowView>, user: UserInfoView) -> Seq<UserRowView> {
    let is_default = match spec_default_user(rows) {
        Some(d) => d.email == user.email,
        None => false,
    };
    let row = UserRowView { user, is_default };
    if has_user(rows, user.email) {
        rows.update(index_user(rows, user.email), row)
    } else {
        rows.push(row)
    }
}

/// The table after the user with `email` was marked as the default. No
/// other mark is taken away.
pub open spec fn spec_set_default_user(rows: Seq<UserRowView>, email: Seq<char>) -> Seq<
    UserRowView,
> {
    if has_user(rows, email) {
        let i = index_user(rows, email);
        rows.update(i, UserRowView { user: rows[i].user, is_default: true })
    } else {
        rows
    }
}

/// The table after the user with `email` was deleted.
pub open spec fn spec_delete_user(rows: Seq<UserRowView>, email: Seq<char>) -> Seq<UserRowView> {
    if has_user(rows, email) {
        rows.remove(index_user(rows, email))
    } else {
        rows
    }
}

/// The users of the table, in its order.
pub open spec fn users_of(rows: Seq<UserRowView>) -> Seq<UserInfoView> {
    Seq::new(rows.len(), |i: int| rows[i].user)
}

/// With unique emails, a row of an email is the row of that email.
pub proof fn lemma_index_user(rows: Seq<UserRowView>, i: int)
    requires
        unique_emails(rows),
        0 <= i < rows.len(),
    ensures
        has_user(rows, rows[i].user.email),
        index_user(rows, rows[i].user.email) == i,
{
    let p = index_user(rows, rows[i].user.email);
    assert(rows[i].user.email == rows[i].user.email);
    if p < i {
        assert(rows[p].user.email != rows[i].user.email);
    } else if i < p {
        assert(rows[i].user.email != rows[p].user.email);
    }
}

/// The index of the default is the index of the first marked row.
pub proof fn lemma_default_index(rows: Seq<UserRowView>)
    ensures
        match default_index(rows) {
            Some(i) => 0 <= i < rows.len() && rows[i].is_default && forall|j: int|
                0 <= j < i ==> !(#[trigger] rows[j]).is_default,
            None => forall|j: int| 0 <= j < rows.len() ==> !(#[trigger] rows[j]).is_default,
        },
    decreases rows.len(),
{
    if rows.len() > 0 {
        lemma_default_index(rows.drop_last());
        assert forall|j: int| 0 <= j < rows.len() - 1 implies rows.drop_last()[j] == rows[j] by {}
        match default_index(rows.drop_last()) {
            Some(i) => {
                assert(rows.drop_last()[i] == rows[i]);
                assert forall|j: int| 0 <= j < i implies !(#[trigger] rows[j]).is_default by {
                    assert(rows.drop_last()[j] == rows[j]);
                }
            },
            None => {
                assert forall|j: int| 0 <= j < rows.len() - 1 implies !(
                #[trigger] rows[j]).is_default by {
                    assert(rows.drop_last()[j] == rows[j]);
                }
            },
        }
    }
}

/// The first marked row is the row of the default.
pub proof fn lemma_default_index_is(rows: Seq<UserRowView>, i: int)
    requires
        0 <= i < rows.len(),
        rows[i].is_default,
        forall|j: int| 0 <= j < i ==> !(#[trigger] rows[j]).is_default,
    ensures
        default_index(rows) == Some(i),
{
    lemma_default_index(rows);
    match default_index(rows) {
        Some(k) => {
            if k < i {
                assert(!rows[k].is_default);
            } else if i < k {
                assert(!rows[i].is_default);
            }
        },
        None => {
            assert(!rows[i].is_default);
        },
    }
}

/// Deleting a user who is not the default user leaves the default user as
/// it was; the emails stay unique, and the deleted user is gone.
pub proof fn lemma_delete_keeps_default(rows: Seq<UserRowView>, email: Seq<char>)
    requires
        unique_emails(rows),
        spec_default_user(rows) matches Some(d) ==> d.email != email,
    ensures
        unique_emails(spec_delete_user(rows, email)),
        spec_default_user(spec_delete_user(rows, email)) == spec_default_user(rows),
        spec_user(spec_delete_user(rows, email), email) is None,
        spec_delete_user(rows, email).len() == rows.len() - if has_user(rows, email) {
            1int
        } else {
            0int
        },
{
    let after = spec_delete_user(rows, email);
    if has_user(rows, email) {
        let p = index_user(rows, email);
        assert forall|i: int| 0 <= i < after.len() implies #[trigger] after[i] == rows[if i < p {
            i
        } else {
            i + 1
        }] by {}
        assert forall|i: int, j: int| 0 <= i < j < after.len() implies (
        #[trigger] after[i]).user.email != (#[trigger] after[j]).user.email by {
            let i0 = if i < p {
                i
            } else {
                i + 1
            };
            let j0 = if j < p {
                j
            } else {
                j + 1
            };
            assert(after[i] == rows[i0] && after[j] == rows[j0]);
        }
        if has_user(after, email) {
            let q = index_user(after, email);
            let q0 = if q < p {
                q
            } else {
                q + 1
            };
            assert(after[q] == rows[q0]);
            lemma_index_user(rows, q0);
            lemma_index_user(rows, p);
        }
        lemma_default_index(rows);
        match default_index(rows) {
            Some(d) => {
                let d1 = if d < p {
                    d
                } else {
                    d - 1
                };
                assert(after[d1] == rows[d]);
                assert forall|j: int| 0 <= j < d1 implies !(#[trigger] after[j]).is_default by {
                    let j0 = if j < p {
                        j
                    } else {
                        j + 1
                    };
                    assert(after[j] == rows[j0]);
                    assert(!rows[j0].is_default);
                }
                lemma_default_index_is(after, d1);
            },
            None => {
                lemma_default_index(after);
                match default_index(after) {
                    Some(k) => {
                        let k0 = if k < p {
                            k
                        } else {
                            k + 1
                        };
                        assert(after[k] == rows[k0]);
                        assert(!rows[k0].is_default);
                    },
                    None => {},
                }
            },
        }
    }
}

/// What a vector of rows stands for.
pub open spec fn rows_view(rows: Seq<UserRow>) -> Seq<UserRowView> {
    rows.map_values(|r: UserRow| r@)
}

/// What a vector of users stands for.
pub open spec fn users_view(users: Seq<UserInfo>) -> Seq<UserInfoView> {
    Seq::new(users.len(), |i: int| users[i]@)
}

/// The view of an optional user.
pub open spec fn opt_user(o: Option<UserInfo>) -> Option<UserInfoView> {
    match o {
        Some(u) => Some(u@),
        None => None,
    }
}

/// The store of users.
#[derive(Debug)]
pub struct UsersSqlxDatabase {
    rows: Vec<UserRow>,
}

impl View for UsersSqlxDatabase {
    type V = Seq<UserRowView>;

    closed spec fn view(&self) -> Seq<UserRowView> {
        rows_view(self.rows@)
    }
}

impl UsersSqlxDatabase {
    /// The invariant of the store: no two rows share an email.
    pub open spec fn wf(&self) -> bool {
        unique_emails(self@)
    }

    /// A store without users.
    pub fn create() -> (db: UsersSqlxDatabase)
        ensures
            db.wf(),
            db@ == Seq::<UserRowView>::empty(),
    {
        let db = UsersSqlxDatabase { rows: Vec::new() };
        assert(db@ =~= Seq::<UserRowView>::empty());
        db
    }

    /// The store that holds `rows`, or nothing where two rows share an
    /// email.
    pub fn new(rows: Vec<UserRow>) -> (r: Option<UsersSqlxDatabase>)
        ensures
            match r {
                Some(db) => db.wf() && db@ == rows_view(rows@),
                None => !unique_emails(rows_view(rows@)),
            },
    {
        let ghost views = rows_view(rows@);
        let mut j: usize = 0;
        while j < rows.len()
            invariant
                j <= rows@.len(),
                views == rows_view(rows@),
                forall|a: int, b: int|
                    0 <= a < b < j ==> (#[trigger] views[a]).user.email != (
                    #[trigger] views[b]).user.email,
            decreases rows.len() - j,
        {
            let mut i: usize = 0;
            while i < j
                invariant
                    i <= j < rows@.len(),
                    views == rows_view(rows@),
                    forall|a: int| 0 <= a < i ==> (#[trigger] views[a]).user.email != views[j as int].user.email,
                decreases j - i,
            {
                if rows[i].email == rows[j].email {
                    assert(views[i as int].user.email == views[j as int].user.email);
                    return None;
                }
                i = i + 1;
            }
            j = j + 1;
        }
        Some(UsersSqlxDatabase { rows })
    }

    /// The rows of the table.
    pub fn rows(&self) -> (rows: &Vec<UserRow>)
        ensures
            rows_view(rows@) == self@,
    {
        &self.rows
    }

    fn find(&self, email: &str) -> (r: Option<usize>)
        requires
            self.wf(),
        ensures
            match r {
                Some(i) => i < self@.len() && has_user(self@, email@) && index_user(self@, email@)
                    == i,
                None => !has_user(self@, email@),
            },
    {
        let wanted = email.to_owned();
        let mut i: usize = 0;
        while i < self.rows.len()
            invariant
                i <= self.rows@.len(),
                self@.len() == self.rows@.len(),
                self.wf(),
                wanted@ == email@,
                forall|j: int| 0 <= j < i ==> (#[trigger] self@[j]).user.email != email@,
            decreases self.rows.len() - i,
        {
            if self.rows[i].email == wanted {
                proof {
                    assert(self@[i as int].user.email == email@);
                    lemma_index_user(self@, i as int);
                }
                return Some(i);
            }
            i = i + 1;
        }
        None
    }

    /// The default user: the user of the first row that is marked as the
    /// default.
    pub fn get_default_user(&self) -> (r: Option<UserInfo>)
        ensures
            opt_user(r) == spec_default_user(self@),
    {
        let mut i: usize = 0;
        while i < self.rows.len()
            invariant
                i <= self.rows@.len(),
                self@.len() == self.rows@.len(),
                forall|j: int| 0 <= j < i ==> !(#[trigger] self@[j]).is_default,
            decreases self.rows.len() - i,
        {
            if self.rows[i].is_default {
                proof {
                    assert(self@[i as int].is_default);
                    lemma_default_index_is(self@, i as int);
                }
                return Some(self.rows[i].user());
            }
            i = i + 1;
        }
        proof {
            lemma_default_index(self@);
            if default_index(self@) is Some {
                assert(!self@[default_index(self@)->0].is_default);
            }
        }
        None
    }

    /// Stores `user`: see [`spec_store_user`].
    pub fn store_user(&mut self, user: &UserInfo)
        requires
            old(self).wf(),
        ensures
            final(self).wf(),
            final(self)@ == spec_store_user(old(self)@, user@),
            spec_user(final(self)@, user@.email) == Some(user@),
    {
        let is_already_default = match self.get_default_user() {
            Some(d) => d.email == user.email,
            None => false,
        };
        let row = UserRow::new(user, is_already_default);
        let ghost before = self@;
        match self.find(user.email.as_str()) {
            Some(i) => {
                self.rows.set(i, row);
                proof {
                    assert(self@ =~= before.update(i as int, row@));
                    assert forall|a: int, b: int| 0 <= a < b < self@.len() implies (
                    #[trigger] self@[a]).user.email != (#[trigger] self@[b]).user.email by {
                        assert(self@[a].user.email == before[a].user.email);
                        assert(self@[b].user.email == before[b].user.email);
                    }
                    lemma_index_user(self@, i as int);
                }
            },
            None => {
                self.rows.push(row);
                proof {
                    assert(self@ =~= before.push(row@));
                    assert forall|a: int, b: int| 0 <= a < b < self@.len() implies (
                    #[trigger] self@[a]).user.email != (#[trigger] self@[b]).user.email by {
                        if b == before.len() {
                            assert(before[a].user.email != user@.email);
                        } else {
                            assert(self@[a] == before[a] && self@[b] == before[b]);
                        }
                    }
                    lemma_index_user(self@, before.len() as int);
                }
            },
        }
    }

    /// Marks the user with `email` as the default: see
    /// [`spec_set_default_user`].
    pub fn set_default_user(&mut self, email: &str)
        requires
            old(self).wf(),
        ensures
            final(self).wf(),
            final(self)@ == spec_set_default_user(old(self)@, email@),
    {
        let ghost before = self@;
        match self.find(email) {
            Some(i) => {
                let mut row = self.rows[i].clone();
                row.is_default = true;
                self.rows.set(i, row);
                proof {
                    assert(self@ =~= before.update(
                        i as int,
                        UserRowView { user: before[i as int].user, is_default: true },
                    ));
                    assert forall|a: int, b: int| 0 <= a < b < self@.len() implies (
                    #[trigger] self@[a]).user.email != (#[trigger] self@[b]).user.email by {
                        assert(self@[a].user.email == before[a].user.email);
                        assert(self@[b].user.email == before[b].user.email);
                    }
                }
            },
            None => {},
        }
    }

    /// The user with `email`, if there is one.
    pub fn get_user(&self, email: &str) -> (r: Option<UserInfo>)
        requires
            self.wf(),
        ensures
            opt_user(r) == spec_user(self@, email@),
    {
        match self.find(email) {
            Some(i) => {
                assert(self@[i as int] == self.rows@[i as int]@);
                Some(self.rows[i].user())
            },
            None => None,
        }
    }

    /// The users, in the order of the table.
    pub fn get_users(&self) -> (r: Vec<UserInfo>)
        ensures
            users_view(r@) == users_of(self@),
    {
        let mut out: Vec<UserInfo> = Vec::new();
        let mut i: usize = 0;
        while i < self.rows.len()
            invariant
                i <= self.rows@.len(),
                self@.len() == self.rows@.len(),
                out@.len() == i,
                forall|j: int| 0 <= j < i ==> out@[j]@ == self@[j].user,
            decreases self.rows.len() - i,
        {
            assert(self@[i as int] == self.rows@[i as int]@);
            out.push(self.rows[i].user());
            i = i + 1;
        }
        assert(users_view(out@) =~= users_of(self@));
        out
    }

    /// Deletes the user with `email`. Where there is none, nothing changes.
    pub fn delete_user(&mut self, email: &str)
        requires
            old(self).wf(),
        ensures
            final(self).wf(),
            final(self)@ == spec_delete_user(old(self)@, email@),
            spec_user(final(self)@, email@) is None,
    {
        let ghost before = self@;
        match self.find(email) {
            Some(i) => {
                self.rows.remove(i);
                proof {
                    assert(self@ =~= before.remove(i as int));
                    lemma_delete_wf(before, email@);
                }
            },
            None => {},
        }
    }
}

/// Deleting keeps the emails unique, and the deleted user is gone.
pub proof fn lemma_delete_wf(rows: Seq<UserRowView>, email: Seq<char>)
    requires
        unique_emails(rows),
    ensures
        unique_emails(spec_delete_user(rows, email)),
        spec_user(spec_delete_user(rows, email), email) is None,
{
    let after = spec_delete_user(rows, email);
    if has_user(rows, email) {
        let p = index_user(rows, email);
        assert forall|i: int, j: int| 0 <= i < j < after.len() implies (
        #[trigger] after[i]).user.email != (#[trigger] after[j]).user.email by {
            let i0 = if i < p {
                i
            } else {
                i + 1
            };
            let j0 = if j < p {
                j
            } else {
                j + 1
            };
            assert(after[i] == rows[i0] && after[j] == rows[j0]);
        }
        if has_user(after, email) {
            let q = index_user(after, email);
            let q0 = if q < p {
                q
            } else {
                q + 1
            };
            assert(after[q] == rows[q0]);
            lemma_index_user(rows, q0);
            lemma_index_user(rows, p);
        }
    }
}

} // verus!
