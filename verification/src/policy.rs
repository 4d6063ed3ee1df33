//! The policy store: for each resource and action, at most one expression,
//! kept in its binary form.
//!
//! The store is the table `policy` with the columns `resource`, `action` and
//! `expression` and the primary key (`resource`, `action`). Whoever persists
//! the table loads its rows with [`PolicySqlxDatabase::new`] and writes back
//! what [`PolicySqlxDatabase::rows`] returns.

use crate::codec::{decode_expr, decoded, encode, encode_expr, fits, lemma_decoded_of_encode};
use crate::error::{Error, Kind};
use crate::expr::{Expr, ExprView};
use vstd::prelude::*;

verus! {

/// The name of a protected object.
#[derive(Debug, PartialEq, Eq)]
pub struct Resource {
    name: String,
}

impl View for Resource {
    type V = Seq<char>;

    closed spec fn view(&self) -> Seq<char> {
        self.name@
    }
}

impl Clone for Resource {
    fn clone(&self) -> (r: Resource)
        ensures
            r@ == self@,
    {
        Resource { name: self.name.clone() }
    }
}

impl Resource {
    pub fn new(name: &str) -> (r: Resource)
        ensures
            r@ == name@,
    {
        Resource { name: name.to_owned() }
    }

    pub fn as_str(&self) -> (s: &str)
        ensures
            s@ == self@,
    {
        self.name.as_str()
    }

    /// The text that stands for the resource in the table.
    pub fn to_sql(&self) -> (s: String)
        ensures
            s@ == self@,
    {
        self.name.clone()
    }
}

impl From<&str> for Resource {
    fn from(name: &str) -> (r: Resource) {
        Resource::new(name)
    }
}

impl vstd::std_specs::convert::FromSpecImpl<&str> for Resource {
    open spec fn obeys_from_spec() -> bool {
        false
    }

    open spec fn from_spec(name: &str) -> Resource {
        arbitrary()
    }
}

/// The name of an operation on a resource.
#[derive(Debug, PartialEq, Eq)]
pub struct Action {
    name: String,
}

impl View for Action {
    type V = Seq<char>;

    closed spec fn view(&self) -> Seq<char> {
        self.name@
    }
}

impl Clone for Action {
    fn clone(&self) -> (r: Action)
        ensures
            r@ == self@,
    {
        Action { name: self.name.clone() }
    }
}

impl Action {
    pub fn new(name: &str) -> (r: Action)
        ensures
            r@ == name@,
    {
        Action { name: name.to_owned() }
    }

    pub fn as_str(&self) -> (s: &str)
        ensures
            s@ == self@,
    {
        self.name.as_str()
    }

    /// The text that stands for the action in the table.
    pub fn to_sql(&self) -> (s: String)
        ensures
            s@ == self@,
    {
        self.name.clone()
    }
}

impl From<&str> for Action {
    fn from(name: &str) -> (r: Action) {
        Action::new(name)
    }
}

impl vstd::std_specs::convert::FromSpecImpl<&str> for Action {
    open spec fn obeys_from_spec() -> bool {
        false
    }

    open spec fn from_spec(name: &str) -> Action {
        arbitrary()
    }
}

/// A row of the table.
#[derive(Debug, PartialEq, Eq)]
pub struct PolicyRow {
    resource: String,
    action: String,
    expression: Vec<u8>,
}

/// What a row stands for.
pub struct PolicyRowView {
    pub resource: Seq<char>,
    pub action: Seq<char>,
    pub expression: Seq<u8>,
}

impl View for PolicyRow {
    type V = PolicyRowView;

    closed spec fn view(&self) -> PolicyRowView {
        PolicyRowView {
            resource: self.resource@,
            action: self.action@,
            expression: self.expression@,
        }
    }
}

impl Clone for PolicyRow {
    fn clone(&self) -> (r: PolicyRow)
        ensures
            r@ == self@,
    {
        PolicyRow {
            resource: self.resource.clone(),
            action: self.action.clone(),
            expression: self.expression.clone(),
        }
    }
}

impl PolicyRow {
    pub fn new(resource: &str, action: &str, expression: Vec<u8>) -> (row: PolicyRow)
        ensures
            row@ == (PolicyRowView {
                resource: resource@,
                action: action@,
                expression: expression@,
            }),
    {
        PolicyRow { resource: resource.to_owned(), action: action.to_owned(), expression }
    }

    /// The resource of the row.
    pub fn resource(&self) -> (r: Resource)
        ensures
            r@ == self@.resource,
    {
        Resource::new(self.resource.as_str())
    }

    /// The action of the row.
    pub fn action(&self) -> (a: Action)
        ensures
            a@ == self@.action,
    {
        Action::new(self.action.as_str())
    }

    /// The stored bytes of the row.
    pub fn bytes(&self) -> (b: &Vec<u8>)
        ensures
            b@ == self@.expression,
    {
        &self.expression
    }

    /// The expression of the row, or the failure `Corruption` where the
    /// stored bytes are not the binary form of an expression.
    pub fn expression(&self) -> (r: Result<Expr, Error>)
        ensures
            match r {
                Ok(e) => decoded(self@.expression) == Some(e@),
                Err(err) => decoded(self@.expression) is None && err.kind == Kind::Corruption,
            },
    {
        decode_expr(self.expression.as_slice())
    }
}

/// Whether `row` is the row of the key (`resource`, `action`).
pub open spec fn has_key(row: PolicyRowView, resource: Seq<char>, action: Seq<char>) -> bool {
    row.resource == resource && row.action == action
}

/// Whether no two rows share a key.
pub open spec fn unique_keys(rows: Seq<PolicyRowView>) -> bool {
    forall|i: int, j: int|
        0 <= i < j < rows.len() ==> !has_key(#[trigger] rows[j], (#[trigger] rows[i]).resource, rows[i].action)
}

/// Whether the table holds a row of the key (`resource`, `action`).
pub open spec fn holds(rows: Seq<PolicyRowView>, resource: Seq<char>, action: Seq<char>) -> bool {
    exists|i: int| 0 <= i < rows.len() && has_key(#[trigger] rows[i], resource, action)
}

/// The index of a row of the key (`resource`, `action`), where there is one.
pub open spec fn position(rows: Seq<PolicyRowView>, resource: Seq<char>, action: Seq<char>)
    -> int {
    choose|i: int| 0 <= i < rows.len() && has_key(#[trigger] rows[i], resource, action)
}

/// The stored bytes under the key (`resource`, `action`).
pub open spec fn spec_get(rows: Seq<PolicyRowView>, resource: Seq<char>, action: Seq<char>)
    -> Option<Seq<u8>> {
    if holds(rows, resource, action) {
        Some(rows[position(rows, resource, action)].expression)
    } else {
        None
    }
}

/// The table after `row` was written: it replaces the row of its key where
/// there is one, and is a new last row where there is none.
pub open spec fn spec_upsert(rows: Seq<PolicyRowView>, row: PolicyRowView) -> Seq<PolicyRowView> {
    if holds(rows, row.resource, row.action) {
        rows.update(position(rows, row.resource, row.action), row)
    } else {
        rows.push(row)
    }
}

/// The table after the row of the key (`resource`, `action`) was deleted.
pub open spec fn spec_delete(rows: Seq<PolicyRowView>, resource: Seq<char>, action: Seq<char>)
    -> Seq<PolicyRowView> {
    if holds(rows, resource, action) {
        rows.remove(position(rows, resource, action))
    } else {
        rows
    }
}

/// The rows of `resource`, in the order of the table.
pub open spec fn of_resource(rows: Seq<PolicyRowView>, resource: Seq<char>) -> Seq<PolicyRowView>
    decreases rows.len(),
{
    if rows.len() == 0 {
        Seq::empty()
    } else if rows.last().resource == resource {
        of_resource(rows.drop_last(), resource).push(rows.last())
    } else {
        of_resource(rows.drop_last(), resource)
    }
}

/// The table after `rows` were written to an empty table, one by one.
pub open spec fn spec_load(rows: Seq<PolicyRowView>) -> Seq<PolicyRowView>
    decreases rows.len(),
{
    if rows.len() == 0 {
        Seq::empty()
    } else {
        spec_upsert(spec_load(rows.drop_last()), rows.last())
    }
}

/// The actions and expressions of `rows`, or nothing where the bytes of some
/// row are not the binary form of an expression.
pub open spec fn spec_policies(rows: Seq<PolicyRowView>) -> Option<Seq<(Seq<char>, ExprView)>>
    decreases rows.len(),
{
    if rows.len() == 0 {
        Some(Seq::empty())
    } else {
        match (spec_policies(rows.drop_last()), decoded(rows.last().expression)) {
            (Some(list), Some(e)) => Some(list.push((rows.last().action, e))),
            _ => None,
        }
    }
}

/// What a list of policies stands for.
pub open spec fn policies_view(list: Seq<(Action, Expr)>) -> Seq<(Seq<char>, ExprView)> {
    Seq::new(list.len(), |i: int| (list[i].0@, list[i].1@))
}

/// With unique keys, a row of a key is the row of that key.
pub proof fn lemma_position(rows: Seq<PolicyRowView>, i: int)
    requires
        unique_keys(rows),
        0 <= i < rows.len(),
    ensures
        holds(rows, rows[i].resource, rows[i].action),
        position(rows, rows[i].resource, rows[i].action) == i,
{
    let p = position(rows, rows[i].resource, rows[i].action);
    assert(has_key(rows[i], rows[i].resource, rows[i].action));
    if p < i {
        assert(!has_key(rows[i], rows[p].resource, rows[p].action));
    } else if i < p {
        assert(!has_key(rows[p], rows[i].resource, rows[i].action));
    }
}

/// The rows of a resource in a table of two parts.
pub proof fn lemma_of_resource_add(
    a: Seq<PolicyRowView>,
    b: Seq<PolicyRowView>,
    resource: Seq<char>,
)
    ensures
        of_resource(a + b, resource) == of_resource(a, resource) + of_resource(b, resource),
    decreases b.len(),
{
    if b.len() == 0 {
        assert(a + b =~= a);
        assert(of_resource(a, resource) + of_resource(b, resource) =~= of_resource(a, resource));
    } else {
        assert((a + b).drop_last() =~= a + b.drop_last());
        assert((a + b).last() == b.last());
        lemma_of_resource_add(a, b.drop_last(), resource);
        assert(of_resource(a + b, resource) =~= of_resource(a, resource) + of_resource(
            b,
            resource,
        ));
    }
}

/// The rows of a resource in a table of one row.
pub proof fn lemma_of_resource_one(row: PolicyRowView, resource: Seq<char>)
    ensures
        of_resource(seq![row], resource) == if row.resource == resource {
            seq![row]
        } else {
            Seq::empty()
        },
{
    assert(seq![row].drop_last() =~= Seq::<PolicyRowView>::empty());
    assert(of_resource(seq![row].drop_last(), resource) =~= Seq::<PolicyRowView>::empty());
    if row.resource == resource {
        assert(of_resource(seq![row], resource) =~= seq![row]);
    }
}

/// Writing keeps the keys unique, and the written bytes are what the key
/// then holds.
pub proof fn lemma_set_then_get(rows: Seq<PolicyRowView>, row: PolicyRowView)
    requires
        unique_keys(rows),
    ensures
        unique_keys(spec_upsert(rows, row)),
        spec_get(spec_upsert(rows, row), row.resource, row.action) == Some(row.expression),
{
    let after = spec_upsert(rows, row);
    if holds(rows, row.resource, row.action) {
        let p = position(rows, row.resource, row.action);
        assert(after[p] == row);
        assert forall|i: int, j: int| 0 <= i < j < after.len() implies !has_key(
            #[trigger] after[j],
            (#[trigger] after[i]).resource,
            after[i].action,
        ) by {
            assert(has_key(rows[i], after[i].resource, after[i].action));
            assert(has_key(rows[j], after[j].resource, after[j].action));
        }
        lemma_position(after, p);
    } else {
        let p = rows.len() as int;
        assert(after[p] == row);
        assert forall|i: int, j: int| 0 <= i < j < after.len() implies !has_key(
            #[trigger] after[j],
            (#[trigger] after[i]).resource,
            after[i].action,
        ) by {
            if j == p {
                assert(!has_key(rows[i], row.resource, row.action));
            } else {
                assert(after[i] == rows[i] && after[j] == rows[j]);
            }
        }
        lemma_position(after, p);
    }
}

/// After an expression was stored under a key, the key holds an expression
/// that is structurally equal to it.
pub proof fn lemma_set_then_get_policy(
    rows: Seq<PolicyRowView>,
    resource: Seq<char>,
    action: Seq<char>,
    e: ExprView,
)
    requires
        unique_keys(rows),
        fits(e),
    ensures
        ({
            let row = PolicyRowView { resource, action, expression: encode(e) };
            let stored = spec_get(spec_upsert(rows, row), resource, action);
            stored is Some && decoded(stored->0) == Some(e)
        }),
{
    let row = PolicyRowView { resource, action, expression: encode(e) };
    lemma_set_then_get(rows, row);
    lemma_decoded_of_encode(e);
}

/// Writing under one key changes what no other key holds.
pub proof fn lemma_set_keeps_others(
    rows: Seq<PolicyRowView>,
    row: PolicyRowView,
    resource: Seq<char>,
    action: Seq<char>,
)
    requires
        unique_keys(rows),
        !has_key(row, resource, action),
    ensures
        spec_get(spec_upsert(rows, row), resource, action) == spec_get(rows, resource, action),
{
    let after = spec_upsert(rows, row);
    lemma_set_then_get(rows, row);
    if holds(rows, resource, action) {
        let q = position(rows, resource, action);
        lemma_position(rows, q);
        assert(after[q] == rows[q]);
        lemma_position(after, q);
    } else {
        if holds(after, resource, action) {
            let q = position(after, resource, action);
            if q < rows.len() {
                assert(has_key(rows[q], resource, action) || after[q] == row);
            }
        }
    }
}

/// Deleting keeps the keys unique, the deleted key holds nothing
/// afterwards, and every other key holds what it held.
pub proof fn lemma_delete(
    rows: Seq<PolicyRowView>,
    resource: Seq<char>,
    action: Seq<char>,
    other_resource: Seq<char>,
    other_action: Seq<char>,
)
    requires
        unique_keys(rows),
    ensures
        unique_keys(spec_delete(rows, resource, action)),
        spec_get(spec_delete(rows, resource, action), resource, action) is None,
        !(other_resource == resource && other_action == action) ==> spec_get(
            spec_delete(rows, resource, action),
            other_resource,
            other_action,
        ) == spec_get(rows, other_resource, other_action),
{
    let after = spec_delete(rows, resource, action);
    if holds(rows, resource, action) {
        let p = position(rows, resource, action);
        assert forall|i: int| 0 <= i < after.len() implies #[trigger] after[i] == rows[if i < p {
            i
        } else {
            i + 1
        }] by {}
        assert forall|i: int, j: int| 0 <= i < j < after.len() implies !has_key(
            #[trigger] after[j],
            (#[trigger] after[i]).resource,
            after[i].action,
        ) by {
            let i0 = if i < p {
                i
            } else {
                i + 1
            };
            let j0 = if j < p {
                j
            } else {
                j + 1
            };
            assert(after[i] == rows[i0] && after[j] == rows[j0]);
        }
        if holds(after, resource, action) {
            let q = position(after, resource, action);
            let q0 = if q < p {
                q
            } else {
                q + 1
            };
            assert(after[q] == rows[q0]);
            lemma_position(rows, q0);
            lemma_position(rows, p);
        }
        if !(other_resource == resource && other_action == action) {
            if holds(rows, other_resource, other_action) {
                let q0 = position(rows, other_resource, other_action);
                lemma_position(rows, q0);
                let q = if q0 < p {
                    q0
                } else {
                    q0 - 1
                };
                assert(after[q] == rows[q0]);
                lemma_position(after, q);
            } else if holds(after, other_resource, other_action) {
                let q = position(after, other_resource, other_action);
                let q0 = if q < p {
                    q
                } else {
                    q + 1
                };
                assert(after[q] == rows[q0]);
            }
        }
    }
}

/// Writing under a key that the resource did not hold adds one to the
/// number of its policies; writing under a key that it held leaves the
/// number as it was.
pub proof fn lemma_count_after_set(rows: Seq<PolicyRowView>, row: PolicyRowView)
    requires
        unique_keys(rows),
    ensures
        of_resource(spec_upsert(rows, row), row.resource).len() == of_resource(
            rows,
            row.resource,
        ).len() + if holds(rows, row.resource, row.action) {
            0int
        } else {
            1int
        },
{
    let r = row.resource;
    if holds(rows, row.resource, row.action) {
        let p = position(rows, row.resource, row.action);
        let a = rows.take(p);
        let b = rows.skip(p + 1);
        assert(rows =~= a + seq![rows[p]] + b);
        assert(spec_upsert(rows, row) =~= a + seq![row] + b);
        lemma_of_resource_add(a + seq![rows[p]], b, r);
        lemma_of_resource_add(a, seq![rows[p]], r);
        lemma_of_resource_add(a + seq![row], b, r);
        lemma_of_resource_add(a, seq![row], r);
        lemma_of_resource_one(rows[p], r);
        lemma_of_resource_one(row, r);
    } else {
        let after = rows.push(row);
        assert(after.drop_last() =~= rows);
        assert(after.last() == row);
    }
}

/// Deleting a key that the resource held takes one from the number of its
/// policies; deleting any other key leaves the number as it was.
pub proof fn lemma_count_after_delete(
    rows: Seq<PolicyRowView>,
    resource: Seq<char>,
    action: Seq<char>,
)
    requires
        unique_keys(rows),
    ensures
        of_resource(spec_delete(rows, resource, action), resource).len() == of_resource(
            rows,
            resource,
        ).len() - if holds(rows, resource, action) {
            1int
        } else {
            0int
        },
{
    if holds(rows, resource, action) {
        let p = position(rows, resource, action);
        let a = rows.take(p);
        let b = rows.skip(p + 1);
        assert(rows =~= a + seq![rows[p]] + b);
        assert(spec_delete(rows, resource, action) =~= a + b);
        lemma_of_resource_add(a + seq![rows[p]], b, resource);
        lemma_of_resource_add(a, seq![rows[p]], resource);
        lemma_of_resource_add(a, b, resource);
        lemma_of_resource_one(rows[p], resource);
    }
}

/// Deleting a key of one resource changes the policies of no other
/// resource, and of the same resource only the deleted one goes.
pub proof fn lemma_delete_keeps_other_resources(
    rows: Seq<PolicyRowView>,
    resource: Seq<char>,
    action: Seq<char>,
    other: Seq<char>,
)
    requires
        unique_keys(rows),
        other != resource,
    ensures
        of_resource(spec_delete(rows, resource, action), other) == of_resource(rows, other),
{
    if holds(rows, resource, action) {
        let p = position(rows, resource, action);
        let a = rows.take(p);
        let b = rows.skip(p + 1);
        assert(rows =~= a + seq![rows[p]] + b);
        assert(spec_delete(rows, resource, action) =~= a + b);
        lemma_of_resource_add(a + seq![rows[p]], b, other);
        lemma_of_resource_add(a, seq![rows[p]], other);
        lemma_of_resource_add(a, b, other);
        lemma_of_resource_one(rows[p], other);
        assert(of_resource(a, other) + Seq::<PolicyRowView>::empty() =~= of_resource(a, other));
    }
}

/// Where some of the first rows do not decode, the rows do not decode.
pub proof fn lemma_policies_prefix(a: Seq<PolicyRowView>, b: Seq<PolicyRowView>)
    requires
        spec_policies(a) is None,
    ensures
        spec_policies(a + b) is None,
    decreases b.len(),
{
    if b.len() == 0 {
        assert(a + b =~= a);
    } else {
        assert((a + b).drop_last() =~= a + b.drop_last());
        lemma_policies_prefix(a, b.drop_last());
    }
}

/// What a vector of rows stands for.
pub open spec fn rows_view(rows: Seq<PolicyRow>) -> Seq<PolicyRowView> {
    rows.map_values(|r: PolicyRow| r@)
}

/// The policy store.
#[derive(Debug)]
pub struct PolicySqlxDatabase {
    rows: Vec<PolicyRow>,
}

impl View for PolicySqlxDatabase {
    type V = Seq<PolicyRowView>;

    closed spec fn view(&self) -> Seq<PolicyRowView> {
        rows_view(self.rows@)
    }
}

impl PolicySqlxDatabase {
    /// The invariant of the store: no two rows share a key.
    pub open spec fn wf(&self) -> bool {
        unique_keys(self@)
    }

    /// A store without policies.
    pub fn create() -> (db: PolicySqlxDatabase)
        ensures
            db.wf(),
            db@ == Seq::<PolicyRowView>::empty(),
    {
        let db = PolicySqlxDatabase { rows: Vec::new() };
        assert(db@ =~= Seq::<PolicyRowView>::empty());
        db
    }

    /// The store that holds `rows`. Where two rows share a key, the later
    /// one counts.
    pub fn new(rows: Vec<PolicyRow>) -> (db: PolicySqlxDatabase)
        ensures
            db.wf(),
            db@ == spec_load(rows_view(rows@)),
    {
        let mut db = PolicySqlxDatabase::create();
        let mut i: usize = 0;
        let ghost views = rows_view(rows@);
        assert(views.take(0) =~= Seq::<PolicyRowView>::empty());
        while i < rows.len()
            invariant
                i <= rows@.len(),
                views == rows_view(rows@),
                db.wf(),
                db@ == spec_load(views.take(i as int)),
            decreases rows.len() - i,
        {
            proof {
                assert(views.take(i + 1).drop_last() =~= views.take(i as int));
                assert(views.take(i + 1).last() == rows@[i as int]@);
            }
            db.put(rows[i].clone());
            i = i + 1;
        }
        assert(views.take(i as int) =~= views);
        db
    }

    /// The rows of the table.
    pub fn rows(&self) -> (rows: &Vec<PolicyRow>)
        ensures
            rows_view(rows@) == self@,
    {
        &self.rows
    }

    fn find(&self, resource: &str, action: &str) -> (r: Option<usize>)
        requires
            self.wf(),
        ensures
            match r {
                Some(i) => i < self@.len() && holds(self@, resource@, action@) && position(
                    self@,
                    resource@,
                    action@,
                ) == i,
                None => !holds(self@, resource@, action@),
            },
    {
        let wanted_resource = resource.to_owned();
        let wanted_action = action.to_owned();
        let mut i: usize = 0;
        while i < self.rows.len()
            invariant
                i <= self.rows@.len(),
                self@.len() == self.rows@.len(),
                self.wf(),
                wanted_resource@ == resource@,
                wanted_action@ == action@,
                forall|j: int| 0 <= j < i ==> !has_key(#[trigger] self@[j], resource@, action@),
            decreases self.rows.len() - i,
        {
            if self.rows[i].resource == wanted_resource && self.rows[i].action == wanted_action {
                proof {
                    assert(has_key(self@[i as int], resource@, action@));
                    lemma_position(self@, i as int);
                }
                return Some(i);
            }
            i = i + 1;
        }
        None
    }

    fn put(&mut self, row: PolicyRow)
        requires
            old(self).wf(),
        ensures
            final(self).wf(),
            final(self)@ == spec_upsert(old(self)@, row@),
    {
        proof {
            lemma_set_then_get(self@, row@);
        }
        let ghost before = self@;
        match self.find(row.resource.as_str(), row.action.as_str()) {
            Some(i) => {
                self.rows.set(i, row);
                assert(self@ =~= before.update(i as int, row@));
            },
            None => {
                self.rows.push(row);
                assert(self@ =~= before.push(row@));
            },
        }
    }

    /// The expression that is stored for `action` on `resource`, if there
    /// is one. Stored bytes that are not the binary form of an expression
    /// are reported as `Corruption`, never as absence.
    pub fn get_policy(&self, resource: &Resource, action: &Action) -> (r: Result<
        Option<Expr>,
        Error,
    >)
        requires
            self.wf(),
        ensures
            match spec_get(self@, resource@, action@) {
                None => r matches Ok(None),
                Some(bytes) => match decoded(bytes) {
                    Some(e) => r matches Ok(Some(found)) && found@ == e,
                    None => r matches Err(err) && err.kind == Kind::Corruption,
                },
            },
    {
        match self.find(resource.as_str(), action.as_str()) {
            None => Ok(None),
            Some(i) => {
                assert(self@[i as int] == self.rows@[i as int]@);
                match self.rows[i].expression() {
                    Ok(e) => Ok(Some(e)),
                    Err(err) => Err(err),
                }
            },
        }
    }

    /// Stores `expression` for `action` on `resource`, in place of what was
    /// stored for them before.
    pub fn set_policy(&mut self, resource: &Resource, action: &Action, expression: &Expr) -> (r:
        Result<(), Error>)
        requires
            old(self).wf(),
        ensures
            final(self).wf(),
            r is Ok,
            fits(expression@),
            final(self)@ == spec_upsert(
                old(self)@,
                PolicyRowView {
                    resource: resource@,
                    action: action@,
                    expression: encode(expression@),
                },
            ),
            spec_get(final(self)@, resource@, action@) == Some(encode(expression@)),
            decoded(encode(expression@)) == Some(expression@),
    {
        let bytes = encode_expr(expression);
        let row = PolicyRow::new(resource.as_str(), action.as_str(), bytes);
        proof {
            lemma_set_then_get(self@, row@);
            lemma_decoded_of_encode(expression@);
        }
        self.put(row);
        Ok(())
    }

    /// Removes what is stored for `action` on `resource`. Where nothing is
    /// stored for them, nothing changes.
    pub fn delete_policy(&mut self, resource: &Resource, action: &Action) -> (r: Result<
        (),
        Error,
    >)
        requires
            old(self).wf(),
        ensures
            final(self).wf(),
            r is Ok,
            final(self)@ == spec_delete(old(self)@, resource@, action@),
            spec_get(final(self)@, resource@, action@) is None,
    {
        proof {
            lemma_delete(self@, resource@, action@, resource@, action@);
        }
        let ghost before = self@;
        match self.find(resource.as_str(), action.as_str()) {
            Some(i) => {
                self.rows.remove(i);
                assert(self@ =~= before.remove(i as int));
            },
            None => {},
        }
        Ok(())
    }

    /// The policies of `resource`, in the order of the table: for each
    /// action the expression that is stored for it. Stored bytes that are
    /// not the binary form of an expression are reported as `Corruption`.
    pub fn get_policies_by_resource(&self, resource: &Resource) -> (r: Result<
        Vec<(Action, Expr)>,
        Error,
    >)
        ensures
            match r {
                Ok(list) => spec_policies(of_resource(self@, resource@)) == Some(
                    policies_view(list@),
                ) && list@.len() == of_resource(self@, resource@).len(),
                Err(err) => spec_policies(of_resource(self@, resource@)) is None && err.kind
                    == Kind::Corruption,
            },
    {
        let wanted = resource.to_sql();
        let mut out: Vec<(Action, Expr)> = Vec::new();
        let mut i: usize = 0;
        assert(self@.take(0) =~= Seq::<PolicyRowView>::empty());
        assert(policies_view(out@) =~= Seq::<(Seq<char>, ExprView)>::empty());
        while i < self.rows.len()
            invariant
                i <= self.rows@.len(),
                self@.len() == self.rows@.len(),
                wanted@ == resource@,
                spec_policies(of_resource(self@.take(i as int), resource@)) == Some(
                    policies_view(out@),
                ),
                out@.len() == of_resource(self@.take(i as int), resource@).len(),
            decreases self.rows.len() - i,
        {
            let ghost before = self@.take(i as int);
            let ghost next = self@.take(i + 1);
            proof {
                assert(next.drop_last() =~= before);
                assert(next.last() == self.rows@[i as int]@);
            }
            if self.rows[i].resource == wanted {
                match self.rows[i].expression() {
                    Err(err) => {
                        proof {
                            let rest = self@.skip(i + 1);
                            assert(self@ =~= next + rest);
                            lemma_of_resource_add(next, rest, resource@);
                            lemma_policies_prefix(
                                of_resource(next, resource@),
                                of_resource(rest, resource@),
                            );
                        }
                        return Err(err);
                    },
                    Ok(e) => {
                        let ghost listed = policies_view(out@);
                        let ghost selected = of_resource(before, resource@);
                        let action = self.rows[i].action();
                        out.push((action, e));
                        proof {
                            assert(policies_view(out@) =~= listed.push((action@, e@)));
                            assert(of_resource(next, resource@) == selected.push(next.last()));
                            assert(selected.push(next.last()).drop_last() =~= selected);
                        }
                    },
                }
            }
            i = i + 1;
        }
        assert(self@.take(i as int) =~= self@);
        Ok(out)
    }
}

} // verus!
