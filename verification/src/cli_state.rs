//! The named identities that a command line session knows.

use crate::error::{Error, ErrorView, Kind};
use crate::identifier::{opt_text, Identifier};
use crate::text::concat3;
use vstd::prelude::*;

verus! {

/// An identity under the name that the user gave it.
#[derive(Debug, PartialEq, Eq)]
pub struct NamedIdentity {
    name: String,
    identifier: Identifier,
    is_default: bool,
}

/// What a named identity stands for.
pub struct NamedIdentityView {
    pub name: Seq<char>,
    pub identifier: Seq<char>,
    pub is_default: bool,
}

impl View for NamedIdentity {
    type V = NamedIdentityView;

    closed spec fn view(&self) -> NamedIdentityView {
        NamedIdentityView {
            name: self.name@,
            identifier: self.identifier@,
            is_default: self.is_default,
        }
    }
}

impl Clone for NamedIdentity {
    fn clone(&self) -> (r: NamedIdentity)
        ensures
            r@ == self@,
    {
        NamedIdentity {
            name: self.name.clone(),
            identifier: self.identifier.clone(),
            is_default: self.is_default,
        }
    }
}

impl NamedIdentity {
    pub fn new(name: &str, identifier: Identifier, is_default: bool) -> (r: NamedIdentity)
        ensures
            r@ == (NamedIdentityView { name: name@, identifier: identifier@, is_default }),
    {
        NamedIdentity { name: name.to_owned(), identifier, is_default }
    }

    /// The name of the identity.
    pub fn name(&self) -> (s: String)
        ensures
            s@ == self@.name,
    {
        self.name.clone()
    }

    /// The identifier of the identity.
    pub fn identifier(&self) -> (i: Identifier)
        ensures
            i@ == self@.identifier,
    {
        self.identifier.clone()
    }

    /// Whether this is the identity that is used where none is named.
    pub fn is_default(&self) -> (b: bool)
        ensures
            b == self@.is_default,
    {
        self.is_default
    }
}

/// Whether no two identities share a name.
pub open spec fn unique_names(rows: Seq<NamedIdentityView>) -> bool {
    forall|i: int, j: int|
        0 <= i < j < rows.len() ==> (#[trigger] rows[i]).name != (#[trigger] rows[j]).name
}

/// Whether an identity goes by `name`.
pub open spec fn is_named(rows: Seq<NamedIdentityView>, name: Seq<char>) -> bool {
    exists|i: int| 0 <= i < rows.len() && (#[trigger] rows[i]).name == name
}

/// The index of an identity that goes by `name`, where there is one.
pub open spec fn index_named(rows: Seq<NamedIdentityView>, name: Seq<char>) -> int {
    choose|i: int| 0 <= i < rows.len() && (#[trigger] rows[i]).name == name
}

/// The index of the first identity that is marked as the default, if there
/// is one.
pub open spec fn default_index(rows: Seq<NamedIdentityView>) -> Option<int>
    decreases rows.len(),
{
    if rows.len() == 0 {
        None
    } else {
        match default_index(rows.drop_last()) {
            Some(i) => Some(i),
            None => if rows.last().is_default {
                Some(rows.len() - 1)
            } else {
                None
            },
        }
    }
}

/// The index of the default is the index of the first marked identity.
pub proof fn lemma_default_index(rows: Seq<NamedIdentityView>)
    ensures
        match default_index(rows) {
            Some(i) => 0 <= i < rows.len() && rows[i].is_default && forall|j: int|
                0 <= j < i ==> !(#[trigger] rows[j]).is_default,
            None => forall|j: int| 0 <= j < rows.len() ==> !(#[trigger] rows[j]).is_default,
        },
    decreases rows.len(),
{
    if rows.len() > 0 {
        lemma_default_index(rows.drop_last());
        match default_index(rows.drop_last()) {
            Some(i) => {
                assert(rows.drop_last()[i] == rows[i]);
                assert forall|j: int| 0 <= j < i implies !(#[trigger] rows[j]).is_default by {
                    assert(rows.drop_last()[j] == rows[j]);
                }
            },
            None => {
                assert forall|j: int| 0 <= j < rows.len() - 1 implies !(
                #[trigger] rows[j]).is_default by {
                    assert(rows.drop_last()[j] == rows[j]);
                }
            },
        }
    }
}

/// The first marked identity is the default.
pub proof fn lemma_default_index_is(rows: Seq<NamedIdentityView>, i: int)
    requires
        0 <= i < rows.len(),
        rows[i].is_default,
        forall|j: int| 0 <= j < i ==> !(#[trigger] rows[j]).is_default,
    ensures
        default_index(rows) == Some(i),
{
    lemma_default_index(rows);
    match default_index(rows) {
        Some(k) => {
            if k < i {
                assert(!rows[k].is_default);
            } else if i < k {
                assert(!rows[i].is_default);
            }
        },
        None => {
            assert(!rows[i].is_default);
        },
    }
}

/// The identities without the one that goes by `name`.
pub open spec fn spec_delete_named(rows: Seq<NamedIdentityView>, name: Seq<char>) -> Seq<
    NamedIdentityView,
> {
    if is_named(rows, name) {
        rows.remove(index_named(rows, name))
    } else {
        rows
    }
}

/// The names of the identities, in their order.
pub open spec fn names_of(rows: Seq<NamedIdentityView>) -> Seq<Seq<char>> {
    Seq::new(rows.len(), |i: int| rows[i].name)
}

/// With unique names, an identity of a name is the identity of that name.
pub proof fn lemma_index_named(rows: Seq<NamedIdentityView>, i: int)
    requires
        unique_names(rows),
        0 <= i < rows.len(),
    ensures
        is_named(rows, rows[i].name),
        index_named(rows, rows[i].name) == i,
{
    let p = index_named(rows, rows[i].name);
    assert(rows[i].name == rows[i].name);
    if p < i {
        assert(rows[p].name != rows[i].name);
    } else if i < p {
        assert(rows[i].name != rows[p].name);
    }
}

/// Deleting keeps the names unique, the deleted name names nothing
/// afterwards, and every other name names what it named.
pub proof fn lemma_delete_named(rows: Seq<NamedIdentityView>, name: Seq<char>, other: Seq<char>)
    requires
        unique_names(rows),
    ensures
        unique_names(spec_delete_named(rows, name)),
        !is_named(spec_delete_named(rows, name), name),
        other != name ==> (is_named(spec_delete_named(rows, name), other) <==> is_named(
            rows,
            other,
        )),
        spec_delete_named(rows, name).len() == rows.len() - if is_named(rows, name) {
            1int
        } else {
            0int
        },
{
    let after = spec_delete_named(rows, name);
    if is_named(rows, name) {
        let p = index_named(rows, name);
        assert forall|i: int, j: int| 0 <= i < j < after.len() implies (#[trigger] after[i]).name
            != (#[trigger] after[j]).name by {
            let i0 = if i < p {
                i
            } else {
                i + 1
            };
            let j0 = if j < p {
                j
            } else {
                j + 1
            };
            assert(after[i] == rows[i0] && after[j] == rows[j0]);
        }
        if is_named(after, name) {
            let q = index_named(after, name);
            let q0 = if q < p {
                q
            } else {
                q + 1
            };
            assert(after[q] == rows[q0]);
            lemma_index_named(rows, q0);
            lemma_index_named(rows, p);
        }
        if other != name {
            if is_named(rows, other) {
                let q0 = index_named(rows, other);
                let q = if q0 < p {
                    q0
                } else {
                    q0 - 1
                };
                assert(after[q] == rows[q0]);
            }
            if is_named(after, other) {
                let q = index_named(after, other);
                let q0 = if q < p {
                    q
                } else {
                    q + 1
                };
                assert(after[q] == rows[q0]);
            }
        }
    }
}

pub open spec fn no_identity_message(name: Seq<char>) -> Seq<char> {
    "There is no identity named '"@ + name + "'"@
}

pub open spec fn no_default_identity_message() -> Seq<char> {
    "There is no default identity"@
}

/// The identity that goes by `name` or, where no name is given, the first
/// identity that is marked as the default.
pub open spec fn spec_named_or_default(rows: Seq<NamedIdentityView>, name: Option<Seq<char>>)
    -> Result<NamedIdentityView, ErrorView> {
    match name {
        Some(n) => if is_named(rows, n) {
            Ok(rows[index_named(rows, n)])
        } else {
            Err(ErrorView { kind: Kind::NotFound, message: no_identity_message(n) })
        },
        None => match default_index(rows) {
            Some(i) => Ok(rows[i]),
            None => Err(
                ErrorView { kind: Kind::NotFound, message: no_default_identity_message() },
            ),
        },
    }
}

/// The identifier of the identity that goes by `name` or, where no name is
/// given, of the default identity.
pub open spec fn spec_identifier_by_name(rows: Seq<NamedIdentityView>, name: Option<Seq<char>>)
    -> Result<Seq<char>, ErrorView> {
    match spec_named_or_default(rows, name) {
        Ok(identity) => Ok(identity.identifier),
        Err(e) => Err(e),
    }
}

/// What a vector of identities stands for.
pub open spec fn identities_view(rows: Seq<NamedIdentity>) -> Seq<NamedIdentityView> {
    rows.map_values(|r: NamedIdentity| r@)
}

/// What a vector of texts stands for.
pub open spec fn texts_view(texts: Seq<String>) -> Seq<Seq<char>> {
    Seq::new(texts.len(), |i: int| texts[i]@)
}

/// The state of a command line session.
#[derive(Debug)]
pub struct CliState {
    identities: Vec<NamedIdentity>,
}

impl View for CliState {
    type V = Seq<NamedIdentityView>;

    closed spec fn view(&self) -> Seq<NamedIdentityView> {
        identities_view(self.identities@)
    }
}

impl CliState {
    /// The invariant of the state: no two identities share a name.
    pub open spec fn wf(&self) -> bool {
        unique_names(self@)
    }

    /// A state without identities.
    pub fn new() -> (state: CliState)
        ensures
            state.wf(),
            state@ == Seq::<NamedIdentityView>::empty(),
    {
        let state = CliState { identities: Vec::new() };
        assert(state@ =~= Seq::<NamedIdentityView>::empty());
        state
    }

    fn find(&self, name: &str) -> (r: Option<usize>)
        requires
            self.wf(),
        ensures
            match r {
                Some(i) => i < self@.len() && is_named(self@, name@) && index_named(self@, name@)
                    == i,
                None => !is_named(self@, name@),
            },
    {
        let wanted = name.to_owned();
        let mut i: usize = 0;
        while i < self.identities.len()
            invariant
                i <= self.identities@.len(),
                self@.len() == self.identities@.len(),
                self.wf(),
                wanted@ == name@,
                forall|j: int| 0 <= j < i ==> (#[trigger] self@[j]).name != name@,
            decreases self.identities.len() - i,
        {
            if self.identities[i].name == wanted {
                proof {
                    assert(self@[i as int].name == name@);
                    lemma_index_named(self@, i as int);
                }
                return Some(i);
            }
            i = i + 1;
        }
        None
    }

    /// Adds an identity under `name`. The first identity of a state becomes
    /// its default. A name that is taken is refused.
    pub fn create_identity(&mut self, name: &str, identifier: Identifier) -> (r: Result<
        (),
        Error,
    >)
        requires
            old(self).wf(),
        ensures
            final(self).wf(),
            match r {
                Ok(_) => !is_named(old(self)@, name@) && final(self)@ == old(self)@.push(
                    NamedIdentityView {
                        name: name@,
                        identifier: identifier@,
                        is_default: old(self)@.len() == 0,
                    },
                ),
                Err(e) => is_named(old(self)@, name@) && final(self)@ == old(self)@ && e.kind
                    == Kind::PreconditionFailed,
            },
    {
        match self.find(name) {
            Some(_) => Err(
                Error {
                    kind: Kind::PreconditionFailed,
                    message: concat3("There is already an identity named '", name, "'"),
                },
            ),
            None => {
                let ghost before = self@;
                let first = self.identities.len() == 0;
                self.identities.push(NamedIdentity::new(name, identifier, first));
                proof {
                    let added = NamedIdentityView {
                        name: name@,
                        identifier: identifier@,
                        is_default: first,
                    };
                    assert(self@ =~= before.push(added));
                    assert forall|i: int, j: int| 0 <= i < j < self@.len() implies (
                    #[trigger] self@[i]).name != (#[trigger] self@[j]).name by {
                        if j == before.len() {
                            assert(before[i].name != name@);
                        } else {
                            assert(self@[i] == before[i] && self@[j] == before[j]);
                        }
                    }
                }
                Ok(())
            },
        }
    }

    /// The identities, in the order in which they were added.
    pub fn get_named_identities(&self) -> (r: Vec<NamedIdentity>)
        ensures
            identities_view(r@) == self@,
    {
        let mut out: Vec<NamedIdentity> = Vec::new();
        let mut i: usize = 0;
        while i < self.identities.len()
            invariant
                i <= self.identities@.len(),
                self@.len() == self.identities@.len(),
                identities_view(out@) == self@.take(i as int),
            decreases self.identities.len() - i,
        {
            let ghost before = identities_view(out@);
            out.push(self.identities[i].clone());
            assert(identities_view(out@) =~= before.push(self@[i as int]));
            assert(self@.take(i as int).push(self@[i as int]) =~= self@.take(i + 1));
            i = i + 1;
        }
        assert(self@.take(i as int) =~= self@);
        out
    }

    /// The identity that goes by `name` or, where no name is given, the
    /// first identity that is marked as the default.
    pub fn get_named_identity_or_default(&self, name: &Option<String>) -> (r: Result<
        NamedIdentity,
        Error,
    >)
        requires
            self.wf(),
        ensures
            match r {
                Ok(found) => spec_named_or_default(self@, opt_text(*name)) == Ok::<
                    NamedIdentityView,
                    ErrorView,
                >(found@),
                Err(e) => spec_named_or_default(self@, opt_text(*name)) == Err::<
                    NamedIdentityView,
                    ErrorView,
                >(e@),
            },
    {
        match name {
            Some(n) => match self.find(n.as_str()) {
                Some(i) => {
                    assert(self@[i as int] == self.identities@[i as int]@);
                    Ok(self.identities[i].clone())
                },
                None => Err(
                    Error {
                        kind: Kind::NotFound,
                        message: concat3("There is no identity named '", n.as_str(), "'"),
                    },
                ),
            },
            None => {
                let mut i: usize = 0;
                while i < self.identities.len()
                    invariant
                        i <= self.identities@.len(),
                        self@.len() == self.identities@.len(),
                        *name is None,
                        forall|j: int| 0 <= j < i ==> !(#[trigger] self@[j]).is_default,
                    decreases self.identities.len() - i,
                {
                    if self.identities[i].is_default {
                        proof {
                            assert(self@[i as int].is_default);
                            lemma_default_index_is(self@, i as int);
                        }
                        return Ok(self.identities[i].clone());
                    }
                    i = i + 1;
                }
                proof {
                    lemma_default_index(self@);
                    if default_index(self@) is Some {
                        assert(!self@[default_index(self@)->0].is_default);
                    }
                }
                Err(Error::new(Kind::NotFound, "There is no default identity"))
            },
        }
    }

    /// The identifier of the identity that goes by `name` or, where no name
    /// is given, of the default identity.
    pub fn get_identifier_by_name(&self, name: &Option<String>) -> (r: Result<Identifier, Error>)
        requires
            self.wf(),
        ensures
            match r {
                Ok(identifier) => spec_identifier_by_name(self@, opt_text(*name)) == Ok::<
                    Seq<char>,
                    ErrorView,
                >(identifier@),
                Err(e) => spec_identifier_by_name(self@, opt_text(*name)) == Err::<
                    Seq<char>,
                    ErrorView,
                >(e@),
            },
    {
        match self.get_named_identity_or_default(name) {
            Ok(identity) => Ok(identity.identifier()),
            Err(e) => Err(e),
        }
    }

    /// Deletes the identity that goes by `name`.
    pub fn delete_identity_by_name(&mut self, name: &str) -> (r: Result<(), Error>)
        requires
            old(self).wf(),
        ensures
            final(self).wf(),
            final(self)@ == spec_delete_named(old(self)@, name@),
            match r {
                Ok(_) => is_named(old(self)@, name@),
                Err(e) => !is_named(old(self)@, name@) && e.kind == Kind::NotFound && e.message@
                    == no_identity_message(name@),
            },
    {
        proof {
            lemma_delete_named(self@, name@, name@);
        }
        let ghost before = self@;
        match self.find(name) {
            Some(i) => {
                self.identities.remove(i);
                assert(self@ =~= before.remove(i as int));
                Ok(())
            },
            None => Err(
                Error {
                    kind: Kind::NotFound,
                    message: concat3("There is no identity named '", name, "'"),
                },
            ),
        }
    }
}

} // verus!
