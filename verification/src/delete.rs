//! Deleting identities: what the command does for its arguments and the
//! identities at hand, and what it has to ask the user first.
//!
//! Asking and printing are left to the caller. [`DeleteTui::run`] deletes
//! where the arguments settle everything, and otherwise says what to ask;
//! the caller then calls [`DeleteTui::delete_single`] or
//! [`DeleteTui::delete_multiple`] with the answer.

use crate::cli_state::{
    default_index,
    identities_view,
    index_named,
    is_named,
    lemma_default_index,
    lemma_delete_named,
    names_of,
    spec_delete_named,
    spec_named_or_default,
    texts_view,
    unique_names,
    CliState,
    NamedIdentityView,
};
use crate::error::{Error, ErrorView, Kind};
use crate::identifier::{clone_opt_text, opt_text};
use crate::text::concat3;
use vstd::prelude::*;

verus! {

/// What every command is given.
#[derive(Debug)]
pub struct CommandGlobalOpts {
    /// The identities of the session.
    pub state: CliState,
    /// Whether the user can be asked.
    pub interactive: bool,
}

/// Delete an identity.
#[derive(Debug, PartialEq, Eq)]
pub struct DeleteCommand {
    /// Name of the identity to be deleted
    name: Option<String>,
    /// Confirm the deletion without prompting
    yes: bool,
    /// Delete every identity
    all: bool,
}

pub struct DeleteCommandView {
    pub name: Option<Seq<char>>,
    pub yes: bool,
    pub all: bool,
}

impl View for DeleteCommand {
    type V = DeleteCommandView;

    closed spec fn view(&self) -> DeleteCommandView {
        DeleteCommandView { name: opt_text(self.name), yes: self.yes, all: self.all }
    }
}

/// What the command did, or what has to be asked before it can go on.
#[derive(Debug, PartialEq, Eq)]
pub enum DeleteOutcome {
    /// There is no identity to delete.
    NothingToDelete,
    /// One identity was deleted: the text for the user and the text for a
    /// program, which is the name.
    Deleted { plain: String, machine: String },
    /// Identities were deleted one by one: the text for the user, with a line
    /// for each name.
    DeletedMany { plain: String },
    /// The user has to confirm the deletion of `names`.
    ConfirmationNeeded { names: Vec<String>, all: bool },
    /// The user has to choose among `names`.
    SelectionNeeded { names: Vec<String> },
}

pub enum DeleteOutcomeView {
    NothingToDelete,
    Deleted { plain: Seq<char>, machine: Seq<char> },
    DeletedMany { plain: Seq<char> },
    ConfirmationNeeded { names: Seq<Seq<char>>, all: bool },
    SelectionNeeded { names: Seq<Seq<char>> },
}

impl View for DeleteOutcome {
    type V = DeleteOutcomeView;

    open spec fn view(&self) -> DeleteOutcomeView {
        match self {
            DeleteOutcome::NothingToDelete => DeleteOutcomeView::NothingToDelete,
            DeleteOutcome::Deleted { plain, machine } => DeleteOutcomeView::Deleted {
                plain: plain@,
                machine: machine@,
            },
            DeleteOutcome::DeletedMany { plain } => DeleteOutcomeView::DeletedMany {
                plain: plain@,
            },
            DeleteOutcome::ConfirmationNeeded { names, all } => {
                DeleteOutcomeView::ConfirmationNeeded { names: texts_view(names@), all: *all }
            },
            DeleteOutcome::SelectionNeeded { names } => DeleteOutcomeView::SelectionNeeded {
                names: texts_view(names@),
            },
        }
    }
}

/// The text that reports the deletion of one identity.
pub open spec fn deleted_message(name: Seq<char>) -> Seq<char> {
    "The identity named '"@ + name + "' has been deleted"@
}

/// The line that reports a deletion among several.
pub open spec fn deleted_line(name: Seq<char>) -> Seq<char> {
    "Identity '"@ + name + "' deleted\n"@
}

/// The line that reports a deletion that failed.
pub open spec fn failed_line(name: Seq<char>) -> Seq<char> {
    "Failed to delete identity '"@ + name + "'\n"@
}

/// The identities and the report after `names` were deleted one by one:
/// each name that names an identity takes it away, each other name is
/// reported as a failure.
pub open spec fn spec_delete_multiple(rows: Seq<NamedIdentityView>, names: Seq<Seq<char>>) -> (
    Seq<NamedIdentityView>,
    Seq<char>,
)
    decreases names.len(),
{
    if names.len() == 0 {
        (rows, Seq::empty())
    } else {
        let (before, report) = spec_delete_multiple(rows, names.drop_last());
        let name = names.last();
        if is_named(before, name) {
            (spec_delete_named(before, name), report + deleted_line(name))
        } else {
            (before, report + failed_line(name))
        }
    }
}

/// Deleting one by one keeps the names unique and never adds an identity.
pub proof fn lemma_delete_multiple(rows: Seq<NamedIdentityView>, names: Seq<Seq<char>>)
    requires
        unique_names(rows),
    ensures
        unique_names(spec_delete_multiple(rows, names).0),
        spec_delete_multiple(rows, names).0.len() <= rows.len(),
    decreases names.len(),
{
    if names.len() > 0 {
        lemma_delete_multiple(rows, names.drop_last());
        let before = spec_delete_multiple(rows, names.drop_last()).0;
        lemma_delete_named(before, names.last(), names.last());
    }
}

/// The one name that the command is about where it is not about all: the
/// given name, or the name of the default identity.
pub open spec fn spec_item_name(cmd: DeleteCommandView, rows: Seq<NamedIdentityView>) -> Result<
    Seq<char>,
    ErrorView,
> {
    match spec_named_or_default(rows, cmd.name) {
        Ok(identity) => Ok(identity.name),
        Err(e) => Err(e),
    }
}

/// What the command is to do.
pub enum Plan {
    /// There is nothing to delete.
    Nothing,
    /// Delete every identity; `confirmed` says whether the user agreed already.
    All { confirmed: bool },
    /// Delete the identity `name`.
    One { name: Seq<char>, confirmed: bool },
    /// Let the user choose.
    Select,
}

/// What the command is to do, for its arguments and the identities at hand.
///
/// Without identities there is nothing to do. With `all`, every identity
/// goes. With a name, or where the user cannot be asked, the named identity
/// or else the default identity goes. Where the user can be asked and gave
/// no name, the only identity goes, or the user chooses among several.
pub open spec fn spec_plan(cmd: DeleteCommandView, interactive: bool, rows: Seq<NamedIdentityView>)
    -> Result<Plan, ErrorView> {
    if rows.len() == 0 {
        Ok(Plan::Nothing)
    } else if cmd.all {
        Ok(Plan::All { confirmed: cmd.yes })
    } else if cmd.name is Some || !interactive {
        match spec_item_name(cmd, rows) {
            Ok(name) => Ok(Plan::One { name, confirmed: cmd.yes }),
            Err(e) => Err(e),
        }
    } else if rows.len() == 1 {
        Ok(Plan::One { name: rows[0].name, confirmed: cmd.yes })
    } else {
        Ok(Plan::Select)
    }
}

/// What running the command gives: the identities afterwards and the
/// outcome.
pub open spec fn spec_run(cmd: DeleteCommandView, interactive: bool, rows: Seq<NamedIdentityView>)
    -> (Seq<NamedIdentityView>, Result<DeleteOutcomeView, ErrorView>) {
    match spec_plan(cmd, interactive, rows) {
        Err(e) => (rows, Err(e)),
        Ok(Plan::Nothing) => (rows, Ok(DeleteOutcomeView::NothingToDelete)),
        Ok(Plan::Select) => (
            rows,
            Ok(DeleteOutcomeView::SelectionNeeded { names: names_of(rows) }),
        ),
        Ok(Plan::All { confirmed }) => if confirmed {
            (
                spec_delete_multiple(rows, names_of(rows)).0,
                Ok(
                    DeleteOutcomeView::DeletedMany {
                        plain: spec_delete_multiple(rows, names_of(rows)).1,
                    },
                ),
            )
        } else {
            (
                rows,
                Ok(DeleteOutcomeView::ConfirmationNeeded { names: names_of(rows), all: true }),
            )
        },
        Ok(Plan::One { name, confirmed }) => if confirmed {
            (
                spec_delete_named(rows, name),
                Ok(DeleteOutcomeView::Deleted { plain: deleted_message(name), machine: name }),
            )
        } else {
            (
                rows,
                Ok(DeleteOutcomeView::ConfirmationNeeded { names: seq![name], all: false }),
            )
        },
    }
}

impl DeleteCommand {
    pub fn new(name: Option<String>, yes: bool, all: bool) -> (cmd: DeleteCommand)
        ensures
            cmd@ == (DeleteCommandView { name: opt_text(name), yes, all }),
    {
        DeleteCommand { name, yes, all }
    }

    /// Runs the command on the identities of `options`, and hands the
    /// options back with what came of it: see [`spec_run`].
    pub fn run(self, options: CommandGlobalOpts) -> (r: (
        CommandGlobalOpts,
        Result<DeleteOutcome, Error>,
    ))
        requires
            options.state.wf(),
        ensures
            r.0.state.wf(),
            r.0.interactive == options.interactive,
            ({
                let (rows, outcome) = spec_run(self@, options.interactive, options.state@);
                &&& r.0.state@ == rows
                &&& match r.1 {
                    Ok(o) => outcome == Ok::<DeleteOutcomeView, ErrorView>(o@),
                    Err(e) => outcome == Err::<DeleteOutcomeView, ErrorView>(e@),
                }
            }),
    {
        DeleteTui::run(options, self)
    }
}

/// The command together with what it works on.
#[derive(Debug)]
pub struct DeleteTui {
    opts: CommandGlobalOpts,
    cmd: DeleteCommand,
}

impl DeleteTui {
    /// The identities that the command works on.
    pub closed spec fn identities(&self) -> Seq<NamedIdentityView> {
        self.opts.state@
    }

    /// The arguments of the command.
    pub closed spec fn command(&self) -> DeleteCommandView {
        self.cmd@
    }

    /// Whether the user can be asked.
    pub closed spec fn interactive(&self) -> bool {
        self.opts.interactive
    }

    /// The invariant: no two identities share a name.
    pub open spec fn wf(&self) -> bool {
        unique_names(self.identities())
    }

    pub fn new(opts: CommandGlobalOpts, cmd: DeleteCommand) -> (tui: DeleteTui)
        requires
            opts.state.wf(),
        ensures
            tui.wf(),
            tui.identities() == opts.state@,
            tui.command() == cmd@,
            tui.interactive() == opts.interactive,
    {
        DeleteTui { opts, cmd }
    }

    /// Gives back what the command worked on.
    pub fn into_opts(self) -> (opts: CommandGlobalOpts)
        requires
            self.wf(),
        ensures
            opts.state.wf(),
            opts.state@ == self.identities(),
            opts.interactive == self.interactive(),
    {
        self.opts
    }

    /// Runs `cmd` on the identities of `opts`: see [`spec_run`].
    pub fn run(opts: CommandGlobalOpts, cmd: DeleteCommand) -> (r: (
        CommandGlobalOpts,
        Result<DeleteOutcome, Error>,
    ))
        requires
            opts.state.wf(),
        ensures
            r.0.state.wf(),
            r.0.interactive == opts.interactive,
            ({
                let (rows, outcome) = spec_run(cmd@, opts.interactive, opts.state@);
                &&& r.0.state@ == rows
                &&& match r.1 {
                    Ok(o) => outcome == Ok::<DeleteOutcomeView, ErrorView>(o@),
                    Err(e) => outcome == Err::<DeleteOutcomeView, ErrorView>(e@),
                }
            }),
    {
        let mut tui = DeleteTui::new(opts, cmd);
        let outcome = tui.delete();
        (tui.into_opts(), outcome)
    }

    /// The name that the command was given.
    pub fn cmd_arg_item_name(&self) -> (name: Option<String>)
        ensures
            opt_text(name) == self.command().name,
    {
        clone_opt_text(&self.cmd.name)
    }

    /// Whether the command is about every identity.
    pub fn cmd_arg_delete_all(&self) -> (all: bool)
        ensures
            all == self.command().all,
    {
        self.cmd.all
    }

    /// Whether the user agreed to the deletion on the command line.
    pub fn cmd_arg_confirm_deletion(&self) -> (yes: bool)
        ensures
            yes == self.command().yes,
    {
        self.cmd.yes
    }

    /// The name that the command was given or, without one, the name of the
    /// default identity.
    pub fn get_arg_item_name_or_default(&self) -> (r: Result<String, Error>)
        requires
            self.wf(),
        ensures
            match r {
                Ok(name) => spec_item_name(self.command(), self.identities()) == Ok::<
                    Seq<char>,
                    ErrorView,
                >(name@),
                Err(e) => spec_item_name(self.command(), self.identities()) == Err::<
                    Seq<char>,
                    ErrorView,
                >(e@),
            },
    {
        match self.opts.state.get_named_identity_or_default(&self.cmd.name) {
            Ok(identity) => Ok(identity.name()),
            Err(e) => Err(e),
        }
    }

    /// The names of the identities, in their order.
    pub fn list_items_names(&self) -> (names: Vec<String>)
        ensures
            texts_view(names@) == names_of(self.identities()),
    {
        let identities = self.opts.state.get_named_identities();
        let mut names: Vec<String> = Vec::new();
        let mut i: usize = 0;
        while i < identities.len()
            invariant
                i <= identities@.len(),
                identities_view(identities@) == self.identities(),
                names@.len() == i,
                forall|j: int| 0 <= j < i ==> names@[j]@ == self.identities()[j].name,
            decreases identities.len() - i,
        {
            assert(identities_view(identities@)[i as int] == identities@[i as int]@);
            names.push(identities[i].name());
            i = i + 1;
        }
        assert(texts_view(names@) =~= names_of(self.identities()));
        names
    }

    /// Deletes the identity `item_name` and reports it.
    pub fn delete_single(&mut self, item_name: &str) -> (r: Result<DeleteOutcome, Error>)
        requires
            old(self).wf(),
        ensures
            final(self).wf(),
            final(self).command() == old(self).command(),
            final(self).interactive() == old(self).interactive(),
            final(self).identities() == spec_delete_named(old(self).identities(), item_name@),
            match r {
                Ok(o) => is_named(old(self).identities(), item_name@) && o@ == (
                DeleteOutcomeView::Deleted {
                    plain: deleted_message(item_name@),
                    machine: item_name@,
                }),
                Err(e) => !is_named(old(self).identities(), item_name@) && e@ == (ErrorView {
                    kind: Kind::NotFound,
                    message: crate::cli_state::no_identity_message(item_name@),
                }),
            },
    {
        match self.opts.state.delete_identity_by_name(item_name) {
            Ok(_) => Ok(
                DeleteOutcome::Deleted {
                    plain: concat3("The identity named '", item_name, "' has been deleted"),
                    machine: item_name.to_owned(),
                },
            ),
            Err(e) => Err(e),
        }
    }

    /// Deletes the identities `selected_items_names` one by one and reports
    /// each deletion and each failure.
    pub fn delete_multiple(&mut self, selected_items_names: Vec<String>) -> (r: Result<
        DeleteOutcome,
        Error,
    >)
        requires
            old(self).wf(),
        ensures
            final(self).wf(),
            final(self).command() == old(self).command(),
            final(self).interactive() == old(self).interactive(),
            final(self).identities() == spec_delete_multiple(
                old(self).identities(),
                texts_view(selected_items_names@),
            ).0,
            r matches Ok(o) && o@ == (DeleteOutcomeView::DeletedMany {
                plain: spec_delete_multiple(
                    old(self).identities(),
                    texts_view(selected_items_names@),
                ).1,
            }),
    {
        let mut plain = String::new();
        let ghost names = texts_view(selected_items_names@);
        let ghost start = self.identities();
        let mut i: usize = 0;
        assert(names.take(0) =~= Seq::<Seq<char>>::empty());
        while i < selected_items_names.len()
            invariant
                i <= selected_items_names@.len(),
                names == texts_view(selected_items_names@),
                self.wf(),
                self.command() == old(self).command(),
                self.interactive() == old(self).interactive(),
                self.identities() == spec_delete_multiple(start, names.take(i as int)).0,
                plain@ == spec_delete_multiple(start, names.take(i as int)).1,
            decreases selected_items_names.len() - i,
        {
            proof {
                assert(names.take(i + 1).drop_last() =~= names.take(i as int));
                assert(names.take(i + 1).last() == selected_items_names@[i as int]@);
            }
            let name = selected_items_names[i].as_str();
            if self.opts.state.delete_identity_by_name(name).is_ok() {
                let line = concat3("Identity '", name, "' deleted\n");
                plain.append(line.as_str());
            } else {
                let line = concat3("Failed to delete identity '", name, "'\n");
                plain.append(line.as_str());
            }
            i = i + 1;
        }
        assert(names.take(i as int) =~= names);
        Ok(DeleteOutcome::DeletedMany { plain })
    }

    fn confirm_or_delete_single(&mut self, name: String) -> (r: Result<DeleteOutcome, Error>)
        requires
            old(self).wf(),
            is_named(old(self).identities(), name@),
        ensures
            final(self).wf(),
            final(self).command() == old(self).command(),
            final(self).interactive() == old(self).interactive(),
            final(self).identities() == if old(self).command().yes {
                spec_delete_named(old(self).identities(), name@)
            } else {
                old(self).identities()
            },
            r matches Ok(o) && o@ == if old(self).command().yes {
                DeleteOutcomeView::Deleted { plain: deleted_message(name@), machine: name@ }
            } else {
                DeleteOutcomeView::ConfirmationNeeded { names: seq![name@], all: false }
            },
    {
        if self.cmd.yes {
            self.delete_single(name.as_str())
        } else {
            let mut names: Vec<String> = Vec::new();
            names.push(name);
            assert(texts_view(names@) =~= seq![name@]);
            Ok(DeleteOutcome::ConfirmationNeeded { names, all: false })
        }
    }

    /// Does what the arguments settle, and says what has to be asked: see
    /// [`spec_run`].
    pub fn delete(&mut self) -> (r: Result<DeleteOutcome, Error>)
        requires
            old(self).wf(),
        ensures
            final(self).wf(),
            final(self).command() == old(self).command(),
            final(self).interactive() == old(self).interactive(),
            ({
                let (rows, outcome) = spec_run(
                    old(self).command(),
                    old(self).interactive(),
                    old(self).identities(),
                );
                &&& final(self).identities() == rows
                &&& match r {
                    Ok(o) => outcome == Ok::<DeleteOutcomeView, ErrorView>(o@),
                    Err(e) => outcome == Err::<DeleteOutcomeView, ErrorView>(e@),
                }
            }),
    {
        let names = self.list_items_names();
        let ghost rows = self.identities();
        let ghost cmd = self.command();
        assert(texts_view(names@).len() == names@.len());
        assert(names_of(rows).len() == rows.len());
        if names.len() == 0 {
            return Ok(DeleteOutcome::NothingToDelete);
        }
        if self.cmd.all {
            if self.cmd.yes {
                return self.delete_multiple(names);
            }
            return Ok(DeleteOutcome::ConfirmationNeeded { names, all: true });
        }
        if self.cmd.name.is_some() || !self.opts.interactive {
            return match self.get_arg_item_name_or_default() {
                Ok(name) => {
                    proof {
                        lemma_default_index(rows);
                        let d = if cmd.name is None {
                            default_index(rows)->0
                        } else {
                            index_named(rows, cmd.name->0)
                        };
                        assert(rows[d].name == name@);
                    }
                    self.confirm_or_delete_single(name)
                },
                Err(e) => Err(e),
            };
        }
        if names.len() == 1 {
            let name = names[0].clone();
            proof {
                assert(texts_view(names@)[0] == names@[0]@);
                assert(names_of(rows)[0] == rows[0].name);
                assert(rows[0].name == name@);
            }
            return self.confirm_or_delete_single(name);
        }
        Ok(DeleteOutcome::SelectionNeeded { names })
    }
}

} // verus!
