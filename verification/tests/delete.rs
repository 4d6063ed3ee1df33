use tunnel_core::cli_state::CliState;
use tunnel_core::delete::{CommandGlobalOpts, DeleteCommand, DeleteOutcome, DeleteTui};
use tunnel_core::error::Kind;
use tunnel_core::identifier::Identifier;

fn session(names: &[&str], interactive: bool) -> CommandGlobalOpts {
    let mut state = CliState::new();
    for name in names {
        state.create_identity(name, Identifier::new(&format!("I{}", name))).unwrap();
    }
    CommandGlobalOpts { state, interactive }
}

fn names_of(options: &CommandGlobalOpts) -> Vec<String> {
    options.state.get_named_identities().iter().map(|i| i.name()).collect()
}

fn strings(names: &[&str]) -> Vec<String> {
    names.iter().map(|n| n.to_string()).collect()
}

#[test]
fn nothing_to_delete_without_identities() {
    let (options, outcome) = DeleteCommand::new(None, true, true).run(session(&[], false));
    assert_eq!(outcome.unwrap(), DeleteOutcome::NothingToDelete);
    assert!(names_of(&options).is_empty());
}

#[test]
fn named_identity_is_deleted_when_confirmed() {
    let cmd = DeleteCommand::new(Some("b".to_string()), true, false);
    let (options, outcome) = cmd.run(session(&["a", "b", "c"], false));
    assert_eq!(
        outcome.unwrap(),
        DeleteOutcome::Deleted {
            plain: "The identity named 'b' has been deleted".to_string(),
            machine: "b".to_string(),
        }
    );
    assert_eq!(names_of(&options), strings(&["a", "c"]));
}

#[test]
fn deletion_waits_for_confirmation() {
    let cmd = DeleteCommand::new(Some("b".to_string()), false, false);
    let (options, outcome) = cmd.run(session(&["a", "b"], true));
    assert_eq!(
        outcome.unwrap(),
        DeleteOutcome::ConfirmationNeeded { names: strings(&["b"]), all: false }
    );
    assert_eq!(names_of(&options), strings(&["a", "b"]));

    let cmd = DeleteCommand::new(None, false, true);
    let (options, outcome) = cmd.run(options);
    assert_eq!(
        outcome.unwrap(),
        DeleteOutcome::ConfirmationNeeded { names: strings(&["a", "b"]), all: true }
    );
    assert_eq!(names_of(&options), strings(&["a", "b"]));
}

#[test]
fn unknown_name_is_not_found() {
    let cmd = DeleteCommand::new(Some("z".to_string()), true, false);
    let (options, outcome) = cmd.run(session(&["a"], false));
    let err = outcome.unwrap_err();
    assert_eq!(err.kind(), Kind::NotFound);
    assert_eq!(err.message(), "There is no identity named 'z'");
    assert_eq!(names_of(&options), strings(&["a"]));
}

#[test]
fn default_identity_goes_where_no_name_is_given_and_nobody_can_be_asked() {
    let (options, outcome) = DeleteCommand::new(None, true, false).run(session(&["a", "b"], false));
    assert_eq!(
        outcome.unwrap(),
        DeleteOutcome::Deleted {
            plain: "The identity named 'a' has been deleted".to_string(),
            machine: "a".to_string(),
        }
    );
    assert_eq!(names_of(&options), strings(&["b"]));
    // the default is gone with it
    let (_, outcome) = DeleteCommand::new(None, true, false).run(options);
    let err = outcome.unwrap_err();
    assert_eq!(err.kind(), Kind::NotFound);
    assert_eq!(err.message(), "There is no default identity");
}

#[test]
fn the_user_chooses_among_several() {
    let (options, outcome) = DeleteCommand::new(None, true, false).run(session(&["a", "b"], true));
    assert_eq!(outcome.unwrap(), DeleteOutcome::SelectionNeeded { names: strings(&["a", "b"]) });
    assert_eq!(names_of(&options), strings(&["a", "b"]));
    // the only identity needs no choice
    let (options, outcome) = DeleteCommand::new(None, true, false).run(session(&["a"], true));
    assert!(matches!(outcome.unwrap(), DeleteOutcome::Deleted { .. }));
    assert!(names_of(&options).is_empty());
}

#[test]
fn all_identities_go_with_all_and_yes() {
    let (options, outcome) = DeleteCommand::new(None, true, true).run(session(&["a", "b"], false));
    assert_eq!(
        outcome.unwrap(),
        DeleteOutcome::DeletedMany {
            plain: "Identity 'a' deleted\nIdentity 'b' deleted\n".to_string()
        }
    );
    assert!(names_of(&options).is_empty());
}

#[test]
fn delete_multiple_reports_each_name() {
    let mut tui =
        DeleteTui::new(session(&["a", "b", "c"], true), DeleteCommand::new(None, false, false));
    assert_eq!(tui.list_items_names(), strings(&["a", "b", "c"]));
    assert_eq!(tui.cmd_arg_item_name(), None);
    assert!(!tui.cmd_arg_delete_all());
    assert!(!tui.cmd_arg_confirm_deletion());
    assert_eq!(tui.get_arg_item_name_or_default().unwrap(), "a");
    let outcome = tui.delete_multiple(strings(&["c", "x", "a", "c"])).unwrap();
    assert_eq!(
        outcome,
        DeleteOutcome::DeletedMany {
            plain: "Identity 'c' deleted\nFailed to delete identity 'x'\nIdentity 'a' deleted\nFailed to delete identity 'c'\n"
                .to_string()
        }
    );
    assert_eq!(tui.list_items_names(), strings(&["b"]));
    let err = tui.delete_single("a").unwrap_err();
    assert_eq!(err.kind(), Kind::NotFound);
    assert!(matches!(tui.delete_single("b").unwrap(), DeleteOutcome::Deleted { .. }));
    assert!(names_of(&tui.into_opts()).is_empty());
}

#[test]
fn names_are_unique_and_the_first_identity_is_the_default() {
    let mut state = CliState::new();
    state.create_identity("a", Identifier::new("I1")).unwrap();
    state.create_identity("b", Identifier::new("I2")).unwrap();
    let err = state.create_identity("a", Identifier::new("I3")).unwrap_err();
    assert_eq!(err.kind(), Kind::PreconditionFailed);
    let identities = state.get_named_identities();
    assert_eq!(identities.len(), 2);
    assert!(identities[0].is_default());
    assert!(!identities[1].is_default());
    assert_eq!(state.get_identifier_by_name(&None).unwrap(), Identifier::new("I1"));
    assert_eq!(
        state.get_identifier_by_name(&Some("b".to_string())).unwrap(),
        Identifier::new("I2")
    );
    assert!(state.get_identifier_by_name(&Some("c".to_string())).is_err());
}
