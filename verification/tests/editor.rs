//! The editor state and the keystroke state machine.

use cmdpick::command::{Command, Commands, Placeholders};
use cmdpick::runner::{InputLoopAction, Key, Runner};
use cmdpick::screen::{Screen, ValidatedKeyword};
use cmdpick::suggestion::Suggestion;

fn command(template: &str, desc: &str, keywords: &[&str]) -> Command {
    Command {
        cmd: Placeholders::parse(template).unwrap(),
        description: Some(desc.to_owned()),
        keywords: keywords.iter().map(|k| (*k).to_owned()).collect(),
    }
}

fn catalog() -> Vec<Command> {
    vec![
        command("nix-env -q '.*{}.*'", "Search a Nix package by name", &["nix", "search"]),
        command("du -sh /nix/store", "Show the size of the Nix store", &["nix", "store"]),
        command("sudo shutdown -h now", "Shut the system down", &["shutdown"]),
    ]
}

fn sample_suggestion() -> Suggestion {
    let commands = Commands::new(catalog());
    Suggestion::from_input(&commands, "", &Vec::new())
}

#[test]
fn new_screen_is_empty() {
    let screen = Screen::new((80, 10));
    assert_eq!(screen.x, 1);
    assert_eq!(screen.y, 1);
    assert_eq!(screen.prompt, "> ");
    assert_eq!(screen.input(), "");
    assert!(screen.validated_keywords.is_empty());
    assert_eq!(screen.selected_auto_complete_index, None);
    assert_eq!(screen.selected_command_index, None);
    assert_eq!(screen.term_size, (80, 10));
}

#[test]
fn add_and_input_round_trip() {
    let mut screen = Screen::new((80, 10));
    screen.add('n');
    screen.add('i');
    screen.add('x');
    assert_eq!(screen.input(), "nix");
    let taken = screen.reset_input();
    assert_eq!(taken, "nix");
    assert_eq!(screen.input(), "");
}

#[test]
fn set_suggestion_resets_selections_to_first() {
    let mut screen = Screen::new((80, 10));
    let s = sample_suggestion();
    assert_eq!(s.commands.len(), 3);
    screen.set_suggestion(s);
    assert_eq!(screen.selected_auto_complete_index, None);
    assert_eq!(screen.selected_command_index, Some(0));
    screen.set_auto_complete(vec!["nix".to_owned(), "store".to_owned()]);
    assert_eq!(screen.selected_auto_complete_index, Some(0));
    screen.set_commands(Vec::new());
    assert_eq!(screen.selected_command_index, None);
}

#[test]
fn selection_cycles_wrap_around() {
    let mut screen = Screen::new((80, 10));
    screen.set_suggestion(sample_suggestion());
    screen.next_command();
    assert_eq!(screen.selected_command_index, Some(1));
    screen.next_command();
    screen.next_command();
    assert_eq!(screen.selected_command_index, Some(0));
    screen.previous_command();
    assert_eq!(screen.selected_command_index, Some(2));
    screen.set_auto_complete(vec!["nix".to_owned(), "store".to_owned()]);
    screen.previous_suggestion();
    assert_eq!(screen.selected_auto_complete_index, Some(1));
    screen.next_suggestion();
    assert_eq!(screen.selected_auto_complete_index, Some(0));
}

#[test]
fn selected_command_returns_highlighted_record() {
    let mut screen = Screen::new((80, 10));
    assert!(screen.selected_command().is_none());
    screen.set_suggestion(sample_suggestion());
    let first = screen.selected_command().unwrap();
    assert_eq!(first.cmd.original, "du -sh /nix/store");
    screen.next_command();
    let second = screen.selected_command().unwrap();
    assert_eq!(second.cmd.original, "nix-env -q '.*{}.*'");
}

#[test]
fn complete_pushes_selected_keyword_and_clears_input() {
    let mut screen = Screen::new((80, 10));
    screen.add('n');
    screen.set_auto_complete(vec!["nix".to_owned(), "search".to_owned()]);
    screen.complete();
    assert_eq!(screen.input(), "");
    assert_eq!(screen.validated_keywords.len(), 1);
    assert!(matches!(&screen.validated_keywords[0], ValidatedKeyword::Valid(k) if k == "nix"));
}

#[test]
fn complete_without_selection_is_a_no_op() {
    let mut screen = Screen::new((80, 10));
    screen.add('n');
    screen.complete();
    assert_eq!(screen.input(), "n");
    assert!(screen.validated_keywords.is_empty());
}

#[test]
fn remove_last_char_drops_input_then_keywords() {
    let mut screen = Screen::new((80, 10));
    screen.add_validated_keyword(ValidatedKeyword::Invalid("zzz".to_owned()));
    screen.add('a');
    screen.remove_last_char();
    assert_eq!(screen.input(), "");
    assert_eq!(screen.validated_keywords.len(), 1);
    screen.remove_last_char();
    assert!(screen.validated_keywords.is_empty());
}

#[test]
fn remove_last_char_on_empty_state_is_a_no_op() {
    let mut screen = Screen::new((80, 10));
    screen.remove_last_char();
    assert_eq!(screen.input(), "");
    assert!(screen.validated_keywords.is_empty());
    assert_eq!(screen.selected_auto_complete_index, None);
    assert_eq!(screen.selected_command_index, None);
}

#[test]
fn keystroke_sequence_selects_nix_store() {
    let mut runner = Runner::new(catalog(), (80, 10));
    for c in ['n', 'i', 'x', ' ', 's', 't'] {
        let outcome = runner.process_key(Key::Char(c));
        assert!(matches!(outcome, InputLoopAction::Continue));
    }
    match runner.process_key(Key::Char('\n')) {
        InputLoopAction::Success(text) => assert_eq!(text, "du -sh /nix/store"),
        _ => panic!("a command should be selected"),
    }
}

#[test]
fn cancel_key_cancels() {
    let mut runner = Runner::new(catalog(), (80, 10));
    assert!(matches!(runner.process_key(Key::Char('q')), InputLoopAction::Cancel));
}

#[test]
fn enter_without_selection_continues() {
    let mut runner = Runner::new(catalog(), (80, 10));
    assert!(matches!(runner.process_key(Key::Char('\n')), InputLoopAction::Continue));
}

#[test]
fn space_tags_unknown_keyword_invalid() {
    let mut runner = Runner::new(catalog(), (80, 10));
    runner.process_key(Key::Char('z'));
    runner.process_key(Key::Char(' '));
    assert_eq!(runner.screen.validated_keywords.len(), 1);
    assert!(matches!(
        &runner.screen.validated_keywords[0],
        ValidatedKeyword::Invalid(k) if k == "z"
    ));
    runner.process_key(Key::Backspace);
    assert!(runner.screen.validated_keywords.is_empty());
}

#[test]
fn space_tags_known_keyword_valid() {
    let mut runner = Runner::new(catalog(), (80, 10));
    for c in ['n', 'i', 'x'] {
        runner.process_key(Key::Char(c));
    }
    runner.process_key(Key::Char(' '));
    assert!(matches!(
        &runner.screen.validated_keywords[0],
        ValidatedKeyword::Valid(k) if k == "nix"
    ));
}

#[test]
fn tab_completes_the_selected_keyword() {
    let mut runner = Runner::new(catalog(), (80, 10));
    runner.process_key(Key::Char('s'));
    assert_eq!(runner.screen.auto_complete, vec!["search", "store", "shutdown"]);
    runner.process_key(Key::Right);
    runner.process_key(Key::Char('\t'));
    assert!(matches!(
        &runner.screen.validated_keywords[0],
        ValidatedKeyword::Valid(k) if k == "store"
    ));
    assert_eq!(runner.screen.input(), "");
    assert_eq!(runner.screen.commands.len(), 1);
    assert_eq!(runner.screen.commands[0].cmd.original, "du -sh /nix/store");
}

#[test]
fn typing_narrows_the_command_list() {
    let mut runner = Runner::new(catalog(), (80, 10));
    runner.process_key(Key::Char('n'));
    runner.process_key(Key::Char('i'));
    assert_eq!(runner.screen.auto_complete, vec!["nix"]);
    assert_eq!(runner.screen.commands.len(), 2);
    assert_eq!(runner.screen.commands[0].cmd.original, "du -sh /nix/store");
    assert_eq!(runner.screen.commands[1].cmd.original, "nix-env -q '.*{}.*'");
    runner.process_key(Key::Char('z'));
    assert!(runner.screen.auto_complete.is_empty());
    assert!(runner.screen.commands.is_empty());
    assert_eq!(runner.screen.selected_command_index, None);
}

#[test]
fn other_keys_change_nothing() {
    let mut runner = Runner::new(catalog(), (80, 10));
    runner.process_key(Key::Char('n'));
    let before_commands = runner.screen.commands.clone();
    assert!(matches!(runner.process_key(Key::Other), InputLoopAction::Continue));
    assert_eq!(runner.screen.commands, before_commands);
    assert_eq!(runner.screen.input(), "n");
}
