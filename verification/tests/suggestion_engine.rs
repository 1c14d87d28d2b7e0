//! The catalog and the suggestion engine on the three-command catalog.

use std::rc::Rc;

use cmdpick::command::{Command, Commands, Placeholders};
use cmdpick::suggestion::Suggestion;

fn command(template: &str, desc: &str, keywords: &[&str]) -> Command {
    Command {
        cmd: Placeholders::parse(template).unwrap(),
        description: Some(desc.to_owned()),
        keywords: keywords.iter().map(|k| (*k).to_owned()).collect(),
    }
}

fn nix_env() -> Command {
    command("nix-env -q '.*{}.*'", "Search a Nix package by name", &["nix", "search"])
}

fn nix_store() -> Command {
    command("du -sh /nix/store", "Show the size of the Nix store", &["nix", "store"])
}

fn shutdown() -> Command {
    command("sudo shutdown -h now", "Shut the system down", &["shutdown"])
}

fn test_data() -> (Commands, Rc<Command>, Rc<Command>, Rc<Command>) {
    let cmd_nix_env = Rc::new(nix_env());
    let cmd_nix_store = Rc::new(nix_store());
    let cmd_shutdown = Rc::new(shutdown());
    let commands = Commands::new_rc(vec![
        cmd_nix_env.clone(),
        cmd_nix_store.clone(),
        cmd_shutdown.clone(),
    ]);
    (commands, cmd_nix_env, cmd_nix_store, cmd_shutdown)
}

#[test]
fn input_empty() {
    let (commands, cmd_nix_env, cmd_nix_store, cmd_shutdown) = test_data();
    let s = Suggestion::from_input(&commands, "", &Vec::new());
    assert_eq!(s.keywords, Vec::<String>::new());
    assert_eq!(s.commands, vec![cmd_nix_store, cmd_nix_env, cmd_shutdown]);
}

#[test]
fn input_matching_commands() {
    let (commands, cmd_nix_env, cmd_nix_store, _) = test_data();
    let s = Suggestion::from_input(&commands, "ni", &Vec::new());
    assert_eq!(s.keywords, vec!["nix"]);
    assert_eq!(s.commands, vec![cmd_nix_store, cmd_nix_env]);
}

#[test]
fn input_not_matching_commands() {
    let (commands, _, _, _) = test_data();
    let s = Suggestion::from_input(&commands, "xy", &Vec::new());
    assert_eq!(s.keywords, Vec::<String>::new());
    assert_eq!(s.commands, Vec::<Rc<Command>>::new());
}

#[test]
fn input_matching_commands_with_validated_keywords() {
    let (commands, _, cmd_nix_store, _) = test_data();
    let s = Suggestion::from_input(&commands, "ni", &vec!["store".to_owned()]);
    assert_eq!(s.keywords, vec!["nix"]);
    assert_eq!(s.commands, vec![cmd_nix_store]);
}

#[test]
fn catalog_records_hold_given_fields() {
    let env = nix_env();
    assert_eq!(env.cmd.original, "nix-env -q '.*{}.*'");
    assert_eq!(env.description.as_deref(), Some("Search a Nix package by name"));
    assert_eq!(env.keywords, vec!["nix", "search"]);
    assert_eq!(env.some_description(), "Search a Nix package by name");
    let store = nix_store();
    assert_eq!(store.cmd.original, "du -sh /nix/store");
    assert_eq!(store.description.as_deref(), Some("Show the size of the Nix store"));
    assert_eq!(store.keywords, vec!["nix", "store"]);
    let down = shutdown();
    assert_eq!(down.cmd.original, "sudo shutdown -h now");
    assert_eq!(down.description.as_deref(), Some("Shut the system down"));
    assert_eq!(down.keywords, vec!["shutdown"]);
}

#[test]
fn missing_description_reads_empty() {
    let mut c = nix_env();
    c.description = None;
    assert_eq!(c.some_description(), "");
}

#[test]
fn catalog_index_maps_every_keyword_to_its_commands() {
    let (commands, _, _, _) = test_data();
    assert!(commands.has_keyword("nix"));
    assert!(commands.has_keyword("search"));
    assert!(commands.has_keyword("store"));
    assert!(commands.has_keyword("shutdown"));
    assert!(!commands.has_keyword("zzz"));
    assert!(!commands.has_keyword("ni"));
    let nix_entry = commands.kwd2cmd.iter().find(|e| e.keyword == "nix").unwrap();
    assert_eq!(nix_entry.cmd_idxs, vec![0, 1]);
    let shutdown_entry = commands.kwd2cmd.iter().find(|e| e.keyword == "shutdown").unwrap();
    assert_eq!(shutdown_entry.cmd_idxs, vec![2]);
    assert_eq!(commands.kwd2cmd.len(), 4);
}

#[test]
fn suggested_commands_appear_once_and_sorted() {
    let a = Rc::new(command("bbb", "two matching keywords", &["aa", "ab"]));
    let b = Rc::new(command("aaa", "one matching keyword", &["ac"]));
    let commands = Commands::new_rc(vec![a.clone(), b.clone()]);
    let s = Suggestion::from_input(&commands, "a", &Vec::new());
    assert_eq!(s.keywords, vec!["aa", "ab", "ac"]);
    assert_eq!(s.commands, vec![b, a]);
}

#[test]
fn suggested_commands_carry_all_validated_keywords() {
    let (commands, _, _, _) = test_data();
    let validated = vec!["nix".to_owned()];
    let s = Suggestion::from_input(&commands, "s", &validated);
    for c in &s.commands {
        assert!(c.keywords.contains(&"nix".to_owned()));
    }
    assert_eq!(s.keywords, vec!["search", "store", "shutdown"]);
    assert_eq!(s.commands.len(), 2);
}

#[test]
fn validated_keyword_is_not_suggested_again() {
    let (commands, _, _, _) = test_data();
    let validated = vec!["nix".to_owned()];
    let s = Suggestion::from_input(&commands, "n", &validated);
    assert!(!s.keywords.contains(&"nix".to_owned()));
    assert_eq!(s.keywords, Vec::<String>::new());
}

#[test]
fn unknown_validated_keyword_filters_everything_out() {
    let (commands, _, _, _) = test_data();
    let validated = vec!["zzz".to_owned()];
    let s = Suggestion::from_input(&commands, "", &validated);
    assert_eq!(s.commands, Vec::<Rc<Command>>::new());
}
