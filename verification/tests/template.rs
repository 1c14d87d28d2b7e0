//! Template parsing and interpolation.

use cmdpick::command::Placeholders;

#[test]
fn parsing_placeholders_name_and_no_name() {
    let ph = Placeholders::parse("nix-env -q '.*{}.*'{name} blabla").unwrap();
    assert_eq!(ph.cmd_chunks, vec!["nix-env -q '.*", ".*'", " blabla"]);
    assert_eq!(ph.names, vec!["", "name"]);
}

#[test]
fn interpolating_placeholders() {
    let ph = Placeholders::parse("nix-env -q '.*{}.*'{name} blabla").unwrap();
    assert_eq!(
        ph.interpolate(vec!["stuff".to_owned(), "more-stuff".to_owned()]),
        "nix-env -q '.*stuff.*'more-stuff blabla"
    );
}

#[test]
fn parsing_keeps_original_text() {
    let ph = Placeholders::parse("nix-env -q '.*{}.*'{name} blabla").unwrap();
    assert_eq!(ph.original, "nix-env -q '.*{}.*'{name} blabla");
}

#[test]
fn parsing_empty_string() {
    let ph = Placeholders::parse("").unwrap();
    assert_eq!(ph.cmd_chunks, vec![""]);
    assert_eq!(ph.names, Vec::<String>::new());
}

#[test]
fn parsing_without_placeholders() {
    let ph = Placeholders::parse("du -sh /nix/store").unwrap();
    assert_eq!(ph.cmd_chunks, vec!["du -sh /nix/store"]);
    assert_eq!(ph.names, Vec::<String>::new());
}

#[test]
fn parsing_unterminated_brace_is_literal() {
    let ph = Placeholders::parse("echo {unfinished").unwrap();
    assert_eq!(ph.cmd_chunks, vec!["echo {unfinished"]);
    assert_eq!(ph.names, Vec::<String>::new());
}

#[test]
fn parsing_lone_placeholder() {
    let ph = Placeholders::parse("{a}").unwrap();
    assert_eq!(ph.cmd_chunks, vec!["", ""]);
    assert_eq!(ph.names, vec!["a"]);
}

#[test]
fn interpolating_missing_values_are_empty() {
    let ph = Placeholders::parse("a{x}b{y}c").unwrap();
    assert_eq!(ph.interpolate(vec!["1".to_owned()]), "a1bc");
}

#[test]
fn interpolating_surplus_values_are_ignored() {
    let ph = Placeholders::parse("just a command").unwrap();
    assert_eq!(ph.interpolate(vec!["extra".to_owned()]), "just a command");
}

#[test]
fn interpolating_no_placeholders_round_trips() {
    let ph = Placeholders::parse("du -sh /nix/store").unwrap();
    assert_eq!(ph.interpolate(Vec::new()), "du -sh /nix/store");
}
