use autoterm::config::{launch_spec, Config, Profile};

const VALID: &str = r#"
default_profile = "ash"

[[profiles]]
name = "ash"
commandline = 'D:\autostack\auto-shell\ash\target\release\ash.exe'
starting_directory = 'D:\autostack'

[[profiles]]
name = "cmd"
commandline = 'cmd.exe'
"#;

#[test]
fn valid_config_parses() {
    let c = Config::parse(VALID);
    assert_eq!(c.default_profile_name.as_deref(), Some("ash"));
    assert_eq!(c.profiles.len(), 2);
    let ash = c.profile("ash").unwrap();
    assert_eq!(
        ash.commandline,
        r"D:\autostack\auto-shell\ash\target\release\ash.exe"
    );
    assert_eq!(ash.starting_directory.as_deref(), Some(r"D:\autostack"));
    let cmd = c.profile("cmd").unwrap();
    assert_eq!(cmd.commandline, "cmd.exe");
    assert_eq!(cmd.starting_directory, None);
    assert_eq!(c.default_profile().unwrap().name, "ash");
}

#[test]
fn corrupt_file_is_empty_config() {
    let c = Config::parse("this is [ not = toml {{{");
    assert_eq!(c, Config::default());
}

#[test]
fn profile_missing_fields_skipped() {
    let c = Config::parse(
        r#"
default_profile = "cmd"

[[profiles]]
name = "broken"

[[profiles]]
name = "cmd"
commandline = 'cmd.exe'
"#,
    );
    assert_eq!(c.profiles.len(), 1, "an entry without commandline is skipped");
    assert_eq!(c.default_profile().unwrap().name, "cmd");
}

#[test]
fn duplicate_name_latter_wins() {
    let c = Config::parse(
        r#"
[[profiles]]
name = "p"
commandline = 'first.exe'

[[profiles]]
name = "p"
commandline = 'second.exe --flag'
"#,
    );
    assert_eq!(c.profiles.len(), 1);
    assert_eq!(c.profiles[0].commandline, "second.exe --flag");
}

#[test]
fn default_profile_name_unmatched_is_none() {
    let c = Config::parse(
        r#"
default_profile = "ghost"

[[profiles]]
name = "cmd"
commandline = 'cmd.exe'
"#,
    );
    assert_eq!(c.default_profile(), None, "an unmatched name must not fall back to the first profile");
    assert!(c.profile("cmd").is_some(), "lookup by name is unaffected");
}

#[test]
fn resolve_plain_quoted_and_relative() {
    assert_eq!(
        Config::resolve("cmd.exe"),
        ("cmd.exe".to_owned(), Vec::<String>::new())
    );
    assert_eq!(
        Config::resolve("pwsh.exe -NoLogo -WorkingDirectory D:\\tmp"),
        (
            "pwsh.exe".to_owned(),
            vec![
                "-NoLogo".to_owned(),
                "-WorkingDirectory".to_owned(),
                "D:\\tmp".to_owned()
            ]
        )
    );
    assert_eq!(
        Config::resolve(r#""D:\Program Files\tool\t.exe" --verbose arg two""#),
        (
            r"D:\Program Files\tool\t.exe".to_owned(),
            vec!["--verbose".to_owned(), "arg".to_owned(), "two\"".to_owned()]
        )
    );
    assert_eq!(
        Config::resolve(r".\tools\ash.exe -x"),
        (r".\tools\ash.exe".to_owned(), vec!["-x".to_owned()])
    );
    assert_eq!(Config::resolve("  "), (String::new(), Vec::<String>::new()));
}

#[test]
fn spawn_spec_maps_profile_fields() {
    let p = Profile {
        name: "ash".into(),
        commandline: r#""D:\a b\ash.exe" --fast"#.into(),
        starting_directory: Some(r"D:\autostack".into()),
    };
    let s = Config::spawn_spec(&p);
    assert_eq!(s.program, r"D:\a b\ash.exe");
    assert_eq!(s.argv, vec!["--fast".to_owned()]);
    assert_eq!(s.cwd, r"D:\autostack");
    let p2 = Profile { starting_directory: None, ..p };
    assert_eq!(Config::spawn_spec(&p2).cwd, "");
}

#[test]
fn empty_starting_directory_counts_as_none() {
    let c = Config::parse(
        r#"
[[profiles]]
name = "x"
commandline = 'x.exe'
starting_directory = ''
"#,
    );
    assert_eq!(c.profile("x").unwrap().starting_directory, None);
}

#[test]
fn resolve_unclosed_quote_splits_at_white_space() {
    assert_eq!(
        Config::resolve("\"a b"),
        ("\"a".to_owned(), vec!["b".to_owned()])
    );
}

#[test]
fn resolve_trims_unicode_white_space_and_tabs() {
    assert_eq!(
        Config::resolve("\u{3000}\tprog\t a \u{2003} b \n"),
        ("prog".to_owned(), vec!["a".to_owned(), "b".to_owned()])
    );
}

#[test]
fn from_document_without_document_is_empty() {
    assert_eq!(Config::from_document(None), Config::default());
}

#[test]
fn non_string_fields_are_treated_as_missing() {
    let c = Config::parse(
        r#"
default_profile = 3

[[profiles]]
name = 7
commandline = 'x.exe'

[[profiles]]
name = "ok"
commandline = 'ok.exe'
"#,
    );
    assert_eq!(c.default_profile_name, None);
    assert_eq!(c.profiles.len(), 1);
    assert_eq!(c.profiles[0].name, "ok");
}

#[test]
fn launch_prefers_an_explicit_shell() {
    let c = Config::parse(VALID);
    assert_eq!(
        launch_spec(&c, Some("ash.exe".to_string()), Some("cmd".to_string())),
        Some(("ash.exe".to_string(), vec![], None))
    );
}

#[test]
fn launch_uses_the_named_or_default_profile() {
    let c = Config::parse(VALID);
    let ash = Some((
        r"D:\autostack\auto-shell\ash\target\release\ash.exe".to_string(),
        vec![],
        Some(r"D:\autostack".to_string()),
    ));
    assert_eq!(launch_spec(&c, None, None), ash, "no name = the default profile");
    assert_eq!(launch_spec(&c, None, Some(String::new())), ash, "an empty name = the default profile");
    assert_eq!(launch_spec(&c, None, Some("cmd".to_string())), Some(("cmd.exe".to_string(), vec![], None)));
}

#[test]
fn launch_refuses_an_unknown_profile() {
    let c = Config::parse(VALID);
    assert_eq!(launch_spec(&c, None, Some("nope".to_string())), None);
}

#[test]
fn launch_falls_back_to_pwsh_without_profiles() {
    let c = Config::parse("");
    assert_eq!(launch_spec(&c, None, None), Some(("pwsh".to_string(), vec![], None)));
    assert_eq!(launch_spec(&c, None, Some(String::new())), None, "a named launch needs a profile, even an empty name");
}
