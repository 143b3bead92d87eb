use tmux_projects::error::Error;
use tmux_projects::lister::{strip_extension, Entry, Lister};
use tmux_projects::paths::{join, project_path};
use tmux_projects::store::{plan_edit, plan_remove, Existing};
use tmux_projects::utils::{
    assemble_command, confirmation_reply, get_project_namespace, is_default, parse_command,
    reply_hint, requote, tmux_join, tmux_quote, valid_tmux_identifier,
};

#[test]
fn namespace_of_plain_and_nested_names() {
    assert_eq!(get_project_namespace("project").unwrap(), "");
    assert_eq!(get_project_namespace("a/b/project").unwrap(), "a/b");
}

#[test]
fn namespace_rejects_trailing_slash_and_absolute_names() {
    assert!(matches!(
        get_project_namespace("a/b/"),
        Err(Error::ProjectNameTrailingSlash { project_name }) if project_name == "a/b/"
    ));
    assert!(matches!(
        get_project_namespace("/a/b"),
        Err(Error::ProjectNameAbsolutePath { project_name }) if project_name == "/a/b"
    ));
    assert!(matches!(get_project_namespace(""), Err(Error::ProjectNameEmpty {})));
    // A lone separator is reported as a trailing one.
    assert!(matches!(
        get_project_namespace("/"),
        Err(Error::ProjectNameTrailingSlash { .. })
    ));
}

#[test]
fn trailing_slash_fails_both_operations_without_work() {
    for name in ["project/", "a/b/"] {
        assert!(matches!(
            plan_edit("/r", name, "vi", false, Existing::Missing),
            Err(Error::ProjectNameTrailingSlash { .. })
        ));
        assert!(matches!(
            plan_remove("/r", name, Existing::File),
            Err(Error::ProjectNameTrailingSlash { .. })
        ));
    }
}

#[test]
fn empty_name_fails_both_operations() {
    assert!(matches!(
        plan_edit("/r", "", "", true, Existing::File),
        Err(Error::ProjectNameEmpty {})
    ));
    assert!(matches!(plan_remove("/r", "", Existing::Missing), Err(Error::ProjectNameEmpty {})));
}

#[test]
fn paths_join_under_the_root() {
    assert_eq!(join("/r", "a"), "/r/a");
    assert_eq!(join("/r/", "a"), "/r/a");
    assert_eq!(join("", "a"), "a");
    assert_eq!(project_path("/r", "a/b").unwrap(), "/r/a/b.yml");
}

#[test]
fn create_only_skips_the_editor_for_an_existing_file() {
    let plan = plan_edit("/r", "p", "vi", true, Existing::File).unwrap();
    assert!(!plan.open_editor);
    assert!(!plan.create_file);
    let plan = plan_edit("/r", "p", "vi", true, Existing::Missing).unwrap();
    assert!(plan.open_editor);
    assert!(plan.create_file);
}

#[test]
fn directory_in_place_of_the_file_is_not_removed() {
    assert!(matches!(
        plan_remove("/r", "p", Existing::Directory),
        Err(Error::ProjectDoesNotExist { project_name }) if project_name == "p"
    ));
}

#[test]
fn cleanup_never_climbs_out_of_the_root() {
    let plan = plan_remove("/r", "../x/p", Existing::File).unwrap();
    assert!(plan.cleanup.is_empty());
    let plan = plan_remove("/r", "a/./p", Existing::File).unwrap();
    assert!(plan.cleanup.is_empty());
    let plan = plan_remove("/r", "a//p", Existing::File).unwrap();
    assert!(plan.cleanup.is_empty());
    let plan = plan_remove("/r", "a/b/c/p", Existing::File).unwrap();
    assert_eq!(plan.cleanup, vec!["/r/a/b/c", "/r/a/b", "/r/a"]);
}

#[test]
fn extension_is_stripped_from_listed_names() {
    assert_eq!(strip_extension("a/b.yml"), "a/b");
    assert_eq!(strip_extension(".yml"), ".yml");
    assert_eq!(strip_extension("notes.txt"), "notes.txt");
}

#[test]
fn lister_counts_top_level_and_nested_files() {
    let mut lister = Lister::new("/t".to_string());
    let mut reads = Vec::new();
    while let Some(rel) = lister.next_dir() {
        let entries = match rel.as_str() {
            "" => vec![
                Entry::File { name: "one.yml".to_string() },
                Entry::File { name: "two.yml".to_string() },
                Entry::Other {},
                Entry::Directory { name: "a".to_string(), id: "/t/a".to_string() },
            ],
            "a" => vec![Entry::Directory { name: "b".to_string(), id: "/t/a/b".to_string() }],
            "a/b" => vec![Entry::File { name: "three.yml".to_string() }],
            other => panic!("unexpected read of {}", other),
        };
        reads.push(rel);
        lister.visit(&entries);
    }
    // Nothing is handed out once the walk is done, and a visit without a
    // directory changes nothing.
    lister.visit(&vec![Entry::File { name: "stray".to_string() }]);
    assert_eq!(lister.next_dir(), None);
    let mut names = lister.into_names();
    names.sort();
    assert_eq!(names, vec!["a/b/three", "one", "two"]);
    assert_eq!(reads.len(), 3);
}

#[test]
fn lister_skips_a_link_to_an_ancestor_deep_down() {
    let mut lister = Lister::new("/t".to_string());
    let mut reads = 0;
    while let Some(rel) = lister.next_dir() {
        reads += 1;
        let entries = match rel.as_str() {
            "" => vec![Entry::Directory { name: "a".to_string(), id: "/t/a".to_string() }],
            "a" => vec![
                Entry::File { name: "p".to_string() },
                Entry::Directory { name: "up".to_string(), id: "/t/a".to_string() },
                Entry::Directory { name: "top".to_string(), id: "/t".to_string() },
            ],
            other => panic!("unexpected read of {}", other),
        };
        lister.visit(&entries);
    }
    assert_eq!(reads, 2);
    assert_eq!(lister.into_names(), vec!["a/p"]);
}

#[test]
fn tmux_identifiers() {
    assert!(valid_tmux_identifier("session").is_ok());
    assert!(matches!(valid_tmux_identifier(""), Err(Error::TmuxIdentifierEmpty {})));
    assert!(matches!(
        valid_tmux_identifier("a.b"),
        Err(Error::TmuxIdentifierIllegalCharacters { identifier }) if identifier == "a.b"
    ));
    assert!(matches!(
        valid_tmux_identifier("a:b"),
        Err(Error::TmuxIdentifierIllegalCharacters { .. })
    ));
}

#[test]
fn commands_split_and_take_extra_arguments() {
    let (program, args) = parse_command("vim -p", &["file.yml"]).unwrap();
    assert_eq!(program, "vim");
    assert_eq!(args, vec!["-p", "file.yml"]);
    let (program, args) = parse_command("'my editor' --wait", &[]).unwrap();
    assert_eq!(program, "my editor");
    assert_eq!(args, vec!["--wait"]);
}

#[test]
fn command_errors() {
    assert!(matches!(parse_command("", &["x"]), Err(Error::EmptyCommand {})));
    assert!(matches!(parse_command("   ", &[]), Err(Error::EmptyCommand {})));
    assert!(matches!(parse_command("vim 'open", &[]), Err(Error::InvalidCommand {})));
    assert!(matches!(assemble_command(vec![], &[]), Err(Error::EmptyCommand {})));
    let (program, args) = assemble_command(vec![], &["only"]).unwrap();
    assert_eq!(program, "only");
    assert!(args.is_empty());
}

#[test]
fn tmux_quoting() {
    assert_eq!(tmux_quote("plain"), "plain");
    assert_eq!(tmux_quote("a b"), "'a b'");
    assert_eq!(tmux_quote("it's"), "'it'\"'\"'s'");
    assert_eq!(requote("x'\\''y'\\''"), "x'\"'\"'y'\"'\"'");
    assert_eq!(requote("'\\'"), "'\\'");
    assert_eq!(tmux_join(&["echo", "a b", "it's"]), "echo 'a b' 'it'\"'\"'s'");
    assert_eq!(tmux_join(&[]), "");
    assert_eq!(tmux_join(&["one"]), "one");
}

#[test]
fn defaults() {
    assert!(is_default(&0u32));
    assert!(!is_default(&7u32));
    assert!(is_default(&String::new()));
    assert!(!is_default(&"x".to_string()));
}

#[test]
fn confirmation_replies() {
    assert!(confirmation_reply('\n', true));
    assert!(!confirmation_reply('\n', false));
    assert!(confirmation_reply('y', false));
    assert!(confirmation_reply('Y', false));
    assert!(!confirmation_reply('n', true));
    assert!(!confirmation_reply('x', true));
    assert_eq!(reply_hint(true), "Y/n");
    assert_eq!(reply_hint(false), "y/N");
}
