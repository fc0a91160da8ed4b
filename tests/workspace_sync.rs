use live_server_lsp::text::{Position, TextEdit, TextRange};
use live_server_lsp::workspace::{display_name, relative_path, uri_path, CommandError, SyncEngine};

fn edit(a: (u32, u32), b: (u32, u32), text: &str) -> TextEdit {
    TextEdit {
        range: Some(TextRange {
            start: Position { line: a.0, character: a.1 },
            end: Position { line: b.0, character: b.1 },
        }),
        text: text.to_string(),
    }
}

#[test]
fn eager_open_and_change_mirror_text() {
    let mut e = SyncEngine::new(5500, true);
    e.add_workspace("/root".to_string(), "root".to_string());
    let mut signals = vec![];
    if let Some(r) = e.open("file:///root/a.txt", "hello".to_string()) {
        signals.push(r);
    }
    assert_eq!(signals.len(), 1);
    assert_eq!(signals[0].path, "a.txt");
    let r = e.change("file:///root/a.txt", &vec![edit((0, 0), (0, 5), "bye")]).unwrap();
    assert_eq!(r.workspace, 0);
    assert_eq!(r.path, "a.txt");
    assert_eq!(e.cached_content("/root/a.txt"), Some("bye".to_string()));
}

#[test]
fn lazy_mode_signals_only_on_save() {
    let mut e = SyncEngine::new(5500, false);
    e.add_workspace("/root".to_string(), "root".to_string());
    assert!(e.open("file:///root/a.txt", "hello".to_string()).is_none());
    assert!(e.change("file:///root/a.txt", &vec![edit((0, 0), (0, 1), "J")]).is_none());
    assert_eq!(e.cached_content("/root/a.txt"), None);
    let r = e.save("file:///root/a.txt").unwrap();
    assert_eq!(r.path, "a.txt");
}

#[test]
fn close_drops_mirror() {
    let mut e = SyncEngine::new(5500, true);
    e.add_workspace("/w".to_string(), "w".to_string());
    e.open("file:///w/x.html", "<p>".to_string());
    e.close("file:///w/x.html");
    assert_eq!(e.cached_content("/w/x.html"), None);
    assert!(e.change("file:///w/x.html", &vec![edit((0, 0), (0, 0), "a")]).is_some());
    assert_eq!(e.cached_content("/w/x.html"), None);
}

#[test]
fn routing_prefers_longest_root_at_component_boundary() {
    let mut e = SyncEngine::new(5500, true);
    e.add_workspace("/root".to_string(), "outer".to_string());
    e.add_workspace("/root/sub".to_string(), "inner".to_string());
    assert_eq!(e.route("file:///root/sub/x.css"), Some(1));
    assert_eq!(e.route("file:///root/subway/x.css"), Some(0));
    assert_eq!(e.route("file:///rootx/a"), None);
    assert_eq!(e.route("/root/a"), Some(0));
    let r = e.save("file:///root/sub/x.css").unwrap();
    assert_eq!((r.workspace, r.path.as_str()), (1, "x.css"));
    assert!(e.save("file:///elsewhere/a").is_none());
}

#[test]
fn uri_and_relative_paths() {
    assert_eq!(uri_path("file:///root/a.txt"), "/root/a.txt");
    assert_eq!(uri_path("/plain"), "/plain");
    assert_eq!(relative_path("/root", "/root/a/b.txt"), "a/b.txt");
    assert_eq!(relative_path("/root/", "/root/a.txt"), "a.txt");
    assert_eq!(relative_path("/other", "/root/a.txt"), "root/a.txt");
}

#[test]
fn commands_resolve_to_ports() {
    let mut e = SyncEngine::new(5500, true);
    e.add_workspace("/root".to_string(), "root".to_string());
    assert!(e.advance_port(0));
    assert_eq!(e.port(0), 5501);
    assert_eq!(e.resolve_command("openProjectWeb", Some("/root")), Ok(5501));
    assert_eq!(e.resolve_command("openProjectWeb", None), Err(CommandError::MissingArgument));
    assert_eq!(e.resolve_command("openProjectWeb", Some("/nope")), Err(CommandError::InvalidArgument));
    assert_eq!(e.resolve_command("openProjectsWeb", None), Ok(5500));
    assert_eq!(e.resolve_command("other", None), Err(CommandError::UnknownCommand));
}

#[test]
fn workspace_display_names() {
    assert_eq!(display_name("site", Some("dir".to_string())), "site");
    assert_eq!(display_name("", Some("dir".to_string())), "dir");
    assert_eq!(display_name("", None), "Unnamed Workspace");
    let mut e = SyncEngine::new(5500, true);
    e.add_workspace("/root".to_string(), display_name("", Some("root".to_string())));
    assert_eq!(e.name(0), "root");
    assert_eq!(e.len(), 1);
}
