use hologram::config::{Config, ConfigTask};
use hologram::daemon::{
    begin_remove, drain_all, finish_add, finish_remove, not_found_message, provision, restore,
};
use hologram::path::{is_absolute, join, mailbox_path, reply_channel_path, resolve_dest};
use hologram::protocol::{
    command_outcome, encode_reply, int_to_text, parse_i32, parse_reply, Action, Cmd, Response,
};
use hologram::registry::Registry;
use hologram::task::{TaskEvent, TaskState, TaskStep};

fn entry(dest: &str, cwd: &str, cmd: &[&str]) -> ConfigTask {
    ConfigTask::new(
        dest.to_string(),
        cwd.to_string(),
        cmd.iter().map(|s| s.to_string()).collect(),
    )
}

fn dests(config: &Config) -> Vec<String> {
    config.tasks.iter().map(|t| t.dest.clone()).collect()
}

#[test]
fn remove_missing_replies_not_found() {
    let mut registry: Registry<u32> = Registry::new();
    let outcome = begin_remove(&mut registry, "/tmp/missing");
    let response = match outcome {
        Err(r) => r,
        Ok(_) => panic!("nothing was registered"),
    };
    match &response {
        Response::Respond(code, message) => {
            assert_eq!(*code, 1);
            assert_eq!(message, "No known hologram was found at /tmp/missing");
        }
        _ => panic!("expected a reply with a message"),
    }
    assert_eq!(registry.len(), 0);
    let (reply, go_on) = command_outcome(Some(Ok(response)));
    let reply = reply.unwrap();
    assert!(go_on);
    assert_eq!(reply, "1:No known hologram was found at /tmp/missing");
    assert_eq!(
        parse_reply(&reply),
        Some((1, "No known hologram was found at /tmp/missing".to_string()))
    );
}

#[test]
fn remove_unknown_leaves_registry_and_config() {
    let mut registry: Registry<u32> = Registry::new();
    registry.insert("/tmp/a".to_string(), 7);
    let config = Config { tasks: vec![entry("/tmp/a", "/", &["date"])] };
    assert!(begin_remove(&mut registry, "/tmp/b").is_err());
    assert_eq!(registry.len(), 1);
    assert!(registry.contains("/tmp/a"));
    assert_eq!(dests(&config), vec!["/tmp/a".to_string()]);
}

#[test]
fn add_then_remove_bookkeeping() {
    let mut registry: Registry<u32> = Registry::new();
    let resolved = provision("/tmp/out", "/home/u", false).unwrap();
    assert_eq!(resolved, "/tmp/out");
    let (config, replaced) = finish_add(
        &mut registry,
        Config::new(),
        "/tmp/out".to_string(),
        "/home/u".to_string(),
        vec!["echo".to_string(), "hi".to_string()],
        1,
    );
    assert!(replaced.is_none());
    assert_eq!(config.tasks.len(), 1);
    assert_eq!(config.tasks[0].dest, "/tmp/out");
    assert_eq!(config.tasks[0].cwd, "/home/u");
    assert_eq!(config.tasks[0].cmd, vec!["echo".to_string(), "hi".to_string()]);
    assert!(registry.contains("/tmp/out"));
    assert_eq!(begin_remove(&mut registry, "/tmp/out").ok(), Some(1));
    assert!(!registry.contains("/tmp/out"));
    let config = finish_remove(config, "/tmp/out");
    assert!(config.tasks.is_empty());
}

#[test]
fn add_onto_existing_file_is_refused() {
    let refused = provision("out", "/tmp", true);
    assert_eq!(refused, Err("A file already exists at /tmp/out".to_string()));
}

#[test]
fn remove_keeps_other_entries_in_order() {
    let config = Config {
        tasks: vec![
            entry("/a", "/", &["x"]),
            entry("/b", "/", &["y"]),
            entry("/c", "/", &["z"]),
            entry("/b", "/w", &["q"]),
        ],
    };
    let config = finish_remove(config, "/b");
    assert_eq!(dests(&config), vec!["/a".to_string(), "/c".to_string()]);
    assert_eq!(config.tasks[1].cmd, vec!["z".to_string()]);
}

#[test]
fn restart_restores_each_entry() {
    let config = Config {
        tasks: vec![
            entry("/tmp/one", "/", &["date"]),
            entry("/tmp/two", "/srv", &["ls", "-l"]),
            entry("/tmp/three", "/", &["uptime"]),
        ],
    };
    let registry = restore(&config, vec![10, 20, 30]);
    assert_eq!(registry.len(), 3);
    assert!(registry.contains("/tmp/one"));
    assert!(registry.contains("/tmp/two"));
    assert!(registry.contains("/tmp/three"));
    let mut registry = registry;
    assert_eq!(begin_remove(&mut registry, "/tmp/two").ok(), Some(20));
}

#[test]
fn shutdown_drains_every_task() {
    let mut registry: Registry<u32> = Registry::new();
    registry.insert("/a".to_string(), 1);
    registry.insert("/b".to_string(), 2);
    registry.insert("/c".to_string(), 3);
    let mut all = drain_all(&mut registry);
    all.sort();
    assert_eq!(
        all,
        vec![("/a".to_string(), 1), ("/b".to_string(), 2), ("/c".to_string(), 3)]
    );
    assert_eq!(registry.len(), 0);
    assert!(registry.pop().is_none());
}

#[test]
fn registry_insert_replaces() {
    let mut registry: Registry<u32> = Registry::new();
    assert_eq!(registry.insert("/a".to_string(), 1), None);
    assert_eq!(registry.insert("/a".to_string(), 2), Some(1));
    assert_eq!(registry.len(), 1);
    assert_eq!(registry.remove("/a"), Some(2));
    assert_eq!(registry.remove("/a"), None);
}

#[test]
fn quit_stops_the_loop_after_an_empty_reply() {
    let (reply, go_on) = command_outcome(Some(Ok(Response::Quit)));
    assert_eq!(reply, Some("0:".to_string()));
    assert!(!go_on);
    let (reply, go_on) = command_outcome(Some(Ok(Response::Silent)));
    assert_eq!(reply, Some("0:".to_string()));
    assert!(go_on);
    let (reply, go_on) = command_outcome(Some(Err("boom".to_string())));
    assert_eq!(reply, Some("1:boom".to_string()));
    assert!(go_on);
    let (reply, go_on) = command_outcome(None);
    assert_eq!(reply, None);
    assert!(!go_on);
}

#[test]
fn task_lifecycle_serves_then_drains() {
    let (s, step) = TaskState::start();
    assert_eq!((s, step), (TaskState::Waiting, TaskStep::OpenForWrite));
    let (s, step) = s.next(TaskEvent::Opened);
    assert_eq!((s, step), (TaskState::Producing, TaskStep::SpawnProducer));
    let (s, step) = s.next(TaskEvent::ProducerExited);
    assert_eq!((s, step), (TaskState::Waiting, TaskStep::OpenForWrite));
    let (s, step) = s.next(TaskEvent::Opened);
    assert_eq!(step, TaskStep::SpawnProducer);
    let (s, step) = s.next(TaskEvent::Cancelled);
    assert_eq!((s, step), (TaskState::Draining, TaskStep::ReadAll));
    let (s2, step) = s.next(TaskEvent::ProducerExited);
    assert_eq!((s2, step), (TaskState::Draining, TaskStep::Nothing));
    let (s, step) = s.next(TaskEvent::Drained);
    assert_eq!((s, step), (TaskState::Removed, TaskStep::DeletePipe));
    assert!(s.is_removed());
    assert_eq!(s.next(TaskEvent::Opened), (TaskState::Removed, TaskStep::Nothing));
}

#[test]
fn failed_open_ends_serving() {
    let (s, step) = TaskState::Waiting.next(TaskEvent::OpenFailed);
    assert_eq!((s, step), (TaskState::Draining, TaskStep::ReadAll));
}

#[test]
fn integers_in_decimal() {
    assert_eq!(int_to_text(0), "0");
    assert_eq!(int_to_text(42), "42");
    assert_eq!(int_to_text(-7), "-7");
    assert_eq!(int_to_text(i32::MAX), "2147483647");
    assert_eq!(int_to_text(i32::MIN), "-2147483648");
}

#[test]
fn integers_read_back() {
    assert_eq!(parse_i32("0"), Some(0));
    assert_eq!(parse_i32("+7"), Some(7));
    assert_eq!(parse_i32("007"), Some(7));
    assert_eq!(parse_i32("-2147483648"), Some(i32::MIN));
    assert_eq!(parse_i32("2147483647"), Some(i32::MAX));
    assert_eq!(parse_i32("2147483648"), None);
    assert_eq!(parse_i32("-"), None);
    assert_eq!(parse_i32(""), None);
    assert_eq!(parse_i32("1a"), None);
    assert_eq!(parse_i32(" 1"), None);
    for v in [0, 1, -1, 1234, -98765, i32::MAX, i32::MIN] {
        assert_eq!(parse_i32(&int_to_text(v)), Some(v));
    }
}

#[test]
fn replies_read_back() {
    assert_eq!(encode_reply(0, ""), "0:");
    assert_eq!(encode_reply(-3, "a:b"), "-3:a:b");
    assert_eq!(parse_reply("0:"), Some((0, String::new())));
    assert_eq!(parse_reply("3"), Some((3, String::new())));
    assert_eq!(parse_reply("1:a:b"), Some((1, "a:b".to_string())));
    assert_eq!(parse_reply("x:y"), None);
    assert_eq!(parse_reply(""), None);
    assert_eq!(parse_reply(&encode_reply(-3, "a:b")), Some((-3, "a:b".to_string())));
}

#[test]
fn paths_join_as_on_unix() {
    assert!(is_absolute("/tmp"));
    assert!(!is_absolute("tmp"));
    assert!(!is_absolute(""));
    assert_eq!(join("/tmp", "out"), "/tmp/out");
    assert_eq!(join("/tmp/", "out"), "/tmp/out");
    assert_eq!(join("/tmp", "/etc/x"), "/etc/x");
    assert_eq!(join("", "out"), "out");
    assert_eq!(resolve_dest("out", "/home/u"), "/home/u/out");
    assert_eq!(resolve_dest("/tmp/out", "/home/u"), "/tmp/out");
    assert_eq!(mailbox_path("/tmp"), "/tmp/hologramd.socket");
    assert_eq!(not_found_message("x"), "No known hologram was found at x");
}

#[test]
fn reply_channels_are_fresh() {
    let a = reply_channel_path("/tmp");
    let b = reply_channel_path("/tmp");
    assert_ne!(a, b);
    assert_eq!(a.len(), "/tmp/".len() + 36);
    assert!(a.starts_with("/tmp/"));
    let name = &a["/tmp/".len()..];
    for (i, c) in name.chars().enumerate() {
        if i == 8 || i == 13 || i == 18 || i == 23 {
            assert_eq!(c, '-');
        } else {
            assert!(c.is_ascii_hexdigit() && !c.is_ascii_uppercase());
        }
    }
}

#[test]
fn commands_carry_their_reply_channel() {
    let cmd = Cmd::new("/tmp/r".to_string(), Action::Remove { dest: "/tmp/out".to_string() });
    assert_eq!(cmd.response, "/tmp/r");
    assert!(matches!(cmd.action, Action::Remove { ref dest } if dest == "/tmp/out"));
    let quit = Cmd::new("/tmp/q".to_string(), Action::Quit);
    assert!(matches!(quit.action, Action::Quit));
}
