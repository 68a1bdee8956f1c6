use terminal_execute::buffer::{DrainInbox, ReadOutcome, SESSION_BUFFER_CAPACITY};
use terminal_execute::error::SessionError;
use terminal_execute::session::{SessionInfo, SessionManager, Timestamp};

fn stamp(secs: i64) -> Timestamp {
    Timestamp { secs, nanos: 0 }
}

fn manager_with(ids: &[(&str, Option<&str>)]) -> SessionManager<u32> {
    let mut manager = SessionManager::new();
    for (index, (id, project)) in ids.iter().enumerate() {
        let inserted = manager.insert_session(
            id.to_string(),
            stamp(1_700_000_000 + index as i64),
            index as u32,
            format!("/work/{}", id),
            project.map(|name| name.to_string()),
        );
        assert_eq!(inserted, Ok(()));
    }
    manager
}

/// Lets a fresh inbox take in one read and has the registry collect it, as
/// a drain loop and the next caller would between them.
fn feed(manager: &mut SessionManager<u32>, id: &str, outcome: ReadOutcome) -> bool {
    let mut inbox = DrainInbox::new();
    let keep_reading = inbox.absorb(outcome);
    manager.collect(id, &mut inbox);
    keep_reading
}

fn not_found(id: &str) -> SessionError {
    SessionError::NotFound { session_id: id.to_string() }
}

#[test]
fn new_manager_has_no_sessions() {
    let manager: SessionManager<u32> = SessionManager::new();
    assert_eq!(manager.len(), 0);
    assert!(!manager.contains("anything"));
    assert_eq!(manager.list_sessions(None), Vec::<SessionInfo>::new());
}

#[test]
fn inserted_session_is_registered_alive_and_empty() {
    let mut manager = manager_with(&[("s1", Some("x"))]);
    assert_eq!(manager.len(), 1);
    assert!(manager.contains("s1"));
    assert_eq!(
        manager.list_sessions(None),
        vec![SessionInfo {
            session_id: "s1".to_string(),
            project: Some("x".to_string()),
            cwd: "/work/s1".to_string(),
            is_alive: true,
            created_at: stamp(1_700_000_000),
        }]
    );
    assert_eq!(manager.read_output("s1", None), Ok((String::new(), true)));
}

#[test]
fn inserting_a_registered_identifier_is_refused() {
    let mut manager = manager_with(&[("a", None), ("b", None), ("c", None)]);
    assert!(feed(&mut manager, "b", ReadOutcome::Data(b"old output")));
    let before = manager.list_sessions(None);
    assert_eq!(
        manager.insert_session("b".to_string(), stamp(5), 99, "/new".to_string(), None),
        Err(SessionError::IdentifierInUse { session_id: "b".to_string() })
    );
    assert_eq!(manager.len(), 3);
    assert_eq!(manager.list_sessions(None), before);
    assert_eq!(manager.handle("b"), Ok(&1));
    assert_eq!(manager.read_output("b", None), Ok(("old output".to_string(), true)));
}

#[test]
fn refused_insert_drops_the_handle() {
    let handle = std::rc::Rc::new(());
    let mut manager: SessionManager<std::rc::Rc<()>> = SessionManager::new();
    assert_eq!(
        manager.insert_session("s".to_string(), stamp(0), handle.clone(), "/".to_string(), None),
        Ok(())
    );
    assert!(manager
        .insert_session("s".to_string(), stamp(1), handle.clone(), "/".to_string(), None)
        .is_err());
    assert_eq!(std::rc::Rc::strong_count(&handle), 2);
}

#[test]
fn inserted_session_comes_last_and_leaves_the_others_alone() {
    let mut manager = manager_with(&[("a", Some("x")), ("b", None)]);
    feed(&mut manager, "a", ReadOutcome::Data(b"kept"));
    let before = manager.list_sessions(None);
    assert_eq!(manager.insert_session("c".to_string(), stamp(9), 7, "/c".to_string(), None), Ok(()));
    let after = manager.list_sessions(None);
    assert_eq!(after.len(), 3);
    assert_eq!(after[..2], before[..]);
    assert_eq!(after[2].session_id, "c");
    assert_eq!(manager.read_output("a", None), Ok(("kept".to_string(), true)));
}

#[test]
fn create_session_returns_fresh_hyphenated_identifiers() {
    let mut manager: SessionManager<u32> = SessionManager::new();
    let first = manager.create_session(1, "/a".to_string(), None).unwrap();
    let second = manager.create_session(2, "/b".to_string(), Some("p".to_string())).unwrap();
    assert_ne!(first, second);
    for id in [&first, &second] {
        assert_eq!(id.len(), 36);
        for (index, c) in id.chars().enumerate() {
            if index == 8 || index == 13 || index == 18 || index == 23 {
                assert_eq!(c, '-');
            } else {
                assert!(c.is_ascii_digit() || ('a'..='f').contains(&c));
            }
        }
        assert_eq!(id.chars().nth(14), Some('4'));
        assert!(manager.contains(id));
    }
    assert_eq!(manager.len(), 2);
    let infos = manager.list_sessions(None);
    assert_eq!(infos[0].session_id, first);
    assert_eq!(infos[0].cwd, "/a");
    assert_eq!(infos[0].project, None);
    assert!(infos[0].is_alive);
    assert_eq!(infos[1].session_id, second);
    assert_eq!(infos[1].project, Some("p".to_string()));
}

#[test]
fn create_session_stamps_the_current_time() {
    let mut manager: SessionManager<u32> = SessionManager::new();
    let before = std::time::SystemTime::now()
        .duration_since(std::time::UNIX_EPOCH)
        .map(|elapsed| elapsed.as_secs() as i64)
        .unwrap_or(0);
    assert!(manager.create_session(1, "/a".to_string(), None).is_ok());
    let created_at = manager.list_sessions(None)[0].created_at;
    assert!(created_at.secs >= 0);
    assert!(created_at.secs >= before);
    assert!(created_at.secs <= before + 60);
    assert!(created_at.nanos < 1_000_000_000);
}

#[test]
fn read_output_is_destructive() {
    let mut manager = manager_with(&[("s", None)]);
    assert!(feed(&mut manager, "s", ReadOutcome::Data(b"one\r\n")));
    assert!(feed(&mut manager, "s", ReadOutcome::Data(b"two\r\n")));
    assert_eq!(manager.read_output("s", None), Ok(("one\ntwo\n".to_string(), true)));
    assert_eq!(manager.read_output("s", None), Ok((String::new(), true)));
}

#[test]
fn second_read_without_new_output_is_empty() {
    let mut manager = manager_with(&[("s", None)]);
    feed(&mut manager, "s", ReadOutcome::Data(b"\x1b[32mready\x1b[0m\r\n"));
    assert_eq!(manager.read_output("s", Some(5)), Ok(("ready".to_string(), true)));
    assert_eq!(manager.read_output("s", Some(5)), Ok((String::new(), true)));
    assert_eq!(manager.read_output("s", None), Ok((String::new(), true)));
    feed(&mut manager, "s", ReadOutcome::Data(b""));
    assert_eq!(manager.read_output("s", None), Ok((String::new(), false)));
    assert_eq!(manager.read_output("s", None), Ok((String::new(), false)));
}

#[test]
fn read_output_keeps_last_lines_of_sanitized_text() {
    let mut manager = manager_with(&[("s", None)]);
    feed(&mut manager, "s", ReadOutcome::Data(b"a\r\nb\r\n\x1b[1mc\x1b[0m\r\nd"));
    assert_eq!(manager.read_output("s", Some(2)), Ok(("c\nd".to_string(), true)));
}

#[test]
fn read_output_after_each_chunk_returns_only_new_bytes() {
    let mut manager = manager_with(&[("s", None)]);
    feed(&mut manager, "s", ReadOutcome::Data(b"first "));
    assert_eq!(manager.read_output("s", None), Ok(("first ".to_string(), true)));
    feed(&mut manager, "s", ReadOutcome::Data(b"second "));
    feed(&mut manager, "s", ReadOutcome::Data(b"third"));
    assert_eq!(manager.read_output("s", None), Ok(("second third".to_string(), true)));
}

#[test]
fn reads_do_not_touch_other_sessions() {
    let mut manager = manager_with(&[("a", None), ("b", None)]);
    feed(&mut manager, "a", ReadOutcome::Data(b"for a"));
    feed(&mut manager, "b", ReadOutcome::Data(b"for b"));
    assert_eq!(manager.read_output("a", None), Ok(("for a".to_string(), true)));
    assert_eq!(manager.read_output("b", None), Ok(("for b".to_string(), true)));
}

#[test]
fn end_of_stream_clears_liveness_for_good() {
    let mut manager = manager_with(&[("s", None)]);
    assert!(feed(&mut manager, "s", ReadOutcome::Data(b"bye\n")));
    assert!(!feed(&mut manager, "s", ReadOutcome::Data(b"")));
    assert!(!manager.list_sessions(None)[0].is_alive);
    assert!(feed(&mut manager, "s", ReadOutcome::Data(b"late")));
    assert!(!manager.list_sessions(None)[0].is_alive);
    assert_eq!(manager.read_output("s", None), Ok(("bye\nlate".to_string(), false)));
}

#[test]
fn failed_read_clears_liveness() {
    let mut manager = manager_with(&[("s", None), ("t", None)]);
    assert!(!feed(&mut manager, "s", ReadOutcome::Failed));
    let infos = manager.list_sessions(None);
    assert!(!infos[0].is_alive);
    assert!(infos[1].is_alive);
}

#[test]
fn dead_session_still_serves_reads_and_input() {
    let mut manager = manager_with(&[("s", None)]);
    feed(&mut manager, "s", ReadOutcome::Data(b"trailing output\n"));
    feed(&mut manager, "s", ReadOutcome::Failed);
    assert!(manager.send_input("s", "ls\n").is_ok());
    assert_eq!(manager.read_output("s", None), Ok(("trailing output\n".to_string(), false)));
    assert_eq!(manager.close_session("s"), Ok(()));
}

#[test]
fn collect_for_unknown_session_changes_nothing() {
    let mut manager = manager_with(&[("s", None)]);
    let mut inbox = DrainInbox::new();
    assert!(inbox.absorb(ReadOutcome::Data(b"data")));
    assert!(!manager.collect("gone", &mut inbox));
    assert_eq!(inbox.take(), b"data".to_vec());
    assert_eq!(manager.len(), 1);
    assert_eq!(manager.read_output("s", None), Ok((String::new(), true)));
}

#[test]
fn collect_moves_bytes_and_records_the_end_of_the_stream() {
    let mut manager = manager_with(&[("s", None)]);
    let mut inbox = DrainInbox::new();
    assert!(inbox.absorb(ReadOutcome::Data(b"one ")));
    assert!(manager.collect("s", &mut inbox));
    assert!(inbox.absorb(ReadOutcome::Data(b"two ")));
    assert!(inbox.absorb(ReadOutcome::Data(b"three")));
    assert!(!inbox.absorb(ReadOutcome::Failed));
    assert!(inbox.ended());
    assert!(manager.list_sessions(None)[0].is_alive);
    assert!(manager.collect("s", &mut inbox));
    assert!(inbox.ended());
    assert_eq!(inbox.take(), Vec::<u8>::new());
    assert!(manager.collect("s", &mut inbox));
    assert_eq!(manager.read_output("s", None), Ok(("one two three".to_string(), false)));
}

#[test]
fn collecting_through_an_inbox_evicts_as_direct_appends_would() {
    let mut manager = manager_with(&[("s", None)]);
    let head = vec![b'h'; SESSION_BUFFER_CAPACITY - 2];
    let mut inbox = DrainInbox::new();
    inbox.absorb(ReadOutcome::Data(&head));
    manager.collect("s", &mut inbox);
    inbox.absorb(ReadOutcome::Data(b"ab"));
    inbox.absorb(ReadOutcome::Data(b"cd"));
    manager.collect("s", &mut inbox);
    let (text, _) = manager.read_output("s", None).unwrap();
    assert_eq!(text.len(), SESSION_BUFFER_CAPACITY);
    assert!(text.starts_with("hh"));
    assert!(text.ends_with("hhabcd"));
}

#[test]
fn handle_is_found_by_identifier() {
    let manager = manager_with(&[("a", None), ("b", None)]);
    assert_eq!(manager.handle("a"), Ok(&0));
    assert_eq!(manager.handle("b"), Ok(&1));
    assert_eq!(manager.handle("c"), Err(not_found("c")));
}

#[test]
fn session_buffer_evicts_beyond_one_mebibyte() {
    let mut manager = manager_with(&[("s", None)]);
    let filler = vec![b'a'; SESSION_BUFFER_CAPACITY];
    feed(&mut manager, "s", ReadOutcome::Data(&filler));
    feed(&mut manager, "s", ReadOutcome::Data(b"tail"));
    let (text, alive) = manager.read_output("s", None).unwrap();
    assert!(alive);
    assert_eq!(text.len(), SESSION_BUFFER_CAPACITY);
    assert!(text.ends_with("aatail"));
    assert!(text.starts_with("aaaa"));
}

#[test]
fn send_input_hands_out_handle_and_exact_bytes() {
    let manager = manager_with(&[("a", None), ("b", None)]);
    assert_eq!(manager.send_input("b", "echo hi"), Ok((&1u32, "echo hi".as_bytes())));
    assert_eq!(manager.send_input("a", "ls -la\n"), Ok((&0u32, "ls -la\n".as_bytes())));
    assert_eq!(manager.send_input("a", ""), Ok((&0u32, "".as_bytes())));
    assert_eq!(manager.send_input("a", "\u{e9}"), Ok((&0u32, &[0xc3u8, 0xa9][..])));
}

#[test]
fn unknown_session_is_not_found() {
    let mut manager = manager_with(&[("s", None)]);
    assert_eq!(manager.send_input("nope", "x"), Err(not_found("nope")));
    assert_eq!(manager.read_output("nope", None), Err(not_found("nope")));
    assert_eq!(manager.close_session("nope"), Err(not_found("nope")));
    assert_eq!(manager.len(), 1);
}

#[test]
fn closed_session_is_not_found_afterwards() {
    let mut manager = manager_with(&[("a", None), ("b", None), ("c", None)]);
    feed(&mut manager, "b", ReadOutcome::Data(b"pending"));
    assert_eq!(manager.close_session("b"), Ok(()));
    assert!(!manager.contains("b"));
    assert_eq!(manager.len(), 2);
    assert_eq!(manager.send_input("b", "x"), Err(not_found("b")));
    assert_eq!(manager.read_output("b", None), Err(not_found("b")));
    assert_eq!(manager.close_session("b"), Err(not_found("b")));
    assert!(manager.contains("a"));
    assert!(manager.contains("c"));
    assert_eq!(manager.send_input("c", "").map(|(handle, _)| *handle), Ok(2));
}

#[test]
fn closing_drops_the_handle() {
    let handle = std::rc::Rc::new(());
    let mut manager: SessionManager<std::rc::Rc<()>> = SessionManager::new();
    assert_eq!(
        manager.insert_session("s".to_string(), stamp(0), handle.clone(), "/".to_string(), None),
        Ok(())
    );
    assert_eq!(std::rc::Rc::strong_count(&handle), 2);
    assert_eq!(manager.close_session("s"), Ok(()));
    assert_eq!(std::rc::Rc::strong_count(&handle), 1);
}

#[test]
fn list_sessions_filters_by_exact_project() {
    let manager = manager_with(&[
        ("a", Some("x")),
        ("b", None),
        ("c", Some("y")),
        ("d", Some("x")),
        ("e", Some("xx")),
    ]);
    let ids = |project: Option<&str>| -> Vec<String> {
        manager.list_sessions(project).into_iter().map(|info| info.session_id).collect()
    };
    assert_eq!(ids(Some("x")), vec!["a".to_string(), "d".to_string()]);
    assert_eq!(ids(Some("y")), vec!["c".to_string()]);
    assert_eq!(ids(Some("z")), Vec::<String>::new());
    assert_eq!(ids(Some("")), Vec::<String>::new());
    assert_eq!(
        ids(None),
        vec!["a".to_string(), "b".to_string(), "c".to_string(), "d".to_string(), "e".to_string()]
    );
    for info in manager.list_sessions(Some("x")) {
        assert_eq!(info.project, Some("x".to_string()));
    }
}

#[test]
fn listing_reports_current_liveness_and_metadata() {
    let mut manager = manager_with(&[("a", Some("x")), ("b", Some("x"))]);
    feed(&mut manager, "a", ReadOutcome::Data(b""));
    assert_eq!(
        manager.list_sessions(Some("x")),
        vec![
            SessionInfo {
                session_id: "a".to_string(),
                project: Some("x".to_string()),
                cwd: "/work/a".to_string(),
                is_alive: false,
                created_at: stamp(1_700_000_000),
            },
            SessionInfo {
                session_id: "b".to_string(),
                project: Some("x".to_string()),
                cwd: "/work/b".to_string(),
                is_alive: true,
                created_at: stamp(1_700_000_001),
            },
        ]
    );
}
