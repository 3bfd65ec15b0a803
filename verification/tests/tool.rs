//! Running `curl` and `git`.

use herdr_reviewr::bitbucket::association::{read_output, read_reply, Reply};
use herdr_reviewr::bitbucket::errors::{BitbucketError, SpawnFail};
use herdr_reviewr::bitbucket::process::{Run, RunAction, RunEvent};
use herdr_reviewr::bitbucket::tool::{collect, credential_call, get_call};

#[test]
fn git_is_asked_for_the_password_without_a_prompt() {
    let call = credential_call("bb.example.com");
    assert_eq!(call.tool, "git");
    assert_eq!(call.args, vec!["credential".to_string(), "fill".to_string()]);
    assert_eq!(call.stdin, "protocol=https\nhost=bb.example.com\n\n");
    assert_eq!(
        call.envs,
        vec![
            ("GIT_TERMINAL_PROMPT".to_string(), "0".to_string()),
            ("GIT_ASKPASS".to_string(), String::new()),
        ]
    );
}

#[test]
fn the_token_reaches_curl_by_its_input_alone() {
    let call = get_call("s3cret", "https://bb.example.com/x?y=1");
    assert_eq!(call.tool, "curl");
    assert_eq!(
        call.args,
        vec![
            "--silent".to_string(),
            "--show-error".to_string(),
            "--fail".to_string(),
            "--config".to_string(),
            "-".to_string(),
            "https://bb.example.com/x?y=1".to_string(),
        ]
    );
    assert_eq!(call.stdin, "header = \"Authorization: Bearer s3cret\"\n");
    assert!(call.envs.is_empty());
    let other = get_call("other", "https://bb.example.com/x?y=1");
    assert_eq!(call.args, other.args);
    assert_ne!(call.stdin, other.stdin);
    let long = "a-token-of-some-length";
    let call = get_call(long, "https://bb.example.com/x");
    assert!(call.args.iter().all(|arg| !arg.contains(long)));
    // A lone dash is part of every option.
    assert!(get_call("-", "https://x").args.iter().any(|arg| arg.contains("-")));
}

#[test]
fn a_tool_that_does_not_start_is_missing_or_broken() {
    let (run, action) = Run::start();
    assert!(matches!(action, RunAction::Spawn));
    let missing = RunEvent::NotSpawned { not_found: true, message: "gone".to_string() };
    assert!(matches!(run.step(missing).1, RunAction::Finish(Err(SpawnFail::NotFound))));
    let (run, _) = Run::start();
    let denied = RunEvent::NotSpawned { not_found: false, message: "denied".to_string() };
    assert!(matches!(
        run.step(denied).1,
        RunAction::Finish(Err(SpawnFail::Io(message))) if message == "denied"
    ));
}

#[test]
fn a_running_tool_is_looked_at_until_it_exits() {
    let (mut run, _) = Run::start();
    let mut action: RunAction;
    (run, action) = run.step(RunEvent::Spawned { cancelled: false });
    for _ in 0..3 {
        assert!(matches!(action, RunAction::Look { kill: false }));
        (run, action) = run.step(RunEvent::Running);
        assert!(matches!(action, RunAction::Pause(20)));
        (run, action) = run.step(RunEvent::Paused { cancelled: false });
    }
    assert!(matches!(action, RunAction::Look { kill: false }));
    (run, action) = run.step(RunEvent::Exited { success: true });
    assert!(matches!(action, RunAction::Drain));
    let drained =
        RunEvent::Drained { cancelled: false, stdout: b"out".to_vec(), stderr: b"err".to_vec() };
    (run, action) = run.step(drained);
    assert!(matches!(action, RunAction::Finish(Ok(text)) if text == "out"));
    assert!(!run.accepts(&RunEvent::Running));
}

#[test]
fn a_tool_that_fails_gives_its_report() {
    let (run, _) = Run::start();
    let (run, _) = run.step(RunEvent::Spawned { cancelled: false });
    let (run, _) = run.step(RunEvent::Exited { success: false });
    let drained =
        RunEvent::Drained { cancelled: false, stdout: b"out".to_vec(), stderr: b"err".to_vec() };
    assert!(matches!(
        run.step(drained).1,
        RunAction::Finish(Err(SpawnFail::Failed { stderr })) if stderr == "err"
    ));
}

#[test]
fn a_cancelled_run_is_killed() {
    let (run, _) = Run::start();
    let (run, action) = run.step(RunEvent::Spawned { cancelled: true });
    assert!(matches!(action, RunAction::Look { kill: true }));
    let (run, _) = run.step(RunEvent::Running);
    let (run, action) = run.step(RunEvent::Paused { cancelled: true });
    assert!(matches!(action, RunAction::Look { kill: true }));
    let (run, _) = run.step(RunEvent::Exited { success: true });
    let drained =
        RunEvent::Drained { cancelled: true, stdout: b"out".to_vec(), stderr: b"err".to_vec() };
    assert!(matches!(run.step(drained).1, RunAction::Finish(Err(SpawnFail::Cancelled))));
}

#[test]
fn a_tool_that_is_lost_is_abandoned() {
    let (run, _) = Run::start();
    let (run, _) = run.step(RunEvent::Spawned { cancelled: false });
    let (run, action) = run.step(RunEvent::Broken("lost".to_string()));
    assert!(matches!(action, RunAction::Abandon));
    assert!(matches!(
        run.step(RunEvent::Abandoned).1,
        RunAction::Finish(Err(SpawnFail::Io(message))) if message == "lost"
    ));
}

#[test]
fn a_run_accepts_the_answer_to_its_question_alone() {
    let (run, _) = Run::start();
    assert!(run.accepts(&RunEvent::Spawned { cancelled: true }));
    assert!(run.accepts(&RunEvent::NotSpawned { not_found: true, message: String::new() }));
    assert!(!run.accepts(&RunEvent::Running));
    let (run, _) = run.step(RunEvent::Spawned { cancelled: false });
    assert!(run.accepts(&RunEvent::Running));
    assert!(run.accepts(&RunEvent::Exited { success: false }));
    assert!(run.accepts(&RunEvent::Broken(String::new())));
    assert!(!run.accepts(&RunEvent::Paused { cancelled: false }));
    assert!(!run.accepts(&RunEvent::Abandoned));
}

#[test]
fn what_a_tool_wrote_is_text() {
    let out = || "{\"a\": \"\u{4e16}\"}".as_bytes().to_vec();
    let err = || b"curl: \xff!".to_vec();
    assert!(matches!(
        collect(false, true, out(), err()),
        Ok(text) if text == "{\"a\": \"\u{4e16}\"}"
    ));
    assert!(matches!(
        collect(false, false, out(), err()),
        Err(SpawnFail::Failed { stderr }) if stderr == "curl: \u{fffd}!"
    ));
    assert!(matches!(collect(true, true, out(), err()), Err(SpawnFail::Cancelled)));
    assert!(matches!(collect(true, false, out(), err()), Err(SpawnFail::Cancelled)));
}

#[test]
fn an_output_is_a_response_or_a_failure() {
    let json = read_output(Ok("{\"id\": 7}".to_string())).unwrap();
    assert_eq!(json.field("id").as_u64(), Some(7));
    assert!(matches!(
        read_output(Ok("<html>".to_string())),
        Err(BitbucketError::Other(message)) if message == "expected value at line 1 column 1"
    ));
    assert!(matches!(
        read_output(Err(SpawnFail::Failed { stderr: "error: 401".to_string() })),
        Err(BitbucketError::NotAuthed)
    ));
    assert!(matches!(
        read_output(Err(SpawnFail::NotFound)),
        Err(BitbucketError::NoCurl)
    ));
}

#[test]
fn a_reader_that_panicked_names_its_surface() {
    assert!(matches!(
        read_reply("merge", Reply::Panicked),
        Err(BitbucketError::Other(message)) if message == "merge read panicked"
    ));
    let json = read_reply("merge", Reply::Output(Ok("[]".to_string()))).unwrap();
    assert_eq!(json.count(), 0);
}
