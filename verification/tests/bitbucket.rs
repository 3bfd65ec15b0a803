//! What the responses of the forge mean, and where its token comes from.

use std::cell::Cell;

use herdr_reviewr::bitbucket::auth::{stored_password, token_from};
use herdr_reviewr::bitbucket::errors::{classify, died, BitbucketError, SpawnFail};
use herdr_reviewr::bitbucket::normalize::{
    assoc_pr, author_is_bot, build_snapshot, check_status, count_replies, derive_merge,
    is_truncated, map_activities, map_checks, parse_state,
};
use herdr_reviewr::calendar::{epoch_ms_to_iso, parse_iso};
use herdr_reviewr::comments::CommentKind;
use herdr_reviewr::forge::{CheckStatus, Forge, Merge, PrState, PrView, Sync};
use herdr_reviewr::json::Json;

fn object(fields: Vec<(&str, Json)>) -> Json {
    Json::Object(fields.into_iter().map(|(name, value)| (name.to_string(), value)).collect())
}

fn list(elements: Vec<Json>) -> Json {
    Json::Array(elements)
}

fn text(value: &str) -> Json {
    Json::Text(value.to_string())
}

fn number(value: i64) -> Json {
    Json::Integer(i128::from(value))
}

fn truth(value: bool) -> Json {
    Json::Bool(value)
}

#[test]
fn parse_state_maps_the_three_bitbucket_lifecycles() {
    assert_eq!(parse_state("OPEN"), PrState::Open);
    assert_eq!(parse_state("MERGED"), PrState::Merged);
    assert_eq!(parse_state("DECLINED"), PrState::Closed);
    assert_eq!(parse_state("anything-else"), PrState::Open); // default is the live case
}

#[test]
fn derive_merge_folds_conflicted_and_vetoed_but_not_a_clean_response() {
    assert_eq!(
        derive_merge(&object(vec![
            ("canMerge", truth(false)),
            ("conflicted", truth(true)),
            ("vetoes", list(vec![])),
        ])),
        Merge::Conflicting
    );
    assert_eq!(
        derive_merge(&object(vec![
            ("canMerge", truth(false)),
            ("conflicted", truth(false)),
            ("vetoes", list(vec![object(vec![("summaryMessage", text("blocked"))])])),
        ])),
        Merge::Blocked
    );
    assert_eq!(
        derive_merge(&object(vec![
            ("canMerge", truth(true)),
            ("conflicted", truth(false)),
            ("vetoes", list(vec![])),
        ])),
        Merge::Clean
    );
    // canMerge:false with no vetoes (e.g. still computing) is not actionable → Clean.
    assert_eq!(
        derive_merge(&object(vec![
            ("canMerge", truth(false)),
            ("conflicted", truth(false)),
            ("vetoes", list(vec![])),
        ])),
        Merge::Clean
    );
}

#[test]
fn check_status_maps_every_documented_arm() {
    assert_eq!(check_status("SUCCESSFUL"), CheckStatus::Success);
    assert_eq!(check_status("FAILED"), CheckStatus::Failure);
    assert_eq!(check_status("INPROGRESS"), CheckStatus::Running);
    assert_eq!(check_status("CANCELLED"), CheckStatus::Skipped);
    assert_eq!(check_status("UNKNOWN"), CheckStatus::Pending);
    assert_eq!(check_status("anything-else"), CheckStatus::Pending);
}

#[test]
fn epoch_ms_round_trips_through_parse_iso() {
    for ms in [0i64, 1_752_192_000_000, 4_102_444_799_000] {
        let iso = epoch_ms_to_iso(ms);
        assert_eq!(parse_iso(&iso), Some(ms / 1000));
    }
}

#[test]
fn map_activities_maps_anchored_findings_general_comments_and_bots() {
    let activities = list(vec![
        object(vec![
            ("action", text("COMMENTED")),
            (
                "commentAnchor",
                object(vec![
                    ("path", text("src/a.rs")),
                    ("line", number(12)),
                    ("orphaned", truth(false)),
                ]),
            ),
            (
                "comment",
                object(vec![
                    ("text", text("fix this")),
                    ("state", text("RESOLVED")),
                    ("createdDate", number(1_752_192_000_000i64)),
                    ("author", object(vec![("name", text("persijano"))])),
                    (
                        "comments",
                        list(vec![
                            object(vec![
                                ("text", text("on it")),
                                ("createdDate", number(1_752_192_100_000i64)),
                                ("author", object(vec![("name", text("reviewer2"))])),
                            ]),
                            object(vec![
                                ("text", text("done")),
                                ("createdDate", number(1_752_192_200_000i64)),
                                ("author", object(vec![("name", text("persijano"))])),
                            ]),
                        ]),
                    ),
                ]),
            ),
        ]),
        object(vec![
            ("action", text("COMMENTED")),
            (
                "commentAnchor",
                object(vec![("path", text("src/b.rs")), ("orphaned", truth(true))]),
            ),
            (
                "comment",
                object(vec![
                    ("text", text("stale line")),
                    ("createdDate", number(1_752_192_300_000i64)),
                    ("author", object(vec![("name", text("persijano"))])),
                ]),
            ),
        ]),
        object(vec![
            ("action", text("COMMENTED")),
            (
                "comment",
                object(vec![
                    ("text", text("looks good overall")),
                    ("createdDate", number(1_752_192_400_000i64)),
                    ("author", object(vec![("name", text("reviewer2"))])),
                ]),
            ),
        ]),
        object(vec![
            ("action", text("COMMENTED")),
            (
                "comment",
                object(vec![
                    ("text", text("automated note")),
                    ("createdDate", number(1_752_192_500_000i64)),
                    (
                        "author",
                        object(vec![("name", text("ci-runner")), ("type", text("SERVICE"))]),
                    ),
                ]),
            ),
        ]),
        object(vec![
            ("action", text("APPROVED")),
            (
                "comment",
                object(vec![
                    ("text", text("should be dropped")),
                    ("createdDate", number(1_752_192_600_000i64)),
                    ("author", object(vec![("name", text("x"))])),
                ]),
            ),
        ]),
    ]);
    let cs = map_activities(&activities);
    assert_eq!(cs.len(), 4); // the non-COMMENTED activity is dropped

    let finding = cs.iter().find(|c| c.anchor == "src/a.rs:12").unwrap();
    assert_eq!(finding.kind, CommentKind::Finding);
    assert!(finding.is_resolved);
    assert!(!finding.is_outdated);
    assert_eq!(finding.reply_count, 2);

    let orphaned = cs.iter().find(|c| c.anchor == "src/b.rs").unwrap();
    assert!(orphaned.is_outdated);
    assert!(!orphaned.is_resolved);
    assert_eq!(orphaned.reply_count, 0);

    let plain = cs.iter().find(|c| c.author == "reviewer2").unwrap();
    assert_eq!(plain.kind, CommentKind::Comment);
    assert_eq!(plain.anchor, "comment");

    let bot = cs.iter().find(|c| c.author == "ci-runner").unwrap();
    assert!(bot.author_is_bot);

    // Newest first, matching the other backends' merged-comment ordering.
    assert!(cs.windows(2).all(|w| w[0].created_at >= w[1].created_at));
}

fn remark(author: Vec<(&str, Json)>) -> Json {
    object(vec![
        ("action", text("COMMENTED")),
        (
            "comment",
            object(vec![
                ("text", text("hi")),
                ("createdDate", number(0)),
                ("author", object(author)),
            ]),
        ),
    ])
}

#[test]
fn map_activities_falls_back_to_a_name_suffix_when_no_user_type_is_present() {
    let activities = list(vec![
        remark(vec![("name", text("deploy_bot"))]),
        remark(vec![("name", text("release-bot"))]),
        remark(vec![("name", text("persijano"))]),
    ]);
    let cs = map_activities(&activities);
    assert!(cs.iter().find(|c| c.author == "deploy_bot").unwrap().author_is_bot);
    assert!(cs.iter().find(|c| c.author == "release-bot").unwrap().author_is_bot);
    assert!(!cs.iter().find(|c| c.author == "persijano").unwrap().author_is_bot);
}

#[test]
fn map_activities_a_user_typed_normal_never_reads_as_a_bot_by_name_suffix() {
    // Once a `type` field is present it is authoritative — a real user whose account
    // happens to be named with a `-bot` suffix never misreads as a service account.
    let activities =
        list(vec![remark(vec![("name", text("release-bot")), ("type", text("NORMAL"))])]);
    let cs = map_activities(&activities);
    assert!(!cs[0].author_is_bot);
}

fn detail_from(project: &str) -> Json {
    object(vec![
        ("id", number(42)),
        ("title", text("Add feature")),
        ("description", text("Adds the thing.")),
        ("state", text("OPEN")),
        ("draft", truth(true)),
        (
            "links",
            object(vec![(
                "self",
                list(vec![object(vec![(
                    "href",
                    text("https://bb.example.com/projects/TEAM/repos/svc/pull-requests/42"),
                )])]),
            )]),
        ),
        (
            "fromRef",
            object(vec![
                ("displayId", text("feat/x")),
                ("latestCommit", text("abc123")),
                (
                    "repository",
                    object(vec![
                        ("slug", text("svc")),
                        ("project", object(vec![("key", text(project))])),
                    ]),
                ),
            ]),
        ),
        (
            "toRef",
            object(vec![
                ("displayId", text("main")),
                (
                    "repository",
                    object(vec![
                        ("slug", text("svc")),
                        ("project", object(vec![("key", text("TEAM"))])),
                    ]),
                ),
            ]),
        ),
    ])
}

#[test]
fn build_snapshot_detects_a_fork_by_differing_project_key_case_insensitively() {
    let detail = detail_from("team");
    let s = build_snapshot(&detail, Merge::Clean, vec![], vec![], Sync::InSync, false);
    assert_eq!(s.number, 42);
    assert!(s.is_draft);
    assert_eq!(s.body, "Adds the thing.");
    assert_eq!(s.head_oid, "abc123");
    assert!(!s.head_is_fork); // "team" vs "TEAM" — same key, case-insensitive
    assert_eq!(s.head_ref, "feat/x");
    assert_eq!(s.base_ref, "main");
    assert_eq!(s.url, "https://bb.example.com/projects/TEAM/repos/svc/pull-requests/42");

    let forked = detail_from("OTHER");
    assert!(build_snapshot(&forked, Merge::Clean, vec![], vec![], Sync::InSync, false).head_is_fork);

    // Absent fields default rather than fail — a mid-rollout API response degrades soft.
    let bare = object(vec![("id", number(7))]);
    let s = build_snapshot(&bare, Merge::Clean, vec![], vec![], Sync::InSync, false);
    assert!(!s.is_draft);
    assert_eq!(s.head_ref, "");
    assert_eq!(s.body, "");
    assert!(!s.head_is_fork);
}

#[test]
fn token_from_prefers_the_env_var_over_the_credential_helper() {
    assert_eq!(
        token_from(Some("env-token".to_string()), || Some("cred-pw".to_string())),
        Ok("env-token".to_string())
    );
    assert_eq!(token_from(None, || Some("cred-pw".to_string())), Ok("cred-pw".to_string()));
    assert_eq!(
        token_from(Some(String::new()), || Some("cred-pw".to_string())),
        Ok("cred-pw".to_string())
    );
    assert!(token_from(None, || None).is_err());
    assert!(token_from(Some(String::new()), || Some(String::new())).is_err());
}

#[test]
fn token_from_never_calls_the_credential_helper_when_env_is_set() {
    let calls: Cell<u32> = Cell::new(0);
    let result = token_from(Some("env-token".to_string()), || {
        calls.set(calls.get() + 1);
        Some("cred-pw".to_string())
    });
    assert_eq!(result, Ok("env-token".to_string()));
    assert_eq!(calls.get(), 0, "credential helper closure must not run when env wins");
}

#[test]
fn classify_maps_curl_failures() {
    assert!(matches!(classify(SpawnFail::NotFound), BitbucketError::NoCurl));
    assert!(matches!(
        classify(SpawnFail::Failed { stderr: "HTTP 401 Unauthorized".to_string() }),
        BitbucketError::NotAuthed
    ));
    assert!(matches!(
        classify(SpawnFail::Failed { stderr: "HTTP 403 Forbidden".to_string() }),
        BitbucketError::NotAuthed
    ));
    assert!(matches!(
        classify(SpawnFail::Failed { stderr: "HTTP 500".to_string() }),
        BitbucketError::Other(message) if message == "HTTP 500"
    ));
    assert!(matches!(classify(SpawnFail::Cancelled), BitbucketError::Other(_)));
    assert!(matches!(
        classify(SpawnFail::Io("boom".to_string())),
        BitbucketError::Other(message) if message == "boom"
    ));
}

#[test]
fn is_truncated_reads_the_bitbucket_paging_flag() {
    assert!(!is_truncated(&object(vec![("isLastPage", truth(true))])));
    assert!(is_truncated(&object(vec![("isLastPage", truth(false))])));
    // A missing flag is not read as truncated.
    assert!(!is_truncated(&object(vec![])));
}

#[test]
fn a_cancelled_or_failed_run_names_its_reason() {
    assert!(matches!(
        classify(SpawnFail::Cancelled),
        BitbucketError::Other(message) if message == "request cancelled"
    ));
    assert!(matches!(
        classify(SpawnFail::Failed { stderr: " \n curl: (6) no host\r\n".to_string() }),
        BitbucketError::Other(message) if message == "curl: (6) no host"
    ));
    assert!(matches!(
        died("checks"),
        BitbucketError::Other(message) if message == "checks read panicked"
    ));
}

#[test]
fn every_failure_has_its_view() {
    assert!(matches!(
        BitbucketError::NoCurl.into_view("bb.example.com"),
        PrView::NoCli(Forge::Bitbucket)
    ));
    assert!(matches!(
        BitbucketError::NotAuthed.into_view("bb.example.com"),
        PrView::NotAuthed(Forge::Bitbucket, host) if host == "bb.example.com"
    ));
    assert!(matches!(
        BitbucketError::LocalGit("no HEAD".to_string()).into_view("bb.example.com"),
        PrView::GitError(message) if message == "no HEAD"
    ));
    assert!(matches!(
        BitbucketError::Other("boom".to_string()).into_view("bb.example.com"),
        PrView::Error(Forge::Bitbucket, message) if message == "boom"
    ));
}

#[test]
fn a_merge_answer_of_another_shape_is_clean() {
    assert_eq!(derive_merge(&Json::Null), Merge::Clean);
    assert_eq!(derive_merge(&object(vec![])), Merge::Clean);
    // A veto alone does not block, nor does one that is no list.
    assert_eq!(
        derive_merge(&object(vec![("vetoes", list(vec![Json::Null]))])),
        Merge::Clean
    );
    assert_eq!(
        derive_merge(&object(vec![("canMerge", truth(false)), ("vetoes", text("no"))])),
        Merge::Clean
    );
    // A conflict wins over a veto.
    assert_eq!(
        derive_merge(&object(vec![
            ("canMerge", truth(false)),
            ("conflicted", truth(true)),
            ("vetoes", list(vec![Json::Null])),
        ])),
        Merge::Conflicting
    );
}

#[test]
fn the_last_status_of_a_name_counts_in_the_place_of_the_first() {
    let page = object(vec![(
        "values",
        list(vec![
            object(vec![("name", text("build")), ("state", text("INPROGRESS"))]),
            object(vec![("key", text("lint")), ("state", text("FAILED"))]),
            object(vec![("state", text("FAILED"))]),
            object(vec![
                ("name", text("build")),
                ("key", text("lint")),
                ("state", text("SUCCESSFUL")),
            ]),
            object(vec![("name", number(3)), ("key", text("docs"))]),
        ]),
    )]);
    let checks = map_checks(&page);
    let shown: Vec<(&str, CheckStatus)> =
        checks.iter().map(|check| (check.name.as_str(), check.status)).collect();
    assert_eq!(
        shown,
        vec![
            ("build", CheckStatus::Success),
            ("lint", CheckStatus::Failure),
            ("docs", CheckStatus::Pending),
        ]
    );
    assert!(map_checks(&Json::Null).is_empty());
}

#[test]
fn a_row_carries_its_close_time_only_in_the_past() {
    let row = || {
        object(vec![
            ("id", number(9)),
            ("createdDate", number(0)),
            ("closedDate", number(1_000)),
            ("updatedDate", number(2_000)),
            (
                "fromRef",
                object(vec![("displayId", text("feat/x")), ("latestCommit", text("abc123"))]),
            ),
        ])
    };
    let open = assoc_pr(&row(), false).unwrap();
    assert_eq!(open.number, 9);
    assert_eq!(open.head_ref, "feat/x");
    assert_eq!(open.head_oid, "abc123");
    assert_eq!(open.created_at, "1970-01-01T00:00:00Z");
    assert_eq!(open.closed_at, "");
    assert!(open.raw.is_none());
    let past = assoc_pr(&row(), true).unwrap();
    assert_eq!(past.closed_at, "1970-01-01T00:00:01Z");

    let updated = object(vec![("id", number(9)), ("updatedDate", number(2_000))]);
    let past = assoc_pr(&updated, true).unwrap();
    assert_eq!(past.closed_at, "1970-01-01T00:00:02Z");
    assert_eq!(past.created_at, "");

    let never = assoc_pr(&object(vec![("id", number(9))]), true).unwrap();
    assert_eq!(never.closed_at, "");
    assert!(assoc_pr(&object(vec![("id", number(-1))]), true).is_none());
    assert!(assoc_pr(&object(vec![("id", text("9"))]), false).is_none());
}

#[test]
fn replies_to_replies_count() {
    let thread = object(vec![(
        "comments",
        list(vec![
            object(vec![(
                "comments",
                list(vec![
                    object(vec![("comments", list(vec![Json::Null, Json::Null]))]),
                    Json::Null,
                ]),
            )]),
            Json::Null,
        ]),
    )]);
    assert_eq!(count_replies(&thread), 6);
    assert_eq!(count_replies(&Json::Null), 0);
    assert_eq!(count_replies(&object(vec![("comments", text("none"))])), 0);
}

#[test]
fn an_author_is_a_bot_by_type_or_else_by_name() {
    for name in ["dependabot[bot]", "release-bot", "deploy_bot"] {
        assert!(author_is_bot(&object(vec![("name", text(name))])), "{name}");
        assert!(!author_is_bot(&object(vec![("name", text(name)), ("type", text("NORMAL"))])));
    }
    for name in ["bot", "robot", "-bot-", ""] {
        assert!(!author_is_bot(&object(vec![("name", text(name))])), "{name}");
        assert!(author_is_bot(&object(vec![("name", text(name)), ("type", text("SERVICE"))])));
    }
    // Once there is a type, the name does not count, even where the type is no text.
    for kind in [number(7), truth(true), object(vec![]), text("service"), text("")] {
        assert!(!author_is_bot(&object(vec![("name", text("release-bot")), ("type", kind)])));
    }
    // A null type is none.
    assert!(author_is_bot(&object(vec![("name", text("x_bot")), ("type", Json::Null)])));
    assert!(!author_is_bot(&Json::Null));
}

#[test]
fn a_comment_is_read_from_the_fields_that_are_there() {
    let activities = list(vec![
        object(vec![
            ("action", text("COMMENTED")),
            ("commentAnchor", Json::Null),
            (
                "comment",
                object(vec![("text", text("  spaced \n")), ("threadResolved", truth(true))]),
            ),
        ]),
        object(vec![("action", text("COMMENTED")), ("comment", Json::Null)]),
        object(vec![("action", text("COMMENTED"))]),
        object(vec![
            ("action", text("COMMENTED")),
            ("commentAnchor", object(vec![("line", number(-3))])),
            ("comment", object(vec![])),
        ]),
    ]);
    let cs = map_activities(&activities);
    assert_eq!(cs.len(), 2);
    assert_eq!(cs[0].kind, CommentKind::Comment);
    assert_eq!(cs[0].body, "spaced");
    assert_eq!(cs[0].author, "");
    assert_eq!(cs[0].created_at, "");
    assert!(cs[0].is_resolved);
    assert!(cs[0].snippet.is_none());
    assert_eq!(cs[1].kind, CommentKind::Finding);
    assert_eq!(cs[1].anchor, "");
    assert!(!cs[1].is_resolved);
    assert!(map_activities(&object(vec![])).is_empty());
}

#[test]
fn a_snapshot_carries_what_was_read_beside_the_detail() {
    let page = object(vec![(
        "values",
        list(vec![object(vec![("name", text("build")), ("state", text("FAILED"))])]),
    )]);
    let activities = list(vec![remark(vec![("name", text("persijano"))])]);
    let s = build_snapshot(
        &detail_from("TEAM"),
        Merge::Blocked,
        map_checks(&page),
        map_activities(&activities),
        Sync::Diverged(2, 3),
        true,
    );
    assert_eq!(s.title, "Add feature");
    assert_eq!(s.state, PrState::Open);
    assert_eq!(s.merge, Merge::Blocked);
    assert_eq!(s.sync, Sync::Diverged(2, 3));
    assert_eq!(s.checks.len(), 1);
    assert_eq!(s.checks[0].status, CheckStatus::Failure);
    assert_eq!(s.comments.len(), 1);
    assert!(s.truncated);

    let merged = object(vec![("state", text("MERGED"))]);
    let s = build_snapshot(&merged, Merge::Clean, vec![], vec![], Sync::Unknown, false);
    assert_eq!(s.state, PrState::Merged);
    assert_eq!(s.number, 0);
    assert_eq!(s.url, "");
    assert!(!s.truncated);
}

#[test]
fn a_slug_of_another_case_is_another_repository() {
    let side = |slug: &str| {
        object(vec![(
            "repository",
            object(vec![
                ("slug", text(slug)),
                ("project", object(vec![("key", text("K\u{e9}Y"))])),
            ]),
        )])
    };
    let same = object(vec![("fromRef", side("svc")), ("toRef", side("svc"))]);
    let other = object(vec![("fromRef", side("svc")), ("toRef", side("Svc"))]);
    assert!(!build_snapshot(&same, Merge::Clean, vec![], vec![], Sync::InSync, false).head_is_fork);
    assert!(build_snapshot(&other, Merge::Clean, vec![], vec![], Sync::InSync, false).head_is_fork);
}

#[test]
fn the_password_is_what_follows_its_key_on_its_line() {
    let found = |output: &str| stored_password(Ok(output.to_string()));
    assert_eq!(
        found("protocol=https\nhost=h\nusername=u\npassword=p=w \n"),
        Some("p=w ".to_string())
    );
    assert_eq!(found("password=first\npassword=second\n"), Some("first".to_string()));
    assert_eq!(found("password=crlf\r\nquit=1\r\n"), Some("crlf".to_string()));
    // Without a line feed the carriage return belongs to the line.
    assert_eq!(found("password=open\r"), Some("open\r".to_string()));
    assert_eq!(found("password="), Some(String::new()));
    assert_eq!(found("\n\r\npassword=\u{e9}\u{4e16}"), Some("\u{e9}\u{4e16}".to_string()));
    assert_eq!(found("xpassword=no\nPassword=no\npassword\n"), None);
    assert_eq!(found(""), None);
    assert_eq!(stored_password(Err(SpawnFail::NotFound)), None);
    assert_eq!(stored_password(Err(SpawnFail::Failed { stderr: "password=x".to_string() })), None);
}

#[test]
fn the_password_is_found_as_by_the_lines_of_the_text() {
    let pieces = ["password=", "pass", "\n", "\r", "\r\n", "x", "=", "\u{e9}"];
    for a in pieces {
        for b in pieces {
            for c in pieces {
                for d in pieces {
                    let output = format!("{a}{b}{c}{d}");
                    let expected = output
                        .lines()
                        .find_map(|line| line.strip_prefix("password=").map(str::to_string));
                    assert_eq!(stored_password(Ok(output.clone())), expected, "{output:?}");
                }
            }
        }
    }
}
