//! Whole fetches against an outside that answers from a table.

use herdr_reviewr::bitbucket::association::{associate_by_branch, Reply};
use herdr_reviewr::bitbucket::errors::{BitbucketError, SpawnFail};
use herdr_reviewr::bitbucket::fetch::{
    fetch_checks, fetch_comments, fetch_merge, Action, Event, Fetch, Survey,
};
use herdr_reviewr::forge::{Association, CheckStatus, Forge, Merge, PrState, PrView, RepoTarget, Sync};
use herdr_reviewr::json::{parse, Json};

fn repo(owner: &str) -> RepoTarget {
    RepoTarget {
        host: "bb.example.com".to_string(),
        owner: owner.to_string(),
        name: "svc".to_string(),
    }
}

fn base(owner: &str) -> String {
    format!("https://bb.example.com/rest/api/latest/projects/{owner}/repos/svc")
}

/// What the host answers, by the end of the URL; anything else is an empty page.
struct Outside {
    token: bool,
    answers: Vec<(String, Result<String, String>)>,
    panics: Vec<String>,
    sync: Result<Sync, String>,
    asked: Vec<String>,
    heads: Vec<Option<String>>,
}

impl Outside {
    fn new(answers: Vec<(String, &str)>) -> Outside {
        Outside {
            token: true,
            answers: answers.into_iter().map(|(url, text)| (url, Ok(text.to_string()))).collect(),
            panics: vec![],
            sync: Ok(Sync::InSync),
            asked: vec![],
            heads: vec![],
        }
    }

    fn read(&mut self, url: &str) -> Result<String, SpawnFail> {
        self.asked.push(url.to_string());
        for (known, answer) in &self.answers {
            if known == url {
                return match answer {
                    Ok(text) => Ok(text.clone()),
                    Err(stderr) => Err(SpawnFail::Failed { stderr: stderr.clone() }),
                };
            }
        }
        Ok("{\"values\": [], \"isLastPage\": true}".to_string())
    }

    fn reply(&mut self, url: &str) -> Reply {
        let output = self.read(url);
        if self.panics.iter().any(|known| known == url) {
            Reply::Panicked
        } else {
            Reply::Output(output)
        }
    }

    fn pick(association: &Association) -> Option<u64> {
        association.open.first().or(association.history.first()).map(|pr| pr.number)
    }

    fn answer(&mut self, action: Action) -> Result<Event, PrView> {
        Ok(match action {
            Action::FindToken => Event::Token(self.token),
            Action::List(urls) => {
                Event::Listed(urls.iter().map(|url| self.reply(url)).collect())
            }
            Action::Pick { association, head } => {
                self.heads.push(head);
                Event::Picked(Ok(Outside::pick(&association)))
            }
            Action::Read(url) => Event::Read(self.read(&url)),
            Action::Compare { head, commit } => {
                self.heads.push(head);
                self.asked.push(commit);
                Event::Compared(self.sync.clone())
            }
            Action::Survey(urls) => Event::Surveyed(Survey {
                merge: urls.merge.map(|url| self.reply(&url)),
                checks: urls.checks.map(|url| self.reply(&url)),
                comments: self.reply(&urls.comments),
            }),
            Action::Show(view) => return Err(view),
        })
    }

    fn run(&mut self, origin: Option<RepoTarget>) -> PrView {
        let names = vec!["feat/x".to_string()];
        let (mut fetch, mut action) =
            Fetch::start(names, Some("abc123".to_string()), repo("TEAM"), origin);
        let mut answers: u32 = 0;
        loop {
            let event = match self.answer(action) {
                Ok(event) => event,
                Err(view) => return view,
            };
            answers += 1;
            assert!(answers <= 8, "a fetch ends after eight answers");
            assert!(fetch.accepts(&event));
            (fetch, action) = fetch.step(event);
        }
    }
}

fn open_listing(owner: &str) -> String {
    format!("{}/pull-requests?state=OPEN&direction=OUTGOING&at=refs/heads/feat%2Fx&limit=100", base(owner))
}

fn history_listing(owner: &str) -> String {
    format!("{}/pull-requests?state=ALL&direction=OUTGOING&at=refs/heads/feat%2Fx&limit=20", base(owner))
}

const CHECKS: &str = "https://bb.example.com/rest/build-status/latest/commits/abc123?limit=100";

const DETAIL: &str = r#"{"id": 42, "title": "Add feature", "state": "OPEN",
    "fromRef": {"displayId": "feat/x", "latestCommit": "abc123"}}"#;

fn complete() -> Outside {
    Outside::new(vec![
        (open_listing("TEAM"), r#"{"values": [{"id": 42}], "isLastPage": true}"#),
        (format!("{}/pull-requests/42", base("TEAM")), DETAIL),
        (format!("{}/pull-requests/42/merge", base("TEAM")), r#"{"conflicted": true}"#),
        (CHECKS.to_string(), r#"{"values": [{"name": "build", "state": "FAILED"}]}"#),
        (
            format!("{}/pull-requests/42/activities?limit=100", base("TEAM")),
            r#"{"values": [{"action": "COMMENTED", "comment": {"text": "hi", "createdDate": 0}}]}"#,
        ),
    ])
}

#[test]
fn a_fetch_shows_the_pull_request_of_the_branch() {
    let mut outside = complete();
    outside.sync = Ok(Sync::Ahead(2));
    match outside.run(None) {
        PrView::Pr(s) => {
            assert_eq!(s.number, 42);
            assert_eq!(s.title, "Add feature");
            assert_eq!(s.state, PrState::Open);
            assert_eq!(s.merge, Merge::Conflicting);
            assert_eq!(s.sync, Sync::Ahead(2));
            assert_eq!(s.checks.len(), 1);
            assert_eq!(s.checks[0].status, CheckStatus::Failure);
            assert_eq!(s.comments.len(), 1);
            assert_eq!(s.comments[0].body, "hi");
            assert!(!s.truncated);
        }
        other => panic!("{other:?}"),
    }
    assert_eq!(
        outside.asked,
        vec![
            open_listing("TEAM"),
            history_listing("TEAM"),
            format!("{}/pull-requests/42", base("TEAM")),
            "abc123".to_string(),
            format!("{}/pull-requests/42/merge", base("TEAM")),
            CHECKS.to_string(),
            format!("{}/pull-requests/42/activities?limit=100", base("TEAM")),
        ]
    );
    assert_eq!(outside.heads, vec![Some("abc123".to_string()), Some("abc123".to_string())]);
}

#[test]
fn a_page_that_is_not_the_last_truncates_the_view() {
    let pages = [
        (open_listing("TEAM"), r#"{"values": [{"id": 42}], "isLastPage": false}"#),
        (history_listing("TEAM"), r#"{"values": [], "isLastPage": false}"#),
        (CHECKS.to_string(), r#"{"values": [], "isLastPage": false}"#),
        (
            format!("{}/pull-requests/42/activities?limit=100", base("TEAM")),
            r#"{"values": [], "isLastPage": false}"#,
        ),
    ];
    for (url, text) in pages {
        let mut outside = complete();
        outside.answers.insert(0, (url.clone(), Ok(text.to_string())));
        match outside.run(None) {
            PrView::Pr(s) => assert!(s.truncated, "{url}"),
            other => panic!("{other:?}"),
        }
    }
}

#[test]
fn without_a_token_nothing_is_asked() {
    let mut outside = complete();
    outside.token = false;
    assert!(matches!(
        outside.run(None),
        PrView::NotAuthed(Forge::Bitbucket, host) if host == "bb.example.com"
    ));
    assert!(outside.asked.is_empty());
}

#[test]
fn a_branch_without_a_pull_request_shows_none() {
    let mut outside = Outside::new(vec![]);
    assert!(matches!(outside.run(None), PrView::NoPr));
    assert_eq!(outside.asked.len(), 2);
    // The same repository is no fork of itself.
    let mut outside = Outside::new(vec![]);
    assert!(matches!(outside.run(Some(repo("TEAM"))), PrView::NoPr));
    assert_eq!(outside.asked.len(), 2);
}

#[test]
fn the_fork_is_asked_where_the_target_has_none() {
    let mut outside = Outside::new(vec![
        (open_listing("TEAM"), r#"{"values": [], "isLastPage": false}"#),
        (open_listing("~me"), r#"{"values": [{"id": 5}]}"#),
        (format!("{}/pull-requests/5", base("~me")), r#"{"id": 5, "state": "DECLINED"}"#),
    ]);
    match outside.run(Some(repo("~me"))) {
        PrView::Pr(s) => {
            assert_eq!(s.number, 5);
            assert_eq!(s.state, PrState::Closed);
            // The target's listing had more.
            assert!(s.truncated);
            assert_eq!(s.merge, Merge::Clean);
            assert!(s.checks.is_empty());
        }
        other => panic!("{other:?}"),
    }
    // Mergeability is not asked of a closed one, nor checks without a head.
    assert_eq!(
        outside.asked,
        vec![
            open_listing("TEAM"),
            history_listing("TEAM"),
            open_listing("~me"),
            history_listing("~me"),
            format!("{}/pull-requests/5", base("~me")),
            String::new(),
            format!("{}/pull-requests/5/activities?limit=100", base("~me")),
        ]
    );
}

#[test]
fn the_target_outranks_the_fork() {
    let mut outside = complete();
    outside.answers.push((open_listing("~me"), Ok(r#"{"values": [{"id": 5}]}"#.to_string())));
    match outside.run(Some(repo("~me"))) {
        PrView::Pr(s) => assert_eq!(s.number, 42),
        other => panic!("{other:?}"),
    }
    assert!(!outside.asked.contains(&open_listing("~me")));
    let mut none = Outside::new(vec![]);
    assert!(matches!(none.run(Some(repo("~me"))), PrView::NoPr));
    assert_eq!(none.asked.len(), 4);
}

#[test]
fn equal_requests_may_get_different_answers() {
    let page = |text: &str| Reply::Output(Ok(text.to_string()));
    let names = vec!["main".to_string(), "main".to_string()];
    let (fetch, _) = Fetch::start(names, None, repo("TEAM"), Some(repo("~me")));
    let (fetch, action) = fetch.step(Event::Token(true));
    assert!(matches!(action, Action::List(urls) if urls.len() == 4 && urls[0] == urls[1]));
    let told = vec![
        page(r#"{"values": [{"id": 1}]}"#),
        page(r#"{"values": [{"id": 2}], "isLastPage": false}"#),
        page("{}"),
        page("{}"),
    ];
    let (fetch, action) = fetch.step(Event::Listed(told));
    assert!(matches!(action, Action::Pick { association, .. } if association.open.len() == 2));
    // The target's pick stands: what follows is read of this pull request alone.
    let (fetch, action) = fetch.step(Event::Picked(Ok(Some(2))));
    assert!(matches!(
        action,
        Action::Read(url) if url == format!("{}/pull-requests/2", base("TEAM"))
    ));
    let (fetch, _) = fetch.step(Event::Read(Ok(r#"{"id": 2, "state": "OPEN"}"#.to_string())));
    let (fetch, action) = fetch.step(Event::Compared(Ok(Sync::Unknown)));
    match action {
        Action::Survey(urls) => {
            assert_eq!(urls.merge, Some(format!("{}/pull-requests/2/merge", base("TEAM"))));
            assert_eq!(urls.checks, None);
            assert_eq!(
                urls.comments,
                format!("{}/pull-requests/2/activities?limit=100", base("TEAM"))
            );
        }
        other => panic!("{other:?}"),
    }
    let replies = Survey { merge: Some(page("{}")), checks: None, comments: page("{}") };
    let (_, action) = fetch.step(Event::Surveyed(replies));
    assert!(matches!(action, Action::Show(PrView::Pr(s)) if s.truncated && s.number == 2));
}

#[test]
fn a_detail_without_a_number_is_no_pull_request() {
    let mut outside = complete();
    outside.answers.insert(
        0,
        (format!("{}/pull-requests/42", base("TEAM")), Ok("{\"errors\": []}".to_string())),
    );
    assert!(matches!(outside.run(None), PrView::NoPr));
}

#[test]
fn a_failure_on_the_way_is_shown() {
    for url in [
        history_listing("TEAM"),
        format!("{}/pull-requests/42", base("TEAM")),
        format!("{}/pull-requests/42/merge", base("TEAM")),
        CHECKS.to_string(),
        format!("{}/pull-requests/42/activities?limit=100", base("TEAM")),
    ] {
        let mut outside = complete();
        outside.answers.insert(0, (url.clone(), Err("curl: (22) error: 500\n".to_string())));
        assert!(
            matches!(
                outside.run(None),
                PrView::Error(Forge::Bitbucket, message) if message == "curl: (22) error: 500"
            ),
            "{url}"
        );
        let mut outside = complete();
        outside.answers.insert(0, (url.clone(), Err("error: 403".to_string())));
        assert!(matches!(outside.run(None), PrView::NotAuthed(Forge::Bitbucket, _)), "{url}");
    }
    let mut outside = complete();
    outside.sync = Err("bad object".to_string());
    assert!(matches!(outside.run(None), PrView::GitError(message) if message == "bad object"));
}

#[test]
fn a_reader_that_panics_is_shown_by_its_surface() {
    for (url, surface) in [
        (open_listing("TEAM"), "listing"),
        (format!("{}/pull-requests/42/merge", base("TEAM")), "merge"),
        (CHECKS.to_string(), "checks"),
        (format!("{}/pull-requests/42/activities?limit=100", base("TEAM")), "comments"),
    ] {
        let mut outside = complete();
        outside.panics.push(url);
        let expected = format!("{surface} read panicked");
        assert!(matches!(
            outside.run(None),
            PrView::Error(Forge::Bitbucket, message) if message == expected
        ));
    }
}

#[test]
fn a_pick_that_fails_is_the_local_repositorys_failure() {
    let (fetch, _) = Fetch::start(vec![], None, repo("TEAM"), None);
    let (fetch, action) = fetch.step(Event::Token(true));
    assert!(matches!(action, Action::List(urls) if urls.is_empty()));
    let (fetch, action) = fetch.step(Event::Listed(vec![]));
    assert!(matches!(action, Action::Pick { head: None, .. }));
    let (_, action) = fetch.step(Event::Picked(Err("not a repository".to_string())));
    assert!(matches!(
        action,
        Action::Show(PrView::GitError(message)) if message == "not a repository"
    ));
}

#[test]
fn a_fetch_accepts_the_answer_to_its_question_alone() {
    let (fetch, _) = Fetch::start(vec!["main".to_string()], None, repo("TEAM"), None);
    assert!(fetch.accepts(&Event::Token(false)));
    assert!(!fetch.accepts(&Event::Listed(vec![])));
    assert!(!fetch.accepts(&Event::Read(Err(SpawnFail::Cancelled))));
    let (fetch, _) = fetch.step(Event::Token(true));
    assert!(!fetch.accepts(&Event::Listed(vec![])));
    assert!(!fetch.accepts(&Event::Listed(vec![Reply::Panicked])));
    assert!(fetch.accepts(&Event::Listed(vec![Reply::Panicked, Reply::Panicked])));
    assert!(!fetch.accepts(&Event::Token(true)));
    assert!(!fetch.accepts(&Event::Picked(Ok(None))));
}

fn page(text: &str) -> Result<Json, BitbucketError> {
    Ok(parse(text).unwrap())
}

#[test]
fn the_listings_of_all_names_are_folded_each_number_once() {
    let (association, truncated) = associate_by_branch(
        vec![
            page(r#"{"values": [{"id": 1}, {"id": 2, "createdDate": 0}, {"title": "no id"}]}"#),
            page(r#"{"values": [{"id": 2}, {"id": 3}], "isLastPage": true}"#),
            page(r#"{"values": [{"id": 1, "state": "OPEN"}, {"id": 4, "state": "MERGED", "closedDate": 0}]}"#),
            page(r#"{"values": [{"id": 4, "state": "DECLINED"}, {"id": 1, "state": "DECLINED"}]}"#),
        ],
        2,
    )
    .unwrap();
    let open: Vec<u64> = association.open.iter().map(|pr| pr.number).collect();
    let history: Vec<u64> = association.history.iter().map(|pr| pr.number).collect();
    assert_eq!(open, vec![1, 2, 3]);
    assert_eq!(association.open[1].created_at, "1970-01-01T00:00:00Z");
    assert_eq!(history, vec![4, 1]);
    assert_eq!(association.history[0].closed_at, "1970-01-01T00:00:00Z");
    assert!(!truncated);
}

#[test]
fn the_first_failure_among_the_listings_counts() {
    let failed = associate_by_branch(
        vec![
            page("{}"),
            Err(BitbucketError::NotAuthed),
            Err(BitbucketError::NoCurl),
            page("{}"),
        ],
        2,
    );
    assert!(matches!(failed, Err(BitbucketError::NotAuthed)));
    let (association, truncated) =
        associate_by_branch(vec![page("{}"), page(r#"{"isLastPage": false}"#)], 1).unwrap();
    assert!(association.open.is_empty());
    assert!(association.history.is_empty());
    assert!(truncated);
}

#[test]
fn a_surface_that_was_not_asked_is_empty() {
    assert!(matches!(fetch_merge(None), Ok(Merge::Clean)));
    assert!(matches!(fetch_checks(None), Ok((checks, false)) if checks.is_empty()));
    let blocked = Reply::Output(Ok(r#"{"canMerge": false, "vetoes": [1]}"#.to_string()));
    assert!(matches!(fetch_merge(Some(blocked)), Ok(Merge::Blocked)));
    let more = Reply::Output(Ok(r#"{"values": [], "isLastPage": false}"#.to_string()));
    assert!(matches!(fetch_comments(more), Ok((comments, true)) if comments.is_empty()));
}
