//! How comments are ordered and collapsed.

use herdr_reviewr::comments::{finish_comments, is_named_bot, Comment, CommentKind};

fn comment(kind: CommentKind, author: &str, bot: bool, created_at: &str, body: &str) -> Comment {
    Comment {
        kind,
        author: author.to_string(),
        author_is_bot: bot,
        anchor: "comment".to_string(),
        body: body.to_string(),
        snippet: None,
        created_at: created_at.to_string(),
        is_resolved: false,
        is_outdated: false,
        reply_count: 0,
    }
}

fn bodies(comments: &[Comment]) -> Vec<&str> {
    comments.iter().map(|c| c.body.as_str()).collect()
}

#[test]
fn the_newest_comment_comes_first_and_equal_times_keep_their_order() {
    let mut comments = vec![
        comment(CommentKind::Comment, "a", false, "2025-01-01T00:00:00Z", "first"),
        comment(CommentKind::Finding, "b", false, "2025-01-03T00:00:00Z", "second"),
        comment(CommentKind::Comment, "c", false, "2025-01-01T00:00:00Z", "third"),
        comment(CommentKind::Review, "d", false, "", "fourth"),
        comment(CommentKind::Comment, "e", false, "2025-01-03T00:00:00Z", "fifth"),
    ];
    finish_comments(&mut comments);
    assert_eq!(bodies(&comments), vec!["second", "fifth", "first", "third", "fourth"]);
}

#[test]
fn of_a_bots_plain_comments_the_latest_stays() {
    let mut comments = vec![
        comment(CommentKind::Comment, "ci", true, "2025-01-02T00:00:00Z", "old"),
        comment(CommentKind::Comment, "ci", true, "2025-01-04T00:00:00Z", "latest"),
        comment(CommentKind::Comment, "ci", true, "2025-01-03T00:00:00Z", "middle"),
        comment(CommentKind::Finding, "ci", true, "2025-01-01T00:00:00Z", "finding"),
        comment(CommentKind::Finding, "ci", true, "2025-01-01T00:00:00Z", "other finding"),
        comment(CommentKind::Comment, "lint", true, "2025-01-01T12:00:00Z", "other bot"),
        comment(CommentKind::Comment, "ci", false, "2025-01-02T12:00:00Z", "a person"),
        comment(CommentKind::Comment, "ci", false, "2025-01-02T12:00:00Z", "again"),
    ];
    finish_comments(&mut comments);
    assert_eq!(
        bodies(&comments),
        vec!["latest", "a person", "again", "other bot", "finding", "other finding"]
    );
}

#[test]
fn finishing_twice_changes_nothing_more() {
    let mut comments = vec![
        comment(CommentKind::Comment, "ci", true, "2025-01-02T00:00:00Z", "old"),
        comment(CommentKind::Comment, "ci", true, "2025-01-02T00:00:00Z", "same time"),
        comment(CommentKind::Comment, "a", false, "2025-01-05T00:00:00Z", "new"),
    ];
    finish_comments(&mut comments);
    assert_eq!(bodies(&comments), vec!["new", "old"]);
    finish_comments(&mut comments);
    assert_eq!(bodies(&comments), vec!["new", "old"]);
    let mut none: Vec<Comment> = vec![];
    finish_comments(&mut none);
    assert!(none.is_empty());
}

#[test]
fn a_bot_is_named_by_its_suffix() {
    assert!(is_named_bot("dependabot[bot]"));
    assert!(is_named_bot("release-bot"));
    assert!(is_named_bot("-bot"));
    assert!(!is_named_bot("deploy_bot"));
    assert!(!is_named_bot("bot"));
    assert!(!is_named_bot("a-bot "));
    assert!(!is_named_bot(""));
}
