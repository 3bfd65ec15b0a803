//! What all forges have in common.

use herdr_reviewr::bitbucket::urls::Ctx;
use herdr_reviewr::forge::{
    fork_repository, push_unique, upsert_latest, urlencode, AssocPr, Check, CheckStatus,
    RepoTarget,
};

fn repo(host: &str, owner: &str, name: &str) -> RepoTarget {
    RepoTarget { host: host.to_string(), owner: owner.to_string(), name: name.to_string() }
}

#[test]
fn the_fork_is_another_repository_on_the_same_host() {
    let target = repo("bb", "TEAM", "svc");
    let fork = fork_repository(&Some(repo("bb", "~me", "svc")), &target).unwrap();
    assert_eq!(fork.host, "bb");
    assert_eq!(fork.owner, "~me");
    assert_eq!(fork.name, "svc");
    let renamed = fork_repository(&Some(repo("bb", "TEAM", "svc2")), &target).unwrap();
    assert_eq!(renamed.name, "svc2");
    assert!(fork_repository(&Some(repo("bb", "TEAM", "svc")), &target).is_none());
    assert!(fork_repository(&Some(repo("other", "~me", "svc")), &target).is_none());
    assert!(fork_repository(&None, &target).is_none());
}

#[test]
fn a_check_takes_the_place_of_its_name() {
    let check =
        |name: &str, status: CheckStatus| Check { name: name.to_string(), status };
    let mut checks = vec![];
    upsert_latest(&mut checks, check("a", CheckStatus::Pending));
    upsert_latest(&mut checks, check("b", CheckStatus::Running));
    upsert_latest(&mut checks, check("a", CheckStatus::Success));
    let shown: Vec<(&str, CheckStatus)> =
        checks.iter().map(|check| (check.name.as_str(), check.status)).collect();
    assert_eq!(shown, vec![("a", CheckStatus::Success), ("b", CheckStatus::Running)]);
}

#[test]
fn the_first_pull_request_of_a_number_stays() {
    let pr = |number: u64, head: &str| AssocPr {
        number,
        head_oid: head.to_string(),
        head_ref: String::new(),
        created_at: String::new(),
        closed_at: String::new(),
        raw: None,
    };
    let mut prs = vec![];
    push_unique(&mut prs, pr(3, "first"));
    push_unique(&mut prs, pr(1, "one"));
    push_unique(&mut prs, pr(3, "second"));
    let shown: Vec<(u64, &str)> = prs.iter().map(|pr| (pr.number, pr.head_oid.as_str())).collect();
    assert_eq!(shown, vec![(3, "first"), (1, "one")]);
}

#[test]
fn all_but_unreserved_characters_are_escaped() {
    assert_eq!(urlencode("feat/x"), "feat%2Fx");
    assert_eq!(urlencode("AZaz09-._~"), "AZaz09-._~");
    assert_eq!(urlencode("a b&c=d?e#f%"), "a%20b%26c%3Dd%3Fe%23f%25");
    assert_eq!(urlencode("\u{e9}\u{4e16}\u{1f600}"), "%C3%A9%E4%B8%96%F0%9F%98%80");
    assert_eq!(urlencode("\n\u{7f}"), "%0A%7F");
    assert_eq!(urlencode(""), "");
}

/// The text that the URL part stands for.
fn decoded(part: &str) -> String {
    let chars: Vec<char> = part.chars().collect();
    let mut bytes: Vec<u8> = vec![];
    let mut i: usize = 0;
    while i < chars.len() {
        if chars[i] == '%' {
            let digits: String = chars[i + 1..i + 3].iter().collect();
            bytes.push(u8::from_str_radix(&digits, 16).unwrap());
            i += 3;
        } else {
            bytes.push(chars[i] as u8);
            i += 1;
        }
    }
    String::from_utf8(bytes).unwrap()
}

#[test]
fn an_escaped_text_reads_back_and_cannot_end_its_part() {
    let mut text = String::new();
    for code in (0u32..0x11_0000).step_by(37) {
        text.extend(char::from_u32(code));
    }
    text.extend((0u8..128).map(char::from));
    let encoded = urlencode(&text);
    assert_eq!(decoded(&encoded), text);
    assert!(encoded.chars().all(|c| c.is_ascii_alphanumeric() || "-._~%".contains(c)));
}

#[test]
fn every_surface_has_its_url() {
    let ctx = Ctx { host: "bb.example.com", owner: "~me", name: "my svc" };
    assert_eq!(ctx.base(), "https://bb.example.com/rest/api/latest/projects/~me/repos/my%20svc");
    let base = ctx.base();
    assert_eq!(ctx.detail_url(u64::MAX), format!("{base}/pull-requests/18446744073709551615"));
    assert_eq!(ctx.detail_url(0), format!("{base}/pull-requests/0"));
    assert_eq!(ctx.merge_url(42), format!("{base}/pull-requests/42/merge"));
    assert_eq!(ctx.activities_url(42), format!("{base}/pull-requests/42/activities?limit=100"));
    assert_eq!(
        ctx.checks_url("abc123"),
        "https://bb.example.com/rest/build-status/latest/commits/abc123?limit=100"
    );
    assert_eq!(
        ctx.listing_urls(&vec!["feat/x".to_string(), "main".to_string()]),
        vec![
            format!("{base}/pull-requests?state=OPEN&direction=OUTGOING&at=refs/heads/feat%2Fx&limit=100"),
            format!("{base}/pull-requests?state=OPEN&direction=OUTGOING&at=refs/heads/main&limit=100"),
            format!("{base}/pull-requests?state=ALL&direction=OUTGOING&at=refs/heads/feat%2Fx&limit=20"),
            format!("{base}/pull-requests?state=ALL&direction=OUTGOING&at=refs/heads/main&limit=20"),
        ]
    );
    assert!(ctx.listing_urls(&vec![]).is_empty());
}
