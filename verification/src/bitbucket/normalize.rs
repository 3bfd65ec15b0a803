//! What the responses of the REST interface mean.

use vstd::prelude::*;

use crate::calendar::{epoch_ms_to_iso, iso_of_ms};
use crate::comments::{
    comment_models, finish_comments, finished, is_bot_name, is_named_bot, Comment, CommentKind,
    CommentModel,
};
use crate::forge::{
    check_models, has_check, lemma_upserted, names_differ, upsert_latest, upserted, AssocPr,
    AssocPrModel, Check, CheckModel, CheckStatus, Merge, PrSnapshot, PrState, SnapshotModel, Sync,
};
use crate::json::{Json, JsonTree};
use crate::text::{
    chars_of, decimal, ends_with, ends_with_text, equal_ignoring_case, push_decimal,
    same_ignoring_case, same_text, trim, trimmed,
};

verus! {

/// The lifecycle that the forge's word means; a word it does not know means a live one.
pub open spec fn state_of(word: Seq<char>) -> PrState {
    if word == "MERGED"@ {
        PrState::Merged
    } else if word == "DECLINED"@ {
        PrState::Closed
    } else {
        PrState::Open
    }
}

/// Reads the lifecycle of a pull request.
pub fn parse_state(word: &str) -> (state: PrState)
    ensures
        state == state_of(word@),
{
    if same_text(word, "MERGED") {
        PrState::Merged
    } else if same_text(word, "DECLINED") {
        PrState::Closed
    } else {
        PrState::Open
    }
}

/// Whether the pull request can be merged, by the answer of the forge: a conflict wins, a veto
/// that keeps from merging blocks, and all else, an answer still in the making too, is clean.
pub open spec fn merge_of(answer: JsonTree) -> Merge {
    if answer.field("conflicted"@).truth() == Some(true) {
        Merge::Conflicting
    } else if answer.field("canMerge"@).truth() == Some(false) && answer.field(
        "vetoes"@,
    ).elements().len() > 0 {
        Merge::Blocked
    } else {
        Merge::Clean
    }
}

/// Reads whether the pull request can be merged.
pub fn derive_merge(answer: &Json) -> (merge: Merge)
    ensures
        merge == merge_of(answer@),
{
    let conflicted = answer.field("conflicted").as_bool().unwrap_or(false);
    let can_merge = answer.field("canMerge").as_bool().unwrap_or(true);
    let vetoed = answer.field("vetoes").count() > 0;
    if conflicted {
        Merge::Conflicting
    } else if !can_merge && vetoed {
        Merge::Blocked
    } else {
        Merge::Clean
    }
}

/// The outcome that the word of a build status means; a word it does not know means a pending
/// one.
pub open spec fn status_of(word: Seq<char>) -> CheckStatus {
    if word == "SUCCESSFUL"@ {
        CheckStatus::Success
    } else if word == "FAILED"@ {
        CheckStatus::Failure
    } else if word == "INPROGRESS"@ {
        CheckStatus::Running
    } else if word == "CANCELLED"@ {
        CheckStatus::Skipped
    } else {
        CheckStatus::Pending
    }
}

/// Reads the outcome of a check.
pub fn check_status(word: &str) -> (status: CheckStatus)
    ensures
        status == status_of(word@),
{
    if same_text(word, "SUCCESSFUL") {
        CheckStatus::Success
    } else if same_text(word, "FAILED") {
        CheckStatus::Failure
    } else if same_text(word, "INPROGRESS") {
        CheckStatus::Running
    } else if same_text(word, "CANCELLED") {
        CheckStatus::Skipped
    } else {
        CheckStatus::Pending
    }
}

/// Whether the listing holds more than this page.
pub open spec fn has_more(page: JsonTree) -> bool {
    page.field("isLastPage"@).truth() == Some(false)
}

/// Tells whether the listing holds more than this page.
pub fn is_truncated(page: &Json) -> (truncated: bool)
    ensures
        truncated == has_more(page@),
{
    match page.field("isLastPage").as_bool() {
        Some(last) => !last,
        None => false,
    }
}

/// The check that a build status tells of, by its name or else its key.
pub open spec fn check_of(status: JsonTree) -> Option<CheckModel> {
    let name = match status.field("name"@).text() {
        Some(name) => Some(name),
        None => status.field("key"@).text(),
    };
    match name {
        Some(name) => Some(
            CheckModel { name, status: status_of(status.field("state"@).text_or_empty()) },
        ),
        None => None,
    }
}

/// The checks that the build statuses tell of; a later one replaces an earlier one of its name.
pub open spec fn checks_of(statuses: Seq<JsonTree>) -> Seq<CheckModel>
    decreases statuses.len(),
{
    if statuses.len() == 0 {
        Seq::empty()
    } else {
        let before = checks_of(statuses.drop_last());
        match check_of(statuses.last()) {
            Some(check) => upserted(before, check),
            None => before,
        }
    }
}

/// Whether the build status tells of a check with the name.
pub open spec fn has_name(status: JsonTree, name: Seq<char>) -> bool {
    check_of(status) matches Some(check) && check.name == name
}

/// Whether one of the build statuses tells of a check with the name.
pub open spec fn tells_of(statuses: Seq<JsonTree>, name: Seq<char>) -> bool {
    exists|i: int| 0 <= i < statuses.len() && has_name(#[trigger] statuses[i], name)
}

/// Whether the check is what the last build status of its name tells.
pub open spec fn is_last_of_name(statuses: Seq<JsonTree>, check: CheckModel) -> bool {
    exists|i: int|
        0 <= i < statuses.len() && check_of(#[trigger] statuses[i]) == Some(check) && !tells_of(
            statuses.skip(i + 1),
            check.name,
        )
}

/// Every name that the build statuses tell of has one check, the one that its last build status
/// tells.
pub proof fn lemma_last_status_counts(statuses: Seq<JsonTree>)
    ensures
        names_differ(checks_of(statuses)),
        forall|name: Seq<char>|
            #[trigger] has_check(checks_of(statuses), name) == tells_of(statuses, name),
        forall|i: int|
            0 <= i < checks_of(statuses).len() ==> is_last_of_name(
                statuses,
                #[trigger] checks_of(statuses)[i],
            ),
    decreases statuses.len(),
{
    if statuses.len() > 0 {
        let earlier = statuses.drop_last();
        let last = statuses.last();
        let before = checks_of(earlier);
        let result = checks_of(statuses);
        let n = earlier.len() as int;
        lemma_last_status_counts(earlier);
        assert(statuses =~= earlier.push(last));
        if let Some(check) = check_of(last) {
            lemma_upserted(before, check);
        }
        assert forall|name: Seq<char>| #[trigger] has_check(result, name) == tells_of(
            statuses,
            name,
        ) by {
            lemma_tells_of_push(earlier, last, name);
            assert(has_check(before, name) == tells_of(earlier, name));
        }
        assert forall|i: int| 0 <= i < result.len() implies is_last_of_name(
            statuses,
            #[trigger] result[i],
        ) by {
            let one = result[i];
            if check_of(last) == Some(one) {
                assert(statuses.skip(n + 1) =~= Seq::empty());
                assert(statuses[n] == last);
            } else {
                assert(before[i] == one);
                assert(is_last_of_name(earlier, one));
                let k = choose|k: int|
                    0 <= k < earlier.len() && check_of(#[trigger] earlier[k]) == Some(one)
                        && !tells_of(earlier.skip(k + 1), one.name);
                assert(statuses[k] == earlier[k]);
                assert(statuses.skip(k + 1) =~= earlier.skip(k + 1).push(last));
                lemma_tells_of_push(earlier.skip(k + 1), last, one.name);
            }
        }
    }
}

proof fn lemma_tells_of_push(statuses: Seq<JsonTree>, last: JsonTree, name: Seq<char>)
    ensures
        tells_of(statuses.push(last), name) == (tells_of(statuses, name) || has_name(last, name)),
{
    let longer = statuses.push(last);
    if tells_of(statuses, name) {
        let i = choose|i: int| 0 <= i < statuses.len() && has_name(#[trigger] statuses[i], name);
        assert(longer[i] == statuses[i]);
    }
    assert(longer[statuses.len() as int] == last);
    if tells_of(longer, name) {
        let i = choose|i: int| 0 <= i < longer.len() && has_name(#[trigger] longer[i], name);
        if i < statuses.len() {
            assert(statuses[i] == longer[i]);
        }
    }
}

/// Reads the checks from a page of build statuses.
pub fn map_checks(page: &Json) -> (checks: Vec<Check>)
    ensures
        check_models(checks@) == checks_of(page@.field("values"@).elements()),
{
    let values = page.field("values");
    let ghost all = values@.elements();
    let mut checks: Vec<Check> = Vec::new();
    let count: usize = values.count();
    let mut i: usize = 0;
    assert(check_models(checks@) =~= checks_of(all.take(0)));
    while i < count
        invariant
            0 <= i <= count == all.len(),
            all == values@.elements(),
            check_models(checks@) == checks_of(all.take(i as int)),
        decreases count - i,
    {
        let status = values.element(i);
        let ghost upto = all.take(i + 1);
        assert(upto.drop_last() =~= all.take(i as int));
        assert(upto.last() == status@);
        let name = match status.field("name").as_str() {
            Some(name) => Some(name),
            None => status.field("key").as_str(),
        };
        if let Some(name) = name {
            let check = Check {
                name: name.to_owned(),
                status: check_status(status.field("state").str_or_empty()),
            };
            upsert_latest(&mut checks, check);
        }
        i = i + 1;
    }
    assert(all.take(all.len() as int) =~= all);
    checks
}

/// The time that a value in milliseconds means; none where it is no such value.
pub open spec fn time_of(value: JsonTree) -> Seq<char> {
    match value.signed() {
        Some(ms) => iso_of_ms(ms as int),
        None => Seq::empty(),
    }
}

/// Reads a time in milliseconds.
fn read_time(value: &Json) -> (iso: String)
    ensures
        iso@ == time_of(value@),
{
    match value.as_i64() {
        Some(ms) => epoch_ms_to_iso(ms),
        None => String::new(),
    }
}

/// The pull request that a row of a listing tells of. One of the past has the time at which it
/// was closed, or else the time of its last change.
pub open spec fn row_of(row: JsonTree, historical: bool) -> Option<AssocPrModel> {
    match row.field("id"@).unsigned() {
        Some(number) => Some(
            AssocPrModel {
                number,
                head_oid: row.field("fromRef"@).field("latestCommit"@).text_or_empty(),
                head_ref: row.field("fromRef"@).field("displayId"@).text_or_empty(),
                created_at: time_of(row.field("createdDate"@)),
                closed_at: if !historical {
                    Seq::empty()
                } else if row.field("closedDate"@).signed() is Some {
                    time_of(row.field("closedDate"@))
                } else {
                    time_of(row.field("updatedDate"@))
                },
                raw: None,
            },
        ),
        None => None,
    }
}

/// What a pull request that may be missing stands for.
pub open spec fn row_model(row: Option<AssocPr>) -> Option<AssocPrModel> {
    match row {
        Some(pr) => Some(pr@),
        None => None,
    }
}

/// Reads a row of a listing.
pub fn assoc_pr(row: &Json, historical: bool) -> (pr: Option<AssocPr>)
    ensures
        row_model(pr) == row_of(row@, historical),
{
    let number: u64 = match row.field("id").as_u64() {
        Some(number) => number,
        None => {
            return None;
        },
    };
    let closed_at = if !historical {
        String::new()
    } else {
        match row.field("closedDate").as_i64() {
            Some(ms) => epoch_ms_to_iso(ms),
            None => read_time(row.field("updatedDate")),
        }
    };
    Some(
        AssocPr {
            number,
            head_oid: row.field("fromRef").field("latestCommit").str_or_empty().to_owned(),
            head_ref: row.field("fromRef").field("displayId").str_or_empty().to_owned(),
            created_at: read_time(row.field("createdDate")),
            closed_at,
            raw: None,
        },
    )
}

/// Whether the author is a service account: by the type where there is one, whatever it is, and
/// else by the name.
pub open spec fn is_service(author: JsonTree) -> bool {
    if author.field("type"@) is Null {
        let name = author.field("name"@).text_or_empty();
        is_bot_name(name) || ends_with_text(name, "_bot"@)
    } else {
        author.field("type"@) == JsonTree::Text("SERVICE"@)
    }
}

/// Tells whether the author is a service account. A type is authoritative: a user of another
/// type is none, whatever the name.
pub fn author_is_bot(author: &Json) -> (bot: bool)
    ensures
        bot == is_service(author@),
{
    let kind = author.field("type");
    if kind.is_null() {
        let name = author.field("name").str_or_empty();
        is_named_bot(name) || ends_with(name, "_bot")
    } else {
        kind.is_text("SERVICE")
    }
}

/// Where the authors have one type, they are both service accounts or neither is, whatever
/// their names.
pub proof fn lemma_type_is_authoritative(a: JsonTree, b: JsonTree)
    requires
        a.field("type"@) == b.field("type"@),
        !(a.field("type"@) is Null),
    ensures
        is_service(a) == is_service(b),
{
}

/// How many replies stand below the comment, replies to replies included.
pub open spec fn replies(comment: JsonTree) -> nat
    decreases comment,
{
    match comment {
        JsonTree::Object(fields) => if fields.contains_key("comments"@) {
            match fields["comments"@] {
                JsonTree::Array(direct) => direct.len() + replies_in(direct),
                _ => 0,
            }
        } else {
            0
        },
        _ => 0,
    }
}

/// How many replies stand below the comments together.
pub open spec fn replies_in(comments: Seq<JsonTree>) -> nat
    decreases comments,
{
    if comments.len() == 0 {
        0
    } else {
        replies_in(comments.drop_last()) + replies(comments.last())
    }
}

/// The replies below a comment are its direct ones and those below them.
pub proof fn lemma_replies(comment: JsonTree)
    ensures
        replies(comment) == comment.field("comments"@).elements().len() + replies_in(
            comment.field("comments"@).elements(),
        ),
{
}

/// A count as it is shown: at most what 32 bits hold.
pub open spec fn shown_count(count: nat) -> u32 {
    if count <= u32::MAX {
        count as u32
    } else {
        u32::MAX
    }
}

/// Counts the replies below the comment, replies to replies included.
pub fn count_replies(comment: &Json) -> (count: u32)
    ensures
        count == shown_count(replies(comment@)),
    decreases comment@,
{
    let direct = comment.field("comments");
    let ghost all = direct@.elements();
    let len: usize = direct.count();
    let mut count: u32 = if len > u32::MAX as usize {
        u32::MAX
    } else {
        len as u32
    };
    let mut i: usize = 0;
    assert(all.take(0) =~= Seq::empty());
    while i < len
        invariant
            0 <= i <= len == all.len(),
            direct@ == comment@.field("comments"@),
            all == direct@.elements(),
            count == shown_count(len as nat + replies_in(all.take(i as int))),
        decreases len - i,
    {
        let reply = direct.element(i);
        let ghost upto = all.take(i + 1);
        assert(upto.drop_last() =~= all.take(i as int));
        assert(upto.last() == reply@);
        proof {
            let fields = comment@->Object_0;
            assert(comment@ is Object && fields.contains_key("comments"@));
            assert(decreases_to!(comment@ => comment@->Object_0["comments"@]));
            assert(decreases_to!(direct@ => direct@->Array_0));
            assert(decreases_to!(all => all[i as int]));
        }
        count = count.saturating_add(count_replies(reply));
        i = i + 1;
    }
    assert(all.take(all.len() as int) =~= all);
    proof {
        lemma_replies(comment@);
    }
    count
}

/// What a comment is attached to: a line of a file, a file, or the pull request as a whole.
pub open spec fn anchor_of(anchor: JsonTree) -> Seq<char> {
    if anchor is Null {
        "comment"@
    } else {
        let path = anchor.field("path"@).text_or_empty();
        match anchor.field("line"@).unsigned() {
            Some(line) => path + ":"@ + decimal(line as nat),
            None => path,
        }
    }
}

/// The comment that an activity tells of; none where it tells of something else.
pub open spec fn comment_of(activity: JsonTree) -> Option<CommentModel> {
    let comment = activity.field("comment"@);
    let author = comment.field("author"@);
    let anchor = activity.field("commentAnchor"@);
    if activity.field("action"@).text() != Some("COMMENTED"@) || comment is Null {
        None
    } else {
        Some(
            CommentModel {
                kind: if anchor is Null {
                    CommentKind::Comment
                } else {
                    CommentKind::Finding
                },
                author: author.field("name"@).text_or_empty(),
                author_is_bot: is_service(author),
                anchor: anchor_of(anchor),
                body: trimmed(comment.field("text"@).text_or_empty()),
                snippet: None,
                created_at: time_of(comment.field("createdDate"@)),
                is_resolved: comment.field("state"@).text() == Some("RESOLVED"@) || comment.field(
                    "threadResolved"@,
                ).truth() == Some(true),
                is_outdated: anchor.field("orphaned"@).truth() == Some(true),
                reply_count: shown_count(replies(comment)),
            },
        )
    }
}

/// The comments that the activities tell of.
pub open spec fn comments_of(activities: Seq<JsonTree>) -> Seq<CommentModel>
    decreases activities.len(),
{
    if activities.len() == 0 {
        Seq::empty()
    } else {
        let before = comments_of(activities.drop_last());
        match comment_of(activities.last()) {
            Some(comment) => before.push(comment),
            None => before,
        }
    }
}

/// What a comment that may be missing stands for.
pub open spec fn comment_model(comment: Option<Comment>) -> Option<CommentModel> {
    match comment {
        Some(comment) => Some(comment@),
        None => None,
    }
}

/// Reads what a comment is attached to.
fn read_anchor(anchor: &Json) -> (text: String)
    ensures
        text@ == anchor_of(anchor@),
{
    if anchor.is_null() {
        return "comment".to_owned();
    }
    let mut text = anchor.field("path").str_or_empty().to_owned();
    if let Some(line) = anchor.field("line").as_u64() {
        text.append(":");
        push_decimal(&mut text, line);
    }
    text
}

/// Reads the comment that an activity tells of.
pub fn map_activity(activity: &Json) -> (read: Option<Comment>)
    ensures
        comment_model(read) == comment_of(activity@),
{
    if !activity.field("action").is_text("COMMENTED") {
        return None;
    }
    let comment = activity.field("comment");
    if comment.is_null() {
        return None;
    }
    let author = comment.field("author");
    let anchor = activity.field("commentAnchor");
    let kind = if anchor.is_null() {
        CommentKind::Comment
    } else {
        CommentKind::Finding
    };
    let is_resolved = comment.field("state").is_text("RESOLVED") || comment.field(
        "threadResolved",
    ).as_bool().unwrap_or(false);
    Some(
        Comment {
            kind,
            author: author.field("name").str_or_empty().to_owned(),
            author_is_bot: author_is_bot(author),
            anchor: read_anchor(anchor),
            body: trim(comment.field("text").str_or_empty()).to_owned(),
            snippet: None,
            created_at: read_time(comment.field("createdDate")),
            is_resolved,
            is_outdated: anchor.field("orphaned").as_bool().unwrap_or(false),
            reply_count: count_replies(comment),
        },
    )
}

/// Reads the comments from the activities on a pull request, as they are shown: newest first,
/// and of a bot's plain comments the latest alone.
pub fn map_activities(activities: &Json) -> (comments: Vec<Comment>)
    ensures
        comment_models(comments@) == finished(comments_of(activities@.elements())),
{
    let ghost all = activities@.elements();
    let mut comments: Vec<Comment> = Vec::new();
    let count: usize = activities.count();
    let mut i: usize = 0;
    assert(comment_models(comments@) =~= comments_of(all.take(0)));
    while i < count
        invariant
            0 <= i <= count == all.len(),
            all == activities@.elements(),
            comment_models(comments@) == comments_of(all.take(i as int)),
        decreases count - i,
    {
        let activity = activities.element(i);
        let ghost upto = all.take(i + 1);
        assert(upto.drop_last() =~= all.take(i as int));
        assert(upto.last() == activity@);
        let ghost before = comment_models(comments@);
        if let Some(comment) = map_activity(activity) {
            comments.push(comment);
            assert(comment_models(comments@) =~= before.push(comment@));
        }
        i = i + 1;
    }
    assert(all.take(all.len() as int) =~= all);
    finish_comments(&mut comments);
    comments
}

/// Whether the pull request comes from another repository than it goes to: another project,
/// whatever the case of its key, or another slug.
pub open spec fn is_fork(detail: JsonTree) -> bool {
    let from = detail.field("fromRef"@).field("repository"@);
    let to = detail.field("toRef"@).field("repository"@);
    ||| !equal_ignoring_case(
        from.field("project"@).field("key"@).text_or_empty(),
        to.field("project"@).field("key"@).text_or_empty(),
    )
    ||| from.field("slug"@).text_or_empty() != to.field("slug"@).text_or_empty()
}

/// The pull request as it is shown, from its detail and what was read beside it.
pub open spec fn snapshot_of(
    detail: JsonTree,
    merge: Merge,
    checks: Seq<CheckModel>,
    comments: Seq<CommentModel>,
    sync: Sync,
    truncated: bool,
) -> SnapshotModel {
    SnapshotModel {
        number: match detail.field("id"@).unsigned() {
            Some(number) => number,
            None => 0,
        },
        title: detail.field("title"@).text_or_empty(),
        url: detail.field("links"@).field("self"@).element(0).field("href"@).text_or_empty(),
        body: detail.field("description"@).text_or_empty(),
        state: state_of(detail.field("state"@).text_or_empty()),
        is_draft: detail.field("draft"@).truth() == Some(true),
        head_ref: detail.field("fromRef"@).field("displayId"@).text_or_empty(),
        head_is_fork: is_fork(detail),
        head_oid: detail.field("fromRef"@).field("latestCommit"@).text_or_empty(),
        base_ref: detail.field("toRef"@).field("displayId"@).text_or_empty(),
        merge,
        sync,
        checks,
        comments,
        truncated,
    }
}

/// Tells whether the pull request comes from another repository than it goes to.
fn comes_from_fork(detail: &Json) -> (fork: bool)
    ensures
        fork == is_fork(detail@),
{
    let from = detail.field("fromRef").field("repository");
    let to = detail.field("toRef").field("repository");
    let from_key = chars_of(from.field("project").field("key").str_or_empty());
    let to_key = chars_of(to.field("project").field("key").str_or_empty());
    let from_slug = from.field("slug").str_or_empty();
    let to_slug = to.field("slug").str_or_empty();
    !same_ignoring_case(&from_key, &to_key) || !same_text(from_slug, to_slug)
}

/// Puts the pull request together from its detail and what was read beside it. What the detail
/// lacks gets a default.
pub fn build_snapshot(
    detail: &Json,
    merge: Merge,
    checks: Vec<Check>,
    comments: Vec<Comment>,
    sync: Sync,
    truncated: bool,
) -> (snapshot: PrSnapshot)
    ensures
        snapshot@ == snapshot_of(
            detail@,
            merge,
            check_models(checks@),
            comment_models(comments@),
            sync,
            truncated,
        ),
{
    PrSnapshot {
        number: detail.field("id").as_u64().unwrap_or(0),
        title: detail.field("title").str_or_empty().to_owned(),
        url: detail.field("links").field("self").element(0).field("href").str_or_empty().to_owned(),
        body: detail.field("description").str_or_empty().to_owned(),
        state: parse_state(detail.field("state").str_or_empty()),
        is_draft: detail.field("draft").as_bool().unwrap_or(false),
        head_ref: detail.field("fromRef").field("displayId").str_or_empty().to_owned(),
        head_is_fork: comes_from_fork(detail),
        head_oid: detail.field("fromRef").field("latestCommit").str_or_empty().to_owned(),
        base_ref: detail.field("toRef").field("displayId").str_or_empty().to_owned(),
        merge,
        sync,
        checks,
        comments,
        truncated,
    }
}

}
