//! What is read from a response, stated on the fields of the response.

use vstd::prelude::*;

use crate::bitbucket::association::{
    any_has_more, associated, first_failure, lemma_unique, pages_of, rows_of, unique, values_of,
    AssociatedModel, ResponseModel,
};
use crate::bitbucket::normalize::{
    anchor_of, check_of, checks_of, comment_of, comments_of, has_more, has_name, is_fork,
    is_service, lemma_last_status_counts, lemma_replies, merge_of, replies, row_of, shown_count,
    snapshot_of, state_of, status_of, tells_of,
};
use crate::calendar::iso_of_ms;
use crate::comments::{finished, CommentKind, CommentModel};
use crate::forge::{
    has_check, has_number, lemma_upserted, AssocPrModel, CheckModel, CheckStatus, Merge, PrState,
    Sync,
};
use crate::json::JsonTree;
use crate::text::{decimal, equal_ignoring_case, lemma_ends_with, trimmed};

verus! {

/// Whether the text is what the value holds: the value itself, or nothing where that is no text.
pub open spec fn reads_text(value: JsonTree, text: Seq<char>) -> bool {
    match value {
        JsonTree::Text(held) => text == held,
        _ => text.len() == 0,
    }
}

/// Whether the flag is what the value holds: the value itself, or false where that is no truth
/// value.
pub open spec fn reads_flag(value: JsonTree, flag: bool) -> bool {
    match value {
        JsonTree::Bool(held) => flag == held,
        _ => !flag,
    }
}

/// Whether the text is the time that the value holds in milliseconds, or nothing where the value
/// is no integer of 64 bits.
pub open spec fn reads_time(value: JsonTree, text: Seq<char>) -> bool {
    match value {
        JsonTree::Integer(ms) => if i64::MIN <= ms <= i64::MAX {
            text == iso_of_ms(ms)
        } else {
            text.len() == 0
        },
        _ => text.len() == 0,
    }
}

/// The words of the forge that are read are all different, and none is empty.
proof fn lemma_words()
    ensures
        "MERGED"@ != "DECLINED"@,
        "SUCCESSFUL"@ != "FAILED"@,
        "SUCCESSFUL"@ != "INPROGRESS"@,
        "SUCCESSFUL"@ != "CANCELLED"@,
        "FAILED"@ != "INPROGRESS"@,
        "FAILED"@ != "CANCELLED"@,
        "INPROGRESS"@ != "CANCELLED"@,
        "MERGED"@.len() > 0,
        "DECLINED"@.len() > 0,
        "SUCCESSFUL"@.len() > 0,
        "FAILED"@.len() > 0,
        "INPROGRESS"@.len() > 0,
        "CANCELLED"@.len() > 0,
{
    reveal_strlit("MERGED");
    reveal_strlit("DECLINED");
    reveal_strlit("SUCCESSFUL");
    reveal_strlit("FAILED");
    reveal_strlit("INPROGRESS");
    reveal_strlit("CANCELLED");
    assert("MERGED"@.len() == 6 && "DECLINED"@.len() == 8);
    assert("SUCCESSFUL"@.len() == 10 && "FAILED"@.len() == 6);
    assert("INPROGRESS"@.len() == 10 && "CANCELLED"@.len() == 9);
    assert("SUCCESSFUL"@[0] == 'S' && "INPROGRESS"@[0] == 'I');
}

/// A pull request is merged or closed where the forge says so in its word, and open otherwise.
pub proof fn lemma_state(word: Seq<char>)
    ensures
        state_of(word) == PrState::Merged <==> word == "MERGED"@,
        state_of(word) == PrState::Closed <==> word == "DECLINED"@,
{
    lemma_words();
}

/// A check succeeded, failed, runs or was skipped where the forge says so in its word, and is
/// pending otherwise.
pub proof fn lemma_status(word: Seq<char>)
    ensures
        status_of(word) == CheckStatus::Success <==> word == "SUCCESSFUL"@,
        status_of(word) == CheckStatus::Failure <==> word == "FAILED"@,
        status_of(word) == CheckStatus::Running <==> word == "INPROGRESS"@,
        status_of(word) == CheckStatus::Skipped <==> word == "CANCELLED"@,
{
    lemma_words();
}

/// A pull request is conflicting where the answer says so; blocked where it is not, cannot be
/// merged and has a veto; and clean otherwise.
pub proof fn lemma_merge(answer: JsonTree)
    ensures
        merge_of(answer) == Merge::Conflicting <==> answer.field("conflicted"@) == JsonTree::Bool(
            true,
        ),
        merge_of(answer) == Merge::Blocked <==> {
            &&& answer.field("conflicted"@) != JsonTree::Bool(true)
            &&& answer.field("canMerge"@) == JsonTree::Bool(false)
            &&& answer.field("vetoes"@) is Array
            &&& answer.field("vetoes"@)->Array_0.len() > 0
        },
{
}

/// A page is one of several where it says that it is not the last.
pub proof fn lemma_more(page: JsonTree)
    ensures
        has_more(page) <==> page.field("isLastPage"@) == JsonTree::Bool(false),
{
}

/// A build status tells of a check where it has a name or a key: the name counts first. The
/// outcome is that of the word in its state.
pub proof fn lemma_check(status: JsonTree)
    ensures
        check_of(status) is Some <==> status.field("name"@) is Text || status.field("key"@) is Text,
        status.field("name"@) is Text ==> check_of(status)->0.name == status.field(
            "name"@,
        )->Text_0,
        !(status.field("name"@) is Text) && status.field("key"@) is Text ==> check_of(
            status,
        )->0.name == status.field("key"@)->Text_0,
        check_of(status) is Some ==> {
            let outcome = check_of(status)->0.status;
            &&& outcome == CheckStatus::Success <==> status.field("state"@) == JsonTree::Text(
                "SUCCESSFUL"@,
            )
            &&& outcome == CheckStatus::Failure <==> status.field("state"@) == JsonTree::Text(
                "FAILED"@,
            )
            &&& outcome == CheckStatus::Running <==> status.field("state"@) == JsonTree::Text(
                "INPROGRESS"@,
            )
            &&& outcome == CheckStatus::Skipped <==> status.field("state"@) == JsonTree::Text(
                "CANCELLED"@,
            )
        },
{
    lemma_words();
}

/// The checks stand in the order in which their names were told first.
pub proof fn lemma_checks_in_order(statuses: Seq<JsonTree>, i: int, j: int, q: int)
    requires
        0 <= i < j < checks_of(statuses).len(),
        0 <= q < statuses.len(),
        has_name(statuses[q], checks_of(statuses)[j].name),
    ensures
        tells_of(statuses.take(q), checks_of(statuses)[i].name),
    decreases statuses.len(),
{
    let earlier = statuses.drop_last();
    let last = statuses.last();
    let before = checks_of(earlier);
    let result = checks_of(statuses);
    lemma_last_status_counts(earlier);
    lemma_last_status_counts(statuses);
    if let Some(check) = check_of(last) {
        lemma_upserted(before, check);
    }
    assert(i < before.len() && before[i].name == result[i].name) by {
        if let Some(check) = check_of(last) {
            if has_check(before, check.name) {
                lemma_names_stay(before, check, i);
            }
        }
    }
    if q < statuses.len() - 1 {
        assert(earlier[q] == statuses[q]);
        assert(earlier.take(q) =~= statuses.take(q));
        assert(tells_of(earlier, result[j].name));
        assert(has_check(before, result[j].name));
        let k = choose|k: int| 0 <= k < before.len() && (#[trigger] before[k]).name
            == result[j].name;
        assert(k == j) by {
            if let Some(check) = check_of(last) {
                if has_check(before, check.name) {
                    lemma_names_stay(before, check, k);
                } else {
                    assert(result[k] == before[k]);
                }
            }
            assert(result[k].name == result[j].name);
        }
        lemma_checks_in_order(earlier, i, j, q);
    } else {
        assert(statuses.take(q) =~= earlier);
        assert(has_check(before, before[i].name));
    }
}

proof fn lemma_names_stay(checks: Seq<CheckModel>, check: CheckModel, i: int)
    requires
        crate::forge::names_differ(checks),
        has_check(checks, check.name),
        0 <= i < checks.len(),
    ensures
        crate::forge::upserted(checks, check).len() == checks.len(),
        crate::forge::upserted(checks, check)[i].name == checks[i].name,
{
    lemma_upserted(checks, check);
    let result = crate::forge::upserted(checks, check);
    if result[i].name == check.name && checks[i].name != check.name {
        // The name of the check at the place would be lost.
        assert(has_check(checks, checks[i].name));
        assert(has_check(result, checks[i].name));
        let k = choose|k: int| 0 <= k < result.len() && (#[trigger] result[k]).name
            == checks[i].name;
        assert(checks[k] == result[k]);
    }
}

/// A row tells of a pull request where it has a number, whatever else it has. Its fields are
/// those of the row, and empty where the row has none; only one of the past has the time at which
/// it was closed, or else that of its last change.
pub proof fn lemma_row(row: JsonTree, historical: bool)
    ensures
        row_of(row, historical) is Some <==> row.field("id"@) is Integer && 0 <= row.field(
            "id"@,
        )->Integer_0 <= u64::MAX,
        row_of(row, historical) is Some ==> {
            let pr = row_of(row, historical)->0;
            &&& row.field("id"@) == JsonTree::Integer(pr.number as int)
            &&& reads_text(row.field("fromRef"@).field("latestCommit"@), pr.head_oid)
            &&& reads_text(row.field("fromRef"@).field("displayId"@), pr.head_ref)
            &&& reads_time(row.field("createdDate"@), pr.created_at)
            &&& !historical ==> pr.closed_at.len() == 0
            &&& historical ==> {
                let closed = row.field("closedDate"@);
                if closed is Integer && i64::MIN <= closed->Integer_0 <= i64::MAX {
                    reads_time(closed, pr.closed_at)
                } else {
                    reads_time(row.field("updatedDate"@), pr.closed_at)
                }
            }
            &&& pr.raw is None
        },
{
}

/// An author of a type is a bot where the type is `SERVICE`; one without a type where the name is
/// something and then `[bot]`, `-bot` or `_bot`.
pub proof fn lemma_author(author: JsonTree, start: Seq<char>)
    ensures
        !(author.field("type"@) is Null) ==> (is_service(author) <==> author.field("type"@)
            == JsonTree::Text("SERVICE"@)),
        author.field("type"@) is Null && author.field("name"@) == JsonTree::Text(
            start + "[bot]"@,
        ) ==> is_service(author),
        author.field("type"@) is Null && author.field("name"@) == JsonTree::Text(
            start + "-bot"@,
        ) ==> is_service(author),
        author.field("type"@) is Null && author.field("name"@) == JsonTree::Text(
            start + "_bot"@,
        ) ==> is_service(author),
{
    lemma_ends_with(start, start, "[bot]"@);
    lemma_ends_with(start, start, "-bot"@);
    lemma_ends_with(start, start, "_bot"@);
}

/// No other author without a type is a bot.
pub proof fn lemma_named_bot(author: JsonTree)
    requires
        author.field("type"@) is Null,
        is_service(author),
    ensures
        author.field("name"@) is Text,
        ({
            let name = author.field("name"@)->Text_0;
            ||| name == name.take(name.len() - "[bot]"@.len()) + "[bot]"@
            ||| name == name.take(name.len() - "-bot"@.len()) + "-bot"@
            ||| name == name.take(name.len() - "_bot"@.len()) + "_bot"@
        }),
{
    let name = author.field("name"@).text_or_empty();
    reveal_strlit("[bot]");
    reveal_strlit("-bot");
    reveal_strlit("_bot");
    assert("[bot]"@.len() == 5 && "-bot"@.len() == 4 && "_bot"@.len() == 4);
    lemma_ends_with(name, name, "[bot]"@);
    lemma_ends_with(name, name, "-bot"@);
    lemma_ends_with(name, name, "_bot"@);
}

/// A reply adds one to the count below the comment, and the count below the reply itself; without
/// replies the count is zero.
pub proof fn lemma_reply_counts(
    fields: Map<Seq<char>, JsonTree>,
    direct: Seq<JsonTree>,
    reply: JsonTree,
)
    ensures
        replies(JsonTree::Object(fields.insert("comments"@, JsonTree::Array(direct.push(reply)))))
            == replies(JsonTree::Object(fields.insert("comments"@, JsonTree::Array(direct)))) + 1
            + replies(reply),
        replies(JsonTree::Object(fields.insert("comments"@, JsonTree::Array(Seq::empty())))) == 0,
        !(reply.field("comments"@) is Array) ==> replies(reply) == 0,
{
    let longer = JsonTree::Object(
        fields.insert("comments"@, JsonTree::Array(direct.push(reply))),
    );
    let shorter = JsonTree::Object(fields.insert("comments"@, JsonTree::Array(direct)));
    let none = JsonTree::Object(fields.insert("comments"@, JsonTree::Array(Seq::empty())));
    lemma_replies(longer);
    lemma_replies(shorter);
    lemma_replies(none);
    lemma_replies(reply);
    assert(direct.push(reply).drop_last() =~= direct);
}

/// A count is shown as it is, as far as 32 bits hold it.
pub proof fn lemma_count_is_shown(count: nat)
    ensures
        count <= 0xffff_ffff ==> shown_count(count) == count,
        count > 0xffff_ffff ==> shown_count(count) == 0xffff_ffff,
{
}

/// An activity tells of a comment where its action is `COMMENTED` and it has one. Whatever it is
/// attached to, the comment has the text without white space at its ends, the name of the author
/// and whether that is a bot, the time, and whether it is resolved. It is a finding where it has an
/// anchor: at the path, or at a line of it, and outdated where the anchor is orphaned.
pub proof fn lemma_comment(activity: JsonTree)
    ensures
        comment_of(activity) is Some <==> activity.field("action"@) == JsonTree::Text("COMMENTED"@)
            && !(activity.field("comment"@) is Null),
        comment_of(activity) is Some ==> {
            let read = comment_of(activity)->0;
            let comment = activity.field("comment"@);
            let anchor = activity.field("commentAnchor"@);
            &&& comment.field("text"@) is Text ==> read.body == trimmed(
                comment.field("text"@)->Text_0,
            )
            &&& !(comment.field("text"@) is Text) ==> read.body.len() == 0
            &&& reads_text(comment.field("author"@).field("name"@), read.author)
            &&& read.author_is_bot == is_service(comment.field("author"@))
            &&& reads_time(comment.field("createdDate"@), read.created_at)
            &&& read.is_resolved <==> comment.field("state"@) == JsonTree::Text("RESOLVED"@)
                || comment.field("threadResolved"@) == JsonTree::Bool(true)
            &&& replies(comment) <= 0xffff_ffff ==> read.reply_count == replies(comment)
            &&& replies(comment) > 0xffff_ffff ==> read.reply_count == 0xffff_ffff
            &&& read.snippet is None
            &&& read.kind == CommentKind::Comment <==> anchor is Null
            &&& read.kind == CommentKind::Finding <==> !(anchor is Null)
            &&& anchor is Null ==> read.anchor == "comment"@ && !read.is_outdated
            &&& !(anchor is Null) ==> reads_flag(anchor.field("orphaned"@), read.is_outdated)
        },
{
}

/// A finding stands at its path, and at a line where it has the number of one.
pub proof fn lemma_finding_place(activity: JsonTree)
    requires
        comment_of(activity) is Some,
        !(activity.field("commentAnchor"@) is Null),
    ensures
        ({
            let anchor = activity.field("commentAnchor"@);
            let line = anchor.field("line"@);
            let place = comment_of(activity)->0.anchor;
            if line is Integer && 0 <= line->Integer_0 <= u64::MAX {
                let number = ":"@ + decimal(line->Integer_0 as nat);
                place.len() >= number.len() && reads_text(
                    anchor.field("path"@),
                    place.take(place.len() - number.len()),
                ) && place.skip(place.len() - number.len()) == number
            } else {
                reads_text(anchor.field("path"@), place)
            }
        }),
{
    let anchor = activity.field("commentAnchor"@);
    let line = anchor.field("line"@);
    if line is Integer && 0 <= line->Integer_0 <= u64::MAX {
        let path = anchor.field("path"@).text_or_empty();
        let number = ":"@ + decimal(line->Integer_0 as nat);
        let place = anchor_of(anchor);
        assert(place =~= path + number);
        assert(place.take(place.len() - number.len()) =~= path);
        assert(place.skip(place.len() - number.len()) =~= number);
    }
}

/// What a comment is attached to changes nothing but its kind, its place and whether it is
/// outdated.
pub proof fn lemma_anchor_changes_place_only(
    fields: Map<Seq<char>, JsonTree>,
    a: JsonTree,
    b: JsonTree,
)
    ensures
        ({
            let x = comment_of(JsonTree::Object(fields.insert("commentAnchor"@, a)));
            let y = comment_of(JsonTree::Object(fields.insert("commentAnchor"@, b)));
            &&& x is Some <==> y is Some
            &&& x is Some ==> x->0 == CommentModel {
                kind: x->0.kind,
                anchor: x->0.anchor,
                is_outdated: x->0.is_outdated,
                ..y->0
            }
        }),
{
    reveal_strlit("commentAnchor");
    reveal_strlit("comment");
    reveal_strlit("action");
    assert("commentAnchor"@.len() == 13 && "comment"@.len() == 7 && "action"@.len() == 6);
}

/// Every activity is read for itself, in its turn.
pub proof fn lemma_comments_in_turn(a: Seq<JsonTree>, b: Seq<JsonTree>, one: JsonTree)
    ensures
        comments_of(a + b) == comments_of(a) + comments_of(b),
        comment_of(one) is Some ==> comments_of(seq![one]) == seq![comment_of(one)->0],
        comment_of(one) is None ==> comments_of(seq![one]).len() == 0,
    decreases b.len(),
{
    reveal_with_fuel(comments_of, 2);
    assert(seq![one].drop_last() =~= Seq::empty());
    assert(comment_of(one) is Some ==> comments_of(seq![one]) =~= seq![comment_of(one)->0]);
    if b.len() == 0 {
        assert(a + b =~= a);
        assert(comments_of(a) + comments_of(b) =~= comments_of(a));
    } else {
        lemma_comments_in_turn(a, b.drop_last(), one);
        assert((a + b).drop_last() =~= a + b.drop_last());
        assert(comments_of(a + b) =~= comments_of(a) + comments_of(b));
    }
}

proof fn lemma_told_is_read(activities: Seq<JsonTree>, i: int)
    requires
        0 <= i < activities.len(),
        comment_of(activities[i]) is Some,
    ensures
        comments_of(activities).contains(comment_of(activities[i])->0),
{
    let before = activities.take(i);
    let one = activities[i];
    let behind = activities.skip(i + 1);
    lemma_comments_in_turn(before, seq![one], one);
    lemma_comments_in_turn(before + seq![one], behind, one);
    assert(activities =~= before + seq![one] + behind);
    assert(comments_of(activities)[comments_of(before).len() as int] == comment_of(one)->0);
}

proof fn lemma_read_was_told(activities: Seq<JsonTree>, k: int) -> (i: int)
    requires
        0 <= k < comments_of(activities).len(),
    ensures
        0 <= i < activities.len(),
        comment_of(activities[i]) == Some(comments_of(activities)[k]),
    decreases activities.len(),
{
    let before = activities.drop_last();
    if k < comments_of(before).len() {
        lemma_read_was_told(before, k)
    } else {
        activities.len() - 1
    }
}

/// Every comment that the activities tell of is shown, unless it is a bot's on the pull request as
/// a whole: its text is the text told, wherever it is attached.
pub proof fn lemma_told_comment_is_shown(activities: Seq<JsonTree>, i: int) -> (k: int)
    requires
        0 <= i < activities.len(),
        activities[i].field("action"@) == JsonTree::Text("COMMENTED"@),
        !(activities[i].field("comment"@) is Null),
        !(activities[i].field("commentAnchor"@) is Null) || !is_service(
            activities[i].field("comment"@).field("author"@),
        ),
    ensures
        0 <= k < finished(comments_of(activities)).len(),
        comment_of(activities[i]) == Some(finished(comments_of(activities))[k]),
        ({
            let shown = finished(comments_of(activities))[k];
            let comment = activities[i].field("comment"@);
            &&& comment.field("text"@) is Text ==> shown.body == trimmed(
                comment.field("text"@)->Text_0,
            )
            &&& reads_text(comment.field("author"@).field("name"@), shown.author)
            &&& reads_time(comment.field("createdDate"@), shown.created_at)
        }),
{
    broadcast use vstd::seq_lib::group_to_multiset_ensures;

    let all = comments_of(activities);
    let one = comment_of(activities[i])->0;
    lemma_comment(activities[i]);
    lemma_told_is_read(activities, i);
    crate::comments::lemma_finished(all);
    assert(all.to_multiset().contains(one));
    assert(finished(all).to_multiset().count(one) == all.to_multiset().count(one));
    assert(finished(all).contains(one));
    finished(all).index_of(one)
}

/// Every comment that is shown was told by one of the activities.
pub proof fn lemma_shown_comment_was_told(activities: Seq<JsonTree>, k: int) -> (i: int)
    requires
        0 <= k < finished(comments_of(activities)).len(),
    ensures
        0 <= i < activities.len(),
        comment_of(activities[i]) == Some(finished(comments_of(activities))[k]),
{
    broadcast use vstd::seq_lib::group_to_multiset_ensures;

    let all = comments_of(activities);
    let one = finished(all)[k];
    crate::comments::lemma_finished(all);
    assert(finished(all).contains(one));
    assert(finished(all).to_multiset().contains(one));
    assert(finished(all).to_multiset().count(one) <= all.to_multiset().count(one));
    assert(all.contains(one));
    lemma_read_was_told(activities, all.index_of(one))
}

/// The pull request comes from a fork where its two projects have different keys, but for the case
/// of ASCII letters, or its two repositories different slugs, in any case.
pub proof fn lemma_fork_detected(
    detail: JsonTree,
    from_key: Seq<char>,
    to_key: Seq<char>,
    from_slug: Seq<char>,
    to_slug: Seq<char>,
)
    requires
        ({
            let from = detail.field("fromRef"@).field("repository"@);
            let to = detail.field("toRef"@).field("repository"@);
            &&& reads_text(from.field("project"@).field("key"@), from_key)
            &&& reads_text(to.field("project"@).field("key"@), to_key)
            &&& reads_text(from.field("slug"@), from_slug)
            &&& reads_text(to.field("slug"@), to_slug)
        }),
    ensures
        is_fork(detail) <==> !equal_ignoring_case(from_key, to_key) || from_slug != to_slug,
{
    let from = detail.field("fromRef"@).field("repository"@);
    let to = detail.field("toRef"@).field("repository"@);
    assert(from.field("project"@).field("key"@).text_or_empty() =~= from_key);
    assert(to.field("project"@).field("key"@).text_or_empty() =~= to_key);
    assert(from.field("slug"@).text_or_empty() =~= from_slug);
    assert(to.field("slug"@).text_or_empty() =~= to_slug);
}

/// A snapshot holds what the detail says, field by field, and what was read beside it. A field
/// that the detail lacks, or has as another kind of value, is empty, zero, false or open.
pub proof fn lemma_snapshot(
    detail: JsonTree,
    merge: Merge,
    checks: Seq<CheckModel>,
    comments: Seq<CommentModel>,
    sync: Sync,
    truncated: bool,
)
    ensures
        ({
            let shown = snapshot_of(detail, merge, checks, comments, sync, truncated);
            let id = detail.field("id"@);
            let state = detail.field("state"@);
            let link = detail.field("links"@).field("self"@).element(0);
            &&& id is Integer && 0 <= id->Integer_0 <= u64::MAX ==> shown.number == id->Integer_0
            &&& !(id is Integer && 0 <= id->Integer_0 <= u64::MAX) ==> shown.number == 0
            &&& reads_text(detail.field("title"@), shown.title)
            &&& reads_text(link.field("href"@), shown.url)
            &&& reads_text(detail.field("description"@), shown.body)
            &&& shown.state == PrState::Merged <==> state == JsonTree::Text("MERGED"@)
            &&& shown.state == PrState::Closed <==> state == JsonTree::Text("DECLINED"@)
            &&& reads_flag(detail.field("draft"@), shown.is_draft)
            &&& reads_text(detail.field("fromRef"@).field("displayId"@), shown.head_ref)
            &&& reads_text(detail.field("fromRef"@).field("latestCommit"@), shown.head_oid)
            &&& reads_text(detail.field("toRef"@).field("displayId"@), shown.base_ref)
            &&& shown.head_is_fork == is_fork(detail)
            &&& shown.merge == merge
            &&& shown.checks == checks
            &&& shown.comments == comments
            &&& shown.sync == sync
            &&& shown.truncated == truncated
        }),
{
    lemma_words();
}

/// A detail that says that the pull request is no draft gives the same snapshot as one that says
/// nothing of it.
pub proof fn lemma_draft_defaults(
    fields: Map<Seq<char>, JsonTree>,
    merge: Merge,
    checks: Seq<CheckModel>,
    comments: Seq<CommentModel>,
    sync: Sync,
    truncated: bool,
)
    ensures
        snapshot_of(
            JsonTree::Object(fields.insert("draft"@, JsonTree::Bool(false))),
            merge,
            checks,
            comments,
            sync,
            truncated,
        ) == snapshot_of(
            JsonTree::Object(fields.remove("draft"@)),
            merge,
            checks,
            comments,
            sync,
            truncated,
        ),
        snapshot_of(
            JsonTree::Object(fields.insert("draft"@, JsonTree::Bool(true))),
            merge,
            checks,
            comments,
            sync,
            truncated,
        ).is_draft,
{
    reveal_strlit("draft");
    reveal_strlit("id");
    reveal_strlit("title");
    reveal_strlit("links");
    reveal_strlit("description");
    reveal_strlit("state");
    reveal_strlit("fromRef");
    reveal_strlit("toRef");
    assert("draft"@[0] == 'd' && "draft"@.len() == 5);
    assert("title"@[0] == 't' && "links"@[0] == 'l' && "state"@[0] == 's' && "toRef"@[0] == 't');
    assert("id"@.len() == 2 && "description"@.len() == 11 && "fromRef"@.len() == 7);
}

/// Whether the page has at its place `r` a row with the number `n`.
pub open spec fn has_row(page: JsonTree, r: int, n: u64) -> bool {
    &&& page.field("values"@) is Array
    &&& 0 <= r < page.field("values"@)->Array_0.len()
    &&& page.field("values"@)->Array_0[r].field("id"@) == JsonTree::Integer(n as int)
}

/// Whether the row of the page at its place `r` says that its pull request is open.
pub open spec fn says_open(page: JsonTree, r: int) -> bool {
    page.field("values"@)->Array_0[r].field("state"@) == JsonTree::Text("OPEN"@)
}

proof fn lemma_number_in_rows(rows: Seq<JsonTree>, historical: bool, n: u64)
    ensures
        has_number(rows_of(rows, historical), n) <==> exists|r: int|
            0 <= r < rows.len() && (#[trigger] rows[r]).field("id"@) == JsonTree::Integer(n as int)
                && !(historical && rows[r].field("state"@) == JsonTree::Text("OPEN"@)),
    decreases rows.len(),
{
    if rows.len() > 0 {
        let before = rows.drop_last();
        let last = rows.last();
        let known = rows_of(before, historical);
        let all = rows_of(rows, historical);
        let counts = last.field("id"@) == JsonTree::Integer(n as int) && !(historical && last.field(
            "state"@,
        ) == JsonTree::Text("OPEN"@));
        lemma_number_in_rows(before, historical, n);
        lemma_row(last, historical);
        if has_number(known, n) {
            let r = choose|r: int|
                0 <= r < before.len() && (#[trigger] before[r]).field("id"@) == JsonTree::Integer(
                    n as int,
                ) && !(historical && before[r].field("state"@) == JsonTree::Text("OPEN"@));
            assert(rows[r] == before[r]);
            let k = choose|k: int| 0 <= k < known.len() && (#[trigger] known[k]).number == n;
            assert(all[k] == known[k]);
        }
        if counts {
            assert(rows[rows.len() - 1] == last);
            assert(all[all.len() - 1].number == n);
        }
        if has_number(all, n) && !counts {
            let k = choose|k: int| 0 <= k < all.len() && (#[trigger] all[k]).number == n;
            assert(known[k] == all[k]);
        }
        if exists|r: int|
            0 <= r < rows.len() && (#[trigger] rows[r]).field("id"@) == JsonTree::Integer(n as int)
                && !(historical && rows[r].field("state"@) == JsonTree::Text("OPEN"@)) {
            let r = choose|r: int|
                0 <= r < rows.len() && (#[trigger] rows[r]).field("id"@) == JsonTree::Integer(
                    n as int,
                ) && !(historical && rows[r].field("state"@) == JsonTree::Text("OPEN"@));
            if r < before.len() {
                assert(before[r] == rows[r]);
            }
        }
    }
}

proof fn lemma_number_in_sum(a: Seq<AssocPrModel>, b: Seq<AssocPrModel>, n: u64)
    ensures
        has_number(a + b, n) <==> has_number(a, n) || has_number(b, n),
{
    if has_number(a, n) {
        let i = choose|i: int| 0 <= i < a.len() && (#[trigger] a[i]).number == n;
        assert((a + b)[i] == a[i]);
    }
    if has_number(b, n) {
        let i = choose|i: int| 0 <= i < b.len() && (#[trigger] b[i]).number == n;
        assert((a + b)[a.len() + i] == b[i]);
    }
    if has_number(a + b, n) {
        let i = choose|i: int| 0 <= i < (a + b).len() && (#[trigger] (a + b)[i]).number == n;
        if i < a.len() {
            assert(a[i] == (a + b)[i]);
        } else {
            assert(b[i - a.len()] == (a + b)[i]);
        }
    }
}

/// Whether a row with the number stands on one of the pages; in a listing of the past an open one
/// does not count.
pub open spec fn is_listed(pages: Seq<JsonTree>, historical: bool, n: u64) -> bool {
    exists|p: int, r: int|
        0 <= p < pages.len() && #[trigger] has_row(pages[p], r, n) && !(historical && says_open(
            pages[p],
            r,
        ))
}

proof fn lemma_number_on_pages(pages: Seq<JsonTree>, historical: bool, n: u64)
    ensures
        has_number(pages_of(pages, historical), n) <==> is_listed(pages, historical, n),
    decreases pages.len(),
{
    if pages.len() > 0 {
        let before = pages.drop_last();
        let last = pages.last();
        let rows = last.field("values"@).elements();
        lemma_number_on_pages(before, historical, n);
        lemma_number_in_rows(rows, historical, n);
        lemma_number_in_sum(pages_of(before, historical), rows_of(rows, historical), n);
        if is_listed(before, historical, n) {
            let (p, r) = choose|p: int, r: int|
                0 <= p < before.len() && #[trigger] has_row(before[p], r, n) && !(historical
                    && says_open(before[p], r));
            assert(has_row(pages[p], r, n));
        }
        if has_number(rows_of(rows, historical), n) {
            let r = choose|r: int|
                0 <= r < rows.len() && (#[trigger] rows[r]).field("id"@) == JsonTree::Integer(
                    n as int,
                ) && !(historical && rows[r].field("state"@) == JsonTree::Text("OPEN"@));
            assert(has_row(pages[pages.len() - 1], r, n));
        }
        if is_listed(pages, historical, n) {
            let (p, r) = choose|p: int, r: int|
                0 <= p < pages.len() && #[trigger] has_row(pages[p], r, n) && !(historical
                    && says_open(pages[p], r));
            if p < before.len() {
                assert(has_row(before[p], r, n));
            } else {
                assert(rows[r].field("id"@) == JsonTree::Integer(n as int));
            }
        }
    }
}

/// The pull requests of a branch: a number is among the open ones where a row of an open listing
/// has it, whatever that row's state, and only there; it is among those of the past where a row of
/// a historical listing has it that does not say that it is open, and only there.
pub proof fn lemma_branch_has_listed(responses: Seq<ResponseModel>, names: int, n: u64)
    requires
        0 <= names,
        responses.len() == 2 * names,
        forall|i: int| 0 <= i < responses.len() ==> #[trigger] responses[i] is Value,
    ensures
        associated(responses, names) is Known,
        ({
            let found = associated(responses, names)->Known_0;
            &&& has_number(found.open, n) <==> exists|p: int, r: int|
                0 <= p < names && #[trigger] has_row(responses[p]->Value_0, r, n)
            &&& has_number(found.history, n) <==> exists|p: int, r: int|
                names <= p < 2 * names && #[trigger] has_row(responses[p]->Value_0, r, n)
                    && !says_open(responses[p]->Value_0, r)
        }),
{
    lemma_no_failure(responses);
    let pages = values_of(responses);
    let open = pages.take(names);
    let past = pages.skip(names);
    lemma_number_on_pages(open, false, n);
    lemma_number_on_pages(past, true, n);
    lemma_unique(pages_of(open, false));
    lemma_unique(pages_of(past, true));
    let found = associated(responses, names)->Known_0;
    assert(has_number(found.open, n) == has_number(pages_of(open, false), n));
    assert(has_number(found.history, n) == has_number(pages_of(past, true), n));
    if is_listed(open, false, n) {
        let (p, r) = choose|p: int, r: int|
            0 <= p < open.len() && #[trigger] has_row(open[p], r, n) && !(false && says_open(
                open[p],
                r,
            ));
        assert(has_row(responses[p]->Value_0, r, n));
    }
    if exists|p: int, r: int|
        0 <= p < names && #[trigger] has_row(responses[p]->Value_0, r, n) {
        let (p, r) = choose|p: int, r: int|
            0 <= p < names && #[trigger] has_row(responses[p]->Value_0, r, n);
        assert(has_row(open[p], r, n));
    }
    if is_listed(past, true, n) {
        let (p, r) = choose|p: int, r: int|
            0 <= p < past.len() && #[trigger] has_row(past[p], r, n) && !(true && says_open(
                past[p],
                r,
            ));
        assert(has_row(responses[names + p]->Value_0, r, n));
    }
    if exists|p: int, r: int|
        names <= p < 2 * names && #[trigger] has_row(responses[p]->Value_0, r, n) && !says_open(
            responses[p]->Value_0,
            r,
        ) {
        let (p, r) = choose|p: int, r: int|
            names <= p < 2 * names && #[trigger] has_row(responses[p]->Value_0, r, n) && !says_open(
                responses[p]->Value_0,
                r,
            );
        assert(past[p - names] == responses[p]->Value_0);
        assert(has_row(past[p - names], r, n));
    }
}

proof fn lemma_no_failure(responses: Seq<ResponseModel>)
    requires
        forall|i: int| 0 <= i < responses.len() ==> #[trigger] responses[i] is Value,
    ensures
        first_failure(responses) is None,
    decreases responses.len(),
{
    if responses.len() > 0 {
        lemma_no_failure(responses.drop_last());
    }
}

/// A listing that fails decides where none before it does: nothing else is told then.
pub proof fn lemma_first_failure_counts(responses: Seq<ResponseModel>, names: int, i: int)
    requires
        0 <= i < responses.len(),
        responses[i] is Fail,
        forall|j: int| 0 <= j < i ==> #[trigger] responses[j] is Value,
    ensures
        associated(responses, names) == AssociatedModel::Fail(responses[i]->Fail_0),
    decreases responses.len(),
{
    if i == responses.len() - 1 {
        lemma_no_failure(responses.drop_last());
    } else {
        lemma_first_failure_counts(responses.drop_last(), names, i);
    }
}

/// The branch has more than was told where one of the listings says that it is not the last page.
pub proof fn lemma_branch_has_more(responses: Seq<ResponseModel>, names: int)
    requires
        forall|i: int| 0 <= i < responses.len() ==> #[trigger] responses[i] is Value,
    ensures
        associated(responses, names) is Known,
        associated(responses, names)->Known_1 <==> exists|i: int|
            0 <= i < responses.len() && (#[trigger] responses[i])->Value_0.field("isLastPage"@)
                == JsonTree::Bool(false),
{
    lemma_no_failure(responses);
    let pages = values_of(responses);
    if any_has_more(pages) {
        let i = choose|i: int| 0 <= i < pages.len() && has_more(#[trigger] pages[i]);
        assert(responses[i]->Value_0.field("isLastPage"@) == JsonTree::Bool(false));
    }
    if exists|i: int|
        0 <= i < responses.len() && (#[trigger] responses[i])->Value_0.field("isLastPage"@)
            == JsonTree::Bool(false) {
        let i = choose|i: int|
            0 <= i < responses.len() && (#[trigger] responses[i])->Value_0.field("isLastPage"@)
                == JsonTree::Bool(false);
        assert(pages[i] == responses[i]->Value_0);
        assert(has_more(pages[i]));
    }
}

/// Rows and pages are read in their turn, each for itself.
pub proof fn lemma_rows_in_turn(
    a: Seq<JsonTree>,
    b: Seq<JsonTree>,
    row: JsonTree,
    historical: bool,
)
    ensures
        rows_of(a + b, historical) == rows_of(a, historical) + rows_of(b, historical),
        pages_of(a + b, historical) == pages_of(a, historical) + pages_of(b, historical),
        historical && row.field("state"@) == JsonTree::Text("OPEN"@) ==> rows_of(
            seq![row],
            historical,
        ).len() == 0,
        row_of(row, historical) is None ==> rows_of(seq![row], historical).len() == 0,
        !(historical && row.field("state"@) == JsonTree::Text("OPEN"@)) && row_of(
            row,
            historical,
        ) is Some ==> rows_of(seq![row], historical) == seq![row_of(row, historical)->0],
        pages_of(seq![row], historical) == rows_of(row.field("values"@).elements(), historical),
    decreases b.len(),
{
    reveal_with_fuel(rows_of, 2);
    reveal_with_fuel(pages_of, 2);
    assert(seq![row].drop_last() =~= Seq::empty());
    assert(pages_of(seq![row], historical) =~= rows_of(
        row.field("values"@).elements(),
        historical,
    ));
    if row_of(row, historical) is Some {
        let one = row_of(row, historical)->0;
        assert(Seq::empty().push(one) =~= seq![one]);
    }
    if b.len() == 0 {
        assert(a + b =~= a);
        assert(rows_of(a, historical) + rows_of(b, historical) =~= rows_of(a, historical));
        assert(pages_of(a, historical) + pages_of(b, historical) =~= pages_of(a, historical));
    } else {
        lemma_rows_in_turn(a, b.drop_last(), row, historical);
        assert((a + b).drop_last() =~= a + b.drop_last());
        assert(rows_of(a + b, historical) =~= rows_of(a, historical) + rows_of(b, historical));
        assert(pages_of(a + b, historical) =~= pages_of(a, historical) + pages_of(b, historical));
    }
}

/// The pull requests stand in the order in which their numbers come first.
pub proof fn lemma_unique_in_order(rows: Seq<AssocPrModel>, i: int, j: int, q: int)
    requires
        0 <= i < j < unique(rows).len(),
        0 <= q < rows.len(),
        rows[q].number == unique(rows)[j].number,
    ensures
        has_number(rows.take(q), unique(rows)[i].number),
    decreases rows.len(),
{
    let before = rows.drop_last();
    let last = rows.last();
    let known = unique(before);
    let all = unique(rows);
    lemma_unique(before);
    lemma_unique(rows);
    if q < rows.len() - 1 {
        assert(before[q] == rows[q]);
        assert(has_number(before, all[j].number));
        assert(has_number(known, all[j].number));
        let k = choose|k: int| 0 <= k < known.len() && (#[trigger] known[k]).number
            == all[j].number;
        assert(all[k] == known[k]);
        assert(k == j);
        lemma_unique_in_order(before, i, j, q);
        assert(before.take(q) =~= rows.take(q));
    } else {
        assert(rows.take(q) =~= before);
        assert(known[i] == all[i]);
        assert(has_number(known, all[i].number));
    }
}

}
