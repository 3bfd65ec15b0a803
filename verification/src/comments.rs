//! The comments on a pull request, and how they are shown.

use vstd::prelude::*;

use crate::text::{ends_with, ends_with_text, is_before, same_text, text_before};

verus! {

/// Where a comment belongs.
#[derive(Debug, Clone, Copy, PartialEq, Eq, Structural)]
pub enum CommentKind {
    /// On a line or a file.
    Finding,
    /// On the pull request as a whole.
    Comment,
    /// The body of a review.
    Review,
}

/// A comment on a pull request.
#[derive(Debug)]
pub struct Comment {
    pub kind: CommentKind,
    pub author: String,
    pub author_is_bot: bool,
    /// What the comment is attached to.
    pub anchor: String,
    pub body: String,
    pub snippet: Option<String>,
    pub created_at: String,
    pub is_resolved: bool,
    pub is_outdated: bool,
    pub reply_count: u32,
}

/// What a [`Comment`] stands for.
pub struct CommentModel {
    pub kind: CommentKind,
    pub author: Seq<char>,
    pub author_is_bot: bool,
    pub anchor: Seq<char>,
    pub body: Seq<char>,
    pub snippet: Option<Seq<char>>,
    pub created_at: Seq<char>,
    pub is_resolved: bool,
    pub is_outdated: bool,
    pub reply_count: u32,
}

impl View for Comment {
    type V = CommentModel;

    open spec fn view(&self) -> CommentModel {
        CommentModel {
            kind: self.kind,
            author: self.author@,
            author_is_bot: self.author_is_bot,
            anchor: self.anchor@,
            body: self.body@,
            snippet: match self.snippet {
                Some(snippet) => Some(snippet@),
                None => None,
            },
            created_at: self.created_at@,
            is_resolved: self.is_resolved,
            is_outdated: self.is_outdated,
            reply_count: self.reply_count,
        }
    }
}

/// What the comments stand for.
pub open spec fn comment_models(comments: Seq<Comment>) -> Seq<CommentModel> {
    comments.map_values(|comment: Comment| comment@)
}

/// Whether the comment is a bot's on the pull request as a whole.
pub open spec fn is_plain_bot(comment: CommentModel) -> bool {
    comment.author_is_bot && comment.kind is Comment
}

/// The comments, newest first, with `comment` before all that are not newer.
pub open spec fn inserted(comments: Seq<CommentModel>, comment: CommentModel) -> Seq<CommentModel>
    decreases comments.len(),
{
    if comments.len() == 0 || !text_before(comment.created_at, comments.first().created_at) {
        seq![comment] + comments
    } else {
        seq![comments.first()] + inserted(comments.drop_first(), comment)
    }
}

/// The comments in the order of their times, newest first; those of one time keep their order.
pub open spec fn newest_first(comments: Seq<CommentModel>) -> Seq<CommentModel>
    decreases comments.len(),
{
    if comments.len() == 0 {
        comments
    } else {
        inserted(newest_first(comments.drop_first()), comments.first())
    }
}

/// Whether a plain comment of the bot `author` is among the comments.
pub open spec fn has_plain_bot(comments: Seq<CommentModel>, author: Seq<char>) -> bool {
    exists|i: int|
        0 <= i < comments.len() && is_plain_bot(#[trigger] comments[i]) && comments[i].author
            == author
}

/// The comments without a bot's plain comments behind its first one.
pub open spec fn collapsed(comments: Seq<CommentModel>) -> Seq<CommentModel>
    decreases comments.len(),
{
    if comments.len() == 0 {
        comments
    } else {
        let before = comments.drop_last();
        let last = comments.last();
        if is_plain_bot(last) && has_plain_bot(before, last.author) {
            collapsed(before)
        } else {
            collapsed(before).push(last)
        }
    }
}

/// The comments as they are shown: newest first, and of a bot's plain comments the latest alone.
pub open spec fn finished(comments: Seq<CommentModel>) -> Seq<CommentModel> {
    collapsed(newest_first(comments))
}

/// Inserts the comment before all that are not newer.
fn insert_newest(comments: &mut Vec<Comment>, comment: Comment)
    ensures
        comment_models(final(comments)@) == inserted(comment_models(old(comments)@), comment@),
{
    let ghost all = comment_models(comments@);
    let mut i: usize = 0;
    assert(all.take(0) + inserted(all.skip(0), comment@) =~= inserted(all, comment@)) by {
        assert(all.skip(0) =~= all);
    }
    while i < comments.len() && is_before(
        comment.created_at.as_str(),
        comments[i].created_at.as_str(),
    )
        invariant
            0 <= i <= comments.len(),
            comments@ == old(comments)@,
            all == comment_models(comments@),
            inserted(all, comment@) == all.take(i as int) + inserted(all.skip(i as int), comment@),
        decreases comments.len() - i,
    {
        let ghost rest = all.skip(i as int);
        assert(rest.first() == comments[i as int]@);
        assert(rest.drop_first() =~= all.skip(i + 1));
        assert(all.take(i as int) + (seq![rest.first()] + inserted(all.skip(i + 1), comment@))
            =~= all.take(i + 1) + inserted(all.skip(i + 1), comment@));
        i = i + 1;
    }
    let ghost rest = all.skip(i as int);
    assert(i < comments.len() ==> rest.first() == comments[i as int]@);
    assert(all.take(i as int) + (seq![comment@] + rest) =~= all.insert(i as int, comment@));
    comments.insert(i, comment);
    assert(comment_models(comments@) =~= all.insert(i as int, comment@));
}

/// Tells whether a plain comment of the bot `author` is among the comments.
fn holds_plain_bot(comments: &Vec<Comment>, author: &str) -> (held: bool)
    ensures
        held == has_plain_bot(comment_models(comments@), author@),
{
    let ghost all = comment_models(comments@);
    let mut i: usize = 0;
    while i < comments.len()
        invariant
            0 <= i <= comments.len(),
            all == comment_models(comments@),
            forall|j: int|
                0 <= j < i ==> !(is_plain_bot(#[trigger] all[j]) && all[j].author == author@),
        decreases comments.len() - i,
    {
        let comment = &comments[i];
        assert(all[i as int] == comment@);
        let plain = match comment.kind {
            CommentKind::Comment => true,
            _ => false,
        };
        if comment.author_is_bot && plain && same_text(comment.author.as_str(), author) {
            return true;
        }
        i = i + 1;
    }
    false
}

/// Orders the comments newest first and leaves of a bot's plain comments the latest alone.
pub fn finish_comments(comments: &mut Vec<Comment>)
    ensures
        comment_models(final(comments)@) == finished(comment_models(old(comments)@)),
{
    let ghost all = comment_models(comments@);
    let mut sorted: Vec<Comment> = Vec::new();
    assert(all.skip(all.len() as int) =~= Seq::empty());
    assert(comment_models(sorted@) =~= Seq::empty());
    while comments.len() > 0
        invariant
            comments.len() <= all.len(),
            comment_models(comments@) == all.take(comments.len() as int),
            comment_models(sorted@) == newest_first(all.skip(comments.len() as int)),
        decreases comments.len(),
    {
        let ghost n = comments.len() as int;
        match comments.pop() {
            Some(comment) => {
                let ghost rest = all.skip(n - 1);
                assert(all.take(n)[n - 1] == comment@);
                assert(rest.first() == comment@);
                assert(rest.drop_first() =~= all.skip(n));
                insert_newest(&mut sorted, comment);
                assert(comment_models(comments@) =~= all.take(n - 1));
            },
            None => {},
        }
    }
    assert(all.skip(0) =~= all);
    let ghost order = newest_first(all);
    let mut kept: Vec<Comment> = Vec::new();
    let ghost source = sorted@;
    for comment in it: sorted
        invariant
            it.seq() == source,
            order == comment_models(source),
            comment_models(kept@) == collapsed(order.take(it.index())),
            forall|author: Seq<char>|
                #[trigger] has_plain_bot(comment_models(kept@), author) == has_plain_bot(
                    order.take(it.index()),
                    author,
                ),
    {
        let plain = match comment.kind {
            CommentKind::Comment => true,
            _ => false,
        };
        let ghost i = it.index();
        let ghost before = order.take(i);
        let ghost upto = order.take(i + 1);
        assert(upto.drop_last() =~= before);
        assert(upto.last() == comment@);
        let repeats = comment.author_is_bot && plain && holds_plain_bot(
            &kept,
            comment.author.as_str(),
        );
        let ghost old_kept = comment_models(kept@);
        proof {
            lemma_has_plain_bot_push(before, comment@);
            lemma_has_plain_bot_push(old_kept, comment@);
            assert(upto =~= before.push(comment@));
        }
        if !repeats {
            kept.push(comment);
            assert(comment_models(kept@) =~= old_kept.push(comment@));
        }
    }
    assert(order.take(order.len() as int) =~= order);
    *comments = kept;
}

proof fn lemma_has_plain_bot_push(comments: Seq<CommentModel>, comment: CommentModel)
    ensures
        forall|author: Seq<char>|
            #[trigger] has_plain_bot(comments.push(comment), author) == (has_plain_bot(
                comments,
                author,
            ) || (is_plain_bot(comment) && comment.author == author)),
{
    let longer = comments.push(comment);
    assert forall|author: Seq<char>| #[trigger] has_plain_bot(longer, author) == (has_plain_bot(
        comments,
        author,
    ) || (is_plain_bot(comment) && comment.author == author)) by {
        if has_plain_bot(comments, author) {
            let i = choose|i: int|
                0 <= i < comments.len() && is_plain_bot(#[trigger] comments[i])
                    && comments[i].author == author;
            assert(longer[i] == comments[i]);
        }
        if is_plain_bot(comment) && comment.author == author {
            assert(longer[comments.len() as int] == comment);
        }
        if has_plain_bot(longer, author) {
            let i = choose|i: int|
                0 <= i < longer.len() && is_plain_bot(#[trigger] longer[i]) && longer[i].author
                    == author;
            if i < comments.len() {
                assert(comments[i] == longer[i]);
            }
        }
    }
}

/// Whether the name is one that forges give to bots.
pub open spec fn is_bot_name(name: Seq<char>) -> bool {
    ends_with_text(name, "[bot]"@) || ends_with_text(name, "-bot"@)
}

/// Tells whether the name is one that forges give to bots.
pub fn is_named_bot(name: &str) -> (bot: bool)
    ensures
        bot == is_bot_name(name@),
{
    ends_with(name, "[bot]") || ends_with(name, "-bot")
}

/// Whether no comment is older than one behind it.
pub open spec fn is_newest_first(comments: Seq<CommentModel>) -> bool {
    forall|i: int, j: int|
        0 <= i < j < comments.len() ==> !text_before(
            (#[trigger] comments[i]).created_at,
            (#[trigger] comments[j]).created_at,
        )
}

proof fn lemma_inserted(comments: Seq<CommentModel>, comment: CommentModel)
    requires
        is_newest_first(comments),
    ensures
        is_newest_first(inserted(comments, comment)),
        inserted(comments, comment).to_multiset() == comments.to_multiset().insert(comment),
        inserted(comments, comment).len() == comments.len() + 1,
    decreases comments.len(),
{
    broadcast use vstd::seq_lib::group_to_multiset_ensures;

    let result = inserted(comments, comment);
    if comments.len() == 0 || !text_before(comment.created_at, comments.first().created_at) {
        assert forall|i: int, j: int| 0 <= i < j < result.len() implies !text_before(
            (#[trigger] result[i]).created_at,
            (#[trigger] result[j]).created_at,
        ) by {
            assert(result[j] == comments[j - 1]);
            if i > 0 {
                assert(result[i] == comments[i - 1]);
            } else if j > 1 {
                let first = comments.first().created_at;
                let later = comments[j - 1].created_at;
                assert(!text_before(first, later));
                if text_before(comment.created_at, later) {
                    lemma_not_before(first, later, comment.created_at);
                }
            }
        }
        assert(result =~= seq![comment] + comments);
        vstd::seq_lib::lemma_multiset_commutative(seq![comment], comments);
        assert(seq![comment].to_multiset() =~= vstd::multiset::Multiset::empty().insert(comment))
            by {
            assert(seq![comment] =~= Seq::empty().push(comment));
        }
        assert(result.to_multiset() =~= comments.to_multiset().insert(comment));
    } else {
        let first = comments.first();
        let rest = comments.drop_first();
        assert(is_newest_first(rest)) by {
            assert forall|i: int, j: int| 0 <= i < j < rest.len() implies !text_before(
                (#[trigger] rest[i]).created_at,
                (#[trigger] rest[j]).created_at,
            ) by {
                assert(rest[i] == comments[i + 1]);
                assert(rest[j] == comments[j + 1]);
            }
        }
        lemma_inserted(rest, comment);
        let tail = inserted(rest, comment);
        assert forall|i: int, j: int| 0 <= i < j < result.len() implies !text_before(
            (#[trigger] result[i]).created_at,
            (#[trigger] result[j]).created_at,
        ) by {
            assert(result[j] == tail[j - 1]);
            if i > 0 {
                assert(result[i] == tail[i - 1]);
            } else {
                assert(tail.to_multiset().contains(tail[j - 1]));
                if tail[j - 1] == comment {
                    crate::text::lemma_before_is_asymmetric(comment.created_at, first.created_at);
                } else {
                    assert(rest.to_multiset().contains(tail[j - 1]));
                    let k = rest.index_of(tail[j - 1]);
                    assert(rest.contains(tail[j - 1]));
                    assert(comments[k + 1] == tail[j - 1]);
                }
            }
        }
        assert(result.to_multiset() =~= tail.to_multiset().insert(first)) by {
            vstd::seq_lib::lemma_multiset_commutative(seq![first], tail);
            assert(seq![first] =~= Seq::empty().push(first));
        }
        assert(comments =~= seq![first] + rest);
        vstd::seq_lib::lemma_multiset_commutative(seq![first], rest);
        assert(seq![first] =~= Seq::empty().push(first));
        assert(comments.to_multiset() =~= rest.to_multiset().insert(first));
        assert(result.to_multiset() =~= comments.to_multiset().insert(comment));
    }
}

proof fn lemma_not_before(a: Seq<char>, b: Seq<char>, c: Seq<char>)
    requires
        !text_before(a, b),
        text_before(c, b),
    ensures
        text_before(c, a),
{
    crate::text::lemma_before_is_total(a, b);
    if text_before(b, a) {
        crate::text::lemma_before_is_transitive(c, b, a);
    }
}

/// Ordering the comments keeps each of them and puts no older one before a newer one.
pub proof fn lemma_newest_first(comments: Seq<CommentModel>)
    ensures
        is_newest_first(newest_first(comments)),
        newest_first(comments).to_multiset() == comments.to_multiset(),
        newest_first(comments).len() == comments.len(),
    decreases comments.len(),
{
    broadcast use vstd::seq_lib::group_to_multiset_ensures;

    if comments.len() > 0 {
        let first = comments.first();
        let rest = comments.drop_first();
        lemma_newest_first(rest);
        lemma_inserted(newest_first(rest), first);
        assert(comments =~= seq![first] + rest);
        vstd::seq_lib::lemma_multiset_commutative(seq![first], rest);
        assert(seq![first] =~= Seq::empty().push(first));
        assert(comments.to_multiset() =~= rest.to_multiset().insert(first));
    }
}

/// Whether no two of the comments are plain ones of one bot.
pub open spec fn one_plain_per_bot(comments: Seq<CommentModel>) -> bool {
    forall|i: int, j: int|
        0 <= i < j < comments.len() && is_plain_bot(#[trigger] comments[i]) && is_plain_bot(
            #[trigger] comments[j],
        ) ==> comments[i].author != comments[j].author
}

/// Whether a plain comment of the same bot, and no older one, is among the comments.
pub open spec fn is_covered(comments: Seq<CommentModel>, comment: CommentModel) -> bool {
    exists|k: int|
        0 <= k < comments.len() && is_plain_bot(#[trigger] comments[k]) && comments[k].author
            == comment.author && !text_before(comments[k].created_at, comment.created_at)
}

proof fn lemma_covered_push(comments: Seq<CommentModel>, last: CommentModel, comment: CommentModel)
    requires
        is_covered(comments, comment),
    ensures
        is_covered(comments.push(last), comment),
{
    let k = choose|k: int|
        0 <= k < comments.len() && is_plain_bot(#[trigger] comments[k]) && comments[k].author
            == comment.author && !text_before(comments[k].created_at, comment.created_at);
    assert(comments.push(last)[k] == comments[k]);
}

proof fn lemma_collapsed(comments: Seq<CommentModel>)
    requires
        is_newest_first(comments),
    ensures
        is_newest_first(collapsed(comments)),
        one_plain_per_bot(collapsed(comments)),
        forall|author: Seq<char>|
            #[trigger] has_plain_bot(collapsed(comments), author) == has_plain_bot(
                comments,
                author,
            ),
        forall|i: int|
            0 <= i < collapsed(comments).len() ==> comments.contains(
                #[trigger] collapsed(comments)[i],
            ),
        forall|i: int|
            0 <= i < comments.len() && is_plain_bot(#[trigger] comments[i]) ==> is_covered(
                collapsed(comments),
                comments[i],
            ),
        forall|comment: CommentModel|
            !is_plain_bot(comment) ==> #[trigger] collapsed(comments).to_multiset().count(comment)
                == comments.to_multiset().count(comment),
        forall|comment: CommentModel|
            #[trigger] collapsed(comments).to_multiset().count(comment)
                <= comments.to_multiset().count(comment),
    decreases comments.len(),
{
    broadcast use vstd::seq_lib::group_to_multiset_ensures;

    if comments.len() > 0 {
        let before = comments.drop_last();
        let last = comments.last();
        let n = before.len() as int;
        assert(comments =~= before.push(last));
        assert(is_newest_first(before)) by {
            assert forall|i: int, j: int| 0 <= i < j < before.len() implies !text_before(
                (#[trigger] before[i]).created_at,
                (#[trigger] before[j]).created_at,
            ) by {
                assert(before[i] == comments[i]);
                assert(before[j] == comments[j]);
            }
        }
        lemma_collapsed(before);
        let kept = collapsed(before);
        lemma_has_plain_bot_push(before, last);
        lemma_has_plain_bot_push(kept, last);
        let drops = is_plain_bot(last) && has_plain_bot(before, last.author);
        let result = collapsed(comments);
        // An element of `before` is not older than the last.
        assert forall|x: CommentModel| before.contains(x) implies !text_before(
            x.created_at,
            last.created_at,
        ) by {
            let k = before.index_of(x);
            assert(comments[k] == x);
            assert(comments[n] == last);
        }
        assert forall|i: int| 0 <= i < result.len() implies comments.contains(
            #[trigger] result[i],
        ) by {
            if i < kept.len() {
                assert(result[i] == kept[i]);
                let k = before.index_of(kept[i]);
                assert(comments[k] == kept[i]);
            } else {
                assert(comments[n] == last);
            }
        }
        if drops {
            let k = choose|k: int|
                0 <= k < kept.len() && is_plain_bot(#[trigger] kept[k]) && kept[k].author
                    == last.author;
            assert(has_plain_bot(kept, last.author));
            assert(before.contains(kept[k]));
            assert(is_covered(kept, last));
        } else {
            assert forall|i: int, j: int| 0 <= i < j < result.len() implies !text_before(
                (#[trigger] result[i]).created_at,
                (#[trigger] result[j]).created_at,
            ) by {
                assert(result[i] == kept[i]);
                if j < kept.len() {
                    assert(result[j] == kept[j]);
                }
            }
            assert forall|i: int, j: int|
                0 <= i < j < result.len() && is_plain_bot(#[trigger] result[i]) && is_plain_bot(
                    #[trigger] result[j],
                ) implies result[i].author != result[j].author by {
                assert(result[i] == kept[i]);
                if j < kept.len() {
                    assert(result[j] == kept[j]);
                } else if result[i].author == last.author {
                    assert(has_plain_bot(kept, last.author));
                }
            }
            if is_plain_bot(last) {
                assert(!text_before(last.created_at, last.created_at)) by {
                    if text_before(last.created_at, last.created_at) {
                        crate::text::lemma_before_is_asymmetric(last.created_at, last.created_at);
                    }
                }
                assert(result[kept.len() as int] == last);
                assert(is_covered(result, last));
            }
        }
        assert forall|i: int|
            0 <= i < comments.len() && is_plain_bot(#[trigger] comments[i]) implies is_covered(
            result,
            comments[i],
        ) by {
            if i < n {
                assert(before[i] == comments[i]);
                assert(is_covered(kept, before[i]));
                if !drops {
                    lemma_covered_push(kept, last, before[i]);
                }
            }
        }
    }
}

/// What finishing the comments does: they are newest first, a bot has at most one plain comment
/// left, and no older one than any it had; every other comment stays, and none is made up.
pub proof fn lemma_finished(comments: Seq<CommentModel>)
    ensures
        is_newest_first(finished(comments)),
        one_plain_per_bot(finished(comments)),
        forall|i: int|
            0 <= i < comments.len() && is_plain_bot(#[trigger] comments[i]) ==> is_covered(
                finished(comments),
                comments[i],
            ),
        forall|comment: CommentModel|
            !is_plain_bot(comment) ==> #[trigger] finished(comments).to_multiset().count(comment)
                == comments.to_multiset().count(comment),
        forall|comment: CommentModel|
            #[trigger] finished(comments).to_multiset().count(comment)
                <= comments.to_multiset().count(comment),
{
    broadcast use vstd::seq_lib::group_to_multiset_ensures;

    lemma_newest_first(comments);
    let order = newest_first(comments);
    lemma_collapsed(order);
    assert forall|i: int|
        0 <= i < comments.len() && is_plain_bot(#[trigger] comments[i]) implies is_covered(
        finished(comments),
        comments[i],
    ) by {
        assert(comments.contains(comments[i]));
        assert(comments.to_multiset().contains(comments[i]));
        assert(order.to_multiset().contains(comments[i]));
        assert(order.contains(comments[i]));
        let k = order.index_of(comments[i]);
        assert(order[k] == comments[i]);
    }
}

/// The comments of one time, in the order in which they stand.
pub open spec fn of_time(comments: Seq<CommentModel>, time: Seq<char>) -> Seq<CommentModel> {
    comments.filter(|comment: CommentModel| comment.created_at == time)
}

/// The plain comments of the bot `author`, in the order in which they stand.
pub open spec fn plain_of(comments: Seq<CommentModel>, author: Seq<char>) -> Seq<CommentModel> {
    comments.filter(
        |comment: CommentModel|
            comment.author_is_bot && comment.kind == CommentKind::Comment && comment.author
                == author,
    )
}

/// The comments that are no bot's, or on a line or a file, or of a review, in the order in which
/// they stand.
pub open spec fn of_people_or_places(comments: Seq<CommentModel>) -> Seq<CommentModel> {
    comments.filter(
        |comment: CommentModel| !comment.author_is_bot || comment.kind != CommentKind::Comment,
    )
}

proof fn lemma_single_filter(comment: CommentModel, pred: spec_fn(CommentModel) -> bool)
    ensures
        seq![comment].filter(pred) == if pred(comment) {
            seq![comment]
        } else {
            Seq::empty()
        },
{
    reveal_with_fuel(Seq::<_>::filter, 2);
    assert(seq![comment].drop_last() =~= Seq::empty());
    assert(seq![comment].filter(pred) =~= if pred(comment) {
        seq![comment]
    } else {
        Seq::empty()
    });
}

proof fn lemma_inserted_of_time(comments: Seq<CommentModel>, comment: CommentModel, time: Seq<char>)
    ensures
        of_time(inserted(comments, comment), time) == of_time(seq![comment] + comments, time),
    decreases comments.len(),
{
    let pred = |c: CommentModel| c.created_at == time;
    if comments.len() > 0 && text_before(comment.created_at, comments.first().created_at) {
        let first = comments.first();
        let rest = comments.drop_first();
        lemma_inserted_of_time(rest, comment, time);
        if comment.created_at == first.created_at {
            crate::text::lemma_before_is_asymmetric(comment.created_at, first.created_at);
        }
        lemma_single_filter(comment, pred);
        lemma_single_filter(first, pred);
        assert(comments =~= seq![first] + rest);
        Seq::filter_distributes_over_add(seq![first], inserted(rest, comment), pred);
        Seq::filter_distributes_over_add(seq![comment], rest, pred);
        Seq::filter_distributes_over_add(seq![first], rest, pred);
        Seq::filter_distributes_over_add(seq![comment], comments, pred);
        assert(of_time(inserted(comments, comment), time) =~= of_time(
            seq![comment] + comments,
            time,
        ));
    }
}

/// Ordering keeps the order of comments of one time.
pub proof fn lemma_order_is_stable(comments: Seq<CommentModel>, time: Seq<char>)
    ensures
        of_time(newest_first(comments), time) == of_time(comments, time),
    decreases comments.len(),
{
    if comments.len() > 0 {
        let pred = |c: CommentModel| c.created_at == time;
        let first = comments.first();
        let rest = comments.drop_first();
        lemma_order_is_stable(rest, time);
        lemma_inserted_of_time(newest_first(rest), first, time);
        Seq::filter_distributes_over_add(seq![first], newest_first(rest), pred);
        Seq::filter_distributes_over_add(seq![first], rest, pred);
        assert(comments =~= seq![first] + rest);
    }
}

proof fn lemma_collapsed_classes(comments: Seq<CommentModel>, author: Seq<char>)
    ensures
        of_people_or_places(collapsed(comments)) == of_people_or_places(comments),
        plain_of(collapsed(comments), author) == plain_of(comments, author).take(
            if plain_of(comments, author).len() > 0 {
                1
            } else {
                0
            },
        ),
        has_plain_bot(comments, author) == (plain_of(comments, author).len() > 0),
    decreases comments.len(),
{
    reveal(Seq::filter);
    let plain = |comment: CommentModel|
        comment.author_is_bot && comment.kind == CommentKind::Comment && comment.author == author;
    if comments.len() > 0 {
        let before = comments.drop_last();
        let last = comments.last();
        lemma_collapsed_classes(before, author);
        assert(comments =~= before.push(last));
        lemma_has_plain_bot_push(before, last);
        let kept = collapsed(before).push(last);
        assert(kept.drop_last() =~= collapsed(before));
        let earlier = plain_of(before, author);
        if plain(last) {
            assert(plain_of(comments, author) =~= earlier.push(last));
            assert(has_plain_bot(before, last.author) == (earlier.len() > 0));
            if earlier.len() > 0 {
                assert(plain_of(comments, author).take(1) =~= earlier.take(1));
            } else {
                assert(plain_of(kept, author) =~= plain_of(comments, author).take(1));
            }
        } else {
            assert(plain_of(comments, author) =~= earlier);
        }
    } else {
        assert(plain_of(comments, author).take(0) =~= Seq::empty());
    }
}

/// What is shown of the comments: those of people, and those on lines, files and reviews, all and
/// in the order of their times; and of each bot's other comments the first in that order alone.
pub proof fn lemma_what_is_shown(comments: Seq<CommentModel>, author: Seq<char>)
    ensures
        of_people_or_places(finished(comments)) == of_people_or_places(newest_first(comments)),
        plain_of(comments, author).len() == 0 ==> plain_of(finished(comments), author).len() == 0,
        plain_of(comments, author).len() > 0 ==> plain_of(finished(comments), author)
            == seq![plain_of(newest_first(comments), author).first()],
{
    let order = newest_first(comments);
    lemma_collapsed_classes(order, author);
    lemma_newest_first(comments);
    let plain = |comment: CommentModel|
        comment.author_is_bot && comment.kind == CommentKind::Comment && comment.author == author;
    lemma_same_kinds(comments, order, plain);
    if plain_of(comments, author).len() > 0 {
        assert(plain_of(order, author).take(1) =~= seq![plain_of(order, author).first()]);
    }
}

proof fn lemma_same_kinds(
    a: Seq<CommentModel>,
    b: Seq<CommentModel>,
    pred: spec_fn(CommentModel) -> bool,
)
    requires
        a.to_multiset() == b.to_multiset(),
    ensures
        (a.filter(pred).len() == 0) == (b.filter(pred).len() == 0),
{
    if a.filter(pred).len() > 0 {
        lemma_kinds_carry_over(a, b, pred);
    }
    if b.filter(pred).len() > 0 {
        lemma_kinds_carry_over(b, a, pred);
    }
}

proof fn lemma_kinds_carry_over(
    a: Seq<CommentModel>,
    b: Seq<CommentModel>,
    pred: spec_fn(CommentModel) -> bool,
)
    requires
        a.to_multiset() == b.to_multiset(),
        a.filter(pred).len() > 0,
    ensures
        b.filter(pred).len() > 0,
{
    broadcast use vstd::seq_lib::group_to_multiset_ensures;

    let one = a.filter(pred)[0];
    a.lemma_filter_pred(pred, 0);
    lemma_filtered_is_element(a, pred, 0);
    assert(a.to_multiset().contains(one));
    assert(b.contains(one));
    let k = b.index_of(one);
    b.lemma_filter_contains(pred, k);
    assert(b.filter(pred).contains(one));
}

proof fn lemma_filtered_is_element(
    a: Seq<CommentModel>,
    pred: spec_fn(CommentModel) -> bool,
    i: int,
)
    requires
        0 <= i < a.filter(pred).len(),
    ensures
        a.contains(a.filter(pred)[i]),
    decreases a.len(),
{
    reveal(Seq::filter);
    if a.len() > 0 {
        let before = a.drop_last();
        if i < before.filter(pred).len() {
            lemma_filtered_is_element(before, pred, i);
            let k = before.index_of(before.filter(pred)[i]);
            assert(a[k] == before[k]);
        } else {
            assert(a[a.len() - 1] == a.filter(pred)[i]);
        }
    }
}

/// A name is a bot's where it is something and then `[bot]` or `-bot`, and only there.
pub proof fn lemma_bot_names(start: Seq<char>, name: Seq<char>)
    ensures
        is_bot_name(start + "[bot]"@),
        is_bot_name(start + "-bot"@),
        is_bot_name(name) ==> name == name.take(name.len() - "[bot]"@.len()) + "[bot]"@ || name
            == name.take(name.len() - "-bot"@.len()) + "-bot"@,
{
    crate::text::lemma_ends_with(start, name, "[bot]"@);
    crate::text::lemma_ends_with(start, name, "-bot"@);
}

}
