//! The pull requests of a branch, from the listings of the forge.

use vstd::prelude::*;

use crate::bitbucket::errors::{
    classified, classify, died, panicked, BitbucketError, ErrorModel, SpawnFail,
};
use crate::bitbucket::normalize::{assoc_pr, has_more, is_truncated, row_of};
use crate::bitbucket::tool::{output_model, OutputModel};
use crate::forge::{
    assoc_pr_models, has_number, push_unique, with_unique, AssocPr, AssocPrModel, Association,
    AssociationModel,
};
use crate::json::{parse, parsed_json, Json, JsonTree};

verus! {

/// A response of the forge, or how the request failed.
pub enum ResponseModel {
    Value(JsonTree),
    Fail(ErrorModel),
}

/// What a response stands for.
pub open spec fn response_model(response: Result<Json, BitbucketError>) -> ResponseModel {
    match response {
        Ok(json) => ResponseModel::Value(json@),
        Err(error) => ResponseModel::Fail(error@),
    }
}

/// What the responses stand for.
pub open spec fn response_models(responses: Seq<Result<Json, BitbucketError>>) -> Seq<
    ResponseModel,
> {
    responses.map_values(|response: Result<Json, BitbucketError>| response_model(response))
}

/// The response that the output of `curl` means.
pub open spec fn response_of(output: OutputModel) -> ResponseModel {
    match output {
        OutputModel::Text(text) => match parsed_json(text) {
            Ok(value) => ResponseModel::Value(value),
            Err(message) => ResponseModel::Fail(ErrorModel::Other(message)),
        },
        OutputModel::Fail(fail) => ResponseModel::Fail(classified(fail)),
    }
}

/// Reads the response from the output of `curl`.
pub fn read_output(output: Result<String, SpawnFail>) -> (response: Result<Json, BitbucketError>)
    ensures
        response_model(response) == response_of(output_model(output)),
{
    match output {
        Ok(text) => match parse(text.as_str()) {
            Ok(json) => Ok(json),
            Err(message) => Err(BitbucketError::Other(message)),
        },
        Err(fail) => Err(classify(fail)),
    }
}

/// What a reader that ran beside others gave.
#[derive(Debug)]
pub enum Reply {
    Output(Result<String, SpawnFail>),
    Panicked,
}

/// What a [`Reply`] stands for.
pub enum ReplyModel {
    Output(OutputModel),
    Panicked,
}

impl View for Reply {
    type V = ReplyModel;

    open spec fn view(&self) -> ReplyModel {
        match *self {
            Reply::Output(output) => ReplyModel::Output(output_model(output)),
            Reply::Panicked => ReplyModel::Panicked,
        }
    }
}

/// The response that the reply of the reader of `surface` means.
pub open spec fn response_to(surface: Seq<char>, reply: ReplyModel) -> ResponseModel {
    match reply {
        ReplyModel::Output(output) => response_of(output),
        ReplyModel::Panicked => ResponseModel::Fail(panicked(surface)),
    }
}

/// Reads the response from the reply of the reader of `surface`.
pub fn read_reply(surface: &str, reply: Reply) -> (response: Result<Json, BitbucketError>)
    ensures
        response_model(response) == response_to(surface@, reply@),
{
    match reply {
        Reply::Output(output) => read_output(output),
        Reply::Panicked => Err(died(surface)),
    }
}

/// The pull requests that the rows tell of; in a listing of the past an open one does not count.
pub open spec fn rows_of(rows: Seq<JsonTree>, historical: bool) -> Seq<AssocPrModel>
    decreases rows.len(),
{
    if rows.len() == 0 {
        Seq::empty()
    } else {
        let before = rows_of(rows.drop_last(), historical);
        let row = rows.last();
        if historical && row.field("state"@).text() == Some("OPEN"@) {
            before
        } else {
            match row_of(row, historical) {
                Some(pr) => before.push(pr),
                None => before,
            }
        }
    }
}

/// The pull requests of all pages in turn.
pub open spec fn pages_of(pages: Seq<JsonTree>, historical: bool) -> Seq<AssocPrModel>
    decreases pages.len(),
{
    if pages.len() == 0 {
        Seq::empty()
    } else {
        pages_of(pages.drop_last(), historical) + rows_of(
            pages.last().field("values"@).elements(),
            historical,
        )
    }
}

/// The pull requests with those of `rows` behind them whose numbers are not there yet.
pub open spec fn joined(prs: Seq<AssocPrModel>, rows: Seq<AssocPrModel>) -> Seq<AssocPrModel>
    decreases rows.len(),
{
    if rows.len() == 0 {
        prs
    } else {
        with_unique(joined(prs, rows.drop_last()), rows.last())
    }
}

/// The pull requests, each number once, where it comes first.
pub open spec fn unique(rows: Seq<AssocPrModel>) -> Seq<AssocPrModel> {
    joined(Seq::empty(), rows)
}

proof fn lemma_joined_twice(
    prs: Seq<AssocPrModel>,
    rows: Seq<AssocPrModel>,
    more: Seq<AssocPrModel>,
)
    ensures
        joined(joined(prs, rows), more) == joined(prs, rows + more),
    decreases more.len(),
{
    if more.len() == 0 {
        assert(rows + more =~= rows);
    } else {
        lemma_joined_twice(prs, rows, more.drop_last());
        assert((rows + more).drop_last() =~= rows + more.drop_last());
        assert((rows + more).last() == more.last());
    }
}

/// Adds the pull requests of a page to those already known.
fn add_page(prs: &mut Vec<AssocPr>, page: &Json, historical: bool)
    ensures
        assoc_pr_models(final(prs)@) == joined(
            assoc_pr_models(old(prs)@),
            rows_of(page@.field("values"@).elements(), historical),
        ),
{
    let values = page.field("values");
    let ghost all = values@.elements();
    let ghost known = assoc_pr_models(prs@);
    let count: usize = values.count();
    let mut i: usize = 0;
    assert(all.take(0) =~= Seq::empty());
    while i < count
        invariant
            0 <= i <= count == all.len(),
            all == values@.elements(),
            assoc_pr_models(prs@) == joined(known, rows_of(all.take(i as int), historical)),
        decreases count - i,
    {
        let row = values.element(i);
        let ghost upto = all.take(i + 1);
        assert(upto.drop_last() =~= all.take(i as int));
        assert(upto.last() == row@);
        if !(historical && row.field("state").is_text("OPEN")) {
            if let Some(pr) = assoc_pr(row, historical) {
                let ghost before = rows_of(all.take(i as int), historical);
                assert(before.push(pr@).drop_last() =~= before);
                push_unique(prs, pr);
            }
        }
        i = i + 1;
    }
    assert(all.take(all.len() as int) =~= all);
}

/// The first failure among the responses.
pub open spec fn first_failure(responses: Seq<ResponseModel>) -> Option<ErrorModel>
    decreases responses.len(),
{
    if responses.len() == 0 {
        None
    } else {
        match first_failure(responses.drop_last()) {
            Some(error) => Some(error),
            None => match responses.last() {
                ResponseModel::Fail(error) => Some(error),
                ResponseModel::Value(_) => None,
            },
        }
    }
}

/// The values of the responses that have one.
pub open spec fn values_of(responses: Seq<ResponseModel>) -> Seq<JsonTree> {
    responses.map_values(|response: ResponseModel| response->Value_0)
}

/// Whether one of the listings holds more than its page.
pub open spec fn any_has_more(pages: Seq<JsonTree>) -> bool {
    exists|i: int| 0 <= i < pages.len() && has_more(#[trigger] pages[i])
}

/// What the listings tell of the branch.
pub enum AssociatedModel {
    /// The pull requests, and whether there are more.
    Known(AssociationModel, bool),
    Fail(ErrorModel),
}

/// What the listings for `names` candidate names tell: the first failure among them, or else the
/// pull requests of the open listings and those of the historical ones.
pub open spec fn associated(responses: Seq<ResponseModel>, names: int) -> AssociatedModel {
    match first_failure(responses) {
        Some(error) => AssociatedModel::Fail(error),
        None => {
            let pages = values_of(responses);
            AssociatedModel::Known(
                AssociationModel {
                    open: unique(pages_of(pages.take(names), false)),
                    history: unique(pages_of(pages.skip(names), true)),
                },
                any_has_more(pages),
            )
        },
    }
}

/// What the listings told of the branch.
pub open spec fn associated_model(
    associated: Result<(Association, bool), BitbucketError>,
) -> AssociatedModel {
    match associated {
        Ok((association, truncated)) => AssociatedModel::Known(association@, truncated),
        Err(error) => AssociatedModel::Fail(error@),
    }
}

/// Folds the listings of a branch, the open ones for all its candidate names and then the
/// historical ones, into its pull requests, and tells whether there are more.
pub fn associate_by_branch(
    responses: Vec<Result<Json, BitbucketError>>,
    names: usize,
) -> (associated: Result<(Association, bool), BitbucketError>)
    requires
        responses.len() == 2 * names,
    ensures
        associated_model(associated) == self::associated(response_models(responses@), names as int),
{
    let total: usize = responses.len();
    let ghost source = responses@;
    let ghost all = response_models(source);
    let ghost pages = values_of(all);
    let mut open: Vec<AssocPr> = Vec::new();
    let mut history: Vec<AssocPr> = Vec::new();
    let mut truncated = false;
    let mut i: usize = 0;
    assert(pages.take(0) =~= Seq::empty());
    assert(all.take(0) =~= Seq::empty());
    assert(assoc_pr_models(open@) =~= Seq::empty());
    assert(assoc_pr_models(history@) =~= Seq::empty());
    for response in it: responses
        invariant
            it.seq() == source,
            i == it.index(),
            source.len() == 2 * names == total,
            all == response_models(source),
            pages == values_of(all),
            first_failure(all.take(i as int)) is None,
            truncated == any_has_more(pages.take(i as int)),
            i <= names ==> {
                &&& assoc_pr_models(open@) == unique(pages_of(pages.take(i as int), false))
                &&& assoc_pr_models(history@) == Seq::<AssocPrModel>::empty()
            },
            i >= names ==> {
                &&& assoc_pr_models(open@) == unique(pages_of(pages.take(names as int), false))
                &&& assoc_pr_models(history@) == unique(
                    pages_of(pages.subrange(names as int, i as int), true),
                )
            },
    {
        let ghost upto = all.take(i + 1);
        assert(upto.drop_last() =~= all.take(i as int));
        assert(upto.last() == response_model(response));
        match response {
            Ok(page) => {
                assert(pages[i as int] == page@);
                let ghost seen = pages.take(i + 1);
                assert(seen =~= pages.take(i as int).push(page@));
                let more = is_truncated(&page);
                proof {
                    lemma_has_more_push(pages.take(i as int), page@);
                }
                if more {
                    truncated = true;
                }
                if i < names {
                    add_page(&mut open, &page, false);
                    proof {
                        assert(seen.drop_last() =~= pages.take(i as int));
                        lemma_joined_twice(
                            Seq::empty(),
                            pages_of(pages.take(i as int), false),
                            rows_of(page@.field("values"@).elements(), false),
                        );
                        assert(pages.subrange(names as int, names as int) =~= Seq::empty());
                    }
                } else {
                    add_page(&mut history, &page, true);
                    proof {
                        let past = pages.subrange(names as int, i + 1);
                        assert(past.drop_last() =~= pages.subrange(names as int, i as int));
                        assert(past.last() == page@);
                        lemma_joined_twice(
                            Seq::empty(),
                            pages_of(pages.subrange(names as int, i as int), true),
                            rows_of(page@.field("values"@).elements(), true),
                        );
                    }
                }
            },
            Err(error) => {
                proof {
                    lemma_first_failure(all, i + 1);
                }
                return Err(error);
            },
        }
        i = i + 1;
    }
    assert(all.take(all.len() as int) =~= all);
    assert(pages.take(pages.len() as int) =~= pages);
    assert(pages.subrange(names as int, pages.len() as int) =~= pages.skip(names as int));
    Ok((Association { open, history }, truncated))
}

proof fn lemma_has_more_push(pages: Seq<JsonTree>, page: JsonTree)
    ensures
        any_has_more(pages.push(page)) == (any_has_more(pages) || has_more(page)),
{
    let longer = pages.push(page);
    if any_has_more(pages) {
        let i = choose|i: int| 0 <= i < pages.len() && has_more(#[trigger] pages[i]);
        assert(longer[i] == pages[i]);
    }
    if has_more(page) {
        assert(longer[pages.len() as int] == page);
    }
    if any_has_more(longer) {
        let i = choose|i: int| 0 <= i < longer.len() && has_more(#[trigger] longer[i]);
        if i < pages.len() {
            assert(pages[i] == longer[i]);
        }
    }
}

proof fn lemma_first_failure(responses: Seq<ResponseModel>, n: int)
    requires
        0 <= n <= responses.len(),
        first_failure(responses.take(n)) is Some,
    ensures
        first_failure(responses) == first_failure(responses.take(n)),
    decreases responses.len() - n,
{
    if n == responses.len() {
        assert(responses.take(n) =~= responses);
    } else {
        assert(responses.take(n + 1).drop_last() =~= responses.take(n));
        lemma_first_failure(responses, n + 1);
    }
}

/// Whether no two of the pull requests have one number.
pub open spec fn numbers_differ(prs: Seq<AssocPrModel>) -> bool {
    forall|i: int, j: int|
        0 <= i < j < prs.len() ==> (#[trigger] prs[i]).number != (#[trigger] prs[j]).number
}

/// Whether the pull request is the first of the rows with its number.
pub open spec fn is_first_of_number(rows: Seq<AssocPrModel>, pr: AssocPrModel) -> bool {
    exists|i: int|
        0 <= i < rows.len() && #[trigger] rows[i] == pr && !has_number(rows.take(i), pr.number)
}

/// Of the rows with one number the first stays, and no other.
pub proof fn lemma_unique(rows: Seq<AssocPrModel>)
    ensures
        numbers_differ(unique(rows)),
        forall|i: int|
            0 <= i < unique(rows).len() ==> is_first_of_number(rows, #[trigger] unique(rows)[i]),
        forall|number: u64| #[trigger] has_number(unique(rows), number) == has_number(rows, number),
    decreases rows.len(),
{
    if rows.len() > 0 {
        let before = unique(rows.drop_last());
        let last = rows.last();
        lemma_unique(rows.drop_last());
        assert(rows =~= rows.drop_last().push(last));
        lemma_has_number_push(rows.drop_last(), last);
        lemma_has_number_push(before, last);
        assert forall|i: int| 0 <= i < unique(rows).len() implies is_first_of_number(
            rows,
            #[trigger] unique(rows)[i],
        ) by {
            if i < before.len() {
                let earlier = rows.drop_last();
                let pr = before[i];
                assert(is_first_of_number(earlier, pr));
                let k = choose|k: int|
                    0 <= k < earlier.len() && #[trigger] earlier[k] == pr && !has_number(
                        earlier.take(k),
                        pr.number,
                    );
                assert(earlier.take(k) =~= rows.take(k));
                assert(rows[k] == pr);
            } else {
                assert(rows.take(rows.len() - 1) =~= rows.drop_last());
                assert(rows[rows.len() - 1] == last);
            }
        }
        if !has_number(before, last.number) {
            let longer = before.push(last);
            assert forall|i: int, j: int| 0 <= i < j < longer.len() implies (
            #[trigger] longer[i]).number != (#[trigger] longer[j]).number by {
                assert(longer[i] == before[i]);
                if j < before.len() {
                    assert(longer[j] == before[j]);
                }
            }
        }
    }
}

proof fn lemma_has_number_push(prs: Seq<AssocPrModel>, pr: AssocPrModel)
    ensures
        forall|number: u64|
            #[trigger] has_number(prs.push(pr), number) == (has_number(prs, number) || pr.number
                == number),
{
    let longer = prs.push(pr);
    assert forall|number: u64| #[trigger] has_number(longer, number) == (has_number(prs, number)
        || pr.number == number) by {
        if has_number(prs, number) {
            let i = choose|i: int| 0 <= i < prs.len() && (#[trigger] prs[i]).number == number;
            assert(longer[i] == prs[i]);
        }
        if pr.number == number {
            assert(longer[prs.len() as int] == pr);
        }
        if has_number(longer, number) {
            let i = choose|i: int| 0 <= i < longer.len() && (#[trigger] longer[i]).number == number;
            if i < prs.len() {
                assert(prs[i] == longer[i]);
            }
        }
    }
}

}
