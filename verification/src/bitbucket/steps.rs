//! What a fetch asks for and shows after each answer, stated on the answer itself.

use vstd::prelude::*;

use crate::bitbucket::association::{
    associated, response_of, response_to, AssociatedModel, ReplyModel, ResponseModel,
};
use crate::bitbucket::errors::{classified, ErrorModel, FailModel};
use crate::bitbucket::fetch::{
    surveyed, ActionModel, EventModel, FetchModel, Side, StageModel, Survey,
};
use crate::bitbucket::normalize::{checks_of, comments_of, merge_of, snapshot_of};
use crate::bitbucket::tool::OutputModel;
use crate::bitbucket::urls::{
    activities_address, base_url, checks_address, detail_address, listings, merge_address,
};
use crate::comments::finished;
use crate::forge::{Forge, Merge, PrViewModel, RepoModel, Sync};
use crate::json::{parsed_json, JsonTree};

verus! {

/// What a reply means: the value that its text writes, or the message of the reader where it
/// writes none; what `curl` reported; or the name of the surface where the reader panicked.
pub proof fn lemma_reply(surface: Seq<char>, text: Seq<char>, fail: FailModel)
    ensures
        parsed_json(text) is Ok ==> response_to(
            surface,
            ReplyModel::Output(OutputModel::Text(text)),
        ) == ResponseModel::Value(parsed_json(text)->Ok_0),
        parsed_json(text) is Err ==> response_to(
            surface,
            ReplyModel::Output(OutputModel::Text(text)),
        ) == ResponseModel::Fail(ErrorModel::Other(parsed_json(text)->Err_0)),
        response_to(surface, ReplyModel::Output(OutputModel::Fail(fail))) == ResponseModel::Fail(
            classified(fail),
        ),
        response_to(surface, ReplyModel::Panicked) == ResponseModel::Fail(
            ErrorModel::Other(surface + " read panicked"@),
        ),
        response_of(OutputModel::Text(text)) == response_to(
            surface,
            ReplyModel::Output(OutputModel::Text(text)),
        ),
        response_of(OutputModel::Fail(fail)) == ResponseModel::Fail(classified(fail)),
{
}

/// Both repositories are asked on the target's host, each by its own owner and name.
pub proof fn lemma_both_sides_on_host(fetch: FetchModel, fork: RepoModel)
    ensures
        fetch.base(Side::Target) == base_url(
            fetch.target.host,
            fetch.target.owner,
            fetch.target.name,
        ),
        fetch.fork == Some(fork) ==> fetch.base(Side::Fork) == base_url(
            fetch.target.host,
            fork.owner,
            fork.name,
        ),
{
}

/// Whether a pull request can be merged is asked where the detail says that it is open, whatever
/// else it says, and only there; its checks where the detail has a head commit, and only there;
/// its comments always.
pub proof fn lemma_survey(fetch: FetchModel, side: Side, id: u64, detail: JsonTree)
    ensures
        detail.field("state"@) == JsonTree::Text("OPEN"@) ==> fetch.survey(side, id, detail).merge
            == Some(merge_address(fetch.base(side), id)),
        detail.field("state"@) != JsonTree::Text("OPEN"@) ==> fetch.survey(
            side,
            id,
            detail,
        ).merge is None,
        ({
            let head = detail.field("fromRef"@).field("latestCommit"@);
            let asked = fetch.survey(side, id, detail).checks;
            if head is Text && head->Text_0.len() > 0 {
                asked == Some(checks_address(fetch.target.host, head->Text_0))
            } else {
                asked is None
            }
        }),
        fetch.survey(side, id, detail).comments == activities_address(fetch.base(side), id),
{
}

/// The failures of the surfaces count in turn: that of the mergeability, of the checks, of the
/// comments.
pub proof fn lemma_surface_failures(
    detail: JsonTree,
    sync: Sync,
    truncated: bool,
    replies: Survey<ReplyModel>,
)
    ensures
        ({
            let merge_fails = replies.merge is Some && response_to(
                "merge"@,
                replies.merge->0,
            ) is Fail;
            let checks_fail = replies.checks is Some && response_to(
                "checks"@,
                replies.checks->0,
            ) is Fail;
            let comments_fail = response_to("comments"@, replies.comments) is Fail;
            let shown = surveyed(detail, sync, truncated, replies);
            &&& merge_fails ==> shown == Err::<PrViewModel, ErrorModel>(
                response_to("merge"@, replies.merge->0)->Fail_0,
            )
            &&& !merge_fails && checks_fail ==> shown == Err::<PrViewModel, ErrorModel>(
                response_to("checks"@, replies.checks->0)->Fail_0,
            )
            &&& !merge_fails && !checks_fail && comments_fail ==> shown == Err::<
                PrViewModel,
                ErrorModel,
            >(response_to("comments"@, replies.comments)->Fail_0)
            &&& !merge_fails && !checks_fail && !comments_fail ==> shown is Ok
                && shown->Ok_0 is Pr
        }),
{
}

/// The pull request shown has the mergeability that the reply to the question for it means, the
/// checks and the comments of their pages, and is truncated where a listing was, or where one of
/// the two pages says that it is not the last. What was not asked for is clean, and empty.
pub proof fn lemma_surfaces_shown(
    detail: JsonTree,
    sync: Sync,
    truncated: bool,
    replies: Survey<ReplyModel>,
)
    requires
        surveyed(detail, sync, truncated, replies) is Ok,
    ensures
        ({
            let view = surveyed(detail, sync, truncated, replies)->Ok_0;
            let merge = response_to("merge"@, replies.merge->0)->Value_0;
            let checks = response_to("checks"@, replies.checks->0)->Value_0;
            let comments = response_to("comments"@, replies.comments)->Value_0;
            let more_checks = replies.checks is Some && checks.field("isLastPage"@)
                == JsonTree::Bool(false);
            let more_comments = comments.field("isLastPage"@) == JsonTree::Bool(false);
            &&& view is Pr
            &&& replies.merge is Some ==> view->Pr_0.merge == merge_of(merge)
            &&& replies.merge is None ==> view->Pr_0.merge == Merge::Clean
            &&& replies.checks is Some ==> view->Pr_0.checks == checks_of(
                checks.field("values"@).elements(),
            )
            &&& replies.checks is None ==> view->Pr_0.checks.len() == 0
            &&& view->Pr_0.comments == finished(comments_of(comments.field("values"@).elements()))
            &&& view->Pr_0.sync == sync
            &&& view->Pr_0.truncated == (truncated || more_checks || more_comments)
            &&& view->Pr_0 == snapshot_of(
                detail,
                view->Pr_0.merge,
                view->Pr_0.checks,
                view->Pr_0.comments,
                sync,
                view->Pr_0.truncated,
            )
        }),
{
}

/// An open pull request, whatever else its detail says, shows the mergeability that the forge
/// answers; any other shows as clean.
pub proof fn lemma_open_shows_merge(
    fetch: FetchModel,
    side: Side,
    id: u64,
    truncated: bool,
    detail: JsonTree,
    sync: Sync,
    replies: Survey<ReplyModel>,
    answer: JsonTree,
)
    requires
        fetch.stage == (StageModel::Surfaces { side, id, truncated, detail, sync }),
        fetch.expects(EventModel::Surveyed(replies)),
        surveyed(detail, sync, truncated, replies) is Ok,
    ensures
        ({
            let shown = fetch.after(EventModel::Surveyed(replies)).1;
            let open = detail.field("state"@) == JsonTree::Text("OPEN"@);
            &&& shown is Show && shown->Show_0 is Pr
            &&& open ==> replies.merge is Some
            &&& open && response_to("merge"@, replies.merge->0) == ResponseModel::Value(answer)
                ==> shown->Show_0->Pr_0.merge == merge_of(answer)
            &&& !open ==> shown->Show_0->Pr_0.merge == Merge::Clean
        }),
{
    lemma_surfaces_shown(detail, sync, truncated, replies);
}

/// A fetch expects the search for the token first; the replies to as many listings as it asked
/// for, two for each name; the pick; the detail; the comparison; and a reply for each surface
/// that it asked for, and for no other.
pub proof fn lemma_expected(
    fetch: FetchModel,
    replies: Seq<ReplyModel>,
    surfaces: Survey<ReplyModel>,
    found: bool,
    pick: Result<Option<u64>, Seq<char>>,
    output: OutputModel,
    sync: Result<Sync, Seq<char>>,
)
    ensures
        fetch.expects(EventModel::Token(found)) <==> fetch.stage is Token,
        fetch.expects(EventModel::Listed(replies)) <==> fetch.stage is Listings && replies.len()
            == 2 * fetch.names.len(),
        fetch.expects(EventModel::Picked(pick)) <==> fetch.stage is Pick,
        fetch.expects(EventModel::Read(output)) <==> fetch.stage is Detail,
        fetch.expects(EventModel::Compared(sync)) <==> fetch.stage is Sync,
        fetch.stage matches StageModel::Surfaces { detail, .. } ==> {
            let head = detail.field("fromRef"@).field("latestCommit"@);
            fetch.expects(EventModel::Surveyed(surfaces)) <==> {
                &&& surfaces.merge is Some <==> detail.field("state"@) == JsonTree::Text("OPEN"@)
                &&& surfaces.checks is Some <==> head is Text && head->Text_0.len() > 0
            }
        },
        !(fetch.stage is Surfaces) ==> !fetch.expects(EventModel::Surveyed(surfaces)),
{
}

/// With a token the target is asked for its listings; without one the view says that the host
/// wants credentials.
pub proof fn lemma_after_token(fetch: FetchModel)
    requires
        fetch.stage is Token,
    ensures
        fetch.after(EventModel::Token(true)).1 == ActionModel::List(
            listings(fetch.base(Side::Target), fetch.names),
        ),
        fetch.after(EventModel::Token(true)).0 == (FetchModel {
            stage: StageModel::Listings { side: Side::Target, truncated: false },
            ..fetch
        }),
        fetch.after(EventModel::Token(false)).1 == ActionModel::Show(
            PrViewModel::NotAuthed(Forge::Bitbucket, fetch.target.host),
        ),
        fetch.after(EventModel::Token(false)).0.stage is Done,
{
}

/// What the listings tell goes to the pick, with the head that the fetch began with; whether
/// there is more is kept, from these listings and from those before them.
pub proof fn lemma_after_listings(
    fetch: FetchModel,
    side: Side,
    truncated: bool,
    replies: Seq<ReplyModel>,
)
    requires
        fetch.stage == (StageModel::Listings { side, truncated }),
    ensures
        ({
            let told = associated(
                replies.map_values(|reply: ReplyModel| response_to("listing"@, reply)),
                fetch.names.len() as int,
            );
            let after = fetch.after(EventModel::Listed(replies));
            &&& told matches AssociatedModel::Known(association, more) ==> {
                &&& after.1 == (ActionModel::Pick { association, head: fetch.head })
                &&& after.0 == (FetchModel {
                    stage: StageModel::Pick { side, truncated: truncated || more },
                    ..fetch
                })
            }
            &&& told matches AssociatedModel::Fail(error) ==> {
                &&& after.1 == ActionModel::Show(error.shown(fetch.target.host))
                &&& after.0.stage is Done
            }
        }),
{
}

/// A number that is picked is read of the side that it was picked from. Where the target has none,
/// its fork is asked, if there is one; where that has none either, there is no pull request. A
/// failure of the local repository is shown with its message.
pub proof fn lemma_after_pick(
    fetch: FetchModel,
    side: Side,
    truncated: bool,
    id: u64,
    message: Seq<char>,
)
    requires
        fetch.stage == (StageModel::Pick { side, truncated }),
    ensures
        ({
            let after = fetch.after(EventModel::Picked(Ok(Some(id))));
            &&& after.1 == ActionModel::Read(detail_address(fetch.base(side), id))
            &&& after.0 == (FetchModel {
                stage: StageModel::Detail { side, id, truncated },
                ..fetch
            })
        }),
        ({
            let after = fetch.after(EventModel::Picked(Ok(None)));
            if side == Side::Target && fetch.fork is Some {
                &&& after.1 == ActionModel::List(listings(fetch.base(Side::Fork), fetch.names))
                &&& after.0 == (FetchModel {
                    stage: StageModel::Listings { side: Side::Fork, truncated },
                    ..fetch
                })
            } else {
                &&& after.1 == ActionModel::Show(PrViewModel::NoPr)
                &&& after.0.stage is Done
            }
        }),
        fetch.after(EventModel::Picked(Err(message))).1 == ActionModel::Show(
            PrViewModel::GitError(message),
        ),
{
}

/// A detail with a number is compared with the head that the fetch began with, by its own head
/// commit; one without a number is no pull request; a failure is shown.
pub proof fn lemma_after_detail(
    fetch: FetchModel,
    side: Side,
    id: u64,
    truncated: bool,
    output: OutputModel,
)
    requires
        fetch.stage == (StageModel::Detail { side, id, truncated }),
    ensures
        ({
            let after = fetch.after(EventModel::Read(output));
            &&& response_of(output) matches ResponseModel::Fail(error) ==> after.1
                == ActionModel::Show(error.shown(fetch.target.host))
            &&& response_of(output) matches ResponseModel::Value(detail) ==> {
                let number = detail.field("id"@);
                let head = detail.field("fromRef"@).field("latestCommit"@);
                if number is Integer && 0 <= number->Integer_0 <= u64::MAX {
                    &&& after.1 is Compare
                    &&& after.1->Compare_head == fetch.head
                    &&& head is Text ==> after.1->Compare_commit == head->Text_0
                    &&& !(head is Text) ==> after.1->Compare_commit.len() == 0
                    &&& after.0 == (FetchModel {
                        stage: StageModel::Sync { side, id, truncated, detail },
                        ..fetch
                    })
                } else {
                    after.1 == ActionModel::Show(PrViewModel::NoPr)
                }
            }
        }),
{
}

/// After the comparison the surfaces are asked for; a failure of the local repository is shown
/// with its message.
pub proof fn lemma_after_sync(
    fetch: FetchModel,
    side: Side,
    id: u64,
    truncated: bool,
    detail: JsonTree,
    sync: Sync,
    message: Seq<char>,
)
    requires
        fetch.stage == (StageModel::Sync { side, id, truncated, detail }),
    ensures
        ({
            let after = fetch.after(EventModel::Compared(Ok(sync)));
            &&& after.1 is Survey
            &&& after.1->Survey_0.merge is Some <==> detail.field("state"@) == JsonTree::Text(
                "OPEN"@,
            )
            &&& after.1->Survey_0.merge is Some ==> after.1->Survey_0.merge->0 == merge_address(
                fetch.base(side),
                id,
            )
            &&& after.1->Survey_0 == fetch.survey(side, id, detail)
            &&& after.0 == (FetchModel {
                stage: StageModel::Surfaces { side, id, truncated, detail, sync },
                ..fetch
            })
        }),
        fetch.after(EventModel::Compared(Err(message))).1 == ActionModel::Show(
            PrViewModel::GitError(message),
        ),
{
}

/// After the surfaces the pull request is shown, or the failure of one of them.
pub proof fn lemma_after_survey(
    fetch: FetchModel,
    side: Side,
    id: u64,
    truncated: bool,
    detail: JsonTree,
    sync: Sync,
    replies: Survey<ReplyModel>,
)
    requires
        fetch.stage == (StageModel::Surfaces { side, id, truncated, detail, sync }),
    ensures
        ({
            let after = fetch.after(EventModel::Surveyed(replies));
            let view = surveyed(detail, sync, truncated, replies);
            &&& after.0.stage is Done
            &&& view is Ok ==> after.1 == ActionModel::Show(view->Ok_0)
            &&& view is Err ==> after.1 == ActionModel::Show(
                view->Err_0.shown(fetch.target.host),
            )
        }),
{
}

}
