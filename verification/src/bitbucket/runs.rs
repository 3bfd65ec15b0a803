//! What holds of a whole fetch, whatever the outside answers.

use vstd::prelude::*;

use crate::bitbucket::association::{
    associated, response_of, response_to, AssociatedModel, ReplyModel, ResponseModel,
};
use crate::bitbucket::errors::ErrorModel;
use crate::bitbucket::fetch::{
    head_of, is_open, surveyed, ActionModel, EventModel, FetchModel, Side, StageModel, Survey,
};
use crate::bitbucket::tool::OutputModel;
use crate::bitbucket::urls::{
    activities_address, base_url, checks_address, detail_address, listings, merge_address,
};
use crate::forge::{PrViewModel, Sync};
use crate::json::JsonTree;
use crate::text::starts_with_text;

verus! {

/// What the outside answers in the course of a fetch. A fetch asks for each thing at most once,
/// so that any answers can stand here, also different ones to equal requests: the events of
/// every fetch carry such answers (see [`lemma_any_end`]).
pub struct Answers {
    /// Whether there is a token.
    pub token: bool,
    /// What the reader of a listing of the repository on the side gave, by the listing's place.
    pub listed: spec_fn(Side, int) -> ReplyModel,
    /// Which pull request was picked from what the repository on the side told.
    pub picked: spec_fn(Side) -> Result<Option<u64>, Seq<char>>,
    /// What `curl` gave for the pull request.
    pub read: OutputModel,
    /// How the local head stands to that of the pull request.
    pub compared: Result<Sync, Seq<char>>,
    /// What the reader of the mergeability gave, where that was asked for.
    pub merge: ReplyModel,
    /// What the reader of the checks gave, where these were asked for.
    pub checks: ReplyModel,
    /// What the reader of the comments gave.
    pub comments: ReplyModel,
}

impl Answers {
    /// The replies of the readers of so many listings of the repository on the side.
    pub open spec fn listings_of(self, side: Side, count: nat) -> Seq<ReplyModel> {
        Seq::new(count, |i: int| (self.listed)(side, i))
    }

    /// The replies to the requests for the surfaces.
    pub open spec fn replies(self, urls: Survey<Seq<char>>) -> Survey<ReplyModel> {
        Survey {
            merge: match urls.merge {
                Some(_) => Some(self.merge),
                None => None,
            },
            checks: match urls.checks {
                Some(_) => Some(self.checks),
                None => None,
            },
            comments: self.comments,
        }
    }

    /// The answer to the action that the fetch asks for.
    pub open spec fn to(self, fetch: FetchModel, action: ActionModel) -> EventModel {
        match (fetch.stage, action) {
            (StageModel::Listings { side, .. }, ActionModel::List(urls)) => EventModel::Listed(
                self.listings_of(side, urls.len()),
            ),
            (StageModel::Pick { side, .. }, ActionModel::Pick { .. }) => EventModel::Picked(
                (self.picked)(side),
            ),
            (_, ActionModel::Read(_)) => EventModel::Read(self.read),
            (_, ActionModel::Compare { .. }) => EventModel::Compared(self.compared),
            (_, ActionModel::Survey(urls)) => EventModel::Surveyed(self.replies(urls)),
            _ => EventModel::Token(self.token),
        }
    }
}

/// Whether the action is one that the fetch asks for at its stage.
pub open spec fn asks(fetch: FetchModel, action: ActionModel) -> bool {
    match fetch.stage {
        StageModel::Token => action is FindToken,
        StageModel::Listings { side, .. } => action == ActionModel::List(
            listings(fetch.base(side), fetch.names),
        ),
        StageModel::Pick { .. } => action matches ActionModel::Pick { head, .. } && head
            == fetch.head,
        StageModel::Detail { side, id, .. } => action == ActionModel::Read(
            detail_address(fetch.base(side), id),
        ),
        StageModel::Sync { detail, .. } => action == (ActionModel::Compare {
            head: fetch.head,
            commit: head_of(detail),
        }),
        StageModel::Surfaces { side, id, detail, .. } => action == ActionModel::Survey(
            fetch.survey(side, id, detail),
        ),
        StageModel::Done => action is Show,
    }
}

/// Whether the fetch, which came from another, asks for what its stage says, for the branch, the
/// head and the repositories of the other.
spec fn goes_on(fetch: FetchModel, after: (FetchModel, ActionModel)) -> bool {
    asks(after.0, after.1) && after.0 == fetch.at(after.0.stage)
}

proof fn lemma_listings_go_on(
    fetch: FetchModel,
    side: Side,
    truncated: bool,
    replies: Seq<ReplyModel>,
)
    ensures
        goes_on(fetch, fetch.after_listings(side, truncated, replies)),
{
}

proof fn lemma_pick_goes_on(
    fetch: FetchModel,
    side: Side,
    truncated: bool,
    pick: Result<Option<u64>, Seq<char>>,
)
    ensures
        goes_on(fetch, fetch.after_pick(side, truncated, pick)),
{
}

proof fn lemma_detail_goes_on(
    fetch: FetchModel,
    side: Side,
    id: u64,
    truncated: bool,
    output: OutputModel,
)
    ensures
        goes_on(fetch, fetch.after_detail(side, id, truncated, output)),
{
}

proof fn lemma_sync_goes_on(
    fetch: FetchModel,
    side: Side,
    id: u64,
    truncated: bool,
    detail: JsonTree,
    sync: Result<Sync, Seq<char>>,
)
    ensures
        goes_on(fetch, fetch.after_sync(side, id, truncated, detail, sync)),
{
}

proof fn lemma_survey_goes_on(
    fetch: FetchModel,
    truncated: bool,
    detail: JsonTree,
    sync: Sync,
    replies: Survey<ReplyModel>,
)
    ensures
        goes_on(fetch, fetch.after_survey(truncated, detail, sync, replies)),
{
}

/// After an event that it expected, a fetch asks for what its new stage says, for the branch, the
/// head and the repositories that it began with.
proof fn lemma_step_asks(fetch: FetchModel, event: EventModel)
    requires
        fetch.expects(event),
    ensures
        goes_on(fetch, fetch.after(event)),
{
    match (fetch.stage, event) {
        (StageModel::Listings { side, truncated }, EventModel::Listed(replies)) => {
            lemma_listings_go_on(fetch, side, truncated, replies);
        },
        (StageModel::Pick { side, truncated }, EventModel::Picked(pick)) => {
            lemma_pick_goes_on(fetch, side, truncated, pick);
        },
        (StageModel::Detail { side, id, truncated }, EventModel::Read(output)) => {
            lemma_detail_goes_on(fetch, side, id, truncated, output);
        },
        (StageModel::Sync { side, id, truncated, detail }, EventModel::Compared(sync)) => {
            lemma_sync_goes_on(fetch, side, id, truncated, detail, sync);
        },
        (StageModel::Surfaces { truncated, detail, sync, .. }, EventModel::Surveyed(replies)) => {
            lemma_survey_goes_on(fetch, truncated, detail, sync, replies);
        },
        _ => {},
    }
}

/// The answer to what a fetch asks for is one that it expects.
proof fn lemma_answer_is_expected(fetch: FetchModel, action: ActionModel, answers: Answers)
    requires
        asks(fetch, action),
        !(action is Show),
    ensures
        fetch.expects(answers.to(fetch, action)),
{
}

/// A fetch that gets the answers to what it asks for expects each of them, and goes on to ask
/// for something, or to show its view. It stays with the head it began with: that is the head
/// by which a pull request is picked, and the head that is compared with it.
pub proof fn lemma_answers_are_expected(
    fetch: FetchModel,
    action: ActionModel,
    answers: Answers,
)
    requires
        asks(fetch, action),
        !(action is Show),
    ensures
        fetch.expects(answers.to(fetch, action)),
        asks(fetch.after(answers.to(fetch, action)).0, fetch.after(answers.to(fetch, action)).1),
        fetch.after(answers.to(fetch, action)).0.head == fetch.head,
{
    lemma_answer_is_expected(fetch, action, answers);
    lemma_step_asks(fetch, answers.to(fetch, action));
}

/// What a fetch shows within so many steps.
pub open spec fn run(
    fetch: FetchModel,
    action: ActionModel,
    answers: Answers,
    steps: nat,
) -> Option<PrViewModel>
    decreases steps,
{
    match action {
        ActionModel::Show(view) => Some(view),
        _ => if steps == 0 {
            None
        } else {
            let after = fetch.after(answers.to(fetch, action));
            run(after.0, after.1, answers, (steps - 1) as nat)
        },
    }
}

/// What the repository on the side tells of the branch.
pub open spec fn told(fetch: FetchModel, side: Side, answers: Answers) -> AssociatedModel {
    associated(
        answers.listings_of(side, 2 * fetch.names.len()).map_values(
            |reply: ReplyModel| response_to("listing"@, reply),
        ),
        fetch.names.len() as int,
    )
}

/// The pull request that is picked from what the repository on the side tells.
pub open spec fn picked(fetch: FetchModel, side: Side, answers: Answers) -> Result<
    Option<u64>,
    ErrorModel,
> {
    match told(fetch, side, answers) {
        AssociatedModel::Known(_, _) => match (answers.picked)(side) {
            Ok(number) => Ok(number),
            Err(message) => Err(ErrorModel::LocalGit(message)),
        },
        AssociatedModel::Fail(error) => Err(error),
    }
}

/// Whether the repository on the side has more than it told.
pub open spec fn has_untold(fetch: FetchModel, side: Side, answers: Answers) -> bool {
    told(fetch, side, answers) matches AssociatedModel::Known(_, more) && more
}

/// What is shown of the pull request `id` of the repository on the side.
pub open spec fn shown(
    fetch: FetchModel,
    side: Side,
    id: u64,
    truncated: bool,
    answers: Answers,
) -> PrViewModel {
    let host = fetch.target.host;
    match response_of(answers.read) {
        ResponseModel::Fail(error) => error.shown(host),
        ResponseModel::Value(detail) => if detail.field("id"@).unsigned() is None {
            PrViewModel::NoPr
        } else {
            match answers.compared {
                Err(message) => ErrorModel::LocalGit(message).shown(host),
                Ok(sync) => match surveyed(
                    detail,
                    sync,
                    truncated,
                    answers.replies(fetch.survey(side, id, detail)),
                ) {
                    Ok(view) => view,
                    Err(error) => error.shown(host),
                },
            }
        },
    }
}

/// What a fetch shows in the end: the pull request picked from the target, or else the one
/// picked from its fork, or how that failed.
pub open spec fn fetched(fetch: FetchModel, answers: Answers) -> PrViewModel {
    let host = fetch.target.host;
    if !answers.token {
        ErrorModel::NotAuthed.shown(host)
    } else {
        let untold = has_untold(fetch, Side::Target, answers);
        match picked(fetch, Side::Target, answers) {
            Err(error) => error.shown(host),
            Ok(Some(id)) => shown(fetch, Side::Target, id, untold, answers),
            Ok(None) => if fetch.fork is None {
                PrViewModel::NoPr
            } else {
                match picked(fetch, Side::Fork, answers) {
                    Err(error) => error.shown(host),
                    Ok(Some(id)) => shown(
                        fetch,
                        Side::Fork,
                        id,
                        untold || has_untold(fetch, Side::Fork, answers),
                        answers,
                    ),
                    Ok(None) => PrViewModel::NoPr,
                }
            },
        }
    }
}

/// From the detail of a pull request a fetch ends after three steps.
proof fn lemma_shown(
    fetch: FetchModel,
    side: Side,
    id: u64,
    truncated: bool,
    answers: Answers,
    steps: nat,
)
    requires
        fetch.stage == (StageModel::Detail { side, id, truncated }),
        steps >= 3,
    ensures
        run(fetch, ActionModel::Read(detail_address(fetch.base(side), id)), answers, steps) == Some(
            shown(fetch, side, id, truncated, answers),
        ),
{
    reveal_with_fuel(run, 4);
}

/// From the listings of the fork a fetch ends after five steps.
proof fn lemma_fork_shown(fetch: FetchModel, truncated: bool, answers: Answers, steps: nat)
    requires
        fetch.stage == (StageModel::Listings { side: Side::Fork, truncated }),
        steps >= 5,
    ensures
        run(
            fetch,
            ActionModel::List(listings(fetch.base(Side::Fork), fetch.names)),
            answers,
            steps,
        ) == Some(
            match picked(fetch, Side::Fork, answers) {
                Err(error) => error.shown(fetch.target.host),
                Ok(Some(id)) => shown(
                    fetch,
                    Side::Fork,
                    id,
                    truncated || has_untold(fetch, Side::Fork, answers),
                    answers,
                ),
                Ok(None) => PrViewModel::NoPr,
            },
        ),
{
    reveal_with_fuel(run, 3);
    let action = ActionModel::List(listings(fetch.base(Side::Fork), fetch.names));
    let (second, ask) = fetch.after(answers.to(fetch, action));
    if let AssociatedModel::Known(_, more) = told(fetch, Side::Fork, answers) {
        if let Ok(Some(id)) = (answers.picked)(Side::Fork) {
            let (third, read) = second.after(answers.to(second, ask));
            lemma_shown(third, Side::Fork, id, truncated || more, answers, (steps - 2) as nat);
        }
    }
}

/// Every fetch ends, after at most eight steps, with what [`fetched`] says: whatever fails on
/// the way, something is shown.
pub proof fn lemma_fetch_ends(fetch: FetchModel, answers: Answers)
    requires
        fetch.stage is Token,
    ensures
        run(fetch, ActionModel::FindToken, answers, 8) == Some(fetched(fetch, answers)),
{
    reveal_with_fuel(run, 4);
    let (first, list) = fetch.after(answers.to(fetch, ActionModel::FindToken));
    if answers.token {
        let (second, ask) = first.after(answers.to(first, list));
        if let AssociatedModel::Known(_, more) = told(fetch, Side::Target, answers) {
            let (third, next) = second.after(answers.to(second, ask));
            match (answers.picked)(Side::Target) {
                Ok(Some(id)) => {
                    lemma_shown(third, Side::Target, id, more, answers, 5);
                },
                Ok(None) => {
                    if fetch.fork is Some {
                        lemma_fork_shown(third, more, answers, 5);
                    }
                },
                Err(_) => {},
            }
        }
    }
}

/// A pull request of the target outranks any of a fork: where the target has one, it makes no
/// difference which fork there is, nor what that would tell.
pub proof fn lemma_target_outranks_fork(a: FetchModel, b: FetchModel, x: Answers, y: Answers)
    requires
        a.names == b.names,
        a.target == b.target,
        picked(a, Side::Target, x) matches Ok(Some(_)),
        y == (Answers { listed: y.listed, picked: y.picked, ..x }),
        forall|i: int| #[trigger] (y.listed)(Side::Target, i) == (x.listed)(Side::Target, i),
        (y.picked)(Side::Target) == (x.picked)(Side::Target),
    ensures
        fetched(a, x) == fetched(b, y),
{
    let count = 2 * a.names.len();
    assert(x.listings_of(Side::Target, count) =~= y.listings_of(Side::Target, count));
}

/// Without a token nothing is read: the fetch ends at once and names the host.
pub proof fn lemma_no_token_no_requests(fetch: FetchModel, answers: Answers)
    requires
        fetch.stage is Token,
        !answers.token,
    ensures
        run(fetch, ActionModel::FindToken, answers, 1) == Some(
            ErrorModel::NotAuthed.shown(fetch.target.host),
        ),
{
    reveal_with_fuel(run, 2);
}

/// A pull request that is not open shows as clean, and its mergeability is not asked for.
pub proof fn lemma_only_open_is_asked_for_merge(
    fetch: FetchModel,
    side: Side,
    id: u64,
    detail: JsonTree,
    sync: Sync,
    truncated: bool,
    answers: Answers,
)
    requires
        !is_open(detail),
    ensures
        fetch.survey(side, id, detail).merge is None,
        surveyed(
            detail,
            sync,
            truncated,
            answers.replies(fetch.survey(side, id, detail)),
        ) matches Ok(PrViewModel::Pr(snapshot)) ==> snapshot.merge is Clean,
{
}

/// Whether the URL is one of the host's REST interface.
pub open spec fn is_rest_url(host: Seq<char>, url: Seq<char>) -> bool {
    starts_with_text(url, "https://"@ + host + "/rest/"@)
}

/// Whether every URL that the action asks for is one of the host's REST interface.
pub open spec fn asks_rest_only(host: Seq<char>, action: ActionModel) -> bool {
    match action {
        ActionModel::List(urls) => forall|i: int|
            0 <= i < urls.len() ==> is_rest_url(host, #[trigger] urls[i]),
        ActionModel::Read(url) => is_rest_url(host, url),
        ActionModel::Survey(urls) => {
            &&& urls.merge matches Some(url) ==> is_rest_url(host, url)
            &&& urls.checks matches Some(url) ==> is_rest_url(host, url)
            &&& is_rest_url(host, urls.comments)
        },
        _ => true,
    }
}

proof fn lemma_is_rest_url(host: Seq<char>, path: Seq<char>, url: Seq<char>)
    requires
        path.len() >= 6,
        path.take(6) == "/rest/"@,
        starts_with_text(url, "https://"@ + host + path),
    ensures
        is_rest_url(host, url),
{
    reveal_strlit("/rest/");
    let whole = "https://"@ + host + path;
    let part = "https://"@ + host + "/rest/"@;
    assert(whole.take(part.len() as int) =~= part);
    assert(url.subrange(0, part.len() as int) =~= url.subrange(0, whole.len() as int).take(
        part.len() as int,
    ));
}

proof fn lemma_base_is_rest_url(host: Seq<char>, owner: Seq<char>, name: Seq<char>, url: Seq<char>)
    requires
        starts_with_text(url, base_url(host, owner, name)),
    ensures
        is_rest_url(host, url),
{
    reveal_strlit("/rest/");
    reveal_strlit("/rest/api/latest/projects/");
    let path = "/rest/api/latest/projects/"@;
    assert(path.take(6) =~= "/rest/"@);
    let whole = base_url(host, owner, name);
    let part = "https://"@ + host + path;
    assert(whole.take(part.len() as int) =~= part);
    assert(url.subrange(0, part.len() as int) =~= url.subrange(0, whole.len() as int).take(
        part.len() as int,
    ));
    lemma_is_rest_url(host, path, url);
}

/// A fetch never asks another host than its target's, and there nothing but the REST interface.
pub proof fn lemma_requests_stay_on_host(fetch: FetchModel, action: ActionModel)
    requires
        asks(fetch, action),
    ensures
        asks_rest_only(fetch.target.host, action),
{
    let host = fetch.target.host;
    match fetch.stage {
        StageModel::Listings { side, .. } => {
            let base = fetch.base(side);
            let repo = fetch.repo(side);
            let urls = listings(base, fetch.names);
            assert forall|i: int| 0 <= i < urls.len() implies is_rest_url(
                host,
                #[trigger] urls[i],
            ) by {
                assert(urls[i].subrange(0, base.len() as int) =~= base);
                lemma_base_is_rest_url(host, repo.owner, repo.name, urls[i]);
            }
        },
        StageModel::Detail { side, id, .. } => {
            let base = fetch.base(side);
            let repo = fetch.repo(side);
            let url = detail_address(base, id);
            assert(url.subrange(0, base.len() as int) =~= base);
            lemma_base_is_rest_url(host, repo.owner, repo.name, url);
        },
        StageModel::Surfaces { side, id, detail, .. } => {
            let base = fetch.base(side);
            let repo = fetch.repo(side);
            let merge = merge_address(base, id);
            assert(merge.subrange(0, base.len() as int) =~= base);
            lemma_base_is_rest_url(host, repo.owner, repo.name, merge);
            let comments = activities_address(base, id);
            assert(comments.subrange(0, base.len() as int) =~= base);
            lemma_base_is_rest_url(host, repo.owner, repo.name, comments);
            let checks = checks_address(host, head_of(detail));
            let path = "/rest/build-status/latest/commits/"@;
            let start = "https://"@ + host + path;
            reveal_strlit("/rest/");
            reveal_strlit("/rest/build-status/latest/commits/");
            assert(path.take(6) =~= "/rest/"@);
            assert(checks.subrange(0, start.len() as int) =~= start);
            lemma_is_rest_url(host, path, checks);
        },
        _ => {},
    }
}

/// Where a fetch stands after the events, and what it asks for then.
pub open spec fn followed(
    fetch: FetchModel,
    action: ActionModel,
    events: Seq<EventModel>,
) -> (FetchModel, ActionModel)
    decreases events.len(),
{
    if events.len() == 0 {
        (fetch, action)
    } else {
        followed(fetch, action, events.drop_last()).0.after(events.last())
    }
}

/// Whether the fetch expects each of the events when its turn comes.
pub open spec fn all_expected(
    fetch: FetchModel,
    action: ActionModel,
    events: Seq<EventModel>,
) -> bool
    decreases events.len(),
{
    events.len() > 0 ==> {
        &&& all_expected(fetch, action, events.drop_last())
        &&& followed(fetch, action, events.drop_last()).0.expects(events.last())
    }
}

/// How many events a fetch at the stage can still expect.
pub open spec fn events_left(stage: StageModel) -> int {
    match stage {
        StageModel::Token => 8,
        StageModel::Listings { side: Side::Target, .. } => 7,
        StageModel::Pick { side: Side::Target, .. } => 6,
        StageModel::Listings { side: Side::Fork, .. } => 5,
        StageModel::Pick { side: Side::Fork, .. } => 4,
        StageModel::Detail { .. } => 3,
        StageModel::Sync { .. } => 2,
        StageModel::Surfaces { .. } => 1,
        StageModel::Done => 0,
    }
}

/// What holds of a fetch after any events that it expected: it asks for what its stage says, of
/// its target's host and the REST interface there alone, for the branch, the head and the
/// repositories that it began with; and each event brings it closer to its end.
pub proof fn lemma_any_events(fetch: FetchModel, action: ActionModel, events: Seq<EventModel>)
    requires
        asks(fetch, action),
        all_expected(fetch, action, events),
    ensures
        ({
            let now = followed(fetch, action, events);
            &&& asks(now.0, now.1)
            &&& asks_rest_only(fetch.target.host, now.1)
            &&& now.0 == fetch.at(now.0.stage)
            &&& events_left(now.0.stage) + events.len() <= events_left(fetch.stage)
        }),
    decreases events.len(),
{
    if events.len() > 0 {
        lemma_any_events(fetch, action, events.drop_last());
        lemma_step_asks(followed(fetch, action, events.drop_last()).0, events.last());
    }
    let now = followed(fetch, action, events);
    lemma_requests_stay_on_host(now.0, now.1);
}

/// Whether the fetch reads the pull request `id` of the repository on the side, or is done.
pub open spec fn is_settled(fetch: FetchModel, side: Side, id: u64) -> bool {
    match fetch.stage {
        StageModel::Detail { side: s, id: n, .. } => s == side && n == id,
        StageModel::Sync { side: s, id: n, .. } => s == side && n == id,
        StageModel::Surfaces { side: s, id: n, .. } => s == side && n == id,
        StageModel::Done => true,
        _ => false,
    }
}

/// Whether the action is about the pull request `id` of the repository with the base URL: no
/// listing, no pick, and no URL of a repository but those of this pull request.
pub open spec fn is_about(base: Seq<char>, id: u64, action: ActionModel) -> bool {
    match action {
        ActionModel::Read(url) => url == detail_address(base, id),
        ActionModel::Compare { .. } => true,
        ActionModel::Survey(urls) => {
            &&& urls.merge matches Some(url) ==> url == merge_address(base, id)
            &&& urls.comments == activities_address(base, id)
        },
        ActionModel::Show(_) => true,
        _ => false,
    }
}

/// Once a pull request was picked from what the repository on the side told, a fetch stays with
/// it, whatever events follow: no repository is asked for listings any more, so that a fork is
/// never asked behind a pick from the target, and all that is read of a repository is read of
/// this pull request.
pub proof fn lemma_pick_settles(
    fetch: FetchModel,
    side: Side,
    truncated: bool,
    id: u64,
    action: ActionModel,
    events: Seq<EventModel>,
)
    requires
        fetch.stage == (StageModel::Pick { side, truncated }),
        asks(fetch, action),
        all_expected(fetch, action, events),
        events.len() > 0,
        events[0] == EventModel::Picked(Ok(Some(id))),
    ensures
        is_settled(followed(fetch, action, events).0, side, id),
        is_about(fetch.base(side), id, followed(fetch, action, events).1),
    decreases events.len(),
{
    let before = events.drop_last();
    lemma_any_events(fetch, action, before);
    lemma_any_events(fetch, action, events);
    if before.len() > 0 {
        lemma_pick_settles(fetch, side, truncated, id, action, before);
    } else {
        assert(followed(fetch, action, before) == (fetch, action));
    }
}

/// Whether the fetch knows that the forge holds more than was read.
pub open spec fn knows_of_more(stage: StageModel) -> bool {
    match stage {
        StageModel::Listings { truncated, .. } => truncated,
        StageModel::Pick { truncated, .. } => truncated,
        StageModel::Detail { truncated, .. } => truncated,
        StageModel::Sync { truncated, .. } => truncated,
        StageModel::Surfaces { truncated, .. } => truncated,
        _ => false,
    }
}

/// Whether a pull request that the action shows is shown as truncated.
pub open spec fn shows_truncated(action: ActionModel) -> bool {
    action matches ActionModel::Show(PrViewModel::Pr(snapshot)) ==> snapshot.truncated
}

proof fn lemma_survey_truncated(
    fetch: FetchModel,
    detail: JsonTree,
    sync: Sync,
    replies: Survey<ReplyModel>,
)
    ensures
        shows_truncated(fetch.after_survey(true, detail, sync, replies).1),
        fetch.after_survey(true, detail, sync, replies).0.stage is Done,
{
}

proof fn lemma_step_truncated(fetch: FetchModel, event: EventModel)
    requires
        fetch.expects(event),
        knows_of_more(fetch.stage),
    ensures
        shows_truncated(fetch.after(event).1),
        fetch.after(event).0.stage is Done || knows_of_more(fetch.after(event).0.stage),
{
    if let (StageModel::Surfaces { detail, sync, .. }, EventModel::Surveyed(replies)) = (
        fetch.stage,
        event,
    ) {
        lemma_survey_truncated(fetch, detail, sync, replies);
    }
}

/// Once a listing was not complete, a pull request is shown as truncated, whatever events
/// follow.
pub proof fn lemma_truncation_is_shown(
    fetch: FetchModel,
    action: ActionModel,
    events: Seq<EventModel>,
)
    requires
        asks(fetch, action),
        knows_of_more(fetch.stage),
        all_expected(fetch, action, events),
    ensures
        shows_truncated(followed(fetch, action, events).1),
        followed(fetch, action, events).0.stage is Done || knows_of_more(
            followed(fetch, action, events).0.stage,
        ),
    decreases events.len(),
{
    if events.len() > 0 {
        lemma_truncation_is_shown(fetch, action, events.drop_last());
        lemma_step_truncated(followed(fetch, action, events.drop_last()).0, events.last());
    }
}

/// Whether the fork was asked in the course of the events.
pub open spec fn fork_was_asked(events: Seq<EventModel>) -> bool {
    events.len() > 3 && events[3] is Listed
}

/// The event behind those up to a pick: the detail comes first there, then the comparison, then
/// the surfaces.
pub open spec fn behind_pick(events: Seq<EventModel>, i: int) -> EventModel {
    if fork_was_asked(events) {
        events[5 + i]
    } else {
        events[3 + i]
    }
}

/// The answers that the events of a fetch from its start carry.
pub open spec fn answers_in(events: Seq<EventModel>) -> Answers {
    let replies = behind_pick(events, 2)->Surveyed_0;
    Answers {
        token: events[0]->Token_0,
        listed: |side: Side, i: int|
            match side {
                Side::Target => events[1]->Listed_0[i],
                Side::Fork => events[3]->Listed_0[i],
            },
        picked: |side: Side|
            match side {
                Side::Target => events[2]->Picked_0,
                Side::Fork => events[4]->Picked_0,
            },
        read: behind_pick(events, 0)->Read_0,
        compared: behind_pick(events, 1)->Compared_0,
        merge: replies.merge->0,
        checks: replies.checks->0,
        comments: replies.comments,
    }
}

/// How many events come before the stage.
spec fn position(stage: StageModel) -> int {
    match stage {
        StageModel::Token => 0,
        StageModel::Listings { side: Side::Target, .. } => 1,
        StageModel::Pick { side: Side::Target, .. } => 2,
        StageModel::Listings { side: Side::Fork, .. } => 3,
        StageModel::Pick { side: Side::Fork, .. } => 4,
        StageModel::Detail { side: Side::Target, .. } => 3,
        StageModel::Sync { side: Side::Target, .. } => 4,
        StageModel::Surfaces { side: Side::Target, .. } => 5,
        StageModel::Detail { side: Side::Fork, .. } => 5,
        StageModel::Sync { side: Side::Fork, .. } => 6,
        StageModel::Surfaces { side: Side::Fork, .. } => 7,
        StageModel::Done => 8,
    }
}

/// Whether the events that led to the stage asked the fork where it says so.
spec fn fits(stage: StageModel, events: Seq<EventModel>) -> bool {
    match stage {
        StageModel::Pick { side: Side::Fork, .. } => fork_was_asked(events),
        StageModel::Detail { side: Side::Fork, .. } => fork_was_asked(events),
        StageModel::Sync { side, .. } => fork_was_asked(events) == (side == Side::Fork),
        StageModel::Surfaces { side, .. } => fork_was_asked(events) == (side == Side::Fork),
        _ => true,
    }
}

proof fn lemma_event_is_answer(
    now: FetchModel,
    action: ActionModel,
    events: Seq<EventModel>,
    k: int,
)
    requires
        0 <= k < events.len(),
        asks(now, action),
        now.expects(events[k]),
        position(now.stage) == k,
        fits(now.stage, events),
    ensures
        answers_in(events).to(now, action) == events[k],
{
    let answer = answers_in(events).to(now, action);
    match now.stage {
        StageModel::Listings { .. } => {
            assert(answer->Listed_0 =~= events[k]->Listed_0);
        },
        StageModel::Surfaces { .. } => {
            assert(behind_pick(events, 2) == events[k]);
            assert(answer->Surveyed_0.merge == events[k]->Surveyed_0.merge);
            assert(answer->Surveyed_0.checks == events[k]->Surveyed_0.checks);
        },
        _ => {},
    }
}

proof fn lemma_events_are_answers(fetch: FetchModel, events: Seq<EventModel>, k: int)
    requires
        fetch.stage is Token,
        0 <= k <= events.len(),
        forall|i: int| 0 <= i <= events.len() ==> all_expected(
            fetch,
            ActionModel::FindToken,
            #[trigger] events.take(i),
        ),
    ensures
        ({
            let now = followed(fetch, ActionModel::FindToken, events.take(k));
            &&& k <= 8
            &&& now.0.stage is Done || position(now.0.stage) == k
            &&& fits(now.0.stage, events)
            &&& run(fetch, ActionModel::FindToken, answers_in(events), 8) == run(
                now.0,
                now.1,
                answers_in(events),
                (8 - k) as nat,
            )
        }),
    decreases k,
{
    let answers = answers_in(events);
    assert(all_expected(fetch, ActionModel::FindToken, events.take(k)));
    lemma_any_events(fetch, ActionModel::FindToken, events.take(k));
    if k > 0 {
        lemma_events_are_answers(fetch, events, k - 1);
        let before = followed(fetch, ActionModel::FindToken, events.take(k - 1));
        assert(events.take(k).drop_last() =~= events.take(k - 1));
        assert(events.take(k).last() == events[k - 1]);
        lemma_any_events(fetch, ActionModel::FindToken, events.take(k - 1));
        lemma_event_is_answer(before.0, before.1, events, k - 1);
    }
}

proof fn lemma_expected_before(
    fetch: FetchModel,
    action: ActionModel,
    events: Seq<EventModel>,
    k: int,
)
    requires
        0 <= k <= events.len(),
        all_expected(fetch, action, events),
    ensures
        all_expected(fetch, action, events.take(k)),
    decreases events.len(),
{
    if k < events.len() {
        lemma_expected_before(fetch, action, events.drop_last(), k);
        assert(events.drop_last().take(k) =~= events.take(k));
    } else {
        assert(events.take(k) =~= events);
    }
}

/// Whatever events a fetch got from its start to its end, it shows what [`fetched`] says of the
/// answers in them.
pub proof fn lemma_any_end(fetch: FetchModel, events: Seq<EventModel>)
    requires
        fetch.stage is Token,
        all_expected(fetch, ActionModel::FindToken, events),
        followed(fetch, ActionModel::FindToken, events).1 is Show,
    ensures
        followed(fetch, ActionModel::FindToken, events).1 == ActionModel::Show(
            fetched(fetch, answers_in(events)),
        ),
{
    let n = events.len() as int;
    assert forall|i: int| 0 <= i <= events.len() implies all_expected(
        fetch,
        ActionModel::FindToken,
        #[trigger] events.take(i),
    ) by {
        lemma_expected_before(fetch, ActionModel::FindToken, events, i);
    }
    lemma_events_are_answers(fetch, events, n);
    assert(events.take(n) =~= events);
    lemma_fetch_ends(fetch, answers_in(events));
}

}
