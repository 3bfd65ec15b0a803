//! One fetch: what to ask for next, and what is shown in the end.

use vstd::prelude::*;

use crate::bitbucket::association::{
    associate_by_branch, associated, read_output, read_reply, response_model, response_models,
    response_of, response_to, AssociatedModel, Reply, ReplyModel, ResponseModel,
};
use crate::bitbucket::errors::{BitbucketError, ErrorModel, SpawnFail};
use crate::bitbucket::normalize::{
    build_snapshot, checks_of, comments_of, derive_merge, has_more, is_truncated, map_activities,
    map_checks, merge_of, snapshot_of,
};
use crate::bitbucket::tool::{output_model, OutputModel};
use crate::bitbucket::urls::{
    activities_address, base_url, checks_address, detail_address, listings, merge_address, Ctx,
};
use crate::comments::{comment_models, finished, Comment, CommentModel};
use crate::forge::{
    check_models, fork_of, fork_repository, repo_model, Association, AssociationModel, Check,
    CheckModel, Merge, PrView, PrViewModel, RepoModel, RepoTarget, Sync,
};
use crate::json::{Json, JsonTree};
use crate::text::texts;

verus! {

/// Which of the two repositories is asked.
#[derive(Debug, Clone, Copy, PartialEq, Eq, Structural)]
pub enum Side {
    Target,
    Fork,
}

/// How far a fetch is.
#[derive(Debug)]
pub enum Stage {
    Token,
    Listings { side: Side, truncated: bool },
    Pick { side: Side, truncated: bool },
    Detail { side: Side, id: u64, truncated: bool },
    Sync { side: Side, id: u64, truncated: bool, detail: Json },
    Surfaces { side: Side, id: u64, truncated: bool, detail: Json, sync: Sync },
    Done,
}

/// What a [`Stage`] stands for.
pub enum StageModel {
    Token,
    Listings { side: Side, truncated: bool },
    Pick { side: Side, truncated: bool },
    Detail { side: Side, id: u64, truncated: bool },
    Sync { side: Side, id: u64, truncated: bool, detail: JsonTree },
    Surfaces { side: Side, id: u64, truncated: bool, detail: JsonTree, sync: Sync },
    Done,
}

impl View for Stage {
    type V = StageModel;

    open spec fn view(&self) -> StageModel {
        match *self {
            Stage::Token => StageModel::Token,
            Stage::Listings { side, truncated } => StageModel::Listings { side, truncated },
            Stage::Pick { side, truncated } => StageModel::Pick { side, truncated },
            Stage::Detail { side, id, truncated } => StageModel::Detail { side, id, truncated },
            Stage::Sync { side, id, truncated, detail } => StageModel::Sync {
                side,
                id,
                truncated,
                detail: detail@,
            },
            Stage::Surfaces { side, id, truncated, detail, sync } => StageModel::Surfaces {
                side,
                id,
                truncated,
                detail: detail@,
                sync,
            },
            Stage::Done => StageModel::Done,
        }
    }
}

/// A fetch of the pull request of a branch.
#[derive(Debug)]
pub struct Fetch {
    /// The names that the branch may have on the forge.
    pub names: Vec<String>,
    /// The local head at the start of the fetch.
    pub head: Option<String>,
    /// The repository that pull requests go to.
    pub target: RepoTarget,
    /// The repository that is asked where the target has no pull request.
    pub fork: Option<RepoTarget>,
    pub stage: Stage,
}

/// What a [`Fetch`] stands for.
pub struct FetchModel {
    pub names: Seq<Seq<char>>,
    pub head: Option<Seq<char>>,
    pub target: RepoModel,
    pub fork: Option<RepoModel>,
    pub stage: StageModel,
}

impl View for Fetch {
    type V = FetchModel;

    open spec fn view(&self) -> FetchModel {
        FetchModel {
            names: texts(self.names@),
            head: text_model(self.head),
            target: self.target@,
            fork: repo_model(self.fork),
            stage: self.stage@,
        }
    }
}

/// The requests for the surfaces of a pull request. Whether it can be merged is asked only of an
/// open one, its checks only where its head is known.
#[derive(Debug)]
pub struct Survey<T> {
    pub merge: Option<T>,
    pub checks: Option<T>,
    pub comments: T,
}

/// What the fetch asks for.
#[derive(Debug)]
pub enum Action {
    /// Find the bearer token.
    FindToken,
    /// Get all the URLs, beside each other.
    List(Vec<String>),
    /// Pick one of the branch's pull requests, by how the local head stands to theirs.
    Pick { association: Association, head: Option<String> },
    /// Get the URL.
    Read(String),
    /// Compare the local head with the commit.
    Compare { head: Option<String>, commit: String },
    /// Get the URLs, beside each other.
    Survey(Survey<String>),
    /// Show the view; the fetch is done.
    Show(PrView),
}

/// What an [`Action`] stands for.
pub enum ActionModel {
    FindToken,
    List(Seq<Seq<char>>),
    Pick { association: AssociationModel, head: Option<Seq<char>> },
    Read(Seq<char>),
    Compare { head: Option<Seq<char>>, commit: Seq<char> },
    Survey(Survey<Seq<char>>),
    Show(PrViewModel),
}

/// What a text that may be missing holds.
pub open spec fn text_model(text: Option<String>) -> Option<Seq<char>> {
    match text {
        Some(text) => Some(text@),
        None => None,
    }
}

impl View for Action {
    type V = ActionModel;

    open spec fn view(&self) -> ActionModel {
        match *self {
            Action::FindToken => ActionModel::FindToken,
            Action::List(urls) => ActionModel::List(texts(urls@)),
            Action::Pick { association, head } => ActionModel::Pick {
                association: association@,
                head: text_model(head),
            },
            Action::Read(url) => ActionModel::Read(url@),
            Action::Compare { head, commit } => ActionModel::Compare {
                head: text_model(head),
                commit: commit@,
            },
            Action::Survey(urls) => ActionModel::Survey(
                Survey {
                    merge: text_model(urls.merge),
                    checks: text_model(urls.checks),
                    comments: urls.comments@,
                },
            ),
            Action::Show(view) => ActionModel::Show(view@),
        }
    }
}

/// The answer to an [`Action`].
#[derive(Debug)]
pub enum Event {
    /// Whether there is a token.
    Token(bool),
    /// The replies, in the order of the URLs.
    Listed(Vec<Reply>),
    /// The number of the pull request, or why the local repository could not tell.
    Picked(Result<Option<u64>, String>),
    Read(Result<String, SpawnFail>),
    Compared(Result<Sync, String>),
    Surveyed(Survey<Reply>),
}

/// What an [`Event`] stands for.
pub enum EventModel {
    Token(bool),
    Listed(Seq<ReplyModel>),
    Picked(Result<Option<u64>, Seq<char>>),
    Read(OutputModel),
    Compared(Result<Sync, Seq<char>>),
    Surveyed(Survey<ReplyModel>),
}

/// What the replies stand for.
pub open spec fn reply_models(replies: Seq<Reply>) -> Seq<ReplyModel> {
    replies.map_values(|reply: Reply| reply@)
}

/// What a reply that may be missing stands for.
pub open spec fn reply_model(reply: Option<Reply>) -> Option<ReplyModel> {
    match reply {
        Some(reply) => Some(reply@),
        None => None,
    }
}

impl View for Event {
    type V = EventModel;

    open spec fn view(&self) -> EventModel {
        match *self {
            Event::Token(found) => EventModel::Token(found),
            Event::Listed(replies) => EventModel::Listed(reply_models(replies@)),
            Event::Picked(Ok(number)) => EventModel::Picked(Ok(number)),
            Event::Picked(Err(message)) => EventModel::Picked(Err(message@)),
            Event::Read(output) => EventModel::Read(output_model(output)),
            Event::Compared(Ok(sync)) => EventModel::Compared(Ok(sync)),
            Event::Compared(Err(message)) => EventModel::Compared(Err(message@)),
            Event::Surveyed(replies) => EventModel::Surveyed(
                Survey {
                    merge: reply_model(replies.merge),
                    checks: reply_model(replies.checks),
                    comments: replies.comments@,
                },
            ),
        }
    }
}

/// The head commit of the pull request.
pub open spec fn head_of(detail: JsonTree) -> Seq<char> {
    detail.field("fromRef"@).field("latestCommit"@).text_or_empty()
}

/// Whether the pull request is open.
pub open spec fn is_open(detail: JsonTree) -> bool {
    detail.field("state"@).text() == Some("OPEN"@)
}

impl FetchModel {
    /// The repository on the side.
    pub open spec fn repo(self, side: Side) -> RepoModel {
        match side {
            Side::Target => self.target,
            Side::Fork => match self.fork {
                Some(repo) => repo,
                None => self.target,
            },
        }
    }

    /// The start of the URLs of the repository on the side, on the target's host.
    pub open spec fn base(self, side: Side) -> Seq<char> {
        base_url(self.target.host, self.repo(side).owner, self.repo(side).name)
    }

    /// The fetch at another stage.
    pub open spec fn at(self, stage: StageModel) -> FetchModel {
        FetchModel { stage, ..self }
    }

    /// The end of the fetch with the view.
    pub open spec fn done(self, view: PrViewModel) -> (FetchModel, ActionModel) {
        (self.at(StageModel::Done), ActionModel::Show(view))
    }

    /// The end of the fetch with the failure.
    pub open spec fn failed(self, error: ErrorModel) -> (FetchModel, ActionModel) {
        self.done(error.shown(self.target.host))
    }

    /// Asks the repository on the side for the branch's pull requests.
    pub open spec fn list(self, side: Side, truncated: bool) -> (FetchModel, ActionModel) {
        (
            self.at(StageModel::Listings { side, truncated }),
            ActionModel::List(listings(self.base(side), self.names)),
        )
    }

    /// The URLs of the surfaces of the pull request.
    pub open spec fn survey(self, side: Side, id: u64, detail: JsonTree) -> Survey<Seq<char>> {
        Survey {
            merge: if is_open(detail) {
                Some(merge_address(self.base(side), id))
            } else {
                None
            },
            checks: if head_of(detail).len() > 0 {
                Some(checks_address(self.target.host, head_of(detail)))
            } else {
                None
            },
            comments: activities_address(self.base(side), id),
        }
    }

    /// Whether the event answers what the fetch asked for.
    pub open spec fn expects(self, event: EventModel) -> bool {
        match (self.stage, event) {
            (StageModel::Token, EventModel::Token(_)) => true,
            (StageModel::Listings { .. }, EventModel::Listed(replies)) => replies.len() == 2
                * self.names.len(),
            (StageModel::Pick { .. }, EventModel::Picked(_)) => true,
            (StageModel::Detail { .. }, EventModel::Read(_)) => true,
            (StageModel::Sync { .. }, EventModel::Compared(_)) => true,
            (StageModel::Surfaces { detail, .. }, EventModel::Surveyed(replies)) => {
                &&& replies.merge is Some == is_open(detail)
                &&& replies.checks is Some == (head_of(detail).len() > 0)
            },
            _ => false,
        }
    }
}

/// Whether the pull request can be merged, by the reply; clean where that was not asked.
pub open spec fn merge_read(reply: Option<ReplyModel>) -> Result<Merge, ErrorModel> {
    match reply {
        Some(reply) => match response_to("merge"@, reply) {
            ResponseModel::Value(answer) => Ok(merge_of(answer)),
            ResponseModel::Fail(error) => Err(error),
        },
        None => Ok(Merge::Clean),
    }
}

/// The checks by the reply, and whether there are more; none where that was not asked.
pub open spec fn checks_read(reply: Option<ReplyModel>) -> Result<
    (Seq<CheckModel>, bool),
    ErrorModel,
> {
    match reply {
        Some(reply) => match response_to("checks"@, reply) {
            ResponseModel::Value(page) => Ok(
                (checks_of(page.field("values"@).elements()), has_more(page)),
            ),
            ResponseModel::Fail(error) => Err(error),
        },
        None => Ok((Seq::empty(), false)),
    }
}

/// The comments by the reply, and whether there are more.
pub open spec fn comments_read(reply: ReplyModel) -> Result<
    (Seq<CommentModel>, bool),
    ErrorModel,
> {
    match response_to("comments"@, reply) {
        ResponseModel::Value(page) => Ok(
            (finished(comments_of(page.field("values"@).elements())), has_more(page)),
        ),
        ResponseModel::Fail(error) => Err(error),
    }
}

/// What reading the mergeability gave.
pub open spec fn merge_model(merge: Result<Merge, BitbucketError>) -> Result<Merge, ErrorModel> {
    match merge {
        Ok(merge) => Ok(merge),
        Err(error) => Err(error@),
    }
}

/// What reading the checks gave.
pub open spec fn checks_model(checks: Result<(Vec<Check>, bool), BitbucketError>) -> Result<
    (Seq<CheckModel>, bool),
    ErrorModel,
> {
    match checks {
        Ok((checks, more)) => Ok((check_models(checks@), more)),
        Err(error) => Err(error@),
    }
}

/// What reading the comments gave.
pub open spec fn comments_model(comments: Result<(Vec<Comment>, bool), BitbucketError>) -> Result<
    (Seq<CommentModel>, bool),
    ErrorModel,
> {
    match comments {
        Ok((comments, more)) => Ok((comment_models(comments@), more)),
        Err(error) => Err(error@),
    }
}

/// Reads whether the pull request can be merged.
pub fn fetch_merge(reply: Option<Reply>) -> (merge: Result<Merge, BitbucketError>)
    ensures
        merge_model(merge) == merge_read(reply_model(reply)),
{
    match reply {
        Some(reply) => match read_reply("merge", reply) {
            Ok(answer) => Ok(derive_merge(&answer)),
            Err(error) => Err(error),
        },
        None => Ok(Merge::Clean),
    }
}

/// Reads the checks on the head commit, and whether there are more.
pub fn fetch_checks(reply: Option<Reply>) -> (checks: Result<(Vec<Check>, bool), BitbucketError>)
    ensures
        checks_model(checks) == checks_read(reply_model(reply)),
{
    match reply {
        Some(reply) => match read_reply("checks", reply) {
            Ok(page) => Ok((map_checks(&page), is_truncated(&page))),
            Err(error) => Err(error),
        },
        None => {
            let none: Vec<Check> = Vec::new();
            assert(check_models(none@) =~= Seq::empty());
            Ok((none, false))
        },
    }
}

/// Reads the comments on the pull request, and whether there are more.
pub fn fetch_comments(reply: Reply) -> (comments: Result<(Vec<Comment>, bool), BitbucketError>)
    ensures
        comments_model(comments) == comments_read(reply@),
{
    match read_reply("comments", reply) {
        Ok(page) => Ok((map_activities(page.field("values")), is_truncated(&page))),
        Err(error) => Err(error),
    }
}

/// The pull request as it is shown, or the first failure among its surfaces.
pub open spec fn surveyed(
    detail: JsonTree,
    sync: Sync,
    truncated: bool,
    replies: Survey<ReplyModel>,
) -> Result<PrViewModel, ErrorModel> {
    match (
        merge_read(replies.merge),
        checks_read(replies.checks),
        comments_read(replies.comments),
    ) {
        (Err(error), _, _) => Err(error),
        (_, Err(error), _) => Err(error),
        (_, _, Err(error)) => Err(error),
        (Ok(merge), Ok((checks, more_checks)), Ok((comments, more_comments))) => Ok(
            PrViewModel::Pr(
                snapshot_of(
                    detail,
                    merge,
                    checks,
                    comments,
                    sync,
                    truncated || more_checks || more_comments,
                ),
            ),
        ),
    }
}

impl FetchModel {
    /// After the search for the token.
    pub open spec fn after_token(self, found: bool) -> (FetchModel, ActionModel) {
        if found {
            self.list(Side::Target, false)
        } else {
            self.failed(ErrorModel::NotAuthed)
        }
    }

    /// After the listings.
    pub open spec fn after_listings(
        self,
        side: Side,
        truncated: bool,
        replies: Seq<ReplyModel>,
    ) -> (FetchModel, ActionModel) {
        let responses = replies.map_values(
            |reply: ReplyModel| response_to("listing"@, reply),
        );
        match associated(responses, self.names.len() as int) {
            AssociatedModel::Known(association, more) => (
                self.at(StageModel::Pick { side, truncated: truncated || more }),
                ActionModel::Pick { association, head: self.head },
            ),
            AssociatedModel::Fail(error) => self.failed(error),
        }
    }

    /// After the pick: where the target has no pull request, its fork is asked.
    pub open spec fn after_pick(
        self,
        side: Side,
        truncated: bool,
        pick: Result<Option<u64>, Seq<char>>,
    ) -> (FetchModel, ActionModel) {
        match pick {
            Ok(Some(id)) => (
                self.at(StageModel::Detail { side, id, truncated }),
                ActionModel::Read(detail_address(self.base(side), id)),
            ),
            Ok(None) => if side == Side::Target && self.fork is Some {
                self.list(Side::Fork, truncated)
            } else {
                self.done(PrViewModel::NoPr)
            },
            Err(message) => self.failed(ErrorModel::LocalGit(message)),
        }
    }

    /// After the detail.
    pub open spec fn after_detail(
        self,
        side: Side,
        id: u64,
        truncated: bool,
        output: OutputModel,
    ) -> (FetchModel, ActionModel) {
        match response_of(output) {
            ResponseModel::Value(detail) => if detail.field("id"@).unsigned() is None {
                self.done(PrViewModel::NoPr)
            } else {
                (
                    self.at(StageModel::Sync { side, id, truncated, detail }),
                    ActionModel::Compare { head: self.head, commit: head_of(detail) },
                )
            },
            ResponseModel::Fail(error) => self.failed(error),
        }
    }

    /// After the comparison with the local head.
    pub open spec fn after_sync(
        self,
        side: Side,
        id: u64,
        truncated: bool,
        detail: JsonTree,
        sync: Result<Sync, Seq<char>>,
    ) -> (FetchModel, ActionModel) {
        match sync {
            Ok(sync) => (
                self.at(StageModel::Surfaces { side, id, truncated, detail, sync }),
                ActionModel::Survey(self.survey(side, id, detail)),
            ),
            Err(message) => self.failed(ErrorModel::LocalGit(message)),
        }
    }

    /// After the surfaces.
    pub open spec fn after_survey(
        self,
        truncated: bool,
        detail: JsonTree,
        sync: Sync,
        replies: Survey<ReplyModel>,
    ) -> (FetchModel, ActionModel) {
        match surveyed(detail, sync, truncated, replies) {
            Ok(view) => self.done(view),
            Err(error) => self.failed(error),
        }
    }

    /// What the fetch does after the event that it expects.
    pub open spec fn after(self, event: EventModel) -> (FetchModel, ActionModel) {
        match (self.stage, event) {
            (StageModel::Token, EventModel::Token(found)) => self.after_token(found),
            (
                StageModel::Listings { side, truncated },
                EventModel::Listed(replies),
            ) => self.after_listings(side, truncated, replies),
            (StageModel::Pick { side, truncated }, EventModel::Picked(pick)) => self.after_pick(
                side,
                truncated,
                pick,
            ),
            (
                StageModel::Detail { side, id, truncated },
                EventModel::Read(output),
            ) => self.after_detail(side, id, truncated, output),
            (
                StageModel::Sync { side, id, truncated, detail },
                EventModel::Compared(sync),
            ) => self.after_sync(side, id, truncated, detail, sync),
            (
                StageModel::Surfaces { side, id, truncated, detail, sync },
                EventModel::Surveyed(replies),
            ) => self.after_survey(truncated, detail, sync, replies),
            _ => arbitrary(),
        }
    }
}

impl Fetch {
    /// Begins a fetch for the branch with the names and the local head, from the target, and
    /// from the origin where that is a fork.
    pub fn start(
        names: Vec<String>,
        head: Option<String>,
        target: RepoTarget,
        origin: Option<RepoTarget>,
    ) -> (begun: (Fetch, Action))
        ensures
            begun.0@ == (FetchModel {
                names: texts(names@),
                head: text_model(head),
                target: target@,
                fork: fork_of(repo_model(origin), target@),
                stage: StageModel::Token,
            }),
            begun.1@ == ActionModel::FindToken,
    {
        let fork = fork_repository(&origin, &target);
        (Fetch { names, head, target, fork, stage: Stage::Token }, Action::FindToken)
    }

    /// The repository on the side.
    fn ctx<'a>(&'a self, side: Side) -> (ctx: Ctx<'a>)
        ensures
            ctx.host@ == self@.target.host,
            ctx.base_model() == self@.base(side),
    {
        let repo: &RepoTarget = match (side, &self.fork) {
            (Side::Fork, Some(fork)) => fork,
            _ => &self.target,
        };
        Ctx {
            host: self.target.host.as_str(),
            owner: repo.owner.as_str(),
            name: repo.name.as_str(),
        }
    }

    /// The fetch at another stage.
    fn at(self, stage: Stage) -> (fetch: Fetch)
        ensures
            fetch@ == self@.at(stage@),
    {
        Fetch {
            names: self.names,
            head: self.head,
            target: self.target,
            fork: self.fork,
            stage,
        }
    }

    /// A copy of the local head at the start of the fetch.
    fn pinned_head(&self) -> (head: Option<String>)
        ensures
            text_model(head) == self@.head,
    {
        match &self.head {
            Some(head) => Some(head.clone()),
            None => None,
        }
    }

    /// Ends the fetch with the view.
    fn done(self, view: PrView) -> (ended: (Fetch, Action))
        ensures
            (ended.0@, ended.1@) == self@.done(view@),
    {
        (self.at(Stage::Done), Action::Show(view))
    }

    /// Ends the fetch with the failure.
    fn failed(self, error: BitbucketError) -> (ended: (Fetch, Action))
        ensures
            (ended.0@, ended.1@) == self@.failed(error@),
    {
        let view = error.into_view(self.target.host.as_str());
        self.done(view)
    }

    /// Asks the repository on the side for the branch's pull requests.
    fn list(self, side: Side, truncated: bool) -> (asked: (Fetch, Action))
        ensures
            (asked.0@, asked.1@) == self@.list(side, truncated),
    {
        let urls = self.ctx(side).listing_urls(&self.names);
        (self.at(Stage::Listings { side, truncated }), Action::List(urls))
    }

    fn after_listings(self, side: Side, truncated: bool, replies: Vec<Reply>) -> (after: (
        Fetch,
        Action,
    ))
        requires
            replies.len() == 2 * self.names.len(),
        ensures
            (after.0@, after.1@) == self@.after_listings(side, truncated, reply_models(replies@)),
    {
        let ghost source = replies@;
        let ghost models = reply_models(source).map_values(
            |reply: ReplyModel| response_to("listing"@, reply),
        );
        let mut responses: Vec<Result<Json, BitbucketError>> = Vec::new();
        for reply in it: replies
            invariant
                it.seq() == source,
                models == reply_models(source).map_values(
                    |reply: ReplyModel| response_to("listing"@, reply),
                ),
                response_models(responses@) == models.take(it.index()),
        {
            let ghost before = response_models(responses@);
            let response = read_reply("listing", reply);
            assert(models[it.index()] == response_model(response));
            responses.push(response);
            assert(response_models(responses@) =~= before.push(response_model(response)));
            assert(response_models(responses@) =~= models.take(it.index() + 1));
        }
        assert(models.take(models.len() as int) =~= models);
        assert(responses.len() == response_models(responses@).len());
        match associate_by_branch(responses, self.names.len()) {
            Ok((association, more)) => {
                let head = self.pinned_head();
                (
                    self.at(Stage::Pick { side, truncated: truncated || more }),
                    Action::Pick { association, head },
                )
            },
            Err(error) => self.failed(error),
        }
    }

    fn after_pick(self, side: Side, truncated: bool, pick: Result<Option<u64>, String>) -> (after: (
        Fetch,
        Action,
    ))
        ensures
            (after.0@, after.1@) == self@.after_pick(
                side,
                truncated,
                match pick {
                    Ok(number) => Ok(number),
                    Err(message) => Err(message@),
                },
            ),
    {
        match pick {
            Ok(Some(id)) => {
                let url = self.ctx(side).detail_url(id);
                (self.at(Stage::Detail { side, id, truncated }), Action::Read(url))
            },
            Ok(None) => {
                if side == Side::Target && self.fork.is_some() {
                    self.list(Side::Fork, truncated)
                } else {
                    self.done(PrView::NoPr)
                }
            },
            Err(message) => self.failed(BitbucketError::LocalGit(message)),
        }
    }

    fn after_detail(
        self,
        side: Side,
        id: u64,
        truncated: bool,
        output: Result<String, SpawnFail>,
    ) -> (after: (Fetch, Action))
        ensures
            (after.0@, after.1@) == self@.after_detail(side, id, truncated, output_model(output)),
    {
        match read_output(output) {
            Ok(detail) => {
                if detail.field("id").as_u64().is_none() {
                    self.done(PrView::NoPr)
                } else {
                    let commit = detail.field("fromRef").field(
                        "latestCommit",
                    ).str_or_empty().to_owned();
                    let head = self.pinned_head();
                    (
                        self.at(Stage::Sync { side, id, truncated, detail }),
                        Action::Compare { head, commit },
                    )
                }
            },
            Err(error) => self.failed(error),
        }
    }

    fn after_sync(
        self,
        side: Side,
        id: u64,
        truncated: bool,
        detail: Json,
        sync: Result<Sync, String>,
    ) -> (after: (Fetch, Action))
        ensures
            (after.0@, after.1@) == self@.after_sync(
                side,
                id,
                truncated,
                detail@,
                match sync {
                    Ok(sync) => Ok(sync),
                    Err(message) => Err(message@),
                },
            ),
    {
        match sync {
            Ok(sync) => {
                let ctx = self.ctx(side);
                let merge = if detail.field("state").is_text("OPEN") {
                    Some(ctx.merge_url(id))
                } else {
                    None
                };
                let head = detail.field("fromRef").field("latestCommit").str_or_empty();
                let checks = if head.is_empty() {
                    None
                } else {
                    Some(ctx.checks_url(head))
                };
                let comments = ctx.activities_url(id);
                let urls = Survey { merge, checks, comments };
                (
                    self.at(Stage::Surfaces { side, id, truncated, detail, sync }),
                    Action::Survey(urls),
                )
            },
            Err(message) => self.failed(BitbucketError::LocalGit(message)),
        }
    }

    fn after_survey(
        self,
        truncated: bool,
        detail: Json,
        sync: Sync,
        replies: Survey<Reply>,
    ) -> (after: (Fetch, Action))
        ensures
            (after.0@, after.1@) == self@.after_survey(
                truncated,
                detail@,
                sync,
                Survey {
                    merge: reply_model(replies.merge),
                    checks: reply_model(replies.checks),
                    comments: replies.comments@,
                },
            ),
    {
        let merge = match fetch_merge(replies.merge) {
            Ok(merge) => merge,
            Err(error) => {
                return self.failed(error);
            },
        };
        let (checks, more_checks) = match fetch_checks(replies.checks) {
            Ok(read) => read,
            Err(error) => {
                return self.failed(error);
            },
        };
        let (comments, more_comments) = match fetch_comments(replies.comments) {
            Ok(read) => read,
            Err(error) => {
                return self.failed(error);
            },
        };
        let snapshot = build_snapshot(
            &detail,
            merge,
            checks,
            comments,
            sync,
            truncated || more_checks || more_comments,
        );
        self.done(PrView::Pr(Box::new(snapshot)))
    }

    /// Tells whether the event answers what the fetch asked for.
    pub fn accepts(&self, event: &Event) -> (accepted: bool)
        ensures
            accepted == self@.expects(event@),
    {
        match (&self.stage, event) {
            (Stage::Token, Event::Token(_)) => true,
            (Stage::Listings { .. }, Event::Listed(replies)) => {
                replies.len() % 2 == 0 && replies.len() / 2 == self.names.len()
            },
            (Stage::Pick { .. }, Event::Picked(_)) => true,
            (Stage::Detail { .. }, Event::Read(_)) => true,
            (Stage::Sync { .. }, Event::Compared(_)) => true,
            (Stage::Surfaces { detail, .. }, Event::Surveyed(replies)) => {
                let open = detail.field("state").is_text("OPEN");
                let head = detail.field("fromRef").field("latestCommit").str_or_empty();
                replies.merge.is_some() == open && replies.checks.is_some() == !head.is_empty()
            },
            _ => false,
        }
    }

    /// Goes on after the answer to what the fetch asked for.
    pub fn step(self, event: Event) -> (after: (Fetch, Action))
        requires
            self@.expects(event@),
        ensures
            (after.0@, after.1@) == self@.after(event@),
    {
        let Fetch { names, head, target, fork, stage } = self;
        let rest = Fetch { names, head, target, fork, stage: Stage::Token };
        match (stage, event) {
            (Stage::Token, Event::Token(found)) => {
                if found {
                    rest.list(Side::Target, false)
                } else {
                    rest.failed(BitbucketError::NotAuthed)
                }
            },
            (Stage::Listings { side, truncated }, Event::Listed(replies)) => rest.after_listings(
                side,
                truncated,
                replies,
            ),
            (Stage::Pick { side, truncated }, Event::Picked(pick)) => rest.after_pick(
                side,
                truncated,
                pick,
            ),
            (Stage::Detail { side, id, truncated }, Event::Read(output)) => rest.after_detail(
                side,
                id,
                truncated,
                output,
            ),
            (
                Stage::Sync { side, id, truncated, detail },
                Event::Compared(sync),
            ) => rest.after_sync(side, id, truncated, detail, sync),
            (
                Stage::Surfaces { side: _, id: _, truncated, detail, sync },
                Event::Surveyed(replies),
            ) => rest.after_survey(truncated, detail, sync, replies),
            (_, _) => rest.done(PrView::NoPr),
        }
    }
}

}
