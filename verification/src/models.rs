//! What the models hold: the fields of what they stand for, each under its own name.

use vstd::prelude::*;

use crate::bitbucket::association::{
    associated_model, response_model, AssociatedModel, Reply, ReplyModel, ResponseModel,
};
use crate::bitbucket::errors::{BitbucketError, ErrorModel, FailModel, SpawnFail};
use crate::bitbucket::fetch::{
    reply_model, reply_models, text_model, Action, ActionModel, Event, EventModel, Fetch, Stage,
    StageModel, Survey,
};
use crate::bitbucket::process::{Run, RunAction, RunActionModel, RunEvent, RunEventModel, RunModel};
use crate::bitbucket::tool::{output_model, OutputModel, ToolCall};
use crate::browser::Opener;
use crate::comments::{comment_models, Comment};
use crate::forge::{
    assoc_pr_models, check_models, repo_model, AssocPr, Association, Check, PrSnapshot, PrView,
    PrViewModel, RepoTarget,
};
use crate::json::{Json, JsonTree};
use crate::launch::{Launch, LaunchModel};
use crate::text::texts;

verus! {

/// Lists of texts, comments, checks and pull requests are modelled place by place.
pub proof fn lemma_lists(
    strings: Seq<String>,
    comments: Seq<Comment>,
    checks: Seq<Check>,
    prs: Seq<AssocPr>,
    replies: Seq<Reply>,
)
    ensures
        texts(strings).len() == strings.len(),
        forall|i: int| 0 <= i < strings.len() ==> #[trigger] texts(strings)[i] == strings[i]@,
        comment_models(comments).len() == comments.len(),
        forall|i: int|
            0 <= i < comments.len() ==> #[trigger] comment_models(comments)[i] == comments[i]@,
        check_models(checks).len() == checks.len(),
        forall|i: int| 0 <= i < checks.len() ==> #[trigger] check_models(checks)[i] == checks[i]@,
        assoc_pr_models(prs).len() == prs.len(),
        forall|i: int| 0 <= i < prs.len() ==> #[trigger] assoc_pr_models(prs)[i] == prs[i]@,
        reply_models(replies).len() == replies.len(),
        forall|i: int|
            0 <= i < replies.len() ==> #[trigger] reply_models(replies)[i] == replies[i]@,
{
}

/// A JSON value stands for itself, kind by kind.
pub proof fn lemma_json(json: Json)
    ensures
        json is Null <==> json@ is Null,
        json is Bool ==> json@ == JsonTree::Bool(json->Bool_0),
        json is Integer ==> json@ == JsonTree::Integer(json->Integer_0 as int),
        json is Real <==> json@ is Real,
        json is Text ==> json@ == JsonTree::Text(json->Text_0@),
        json is Array ==> json@ is Array && json@->Array_0.len() == json->Array_0@.len(),
        json is Array ==> forall|i: int|
            0 <= i < json->Array_0@.len() ==> #[trigger] json@->Array_0[i] == json->Array_0@[i]@,
        json is Object ==> json@ is Object,
{
    if json is Array {
        let elements = json->Array_0@;
        assert(json@->Array_0 == crate::json::trees_of(elements));
        assert forall|i: int| 0 <= i < elements.len() implies #[trigger] json@->Array_0[i]
            == elements[i]@ by {
            assert(crate::json::trees_of(elements)[i] == crate::json::tree_of(elements[i]));
        }
    }
}

/// A comment is modelled field by field.
pub proof fn lemma_comment(comment: Comment)
    ensures
        comment@.kind == comment.kind,
        comment@.author == comment.author@,
        comment@.author_is_bot == comment.author_is_bot,
        comment@.anchor == comment.anchor@,
        comment@.body == comment.body@,
        comment@.snippet is Some <==> comment.snippet is Some,
        comment.snippet is Some ==> comment@.snippet->0 == comment.snippet->0@,
        comment@.created_at == comment.created_at@,
        comment@.is_resolved == comment.is_resolved,
        comment@.is_outdated == comment.is_outdated,
        comment@.reply_count == comment.reply_count,
{
}

/// A repository, a check and the pull requests of a branch are modelled field by field.
pub proof fn lemma_parts(repo: RepoTarget, check: Check, pr: AssocPr, association: Association)
    ensures
        repo@.host == repo.host@,
        repo@.owner == repo.owner@,
        repo@.name == repo.name@,
        repo_model(Some(repo)) == Some(repo@),
        repo_model(None) is None,
        check@.name == check.name@,
        check@.status == check.status,
        pr@.number == pr.number,
        pr@.head_oid == pr.head_oid@,
        pr@.head_ref == pr.head_ref@,
        pr@.created_at == pr.created_at@,
        pr@.closed_at == pr.closed_at@,
        pr@.raw is Some <==> pr.raw is Some,
        pr.raw is Some ==> pr@.raw->0 == pr.raw->0@,
        association@.open == assoc_pr_models(association.open@),
        association@.history == assoc_pr_models(association.history@),
{
}

/// A snapshot is modelled field by field.
pub proof fn lemma_snapshot(snapshot: PrSnapshot)
    ensures
        snapshot@.number == snapshot.number,
        snapshot@.title == snapshot.title@,
        snapshot@.url == snapshot.url@,
        snapshot@.body == snapshot.body@,
        snapshot@.state == snapshot.state,
        snapshot@.is_draft == snapshot.is_draft,
        snapshot@.head_ref == snapshot.head_ref@,
        snapshot@.head_is_fork == snapshot.head_is_fork,
        snapshot@.head_oid == snapshot.head_oid@,
        snapshot@.base_ref == snapshot.base_ref@,
        snapshot@.merge == snapshot.merge,
        snapshot@.sync == snapshot.sync,
        snapshot@.checks == check_models(snapshot.checks@),
        snapshot@.comments == comment_models(snapshot.comments@),
        snapshot@.truncated == snapshot.truncated,
{
}

/// A view is modelled variant by variant.
pub proof fn lemma_view(view: PrView)
    ensures
        view is NoCli ==> view@ == PrViewModel::NoCli(view->NoCli_0),
        view is NotAuthed ==> view@ == PrViewModel::NotAuthed(
            view->NotAuthed_0,
            view->NotAuthed_1@,
        ),
        view is GitError ==> view@ == PrViewModel::GitError(view->GitError_0@),
        view is Error ==> view@ == PrViewModel::Error(view->Error_0, view->Error_1@),
        view is NoPr ==> view@ is NoPr,
        view is Pr ==> view@ == PrViewModel::Pr((*view->Pr_0)@),
{
}

/// A failure, an output and a reply are modelled variant by variant.
pub proof fn lemma_failures(
    error: BitbucketError,
    fail: SpawnFail,
    output: Result<String, SpawnFail>,
    reply: Reply,
    response: Result<Json, BitbucketError>,
    told: Result<(Association, bool), BitbucketError>,
)
    ensures
        error is NoCurl ==> error@ is NoCurl,
        error is NotAuthed ==> error@ is NotAuthed,
        error is LocalGit ==> error@ == ErrorModel::LocalGit(error->LocalGit_0@),
        error is Other ==> error@ == ErrorModel::Other(error->Other_0@),
        fail is NotFound ==> fail@ is NotFound,
        fail is Failed ==> fail@ == (FailModel::Failed { stderr: fail->stderr@ }),
        fail is Cancelled ==> fail@ is Cancelled,
        fail is Io ==> fail@ == FailModel::Io(fail->Io_0@),
        output is Ok ==> output_model(output) == OutputModel::Text(output->Ok_0@),
        output is Err ==> output_model(output) == OutputModel::Fail(output->Err_0@),
        reply is Output ==> reply@ == ReplyModel::Output(output_model(reply->Output_0)),
        reply is Panicked ==> reply@ is Panicked,
        reply_model(Some(reply)) == Some(reply@),
        reply_model(None) is None,
        response is Ok ==> response_model(response) == ResponseModel::Value(response->Ok_0@),
        response is Err ==> response_model(response) == ResponseModel::Fail(response->Err_0@),
        told is Ok ==> associated_model(told) == AssociatedModel::Known(
            told->Ok_0.0@,
            told->Ok_0.1,
        ),
        told is Err ==> associated_model(told) == AssociatedModel::Fail(told->Err_0@),
{
}

/// A call of a tool, an opener and a launch are modelled field by field.
pub proof fn lemma_calls(call: ToolCall, opener: Opener, launch: Launch)
    ensures
        call@.tool == call.tool@,
        call@.args == texts(call.args@),
        call@.stdin == call.stdin@,
        call@.envs.len() == call.envs@.len(),
        forall|i: int|
            0 <= i < call.envs@.len() ==> #[trigger] call@.envs[i] == (
                call.envs@[i].0@,
                call.envs@[i].1@,
            ),
        opener@.tool == opener.tool@,
        opener@.args == texts(opener.args@),
        launch is PluginConfig ==> launch@ is PluginConfig,
        launch is Cli ==> launch@ == LaunchModel::Cli(texts(launch->Cli_0@)),
        launch is Sidebar ==> launch@ == LaunchModel::Sidebar(texts(launch->Sidebar_0@)),
        launch is ReviewUi ==> launch@ is ReviewUi,
{
}

/// A fetch and its stage are modelled field by field.
pub proof fn lemma_fetch(fetch: Fetch, stage: Stage)
    ensures
        fetch@.names == texts(fetch.names@),
        fetch@.head == text_model(fetch.head),
        fetch@.target == fetch.target@,
        fetch@.fork == repo_model(fetch.fork),
        fetch@.stage == fetch.stage@,
        fetch.head is Some ==> fetch@.head == Some(fetch.head->0@),
        fetch.head is None ==> fetch@.head is None,
        stage is Token ==> stage@ is Token,
        stage is Done ==> stage@ is Done,
        stage matches Stage::Listings { side, truncated } ==> stage@ == (StageModel::Listings {
            side,
            truncated,
        }),
        stage matches Stage::Pick { side, truncated } ==> stage@ == (StageModel::Pick {
            side,
            truncated,
        }),
        stage matches Stage::Detail { side, id, truncated } ==> stage@ == (StageModel::Detail {
            side,
            id,
            truncated,
        }),
        stage matches Stage::Sync { side, id, truncated, detail } ==> stage@ == (StageModel::Sync {
            side,
            id,
            truncated,
            detail: detail@,
        }),
        stage matches Stage::Surfaces { side, id, truncated, detail, sync } ==> stage@ == (
        StageModel::Surfaces { side, id, truncated, detail: detail@, sync }),
{
}

/// What a fetch asks for, and what it is answered, is modelled variant by variant.
pub proof fn lemma_actions(action: Action, event: Event)
    ensures
        action is FindToken ==> action@ is FindToken,
        action is List ==> action@ == ActionModel::List(texts(action->List_0@)),
        action matches Action::Pick { association, head } ==> action@ == (ActionModel::Pick {
            association: association@,
            head: text_model(head),
        }),
        action is Read ==> action@ == ActionModel::Read(action->Read_0@),
        action matches Action::Compare { head, commit } ==> action@ == (ActionModel::Compare {
            head: text_model(head),
            commit: commit@,
        }),
        action matches Action::Survey(urls) ==> action@ == ActionModel::Survey(
            Survey {
                merge: text_model(urls.merge),
                checks: text_model(urls.checks),
                comments: urls.comments@,
            },
        ),
        action is Show ==> action@ == ActionModel::Show(action->Show_0@),
        event is Token ==> event@ == EventModel::Token(event->Token_0),
        event is Listed ==> event@ == EventModel::Listed(reply_models(event->Listed_0@)),
        event matches Event::Picked(Ok(number)) ==> event@ == EventModel::Picked(Ok(number)),
        event matches Event::Picked(Err(message)) ==> event@ == EventModel::Picked(Err(message@)),
        event is Read ==> event@ == EventModel::Read(output_model(event->Read_0)),
        event matches Event::Compared(Ok(sync)) ==> event@ == EventModel::Compared(Ok(sync)),
        event matches Event::Compared(Err(message)) ==> event@ == EventModel::Compared(
            Err(message@),
        ),
        event matches Event::Surveyed(replies) ==> event@ == EventModel::Surveyed(
            Survey {
                merge: reply_model(replies.merge),
                checks: reply_model(replies.checks),
                comments: replies.comments@,
            },
        ),
{
}

/// A run, what it asks for and what it is answered are modelled variant by variant.
pub proof fn lemma_run(run: Run, action: RunAction, event: RunEvent)
    ensures
        run is Start ==> run@ is Start,
        run is Watch ==> run@ is Watch,
        run is Pause ==> run@ is Pause,
        run is Done ==> run@ is Done,
        run matches Run::Drain { success } ==> run@ == (RunModel::Drain { success }),
        run matches Run::Abandon(message) ==> run@ == RunModel::Abandon(message@),
        action is Spawn ==> action@ is Spawn,
        action is Drain ==> action@ is Drain,
        action is Abandon ==> action@ is Abandon,
        action matches RunAction::Look { kill } ==> action@ == (RunActionModel::Look { kill }),
        action matches RunAction::Pause(ms) ==> action@ == RunActionModel::Pause(ms),
        action matches RunAction::Finish(output) ==> action@ == RunActionModel::Finish(
            output_model(output),
        ),
        event matches RunEvent::Spawned { cancelled } ==> event@ == (RunEventModel::Spawned {
            cancelled,
        }),
        event matches RunEvent::NotSpawned { not_found, message } ==> event@ == (
        RunEventModel::NotSpawned { not_found, message: message@ }),
        event is Running ==> event@ is Running,
        event matches RunEvent::Exited { success } ==> event@ == (RunEventModel::Exited {
            success,
        }),
        event matches RunEvent::Broken(message) ==> event@ == RunEventModel::Broken(message@),
        event matches RunEvent::Paused { cancelled } ==> event@ == (RunEventModel::Paused {
            cancelled,
        }),
        event matches RunEvent::Drained { cancelled, stdout, stderr } ==> event@ == (
        RunEventModel::Drained { cancelled, stdout: stdout@, stderr: stderr@ }),
        event is Abandoned ==> event@ is Abandoned,
{
}

}
