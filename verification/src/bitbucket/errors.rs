//! How a fetch fails, and what is shown then.

use vstd::prelude::*;

use crate::forge::{Forge, PrView, PrViewModel};
use crate::text::{
    contains, contains_text, lemma_contained_splits, lemma_contains_between, trim, trimmed,
};

verus! {

/// A classified failure of a fetch.
#[derive(Debug)]
pub enum BitbucketError {
    /// `curl` is not installed.
    NoCurl,
    /// There is no usable token, or the host refused it.
    NotAuthed,
    /// The local repository could not be read.
    LocalGit(String),
    Other(String),
}

/// What a [`BitbucketError`] stands for.
pub enum ErrorModel {
    NoCurl,
    NotAuthed,
    LocalGit(Seq<char>),
    Other(Seq<char>),
}

impl View for BitbucketError {
    type V = ErrorModel;

    open spec fn view(&self) -> ErrorModel {
        match *self {
            BitbucketError::NoCurl => ErrorModel::NoCurl,
            BitbucketError::NotAuthed => ErrorModel::NotAuthed,
            BitbucketError::LocalGit(message) => ErrorModel::LocalGit(message@),
            BitbucketError::Other(message) => ErrorModel::Other(message@),
        }
    }
}

impl ErrorModel {
    /// What is shown for the failure of a fetch from `host`.
    pub open spec fn shown(self, host: Seq<char>) -> PrViewModel {
        match self {
            ErrorModel::NoCurl => PrViewModel::NoCli(Forge::Bitbucket),
            ErrorModel::NotAuthed => PrViewModel::NotAuthed(Forge::Bitbucket, host),
            ErrorModel::LocalGit(message) => PrViewModel::GitError(message),
            ErrorModel::Other(message) => PrViewModel::Error(Forge::Bitbucket, message),
        }
    }
}

impl BitbucketError {
    /// The degraded view to show for the failure of a fetch from `host`.
    pub fn into_view(self, host: &str) -> (view: PrView)
        ensures
            view@ == self@.shown(host@),
    {
        match self {
            BitbucketError::NoCurl => PrView::NoCli(Forge::Bitbucket),
            BitbucketError::NotAuthed => PrView::NotAuthed(Forge::Bitbucket, host.to_owned()),
            BitbucketError::LocalGit(message) => PrView::GitError(message),
            BitbucketError::Other(message) => PrView::Error(Forge::Bitbucket, message),
        }
    }
}

/// The failure of a reader of `surface` that panicked.
pub open spec fn panicked(surface: Seq<char>) -> ErrorModel {
    ErrorModel::Other(surface + " read panicked"@)
}

/// The retryable failure that a panicked reader of `surface` degrades into.
pub fn died(surface: &str) -> (error: BitbucketError)
    ensures
        error@ == panicked(surface@),
{
    let mut message = surface.to_owned();
    message.append(" read panicked");
    BitbucketError::Other(message)
}

/// How a spawned tool failed.
#[derive(Debug)]
pub enum SpawnFail {
    /// The tool is not installed.
    NotFound,
    /// The tool ran and reported failure.
    Failed { stderr: String },
    Cancelled,
    /// The tool could not be started or awaited.
    Io(String),
}

/// What a [`SpawnFail`] stands for.
pub enum FailModel {
    NotFound,
    Failed { stderr: Seq<char> },
    Cancelled,
    Io(Seq<char>),
}

impl View for SpawnFail {
    type V = FailModel;

    open spec fn view(&self) -> FailModel {
        match *self {
            SpawnFail::NotFound => FailModel::NotFound,
            SpawnFail::Failed { stderr } => FailModel::Failed { stderr: stderr@ },
            SpawnFail::Cancelled => FailModel::Cancelled,
            SpawnFail::Io(message) => FailModel::Io(message@),
        }
    }
}

/// Whether the report speaks of a request without valid credentials.
pub open spec fn speaks_of_refusal(stderr: Seq<char>) -> bool {
    contains_text(stderr, "401"@) || contains_text(stderr, "403"@)
}

/// What the failure of `curl` means for the fetch.
pub open spec fn classified(fail: FailModel) -> ErrorModel {
    match fail {
        FailModel::NotFound => ErrorModel::NoCurl,
        FailModel::Cancelled => ErrorModel::Other("request cancelled"@),
        FailModel::Io(message) => ErrorModel::Other(message),
        FailModel::Failed { stderr } => if speaks_of_refusal(stderr) {
            ErrorModel::NotAuthed
        } else {
            ErrorModel::Other(trimmed(stderr))
        },
    }
}

/// Classifies a failure of `curl`. It has no exit code of its own for a refused request, so this
/// reads what it reported: the status 401 or 403 there means that the credentials were refused.
pub fn classify(fail: SpawnFail) -> (error: BitbucketError)
    ensures
        error@ == classified(fail@),
{
    match fail {
        SpawnFail::NotFound => BitbucketError::NoCurl,
        SpawnFail::Cancelled => BitbucketError::Other("request cancelled".to_owned()),
        SpawnFail::Io(message) => BitbucketError::Other(message),
        SpawnFail::Failed { stderr } => {
            if contains(stderr.as_str(), "401") || contains(stderr.as_str(), "403") {
                BitbucketError::NotAuthed
            } else {
                BitbucketError::Other(trim(stderr.as_str()).to_owned())
            }
        },
    }
}

/// A report in which the status 401 or 403 stands anywhere means refused credentials.
pub proof fn lemma_refusal_anywhere(start: Seq<char>, end: Seq<char>)
    ensures
        classified(FailModel::Failed { stderr: start + "401"@ + end }) is NotAuthed,
        classified(FailModel::Failed { stderr: start + "403"@ + end }) is NotAuthed,
{
    lemma_contains_between(start, "401"@, end);
    lemma_contains_between(start, "403"@, end);
}

/// Refused credentials mean that one of the two stands in the report.
pub proof fn lemma_refusal_was_reported(fail: FailModel) -> (ends: (Seq<char>, Seq<char>))
    requires
        classified(fail) is NotAuthed,
    ensures
        fail is Failed,
        fail->stderr == ends.0 + "401"@ + ends.1 || fail->stderr == ends.0 + "403"@ + ends.1,
{
    if contains_text(fail->stderr, "401"@) {
        lemma_contained_splits(fail->stderr, "401"@)
    } else {
        lemma_contained_splits(fail->stderr, "403"@)
    }
}

/// Every other failure keeps its message, whatever that holds, and only a missing tool reads as
/// one.
pub proof fn lemma_other_failures(fail: FailModel)
    ensures
        classified(fail) is NoCurl <==> fail is NotFound,
        !(classified(fail) is LocalGit),
        fail is Cancelled ==> classified(fail) == ErrorModel::Other("request cancelled"@),
        fail is Io ==> classified(fail) == ErrorModel::Other(fail->Io_0),
        fail is Failed && !(classified(fail) is NotAuthed) ==> classified(fail)
            == ErrorModel::Other(trimmed(fail->stderr)),
{
}

/// What is shown tells the failures apart and loses nothing of them: equal views of one host come
/// from equal failures.
pub proof fn lemma_views_tell_failures_apart(a: ErrorModel, b: ErrorModel, host: Seq<char>)
    ensures
        a.shown(host) == b.shown(host) ==> a == b,
        a.shown(host) is NoCli <==> a is NoCurl,
        a.shown(host) is NotAuthed <==> a is NotAuthed,
        a.shown(host) is GitError <==> a is LocalGit,
        a.shown(host) is Error <==> a is Other,
        a is NoCurl ==> a.shown(host) == PrViewModel::NoCli(Forge::Bitbucket),
        a is NotAuthed ==> a.shown(host) == PrViewModel::NotAuthed(Forge::Bitbucket, host),
        a is LocalGit ==> a.shown(host) == PrViewModel::GitError(a->LocalGit_0),
        a is Other ==> a.shown(host) == PrViewModel::Error(Forge::Bitbucket, a->Other_0),
{
}

/// A reader that panicked is named by its surface, and by nothing else.
pub proof fn lemma_panic_names_surface(surface: Seq<char>)
    ensures
        panicked(surface) == ErrorModel::Other(surface + " read panicked"@),
{
}

}
