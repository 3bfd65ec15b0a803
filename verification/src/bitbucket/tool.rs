//! What `curl` and `git` are asked, and what came of it.

use vstd::prelude::*;

use crate::bitbucket::errors::{FailModel, SpawnFail};
use crate::text::{contains_text, texts};

verus! {

/// A tool to run.
#[derive(Debug)]
pub struct ToolCall {
    pub tool: String,
    pub args: Vec<String>,
    /// What to write to the tool's standard input.
    pub stdin: String,
    /// What to set in the tool's environment, by name.
    pub envs: Vec<(String, String)>,
}

/// What a [`ToolCall`] stands for.
pub struct CallModel {
    pub tool: Seq<char>,
    pub args: Seq<Seq<char>>,
    pub stdin: Seq<char>,
    pub envs: Seq<(Seq<char>, Seq<char>)>,
}

impl View for ToolCall {
    type V = CallModel;

    open spec fn view(&self) -> CallModel {
        CallModel {
            tool: self.tool@,
            args: texts(self.args@),
            stdin: self.stdin@,
            envs: self.envs@.map_values(|env: (String, String)| (env.0@, env.1@)),
        }
    }
}

/// The request for the password that git has stored for the host over HTTPS. Git may not ask the
/// user for it: without a stored one the call is to fail.
pub open spec fn credential_request(host: Seq<char>) -> CallModel {
    CallModel {
        tool: "git"@,
        args: seq!["credential"@, "fill"@],
        stdin: "protocol=https\nhost="@ + host + "\n\n"@,
        envs: seq![("GIT_TERMINAL_PROMPT"@, "0"@), ("GIT_ASKPASS"@, ""@)],
    }
}

/// The options of every request: quiet but for errors, failing where the host answers with an
/// error, and with the rest of the request on the standard input.
pub open spec fn get_options() -> Seq<Seq<char>> {
    seq!["--silent"@, "--show-error"@, "--fail"@, "--config"@, "-"@]
}

/// The request for `url` with the bearer token, which stands in what `curl` reads and not among
/// its arguments.
pub open spec fn get_request(token: Seq<char>, url: Seq<char>) -> CallModel {
    CallModel {
        tool: "curl"@,
        args: get_options().push(url),
        stdin: "header = \"Authorization: Bearer "@ + token + "\"\n"@,
        envs: Seq::empty(),
    }
}

/// The arguments and the environment of a request do not depend on the token, so that nobody who
/// lists the running processes can read it there.
pub proof fn lemma_token_stays_out_of_arguments(a: Seq<char>, b: Seq<char>, url: Seq<char>)
    ensures
        get_request(a, url).tool == get_request(b, url).tool,
        get_request(a, url).args == get_request(b, url).args,
        get_request(a, url).envs == get_request(b, url).envs,
{
}

/// No argument of a request holds the token, unless one of the fixed options or the URL does.
pub proof fn lemma_no_argument_holds_token(token: Seq<char>, url: Seq<char>)
    requires
        forall|i: int|
            0 <= i < get_options().len() ==> !contains_text(#[trigger] get_options()[i], token),
        !contains_text(url, token),
    ensures
        forall|i: int|
            0 <= i < get_request(token, url).args.len() ==> !contains_text(
                #[trigger] get_request(token, url).args[i],
                token,
            ),
{
    assert forall|i: int| 0 <= i < get_request(token, url).args.len() implies !contains_text(
        #[trigger] get_request(token, url).args[i],
        token,
    ) by {
        if i < get_options().len() {
            assert(get_request(token, url).args[i] == get_options()[i]);
        }
    }
}

/// No option is longer than twelve characters: a longer token, which the URL does not hold, is
/// in no argument of a request.
pub proof fn lemma_no_argument_holds_long_token(token: Seq<char>, url: Seq<char>)
    requires
        token.len() > 12,
        !contains_text(url, token),
    ensures
        forall|i: int|
            0 <= i < get_request(token, url).args.len() ==> !contains_text(
                #[trigger] get_request(token, url).args[i],
                token,
            ),
{
    reveal_strlit("--silent");
    reveal_strlit("--show-error");
    reveal_strlit("--fail");
    reveal_strlit("--config");
    reveal_strlit("-");
    assert forall|i: int| 0 <= i < get_options().len() implies !contains_text(
        #[trigger] get_options()[i],
        token,
    ) by {
        assert(get_options()[i].len() <= 12);
    }
    lemma_no_argument_holds_token(token, url);
}

/// The call that asks git for the password it has stored for the host.
pub fn credential_call(host: &str) -> (call: ToolCall)
    ensures
        call@ == credential_request(host@),
{
    let mut stdin = "protocol=https\nhost=".to_owned();
    stdin.append(host);
    stdin.append("\n\n");
    let mut args: Vec<String> = Vec::new();
    args.push("credential".to_owned());
    args.push("fill".to_owned());
    let mut envs: Vec<(String, String)> = Vec::new();
    envs.push(("GIT_TERMINAL_PROMPT".to_owned(), "0".to_owned()));
    envs.push(("GIT_ASKPASS".to_owned(), "".to_owned()));
    let call = ToolCall { tool: "git".to_owned(), args, stdin, envs };
    assert(call@.args =~= credential_request(host@).args);
    assert(call@.envs =~= credential_request(host@).envs);
    call
}

/// The call that gets `url` with the bearer token.
pub fn get_call(token: &str, url: &str) -> (call: ToolCall)
    ensures
        call@ == get_request(token@, url@),
{
    let mut stdin = "header = \"Authorization: Bearer ".to_owned();
    stdin.append(token);
    stdin.append("\"\n");
    let mut args: Vec<String> = Vec::new();
    args.push("--silent".to_owned());
    args.push("--show-error".to_owned());
    args.push("--fail".to_owned());
    args.push("--config".to_owned());
    args.push("-".to_owned());
    args.push(url.to_owned());
    let call = ToolCall { tool: "curl".to_owned(), args, stdin, envs: Vec::new() };
    assert(call@.args =~= get_request(token@, url@).args);
    assert(call@.envs =~= get_request(token@, url@).envs);
    call
}

/// What `String::from_utf8_lossy` reads from bytes.
pub uninterp spec fn lossy_text(bytes: Seq<u8>) -> Seq<char>;

/// Calls `String::from_utf8_lossy`, which decodes UTF-8 and puts replacement characters where
/// the bytes are none. Where these come is not stated.
#[verifier::external_body]
fn text_from_bytes(bytes: &Vec<u8>) -> (text: String)
    ensures
        text@ == lossy_text(bytes@),
        vstd::utf8::valid_utf8(bytes@) ==> text@ == vstd::utf8::decode_utf8(bytes@),
{
    String::from_utf8_lossy(bytes).into_owned()
}

/// What a tool's run gives: what it wrote, or how it failed.
pub enum OutputModel {
    Text(Seq<char>),
    Fail(FailModel),
}

/// What the run gave, by what it wrote.
pub open spec fn output_model(output: Result<String, SpawnFail>) -> OutputModel {
    match output {
        Ok(text) => OutputModel::Text(text@),
        Err(fail) => OutputModel::Fail(fail@),
    }
}

/// What the run gave, by what the tool wrote to its two outputs. A cancelled run failed, whatever
/// came of it.
pub open spec fn collected(
    cancelled: bool,
    success: bool,
    stdout: Seq<u8>,
    stderr: Seq<u8>,
) -> OutputModel {
    if cancelled {
        OutputModel::Fail(FailModel::Cancelled)
    } else if success {
        OutputModel::Text(lossy_text(stdout))
    } else {
        OutputModel::Fail(FailModel::Failed { stderr: lossy_text(stderr) })
    }
}

/// Decides what the run of a tool gave. A cancelled run failed, whatever came of it.
pub fn collect(cancelled: bool, success: bool, stdout: Vec<u8>, stderr: Vec<u8>) -> (output: Result<
    String,
    SpawnFail,
>)
    ensures
        output_model(output) == collected(cancelled, success, stdout@, stderr@),
        vstd::utf8::valid_utf8(stdout@) ==> (output matches Ok(text) ==> text@
            == vstd::utf8::decode_utf8(stdout@)),
        vstd::utf8::valid_utf8(stderr@) ==> (output matches Err(
            SpawnFail::Failed { stderr: report },
        ) ==> report@ == vstd::utf8::decode_utf8(stderr@)),
{
    if cancelled {
        Err(SpawnFail::Cancelled)
    } else if success {
        Ok(text_from_bytes(&stdout))
    } else {
        Err(SpawnFail::Failed { stderr: text_from_bytes(&stderr) })
    }
}

/// A request carries the token and the URL whole: different tokens give different inputs, and the
/// URL is the last argument, behind the same options whatever it is.
pub proof fn lemma_request_carries(token: Seq<char>, other: Seq<char>, url: Seq<char>)
    ensures
        get_request(token, url).tool == "curl"@,
        get_request(token, url).stdin == "header = \"Authorization: Bearer "@ + token + "\"\n"@,
        get_request(token, url).stdin == get_request(other, url).stdin ==> token == other,
        get_request(token, url).args.len() == 6,
        get_request(token, url).args.last() == url,
        get_request(token, url).args.drop_last() == seq![
            "--silent"@,
            "--show-error"@,
            "--fail"@,
            "--config"@,
            "-"@,
        ],
        get_request(token, url).envs.len() == 0,
{
    let start = "header = \"Authorization: Bearer "@;
    let end = "\"\n"@;
    let a = start + token + end;
    let b = start + other + end;
    if a == b {
        assert(a.len() == b.len());
        assert(token =~= a.subrange(start.len() as int, start.len() as int + token.len()));
        assert(other =~= b.subrange(start.len() as int, start.len() as int + other.len()));
    }
    assert(get_request(token, url).args.drop_last() =~= get_options());
}

/// Git is asked for the host's password over HTTPS, by its input, and may neither prompt on the
/// terminal nor ask another program.
pub proof fn lemma_credential_request(host: Seq<char>)
    ensures
        credential_request(host).tool == "git"@,
        credential_request(host).args == seq!["credential"@, "fill"@],
        credential_request(host).stdin == "protocol=https\nhost="@ + host + "\n\n"@,
        credential_request(host).envs.contains(("GIT_TERMINAL_PROMPT"@, "0"@)),
        credential_request(host).envs.contains(("GIT_ASKPASS"@, ""@)),
        credential_request(host).envs.len() == 2,
{
    assert(credential_request(host).envs[0] == ("GIT_TERMINAL_PROMPT"@, "0"@));
    assert(credential_request(host).envs[1] == ("GIT_ASKPASS"@, ""@));
}

/// What a run gives: nothing of its outputs where it was cancelled; of a success the standard
/// output, whatever stands on the other; of a failure the other, whatever stands on the first.
pub proof fn lemma_collected(success: bool, out: Seq<u8>, err: Seq<u8>, other: Seq<u8>)
    ensures
        collected(true, success, out, err) == OutputModel::Fail(FailModel::Cancelled),
        collected(false, true, out, err) == OutputModel::Text(lossy_text(out)),
        collected(false, true, out, err) == collected(false, true, out, other),
        collected(false, false, out, err) == OutputModel::Fail(
            FailModel::Failed { stderr: lossy_text(err) },
        ),
        collected(false, false, out, err) == collected(false, false, other, err),
{
}

}
