//! Where the bearer token comes from.

use vstd::prelude::*;

use crate::bitbucket::errors::SpawnFail;
use crate::bitbucket::tool::{output_model, OutputModel};
use crate::text::{chars_of, stands, starts_with_text};

verus! {

/// Whether there is a text, and not the empty one.
pub open spec fn is_usable(text: Option<String>) -> bool {
    text matches Some(t) && t@.len() > 0
}

/// The token that `text` gives.
pub open spec fn is_token(token: Result<String, ()>, text: Option<String>) -> bool {
    if is_usable(text) {
        token matches Ok(t) && t@ == text->0@
    } else {
        token is Err
    }
}

/// Decides on the token: one from the environment wins, then the password of the credential
/// helper, and an empty one is none. The helper is asked only where the environment has none.
pub fn token_from<F: FnOnce() -> Option<String>>(
    env: Option<String>,
    credential_password: F,
) -> (token: Result<String, ()>)
    requires
        !is_usable(env) ==> credential_password.requires(()),
    ensures
        is_usable(env) ==> is_token(token, env),
        !is_usable(env) ==> exists|password: Option<String>| #[trigger]
            credential_password.ensures((), password) && is_token(token, password),
{
    if let Some(text) = env {
        if !text.as_str().is_empty() {
            return Ok(text);
        }
    }
    let password = credential_password();
    if let Some(text) = password {
        if !text.as_str().is_empty() {
            return Ok(text);
        }
    }
    Err(())
}

/// Where the first line ends: at its line feed, or at the end of the text.
pub open spec fn line_end(text: Seq<char>) -> int
    decreases text.len(),
{
    if text.len() == 0 || text[0] == '\n' {
        0
    } else {
        1 + line_end(text.drop_first())
    }
}

/// The first line, without its line feed and a carriage return before that.
pub open spec fn first_line(text: Seq<char>) -> Seq<char> {
    let end = line_end(text);
    if 0 < end < text.len() && text[end - 1] == '\r' {
        text.take(end - 1)
    } else {
        text.take(end)
    }
}

/// What follows the first line.
pub open spec fn other_lines(text: Seq<char>) -> Seq<char> {
    if line_end(text) < text.len() {
        text.skip(line_end(text) + 1)
    } else {
        Seq::empty()
    }
}

proof fn lemma_line_end(text: Seq<char>)
    ensures
        0 <= line_end(text) <= text.len(),
        line_end(text) < text.len() ==> text[line_end(text)] == '\n',
        forall|i: int| 0 <= i < line_end(text) ==> text[i] != '\n',
    decreases text.len(),
{
    if text.len() > 0 && text[0] != '\n' {
        let rest = text.drop_first();
        lemma_line_end(rest);
        assert forall|i: int| 0 <= i < line_end(text) implies text[i] != '\n' by {
            if i > 0 {
                assert(rest[i - 1] == text[i]);
            }
        }
    }
}

/// What follows `key` on the first line that starts with it.
pub open spec fn value_of(text: Seq<char>, key: Seq<char>) -> Option<Seq<char>>
    decreases text.len(),
    via value_of_ends
{
    if text.len() == 0 {
        None
    } else if starts_with_text(first_line(text), key) {
        Some(first_line(text).skip(key.len() as int))
    } else {
        value_of(other_lines(text), key)
    }
}

#[via_fn]
proof fn value_of_ends(text: Seq<char>, key: Seq<char>) {
    lemma_line_end(text);
}

/// Finds the password in what git wrote: what follows `password=` on the first line that starts
/// with it.
fn password_in(output: &str) -> (password: Option<String>)
    ensures
        match password {
            Some(text) => value_of(output@, "password="@) == Some(text@),
            None => value_of(output@, "password="@) is None,
        },
{
    let chars = chars_of(output);
    let key = chars_of("password=");
    let mut start: usize = 0;
    assert(output@.skip(0) =~= output@);
    while start < chars.len()
        invariant
            0 <= start <= chars.len(),
            chars@ == output@,
            key@ == "password="@,
            value_of(output@, key@) == value_of(output@.skip(start as int), key@),
        decreases chars.len() - start,
    {
        let ghost rest = output@.skip(start as int);
        let mut end: usize = start;
        while end < chars.len() && chars[end] != '\n'
            invariant
                start <= end <= chars.len(),
                chars@ == output@,
                forall|i: int| start <= i < end ==> output@[i] != '\n',
            decreases chars.len() - end,
        {
            end = end + 1;
        }
        proof {
            lemma_line_end(rest);
            assert(line_end(rest) == end - start) by {
                let k = line_end(rest);
                if k < end - start {
                    assert(rest[k] == output@[start + k]);
                } else if k > end - start {
                    assert(rest[end - start] == output@[end as int]);
                }
            }
        }
        let mut stop: usize = end;
        if start < end && end < chars.len() && chars[end - 1] == '\r' {
            stop = end - 1;
        }
        let ghost line = first_line(rest);
        assert(line =~= output@.subrange(start as int, stop as int));
        if key.len() <= stop - start && stands(&chars, &key, start) {
            assert(line.subrange(0, key@.len() as int) =~= output@.subrange(
                start as int,
                start + key@.len(),
            ));
            assert(line.skip(key@.len() as int) =~= output@.subrange(
                start + key@.len(),
                stop as int,
            ));
            return Some(output.substring_char(start + key.len(), stop).to_owned());
        }
        proof {
            if starts_with_text(line, key@) {
                assert(line.subrange(0, key@.len() as int) =~= output@.subrange(
                    start as int,
                    start + key@.len(),
                ));
            }
            if end < chars.len() {
                assert(other_lines(rest) =~= output@.skip(end + 1));
            } else {
                assert(other_lines(rest) =~= output@.skip(chars.len() as int));
            }
        }
        if end < chars.len() {
            start = end + 1;
        } else {
            start = end;
        }
    }
    None
}

/// Reads the answer of the credential helper: the password, or none where the call failed or git
/// has none.
pub fn stored_password(output: Result<String, SpawnFail>) -> (password: Option<String>)
    ensures
        match output_model(output) {
            OutputModel::Text(text) => match password {
                Some(found) => value_of(text, "password="@) == Some(found@),
                None => value_of(text, "password="@) is None,
            },
            OutputModel::Fail(_) => password is None,
        },
{
    match output {
        Ok(text) => password_in(text.as_str()),
        Err(_) => None,
    }
}

/// A text that is not empty is a token, as it is; without one there is none.
pub proof fn lemma_token(text: Option<String>, token: Result<String, ()>)
    requires
        is_token(token, text),
    ensures
        text is Some && text->0@.len() > 0 ==> token is Ok && token->Ok_0@ == text->0@,
        text is Some && text->0@.len() == 0 ==> token is Err,
        text is None ==> token is Err,
{
}

/// Whether the text has no line feed.
pub open spec fn is_one_line(text: Seq<char>) -> bool {
    forall|i: int| 0 <= i < text.len() ==> text[i] != '\n'
}

proof fn lemma_line_end_is(line: Seq<char>, rest: Seq<char>)
    requires
        is_one_line(line),
    ensures
        line_end(line) == line.len(),
        line_end(line + seq!['\n'] + rest) == line.len(),
{
    lemma_line_end(line);
    if line_end(line) < line.len() {
        assert(line[line_end(line)] == '\n');
    }
    let text = line + seq!['\n'] + rest;
    lemma_line_end(text);
    let end = line_end(text);
    if end < line.len() {
        assert(text[end] == line[end]);
    } else if end > line.len() {
        assert(text[line.len() as int] == '\n');
    }
}

/// The value of a key is what follows it on its line, up to the line feed, or up to a carriage
/// return right before that, or up to the end of the text.
pub proof fn lemma_value_on_line(key: Seq<char>, value: Seq<char>, rest: Seq<char>)
    requires
        key.len() > 0,
        is_one_line(key),
        is_one_line(value),
    ensures
        value_of(key + value, key) == Some(value),
        value_of(key + value + seq!['\r', '\n'] + rest, key) == Some(value),
        (key + value).last() != '\r' ==> value_of(key + value + seq!['\n'] + rest, key) == Some(
            value,
        ),
{
    let line = key + value;
    assert(is_one_line(line));
    assert(line.skip(key.len() as int) =~= value);
    assert(line.subrange(0, key.len() as int) =~= key);
    lemma_line_end_is(line, rest);
    assert(first_line(line) =~= line);
    let whole = line + seq!['\n'] + rest;
    assert(whole[line.len() - 1] == line.last());
    if line.last() != '\r' {
        assert(first_line(whole) =~= line);
    }
    let returned = line + seq!['\r'];
    lemma_line_end_is(returned, rest);
    let both = line + seq!['\r', '\n'] + rest;
    assert(both =~= returned + seq!['\n'] + rest);
    assert(both[returned.len() - 1] == '\r');
    assert(first_line(both) =~= line);
}

/// A line that does not start with the key makes no difference; and without a line that does,
/// there is no value.
pub proof fn lemma_other_lines_do_not_count(key: Seq<char>, line: Seq<char>, rest: Seq<char>)
    requires
        is_one_line(line),
        forall|end: Seq<char>| line != #[trigger] (key + end),
        key.len() > 0,
    ensures
        value_of(Seq::empty(), key) is None,
        value_of(line, key) is None,
        value_of(line + seq!['\n'] + rest, key) == value_of(rest, key),
{
    reveal_with_fuel(value_of, 2);
    lemma_line_end_is(line, rest);
    let whole = line + seq!['\n'] + rest;
    assert(other_lines(whole) =~= rest);
    assert(other_lines(line) =~= Seq::empty());
    lemma_first_line_without_key(key, line, first_line(line));
    assert(whole.take(line.len() as int) =~= line);
    if line.len() > 0 {
        assert(whole.take(line.len() - 1) =~= line.take(line.len() - 1));
    }
    assert(first_line(whole) =~= line.take(first_line(whole).len() as int));
    lemma_first_line_without_key(key, line, first_line(whole));
}

proof fn lemma_first_line_without_key(key: Seq<char>, line: Seq<char>, start: Seq<char>)
    requires
        forall|end: Seq<char>| line != #[trigger] (key + end),
        start.len() <= line.len(),
        start == line.take(start.len() as int),
    ensures
        !starts_with_text(start, key),
{
    if starts_with_text(start, key) {
        crate::text::lemma_starts_with(key, Seq::empty(), start);
        let end = line.skip(key.len() as int);
        assert(line =~= key + end) by {
            assert(start.subrange(0, key.len() as int) =~= line.subrange(0, key.len() as int));
        }
    }
}

}
