//! Opening links in the user's browser: which links may open, and with which program.

use vstd::prelude::*;

use crate::markdown::{hostile_char, is_hostile};
use crate::text::{
    ascii_lower, chars_of, equal_ignoring_case, lemma_trimmed_stays, lower, texts, trim, trimmed,
};

verus! {

/// Whether the text begins with the scheme, in any case of its letters, and goes on behind it.
pub open spec fn has_scheme(text: Seq<char>, scheme: Seq<char>) -> bool {
    &&& text.len() > scheme.len()
    &&& equal_ignoring_case(text.take(scheme.len() as int), scheme)
}

/// Whether the text is a link that may open: `http://` or `https://` with something behind it,
/// and no hostile character anywhere.
pub open spec fn is_openable(text: Seq<char>) -> bool {
    &&& has_scheme(text, "http://"@) || has_scheme(text, "https://"@)
    &&& forall|i: int| 0 <= i < text.len() ==> !is_hostile(#[trigger] text[i])
}

/// Tells whether the text begins with the scheme and goes on behind it.
fn begins_with_scheme(chars: &Vec<char>, scheme: &str) -> (begins: bool)
    ensures
        begins == has_scheme(chars@, scheme@),
{
    let prefix = chars_of(scheme);
    if chars.len() <= prefix.len() {
        return false;
    }
    let ghost head = chars@.take(prefix.len() as int);
    let mut i: usize = 0;
    while i < prefix.len()
        invariant
            0 <= i <= prefix.len() < chars.len(),
            prefix@ == scheme@,
            head == chars@.take(prefix.len() as int),
            forall|j: int|
                0 <= j < i ==> ascii_lower(#[trigger] head[j]) == ascii_lower(prefix[j]),
        decreases prefix.len() - i,
    {
        if lower(chars[i]) != lower(prefix[i]) {
            assert(ascii_lower(head[i as int]) != ascii_lower(prefix[i as int]));
            return false;
        }
        i = i + 1;
    }
    true
}

/// Gates a markdown link destination before it reaches the opener: the destination without
/// white space at its ends, where it may open.
pub fn openable_url(url: &str) -> (opened: Result<&str, &'static str>)
    ensures
        match opened {
            Ok(link) => link@ == trimmed(url@) && is_openable(trimmed(url@)),
            Err(reason) => !is_openable(trimmed(url@)) && reason@ == "unsupported link scheme"@,
        },
{
    let link = trim(url);
    let chars = chars_of(link);
    let mut hostile = false;
    let mut i: usize = 0;
    while i < chars.len()
        invariant
            0 <= i <= chars.len(),
            hostile == exists|j: int| 0 <= j < i && is_hostile(#[trigger] chars[j]),
        decreases chars.len() - i,
    {
        if hostile_char(chars[i]) {
            hostile = true;
        }
        i = i + 1;
    }
    let schemed = begins_with_scheme(&chars, "http://") || begins_with_scheme(&chars, "https://");
    if !hostile && schemed {
        Ok(link)
    } else {
        Err("unsupported link scheme")
    }
}

/// A link that was let through is let through again, as the same text.
pub proof fn lemma_openable_link_stays(url: Seq<char>)
    requires
        is_openable(trimmed(url)),
    ensures
        trimmed(trimmed(url)) == trimmed(url),
        is_openable(trimmed(trimmed(url))),
{
    lemma_trimmed_stays(url);
}

/// A program that opens a URL, which it takes behind the other arguments.
#[derive(Debug)]
pub struct Opener {
    pub tool: String,
    pub args: Vec<String>,
}

/// What an [`Opener`] stands for.
pub struct OpenerModel {
    pub tool: Seq<char>,
    pub args: Seq<Seq<char>>,
}

impl View for Opener {
    type V = OpenerModel;

    open spec fn view(&self) -> OpenerModel {
        OpenerModel { tool: self.tool@, args: texts(self.args@) }
    }
}

/// The programs of the platform, in the order in which they are tried.
pub open spec fn platform_openers(windows: bool) -> Seq<OpenerModel> {
    if windows {
        seq![OpenerModel { tool: "rundll32"@, args: seq!["url.dll,FileProtocolHandler"@] }]
    } else {
        seq![
            OpenerModel { tool: "open"@, args: Seq::empty() },
            OpenerModel { tool: "xdg-open"@, args: Seq::empty() },
        ]
    }
}

/// What the programs stand for.
pub open spec fn opener_models(openers: Seq<Opener>) -> Seq<OpenerModel> {
    openers.map_values(|opener: Opener| opener@)
}

/// The programs of the platform, in the order in which they are tried. On Windows that is one
/// which takes the URL as it is, without a shell that reads `&` in it.
pub fn openers(windows: bool) -> (openers: Vec<Opener>)
    ensures
        opener_models(openers@) == platform_openers(windows),
{
    let mut openers: Vec<Opener> = Vec::new();
    if windows {
        let mut args: Vec<String> = Vec::new();
        args.push("url.dll,FileProtocolHandler".to_owned());
        assert(texts(args@) =~= seq!["url.dll,FileProtocolHandler"@]);
        openers.push(Opener { tool: "rundll32".to_owned(), args });
    } else {
        let none: Vec<String> = Vec::new();
        assert(texts(none@) =~= Seq::empty());
        openers.push(Opener { tool: "open".to_owned(), args: none });
        let none: Vec<String> = Vec::new();
        assert(texts(none@) =~= Seq::empty());
        openers.push(Opener { tool: "xdg-open".to_owned(), args: none });
    }
    assert(opener_models(openers@) =~= platform_openers(windows));
    openers
}

/// The arguments with which the program opens the URL: its own, and behind them the URL, as it
/// is, in one.
pub fn open_args(opener: &Opener, url: &str) -> (args: Vec<String>)
    ensures
        texts(args@) == opener@.args.push(url@),
{
    let mut args: Vec<String> = Vec::new();
    let ghost own = opener@.args;
    let mut i: usize = 0;
    while i < opener.args.len()
        invariant
            0 <= i <= opener.args.len(),
            own == texts(opener.args@),
            texts(args@) == own.take(i as int),
        decreases opener.args.len() - i,
    {
        let ghost before = texts(args@);
        args.push(opener.args[i].clone());
        assert(texts(args@) =~= before.push(own[i as int]));
        assert(texts(args@) =~= own.take(i + 1));
        i = i + 1;
    }
    assert(own.take(own.len() as int) =~= own);
    args.push(url.to_owned());
    assert(texts(args@) =~= own.push(url@));
    args
}

/// Picks the first program that is installed, by its place.
pub fn pick_opener(installed: &Vec<bool>) -> (picked: Result<usize, &'static str>)
    ensures
        match picked {
            Ok(i) => {
                &&& i < installed.len()
                &&& installed[i as int]
                &&& forall|j: int| 0 <= j < i ==> !installed[j]
            },
            Err(reason) => {
                &&& forall|j: int| 0 <= j < installed.len() ==> !installed[j]
                &&& reason@ == "no URL opener found (need `open`, `xdg-open`, or `rundll32`)"@
            },
        },
{
    let mut i: usize = 0;
    while i < installed.len()
        invariant
            0 <= i <= installed.len(),
            forall|j: int| 0 <= j < i ==> !installed[j],
        decreases installed.len() - i,
    {
        if installed[i] {
            return Ok(i);
        }
        i = i + 1;
    }
    Err("no URL opener found (need `open`, `xdg-open`, or `rundll32`)")
}

/// Tells what came of the program that was to open the URL.
pub fn open_outcome(tool: &str, success: bool) -> (outcome: Result<(), String>)
    ensures
        match outcome {
            Ok(_) => success,
            Err(message) => !success && message@ == tool@ + " failed to open the URL"@,
        },
{
    if success {
        Ok(())
    } else {
        let mut message = tool.to_owned();
        message.append(" failed to open the URL");
        Err(message)
    }
}

/// A link opens where it is `http://` or `https://`, in any case of the letters, and then
/// something, and no character of it controls the terminal or the writing direction.
pub proof fn lemma_web_link_opens(scheme: Seq<char>, rest: Seq<char>)
    requires
        equal_ignoring_case(scheme, "http://"@) || equal_ignoring_case(scheme, "https://"@),
        rest.len() > 0,
        forall|i: int|
            0 <= i < (scheme + rest).len() ==> !is_hostile(#[trigger] (scheme + rest)[i]),
    ensures
        is_openable(scheme + rest),
{
    assert((scheme + rest).take(scheme.len() as int) =~= scheme);
}

/// No other text opens: what opens is such a scheme, one character or more behind it, and holds
/// no hostile character.
pub proof fn lemma_opened_is_web_link(text: Seq<char>) -> (parts: (Seq<char>, Seq<char>))
    requires
        is_openable(text),
    ensures
        text == parts.0 + parts.1,
        equal_ignoring_case(parts.0, "http://"@) || equal_ignoring_case(parts.0, "https://"@),
        parts.1.len() > 0,
        forall|i: int| 0 <= i < text.len() ==> !is_hostile(#[trigger] text[i]),
{
    let n = if has_scheme(text, "http://"@) {
        "http://"@.len() as int
    } else {
        "https://"@.len() as int
    };
    assert(text =~= text.take(n) + text.skip(n));
    (text.take(n), text.skip(n))
}

}
