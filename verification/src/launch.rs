//! Which part of the program an invocation runs.

use vstd::prelude::*;

use crate::text::{same_text, texts};

verus! {

/// The part of the program to run, with its arguments.
#[derive(Debug)]
pub enum Launch {
    /// Print the plugin's configuration.
    PluginConfig,
    /// Run a command for an agent.
    Cli(Vec<String>),
    /// Run the sidebar.
    Sidebar(Vec<String>),
    /// Run the review.
    ReviewUi,
}

/// What a [`Launch`] stands for.
pub enum LaunchModel {
    PluginConfig,
    Cli(Seq<Seq<char>>),
    Sidebar(Seq<Seq<char>>),
    ReviewUi,
}

impl View for Launch {
    type V = LaunchModel;

    open spec fn view(&self) -> LaunchModel {
        match *self {
            Launch::PluginConfig => LaunchModel::PluginConfig,
            Launch::Cli(args) => LaunchModel::Cli(texts(args@)),
            Launch::Sidebar(args) => LaunchModel::Sidebar(texts(args@)),
            Launch::ReviewUi => LaunchModel::ReviewUi,
        }
    }
}

/// Whether the flag for the plugin's configuration stands anywhere behind the program's name.
pub open spec fn wants_plugin_config(args: Seq<Seq<char>>) -> bool {
    exists|i: int| 1 <= i < args.len() && #[trigger] args[i] == "--resolve-plugin-config"@
}

/// Whether the argument names a command for an agent.
pub open spec fn is_command(arg: Seq<char>) -> bool {
    arg == "comment"@ || arg == "skill-install"@ || arg == "skill-path"@
}

/// What the arguments, the program's name first, ask for. With the flag for the plugin's
/// configuration nothing else runs; else the first argument decides.
pub open spec fn launched(args: Seq<Seq<char>>) -> LaunchModel {
    if wants_plugin_config(args) {
        LaunchModel::PluginConfig
    } else if args.len() > 1 && is_command(args[1]) {
        LaunchModel::Cli(args.skip(1))
    } else if args.len() > 1 && args[1] == "sidebar"@ {
        LaunchModel::Sidebar(args.skip(2))
    } else {
        LaunchModel::ReviewUi
    }
}

/// A process that was given the flag for the plugin's configuration never runs the review, nor
/// anything else, wherever behind the program's name the flag stands.
pub proof fn lemma_flag_decides(args: Seq<Seq<char>>, i: int)
    requires
        1 <= i < args.len(),
        args[i] == "--resolve-plugin-config"@,
    ensures
        launched(args) is PluginConfig,
{
    assert(wants_plugin_config(args));
}

/// A copy of the arguments from `from` on.
fn rest_of(args: &Vec<String>, from: usize) -> (rest: Vec<String>)
    requires
        from <= args.len(),
    ensures
        texts(rest@) == texts(args@).skip(from as int),
{
    let mut rest: Vec<String> = Vec::new();
    let mut i: usize = from;
    while i < args.len()
        invariant
            from <= i <= args.len(),
            texts(rest@) == texts(args@).subrange(from as int, i as int),
        decreases args.len() - i,
    {
        let ghost before = texts(rest@);
        rest.push(args[i].clone());
        assert(texts(rest@) =~= before.push(args[i as int]@));
        assert(texts(rest@) =~= texts(args@).subrange(from as int, i + 1));
        i = i + 1;
    }
    assert(texts(args@).subrange(from as int, args.len() as int) =~= texts(args@).skip(
        from as int,
    ));
    rest
}

/// Decides which part of the program the arguments, the program's name first, ask for.
pub fn launch(args: &Vec<String>) -> (launch: Launch)
    ensures
        launch@ == launched(texts(args@)),
{
    let ghost all = texts(args@);
    let mut i: usize = 1;
    while i < args.len()
        invariant
            1 <= i,
            all == texts(args@),
            forall|j: int| 1 <= j < i && j < all.len() ==> #[trigger] all[j]
                != "--resolve-plugin-config"@,
        decreases args.len() - i,
    {
        assert(all[i as int] == args[i as int]@);
        if same_text(args[i].as_str(), "--resolve-plugin-config") {
            return Launch::PluginConfig;
        }
        i = i + 1;
    }
    if args.len() > 1 {
        let first = args[1].as_str();
        assert(all[1] == first@);
        if same_text(first, "comment") || same_text(first, "skill-install") || same_text(
            first,
            "skill-path",
        ) {
            return Launch::Cli(rest_of(args, 1));
        }
        if same_text(first, "sidebar") {
            return Launch::Sidebar(rest_of(args, 2));
        }
    }
    Launch::ReviewUi
}

/// Without the flag for the plugin's configuration, a first argument that names a command gives
/// that command all the arguments from its own name on, however many follow, also none.
pub proof fn lemma_command_gets_all(program: Seq<char>, command: Seq<char>, rest: Seq<Seq<char>>)
    requires
        command == "comment"@ || command == "skill-install"@ || command == "skill-path"@,
        !rest.contains("--resolve-plugin-config"@),
    ensures
        launched(seq![program, command] + rest) == LaunchModel::Cli(seq![command] + rest),
{
    lemma_words_differ();
    let args = seq![program, command] + rest;
    lemma_no_flag(args, rest);
    assert(args.skip(1) =~= seq![command] + rest);
}

/// Without the flag for the plugin's configuration, a first argument `sidebar` gives the sidebar
/// all that follows, also nothing.
pub proof fn lemma_sidebar_gets_rest(program: Seq<char>, rest: Seq<Seq<char>>)
    requires
        !rest.contains("--resolve-plugin-config"@),
    ensures
        launched(seq![program, "sidebar"@] + rest) == LaunchModel::Sidebar(rest),
{
    lemma_words_differ();
    let args = seq![program, "sidebar"@] + rest;
    lemma_no_flag(args, rest);
    assert(args.skip(2) =~= rest);
}

/// Any other invocation without the flag runs the review: one without arguments, and one whose
/// first argument is none of the words, whatever follows it.
pub proof fn lemma_rest_runs_review(program: Seq<char>, first: Seq<char>, rest: Seq<Seq<char>>)
    requires
        first != "comment"@,
        first != "skill-install"@,
        first != "skill-path"@,
        first != "sidebar"@,
        first != "--resolve-plugin-config"@,
        !rest.contains("--resolve-plugin-config"@),
    ensures
        launched(Seq::empty()) is ReviewUi,
        launched(seq![program]) is ReviewUi,
        launched(seq![program, first] + rest) is ReviewUi,
{
    lemma_no_flag(seq![program, first] + rest, rest);
}

/// The plugin's configuration is printed only where the flag for it stands behind the program's
/// name.
pub proof fn lemma_configuration_needs_flag(args: Seq<Seq<char>>)
    requires
        launched(args) is PluginConfig,
    ensures
        args.len() > 1,
        args.skip(1).contains("--resolve-plugin-config"@),
{
    let i = choose|i: int| 1 <= i < args.len() && #[trigger] args[i] == "--resolve-plugin-config"@;
    assert(args.skip(1)[i - 1] == args[i]);
}

proof fn lemma_words_differ()
    ensures
        "comment"@ != "--resolve-plugin-config"@,
        "skill-install"@ != "--resolve-plugin-config"@,
        "skill-path"@ != "--resolve-plugin-config"@,
        "sidebar"@ != "--resolve-plugin-config"@,
        "sidebar"@ != "comment"@,
        "sidebar"@ != "skill-install"@,
        "sidebar"@ != "skill-path"@,
{
    reveal_strlit("comment");
    reveal_strlit("skill-install");
    reveal_strlit("skill-path");
    reveal_strlit("sidebar");
    reveal_strlit("--resolve-plugin-config");
    assert("comment"@[0] == 'c');
    assert("sidebar"@[0] == 's');
    assert("comment"@.len() == 7);
    assert("skill-install"@.len() == 13);
    assert("skill-path"@.len() == 10);
    assert("sidebar"@.len() == 7);
    assert("--resolve-plugin-config"@.len() == 23);
}

proof fn lemma_no_flag(args: Seq<Seq<char>>, rest: Seq<Seq<char>>)
    requires
        args.len() == rest.len() + 2,
        args.skip(2) =~= rest,
        args[1] != "--resolve-plugin-config"@,
        !rest.contains("--resolve-plugin-config"@),
    ensures
        !wants_plugin_config(args),
{
    assert forall|i: int| 1 <= i < args.len() implies #[trigger] args[i]
        != "--resolve-plugin-config"@ by {
        if i >= 2 {
            assert(args.skip(2)[i - 2] == args[i]);
            assert(rest.contains(args[i]));
        }
    }
}

}
