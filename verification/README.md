# herdr_reviewr

What the pull request tab of reviewr knows and decides, as a library whose behaviour is stated in
contracts and proved by Verus.

- `bitbucket` reads the pull request of a branch from Bitbucket Data Center. A fetch
  (`bitbucket::fetch::Fetch`) asks for one thing after another and ends with the view to show; a
  run of `curl` or `git` (`bitbucket::process::Run`) does the same on a smaller scale. What the
  responses mean is in `normalize`, `association` and `errors`, where they come from in `urls`,
  `tool` and `auth`. `runs` proves what holds of a whole fetch, whatever the outside answers.
- `forge` and `comments` hold what all forges have in common: checks, pull requests, comments.
- `calendar` turns milliseconds into times as text and reads them back.
- `json` holds JSON values; a text is read by `serde_json`.
- `browser` decides which links may open, and with which program.
- `launch` decides which part of the program an invocation runs.
- `markdown` and `text` are what the others need of characters.

`app/` is the program around it: it spawns the tools, asks the environment and opens the browser.

What Verus takes on trust is marked where it stands: `String::push` in `text`,
`String::from_utf8_lossy` in `bitbucket::tool`, and `serde_json` in `json`.
