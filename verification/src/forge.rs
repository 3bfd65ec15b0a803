//! What all forges have in common: the pull request as it is shown, and how its parts are put
//! together.

use vstd::prelude::*;

use crate::comments::{comment_models, Comment, CommentModel};
use crate::json::{Json, JsonTree};
use crate::text::same_text;

verus! {

/// A host for repositories and pull requests.
#[derive(Debug, Clone, Copy, PartialEq, Eq, Structural)]
pub enum Forge {
    GitHub,
    GitLab,
    AzureDevOps,
    Bitbucket,
}

/// The lifecycle of a pull request.
#[derive(Debug, Clone, Copy, PartialEq, Eq, Structural)]
pub enum PrState {
    Open,
    Merged,
    Closed,
}

/// Whether a pull request can be merged.
#[derive(Debug, Clone, Copy, PartialEq, Eq, Structural)]
pub enum Merge {
    Clean,
    Conflicting,
    Blocked,
}

/// The outcome of a check.
#[derive(Debug, Clone, Copy, PartialEq, Eq, Structural)]
pub enum CheckStatus {
    Success,
    Failure,
    Running,
    Skipped,
    Pending,
}

/// How the local branch stands to the head of the pull request.
#[derive(Debug, Clone, Copy, PartialEq, Eq, Structural)]
pub enum Sync {
    InSync,
    Ahead(u64),
    Behind(u64),
    Diverged(u64, u64),
    Unknown,
}

/// A repository on a host.
#[derive(Debug)]
pub struct RepoTarget {
    pub host: String,
    pub owner: String,
    pub name: String,
}

/// What a [`RepoTarget`] stands for.
pub struct RepoModel {
    pub host: Seq<char>,
    pub owner: Seq<char>,
    pub name: Seq<char>,
}

impl View for RepoTarget {
    type V = RepoModel;

    open spec fn view(&self) -> RepoModel {
        RepoModel { host: self.host@, owner: self.owner@, name: self.name@ }
    }
}

impl RepoTarget {
    /// Another copy of the same repository.
    pub fn copy(&self) -> (copy: RepoTarget)
        ensures
            copy@ == self@,
    {
        RepoTarget { host: self.host.clone(), owner: self.owner.clone(), name: self.name.clone() }
    }
}

/// The repository to ask after the target: where the origin is a fork of it, that is another
/// repository on the same host.
pub open spec fn fork_of(origin: Option<RepoModel>, target: RepoModel) -> Option<RepoModel> {
    match origin {
        Some(repo) => if repo.host == target.host && repo != target {
            Some(repo)
        } else {
            None
        },
        None => None,
    }
}

/// The model of a repository that may be missing.
pub open spec fn repo_model(repo: Option<RepoTarget>) -> Option<RepoModel> {
    match repo {
        Some(repo) => Some(repo@),
        None => None,
    }
}

/// Picks the repository to ask after the target: the origin, where it is another repository on
/// the same host.
pub fn fork_repository(origin: &Option<RepoTarget>, target: &RepoTarget) -> (fork: Option<
    RepoTarget,
>)
    ensures
        repo_model(fork) == fork_of(repo_model(*origin), target@),
{
    match origin {
        Some(repo) => {
            let same_host = same_text(repo.host.as_str(), target.host.as_str());
            let same_owner = same_text(repo.owner.as_str(), target.owner.as_str());
            let same_name = same_text(repo.name.as_str(), target.name.as_str());
            if same_host && !(same_owner && same_name) {
                Some(repo.copy())
            } else {
                None
            }
        },
        None => None,
    }
}

/// A check on the head commit.
#[derive(Debug)]
pub struct Check {
    pub name: String,
    pub status: CheckStatus,
}

/// What a [`Check`] stands for.
pub struct CheckModel {
    pub name: Seq<char>,
    pub status: CheckStatus,
}

impl View for Check {
    type V = CheckModel;

    open spec fn view(&self) -> CheckModel {
        CheckModel { name: self.name@, status: self.status }
    }
}

/// What the checks stand for.
pub open spec fn check_models(checks: Seq<Check>) -> Seq<CheckModel> {
    checks.map_values(|check: Check| check@)
}

/// The checks with `check` in the place of the first of the same name, or behind them.
pub open spec fn upserted(checks: Seq<CheckModel>, check: CheckModel) -> Seq<CheckModel>
    decreases checks.len(),
{
    if checks.len() == 0 {
        seq![check]
    } else if checks.first().name == check.name {
        checks.update(0, check)
    } else {
        seq![checks.first()] + upserted(checks.drop_first(), check)
    }
}

/// Puts the check in the place of the one with its name, or behind the others.
pub fn upsert_latest(checks: &mut Vec<Check>, check: Check)
    ensures
        check_models(final(checks)@) == upserted(check_models(old(checks)@), check@),
{
    let ghost all = check_models(checks@);
    let mut i: usize = 0;
    assert(all.take(0) + upserted(all.skip(0), check@) =~= upserted(all, check@)) by {
        assert(all.skip(0) =~= all);
    }
    while i < checks.len()
        invariant
            0 <= i <= checks.len(),
            checks@ == old(checks)@,
            all == check_models(checks@),
            upserted(all, check@) == all.take(i as int) + upserted(all.skip(i as int), check@),
        decreases checks.len() - i,
    {
        let ghost rest = all.skip(i as int);
        assert(rest.first() == checks[i as int]@);
        if same_text(checks[i].name.as_str(), check.name.as_str()) {
            assert(all.take(i as int) + rest.update(0, check@) =~= all.update(i as int, check@));
            checks.set(i, check);
            assert(check_models(checks@) =~= all.update(i as int, check@));
            return ;
        }
        assert(rest.drop_first() =~= all.skip(i + 1));
        assert(all.take(i as int) + (seq![rest.first()] + upserted(all.skip(i + 1), check@))
            =~= all.take(i + 1) + upserted(all.skip(i + 1), check@));
        i = i + 1;
    }
    checks.push(check);
    assert(check_models(checks@) =~= all.take(i as int) + seq![check@]);
}

/// Whether one of the checks has the name.
pub open spec fn has_check(checks: Seq<CheckModel>, name: Seq<char>) -> bool {
    exists|i: int| 0 <= i < checks.len() && (#[trigger] checks[i]).name == name
}

/// Whether no two of the checks have one name.
pub open spec fn names_differ(checks: Seq<CheckModel>) -> bool {
    forall|i: int, j: int|
        0 <= i < j < checks.len() ==> (#[trigger] checks[i]).name != (#[trigger] checks[j]).name
}

/// A check either takes the place of one of its name or comes behind all others.
proof fn lemma_upserted_place(checks: Seq<CheckModel>, check: CheckModel) -> (place: int)
    ensures
        0 <= place <= checks.len(),
        place < checks.len() ==> checks[place].name == check.name && upserted(checks, check)
            == checks.update(place, check),
        place == checks.len() ==> !has_check(checks, check.name) && upserted(checks, check)
            == checks.push(check),
    decreases checks.len(),
{
    if checks.len() == 0 {
        assert(upserted(checks, check) =~= checks.push(check));
        0
    } else if checks.first().name == check.name {
        0
    } else {
        let rest = checks.drop_first();
        let place = lemma_upserted_place(rest, check);
        let all = seq![checks.first()] + upserted(rest, check);
        if place < rest.len() {
            assert(rest[place] == checks[place + 1]);
            assert(all =~= checks.update(place + 1, check));
        } else {
            assert(all =~= checks.push(check));
            assert forall|i: int| 0 <= i < checks.len() implies (#[trigger] checks[i]).name
                != check.name by {
                if i > 0 {
                    assert(rest[i - 1] == checks[i]);
                }
            }
        }
        place + 1
    }
}

/// What putting a check among others does: no name comes twice, the name has the new check, and
/// the checks of other names stay.
pub proof fn lemma_upserted(checks: Seq<CheckModel>, check: CheckModel)
    requires
        names_differ(checks),
    ensures
        names_differ(upserted(checks, check)),
        forall|name: Seq<char>|
            #[trigger] has_check(upserted(checks, check), name) == (has_check(checks, name) || name
                == check.name),
        forall|i: int|
            0 <= i < upserted(checks, check).len() ==> ({
                let one = #[trigger] upserted(checks, check)[i];
                if one.name == check.name {
                    one == check
                } else {
                    i < checks.len() && checks[i] == one
                }
            }),
        has_check(checks, check.name) ==> upserted(checks, check).len() == checks.len(),
        !has_check(checks, check.name) ==> upserted(checks, check) == checks.push(check),
{
    let place = lemma_upserted_place(checks, check);
    let result = upserted(checks, check);
    assert forall|i: int| 0 <= i < result.len() implies ({
        let one = #[trigger] result[i];
        if one.name == check.name {
            one == check
        } else {
            i < checks.len() && checks[i] == one
        }
    }) by {
        if i != place && result[i].name == check.name {
            assert(result[i] == checks[i]);
            assert(has_check(checks, check.name));
        }
    }
    assert forall|i: int, j: int| 0 <= i < j < result.len() implies (#[trigger] result[i]).name
        != (#[trigger] result[j]).name by {
        if i != place && j != place {
            assert(result[i] == checks[i]);
            assert(result[j] == checks[j]);
        } else if place < checks.len() {
            assert(result[place].name == checks[place].name);
            assert(result[i].name == checks[i].name);
            assert(result[j].name == checks[j].name);
        }
    }
    assert forall|name: Seq<char>| #[trigger] has_check(result, name) == (has_check(checks, name)
        || name == check.name) by {
        if has_check(checks, name) {
            let i = choose|i: int| 0 <= i < checks.len() && (#[trigger] checks[i]).name == name;
            assert(result[i].name == name);
        }
        if name == check.name {
            assert(result[place].name == name);
        }
        if has_check(result, name) {
            let i = choose|i: int| 0 <= i < result.len() && (#[trigger] result[i]).name == name;
            if i != place {
                assert(checks[i].name == name);
            }
        }
    }
}

/// A pull request among those of a branch.
#[derive(Debug)]
pub struct AssocPr {
    pub number: u64,
    pub head_oid: String,
    pub head_ref: String,
    pub created_at: String,
    /// When it was closed; empty for an open one.
    pub closed_at: String,
    /// What the forge said of it, where a later step needs more.
    pub raw: Option<Json>,
}

/// What an [`AssocPr`] stands for.
pub struct AssocPrModel {
    pub number: u64,
    pub head_oid: Seq<char>,
    pub head_ref: Seq<char>,
    pub created_at: Seq<char>,
    pub closed_at: Seq<char>,
    pub raw: Option<JsonTree>,
}

impl View for AssocPr {
    type V = AssocPrModel;

    open spec fn view(&self) -> AssocPrModel {
        AssocPrModel {
            number: self.number,
            head_oid: self.head_oid@,
            head_ref: self.head_ref@,
            created_at: self.created_at@,
            closed_at: self.closed_at@,
            raw: match self.raw {
                Some(json) => Some(json@),
                None => None,
            },
        }
    }
}

/// What the pull requests stand for.
pub open spec fn assoc_pr_models(prs: Seq<AssocPr>) -> Seq<AssocPrModel> {
    prs.map_values(|pr: AssocPr| pr@)
}

/// The pull requests of a branch.
#[derive(Debug)]
pub struct Association {
    pub open: Vec<AssocPr>,
    pub history: Vec<AssocPr>,
}

/// What an [`Association`] stands for.
pub struct AssociationModel {
    pub open: Seq<AssocPrModel>,
    pub history: Seq<AssocPrModel>,
}

impl View for Association {
    type V = AssociationModel;

    open spec fn view(&self) -> AssociationModel {
        AssociationModel {
            open: assoc_pr_models(self.open@),
            history: assoc_pr_models(self.history@),
        }
    }
}

/// Whether one of the pull requests has the number.
pub open spec fn has_number(prs: Seq<AssocPrModel>, number: u64) -> bool {
    exists|i: int| 0 <= i < prs.len() && (#[trigger] prs[i]).number == number
}

/// The pull requests with `pr` behind them, unless its number is among them.
pub open spec fn with_unique(prs: Seq<AssocPrModel>, pr: AssocPrModel) -> Seq<AssocPrModel> {
    if has_number(prs, pr.number) {
        prs
    } else {
        prs.push(pr)
    }
}

/// Appends the pull request, unless its number is already there.
pub fn push_unique(prs: &mut Vec<AssocPr>, pr: AssocPr)
    ensures
        assoc_pr_models(final(prs)@) == with_unique(assoc_pr_models(old(prs)@), pr@),
{
    let ghost all = assoc_pr_models(prs@);
    let mut i: usize = 0;
    while i < prs.len()
        invariant
            0 <= i <= prs.len(),
            prs@ == old(prs)@,
            all == assoc_pr_models(prs@),
            forall|j: int| 0 <= j < i ==> (#[trigger] all[j]).number != pr.number,
        decreases prs.len() - i,
    {
        assert(all[i as int] == prs[i as int]@);
        if prs[i].number == pr.number {
            return ;
        }
        i = i + 1;
    }
    prs.push(pr);
    assert(assoc_pr_models(prs@) =~= all.push(pr@));
}

/// A pull request as it is shown.
#[derive(Debug)]
pub struct PrSnapshot {
    pub number: u64,
    pub title: String,
    pub url: String,
    pub body: String,
    pub state: PrState,
    pub is_draft: bool,
    pub head_ref: String,
    pub head_is_fork: bool,
    pub head_oid: String,
    pub base_ref: String,
    pub merge: Merge,
    pub sync: Sync,
    pub checks: Vec<Check>,
    pub comments: Vec<Comment>,
    /// Whether the forge holds more than was read.
    pub truncated: bool,
}

/// What a [`PrSnapshot`] stands for.
pub struct SnapshotModel {
    pub number: u64,
    pub title: Seq<char>,
    pub url: Seq<char>,
    pub body: Seq<char>,
    pub state: PrState,
    pub is_draft: bool,
    pub head_ref: Seq<char>,
    pub head_is_fork: bool,
    pub head_oid: Seq<char>,
    pub base_ref: Seq<char>,
    pub merge: Merge,
    pub sync: Sync,
    pub checks: Seq<CheckModel>,
    pub comments: Seq<CommentModel>,
    pub truncated: bool,
}

impl View for PrSnapshot {
    type V = SnapshotModel;

    open spec fn view(&self) -> SnapshotModel {
        SnapshotModel {
            number: self.number,
            title: self.title@,
            url: self.url@,
            body: self.body@,
            state: self.state,
            is_draft: self.is_draft,
            head_ref: self.head_ref@,
            head_is_fork: self.head_is_fork,
            head_oid: self.head_oid@,
            base_ref: self.base_ref@,
            merge: self.merge,
            sync: self.sync,
            checks: check_models(self.checks@),
            comments: comment_models(self.comments@),
            truncated: self.truncated,
        }
    }
}

/// What the pull request tab shows.
#[derive(Debug)]
pub enum PrView {
    /// The forge's tool is not installed.
    NoCli(Forge),
    /// The forge on the host wants credentials.
    NotAuthed(Forge, String),
    /// The local repository could not be read.
    GitError(String),
    /// The forge could not be read.
    Error(Forge, String),
    /// The branch has no pull request.
    NoPr,
    Pr(Box<PrSnapshot>),
}

/// What a [`PrView`] stands for.
pub enum PrViewModel {
    NoCli(Forge),
    NotAuthed(Forge, Seq<char>),
    GitError(Seq<char>),
    Error(Forge, Seq<char>),
    NoPr,
    Pr(SnapshotModel),
}

impl View for PrView {
    type V = PrViewModel;

    open spec fn view(&self) -> PrViewModel {
        match *self {
            PrView::NoCli(forge) => PrViewModel::NoCli(forge),
            PrView::NotAuthed(forge, host) => PrViewModel::NotAuthed(forge, host@),
            PrView::GitError(message) => PrViewModel::GitError(message@),
            PrView::Error(forge, message) => PrViewModel::Error(forge, message@),
            PrView::NoPr => PrViewModel::NoPr,
            PrView::Pr(snapshot) => PrViewModel::Pr((*snapshot)@),
        }
    }
}

/// Whether the byte is a letter, a digit, or one of `-`, `.`, `_` and `~`.
pub open spec fn is_unreserved(byte: u8) -> bool {
    ||| 65 <= byte <= 90
    ||| 97 <= byte <= 122
    ||| 48 <= byte <= 57
    ||| byte == 45
    ||| byte == 46
    ||| byte == 95
    ||| byte == 126
}

/// The hexadecimal digit `n`, in upper case.
pub open spec fn hex_digit(n: int) -> char {
    if n < 10 {
        (48 + n) as char
    } else {
        (55 + n) as char
    }
}

/// What stands for the byte in a URL: itself, or `%` and two hexadecimal digits.
pub open spec fn url_piece(byte: u8) -> Seq<char> {
    if is_unreserved(byte) {
        seq![byte as char]
    } else {
        seq!['%', hex_digit(byte as int / 16), hex_digit(byte as int % 16)]
    }
}

/// What stands for the bytes in a URL.
pub open spec fn url_pieces(bytes: Seq<u8>) -> Seq<char>
    decreases bytes.len(),
{
    if bytes.len() == 0 {
        Seq::empty()
    } else {
        url_pieces(bytes.drop_last()) + url_piece(bytes.last())
    }
}

/// What stands for the text in a URL, by the bytes of its UTF-8 form.
pub open spec fn url_encoded(text: Seq<char>) -> Seq<char> {
    url_pieces(vstd::utf8::encode_utf8(text))
}

/// The hexadecimal digit `n`, in upper case.
fn hex(n: u8) -> (digit: char)
    requires
        n < 16,
    ensures
        digit == hex_digit(n as int),
{
    if n < 10 {
        (48 + n) as char
    } else {
        (55 + n) as char
    }
}

/// Writes the text so that it can stand as one part of a path or a query of a URL.
pub fn urlencode(text: &str) -> (encoded: String)
    ensures
        encoded@ == url_encoded(text@),
{
    let bytes = text.as_bytes();
    let mut encoded = String::new();
    let mut i: usize = 0;
    while i < bytes.len()
        invariant
            0 <= i <= bytes@.len(),
            encoded@ == url_pieces(bytes@.take(i as int)),
        decreases bytes@.len() - i,
    {
        let byte: u8 = bytes[i];
        let ghost upto = bytes@.take(i + 1);
        assert(upto.drop_last() =~= bytes@.take(i as int));
        assert(upto.last() == byte);
        let ghost before = encoded@;
        if (65 <= byte && byte <= 90) || (97 <= byte && byte <= 122) || (48 <= byte && byte <= 57)
            || byte == 45 || byte == 46 || byte == 95 || byte == 126 {
            encoded.push(byte as char);
        } else {
            encoded.push('%');
            encoded.push(hex(byte / 16));
            encoded.push(hex(byte % 16));
        }
        assert(encoded@ =~= before + url_piece(byte));
        i = i + 1;
    }
    assert(bytes@.take(bytes@.len() as int) =~= bytes@);
    encoded
}

/// Whether the character can stand in a part of a URL without a meaning of its own.
pub open spec fn is_url_safe(c: char) -> bool {
    ||| 'A' <= c <= 'Z'
    ||| 'a' <= c <= 'z'
    ||| '0' <= c <= '9'
    ||| c == '-'
    ||| c == '.'
    ||| c == '_'
    ||| c == '~'
    ||| c == '%'
}

/// An encoded text cannot end the part of the URL that it stands in: it holds no `/`, `?`, `&`,
/// `=`, `#`, space or control character.
pub proof fn lemma_encoded_is_url_safe(text: Seq<char>)
    ensures
        forall|i: int|
            0 <= i < url_encoded(text).len() ==> is_url_safe(#[trigger] url_encoded(text)[i]),
{
    lemma_pieces_are_url_safe(vstd::utf8::encode_utf8(text));
}

proof fn lemma_pieces_are_url_safe(bytes: Seq<u8>)
    ensures
        forall|i: int|
            0 <= i < url_pieces(bytes).len() ==> is_url_safe(#[trigger] url_pieces(bytes)[i]),
    decreases bytes.len(),
{
    if bytes.len() > 0 {
        let before = url_pieces(bytes.drop_last());
        let piece = url_piece(bytes.last());
        lemma_pieces_are_url_safe(bytes.drop_last());
        assert forall|i: int| 0 <= i < url_pieces(bytes).len() implies is_url_safe(
            #[trigger] url_pieces(bytes)[i],
        ) by {
            if i >= before.len() {
                assert(url_pieces(bytes)[i] == piece[i - before.len()]);
            }
        }
    }
}

/// The number that the hexadecimal digit writes.
pub open spec fn hex_value(digit: char) -> int {
    if digit <= '9' {
        digit as int - 48
    } else {
        digit as int - 55
    }
}

/// The bytes that the text stands for in a URL.
pub open spec fn url_bytes(text: Seq<char>) -> Seq<u8>
    decreases text.len(),
{
    if text.len() == 0 {
        Seq::empty()
    } else if text[0] == '%' && text.len() >= 3 {
        seq![(16 * hex_value(text[1]) + hex_value(text[2])) as u8] + url_bytes(text.skip(3))
    } else {
        seq![text[0] as u8] + url_bytes(text.skip(1))
    }
}

proof fn lemma_pieces_in_turn(bytes: Seq<u8>)
    requires
        bytes.len() > 0,
    ensures
        url_pieces(bytes) == url_piece(bytes.first()) + url_pieces(bytes.drop_first()),
    decreases bytes.len(),
{
    let rest = bytes.drop_first();
    if rest.len() == 0 {
        assert(url_pieces(bytes.drop_last()) =~= Seq::empty());
        assert(url_pieces(bytes) =~= url_piece(bytes.first()) + url_pieces(rest));
    } else {
        lemma_pieces_in_turn(bytes.drop_last());
        assert(bytes.drop_last().drop_first() =~= rest.drop_last());
        assert(url_pieces(bytes) =~= url_piece(bytes.first()) + url_pieces(rest));
    }
}

proof fn lemma_pieces_read_back(bytes: Seq<u8>)
    ensures
        url_bytes(url_pieces(bytes)) == bytes,
    decreases bytes.len(),
{
    if bytes.len() > 0 {
        let byte = bytes.first();
        let rest = bytes.drop_first();
        let text = url_pieces(bytes);
        lemma_pieces_in_turn(bytes);
        lemma_pieces_read_back(rest);
        if is_unreserved(byte) {
            assert(text[0] == byte as char);
            assert(text.skip(1) =~= url_pieces(rest));
        } else {
            assert(text[1] == hex_digit(byte as int / 16));
            assert(text[2] == hex_digit(byte as int % 16));
            assert(text.skip(3) =~= url_pieces(rest));
        }
        assert(url_bytes(text) =~= bytes);
    }
}

/// Reading an encoded text back gives the text, so that different texts never share a URL.
pub proof fn lemma_encoded_reads_back(text: Seq<char>)
    ensures
        vstd::utf8::decode_utf8(url_bytes(url_encoded(text))) == text,
{
    lemma_pieces_read_back(vstd::utf8::encode_utf8(text));
    vstd::utf8::encode_utf8_decode_utf8(text);
}

/// The fork is the origin, as it is, where that stands on the target's host and has another owner
/// or another name; there is none otherwise.
pub proof fn lemma_fork(origin: RepoModel, target: RepoModel)
    ensures
        fork_of(None, target) is None,
        origin.host == target.host && (origin.owner != target.owner || origin.name != target.name)
            ==> fork_of(Some(origin), target) == Some(origin),
        origin.host != target.host || (origin.owner == target.owner && origin.name == target.name)
            ==> fork_of(Some(origin), target) is None,
{
}

/// A pull request is added behind the others where its number is new; else nothing changes.
pub proof fn lemma_with_unique(prs: Seq<AssocPrModel>, pr: AssocPrModel)
    ensures
        (forall|i: int| 0 <= i < prs.len() ==> (#[trigger] prs[i]).number != pr.number)
            ==> with_unique(prs, pr) == prs.push(pr),
        (exists|i: int| 0 <= i < prs.len() && (#[trigger] prs[i]).number == pr.number)
            ==> with_unique(prs, pr) == prs,
{
}

proof fn lemma_pieces_join(a: Seq<u8>, b: Seq<u8>)
    ensures
        url_pieces(a + b) == url_pieces(a) + url_pieces(b),
    decreases b.len(),
{
    if b.len() == 0 {
        assert(a + b =~= a);
        assert(url_pieces(a) + url_pieces(b) =~= url_pieces(a));
    } else {
        lemma_pieces_join(a, b.drop_last());
        assert((a + b).drop_last() =~= a + b.drop_last());
        assert(url_pieces(a + b) =~= url_pieces(a) + url_pieces(b));
    }
}

proof fn lemma_bytes_join(a: Seq<char>, b: Seq<char>)
    ensures
        vstd::utf8::encode_utf8(a + b) == vstd::utf8::encode_utf8(a) + vstd::utf8::encode_utf8(b),
    decreases a.len(),
{
    if a.len() == 0 {
        assert(a + b =~= b);
        assert(vstd::utf8::encode_utf8(a) + vstd::utf8::encode_utf8(b) =~= vstd::utf8::encode_utf8(
            b,
        ));
    } else {
        lemma_bytes_join(a.drop_first(), b);
        assert((a + b).drop_first() =~= a.drop_first() + b);
        assert(vstd::utf8::encode_utf8(a + b) =~= vstd::utf8::encode_utf8(a)
            + vstd::utf8::encode_utf8(b));
    }
}

/// Every part of a text is encoded for itself, wherever it stands.
pub proof fn lemma_encoded_in_parts(a: Seq<char>, b: Seq<char>)
    ensures
        url_encoded(Seq::empty()) == Seq::<char>::empty(),
        url_encoded(a + b) == url_encoded(a) + url_encoded(b),
{
    lemma_bytes_join(a, b);
    lemma_pieces_join(vstd::utf8::encode_utf8(a), vstd::utf8::encode_utf8(b));
    assert(url_encoded(Seq::empty()) =~= Seq::<char>::empty());
}

/// A letter, a digit, and each of `-`, `.`, `_` and `~` stands for itself; of the other ASCII
/// characters each is `%` and its two hexadecimal digits.
pub proof fn lemma_encoded_ascii(c: char)
    requires
        c < '\u{80}',
    ensures
        ('A' <= c <= 'Z' || 'a' <= c <= 'z' || '0' <= c <= '9' || c == '-' || c == '.' || c == '_'
            || c == '~') ==> url_encoded(seq![c]) == seq![c],
        !('A' <= c <= 'Z' || 'a' <= c <= 'z' || '0' <= c <= '9' || c == '-' || c == '.' || c == '_'
            || c == '~') ==> url_encoded(seq![c]) == seq![
            '%',
            "0123456789ABCDEF"@[c as int / 16],
            "0123456789ABCDEF"@[c as int % 16],
        ],
{
    reveal_with_fuel(vstd::utf8::encode_utf8, 2);
    reveal_with_fuel(url_pieces, 2);
    reveal_strlit("0123456789ABCDEF");
    let bytes = vstd::utf8::encode_utf8(seq![c]);
    assert(seq![c].drop_first() =~= Seq::empty());
    let scalar = c as u32;
    assert((scalar & 0x7f) as u8 == scalar as u8) by (bit_vector)
        requires
            scalar < 0x80,
    ;
    assert(vstd::utf8::encode_scalar(scalar) =~= seq![c as u8]);
    assert(bytes =~= seq![c as u8]);
    assert(bytes.drop_last() =~= Seq::empty());
    assert(url_encoded(seq![c]) =~= url_piece(c as u8));
    assert("0123456789ABCDEF"@[c as int / 16] == hex_digit(c as int / 16));
    assert("0123456789ABCDEF"@[c as int % 16] == hex_digit(c as int % 16));
}

}
