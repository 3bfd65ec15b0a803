//! Where the REST interface has what a fetch reads.

use vstd::prelude::*;

use crate::forge::{url_encoded, urlencode};
use crate::text::{decimal, push_decimal, texts};

verus! {

/// The repository that the calls of a fetch are about.
#[derive(Debug)]
pub struct Ctx<'a> {
    pub host: &'a str,
    /// The project's key.
    pub owner: &'a str,
    /// The repository's slug.
    pub name: &'a str,
}

/// The start of all URLs of a repository's REST interface.
pub open spec fn base_url(host: Seq<char>, owner: Seq<char>, name: Seq<char>) -> Seq<char> {
    "https://"@ + host + "/rest/api/latest/projects/"@ + url_encoded(owner) + "/repos/"@
        + url_encoded(name)
}

/// The open pull requests from the branch.
pub open spec fn open_listing(base: Seq<char>, branch: Seq<char>) -> Seq<char> {
    base + "/pull-requests?state=OPEN&direction=OUTGOING&at=refs/heads/"@ + url_encoded(branch)
        + "&limit=100"@
}

/// The pull requests from the branch in any state.
pub open spec fn history_listing(base: Seq<char>, branch: Seq<char>) -> Seq<char> {
    base + "/pull-requests?state=ALL&direction=OUTGOING&at=refs/heads/"@ + url_encoded(branch)
        + "&limit=20"@
}

/// The listings for all candidate names of the branch: the open ones, then the historical ones.
pub open spec fn listings(base: Seq<char>, names: Seq<Seq<char>>) -> Seq<Seq<char>> {
    Seq::new(
        2 * names.len(),
        |i: int|
            if i < names.len() {
                open_listing(base, names[i])
            } else {
                history_listing(base, names[i - names.len()])
            },
    )
}

/// The pull request.
pub open spec fn detail_address(base: Seq<char>, id: u64) -> Seq<char> {
    base + "/pull-requests/"@ + decimal(id as nat)
}

/// Whether the pull request can be merged.
pub open spec fn merge_address(base: Seq<char>, id: u64) -> Seq<char> {
    detail_address(base, id) + "/merge"@
}

/// What happened on the pull request.
pub open spec fn activities_address(base: Seq<char>, id: u64) -> Seq<char> {
    detail_address(base, id) + "/activities?limit=100"@
}

/// The build statuses of a commit, which belong to no repository.
pub open spec fn checks_address(host: Seq<char>, sha: Seq<char>) -> Seq<char> {
    "https://"@ + host + "/rest/build-status/latest/commits/"@ + sha + "?limit=100"@
}

impl Ctx<'_> {
    /// The start of all URLs of the repository, as the contracts name it.
    pub open spec fn base_model(&self) -> Seq<char> {
        base_url(self.host@, self.owner@, self.name@)
    }

    /// The start of all URLs of the repository.
    pub fn base(&self) -> (base: String)
        ensures
            base@ == self.base_model(),
    {
        let mut base = "https://".to_owned();
        base.append(self.host);
        base.append("/rest/api/latest/projects/");
        base.append(urlencode(self.owner).as_str());
        base.append("/repos/");
        base.append(urlencode(self.name).as_str());
        base
    }

    /// The URLs of the listings for all candidate names of the branch: the open ones, then the
    /// historical ones.
    pub fn listing_urls(&self, names: &Vec<String>) -> (urls: Vec<String>)
        ensures
            texts(urls@) == listings(self.base_model(), texts(names@)),
    {
        let base = self.base();
        let mut urls: Vec<String> = Vec::new();
        let ghost all = listings(self.base_model(), texts(names@));
        let mut i: usize = 0;
        while i < names.len()
            invariant
                0 <= i <= names.len(),
                base@ == self.base_model(),
                all == listings(self.base_model(), texts(names@)),
                texts(urls@) == all.take(i as int),
            decreases names.len() - i,
        {
            let mut url = base.clone();
            url.append("/pull-requests?state=OPEN&direction=OUTGOING&at=refs/heads/");
            url.append(urlencode(names[i].as_str()).as_str());
            url.append("&limit=100");
            let ghost before = texts(urls@);
            urls.push(url);
            assert(texts(urls@) =~= before.push(url@));
            assert(all[i as int] == url@);
            assert(texts(urls@) =~= all.take(i + 1));
            i = i + 1;
        }
        i = 0;
        while i < names.len()
            invariant
                0 <= i <= names.len(),
                base@ == self.base_model(),
                all == listings(self.base_model(), texts(names@)),
                texts(urls@) == all.take(names.len() + i),
            decreases names.len() - i,
        {
            let mut url = base.clone();
            url.append("/pull-requests?state=ALL&direction=OUTGOING&at=refs/heads/");
            url.append(urlencode(names[i].as_str()).as_str());
            url.append("&limit=20");
            let ghost before = texts(urls@);
            urls.push(url);
            assert(texts(urls@) =~= before.push(url@));
            assert(all[names.len() + i] == url@);
            assert(texts(urls@) =~= all.take(names.len() + i + 1));
            i = i + 1;
        }
        assert(all.take(2 * names.len() as int) =~= all);
        urls
    }

    /// The URL of the pull request `id`.
    pub fn detail_url(&self, id: u64) -> (url: String)
        ensures
            url@ == detail_address(self.base_model(), id),
    {
        let mut url = self.base();
        url.append("/pull-requests/");
        push_decimal(&mut url, id);
        url
    }

    /// The URL of the mergeability of the pull request `id`.
    pub fn merge_url(&self, id: u64) -> (url: String)
        ensures
            url@ == merge_address(self.base_model(), id),
    {
        let mut url = self.detail_url(id);
        url.append("/merge");
        url
    }

    /// The URL of the activities on the pull request `id`.
    pub fn activities_url(&self, id: u64) -> (url: String)
        ensures
            url@ == activities_address(self.base_model(), id),
    {
        let mut url = self.detail_url(id);
        url.append("/activities?limit=100");
        url
    }

    /// The URL of the build statuses of the commit `sha`.
    pub fn checks_url(&self, sha: &str) -> (url: String)
        ensures
            url@ == checks_address(self.host@, sha@),
    {
        let mut url = "https://".to_owned();
        url.append(self.host);
        url.append("/rest/build-status/latest/commits/");
        url.append(sha);
        url.append("?limit=100");
        url
    }
}

/// The URLs of a repository stand on its host, and hold the project's key and the slug, encoded.
pub proof fn lemma_repository_urls(host: Seq<char>, owner: Seq<char>, name: Seq<char>, id: u64)
    ensures
        ({
            let base = "https://"@ + host + "/rest/api/latest/projects/"@ + url_encoded(owner)
                + "/repos/"@ + url_encoded(name);
            &&& base_url(host, owner, name) == base
            &&& detail_address(base, id) == base + "/pull-requests/"@ + decimal(id as nat)
            &&& merge_address(base, id) == base + "/pull-requests/"@ + decimal(id as nat)
                + "/merge"@
            &&& activities_address(base, id) == base + "/pull-requests/"@ + decimal(id as nat)
                + "/activities?limit=100"@
        }),
{
}

/// The build statuses stand on the host, by the commit alone.
pub proof fn lemma_checks_url(host: Seq<char>, sha: Seq<char>)
    ensures
        checks_address(host, sha) == "https://"@ + host + "/rest/build-status/latest/commits/"@
            + sha + "?limit=100"@,
{
}

/// Every candidate name has its two listings, the open one among the first half and the
/// historical one at the same place of the second: each holds the name, encoded, and the state
/// that is asked for.
pub proof fn lemma_listings(base: Seq<char>, names: Seq<Seq<char>>, i: int)
    requires
        0 <= i < names.len(),
    ensures
        listings(base, names).len() == 2 * names.len(),
        listings(base, names)[i] == base
            + "/pull-requests?state=OPEN&direction=OUTGOING&at=refs/heads/"@ + url_encoded(names[i])
            + "&limit=100"@,
        listings(base, names)[names.len() + i] == base
            + "/pull-requests?state=ALL&direction=OUTGOING&at=refs/heads/"@ + url_encoded(names[i])
            + "&limit=20"@,
{
}

/// Different pull requests of a repository have different URLs.
pub proof fn lemma_ids_have_urls(base: Seq<char>, a: u64, b: u64)
    requires
        detail_address(base, a) == detail_address(base, b),
    ensures
        a == b,
{
    let start = base + "/pull-requests/"@;
    assert(decimal(a as nat) =~= detail_address(base, a).skip(start.len() as int));
    assert(decimal(b as nat) =~= detail_address(base, b).skip(start.len() as int));
    crate::text::lemma_decimal_reads_back(a as nat);
    crate::text::lemma_decimal_reads_back(b as nat);
}

}
