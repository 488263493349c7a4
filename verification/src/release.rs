//! Releases of a tool, as a release listing describes them, and the choice
//! of the file to download.

use crate::text::{lowercase, range_ends_with, to_chars, to_lowercase};
use vstd::prelude::*;

verus! {

/// An account, as a release listing names it.
#[derive(Debug)]
pub struct User {
    pub login: String,
    pub id: u64,
    pub node_id: Option<String>,
    pub avatar_url: Option<String>,
    pub url: Option<String>,
}

/// One downloadable file of a release. Points in time are kept as the
/// listing writes them.
#[derive(Debug)]
pub struct Asset {
    pub url: String,
    pub id: u64,
    pub name: String,
    pub label: Option<String>,
    pub content_type: Option<String>,
    pub state: Option<String>,
    pub size: Option<u64>,
    pub download_count: Option<u64>,
    pub browser_download_url: Option<String>,
    pub created_at: Option<String>,
    pub updated_at: Option<String>,
}

/// One release of a tool. Points in time are kept as the listing writes
/// them.
#[derive(Debug)]
pub struct Release {
    pub url: Option<String>,
    pub html_url: Option<String>,
    pub assets_url: Option<String>,
    pub upload_url: Option<String>,
    pub tarball_url: Option<String>,
    pub zipball_url: Option<String>,
    pub id: Option<u64>,
    pub node_id: Option<String>,
    pub tag_name: Option<String>,
    pub target_commitish: Option<String>,
    pub name: Option<String>,
    pub body: Option<String>,
    pub draft: bool,
    pub prerelease: bool,
    pub created_at: Option<String>,
    pub published_at: Option<String>,
    pub author: Option<User>,
    pub assets: Vec<Asset>,
    pub discussion_url: Option<String>,
}

/// Whether an asset called `name` is a file called `wanted`: whether `name`
/// ends with `wanted`, both taken in lower case.
pub open spec fn asset_matches(name: Seq<char>, wanted: Seq<char>) -> bool {
    lowercase(wanted).is_suffix_of(lowercase(name))
}

/// The size that an asset counts with: a missing size counts as zero.
pub open spec fn size_of(asset: Asset) -> u64 {
    match asset.size {
        Some(n) => n,
        None => 0,
    }
}

/// The position of the first release at or after `from` that is no draft.
pub open spec fn published_from(releases: Seq<Release>, from: int) -> Option<int>
    decreases releases.len() - from,
{
    if from < 0 || from >= releases.len() {
        None
    } else if !releases[from].draft {
        Some(from)
    } else {
        published_from(releases, from + 1)
    }
}

/// The position of the first release that is no draft.
pub open spec fn first_published(releases: Seq<Release>) -> Option<int> {
    published_from(releases, 0)
}

/// The position of the first largest value among the first `n` of `sizes`.
pub open spec fn first_largest_upto(sizes: Seq<u64>, n: int) -> Option<int>
    decreases n,
{
    if n <= 0 {
        None
    } else {
        match first_largest_upto(sizes, n - 1) {
            Some(best) => if sizes[n - 1] > sizes[best] {
                Some(n - 1)
            } else {
                Some(best)
            },
            None => Some(n - 1),
        }
    }
}

/// The position of the first largest value of `sizes`.
pub open spec fn first_largest(sizes: Seq<u64>) -> Option<int> {
    first_largest_upto(sizes, sizes.len() as int)
}

/// The positions of the assets among the first `n` that are called `wanted`,
/// in order.
pub open spec fn matching_upto(assets: Seq<Asset>, wanted: Seq<char>, n: int) -> Seq<int>
    decreases n,
{
    if n <= 0 {
        Seq::empty()
    } else if asset_matches(assets[n - 1].name@, wanted) {
        matching_upto(assets, wanted, n - 1).push(n - 1)
    } else {
        matching_upto(assets, wanted, n - 1)
    }
}

/// The asset to download: among those called `wanted` the largest, and among
/// several of that size the first.
pub open spec fn chosen_asset(assets: Seq<Asset>, wanted: Seq<char>) -> Option<int> {
    let candidates = matching_upto(assets, wanted, assets.len() as int);
    match first_largest(candidates.map_values(|i: int| size_of(assets[i]))) {
        Some(k) => Some(candidates[k]),
        None => None,
    }
}

/// Whether the asset at `i` is called `wanted`, none of that name is larger,
/// and none before it is as large.
pub open spec fn is_choice(assets: Seq<Asset>, wanted: Seq<char>, i: int) -> bool {
    &&& 0 <= i < assets.len()
    &&& asset_matches(assets[i].name@, wanted)
    &&& forall|j: int|
        0 <= j < assets.len() && asset_matches(#[trigger] assets[j].name@, wanted) ==> size_of(
            assets[j],
        ) <= size_of(assets[i])
    &&& forall|j: int|
        0 <= j < i && asset_matches(#[trigger] assets[j].name@, wanted) ==> size_of(assets[j])
            < size_of(assets[i])
}

/// The first largest value is in range, no value is larger, and none before
/// it is as large; there is none only where there are no values.
pub proof fn lemma_first_largest(sizes: Seq<u64>, n: int)
    requires
        0 <= n <= sizes.len(),
    ensures
        match first_largest_upto(sizes, n) {
            Some(best) => {
                &&& 0 <= best < n
                &&& forall|j: int| 0 <= j < n ==> #[trigger] sizes[j] <= sizes[best]
                &&& forall|j: int| 0 <= j < best ==> #[trigger] sizes[j] < sizes[best]
            },
            None => n == 0,
        },
    decreases n,
{
    if n > 0 {
        lemma_first_largest(sizes, n - 1);
    }
}

/// The matching positions are the positions of the assets called `wanted`,
/// in rising order.
pub proof fn lemma_matching(assets: Seq<Asset>, wanted: Seq<char>, n: int)
    requires
        0 <= n <= assets.len(),
    ensures
        forall|k: int|
            0 <= k < matching_upto(assets, wanted, n).len() ==> {
                let i = #[trigger] matching_upto(assets, wanted, n)[k];
                0 <= i < n && asset_matches(assets[i].name@, wanted)
            },
        forall|k: int, l: int|
            0 <= k < l < matching_upto(assets, wanted, n).len() ==> #[trigger] matching_upto(
                assets,
                wanted,
                n,
            )[k] < #[trigger] matching_upto(assets, wanted, n)[l],
        forall|i: int|
            0 <= i < n && asset_matches(#[trigger] assets[i].name@, wanted) ==> matching_upto(
                assets,
                wanted,
                n,
            ).contains(i),
    decreases n,
{
    if n > 0 {
        lemma_matching(assets, wanted, n - 1);
        let before = matching_upto(assets, wanted, n - 1);
        let now = matching_upto(assets, wanted, n);
        assert forall|i: int|
            0 <= i < n && asset_matches(#[trigger] assets[i].name@, wanted) implies now.contains(
            i,
        ) by {
            if i < n - 1 {
                let k = choose|k: int| 0 <= k < before.len() && before[k] == i;
                assert(now[k] == i);
            } else {
                assert(now[now.len() - 1] == i);
            }
        }
    }
}

/// The chosen asset is the one that `is_choice` describes, and there is none
/// only where no asset is called `wanted`.
pub proof fn lemma_chosen_asset(assets: Seq<Asset>, wanted: Seq<char>)
    ensures
        match chosen_asset(assets, wanted) {
            Some(i) => is_choice(assets, wanted, i),
            None => forall|j: int|
                0 <= j < assets.len() ==> !asset_matches(#[trigger] assets[j].name@, wanted),
        },
{
    let n = assets.len() as int;
    let candidates = matching_upto(assets, wanted, n);
    let sizes = candidates.map_values(|i: int| size_of(assets[i]));
    lemma_matching(assets, wanted, n);
    lemma_first_largest(sizes, sizes.len() as int);
    match first_largest(sizes) {
        Some(k) => {
            let i = candidates[k];
            assert forall|j: int|
                0 <= j < assets.len() && asset_matches(
                    #[trigger] assets[j].name@,
                    wanted,
                ) implies size_of(assets[j]) <= size_of(assets[i]) by {
                let l = choose|l: int| 0 <= l < candidates.len() && candidates[l] == j;
                assert(sizes[l] <= sizes[k]);
            }
            assert forall|j: int|
                0 <= j < i && asset_matches(#[trigger] assets[j].name@, wanted) implies size_of(
                assets[j],
            ) < size_of(assets[i]) by {
                let l = choose|l: int| 0 <= l < candidates.len() && candidates[l] == j;
                if l >= k {
                    if l > k {
                        assert(candidates[k] < candidates[l]);
                    }
                }
                assert(sizes[l] < sizes[k]);
            }
        },
        None => {
            assert forall|j: int| 0 <= j < assets.len() implies !asset_matches(
                #[trigger] assets[j].name@,
                wanted,
            ) by {
                if asset_matches(assets[j].name@, wanted) {
                    assert(candidates.contains(j));
                }
            }
        },
    }
}

/// Whether `text` ends with `suffix`.
pub fn ends_with(text: &str, suffix: &str) -> (r: bool)
    ensures
        r == suffix@.is_suffix_of(text@),
{
    let chars = to_chars(text);
    let pattern = to_chars(suffix);
    assert(chars@.subrange(0, chars.len() as int) == text@);
    range_ends_with(&chars, 0, chars.len(), &pattern)
}

/// Whether an asset called `name` is a file called `wanted`.
pub fn asset_is_called(name: &str, wanted: &str) -> (r: bool)
    ensures
        r == asset_matches(name@, wanted@),
{
    let name_lower = to_lowercase(name);
    let wanted_lower = to_lowercase(wanted);
    ends_with(name_lower.as_str(), wanted_lower.as_str())
}

/// The position of the first largest value of `sizes`; `None` where `sizes`
/// is empty.
pub fn first_largest_of(sizes: &Vec<u64>) -> (r: Option<usize>)
    ensures
        match r {
            Some(k) => first_largest(sizes@) == Some(k as int),
            None => first_largest(sizes@) is None,
        },
{
    let n = sizes.len();
    if n == 0 {
        return None;
    }
    let mut best: usize = 0;
    let mut i: usize = 1;
    assert(first_largest_upto(sizes@, 0) is None);
    while i < n
        invariant
            1 <= i <= n == sizes.len(),
            best < i,
            first_largest_upto(sizes@, i as int) == Some(best as int),
        decreases n - i,
    {
        if sizes[i] > sizes[best] {
            best = i;
        }
        i += 1;
    }
    Some(best)
}

/// The position of the first release that is no draft; `None` where every
/// release is a draft.
pub fn first_published_of(releases: &Vec<Release>) -> (r: Option<usize>)
    ensures
        match r {
            Some(i) => first_published(releases@) == Some(i as int) && i < releases.len(),
            None => first_published(releases@) is None,
        },
{
    let n = releases.len();
    let mut i: usize = 0;
    while i < n
        invariant
            i <= n == releases.len(),
            first_published(releases@) == published_from(releases@, i as int),
        decreases n - i,
    {
        if !releases[i].draft {
            return Some(i);
        }
        i += 1;
    }
    None
}

/// The position of the asset to download: among the assets whose name ends
/// with `wanted`, letter case aside, the largest, and among several of that
/// size the first. `None` where no asset has such a name.
pub fn select_asset(assets: &Vec<Asset>, wanted: &str) -> (r: Option<usize>)
    ensures
        match r {
            Some(i) => chosen_asset(assets@, wanted@) == Some(i as int) && i < assets.len(),
            None => chosen_asset(assets@, wanted@) is None,
        },
{
    let wanted_lower = to_lowercase(wanted);
    let n = assets.len();
    let mut found: Vec<usize> = Vec::new();
    let mut sizes: Vec<u64> = Vec::new();
    let mut i: usize = 0;
    while i < n
        invariant
            i <= n == assets.len(),
            wanted_lower@ == lowercase(wanted@),
            found.len() == sizes.len(),
            found@.map_values(|k: usize| k as int) == matching_upto(assets@, wanted@, i as int),
            sizes@ == matching_upto(assets@, wanted@, i as int).map_values(
                |k: int| size_of(assets@[k]),
            ),
            forall|k: int| 0 <= k < found.len() ==> #[trigger] found[k] < n,
        decreases n - i,
    {
        let name_lower = to_lowercase(assets[i].name.as_str());
        if ends_with(name_lower.as_str(), wanted_lower.as_str()) {
            let size: u64 = match assets[i].size {
                Some(s) => s,
                None => 0,
            };
            let ghost before = matching_upto(assets@, wanted@, i as int);
            found.push(i);
            sizes.push(size);
            proof {
                assert(found@.map_values(|k: usize| k as int) == before.push(i as int));
                assert(sizes@ == before.push(i as int).map_values(|k: int| size_of(assets@[k])));
            }
        }
        i += 1;
    }
    match first_largest_of(&sizes) {
        Some(k) => {
            proof {
                lemma_first_largest(sizes@, sizes.len() as int);
                assert(found@.map_values(|k: usize| k as int)[k as int] == found[k as int]);
            }
            Some(found[k])
        },
        None => None,
    }
}

/// Why no address to download from could be named.
#[derive(Debug)]
pub enum ResolveError {
    /// Every release of the listing is a draft, or the listing is empty.
    NoRelease,
    /// The chosen asset has no address to download it from.
    NoDownloadAddress,
}

/// The address to download a file called `wanted` from: that of the chosen
/// asset of the first release that is no draft. `Ok(None)` where that release
/// has no asset of the name.
pub open spec fn download_address(releases: Seq<Release>, wanted: Seq<char>) -> Result<
    Option<Seq<char>>,
    ResolveError,
> {
    match first_published(releases) {
        None => Err(ResolveError::NoRelease),
        Some(i) => match chosen_asset(releases[i].assets@, wanted) {
            None => Ok(None),
            Some(j) => match releases[i].assets@[j].browser_download_url {
                Some(address) => Ok(Some(address@)),
                None => Err(ResolveError::NoDownloadAddress),
            },
        },
    }
}

/// Names the address to download a file called `wanted` from.
///
/// Only the first release that is no draft is looked at; without one the
/// call fails. `Ok(None)` says that this release offers no file of the name,
/// which is no failure.
pub fn resolve_download(releases: &Vec<Release>, wanted: &str) -> (r: Result<
    Option<String>,
    ResolveError,
>)
    ensures
        match r {
            Ok(Some(address)) => download_address(releases@, wanted@) == Ok::<
                Option<Seq<char>>,
                ResolveError,
            >(Some(address@)),
            Ok(None) => download_address(releases@, wanted@) == Ok::<
                Option<Seq<char>>,
                ResolveError,
            >(None),
            Err(e) => download_address(releases@, wanted@) == Err::<
                Option<Seq<char>>,
                ResolveError,
            >(e),
        },
{
    match first_published_of(releases) {
        None => Err(ResolveError::NoRelease),
        Some(i) => {
            let release = &releases[i];
            match select_asset(&release.assets, wanted) {
                None => Ok(None),
                Some(j) => match &release.assets[j].browser_download_url {
                    Some(address) => Ok(Some(address.clone())),
                    None => Err(ResolveError::NoDownloadAddress),
                },
            }
        },
    }
}

} // verus!
