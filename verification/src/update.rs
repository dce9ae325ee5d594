//! Update decisions: which published release is offered, which binary
//! asset of it this platform downloads, and what the user is told. The
//! network requests and the file replacement are done by the caller.
use crate::num::{decimal, push_decimal};
use crate::text::{append_chars, chars_of, concat3, eq_str, string_of};
use crate::version::{is_newer, newer};
use vstd::prelude::*;

verus! {

/// The GitHub repository releases are published in.
pub const REPO: &'static str = "ItzJoris03/matrix";

pub open spec fn repo() -> Seq<char> {
    "ItzJoris03/matrix"@
}

/// Info about the newest published release.
#[derive(Clone, Debug)]
pub struct ReleaseInfo {
    /// Full tag, e.g. `v2026.08.12.3`.
    pub tag: String,
    /// GitHub release page URL (opened with `u`, which never dismisses).
    pub url: String,
}

/// One binary asset of a release, as far as the release data gives it: a
/// field that is missing or of another JSON type is `None`.
#[derive(Clone, Debug)]
pub struct ReleaseAsset {
    pub name: Option<String>,
    pub id: Option<u64>,
    pub browser_download_url: Option<String>,
}

/// The fields of a release that the update reads; `assets` is `None` when
/// the release has no asset array.
#[derive(Clone, Debug)]
pub struct ReleaseData {
    pub tag_name: Option<String>,
    pub html_url: Option<String>,
    pub assets: Option<Vec<ReleaseAsset>>,
}

pub struct AssetView {
    pub name: Option<Seq<char>>,
    pub id: Option<u64>,
    pub browser_download_url: Option<Seq<char>>,
}

pub open spec fn opt_view(o: Option<String>) -> Option<Seq<char>> {
    match o {
        Some(s) => Some(s@),
        None => None,
    }
}

impl ReleaseAsset {
    pub open spec fn view(&self) -> AssetView {
        AssetView {
            name: opt_view(self.name),
            id: self.id,
            browser_download_url: opt_view(self.browser_download_url),
        }
    }
}

pub open spec fn asset_views(v: Seq<ReleaseAsset>) -> Seq<AssetView> {
    v.map_values(|a: ReleaseAsset| a.view())
}

/// Where the newest release is asked for.
pub open spec fn latest_release_url() -> Seq<char> {
    "https://api.github.com/repos/"@ + repo() + "/releases/latest"@
}

pub fn api_url() -> (r: String)
    ensures
        r@ == latest_release_url(),
{
    concat3("https://api.github.com/repos/", REPO, "/releases/latest")
}

// ── the platform's binary ──────────────────────────────────────────────────

/// The platform name in asset names: `linux`, `macos` and `windows` as
/// `uname` spells them, any other OS name as it is.
pub open spec fn os_label(os: Seq<char>) -> Seq<char> {
    if os == "linux"@ {
        "Linux"@
    } else if os == "macos"@ {
        "Darwin"@
    } else if os == "windows"@ {
        "Windows"@
    } else {
        os
    }
}

/// The asset name of the binary for `os` and `arch` (as
/// `std::env::consts` names them), e.g. `matrix-Linux-x86_64`.
pub open spec fn asset_name_of(os: Seq<char>, arch: Seq<char>) -> Seq<char> {
    "matrix-"@ + os_label(os) + "-"@ + arch
}

pub fn asset_name(os: &str, arch: &str) -> (r: String)
    ensures
        r@ == asset_name_of(os@, arch@),
{
    let o = chars_of(os);
    let label: String = if eq_str(o.as_slice(), "linux") {
        crate::text::copy_str("Linux")
    } else if eq_str(o.as_slice(), "macos") {
        crate::text::copy_str("Darwin")
    } else if eq_str(o.as_slice(), "windows") {
        crate::text::copy_str("Windows")
    } else {
        crate::text::copy_str(os)
    };
    let mut out = chars_of("matrix-");
    append_chars(&mut out, chars_of(label.as_str()).as_slice());
    append_chars(&mut out, chars_of("-").as_slice());
    append_chars(&mut out, chars_of(arch).as_slice());
    string_of(out.as_slice())
}

/// The API endpoint of the asset with id `id`.
pub open spec fn asset_api_url(id: u64) -> Seq<char> {
    "https://api.github.com/repos/"@ + repo() + "/releases/assets/"@ + decimal(id as nat)
}

/// The download URL of the first asset named `target`, from asset `i` on:
/// its API endpoint when a token is used (it needs the asset's id), else
/// its browser download URL. `None` when no asset has that name, or the
/// first one lacks what is needed.
pub open spec fn asset_url_from(assets: Seq<AssetView>, target: Seq<char>, token: bool, i: int) -> Option<
    Seq<char>,
>
    decreases assets.len() - i,
{
    if i < 0 || i >= assets.len() {
        None
    } else if assets[i].name == Some(target) {
        if token {
            match assets[i].id {
                Some(id) => Some(asset_api_url(id)),
                None => None,
            }
        } else {
            assets[i].browser_download_url
        }
    } else {
        asset_url_from(assets, target, token, i + 1)
    }
}

/// Where the binary `target` of a release is downloaded from.
pub open spec fn asset_url(release: ReleaseData, target: Seq<char>, token: bool) -> Option<Seq<char>> {
    match release.assets {
        Some(a) => asset_url_from(asset_views(a@), target, token, 0),
        None => None,
    }
}

fn asset_url_of(a: &ReleaseAsset, token: bool) -> (r: Option<String>)
    ensures
        opt_view(r) == if token {
            match a.id {
                Some(id) => Some(asset_api_url(id)),
                None => None,
            }
        } else {
            a@.browser_download_url
        },
{
    if token {
        match a.id {
            Some(id) => {
                let mut out = chars_of("https://api.github.com/repos/");
                append_chars(&mut out, chars_of(REPO).as_slice());
                append_chars(&mut out, chars_of("/releases/assets/").as_slice());
                push_decimal(&mut out, id);
                Some(string_of(out.as_slice()))
            },
            None => None,
        }
    } else {
        match &a.browser_download_url {
            Some(u) => Some(u.clone()),
            None => None,
        }
    }
}

/// Find the download URL for the binary `target` in a release. When a token
/// is present (private repo) the API asset endpoint is used, which works for
/// both private and public repositories; otherwise the browser CDN URL.
pub fn asset_download_url(release: &ReleaseData, token: Option<&str>, target: &str) -> (r: Option<String>)
    ensures
        opt_view(r) == asset_url(*release, target@, token is Some),
{
    let tok = token.is_some();
    match &release.assets {
        None => None,
        Some(assets) => {
            let t = chars_of(target);
            let ghost av = asset_views(assets@);
            let mut i: usize = 0;
            while i < assets.len()
                invariant
                    i <= assets@.len(),
                    av == asset_views(assets@),
                    t@ == target@,
                    release.assets == Some(*assets),
                    tok == (token is Some),
                    asset_url_from(av, target@, tok, 0) == asset_url_from(av, target@, tok, i as int),
                decreases assets@.len() - i,
            {
                let named = match &assets[i].name {
                    Some(n) => crate::text::seq_eq(chars_of(n.as_str()).as_slice(), t.as_slice()),
                    None => false,
                };
                assert(av[i as int] == assets@[i as int]@);
                if named {
                    assert(av[i as int].name == Some(target@));
                    let r = asset_url_of(&assets[i], tok);
                    assert(opt_view(r) == asset_url_from(av, target@, tok, i as int));
                    return r;
                }
                i = i + 1;
            }
            None
        },
    }
}

// ── what is offered and what happens ───────────────────────────────────────

/// The release page of `tag`, used when a release names none.
pub open spec fn release_page(tag: Seq<char>) -> Seq<char> {
    "https://github.com/"@ + repo() + "/releases/tag/"@ + tag
}

/// The release offered to a user running `current`: the latest release
/// when its tag is strictly newer, with its page (or the page its tag gives).
pub open spec fn offered_release(current: Seq<char>, release: ReleaseData) -> Option<(Seq<char>, Seq<char>)> {
    match release.tag_name {
        Some(tag) => if newer(tag@, current) {
            Some(
                (
                    tag@,
                    match release.html_url {
                        Some(u) => u@,
                        None => release_page(tag@),
                    },
                ),
            )
        } else {
            None
        },
        None => None,
    }
}

/// The update to offer after reading the latest release: `None` when it has
/// no tag or is not newer than `current`.
pub fn available_release(current: &str, release: &ReleaseData) -> (r: Option<ReleaseInfo>)
    ensures
        match r {
            Some(info) => offered_release(current@, *release) == Some((info.tag@, info.url@)),
            None => offered_release(current@, *release).is_none(),
        },
{
    match &release.tag_name {
        None => None,
        Some(tag) => {
            if !is_newer(tag.as_str(), current) {
                return None;
            }
            let url = match &release.html_url {
                Some(u) => u.clone(),
                None => {
                    let mut v = chars_of("https://github.com/");
                    append_chars(&mut v, chars_of(REPO).as_slice());
                    append_chars(&mut v, chars_of("/releases/tag/").as_slice());
                    append_chars(&mut v, chars_of(tag.as_str()).as_slice());
                    string_of(v.as_slice())
                },
            };
            Some(ReleaseInfo { tag: tag.clone(), url })
        },
    }
}

/// What a self-update does after reading the latest release.
pub enum UpdateStep {
    /// Nothing to do; tell the user this.
    UpToDate(String),
    /// Download the binary at `url` for release `tag`.
    Download { tag: String, url: String },
}

pub enum StepView {
    UpToDate(Seq<char>),
    Download(Seq<char>, Seq<char>),
}

impl UpdateStep {
    pub open spec fn view(&self) -> StepView {
        match self {
            UpdateStep::UpToDate(m) => StepView::UpToDate(m@),
            UpdateStep::Download { tag, url } => StepView::Download(tag@, url@),
        }
    }
}

/// The self-update's decision for a user running `current`, downloading the
/// binary `target` (with a token when `token`): an error when the release
/// has no tag or no such binary, nothing to do when it is not newer.
pub open spec fn update_plan(current: Seq<char>, release: ReleaseData, token: bool, target: Seq<char>) -> Result<
    StepView,
    Seq<char>,
> {
    match release.tag_name {
        None => Err("no release tag found"@),
        Some(tag) => if !newer(tag@, current) {
            Ok(StepView::UpToDate("Already up to date (v"@ + current + ")."@))
        } else {
            match asset_url(release, target, token) {
                None => Err("no prebuilt binary for this platform ("@ + target + ")"@),
                Some(url) => Ok(StepView::Download(tag@, url)),
            }
        },
    }
}

pub fn update_step(current: &str, release: &ReleaseData, token: Option<&str>, target: &str) -> (r: Result<
    UpdateStep,
    String,
>)
    ensures
        match r {
            Ok(step) => update_plan(current@, *release, token is Some, target@) == Ok::<StepView, Seq<char>>(step.view()),
            Err(e) => update_plan(current@, *release, token is Some, target@) == Err::<StepView, Seq<char>>(e@),
        },
{
    let tag = match &release.tag_name {
        None => {
            return Err(crate::text::copy_str("no release tag found"));
        },
        Some(t) => t,
    };
    if !is_newer(tag.as_str(), current) {
        return Ok(UpdateStep::UpToDate(concat3("Already up to date (v", current, ").")));
    }
    match asset_download_url(release, token, target) {
        None => Err(concat3("no prebuilt binary for this platform (", target, ")")),
        Some(url) => Ok(UpdateStep::Download { tag: tag.clone(), url }),
    }
}

/// What the user is told after the binary was replaced.
pub fn updated_message(tag: &str) -> (r: String)
    ensures
        r@ == "\u{2714} Updated to "@ + tag@ + ". Restart Matrix to use the new version."@,
{
    concat3("\u{2714} Updated to ", tag, ". Restart Matrix to use the new version.")
}

} // verus!
