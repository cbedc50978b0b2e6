//! Decisions around the downloaded data: when a cached file is stale, where
//! a version's data lives, the order of the build list, and the messages
//! for a missing data file.
use vstd::prelude::*;

use crate::app_core::indexing::{compare_text, lex_lt, stable_reorder};
use crate::model::BuildInfo;
use crate::text::{append_str, str_eq};
use std::cmp::Ordering;

verus! {

/// Seconds after which the cached build list is downloaded again.
pub const BUILDS_MAX_AGE_SECS: u64 = 3600;

/// How long a cached data file of `version` stays fresh, in seconds:
/// 12 hours for `nightly`, 30 days for `stable`, forever for a fixed build.
pub open spec fn spec_expiration_secs(version: Seq<char>) -> Option<u64> {
    if version == "nightly"@ {
        Some(43200)
    } else if version == "stable"@ {
        Some(2592000)
    } else {
        None
    }
}

/// How long a cached data file of `version` stays fresh, in seconds.
pub fn expiration_secs(version: &str) -> (r: Option<u64>)
    ensures
        r == spec_expiration_secs(version@),
{
    if str_eq(version, "nightly") {
        Some(12 * 3600)
    } else if str_eq(version, "stable") {
        Some(30 * 24 * 3600)
    } else {
        None
    }
}

/// Whether the build list is downloaded: when forced, when it is not
/// cached, or when the cached copy is older than an hour (`age_secs` is
/// `None` when its age cannot be read).
pub fn builds_need_download(force: bool, cached: bool, age_secs: Option<u64>) -> (r: bool)
    ensures
        r == (force || !cached || (age_secs matches Some(a) && a > BUILDS_MAX_AGE_SECS)),
{
    if force || !cached {
        return true;
    }
    match age_secs {
        Some(a) => a > BUILDS_MAX_AGE_SECS,
        None => false,
    }
}

/// Whether a version's data file is downloaded: when forced, when it is not
/// cached, or when the cached copy has outlived the version's expiration.
/// `age` is the copy's age in whole seconds and nanoseconds, `None` when it
/// cannot be read.
pub fn game_data_needs_download(force: bool, cached: bool, version: &str, age: Option<(u64, u32)>) -> (r: bool)
    ensures
        r == (force || !cached || (spec_expiration_secs(version@) matches Some(exp) && age matches Some((s, n))
            && (s > exp || (s == exp && n > 0)))),
{
    if force || !cached {
        return true;
    }
    match (expiration_secs(version), age) {
        (Some(exp), Some((s, n))) => s > exp || (s == exp && n > 0),
        _ => false,
    }
}

/// The address of a version's data file.
pub fn game_data_url(version: &str) -> (url: String)
    ensures
        url@ == "https://data.cataclysmbn-guide.com/data/"@ + version@ + "/all.json"@,
{
    let mut url = String::new();
    append_str(&mut url, "https://data.cataclysmbn-guide.com/data/");
    append_str(&mut url, version);
    append_str(&mut url, "/all.json");
    url
}

/// The message for a data file that does not exist: the default file name
/// gets a hint on how to choose a data source.
pub fn missing_file_message(file_path: &str) -> (m: String)
    ensures
        m@ == (if file_path@ == "all.json"@ {
            "Default 'all.json' not found in current directory. Use --file or --game to specify data source."@
        } else {
            "File not found: "@ + file_path@
        }),
{
    if str_eq(file_path, "all.json") {
        crate::model::owned(
            "Default 'all.json' not found in current directory. Use --file or --game to specify data source.",
        )
    } else {
        let mut m = String::new();
        append_str(&mut m, "File not found: ");
        append_str(&mut m, file_path);
        m
    }
}

/// The builds are newest first: no build was created after an earlier one.
pub open spec fn newest_first(s: Seq<BuildInfo>) -> bool {
    forall|i: int, j: int| 0 <= i < j < s.len() ==> !lex_lt(s[i].created_at@, s[j].created_at@)
}

/// Newer builds (by creation time) first.
fn newest_first_order(a: &BuildInfo, b: &BuildInfo) -> (o: Ordering)
    ensures
        (o == Ordering::Less) <==> lex_lt(b.created_at@, a.created_at@),
        (o == Ordering::Greater) <==> lex_lt(a.created_at@, b.created_at@),
{
    let r = compare_text(b.created_at.as_str(), a.created_at.as_str());
    if r < 0 {
        Ordering::Less
    } else if r > 0 {
        Ordering::Greater
    } else {
        Ordering::Equal
    }
}

/// Two builds were created at the same time.
pub open spec fn same_creation(a: BuildInfo, b: BuildInfo) -> bool {
    a.created_at@ == b.created_at@
}

/// `after` is `before` reordered by `p`, builds created at the same time
/// kept in their order.
pub open spec fn creation_reorder(before: Seq<BuildInfo>, after: Seq<BuildInfo>, p: Seq<int>) -> bool {
    stable_reorder(before, after, p, |a: BuildInfo, b: BuildInfo| same_creation(a, b))
}

/// `slice::sort_by` of the standard library with the newest-first order:
/// the builds are permuted into that order, and, the sort being stable,
/// builds created at the same time keep their order.
#[verifier::external_body]
fn sort_by_newest(builds: &mut Vec<BuildInfo>)
    ensures
        final(builds)@.to_multiset() == old(builds)@.to_multiset(),
        newest_first(final(builds)@),
        exists|p: Seq<int>| #[trigger] creation_reorder(old(builds)@, final(builds)@, p),
{
    builds.sort_by(|a, b| newest_first_order(a, b));
}

/// Orders the build list newest first; builds created at the same time
/// keep their order.
pub fn sort_builds_newest_first(builds: &mut Vec<BuildInfo>)
    ensures
        final(builds)@.to_multiset() == old(builds)@.to_multiset(),
        newest_first(final(builds)@),
        exists|p: Seq<int>| #[trigger] creation_reorder(old(builds)@, final(builds)@, p),
{
    sort_by_newest(builds);
}

/// Where a dataset is read from.
#[derive(Debug)]
pub enum DataSource {
    /// The JSON files of this directory.
    SourceDir(String),
    /// This data file.
    File(String),
    /// The cached download of the requested version.
    Download,
}

/// Where the data of `version` comes from: the source directory when the
/// version is `local` and there is one, else the given file, else the
/// download.
pub fn data_source(version: &str, file_path: Option<&str>, source_dir: &Option<String>) -> (d: DataSource)
    ensures
        match d {
            DataSource::SourceDir(dir) => version@ == "local"@ && (source_dir matches Some(s) && dir@ == s@),
            DataSource::File(f) => !(version@ == "local"@ && source_dir is Some) && (file_path matches Some(p)
                && f@ == p@),
            DataSource::Download => !(version@ == "local"@ && source_dir is Some) && file_path is None,
        },
{
    if str_eq(version, "local") {
        if let Some(dir) = source_dir {
            return DataSource::SourceDir(dir.clone());
        }
    }
    match file_path {
        Some(p) => DataSource::File(crate::model::owned(p)),
        None => DataSource::Download,
    }
}

} // verus!
