//! The published file list and its directory groups.

use vstd::prelude::*;
use crate::text::{has_prefix, replace_all, replaced};

verus! {

/// One file of the published manifest.
pub struct CdnFile {
    /// Path of the file on the host, its directory group first.
    pub name: String,
    /// Declared size in bytes.
    pub size: u32,
    /// Content hash in hexadecimal, in either case.
    pub blake3: String,
}

/// A manifest entry as plain data.
pub struct ManifestEntry {
    pub name: Seq<char>,
    pub size: nat,
    pub hash: Seq<char>,
}

impl View for CdnFile {
    type V = ManifestEntry;

    open spec fn view(&self) -> ManifestEntry {
        ManifestEntry { name: self.name@, size: self.size as nat, hash: self.blake3@ }
    }
}

impl DeepView for CdnFile {
    type V = ManifestEntry;

    open spec fn deep_view(&self) -> ManifestEntry {
        self@
    }
}

impl Clone for CdnFile {
    fn clone(&self) -> (r: Self)
        ensures
            r@ == self@,
    {
        CdnFile { name: self.name.clone(), size: self.size, blake3: self.blake3.clone() }
    }
}

/// The path prefix shared by the files of directory group `dir`.
pub open spec fn group_prefix(dir: Seq<char>) -> Seq<char> {
    dir.push('/')
}

impl ManifestEntry {
    /// Whether the entry lies under the path prefix `prefix`.
    pub open spec fn in_group(self, prefix: Seq<char>) -> bool {
        prefix.is_prefix_of(self.name)
    }

    /// Path of the entry's destination below the synchronised directory:
    /// its name with the group prefix taken out.
    pub open spec fn local_name(self, prefix: Seq<char>) -> Seq<char> {
        replaced(self.name, prefix, Seq::empty())
    }
}

/// Sum of the declared sizes of the entries that lie under `prefix`.
pub open spec fn group_size(entries: Seq<ManifestEntry>, prefix: Seq<char>) -> nat
    decreases entries.len(),
{
    if entries.len() == 0 {
        0
    } else {
        let rest = group_size(entries.drop_last(), prefix);
        if entries.last().in_group(prefix) {
            rest + entries.last().size
        } else {
            rest
        }
    }
}

/// The size of a group never shrinks when the manifest is read further.
pub proof fn lemma_group_size_grows(entries: Seq<ManifestEntry>, prefix: Seq<char>, n: int)
    requires
        0 <= n <= entries.len(),
    ensures
        group_size(entries.take(n), prefix) <= group_size(entries, prefix),
    decreases entries.len(),
{
    if n == entries.len() {
        assert(entries.take(n) =~= entries);
    } else {
        assert(entries.drop_last().take(n) =~= entries.take(n));
        lemma_group_size_grows(entries.drop_last(), prefix, n);
    }
}

/// Every entry adds less than 2^32 bytes, so a manifest of fewer than 2^32
/// entries has a group size that fits in 64 bits.
pub proof fn lemma_group_size_bound(entries: Seq<ManifestEntry>, prefix: Seq<char>)
    requires
        forall|i: int| 0 <= i < entries.len() ==> entries[i].size <= u32::MAX,
    ensures
        group_size(entries, prefix) <= entries.len() * u32::MAX,
    decreases entries.len(),
{
    if entries.len() > 0 {
        lemma_group_size_bound(entries.drop_last(), prefix);
        assert(group_size(entries, prefix) <= group_size(entries.drop_last(), prefix)
            + u32::MAX);
        assert((entries.len() - 1) * u32::MAX + u32::MAX == entries.len() * u32::MAX)
            by (nonlinear_arith);
    }
}

/// The path prefix of directory group `dir`: the directory and a slash.
pub fn prefix_of(dir: &str) -> (r: String)
    ensures
        r@ == group_prefix(dir@),
{
    proof {
        reveal_strlit("/");
    }
    let r = String::from_str(dir).concat("/");
    assert(r@ =~= group_prefix(dir@));
    r
}

impl CdnFile {
    /// Whether the file lies under the path prefix `prefix`.
    pub fn in_group(&self, prefix: &str) -> (r: bool)
        ensures
            r == self@.in_group(prefix@),
    {
        has_prefix(self.name.as_str(), prefix)
    }

    /// Path of the file's destination below the synchronised directory.
    pub fn local_name(&self, prefix: &str) -> (r: String)
        ensures
            r@ == self@.local_name(prefix@),
    {
        proof {
            reveal_strlit("");
        }
        let r = replace_all(self.name.as_str(), prefix, "");
        assert(""@ =~= Seq::<char>::empty());
        r
    }
}

/// The URL of the manifest on the host at `origin`.
pub open spec fn manifest_url_of(origin: Seq<char>) -> Seq<char> {
    origin + "/files.json"@
}

/// The URL of the file `name` on the host at `origin`, with a cache-busting
/// query token where one is given.
pub open spec fn file_url_of(origin: Seq<char>, name: Seq<char>, token: Option<Seq<char>>) -> Seq<
    char,
> {
    match token {
        Some(token) => origin + "/"@ + name + "?"@ + token,
        None => origin + "/"@ + name,
    }
}

/// The URL of the manifest on the host at `origin`.
pub fn manifest_url(origin: &str) -> (r: String)
    ensures
        r@ == manifest_url_of(origin@),
{
    String::from_str(origin).concat("/files.json")
}

/// The URL of the file `name` on the host at `origin`. A token, which the
/// caller draws at random, makes the URL new to every cache on the way.
pub fn file_url(origin: &str, name: &str, token: Option<&str>) -> (r: String)
    ensures
        r@ == file_url_of(
            origin@,
            name@,
            match token {
                Some(token) => Some(token@),
                None => None,
            },
        ),
{
    let mut url = String::from_str(origin);
    url.append("/");
    url.append(name);
    if let Some(token) = token {
        url.append("?");
        url.append(token);
    }
    url
}

/// The directory groups of one update, in the order in which they are
/// synchronised: the engine's files, then the bonus content where it is
/// wanted.
pub fn groups_to_sync(engine: &str, bonus: &Vec<String>, bonus_content: bool) -> (r: Vec<String>)
    ensures
        r.deep_view() == if bonus_content {
            seq![engine@] + bonus.deep_view()
        } else {
            seq![engine@]
        },
{
    let mut groups: Vec<String> = Vec::new();
    groups.push(String::from_str(engine));
    assert(groups.deep_view() =~= seq![engine@]);
    if bonus_content {
        let mut i: usize = 0;
        while i < bonus.len()
            invariant
                i <= bonus.len(),
                groups.deep_view() == seq![engine@] + bonus.deep_view().take(i as int),
            decreases bonus.len() - i,
        {
            let ghost before = groups.deep_view();
            groups.push(bonus[i].clone());
            proof {
                assert(bonus.deep_view()[i as int] == bonus[i as int]@);
                assert(groups.deep_view() =~= before.push(bonus[i as int]@));
                assert(bonus.deep_view().take(i + 1) =~= bonus.deep_view().take(i as int).push(
                    bonus[i as int]@,
                ));
                assert(groups.deep_view() =~= seq![engine@] + bonus.deep_view().take(i + 1));
            }
            i += 1;
        }
        assert(bonus.deep_view().take(i as int) =~= bonus.deep_view());
    }
    groups
}

/// Total declared size of the files of directory group `remote_dir`.
pub fn total_download_size(cdn_info: &Vec<CdnFile>, remote_dir: &str) -> (size: u64)
    requires
        group_size(cdn_info.deep_view(), group_prefix(remote_dir@)) <= u64::MAX,
    ensures
        size == group_size(cdn_info.deep_view(), group_prefix(remote_dir@)),
{
    let prefix = prefix_of(remote_dir);
    let ghost entries = cdn_info.deep_view();
    let mut size: u64 = 0;
    let mut i: usize = 0;
    while i < cdn_info.len()
        invariant
            i <= cdn_info.len(),
            entries == cdn_info.deep_view(),
            prefix@ == group_prefix(remote_dir@),
            size == group_size(entries.take(i as int), prefix@),
            group_size(entries, prefix@) <= u64::MAX,
        decreases cdn_info.len() - i,
    {
        proof {
            assert(entries.take(i + 1).drop_last() =~= entries.take(i as int));
            assert(entries.take(i + 1).last() == cdn_info[i as int]@);
            lemma_group_size_grows(entries, prefix@, i + 1);
        }
        if cdn_info[i].in_group(prefix.as_str()) {
            size += cdn_info[i].size as u64;
        }
        i += 1;
    }
    assert(entries.take(i as int) =~= entries);
    size
}

} // verus!
