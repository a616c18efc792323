//! The diff engine: sorts the manifest entries of one directory group into
//! those that are up to date and those that have to be downloaded.
//!
//! The scan does not touch the disk. It says what it needs to know next
//! (`Scan::request`) and takes the answer (`Scan::answer`), one entry at a
//! time, in manifest order.

use vstd::prelude::*;
use crate::cache::HashCache;
use crate::manifest::{group_prefix, prefix_of, CdnFile, ManifestEntry};
use crate::text::{lowercase, same_text, to_lower};

verus! {

/// What the scan needs to know next. Paths are relative to the synchronised
/// directory.
pub enum ScanRequest {
    /// Does this destination exist?
    Exists { name: String },
    /// What is the content hash of this destination?
    Hash { name: String },
    /// Nothing: every entry of the group is sorted.
    Done,
}

/// An answer to a `ScanRequest`.
pub enum ScanAnswer {
    /// Whether the destination exists.
    Exists(bool),
    /// The content hash of the destination, in hexadecimal.
    Hash(String),
}

/// A `ScanRequest` as plain data.
pub enum ScanAsk {
    Exists { name: Seq<char> },
    Hash { name: Seq<char> },
    Done,
}

/// A `ScanAnswer` as plain data.
pub enum ScanReply {
    Exists(bool),
    Hash(Seq<char>),
}

impl View for ScanRequest {
    type V = ScanAsk;

    open spec fn view(&self) -> ScanAsk {
        match self {
            ScanRequest::Exists { name } => ScanAsk::Exists { name: name@ },
            ScanRequest::Hash { name } => ScanAsk::Hash { name: name@ },
            ScanRequest::Done => ScanAsk::Done,
        }
    }
}

impl View for ScanAnswer {
    type V = ScanReply;

    open spec fn view(&self) -> ScanReply {
        match self {
            ScanAnswer::Exists(present) => ScanReply::Exists(*present),
            ScanAnswer::Hash(hash) => ScanReply::Hash(hash@),
        }
    }
}

/// Whether two hashes in hexadecimal denote the same digest: they are
/// compared in lowercase.
pub open spec fn same_hash(a: Seq<char>, b: Seq<char>) -> bool {
    lowercase(a) == lowercase(b)
}

/// Index of the first entry at or after `from` that lies under `prefix`;
/// the length of the manifest where there is none.
pub open spec fn next_in_group(files: Seq<ManifestEntry>, prefix: Seq<char>, from: int) -> int
    decreases files.len() - from,
{
    if from < 0 || from >= files.len() {
        files.len() as int
    } else if files[from].in_group(prefix) {
        from
    } else {
        next_in_group(files, prefix, from + 1)
    }
}

/// The state of a scan as plain data.
pub struct ScanState {
    /// The manifest.
    pub files: Seq<ManifestEntry>,
    /// Path prefix of the group that is scanned.
    pub prefix: Seq<char>,
    /// Index of the entry under examination.
    pub cursor: int,
    /// The entry under examination exists and awaits its hash.
    pub hashing: bool,
    /// Destinations found up to date, in manifest order.
    pub checked: Seq<Seq<char>>,
    /// Entries to download, in manifest order.
    pub pending: Seq<ManifestEntry>,
}

impl ScanState {
    /// The state before the first answer.
    pub open spec fn start(files: Seq<ManifestEntry>, prefix: Seq<char>) -> ScanState {
        ScanState {
            files,
            prefix,
            cursor: next_in_group(files, prefix, 0),
            hashing: false,
            checked: Seq::empty(),
            pending: Seq::empty(),
        }
    }

    /// Every entry of the group is sorted.
    pub open spec fn done(self) -> bool {
        !(0 <= self.cursor < self.files.len())
    }

    /// Destination of the entry under examination.
    pub open spec fn name(self) -> Seq<char> {
        self.files[self.cursor].local_name(self.prefix)
    }

    /// What the scan needs to know in this state.
    pub open spec fn request(self) -> ScanAsk {
        if self.done() {
            ScanAsk::Done
        } else if self.hashing {
            ScanAsk::Hash { name: self.name() }
        } else {
            ScanAsk::Exists { name: self.name() }
        }
    }

    /// The entry under examination has to be downloaded.
    pub open spec fn stale(self) -> ScanState {
        ScanState {
            cursor: next_in_group(self.files, self.prefix, self.cursor + 1),
            hashing: false,
            pending: self.pending.push(self.files[self.cursor]),
            ..self
        }
    }

    /// The entry under examination is up to date.
    pub open spec fn fresh(self) -> ScanState {
        ScanState {
            cursor: next_in_group(self.files, self.prefix, self.cursor + 1),
            hashing: false,
            checked: self.checked.push(self.name()),
            ..self
        }
    }

    /// The entry under examination exists with content hash `local`: it is
    /// up to date where that is the manifest's hash, and its hash is then
    /// recorded in the cache; else it has to be downloaded.
    pub open spec fn settle(self, cache: Map<Seq<char>, Seq<char>>, local: Seq<char>) -> (
        ScanState,
        Map<Seq<char>, Seq<char>>,
    ) {
        let entry = self.files[self.cursor];
        if same_hash(local, entry.hash) {
            (self.fresh(), cache.insert(self.name(), lowercase(entry.hash)))
        } else {
            (self.stale(), cache)
        }
    }

    /// The state and the cache after `reply`. An absent destination has to
    /// be downloaded. One that exists is judged by its cached hash, or, with
    /// no cached hash, by the hash that the scan asks for next. A reply that
    /// the scan did not ask for changes nothing.
    pub open spec fn step(self, cache: Map<Seq<char>, Seq<char>>, reply: ScanReply) -> (
        ScanState,
        Map<Seq<char>, Seq<char>>,
    ) {
        if self.done() {
            (self, cache)
        } else {
            match reply {
                ScanReply::Exists(present) => {
                    if self.hashing {
                        (self, cache)
                    } else if !present {
                        (self.stale(), cache)
                    } else if cache.contains_key(self.name()) {
                        self.settle(cache, cache[self.name()])
                    } else {
                        (ScanState { hashing: true, ..self }, cache)
                    }
                },
                ScanReply::Hash(local) => {
                    if self.hashing {
                        self.settle(cache, local)
                    } else {
                        (self, cache)
                    }
                },
            }
        }
    }
}

/// The outcome of sorting a manifest: the destinations found up to date,
/// the entries to download, and the cache as the sorting leaves it.
pub struct Sorted {
    pub checked: Seq<Seq<char>>,
    pub pending: Seq<ManifestEntry>,
    pub cache: Map<Seq<char>, Seq<char>>,
}

/// How the entries of a manifest that lie under `prefix` are sorted, given
/// the content hash of every destination that exists (`disk`) and the hash
/// cache at the start.
///
/// Entries are taken in manifest order. An entry whose destination is
/// absent has to be downloaded. For one that exists, the hash recorded in
/// the cache is taken where there is one, the content hash else; the entry
/// is up to date where that is the manifest's hash, which is then recorded,
/// and has to be downloaded where it is not.
pub open spec fn classify(
    files: Seq<ManifestEntry>,
    prefix: Seq<char>,
    disk: Map<Seq<char>, Seq<char>>,
    cache: Map<Seq<char>, Seq<char>>,
) -> Sorted
    decreases files.len(),
{
    if files.len() == 0 {
        Sorted { checked: Seq::empty(), pending: Seq::empty(), cache }
    } else {
        let before = classify(files.drop_last(), prefix, disk, cache);
        let entry = files.last();
        let name = entry.local_name(prefix);
        if !entry.in_group(prefix) {
            before
        } else if !disk.contains_key(name) {
            Sorted { pending: before.pending.push(entry), ..before }
        } else {
            let local = if before.cache.contains_key(name) {
                before.cache[name]
            } else {
                disk[name]
            };
            if same_hash(local, entry.hash) {
                Sorted {
                    checked: before.checked.push(name),
                    cache: before.cache.insert(name, lowercase(entry.hash)),
                    ..before
                }
            } else {
                Sorted { pending: before.pending.push(entry), ..before }
            }
        }
    }
}

/// The number of entries that lie under `prefix`.
pub open spec fn group_len(files: Seq<ManifestEntry>, prefix: Seq<char>) -> nat
    decreases files.len(),
{
    if files.len() == 0 {
        0
    } else if files.last().in_group(prefix) {
        group_len(files.drop_last(), prefix) + 1
    } else {
        group_len(files.drop_last(), prefix)
    }
}

/// Every entry of the group is sorted exactly once: it is up to date or it
/// has to be downloaded. An entry that is up to date has its hash in the
/// cache afterwards.
pub proof fn lemma_classify_sorts_each_entry(
    files: Seq<ManifestEntry>,
    prefix: Seq<char>,
    disk: Map<Seq<char>, Seq<char>>,
    cache: Map<Seq<char>, Seq<char>>,
)
    ensures
        classify(files, prefix, disk, cache).checked.len() + classify(
            files,
            prefix,
            disk,
            cache,
        ).pending.len() == group_len(files, prefix),
        forall|i: int|
            0 <= i < classify(files, prefix, disk, cache).checked.len() ==> classify(
                files,
                prefix,
                disk,
                cache,
            ).cache.contains_key(#[trigger] classify(files, prefix, disk, cache).checked[i]),
        forall|name: Seq<char>|
            cache.contains_key(name) ==> classify(files, prefix, disk, cache).cache.contains_key(
                name,
            ),
    decreases files.len(),
{
    if files.len() > 0 {
        lemma_classify_sorts_each_entry(files.drop_last(), prefix, disk, cache);
    }
}

/// The true answer to a request, given the content hash of every
/// destination that exists.
pub open spec fn truthful(disk: Map<Seq<char>, Seq<char>>, ask: ScanAsk) -> ScanReply {
    match ask {
        ScanAsk::Exists { name } => ScanReply::Exists(disk.contains_key(name)),
        ScanAsk::Hash { name } => ScanReply::Hash(disk[name]),
        ScanAsk::Done => ScanReply::Exists(false),
    }
}

/// The state and the cache at the end of a scan that gets a true answer to
/// every request.
pub open spec fn run(
    state: ScanState,
    cache: Map<Seq<char>, Seq<char>>,
    disk: Map<Seq<char>, Seq<char>>,
) -> (ScanState, Map<Seq<char>, Seq<char>>)
    decreases state.files.len() - state.cursor, (if state.hashing { 0int } else { 1int }),
{
    if state.done() {
        (state, cache)
    } else {
        proof {
            lemma_next_in_group(state.files, state.prefix, state.cursor + 1);
        }
        let after = state.step(cache, truthful(disk, state.request()));
        run(after.0, after.1, disk)
    }
}

/// `next_in_group` finds the first entry of the group at or after `from`.
pub proof fn lemma_next_in_group(files: Seq<ManifestEntry>, prefix: Seq<char>, from: int)
    requires
        0 <= from,
    ensures
        from <= next_in_group(files, prefix, from) || next_in_group(files, prefix, from)
            == files.len(),
        next_in_group(files, prefix, from) <= files.len(),
        next_in_group(files, prefix, from) < files.len() ==> files[next_in_group(
            files,
            prefix,
            from,
        )].in_group(prefix),
        forall|k: int|
            from <= k < next_in_group(files, prefix, from) ==> !(#[trigger] files[k]).in_group(
                prefix,
            ),
    decreases files.len() - from,
{
    if from < files.len() && !files[from].in_group(prefix) {
        lemma_next_in_group(files, prefix, from + 1);
    }
}

/// Entries outside the group leave the sorting as it is.
proof fn lemma_classify_skips(
    files: Seq<ManifestEntry>,
    prefix: Seq<char>,
    disk: Map<Seq<char>, Seq<char>>,
    cache: Map<Seq<char>, Seq<char>>,
    from: int,
    to: int,
)
    requires
        0 <= from <= to <= files.len(),
        forall|k: int| from <= k < to ==> !(#[trigger] files[k]).in_group(prefix),
    ensures
        classify(files.take(to), prefix, disk, cache) == classify(
            files.take(from),
            prefix,
            disk,
            cache,
        ),
    decreases to - from,
{
    if from < to {
        lemma_classify_skips(files, prefix, disk, cache, from, to - 1);
        assert(files.take(to).drop_last() =~= files.take(to - 1));
        assert(files.take(to).last() == files[to - 1]);
    }
}

/// A scan that stands between two entries, with everything before the
/// cursor sorted as `classify` says, ends as `classify` says for the whole
/// manifest.
proof fn lemma_run_from(
    state: ScanState,
    cache: Map<Seq<char>, Seq<char>>,
    disk: Map<Seq<char>, Seq<char>>,
    cache0: Map<Seq<char>, Seq<char>>,
)
    requires
        0 <= state.cursor <= state.files.len(),
        state.cursor < state.files.len() ==> state.files[state.cursor].in_group(state.prefix),
        !state.hashing,
        classify(state.files.take(state.cursor), state.prefix, disk, cache0) == (Sorted {
            checked: state.checked,
            pending: state.pending,
            cache,
        }),
    ensures
        run(state, cache, disk).0.done(),
        run(state, cache, disk).0.files == state.files,
        classify(state.files, state.prefix, disk, cache0) == (Sorted {
            checked: run(state, cache, disk).0.checked,
            pending: run(state, cache, disk).0.pending,
            cache: run(state, cache, disk).1,
        }),
    decreases state.files.len() - state.cursor,
{
    let files = state.files;
    let prefix = state.prefix;
    if state.cursor == files.len() {
        assert(files.take(state.cursor) =~= files);
    } else {
        let c = state.cursor;
        let entry = files[c];
        let name = entry.local_name(prefix);
        let next = next_in_group(files, prefix, c + 1);
        lemma_next_in_group(files, prefix, c + 1);
        assert(files.take(c + 1).drop_last() =~= files.take(c));
        assert(files.take(c + 1).last() == entry);
        lemma_classify_skips(files, prefix, disk, cache0, c + 1, next);
        let first = state.step(cache, truthful(disk, state.request()));
        if disk.contains_key(name) && !cache.contains_key(name) {
            // the scan asks for the hash before it decides
            let second = first.0.step(first.1, truthful(disk, first.0.request()));
            assert(run(state, cache, disk) == run(first.0, first.1, disk));
            assert(run(first.0, first.1, disk) == run(second.0, second.1, disk));
            lemma_run_from(second.0, second.1, disk, cache0);
        } else {
            assert(run(state, cache, disk) == run(first.0, first.1, disk));
            lemma_run_from(first.0, first.1, disk, cache0);
        }
    }
}

/// A scan that gets a true answer to every request sorts the manifest as
/// `classify` says: a destination that is absent, or whose hash differs from
/// the manifest's, is downloaded; one whose hash is the manifest's is up to
/// date.
pub proof fn lemma_truthful_scan(
    files: Seq<ManifestEntry>,
    prefix: Seq<char>,
    disk: Map<Seq<char>, Seq<char>>,
    cache: Map<Seq<char>, Seq<char>>,
)
    ensures
        run(ScanState::start(files, prefix), cache, disk).0.done(),
        classify(files, prefix, disk, cache) == (Sorted {
            checked: run(ScanState::start(files, prefix), cache, disk).0.checked,
            pending: run(ScanState::start(files, prefix), cache, disk).0.pending,
            cache: run(ScanState::start(files, prefix), cache, disk).1,
        }),
{
    let state = ScanState::start(files, prefix);
    lemma_next_in_group(files, prefix, 0);
    lemma_classify_skips(files, prefix, disk, cache, 0, state.cursor);
    assert(files.take(0) =~= Seq::<ManifestEntry>::empty());
    lemma_run_from(state, cache, disk, cache);
}

/// A scan of one directory group of a manifest.
pub struct Scan {
    files: Vec<CdnFile>,
    prefix: String,
    cursor: usize,
    hashing: bool,
    checked: Vec<String>,
    pending: Vec<CdnFile>,
}

impl View for Scan {
    type V = ScanState;

    closed spec fn view(&self) -> ScanState {
        ScanState {
            files: self.files.deep_view(),
            prefix: self.prefix@,
            cursor: self.cursor as int,
            hashing: self.hashing,
            checked: self.checked.deep_view(),
            pending: self.pending.deep_view(),
        }
    }
}

/// Whether two hashes in hexadecimal denote the same digest.
pub fn hashes_agree(a: &str, b: &str) -> (r: bool)
    ensures
        r == same_hash(a@, b@),
{
    let la = to_lower(a);
    let lb = to_lower(b);
    same_text(la.as_str(), lb.as_str())
}

/// Index of the first file at or after `from` that lies under `prefix`.
fn seek(files: &Vec<CdnFile>, prefix: &str, from: usize) -> (r: usize)
    ensures
        r == next_in_group(files.deep_view(), prefix@, from as int),
        r <= files.len(),
{
    let mut i: usize = from;
    while i < files.len()
        invariant
            from <= i,
            next_in_group(files.deep_view(), prefix@, i as int) == next_in_group(
                files.deep_view(),
                prefix@,
                from as int,
            ),
        decreases files.len() - i,
    {
        assert(files.deep_view()[i as int] == files[i as int]@);
        if files[i].in_group(prefix) {
            return i;
        }
        i += 1;
    }
    files.len()
}

impl Scan {
    /// A scan of the files of `cdn_info` that belong to directory group
    /// `remote_dir`.
    pub fn new(cdn_info: Vec<CdnFile>, remote_dir: &str) -> (r: Scan)
        ensures
            r@ == ScanState::start(cdn_info.deep_view(), group_prefix(remote_dir@)),
    {
        let prefix = prefix_of(remote_dir);
        let cursor = seek(&cdn_info, prefix.as_str(), 0);
        let checked: Vec<String> = Vec::new();
        let pending: Vec<CdnFile> = Vec::new();
        assert(checked.deep_view() =~= Seq::<Seq<char>>::empty());
        assert(pending.deep_view() =~= Seq::<ManifestEntry>::empty());
        Scan { files: cdn_info, prefix, cursor, hashing: false, checked, pending }
    }

    /// What the scan needs to know next.
    pub fn request(&self) -> (r: ScanRequest)
        ensures
            r@ == self@.request(),
    {
        if self.cursor >= self.files.len() {
            ScanRequest::Done
        } else {
            assert(self.files.deep_view()[self.cursor as int] == self.files[self.cursor as int]@);
            let name = self.files[self.cursor].local_name(self.prefix.as_str());
            if self.hashing {
                ScanRequest::Hash { name }
            } else {
                ScanRequest::Exists { name }
            }
        }
    }

    /// The index of the next file of the group after the one under
    /// examination.
    fn following(&self) -> (r: usize)
        requires
            self.cursor < self.files.len(),
        ensures
            r == next_in_group(self@.files, self@.prefix, self@.cursor + 1),
    {
        seek(&self.files, self.prefix.as_str(), self.cursor + 1)
    }

    /// Puts the file under examination on the download list.
    fn mark_stale(&mut self)
        requires
            old(self).cursor < old(self).files.len(),
        ensures
            final(self)@ == old(self)@.stale(),
    {
        let next = self.following();
        let file = self.files[self.cursor].clone();
        assert(self.files.deep_view()[self.cursor as int] == self.files[self.cursor as int]@);
        self.pending.push(file);
        assert(self.pending.deep_view() =~= old(self).pending.deep_view().push(file@));
        self.cursor = next;
        self.hashing = false;
    }

    /// Judges the file under examination by the hash `local` of its
    /// destination.
    fn settle(&mut self, hashes: &mut HashCache, local: &str)
        requires
            old(self).cursor < old(self).files.len(),
        ensures
            (final(self)@, final(hashes)@) == old(self)@.settle(old(hashes)@, local@),
    {
        assert(self.files.deep_view()[self.cursor as int] == self.files[self.cursor as int]@);
        let remote = to_lower(self.files[self.cursor].blake3.as_str());
        let ours = to_lower(local);
        if same_text(ours.as_str(), remote.as_str()) {
            let next = self.following();
            let name = self.files[self.cursor].local_name(self.prefix.as_str());
            hashes.insert(name.clone(), remote);
            self.checked.push(name);
            assert(self.checked.deep_view() =~= old(self).checked.deep_view().push(name@));
            self.cursor = next;
            self.hashing = false;
        } else {
            self.mark_stale();
        }
    }

    /// Takes the answer to the pending request. An answer of another kind
    /// than the one asked for is ignored.
    pub fn answer(&mut self, hashes: &mut HashCache, answer: ScanAnswer)
        ensures
            (final(self)@, final(hashes)@) == old(self)@.step(old(hashes)@, answer@),
    {
        if self.cursor >= self.files.len() {
            return;
        }
        assert(self.files.deep_view()[self.cursor as int] == self.files[self.cursor as int]@);
        match answer {
            ScanAnswer::Exists(present) => {
                if self.hashing {
                } else if !present {
                    self.mark_stale();
                } else {
                    let name = self.files[self.cursor].local_name(self.prefix.as_str());
                    let cached = match hashes.get(name.as_str()) {
                        Some(hash) => Some(hash.clone()),
                        None => None,
                    };
                    match cached {
                        Some(hash) => {
                            self.settle(hashes, hash.as_str());
                        },
                        None => {
                            self.hashing = true;
                        },
                    }
                }
            },
            ScanAnswer::Hash(local) => {
                if self.hashing {
                    self.settle(hashes, local.as_str());
                }
            },
        }
    }

    /// Whether every entry of the group is sorted.
    pub fn is_done(&self) -> (r: bool)
        ensures
            r == self@.done(),
    {
        self.cursor >= self.files.len()
    }

    /// Destinations found up to date so far, in manifest order.
    pub fn checked(&self) -> (r: &Vec<String>)
        ensures
            r.deep_view() == self@.checked,
    {
        &self.checked
    }

    /// Entries found to need a download so far, in manifest order.
    pub fn to_download(&self) -> (r: &Vec<CdnFile>)
        ensures
            r.deep_view() == self@.pending,
    {
        &self.pending
    }

    /// Ends the scan and hands out the download list.
    pub fn into_downloads(self) -> (r: Vec<CdnFile>)
        ensures
            r.deep_view() == self@.pending,
    {
        self.pending
    }
}

} // verus!
