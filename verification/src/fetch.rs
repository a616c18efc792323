//! The download-and-verify loop: fetches the files of a download list one
//! after the other, checks each against its manifest hash, and applies the
//! retry policy.
//!
//! The loop performs no transfer itself. It says what has to happen next
//! (`Fetcher::request`) and takes the outcome (`Fetcher::answer`).

use vstd::prelude::*;
use crate::cache::HashCache;
use crate::manifest::{group_prefix, prefix_of, CdnFile, ManifestEntry};
use crate::scan::{hashes_agree, same_hash};
use crate::text::{has_suffix, lowercase, same_text, to_lower};

verus! {

/// Why a download did not complete.
#[derive(Clone, Copy, PartialEq, Eq, Structural, Debug)]
pub enum Failure {
    /// The transfer broke off.
    Transport,
    /// The file arrived, and its hash is not the manifest's.
    Mismatch,
}

/// Where the loop stands with the file under work.
#[derive(Clone, Copy, PartialEq, Eq, Structural, Debug)]
pub enum Stage {
    /// The file is to be transferred; `bust` asks for a cache-busting token.
    Transfer { bust: bool },
    /// The transfer broke off and the operator is asked whether to retry.
    TransferFailed,
    /// The file is written and awaits its hash.
    Verify,
    /// The hash differs and the operator is asked whether to retry.
    Mismatch,
    /// The operator gave up after a broken transfer: the run has failed.
    Aborted,
}

/// What has to happen next. Paths in `name` are relative to the synchronised
/// directory; `remote` is the file's path on the host.
pub enum FetchRequest {
    /// Transfer the file to its destination, creating the directories above
    /// it. With `bust_cache`, append a fresh random query token to the URL.
    /// With `executable`, mark the written file as executable.
    Download { remote: String, name: String, size: u64, bust_cache: bool, executable: bool },
    /// Hash the destination.
    Hash { name: String },
    /// Ask the operator whether to retry after `failure`.
    Confirm { name: String, failure: Failure },
    /// Stop: the run has failed on this file.
    Abort { name: String },
    /// Nothing: the list is worked off.
    Done,
}

/// The outcome of a `FetchRequest`.
pub enum FetchAnswer {
    /// Whether the transfer completed.
    Transferred(bool),
    /// The content hash of the destination, in hexadecimal.
    Hash(String),
    /// Whether the operator wants another attempt.
    Retry(bool),
}

/// A `FetchRequest` as plain data.
pub enum FetchAsk {
    Download { remote: Seq<char>, name: Seq<char>, size: nat, bust_cache: bool, executable: bool },
    Hash { name: Seq<char> },
    Confirm { name: Seq<char>, failure: Failure },
    Abort { name: Seq<char> },
    Done,
}

/// A `FetchAnswer` as plain data.
pub enum FetchReply {
    Transferred(bool),
    Hash(Seq<char>),
    Retry(bool),
}

impl View for FetchRequest {
    type V = FetchAsk;

    open spec fn view(&self) -> FetchAsk {
        match self {
            FetchRequest::Download { remote, name, size, bust_cache, executable } => {
                FetchAsk::Download {
                    remote: remote@,
                    name: name@,
                    size: *size as nat,
                    bust_cache: *bust_cache,
                    executable: *executable,
                }
            },
            FetchRequest::Hash { name } => FetchAsk::Hash { name: name@ },
            FetchRequest::Confirm { name, failure } => FetchAsk::Confirm {
                name: name@,
                failure: *failure,
            },
            FetchRequest::Abort { name } => FetchAsk::Abort { name: name@ },
            FetchRequest::Done => FetchAsk::Done,
        }
    }
}

impl View for FetchAnswer {
    type V = FetchReply;

    open spec fn view(&self) -> FetchReply {
        match self {
            FetchAnswer::Transferred(complete) => FetchReply::Transferred(*complete),
            FetchAnswer::Hash(hash) => FetchReply::Hash(hash@),
            FetchAnswer::Retry(again) => FetchReply::Retry(*again),
        }
    }
}

/// Whether `name` ends in one of `suffixes`. Files with such a name are
/// rewritten by the host on every request and are not held to their
/// manifest hash.
pub open spec fn is_exempt(name: Seq<char>, suffixes: Seq<Seq<char>>) -> bool {
    exists|i: int| 0 <= i < suffixes.len() && (#[trigger] suffixes[i]).is_suffix_of(name)
}

/// The suffix of files that are to be marked executable.
pub open spec fn executable_suffix() -> Seq<char> {
    seq!['.', 'e', 'x', 'e']
}

/// The state of the loop as plain data.
pub struct FetchState {
    /// The download list.
    pub files: Seq<ManifestEntry>,
    /// Path prefix of the directory group.
    pub prefix: Seq<char>,
    /// Suffixes of names that are exempt from verification.
    pub exempt: Seq<Seq<char>>,
    /// Index of the file under work.
    pub cursor: int,
    /// Where the loop stands with that file.
    pub stage: Stage,
    /// Destinations left on disk unverified, in list order.
    pub skipped: Seq<Seq<char>>,
}

impl FetchState {
    /// The state before the first transfer.
    pub open spec fn start(
        files: Seq<ManifestEntry>,
        prefix: Seq<char>,
        exempt: Seq<Seq<char>>,
    ) -> FetchState {
        FetchState {
            files,
            prefix,
            exempt,
            cursor: 0,
            stage: Stage::Transfer { bust: false },
            skipped: Seq::empty(),
        }
    }

    /// The list is worked off.
    pub open spec fn done(self) -> bool {
        !(0 <= self.cursor < self.files.len())
    }

    /// Destination of the file under work.
    pub open spec fn name(self) -> Seq<char> {
        self.files[self.cursor].local_name(self.prefix)
    }

    /// What has to happen next in this state.
    pub open spec fn request(self) -> FetchAsk {
        if self.done() {
            FetchAsk::Done
        } else {
            match self.stage {
                Stage::Transfer { bust } => FetchAsk::Download {
                    remote: self.files[self.cursor].name,
                    name: self.name(),
                    size: self.files[self.cursor].size,
                    bust_cache: bust,
                    executable: executable_suffix().is_suffix_of(self.name()),
                },
                Stage::TransferFailed => FetchAsk::Confirm {
                    name: self.name(),
                    failure: Failure::Transport,
                },
                Stage::Verify => FetchAsk::Hash { name: self.name() },
                Stage::Mismatch => FetchAsk::Confirm {
                    name: self.name(),
                    failure: Failure::Mismatch,
                },
                Stage::Aborted => FetchAsk::Abort { name: self.name() },
            }
        }
    }

    /// The loop moves on to the next file of the list.
    pub open spec fn advance(self) -> FetchState {
        FetchState { cursor: self.cursor + 1, stage: Stage::Transfer { bust: false }, ..self }
    }

    /// Whether a destination with content hash `local` counts as a complete
    /// download of the file under work: its hash is the manifest's, or its
    /// name is exempt.
    pub open spec fn accepts(self, local: Seq<char>) -> bool {
        same_hash(local, self.files[self.cursor].hash) || is_exempt(self.name(), self.exempt)
    }

    /// The state and the cache after `reply`.
    ///
    /// A completed transfer is verified; a broken one is put to the
    /// operator, who retries it or ends the run. A destination that passes
    /// verification has its hash recorded and the loop moves on; one that
    /// fails is put to the operator, who retries with a cache-busting token
    /// or skips the file, which leaves the cache as it is. A reply that the
    /// loop did not ask for changes nothing.
    pub open spec fn step(self, cache: Map<Seq<char>, Seq<char>>, reply: FetchReply) -> (
        FetchState,
        Map<Seq<char>, Seq<char>>,
    ) {
        if self.done() {
            (self, cache)
        } else {
            match (self.stage, reply) {
                (Stage::Transfer { .. }, FetchReply::Transferred(true)) => (
                    FetchState { stage: Stage::Verify, ..self },
                    cache,
                ),
                (Stage::Transfer { .. }, FetchReply::Transferred(false)) => (
                    FetchState { stage: Stage::TransferFailed, ..self },
                    cache,
                ),
                (Stage::TransferFailed, FetchReply::Retry(true)) => (
                    FetchState { stage: Stage::Transfer { bust: false }, ..self },
                    cache,
                ),
                (Stage::TransferFailed, FetchReply::Retry(false)) => (
                    FetchState { stage: Stage::Aborted, ..self },
                    cache,
                ),
                (Stage::Verify, FetchReply::Hash(local)) => {
                    if self.accepts(local) {
                        (self.advance(), cache.insert(self.name(), lowercase(local)))
                    } else {
                        (FetchState { stage: Stage::Mismatch, ..self }, cache)
                    }
                },
                (Stage::Mismatch, FetchReply::Retry(true)) => (
                    FetchState { stage: Stage::Transfer { bust: true }, ..self },
                    cache,
                ),
                (Stage::Mismatch, FetchReply::Retry(false)) => (
                    FetchState { skipped: self.skipped.push(self.name()), ..self.advance() },
                    cache,
                ),
                _ => (self, cache),
            }
        }
    }
}

/// The cache changes only when a destination passes verification, and then
/// by the one entry of that destination: nothing is recorded on a transfer,
/// on a mismatch or on a skip.
pub proof fn lemma_cache_follows_verification(
    state: FetchState,
    cache: Map<Seq<char>, Seq<char>>,
    reply: FetchReply,
)
    ensures
        state.step(cache, reply).1 != cache ==> {
            &&& !state.done()
            &&& state.stage == Stage::Verify
            &&& reply matches FetchReply::Hash(local)
            &&& state.accepts(local)
            &&& state.step(cache, reply).1 == cache.insert(state.name(), lowercase(local))
        },
{
}

/// A run that the operator gave up stays failed: no reply moves it on.
pub proof fn lemma_abort_is_final(
    state: FetchState,
    cache: Map<Seq<char>, Seq<char>>,
    reply: FetchReply,
)
    requires
        state.stage == Stage::Aborted,
    ensures
        state.step(cache, reply) == (state, cache),
{
}

/// A transfer gets a cache-busting token only as the retry that the
/// operator asked for after a mismatch.
pub proof fn lemma_bust_follows_mismatch(
    state: FetchState,
    cache: Map<Seq<char>, Seq<char>>,
    reply: FetchReply,
)
    requires
        state.stage != (Stage::Transfer { bust: true }),
        state.step(cache, reply).0.stage == (Stage::Transfer { bust: true }),
    ensures
        state.stage == Stage::Mismatch,
        reply == FetchReply::Retry(true),
        state.step(cache, reply).0.cursor == state.cursor,
{
}

/// The loop never goes back in its list, and it leaves a file only once the
/// file is verified or skipped.
pub proof fn lemma_fetch_progress(
    state: FetchState,
    cache: Map<Seq<char>, Seq<char>>,
    reply: FetchReply,
)
    ensures
        state.step(cache, reply).0.files == state.files,
        state.step(cache, reply).0.cursor == state.cursor || (state.step(cache, reply).0.cursor
            == state.cursor + 1 && (state.stage == Stage::Verify || state.stage
            == Stage::Mismatch)),
{
}

/// Whether the operator's reply to a retry question is a refusal: the
/// letter n, in either case.
pub open spec fn is_refusal(reply: Seq<char>) -> bool {
    reply == seq!['n'] || reply == seq!['N']
}

/// Whether the operator's reply to a retry question asks for another
/// attempt. Every reply but a refusal does.
pub fn wants_retry(reply: &str) -> (r: bool)
    ensures
        r == !is_refusal(reply@),
{
    proof {
        reveal_strlit("n");
        reveal_strlit("N");
        assert("n"@ =~= seq!['n']);
        assert("N"@ =~= seq!['N']);
    }
    !(same_text(reply, "n") || same_text(reply, "N"))
}

/// The download-and-verify loop over one download list.
pub struct Fetcher {
    files: Vec<CdnFile>,
    prefix: String,
    exempt: Vec<String>,
    cursor: usize,
    stage: Stage,
    skipped: Vec<String>,
}

impl View for Fetcher {
    type V = FetchState;

    closed spec fn view(&self) -> FetchState {
        FetchState {
            files: self.files.deep_view(),
            prefix: self.prefix@,
            exempt: self.exempt.deep_view(),
            cursor: self.cursor as int,
            stage: self.stage,
            skipped: self.skipped.deep_view(),
        }
    }
}

/// Whether `name` ends in one of `suffixes`.
pub fn name_is_exempt(name: &str, suffixes: &Vec<String>) -> (r: bool)
    ensures
        r == is_exempt(name@, suffixes.deep_view()),
{
    let ghost list = suffixes.deep_view();
    let mut i: usize = 0;
    while i < suffixes.len()
        invariant
            i <= suffixes.len(),
            list == suffixes.deep_view(),
            forall|j: int| 0 <= j < i ==> !(#[trigger] list[j]).is_suffix_of(name@),
        decreases suffixes.len() - i,
    {
        assert(list[i as int] == suffixes[i as int]@);
        if has_suffix(name, suffixes[i].as_str()) {
            return true;
        }
        i += 1;
    }
    false
}

/// The suffixes that are exempt from verification unless the caller names
/// others: HTML pages.
pub fn default_exempt() -> (r: Vec<String>)
    ensures
        r.deep_view() == seq![seq!['.', 'h', 't', 'm', 'l']],
{
    proof {
        reveal_strlit(".html");
    }
    let mut list: Vec<String> = Vec::new();
    let suffix = String::from_str(".html");
    assert(suffix@ =~= seq!['.', 'h', 't', 'm', 'l']);
    list.push(suffix);
    assert(list.deep_view() =~= seq![seq!['.', 'h', 't', 'm', 'l']]);
    list
}

impl Fetcher {
    /// A loop over `files`, which belong to directory group `remote_dir`.
    /// Names that end in one of `exempt` are not held to their hash.
    pub fn new(files: Vec<CdnFile>, remote_dir: &str, exempt: Vec<String>) -> (r: Fetcher)
        ensures
            r@ == FetchState::start(
                files.deep_view(),
                group_prefix(remote_dir@),
                exempt.deep_view(),
            ),
    {
        let skipped: Vec<String> = Vec::new();
        assert(skipped.deep_view() =~= Seq::<Seq<char>>::empty());
        Fetcher {
            files,
            prefix: prefix_of(remote_dir),
            exempt,
            cursor: 0,
            stage: Stage::Transfer { bust: false },
            skipped,
        }
    }

    /// Destination of the file under work.
    fn current_name(&self) -> (r: String)
        requires
            self.cursor < self.files.len(),
        ensures
            r@ == self@.name(),
    {
        assert(self.files.deep_view()[self.cursor as int] == self.files[self.cursor as int]@);
        self.files[self.cursor].local_name(self.prefix.as_str())
    }

    /// What has to happen next.
    pub fn request(&self) -> (r: FetchRequest)
        ensures
            r@ == self@.request(),
    {
        if self.cursor >= self.files.len() {
            return FetchRequest::Done;
        }
        assert(self.files.deep_view()[self.cursor as int] == self.files[self.cursor as int]@);
        let name = self.current_name();
        match self.stage {
            Stage::Transfer { bust } => {
                proof {
                    reveal_strlit(".exe");
                    assert(".exe"@ =~= executable_suffix());
                }
                let executable = has_suffix(name.as_str(), ".exe");
                FetchRequest::Download {
                    remote: self.files[self.cursor].name.clone(),
                    name,
                    size: self.files[self.cursor].size as u64,
                    bust_cache: bust,
                    executable,
                }
            },
            Stage::TransferFailed => FetchRequest::Confirm { name, failure: Failure::Transport },
            Stage::Verify => FetchRequest::Hash { name },
            Stage::Mismatch => FetchRequest::Confirm { name, failure: Failure::Mismatch },
            Stage::Aborted => FetchRequest::Abort { name },
        }
    }

    /// Takes the outcome of the pending request. An outcome of another kind
    /// than the one asked for is ignored.
    pub fn answer(&mut self, hashes: &mut HashCache, answer: FetchAnswer)
        ensures
            (final(self)@, final(hashes)@) == old(self)@.step(old(hashes)@, answer@),
    {
        if self.cursor >= self.files.len() {
            return;
        }
        assert(self.files.deep_view()[self.cursor as int] == self.files[self.cursor as int]@);
        match (self.stage, answer) {
            (Stage::Transfer { .. }, FetchAnswer::Transferred(true)) => {
                self.stage = Stage::Verify;
            },
            (Stage::Transfer { .. }, FetchAnswer::Transferred(false)) => {
                self.stage = Stage::TransferFailed;
            },
            (Stage::TransferFailed, FetchAnswer::Retry(true)) => {
                self.stage = Stage::Transfer { bust: false };
            },
            (Stage::TransferFailed, FetchAnswer::Retry(false)) => {
                self.stage = Stage::Aborted;
            },
            (Stage::Verify, FetchAnswer::Hash(local)) => {
                let name = self.current_name();
                let verified = hashes_agree(local.as_str(), self.files[self.cursor].blake3.as_str());
                if verified || name_is_exempt(name.as_str(), &self.exempt) {
                    hashes.insert(name, to_lower(local.as_str()));
                    self.cursor = self.cursor + 1;
                    self.stage = Stage::Transfer { bust: false };
                } else {
                    self.stage = Stage::Mismatch;
                }
            },
            (Stage::Mismatch, FetchAnswer::Retry(true)) => {
                self.stage = Stage::Transfer { bust: true };
            },
            (Stage::Mismatch, FetchAnswer::Retry(false)) => {
                let name = self.current_name();
                self.skipped.push(name);
                assert(self.skipped.deep_view() =~= old(self).skipped.deep_view().push(name@));
                self.cursor = self.cursor + 1;
                self.stage = Stage::Transfer { bust: false };
            },
            _ => {},
        }
    }

    /// Whether the list is worked off.
    pub fn is_done(&self) -> (r: bool)
        ensures
            r == self@.done(),
    {
        self.cursor >= self.files.len()
    }

    /// Whether the run has failed.
    pub fn is_aborted(&self) -> (r: bool)
        ensures
            r == (self@.stage == Stage::Aborted),
    {
        match self.stage {
            Stage::Aborted => true,
            _ => false,
        }
    }

    /// Destinations left on disk unverified so far, in list order.
    pub fn skipped(&self) -> (r: &Vec<String>)
        ensures
            r.deep_view() == self@.skipped,
    {
        &self.skipped
    }
}

} // verus!
