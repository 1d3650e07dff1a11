//! Lock snapshots: freezing a composed environment and detecting drift.
//!
//! A lock pairs every source file of a composed environment with the hash of
//! its content, and every layer reference with the digest it resolved to.
//! The pairing is by position: entry `i` of the lock belongs to entry `i` of
//! the environment it is compared with.

use sha2::Digest;
use vstd::prelude::*;
use crate::compose::{ComposedEnvironment, ComposedView};
use crate::declaration::EnvSpec;
use crate::error::{Error, ErrorView};
use crate::text::{opt_text, texts};

verus! {

/// The schema version a lock is written in.
#[derive(Debug, Clone, Copy, PartialEq, Eq, Structural)]
pub enum LockApiVersion {
    V0,
}

/// A point in time: seconds and nanoseconds since the Unix epoch, in UTC.
#[derive(Debug, Clone, Copy, PartialEq, Eq, Structural)]
pub struct Timestamp {
    pub secs: i64,
    pub nanos: u32,
}

/// When, by what and where a lock was generated.
#[derive(Debug, PartialEq, Eq)]
pub struct GenerationMetadata {
    pub timestamp: Timestamp,
    pub spenv_version: String,
    pub hostname: String,
}

/// A source file as the lock remembers it.
#[derive(Debug, PartialEq, Eq)]
pub struct SourceFile {
    pub path: String,
    pub sha256: String,
    pub mtime: Timestamp,
}

/// A layer reference as the lock remembers it.
#[derive(Debug, PartialEq, Eq)]
pub struct ResolvedLayer {
    pub reference: String,
    pub digest: String,
    pub resolved_at: Timestamp,
}

/// A lock snapshot.
#[derive(Debug, PartialEq, Eq)]
pub struct LockFile {
    pub api: LockApiVersion,
    pub generated: GenerationMetadata,
    pub sources: Vec<SourceFile>,
    pub layers: Vec<ResolvedLayer>,
}

/// What kind of difference a [`LockChange`] reports.
#[derive(Debug, Clone, Copy, PartialEq, Eq, Structural)]
pub enum LockChangeKind {
    LayerDigestChanged,
    LayerAdded,
    LayerRemoved,
    SourceFileChanged,
    SourceFileRemoved,
}

/// One difference between a lock and the live environment.
#[derive(Debug, PartialEq, Eq)]
pub struct LockChange {
    pub kind: LockChangeKind,
    pub reference: String,
    pub expected: Option<String>,
    pub actual: Option<String>,
}

/// What reading one source file gave.
#[derive(Debug, PartialEq, Eq)]
pub struct SourceReading {
    pub content: Vec<u8>,
    pub mtime: Timestamp,
}

/// What resolving one layer reference gave.
#[derive(Debug, PartialEq, Eq)]
pub struct LayerReading {
    pub digest: String,
    pub resolved_at: Timestamp,
}

/// The mathematical value of [`GenerationMetadata`].
pub struct GenerationMetadataView {
    pub timestamp: Timestamp,
    pub spenv_version: Seq<char>,
    pub hostname: Seq<char>,
}

/// The mathematical value of a [`SourceFile`].
pub struct SourceFileView {
    pub path: Seq<char>,
    pub sha256: Seq<char>,
    pub mtime: Timestamp,
}

/// The mathematical value of a [`ResolvedLayer`].
pub struct ResolvedLayerView {
    pub reference: Seq<char>,
    pub digest: Seq<char>,
    pub resolved_at: Timestamp,
}

/// The mathematical value of a [`LockFile`].
pub struct LockFileView {
    pub api: LockApiVersion,
    pub generated: GenerationMetadataView,
    pub sources: Seq<SourceFileView>,
    pub layers: Seq<ResolvedLayerView>,
}

/// The mathematical value of a [`LockChange`].
pub struct LockChangeView {
    pub kind: LockChangeKind,
    pub reference: Seq<char>,
    pub expected: Option<Seq<char>>,
    pub actual: Option<Seq<char>>,
}

impl View for GenerationMetadata {
    type V = GenerationMetadataView;

    open spec fn view(&self) -> GenerationMetadataView {
        GenerationMetadataView {
            timestamp: self.timestamp,
            spenv_version: self.spenv_version@,
            hostname: self.hostname@,
        }
    }
}

impl View for SourceFile {
    type V = SourceFileView;

    open spec fn view(&self) -> SourceFileView {
        SourceFileView { path: self.path@, sha256: self.sha256@, mtime: self.mtime }
    }
}

impl View for ResolvedLayer {
    type V = ResolvedLayerView;

    open spec fn view(&self) -> ResolvedLayerView {
        ResolvedLayerView {
            reference: self.reference@,
            digest: self.digest@,
            resolved_at: self.resolved_at,
        }
    }
}

impl View for LockFile {
    type V = LockFileView;

    open spec fn view(&self) -> LockFileView {
        LockFileView {
            api: self.api,
            generated: self.generated@,
            sources: self.sources@.map_values(|s: SourceFile| s@),
            layers: self.layers@.map_values(|l: ResolvedLayer| l@),
        }
    }
}

impl View for LockChange {
    type V = LockChangeView;

    open spec fn view(&self) -> LockChangeView {
        LockChangeView {
            kind: self.kind,
            reference: self.reference@,
            expected: opt_text(self.expected),
            actual: opt_text(self.actual),
        }
    }
}

impl Clone for GenerationMetadata {
    fn clone(&self) -> (out: Self)
        ensures
            out@ == self@,
    {
        GenerationMetadata {
            timestamp: self.timestamp,
            spenv_version: self.spenv_version.clone(),
            hostname: self.hostname.clone(),
        }
    }
}

impl Clone for SourceFile {
    fn clone(&self) -> (out: Self)
        ensures
            out@ == self@,
    {
        SourceFile { path: self.path.clone(), sha256: self.sha256.clone(), mtime: self.mtime }
    }
}

impl Clone for ResolvedLayer {
    fn clone(&self) -> (out: Self)
        ensures
            out@ == self@,
    {
        ResolvedLayer {
            reference: self.reference.clone(),
            digest: self.digest.clone(),
            resolved_at: self.resolved_at,
        }
    }
}

impl Clone for LockFile {
    fn clone(&self) -> (out: Self)
        ensures
            out@ == self@,
    {
        let sources = self.sources.clone();
        let layers = self.layers.clone();
        proof {
            assert(sources@.map_values(|s: SourceFile| s@) =~= self.sources@.map_values(
                |s: SourceFile| s@,
            ));
            assert(layers@.map_values(|l: ResolvedLayer| l@) =~= self.layers@.map_values(
                |l: ResolvedLayer| l@,
            ));
        }
        LockFile { api: self.api, generated: self.generated.clone(), sources, layers }
    }
}

impl Clone for LockChange {
    fn clone(&self) -> (out: Self)
        ensures
            out@ == self@,
    {
        LockChange {
            kind: self.kind,
            reference: self.reference.clone(),
            expected: self.expected.clone(),
            actual: self.actual.clone(),
        }
    }
}

impl Clone for SourceReading {
    fn clone(&self) -> (out: Self)
        ensures
            out.content@ == self.content@,
            out.mtime == self.mtime,
    {
        SourceReading { content: self.content.clone(), mtime: self.mtime }
    }
}

impl Clone for LayerReading {
    fn clone(&self) -> (out: Self)
        ensures
            out.digest@ == self.digest@,
            out.resolved_at == self.resolved_at,
    {
        LayerReading { digest: self.digest.clone(), resolved_at: self.resolved_at }
    }
}

/// The mathematical values of a list of changes.
pub open spec fn changes_view(changes: Seq<LockChange>) -> Seq<LockChangeView> {
    changes.map_values(|c: LockChange| c@)
}

/// The SHA-256 digest of `content`, in lower-case hexadecimal.
pub uninterp spec fn sha256_hex_of(content: Seq<u8>) -> Seq<char>;

/// `sha2::Sha256::digest`, written out with `{:x}`, which for the digest's
/// array is lower-case hexadecimal, two digits a byte: the text is a function
/// of the bytes that were hashed, named [`sha256_hex_of`], and has the 64
/// digits of the digest's 32 bytes.
#[verifier::external_body]
pub(crate) fn sha256_hex(content: &[u8]) -> (hex: String)
    ensures
        hex@ == sha256_hex_of(content@),
        hex@.len() == 64,
{
    format!("{:x}", sha2::Sha256::digest(content))
}

/// The hash of each content.
pub open spec fn hashes_of(contents: Seq<Vec<u8>>) -> Seq<Seq<char>> {
    contents.map_values(|c: Vec<u8>| sha256_hex_of(c@))
}

/// The host name recorded where the host's own name is not known.
pub open spec fn unknown_host() -> Seq<char> {
    "unknown"@
}

impl GenerationMetadata {
    /// The metadata of a lock generated at `timestamp` by version
    /// `spenv_version`, on the host named `hostname` where that is known.
    pub fn new(timestamp: Timestamp, spenv_version: &str, hostname: Option<String>) -> (out:
        Self)
        ensures
            out@ == (GenerationMetadataView {
                timestamp,
                spenv_version: spenv_version@,
                hostname: match hostname {
                    Some(h) => h@,
                    None => unknown_host(),
                },
            }),
    {
        GenerationMetadata {
            timestamp,
            spenv_version: spenv_version.to_owned(),
            hostname: match hostname {
                Some(h) => h,
                None => "unknown".to_owned(),
            },
        }
    }
}

/// The lock of `env`, given the hash and modification time of every source
/// file and the digest and resolution time of every layer, by position.
pub open spec fn sealed(
    env: ComposedView,
    hashes: Seq<Seq<char>>,
    mtimes: Seq<Timestamp>,
    digests: Seq<Seq<char>>,
    resolved_at: Seq<Timestamp>,
    generated: GenerationMetadataView,
) -> LockFileView {
    LockFileView {
        api: LockApiVersion::V0,
        generated,
        sources: Seq::new(
            env.source_files.len(),
            |i: int| SourceFileView { path: env.source_files[i], sha256: hashes[i], mtime: mtimes[i] },
        ),
        layers: Seq::new(
            env.layers.len(),
            |i: int|
                ResolvedLayerView {
                    reference: env.layers[i],
                    digest: digests[i],
                    resolved_at: resolved_at[i],
                },
        ),
    }
}

/// The message of the error for readings that do not pair up with positions.
pub open spec fn misaligned_message() -> Seq<char> {
    "Readings do not match the positions they are for"@
}

/// Whether the readings handed to lock generation pair up with `env`.
pub open spec fn readings_fit(env: ComposedView, sources: int, layers: int) -> bool {
    sources == env.source_files.len() && layers == env.layers.len()
}

/// The modification times of a list of source readings.
pub open spec fn mtimes_of(sources: Seq<SourceReading>) -> Seq<Timestamp> {
    sources.map_values(|s: SourceReading| s.mtime)
}

/// The contents of a list of source readings.
pub open spec fn contents_of(sources: Seq<SourceReading>) -> Seq<Seq<u8>> {
    sources.map_values(|s: SourceReading| s.content@)
}

/// The digests of a list of layer readings.
pub open spec fn digests_of(layers: Seq<LayerReading>) -> Seq<Seq<char>> {
    layers.map_values(|l: LayerReading| l.digest@)
}

/// The resolution times of a list of layer readings.
pub open spec fn times_of(layers: Seq<LayerReading>) -> Seq<Timestamp> {
    layers.map_values(|l: LayerReading| l.resolved_at)
}

/// Builds the lock of `composed` from hashes that were already computed.
///
/// `hashes[i]` and `mtimes[i]` belong to source file `i`, `layers[i]` to layer
/// reference `i`. Fails, without a partial lock, where the lists do not pair
/// up with the environment.
pub fn seal_lock(
    composed: &ComposedEnvironment,
    hashes: &[String],
    mtimes: &[Timestamp],
    layers: &[LayerReading],
    generated: GenerationMetadata,
) -> (out: Result<LockFile, Error>)
    ensures
        match out {
            Ok(lock) => readings_fit(composed@, hashes@.len() as int, layers@.len() as int)
                && mtimes@.len() == hashes@.len() && lock@ == sealed(
                composed@,
                texts(hashes@),
                mtimes@,
                digests_of(layers@),
                times_of(layers@),
                generated@,
            ),
            Err(e) => !(readings_fit(composed@, hashes@.len() as int, layers@.len() as int)
                && mtimes@.len() == hashes@.len()) && e@ == ErrorView::ValidationFailed(
                misaligned_message(),
            ),
        },
{
    if hashes.len() != composed.source_files.len() || mtimes.len() != hashes.len()
        || layers.len() != composed.layers.len() {
        return Err(
            Error::ValidationFailed("Readings do not match the positions they are for".to_owned()),
        );
    }
    let ghost want = sealed(
        composed@,
        texts(hashes@),
        mtimes@,
        digests_of(layers@),
        times_of(layers@),
        generated@,
    );
    let mut sources: Vec<SourceFile> = Vec::new();
    let mut i: usize = 0;
    while i < hashes.len()
        invariant
            i <= hashes.len(),
            hashes.len() == composed.source_files.len(),
            mtimes.len() == hashes.len(),
            want.sources.len() == hashes.len(),
            forall|j: int|
                0 <= j < hashes.len() ==> #[trigger] want.sources[j] == (SourceFileView {
                    path: composed.source_files[j]@,
                    sha256: hashes[j]@,
                    mtime: mtimes[j],
                }),
            sources@.map_values(|s: SourceFile| s@) == want.sources.take(i as int),
        decreases hashes.len() - i,
    {
        let ghost before = sources@;
        let entry = SourceFile {
            path: composed.source_files[i].clone(),
            sha256: hashes[i].clone(),
            mtime: mtimes[i],
        };
        sources.push(entry);
        proof {
            assert(sources@.map_values(|s: SourceFile| s@) =~= before.map_values(
                |s: SourceFile| s@,
            ).push(entry@));
            assert(want.sources.take(i + 1) =~= want.sources.take(i as int).push(
                want.sources[i as int],
            ));
        }
        i = i + 1;
    }
    let mut resolved: Vec<ResolvedLayer> = Vec::new();
    let mut k: usize = 0;
    while k < layers.len()
        invariant
            k <= layers.len(),
            layers.len() == composed.layers.len(),
            want.layers.len() == layers.len(),
            forall|j: int|
                0 <= j < layers.len() ==> #[trigger] want.layers[j] == (ResolvedLayerView {
                    reference: composed.layers[j]@,
                    digest: layers[j].digest@,
                    resolved_at: layers[j].resolved_at,
                }),
            resolved@.map_values(|l: ResolvedLayer| l@) == want.layers.take(k as int),
        decreases layers.len() - k,
    {
        let ghost before = resolved@;
        let entry = ResolvedLayer {
            reference: composed.layers[k].clone(),
            digest: layers[k].digest.clone(),
            resolved_at: layers[k].resolved_at,
        };
        resolved.push(entry);
        proof {
            assert(resolved@.map_values(|l: ResolvedLayer| l@) =~= before.map_values(
                |l: ResolvedLayer| l@,
            ).push(entry@));
            assert(want.layers.take(k + 1) =~= want.layers.take(k as int).push(
                want.layers[k as int],
            ));
        }
        k = k + 1;
    }
    let lock = LockFile { api: LockApiVersion::V0, generated, sources, layers: resolved };
    proof {
        assert(want.sources.take(hashes.len() as int) =~= want.sources);
        assert(want.layers.take(layers.len() as int) =~= want.layers);
    }
    Ok(lock)
}

/// Hashes each content of `contents`.
pub fn hash_contents(contents: &[Vec<u8>]) -> (hashes: Vec<String>)
    ensures
        texts(hashes@) == hashes_of(contents@),
{
    let mut hashes: Vec<String> = Vec::new();
    let mut i: usize = 0;
    while i < contents.len()
        invariant
            i <= contents.len(),
            texts(hashes@) == hashes_of(contents@).take(i as int),
        decreases contents.len() - i,
    {
        let ghost before = hashes@;
        let hex = sha256_hex(contents[i].as_slice());
        hashes.push(hex);
        proof {
            assert(texts(hashes@) =~= texts(before).push(hex@));
            assert(hashes_of(contents@).take(i + 1) =~= hashes_of(contents@).take(i as int).push(
                sha256_hex_of(contents[i as int]@),
            ));
        }
        i = i + 1;
    }
    proof {
        assert(hashes_of(contents@).take(contents.len() as int) =~= hashes_of(contents@));
    }
    hashes
}

/// Generates the lock of `composed`.
///
/// `sources[i]` is what reading source file `i` of `composed` gave, and
/// `layers[i]` what resolving its layer reference `i` gave. Every source
/// file is recorded with the SHA-256 hash of its content. Fails, without a
/// partial lock, where the readings do not pair up with the environment.
pub fn generate_lock(
    _specs: &[EnvSpec],
    composed: &ComposedEnvironment,
    sources: &[SourceReading],
    layers: &[LayerReading],
    generated: GenerationMetadata,
) -> (out: Result<LockFile, Error>)
    ensures
        match out {
            Ok(lock) => readings_fit(composed@, sources@.len() as int, layers@.len() as int)
                && lock@ == sealed(
                composed@,
                contents_of(sources@).map_values(|c: Seq<u8>| sha256_hex_of(c)),
                mtimes_of(sources@),
                digests_of(layers@),
                times_of(layers@),
                generated@,
            ),
            Err(e) => !readings_fit(composed@, sources@.len() as int, layers@.len() as int)
                && e@ == ErrorView::ValidationFailed(misaligned_message()),
        },
{
    let ghost want = contents_of(sources@).map_values(|c: Seq<u8>| sha256_hex_of(c));
    let mut hashes: Vec<String> = Vec::new();
    let mut mtimes: Vec<Timestamp> = Vec::new();
    let mut i: usize = 0;
    while i < sources.len()
        invariant
            i <= sources.len(),
            want == contents_of(sources@).map_values(|c: Seq<u8>| sha256_hex_of(c)),
            texts(hashes@) == want.take(i as int),
            mtimes@ == mtimes_of(sources@).take(i as int),
        decreases sources.len() - i,
    {
        let ghost before = hashes@;
        let hex = sha256_hex(sources[i].content.as_slice());
        hashes.push(hex);
        mtimes.push(sources[i].mtime);
        proof {
            assert(texts(hashes@) =~= texts(before).push(hex@));
            assert(want.take(i + 1) =~= want.take(i as int).push(
                sha256_hex_of(sources[i as int].content@),
            ));
            assert(mtimes_of(sources@).take(i + 1) =~= mtimes_of(sources@).take(i as int).push(
                sources[i as int].mtime,
            ));
        }
        i = i + 1;
    }
    proof {
        assert(want.take(sources.len() as int) =~= want);
        assert(mtimes_of(sources@).take(sources.len() as int) =~= mtimes_of(sources@));
    }
    seal_lock(composed, hashes.as_slice(), mtimes.as_slice(), layers, generated)
}

/// The record for a locked source file without a live counterpart.
pub open spec fn source_removed(locked: SourceFileView) -> LockChangeView {
    LockChangeView {
        kind: LockChangeKind::SourceFileRemoved,
        reference: locked.path,
        expected: Some(locked.sha256),
        actual: None,
    }
}

/// The record for a locked source file whose live counterpart hashes to `actual`.
pub open spec fn source_changed(locked: SourceFileView, actual: Seq<char>) -> LockChangeView {
    LockChangeView {
        kind: LockChangeKind::SourceFileChanged,
        reference: locked.path,
        expected: Some(locked.sha256),
        actual: Some(actual),
    }
}

/// The record for a locked layer without a live counterpart.
pub open spec fn layer_removed(locked: ResolvedLayerView) -> LockChangeView {
    LockChangeView {
        kind: LockChangeKind::LayerRemoved,
        reference: locked.reference,
        expected: Some(locked.digest),
        actual: None,
    }
}

/// The record for a locked layer whose live counterpart resolves to `actual`.
pub open spec fn layer_changed(locked: ResolvedLayerView, actual: Seq<char>) -> LockChangeView {
    LockChangeView {
        kind: LockChangeKind::LayerDigestChanged,
        reference: locked.reference,
        expected: Some(locked.digest),
        actual: Some(actual),
    }
}

/// The record for a live layer beyond the locked ones.
pub open spec fn layer_added(reference: Seq<char>) -> LockChangeView {
    LockChangeView { kind: LockChangeKind::LayerAdded, reference, expected: None, actual: None }
}

/// The smaller of two counts.
pub open spec fn smaller(a: int, b: int) -> int {
    if a <= b {
        a
    } else {
        b
    }
}

/// What position `i` of the locked sources contributes: nothing where the
/// live file there hashes as locked.
pub open spec fn source_change_at(
    lock: LockFileView,
    live: ComposedView,
    hashes: Seq<Seq<char>>,
    i: int,
) -> Seq<LockChangeView> {
    if i >= live.source_files.len() {
        seq![source_removed(lock.sources[i])]
    } else if hashes[i] != lock.sources[i].sha256 {
        seq![source_changed(lock.sources[i], hashes[i])]
    } else {
        Seq::empty()
    }
}

/// The records of the first `n` locked sources, in order.
pub open spec fn source_changes(
    lock: LockFileView,
    live: ComposedView,
    hashes: Seq<Seq<char>>,
    n: nat,
) -> Seq<LockChangeView>
    decreases n,
{
    if n == 0 {
        Seq::empty()
    } else {
        source_changes(lock, live, hashes, (n - 1) as nat) + source_change_at(
            lock,
            live,
            hashes,
            n - 1,
        )
    }
}

/// What position `i` of the locked layers contributes: nothing where the
/// live reference there resolves as locked.
pub open spec fn layer_change_at(
    lock: LockFileView,
    live: ComposedView,
    digests: Seq<Seq<char>>,
    i: int,
) -> Seq<LockChangeView> {
    if i >= live.layers.len() {
        seq![layer_removed(lock.layers[i])]
    } else if digests[i] != lock.layers[i].digest {
        seq![layer_changed(lock.layers[i], digests[i])]
    } else {
        Seq::empty()
    }
}

/// The records of the first `n` locked layers, in order.
pub open spec fn layer_changes(
    lock: LockFileView,
    live: ComposedView,
    digests: Seq<Seq<char>>,
    n: nat,
) -> Seq<LockChangeView>
    decreases n,
{
    if n == 0 {
        Seq::empty()
    } else {
        layer_changes(lock, live, digests, (n - 1) as nat) + layer_change_at(
            lock,
            live,
            digests,
            n - 1,
        )
    }
}

/// The records of the live layers beyond the locked ones, in order.
pub open spec fn added_layers(lock: LockFileView, live: ComposedView) -> Seq<LockChangeView> {
    live.layers.skip(smaller(lock.layers.len() as int, live.layers.len() as int)).map_values(
        |r: Seq<char>| layer_added(r),
    )
}

/// Every difference between `lock` and `live`: first the sources, by locked
/// position; next the layers, by locked position; last the live layers that
/// the lock does not have. `hashes[i]` is the hash of live source file `i`
/// and `digests[i]` the digest of live layer `i`, for every position that
/// both sides have.
pub open spec fn drift(
    lock: LockFileView,
    live: ComposedView,
    hashes: Seq<Seq<char>>,
    digests: Seq<Seq<char>>,
) -> Seq<LockChangeView> {
    source_changes(lock, live, hashes, lock.sources.len()) + layer_changes(
        lock,
        live,
        digests,
        lock.layers.len(),
    ) + added_layers(lock, live)
}

/// Whether live readings pair up with the positions that `lock` and `live` share.
pub open spec fn live_readings_fit(
    lock: LockFileView,
    live: ComposedView,
    hashes: int,
    digests: int,
) -> bool {
    &&& hashes == smaller(lock.sources.len() as int, live.source_files.len() as int)
    &&& digests == smaller(lock.layers.len() as int, live.layers.len() as int)
}

/// The live source files that verification compares with `lock`: those at
/// the positions that the lock has too.
pub fn sources_to_read(lock: &LockFile, composed: &ComposedEnvironment) -> (paths: Vec<String>)
    ensures
        texts(paths@) == composed@.source_files.take(
            smaller(lock@.sources.len() as int, composed@.source_files.len() as int),
        ),
{
    let n = if lock.sources.len() <= composed.source_files.len() {
        lock.sources.len()
    } else {
        composed.source_files.len()
    };
    let mut paths: Vec<String> = Vec::new();
    let mut i: usize = 0;
    while i < n
        invariant
            i <= n <= composed.source_files.len(),
            texts(paths@) == composed@.source_files.take(i as int),
        decreases n - i,
    {
        let ghost before = paths@;
        paths.push(composed.source_files[i].clone());
        proof {
            assert(texts(paths@) =~= texts(before).push(composed.source_files[i as int]@));
            assert(composed@.source_files.take(i + 1) =~= composed@.source_files.take(
                i as int,
            ).push(composed.source_files[i as int]@));
        }
        i = i + 1;
    }
    paths
}

/// The live layer references that verification compares with `lock`: those
/// at the positions that the lock has too.
pub fn layers_to_resolve(lock: &LockFile, composed: &ComposedEnvironment) -> (references: Vec<
    String,
>)
    ensures
        texts(references@) == composed@.layers.take(
            smaller(lock@.layers.len() as int, composed@.layers.len() as int),
        ),
{
    let n = if lock.layers.len() <= composed.layers.len() {
        lock.layers.len()
    } else {
        composed.layers.len()
    };
    let mut references: Vec<String> = Vec::new();
    let mut i: usize = 0;
    while i < n
        invariant
            i <= n <= composed.layers.len(),
            texts(references@) == composed@.layers.take(i as int),
        decreases n - i,
    {
        let ghost before = references@;
        references.push(composed.layers[i].clone());
        proof {
            assert(texts(references@) =~= texts(before).push(composed.layers[i as int]@));
            assert(composed@.layers.take(i + 1) =~= composed@.layers.take(i as int).push(
                composed.layers[i as int]@,
            ));
        }
        i = i + 1;
    }
    references
}

/// Compares `lock` with the live environment, given hashes that were
/// already computed.
///
/// `hashes[i]` is the hash of live source file `i` and `digests[i]` the
/// digest that live layer reference `i` resolves to, for the positions that
/// lock and environment share. Differences are returned, not raised: the
/// only failure is a list of readings that does not pair up with those
/// positions.
pub fn lock_changes(
    lock: &LockFile,
    composed: &ComposedEnvironment,
    hashes: &[String],
    digests: &[String],
) -> (out: Result<Vec<LockChange>, Error>)
    ensures
        match out {
            Ok(changes) => live_readings_fit(
                lock@,
                composed@,
                hashes@.len() as int,
                digests@.len() as int,
            ) && changes_view(changes@) == drift(
                lock@,
                composed@,
                texts(hashes@),
                texts(digests@),
            ),
            Err(e) => !live_readings_fit(
                lock@,
                composed@,
                hashes@.len() as int,
                digests@.len() as int,
            ) && e@ == ErrorView::ValidationFailed(misaligned_message()),
        },
{
    let shared_sources = if lock.sources.len() <= composed.source_files.len() {
        lock.sources.len()
    } else {
        composed.source_files.len()
    };
    let shared_layers = if lock.layers.len() <= composed.layers.len() {
        lock.layers.len()
    } else {
        composed.layers.len()
    };
    if hashes.len() != shared_sources || digests.len() != shared_layers {
        return Err(
            Error::ValidationFailed("Readings do not match the positions they are for".to_owned()),
        );
    }
    let mut changes: Vec<LockChange> = Vec::new();
    proof {
        assert(changes_view(changes@) =~= Seq::empty());
    }
    let mut i: usize = 0;
    while i < lock.sources.len()
        invariant
            i <= lock.sources.len(),
            hashes.len() == shared_sources,
            shared_sources == smaller(
                lock@.sources.len() as int,
                composed@.source_files.len() as int,
            ),
            changes_view(changes@) == source_changes(
                lock@,
                composed@,
                texts(hashes@),
                i as nat,
            ),
        decreases lock.sources.len() - i,
    {
        let ghost before = changes@;
        let source = &lock.sources[i];
        proof {
            assert(lock@.sources[i as int] == source@);
        }
        if i >= composed.source_files.len() {
            let change = LockChange {
                kind: LockChangeKind::SourceFileRemoved,
                reference: source.path.clone(),
                expected: Some(source.sha256.clone()),
                actual: None,
            };
            changes.push(change);
            proof {
                assert(changes_view(changes@) =~= changes_view(before) + seq![
                    source_removed(source@),
                ]);
            }
        } else if !(hashes[i] == source.sha256) {
            let change = LockChange {
                kind: LockChangeKind::SourceFileChanged,
                reference: source.path.clone(),
                expected: Some(source.sha256.clone()),
                actual: Some(hashes[i].clone()),
            };
            changes.push(change);
            proof {
                assert(texts(hashes@)[i as int] == hashes[i as int]@);
                assert(changes_view(changes@) =~= changes_view(before) + seq![
                    source_changed(source@, hashes[i as int]@),
                ]);
            }
        } else {
            proof {
                assert(texts(hashes@)[i as int] == hashes[i as int]@);
                assert(changes_view(changes@) =~= changes_view(before) + Seq::empty());
            }
        }
        i = i + 1;
    }
    let ghost from_sources = changes_view(changes@);
    proof {
        assert(from_sources =~= from_sources + Seq::empty());
    }
    let mut k: usize = 0;
    while k < lock.layers.len()
        invariant
            k <= lock.layers.len(),
            digests.len() == shared_layers,
            shared_layers == smaller(lock@.layers.len() as int, composed@.layers.len() as int),
            changes_view(changes@) == from_sources + layer_changes(
                lock@,
                composed@,
                texts(digests@),
                k as nat,
            ),
        decreases lock.layers.len() - k,
    {
        let ghost before = changes@;
        let locked = &lock.layers[k];
        proof {
            assert(lock@.layers[k as int] == locked@);
        }
        if k >= composed.layers.len() {
            let change = LockChange {
                kind: LockChangeKind::LayerRemoved,
                reference: locked.reference.clone(),
                expected: Some(locked.digest.clone()),
                actual: None,
            };
            changes.push(change);
            proof {
                assert(changes_view(changes@) =~= changes_view(before) + seq![
                    layer_removed(locked@),
                ]);
            }
        } else if !(digests[k] == locked.digest) {
            let change = LockChange {
                kind: LockChangeKind::LayerDigestChanged,
                reference: locked.reference.clone(),
                expected: Some(locked.digest.clone()),
                actual: Some(digests[k].clone()),
            };
            changes.push(change);
            proof {
                assert(texts(digests@)[k as int] == digests[k as int]@);
                assert(changes_view(changes@) =~= changes_view(before) + seq![
                    layer_changed(locked@, digests[k as int]@),
                ]);
            }
        } else {
            proof {
                assert(texts(digests@)[k as int] == digests[k as int]@);
                assert(changes_view(changes@) =~= changes_view(before) + Seq::empty());
            }
        }
        k = k + 1;
    }
    let ghost from_locked = changes_view(changes@);
    let mut j: usize = shared_layers;
    proof {
        assert(composed@.layers.skip(shared_layers as int).take(0) =~= Seq::empty());
        assert(from_locked =~= from_locked + Seq::<Seq<char>>::empty().map_values(
            |r: Seq<char>| layer_added(r),
        ));
    }
    while j < composed.layers.len()
        invariant
            shared_layers <= j <= composed.layers.len(),
            changes_view(changes@) == from_locked + composed@.layers.skip(
                shared_layers as int,
            ).take(j - shared_layers).map_values(|r: Seq<char>| layer_added(r)),
        decreases composed.layers.len() - j,
    {
        let ghost before = changes@;
        let change = LockChange {
            kind: LockChangeKind::LayerAdded,
            reference: composed.layers[j].clone(),
            expected: None,
            actual: None,
        };
        changes.push(change);
        proof {
            let extra = composed@.layers.skip(shared_layers as int);
            assert(extra.take(j + 1 - shared_layers) =~= extra.take(j - shared_layers).push(
                composed.layers[j as int]@,
            ));
            assert(changes_view(changes@) =~= changes_view(before).push(
                layer_added(composed.layers[j as int]@),
            ));
            assert(changes_view(changes@) =~= from_locked + extra.take(
                j + 1 - shared_layers,
            ).map_values(|r: Seq<char>| layer_added(r)));
        }
        j = j + 1;
    }
    proof {
        let extra = composed@.layers.skip(shared_layers as int);
        assert(extra.take(composed.layers.len() - shared_layers) =~= extra);
    }
    Ok(changes)
}

/// Verifies `lock` against the live environment.
///
/// `contents[i]` is the content of live source file `i` and `digests[i]` the
/// digest that live layer reference `i` resolves to, for the positions that
/// lock and environment share (see [`sources_to_read`] and
/// [`layers_to_resolve`]). Each content is hashed with SHA-256 and compared
/// with the locked hash. Differences are returned, not raised.
pub fn verify_lock(
    lock: &LockFile,
    _specs: &[EnvSpec],
    composed: &ComposedEnvironment,
    contents: &[Vec<u8>],
    digests: &[String],
) -> (out: Result<Vec<LockChange>, Error>)
    ensures
        match out {
            Ok(changes) => live_readings_fit(
                lock@,
                composed@,
                contents@.len() as int,
                digests@.len() as int,
            ) && changes_view(changes@) == drift(
                lock@,
                composed@,
                hashes_of(contents@),
                texts(digests@),
            ),
            Err(e) => !live_readings_fit(
                lock@,
                composed@,
                contents@.len() as int,
                digests@.len() as int,
            ) && e@ == ErrorView::ValidationFailed(misaligned_message()),
        },
{
    let hashes = hash_contents(contents);
    assert(texts(hashes@).len() == contents@.len());
    lock_changes(lock, composed, hashes.as_slice(), digests)
}

/// Where every locked source but possibly the one at position `k` has an
/// unchanged live counterpart, the source records are those of position `k`.
pub proof fn lemma_source_changes_single(
    lock: LockFileView,
    live: ComposedView,
    hashes: Seq<Seq<char>>,
    n: nat,
    k: int,
)
    requires
        forall|i: int|
            0 <= i < n && i != k ==> #[trigger] source_change_at(lock, live, hashes, i)
                == Seq::<LockChangeView>::empty(),
    ensures
        source_changes(lock, live, hashes, n) == if 0 <= k < n {
            source_change_at(lock, live, hashes, k)
        } else {
            Seq::empty()
        },
    decreases n,
{
    if n > 0 {
        lemma_source_changes_single(lock, live, hashes, (n - 1) as nat, k);
        let head = source_changes(lock, live, hashes, (n - 1) as nat);
        let last = source_change_at(lock, live, hashes, n - 1);
        assert(Seq::<LockChangeView>::empty() + last =~= last);
        assert(head + Seq::<LockChangeView>::empty() =~= head);
    }
}

/// Where every locked layer but possibly the one at position `k` has an
/// unchanged live counterpart, the layer records are those of position `k`.
pub proof fn lemma_layer_changes_single(
    lock: LockFileView,
    live: ComposedView,
    digests: Seq<Seq<char>>,
    n: nat,
    k: int,
)
    requires
        forall|i: int|
            0 <= i < n && i != k ==> #[trigger] layer_change_at(lock, live, digests, i)
                == Seq::<LockChangeView>::empty(),
    ensures
        layer_changes(lock, live, digests, n) == if 0 <= k < n {
            layer_change_at(lock, live, digests, k)
        } else {
            Seq::empty()
        },
    decreases n,
{
    if n > 0 {
        lemma_layer_changes_single(lock, live, digests, (n - 1) as nat, k);
        let head = layer_changes(lock, live, digests, (n - 1) as nat);
        let last = layer_change_at(lock, live, digests, n - 1);
        assert(Seq::<LockChangeView>::empty() + last =~= last);
        assert(head + Seq::<LockChangeView>::empty() =~= head);
    }
}

/// Where the live environment has only `m` layers, each resolving as locked,
/// the layer records are one removal for every locked position from `m` on.
pub proof fn lemma_layer_changes_removed(
    lock: LockFileView,
    live: ComposedView,
    digests: Seq<Seq<char>>,
    m: nat,
    n: nat,
)
    requires
        m <= n,
        live.layers.len() == m,
        forall|i: int|
            0 <= i < m ==> #[trigger] layer_change_at(lock, live, digests, i)
                == Seq::<LockChangeView>::empty(),
    ensures
        layer_changes(lock, live, digests, n) == Seq::new(
            (n - m) as nat,
            |j: int| layer_removed(lock.layers[m + j]),
        ),
    decreases n,
{
    if n == m {
        lemma_layer_changes_single(lock, live, digests, n, -1);
        assert(layer_changes(lock, live, digests, n) =~= Seq::new(
            (n - m) as nat,
            |j: int| layer_removed(lock.layers[m + j]),
        ));
    } else {
        lemma_layer_changes_removed(lock, live, digests, m, (n - 1) as nat);
        assert(layer_changes(lock, live, digests, n) =~= Seq::new(
            (n - m) as nat,
            |j: int| layer_removed(lock.layers[m + j]),
        ));
    }
}

/// Round trip: a lock shows no drift against the environment and the
/// readings it was generated from.
pub proof fn lemma_fresh_lock_has_no_drift(
    env: ComposedView,
    hashes: Seq<Seq<char>>,
    mtimes: Seq<Timestamp>,
    digests: Seq<Seq<char>>,
    resolved_at: Seq<Timestamp>,
    generated: GenerationMetadataView,
)
    requires
        readings_fit(env, hashes.len() as int, digests.len() as int),
    ensures
        drift(sealed(env, hashes, mtimes, digests, resolved_at, generated), env, hashes, digests)
            == Seq::<LockChangeView>::empty(),
{
    let lock = sealed(env, hashes, mtimes, digests, resolved_at, generated);
    lemma_source_changes_single(lock, env, hashes, lock.sources.len(), -1);
    lemma_layer_changes_single(lock, env, digests, lock.layers.len(), -1);
    assert(env.layers.skip(env.layers.len() as int) =~= Seq::empty());
    assert(drift(lock, env, hashes, digests) =~= Seq::empty());
}

/// A lock compared with an environment in which exactly one source file now
/// hashes differently shows exactly one record: that file changed, from the
/// locked hash to the new one.
pub proof fn lemma_one_source_changed(
    env: ComposedView,
    hashes: Seq<Seq<char>>,
    mtimes: Seq<Timestamp>,
    digests: Seq<Seq<char>>,
    resolved_at: Seq<Timestamp>,
    generated: GenerationMetadataView,
    k: int,
    now: Seq<char>,
)
    requires
        readings_fit(env, hashes.len() as int, digests.len() as int),
        0 <= k < env.source_files.len(),
        now != hashes[k],
    ensures
        drift(
            sealed(env, hashes, mtimes, digests, resolved_at, generated),
            env,
            hashes.update(k, now),
            digests,
        ) == seq![
            LockChangeView {
                kind: LockChangeKind::SourceFileChanged,
                reference: env.source_files[k],
                expected: Some(hashes[k]),
                actual: Some(now),
            },
        ],
{
    let lock = sealed(env, hashes, mtimes, digests, resolved_at, generated);
    let live_hashes = hashes.update(k, now);
    lemma_source_changes_single(lock, env, live_hashes, lock.sources.len(), k);
    lemma_layer_changes_single(lock, env, digests, lock.layers.len(), -1);
    assert(env.layers.skip(env.layers.len() as int) =~= Seq::empty());
    assert(drift(lock, env, live_hashes, digests) =~= source_change_at(
        lock,
        env,
        live_hashes,
        k,
    ));
}

/// A lock compared with an environment that lost its layers from position
/// `m` on shows exactly one removal for each of the dropped positions.
pub proof fn lemma_dropped_layers_removed(
    env: ComposedView,
    hashes: Seq<Seq<char>>,
    mtimes: Seq<Timestamp>,
    digests: Seq<Seq<char>>,
    resolved_at: Seq<Timestamp>,
    generated: GenerationMetadataView,
    m: nat,
)
    requires
        readings_fit(env, hashes.len() as int, digests.len() as int),
        m <= env.layers.len(),
    ensures
        drift(
            sealed(env, hashes, mtimes, digests, resolved_at, generated),
            ComposedView { layers: env.layers.take(m as int), ..env },
            hashes,
            digests.take(m as int),
        ) == Seq::new(
            (env.layers.len() - m) as nat,
            |j: int|
                LockChangeView {
                    kind: LockChangeKind::LayerRemoved,
                    reference: env.layers[m + j],
                    expected: Some(digests[m + j]),
                    actual: None,
                },
        ),
{
    let lock = sealed(env, hashes, mtimes, digests, resolved_at, generated);
    let live = ComposedView { layers: env.layers.take(m as int), ..env };
    let live_digests = digests.take(m as int);
    lemma_source_changes_single(lock, live, hashes, lock.sources.len(), -1);
    lemma_layer_changes_removed(lock, live, live_digests, m, lock.layers.len());
    assert(live.layers.skip(m as int) =~= Seq::empty());
    assert(drift(lock, live, hashes, live_digests) =~= Seq::new(
        (env.layers.len() - m) as nat,
        |j: int|
            LockChangeView {
                kind: LockChangeKind::LayerRemoved,
                reference: env.layers[m + j],
                expected: Some(digests[m + j]),
                actual: None,
            },
    ));
}

/// A lock compared with an environment that gained one layer behind the
/// locked ones shows exactly one record: that layer added.
pub proof fn lemma_extra_layer_added(
    env: ComposedView,
    hashes: Seq<Seq<char>>,
    mtimes: Seq<Timestamp>,
    digests: Seq<Seq<char>>,
    resolved_at: Seq<Timestamp>,
    generated: GenerationMetadataView,
    extra: Seq<char>,
)
    requires
        readings_fit(env, hashes.len() as int, digests.len() as int),
    ensures
        drift(
            sealed(env, hashes, mtimes, digests, resolved_at, generated),
            ComposedView { layers: env.layers.push(extra), ..env },
            hashes,
            digests,
        ) == seq![
            LockChangeView {
                kind: LockChangeKind::LayerAdded,
                reference: extra,
                expected: None,
                actual: None,
            },
        ],
{
    let lock = sealed(env, hashes, mtimes, digests, resolved_at, generated);
    let live = ComposedView { layers: env.layers.push(extra), ..env };
    lemma_source_changes_single(lock, live, hashes, lock.sources.len(), -1);
    lemma_layer_changes_single(lock, live, digests, lock.layers.len(), -1);
    assert(live.layers.skip(env.layers.len() as int) =~= seq![extra]);
    assert(drift(lock, live, hashes, digests) =~= seq![layer_added(extra)]);
}

/// The exit code of checking an environment against its lock, or `None`
/// where the check ends with an error instead: without a lock it is an error
/// when strict and 2 otherwise; with a lock it is 0 when nothing differs, and
/// for differences 1 when strict and 0 otherwise.
pub open spec fn check_exit(differences: Option<nat>, strict: bool) -> Option<i32> {
    match differences {
        None => if strict {
            None
        } else {
            Some(2i32)
        },
        Some(n) => if n > 0 && strict {
            Some(1i32)
        } else {
            Some(0i32)
        },
    }
}

/// The number of differences found, where there was a lock to compare with.
pub open spec fn difference_count(changes: Option<&Vec<LockChange>>) -> Option<nat> {
    match changes {
        Some(c) => Some(c@.len()),
        None => None,
    }
}

/// Says how checking an environment against its lock ends.
///
/// `changes` are the differences that verification found, or `None` where
/// there is no lock. The result is the exit code, or `None` where the check
/// ends with an error: a missing lock under `strict`.
pub fn check_exit_code(changes: Option<&Vec<LockChange>>, strict: bool) -> (code: Option<i32>)
    ensures
        code == check_exit(difference_count(changes), strict),
{
    match changes {
        None => {
            if strict {
                None
            } else {
                Some(2)
            }
        },
        Some(found) => {
            if found.len() > 0 && strict {
                Some(1)
            } else {
                Some(0)
            }
        },
    }
}

} // verus!
