//! The cache of a watch: what the file processor made of each file, kept
//! under the path of the file with the modification time and the length that
//! the file had then.
//!
//! A path is unknown, cached, or stale: stale where the file has another
//! modification time or length than the cache holds. A rebuild keeps the
//! cached files, processes the unknown and the stale ones again, and drops
//! what is no longer listed.
use crate::error::{AppError, ErrorModel};
use crate::svg::file::{process_file, processed, ProcessedFile, ProcessedModel};
use crate::svg::normalize::{readings, Reading};
use crate::svg::registry::{registered, IdRegistry};
use crate::svg::transform::{borrowed_models, render_sprite, sprite, SvgSprite};
use crate::svg::{
    built, candidate, icon_name, is_candidate, loaded, sprite_name, sprites_of, warning_models,
    warnings_of, warnings_of_file, Built, BuiltModel, FileWarning, InputModel,
};
use crate::text::same_text;
use vstd::prelude::*;

verus! {

/// The modification time and the length of a file.
#[derive(Clone, Copy, Debug, PartialEq, Eq, Structural)]
pub struct Stamp {
    /// The whole seconds of the modification time.
    pub modified_secs: u64,
    /// The rest of the modification time, in nanoseconds.
    pub modified_nanos: u32,
    /// The length of the file in bytes.
    pub len: u64,
}

/// The text of a listed file, with what the caller read of the numeric
/// tokens of its root tag.
#[derive(Debug)]
pub struct Source {
    pub content: String,
    pub readings: Vec<Reading>,
}

/// One file of a fresh listing of the input directory.
#[derive(Debug)]
pub struct Listed {
    /// The path of the file, under which it is cached.
    pub path: String,
    /// The name of the file inside its directory.
    pub file_name: String,
    /// The modification time and the length of the file.
    pub stamp: Stamp,
    /// The text of the file, where the caller has read it.
    pub source: Option<Source>,
}

/// What a listed file holds, as texts.
pub struct ListedModel {
    pub path: Seq<char>,
    pub file_name: Seq<char>,
    pub stamp: Stamp,
    pub source: Option<(Seq<char>, Seq<(Seq<char>, Option<Seq<char>>)>)>,
}

impl View for Listed {
    type V = ListedModel;

    open spec fn view(&self) -> ListedModel {
        ListedModel {
            path: self.path@,
            file_name: self.file_name@,
            stamp: self.stamp,
            source: match self.source {
                Some(s) => Some((s.content@, readings(s.readings@))),
                None => None,
            },
        }
    }
}

/// What a listing holds.
pub open spec fn listed_models(v: Seq<Listed>) -> Seq<ListedModel> {
    Seq::new(v.len(), |i: int| v[i]@)
}

/// What is cached of one file.
#[derive(Debug)]
pub struct CacheEntry {
    /// The modification time and the length that the file had.
    pub stamp: Stamp,
    /// What the file processor made of the file.
    pub file: ProcessedFile,
}

/// What a cache entry holds, as texts.
pub struct EntryModel {
    pub stamp: Stamp,
    pub file: ProcessedModel,
}

impl View for CacheEntry {
    type V = EntryModel;

    open spec fn view(&self) -> EntryModel {
        EntryModel { stamp: self.stamp, file: self.file@ }
    }
}

/// What a sequence of cache entries holds.
pub open spec fn entry_models(v: Seq<CacheEntry>) -> Seq<EntryModel> {
    Seq::new(v.len(), |i: int| v[i]@)
}

/// The position of the first entry for `path`, from position `i` on.
pub open spec fn position_of(cache: Seq<EntryModel>, path: Seq<char>, i: int) -> Option<int>
    decreases cache.len() - i,
{
    if i < 0 || i >= cache.len() {
        None
    } else if cache[i].file.path == path {
        Some(i)
    } else {
        position_of(cache, path, i + 1)
    }
}

/// The entry that can stand for the file at `path` with the stamp `stamp`:
/// the first entry for `path`, where it has that stamp.
pub open spec fn fresh(cache: Seq<EntryModel>, path: Seq<char>, stamp: Stamp) -> Option<int> {
    match position_of(cache, path, 0) {
        Some(i) => if cache[i].stamp == stamp {
            Some(i)
        } else {
            None
        },
        None => None,
    }
}

/// Where a path stands for the cache.
#[derive(Clone, Copy, Debug, PartialEq, Eq, Structural)]
pub enum PathState {
    /// The cache holds nothing for the path.
    Unknown,
    /// The cache holds the file as it is.
    Cached,
    /// The cache holds the file with another modification time or length.
    Stale,
}

/// Where the path `path` stands for the cache, for a file with the stamp
/// `stamp`.
pub open spec fn path_state(cache: Seq<EntryModel>, path: Seq<char>, stamp: Stamp) -> PathState {
    match position_of(cache, path, 0) {
        Some(i) => if cache[i].stamp == stamp {
            PathState::Cached
        } else {
            PathState::Stale
        },
        None => PathState::Unknown,
    }
}

/// Whether a listed file has to be processed: it is a candidate, and the
/// cache holds nothing that can stand for it.
pub open spec fn needs_processing(
    cache: Seq<EntryModel>,
    l: ListedModel,
    output_name: Seq<char>,
) -> bool {
    candidate(l.file_name, output_name) && fresh(cache, l.path, l.stamp) is None
}

/// The positions in the listing of the files that have to be processed.
pub open spec fn stale_positions(
    cache: Seq<EntryModel>,
    listing: Seq<ListedModel>,
    output_name: Seq<char>,
) -> Seq<int>
    decreases listing.len(),
{
    if listing.len() == 0 {
        Seq::empty()
    } else {
        stale_positions(cache, listing.drop_last(), output_name) + if needs_processing(
            cache,
            listing.last(),
            output_name,
        ) {
            seq![listing.len() - 1]
        } else {
            Seq::empty()
        }
    }
}

/// The number of candidates in a listing.
pub open spec fn candidate_count(listing: Seq<ListedModel>, output_name: Seq<char>) -> nat
    decreases listing.len(),
{
    if listing.len() == 0 {
        0
    } else {
        candidate_count(listing.drop_last(), output_name) + if candidate(
            listing.last().file_name,
            output_name,
        ) {
            1nat
        } else {
            0nat
        }
    }
}

/// Whether a listing differs from what the cache holds: a candidate is
/// unknown or stale, or the cache holds another number of files than the
/// listing has candidates, as it does once a file is gone.
pub open spec fn differs_from(
    cache: Seq<EntryModel>,
    listing: Seq<ListedModel>,
    output_name: Seq<char>,
) -> bool {
    stale_positions(cache, listing, output_name).len() > 0 || candidate_count(listing, output_name)
        != cache.len()
}

/// Whether two listings list the same files: the same paths and names, in
/// the same order, with the same stamps. The texts that were read do not
/// count.
pub open spec fn same_files(a: Seq<ListedModel>, b: Seq<ListedModel>) -> bool {
    &&& a.len() == b.len()
    &&& forall|i: int|
        0 <= i < a.len() ==> (#[trigger] a[i]).path == b[i].path && a[i].file_name
            == b[i].file_name && a[i].stamp == b[i].stamp
}

/// Whether a rebuild is due over a listing: always on the first round of a
/// watch; afterwards where the listing differs from what the cache holds,
/// unless the last rebuild failed over a listing of the same files, which is
/// not tried again before something changes.
pub open spec fn rebuild_due(
    cache: Seq<EntryModel>,
    listing: Seq<ListedModel>,
    output_name: Seq<char>,
    failed: Option<Seq<ListedModel>>,
    first: bool,
) -> bool {
    first || (differs_from(cache, listing, output_name) && !(failed matches Some(f) && same_files(
        f,
        listing,
    )))
}

/// The entries of a rebuild so far, and the registry of their ids.
pub struct Reconciled {
    pub entries: Seq<EntryModel>,
    pub registry: Seq<(Seq<char>, Seq<char>)>,
}

/// How far a rebuild got.
pub enum Progress {
    /// Every file so far is taken in.
    Going(Reconciled),
    /// The file at this position of the listing has to be processed, and its
    /// text is not given.
    Missing(int),
    /// A file failed.
    Failed(ErrorModel),
}

/// Takes the listed file at position `at` in. A file that is no candidate is
/// passed over. A candidate is taken from the cache where the cache holds it
/// with the same stamp, and processed otherwise; then its ids are entered in
/// the registry.
pub open spec fn reconcile_one(
    acc: Reconciled,
    cache: Seq<EntryModel>,
    l: ListedModel,
    at: int,
    output_name: Seq<char>,
) -> Progress {
    if !candidate(l.file_name, output_name) {
        Progress::Going(acc)
    } else {
        match fresh(cache, l.path, l.stamp) {
            Some(i) => enter(acc, cache[i]),
            None => match l.source {
                None => Progress::Missing(at),
                Some(src) => match processed(l.path, icon_name(l.file_name), src.0, src.1) {
                    Ok(p) => enter(acc, EntryModel { stamp: l.stamp, file: p }),
                    Err(e) => Progress::Failed(e),
                },
            },
        }
    }
}

/// Enters the ids of an entry in the registry, and takes the entry in.
pub open spec fn enter(acc: Reconciled, e: EntryModel) -> Progress {
    match registered(acc.registry, e.file.child_ids, e.file.path) {
        Ok(registry) => Progress::Going(Reconciled { entries: acc.entries.push(e), registry }),
        Err(err) => Progress::Failed(err),
    }
}

/// Takes the listing in, in order. The first file that cannot be taken in
/// decides how the rebuild ends.
pub open spec fn reconciled(
    cache: Seq<EntryModel>,
    listing: Seq<ListedModel>,
    output_name: Seq<char>,
) -> Progress
    decreases listing.len(),
{
    if listing.len() == 0 {
        Progress::Going(Reconciled { entries: Seq::empty(), registry: Seq::empty() })
    } else {
        match reconciled(cache, listing.drop_last(), output_name) {
            Progress::Going(acc) => reconcile_one(
                acc,
                cache,
                listing.last(),
                listing.len() - 1,
                output_name,
            ),
            other => other,
        }
    }
}

/// The files that the entries hold.
pub open spec fn files_of(entries: Seq<EntryModel>) -> Seq<ProcessedModel> {
    Seq::new(entries.len(), |i: int| entries[i].file)
}

/// How a rebuild ends.
pub enum RebuildModel {
    /// The new cache, and what was built from it.
    Done { cache: Seq<EntryModel>, built: BuiltModel },
    /// The file at this position of the listing has to be processed, and its
    /// text is not given. Nothing was built.
    Missing { index: int },
    /// The rebuild failed. Nothing was built.
    Failed(ErrorModel),
}

/// A rebuild over a fresh listing: the listing is taken in; then the sprite
/// document is built from the new cache, in the order of the listing.
pub open spec fn rebuilt(
    cache: Seq<EntryModel>,
    directory: Seq<char>,
    listing: Seq<ListedModel>,
    output_name: Seq<char>,
) -> RebuildModel {
    match reconciled(cache, listing, output_name) {
        Progress::Going(r) => if r.entries.len() == 0 {
            RebuildModel::Failed(ErrorModel::NoSvgFiles { path: directory })
        } else {
            RebuildModel::Done {
                cache: r.entries,
                built: BuiltModel {
                    sprite: sprite(sprites_of(files_of(r.entries))),
                    warnings: warnings_of(files_of(r.entries)),
                },
            }
        },
        Progress::Missing(at) => RebuildModel::Missing { index: at },
        Progress::Failed(e) => RebuildModel::Failed(e),
    }
}

/// What stopped the rebuild among the first files stops it over them all.
pub proof fn lemma_reconciled_stop(
    cache: Seq<EntryModel>,
    listing: Seq<ListedModel>,
    k: int,
    output_name: Seq<char>,
)
    requires
        0 <= k <= listing.len(),
        !(reconciled(cache, listing.take(k), output_name) is Going),
    ensures
        reconciled(cache, listing, output_name) == reconciled(cache, listing.take(k), output_name),
    decreases listing.len() - k,
{
    if k < listing.len() {
        assert(listing.take(k + 1).drop_last() == listing.take(k));
        lemma_reconciled_stop(cache, listing, k + 1, output_name);
    } else {
        assert(listing.take(k) == listing);
    }
}

/// The listing of files that are all given with their text, under the
/// stamps `stamps`.
pub open spec fn listing_of(files: Seq<InputModel>, stamps: Seq<Stamp>) -> Seq<ListedModel> {
    Seq::new(
        files.len(),
        |i: int|
            ListedModel {
                path: files[i].path,
                file_name: files[i].file_name,
                stamp: stamps[i],
                source: Some((files[i].content, files[i].readings)),
            },
    )
}

proof fn lemma_reconciled_from_nothing(
    files: Seq<InputModel>,
    stamps: Seq<Stamp>,
    output_name: Seq<char>,
)
    requires
        stamps.len() == files.len(),
    ensures
        match loaded(files, output_name) {
            Ok(l) => {
                &&& reconciled(Seq::empty(), listing_of(files, stamps), output_name) is Going
                &&& files_of(
                    reconciled(
                        Seq::empty(),
                        listing_of(files, stamps),
                        output_name,
                    )->Going_0.entries,
                ) == l.units
                &&& reconciled(
                    Seq::empty(),
                    listing_of(files, stamps),
                    output_name,
                )->Going_0.registry == l.registry
            },
            Err(e) => reconciled(Seq::empty(), listing_of(files, stamps), output_name)
                == Progress::Failed(e),
        },
    decreases files.len(),
{
    let listing = listing_of(files, stamps);
    if files.len() > 0 {
        assert(listing.drop_last() =~= listing_of(files.drop_last(), stamps.drop_last()));
        lemma_reconciled_from_nothing(files.drop_last(), stamps.drop_last(), output_name);
        let f = files.last();
        assert(listing.last().path == f.path);
        assert(position_of(Seq::<EntryModel>::empty(), f.path, 0) is None);
        if let Progress::Going(acc) = reconciled(Seq::empty(), listing.drop_last(), output_name) {
            if candidate(f.file_name, output_name) {
                if let Ok(p) = processed(f.path, icon_name(f.file_name), f.content, f.readings) {
                    let e = EntryModel { stamp: stamps.last(), file: p };
                    assert(files_of(acc.entries.push(e)) =~= files_of(acc.entries).push(p));
                }
            }
        }
    } else {
        assert(files_of(Seq::<EntryModel>::empty()) =~= Seq::empty());
    }
}

/// A rebuild from an empty cache, over files that are all given with their
/// text, ends as the single build of these files ends: with the same sprite
/// document and warnings, or with the same error.
pub proof fn lemma_rebuild_from_nothing(
    directory: Seq<char>,
    files: Seq<InputModel>,
    stamps: Seq<Stamp>,
    output_name: Seq<char>,
)
    requires
        stamps.len() == files.len(),
    ensures
        match built(directory, files, output_name) {
            Ok(b) => rebuilt(
                Seq::empty(),
                directory,
                listing_of(files, stamps),
                output_name,
            ) matches RebuildModel::Done { built: again, .. } && again == b,
            Err(e) => rebuilt(Seq::empty(), directory, listing_of(files, stamps), output_name)
                == RebuildModel::Failed(e),
        },
{
    lemma_reconciled_from_nothing(files, stamps, output_name);
}

/// The stale positions among the first files are among those of them all.
pub proof fn lemma_stale_grows(
    cache: Seq<EntryModel>,
    listing: Seq<ListedModel>,
    k: int,
    output_name: Seq<char>,
)
    requires
        0 <= k <= listing.len(),
    ensures
        stale_positions(cache, listing.take(k), output_name).len() <= stale_positions(
            cache,
            listing,
            output_name,
        ).len(),
    decreases listing.len() - k,
{
    if k < listing.len() {
        assert(listing.take(k + 1).drop_last() == listing.take(k));
        lemma_stale_grows(cache, listing, k + 1, output_name);
    } else {
        assert(listing.take(k) == listing);
    }
}

/// The cache of a watch. A path is looked up at its first entry.
#[derive(Debug)]
pub struct Cache {
    entries: Vec<CacheEntry>,
}

impl View for Cache {
    type V = Seq<EntryModel>;

    closed spec fn view(&self) -> Seq<EntryModel> {
        entry_models(self.entries@)
    }
}

/// How a rebuild ended.
#[derive(Debug)]
pub enum Rebuild {
    /// The new cache, and what was built from it.
    Done { cache: Cache, built: Built },
    /// The file at this position of the listing has to be processed, and its
    /// text is not given. Nothing was built.
    Missing { index: usize },
    /// The rebuild failed. Nothing was built.
    Failed(AppError),
}

impl View for Rebuild {
    type V = RebuildModel;

    open spec fn view(&self) -> RebuildModel {
        match *self {
            Rebuild::Done { cache, built } => RebuildModel::Done { cache: cache@, built: built@ },
            Rebuild::Missing { index } => RebuildModel::Missing { index: index as int },
            Rebuild::Failed(e) => RebuildModel::Failed(e@),
        }
    }
}

/// What a listing that may be absent holds.
pub open spec fn optional_listing(failed: Option<&[Listed]>) -> Option<Seq<ListedModel>> {
    match failed {
        Some(f) => Some(listed_models(f@)),
        None => None,
    }
}

/// Whether the listings `a` and `b` list the same files: the same paths and
/// names, in the same order, with the same stamps.
pub fn same_listing(a: &[Listed], b: &[Listed]) -> (same: bool)
    ensures
        same == same_files(listed_models(a@), listed_models(b@)),
{
    if a.len() != b.len() {
        return false;
    }
    let mut i: usize = 0;
    while i < a.len()
        invariant
            i <= a.len(),
            a.len() == b.len(),
            forall|k: int|
                0 <= k < i ==> (#[trigger] listed_models(a@)[k]).path == listed_models(b@)[k].path
                    && listed_models(a@)[k].file_name == listed_models(b@)[k].file_name
                    && listed_models(a@)[k].stamp == listed_models(b@)[k].stamp,
        decreases a.len() - i,
    {
        let x = &a[i];
        let y = &b[i];
        assert(listed_models(a@)[i as int] == x@);
        assert(listed_models(b@)[i as int] == y@);
        if !(same_text(x.path.as_str(), y.path.as_str()) && same_text(
            x.file_name.as_str(),
            y.file_name.as_str(),
        ) && x.stamp.modified_secs == y.stamp.modified_secs && x.stamp.modified_nanos
            == y.stamp.modified_nanos && x.stamp.len == y.stamp.len) {
            return false;
        }
        i += 1;
    }
    true
}

impl Cache {
    /// A cache that holds nothing.
    pub fn new() -> (r: Self)
        ensures
            r@ == Seq::<EntryModel>::empty(),
    {
        let r = Cache { entries: Vec::new() };
        assert(r@ =~= Seq::empty());
        r
    }

    /// The number of entries.
    pub fn len(&self) -> (n: usize)
        ensures
            n == self@.len(),
    {
        self.entries.len()
    }

    /// The entry at position `i`.
    pub fn entry(&self, i: usize) -> (e: &CacheEntry)
        requires
            i < self@.len(),
        ensures
            e@ == self@[i as int],
    {
        &self.entries[i]
    }

    /// Where `path` stands for the cache, for a file with the stamp `stamp`:
    /// unknown, cached as it is, or stale.
    pub fn state(&self, path: &str, stamp: Stamp) -> (r: PathState)
        ensures
            r == path_state(self@, path@, stamp),
            r == PathState::Cached <==> fresh(self@, path@, stamp) is Some,
    {
        let mut i: usize = 0;
        while i < self.entries.len()
            invariant
                i <= self.entries.len(),
                position_of(self@, path@, 0) == position_of(self@, path@, i as int),
            decreases self.entries.len() - i,
        {
            assert(self@[i as int] == self.entries@[i as int]@);
            if same_text(self.entries[i].file.path.as_str(), path) {
                let e = &self.entries[i];
                if e.stamp.modified_secs == stamp.modified_secs && e.stamp.modified_nanos
                    == stamp.modified_nanos && e.stamp.len == stamp.len {
                    return PathState::Cached;
                } else {
                    return PathState::Stale;
                }
            }
            i += 1;
        }
        PathState::Unknown
    }

    /// The position of the entry that can stand for the file at `path` with
    /// the stamp `stamp`; `None` where the path is unknown or stale.
    pub fn lookup(&self, path: &str, stamp: Stamp) -> (r: Option<usize>)
        ensures
            match r {
                Some(i) => fresh(self@, path@, stamp) == Some(i as int) && i < self@.len(),
                None => fresh(self@, path@, stamp) is None,
            },
    {
        let mut i: usize = 0;
        while i < self.entries.len()
            invariant
                i <= self.entries.len(),
                position_of(self@, path@, 0) == position_of(self@, path@, i as int),
            decreases self.entries.len() - i,
        {
            assert(self@[i as int] == self.entries@[i as int]@);
            if same_text(self.entries[i].file.path.as_str(), path) {
                let e = &self.entries[i];
                if e.stamp.modified_secs == stamp.modified_secs && e.stamp.modified_nanos
                    == stamp.modified_nanos && e.stamp.len == stamp.len {
                    return Some(i);
                } else {
                    return None;
                }
            }
            i += 1;
        }
        None
    }

    /// The positions in `listing` of the files that have to be processed
    /// before a rebuild: the candidates that are unknown or stale.
    pub fn stale(&self, listing: &[Listed], output_name: &str) -> (r: Vec<usize>)
        ensures
            r@.len() == stale_positions(self@, listed_models(listing@), output_name@).len(),
            forall|k: int|
                0 <= k < r@.len() ==> #[trigger] r@[k] as int == stale_positions(
                    self@,
                    listed_models(listing@),
                    output_name@,
                )[k],
    {
        let ghost all = listed_models(listing@);
        let mut out: Vec<usize> = Vec::new();
        let mut i: usize = 0;
        proof {
            assert(all.take(0) =~= Seq::empty());
        }
        while i < listing.len()
            invariant
                i <= listing.len(),
                all == listed_models(listing@),
                out@.len() == stale_positions(self@, all.take(i as int), output_name@).len(),
                forall|k: int|
                    0 <= k < out@.len() ==> #[trigger] out@[k] as int == stale_positions(
                        self@,
                        all.take(i as int),
                        output_name@,
                    )[k],
            decreases listing.len() - i,
        {
            let l = &listing[i];
            proof {
                let now = all.take(i + 1);
                assert(now.drop_last() == all.take(i as int));
                assert(now.last() == l@);
            }
            if is_candidate(l.file_name.as_str(), output_name) && self.lookup(
                l.path.as_str(),
                l.stamp,
            ).is_none() {
                out.push(i);
            }
            i += 1;
        }
        proof {
            assert(all.take(all.len() as int) == all);
        }
        out
    }

    /// Whether `listing` differs from what the cache holds, so that a rebuild
    /// is due.
    pub fn differs(&self, listing: &[Listed], output_name: &str) -> (b: bool)
        ensures
            b == differs_from(self@, listed_models(listing@), output_name@),
    {
        let ghost all = listed_models(listing@);
        let mut count: usize = 0;
        let mut i: usize = 0;
        proof {
            assert(all.take(0) =~= Seq::empty());
        }
        while i < listing.len()
            invariant
                i <= listing.len(),
                count <= i,
                all == listed_models(listing@),
                count == candidate_count(all.take(i as int), output_name@),
                stale_positions(self@, all.take(i as int), output_name@).len() == 0,
            decreases listing.len() - i,
        {
            let l = &listing[i];
            proof {
                let now = all.take(i + 1);
                assert(now.drop_last() == all.take(i as int));
                assert(now.last() == l@);
            }
            if is_candidate(l.file_name.as_str(), output_name) {
                if self.lookup(l.path.as_str(), l.stamp).is_none() {
                    proof {
                        lemma_stale_grows(self@, all, i + 1, output_name@);
                    }
                    return true;
                }
                count += 1;
            }
            i += 1;
        }
        proof {
            assert(all.take(all.len() as int) == all);
        }
        count != self.entries.len()
    }

    /// Whether a rebuild is due over `listing`, where `failed` is the listing
    /// of the last rebuild if that failed, and `first` tells the first round
    /// of a watch. A rebuild is due on the first round; afterwards it is due
    /// where the listing differs from the cache, but a listing of the same
    /// files as the one that failed is not tried again.
    pub fn due(
        &self,
        listing: &[Listed],
        output_name: &str,
        failed: Option<&[Listed]>,
        first: bool,
    ) -> (b: bool)
        ensures
            b == rebuild_due(
                self@,
                listed_models(listing@),
                output_name@,
                optional_listing(failed),
                first,
            ),
    {
        if first {
            return true;
        }
        if !self.differs(listing, output_name) {
            return false;
        }
        match failed {
            Some(f) => !same_listing(f, listing),
            None => true,
        }
    }

    /// Rebuilds over a fresh listing of `directory`. Each candidate of the
    /// listing is taken from this cache where its stamp is the cached one,
    /// and processed from its source otherwise; the ids of all of them are
    /// registered anew, in the order of the listing; the sprite document is
    /// built from the new cache. This cache is left as it is: where the
    /// rebuild does not end in `Done`, nothing was built and it still holds.
    pub fn rebuild(&self, directory: &str, listing: &[Listed], output_name: &str) -> (r: Rebuild)
        ensures
            r@ == rebuilt(self@, directory@, listed_models(listing@), output_name@),
    {
        let ghost all = listed_models(listing@);
        let mut entries: Vec<CacheEntry> = Vec::new();
        let mut registry = IdRegistry::new();
        let mut i: usize = 0;
        proof {
            assert(all.take(0) =~= Seq::empty());
            assert(entry_models(entries@) =~= Seq::empty());
        }
        while i < listing.len()
            invariant
                i <= listing.len(),
                all == listed_models(listing@),
                registry.wf(),
                reconciled(self@, all.take(i as int), output_name@) == Progress::Going(
                    Reconciled { entries: entry_models(entries@), registry: registry@ },
                ),
            decreases listing.len() - i,
        {
            let l = &listing[i];
            proof {
                let now = all.take(i + 1);
                assert(now.drop_last() == all.take(i as int));
                assert(now.last() == l@);
            }
            if is_candidate(l.file_name.as_str(), output_name) {
                let entry = match self.lookup(l.path.as_str(), l.stamp) {
                    Some(at) => {
                        assert(self@[at as int] == self.entries@[at as int]@);
                        CacheEntry {
                            stamp: self.entries[at].stamp,
                            file: self.entries[at].file.duplicate(),
                        }
                    },
                    None => match &l.source {
                        None => {
                            proof {
                                lemma_reconciled_stop(self@, all, i + 1, output_name@);
                            }
                            return Rebuild::Missing { index: i };
                        },
                        Some(src) => {
                            let name = sprite_name(l.file_name.as_str());
                            match process_file(
                                l.path.as_str(),
                                name.as_str(),
                                src.content.as_str(),
                                src.readings.as_slice(),
                            ) {
                                Ok(p) => CacheEntry { stamp: l.stamp, file: p },
                                Err(e) => {
                                    proof {
                                        lemma_reconciled_stop(self@, all, i + 1, output_name@);
                                    }
                                    return Rebuild::Failed(e);
                                },
                            }
                        },
                    },
                };
                let registered = registry.register(&entry.file.child_ids, entry.file.path.as_str());
                registry = match registered {
                    Ok(r) => r,
                    Err(e) => {
                        proof {
                            lemma_reconciled_stop(self@, all, i + 1, output_name@);
                        }
                        return Rebuild::Failed(e);
                    },
                };
                proof {
                    assert(entry_models(entries@.push(entry)) =~= entry_models(entries@).push(
                        entry@,
                    ));
                }
                entries.push(entry);
            }
            i += 1;
        }
        proof {
            assert(all.take(all.len() as int) == all);
        }
        if entries.len() == 0 {
            return Rebuild::Failed(AppError::NoSvgFiles { path: directory.to_owned() });
        }
        let cache = Cache { entries };
        let built = cache.build();
        Rebuild::Done { cache, built }
    }

    /// The sprite document and the warnings of the cached files, in order.
    pub fn build(&self) -> (r: Built)
        ensures
            r@ == (BuiltModel {
                sprite: sprite(sprites_of(files_of(self@))),
                warnings: warnings_of(files_of(self@)),
            }),
    {
        let ghost files = files_of(self@);
        let mut refs: Vec<&SvgSprite> = Vec::new();
        let mut warnings: Vec<FileWarning> = Vec::new();
        let mut i: usize = 0;
        proof {
            assert(files.take(0) =~= Seq::empty());
            assert(warning_models(warnings@) =~= Seq::empty());
        }
        while i < self.entries.len()
            invariant
                i <= self.entries.len(),
                files == files_of(self@),
                refs@.len() == i,
                forall|k: int| 0 <= k < i ==> (#[trigger] refs@[k])@ == files[k].sprite,
                warning_models(warnings@) == warnings_of(files.take(i as int)),
            decreases self.entries.len() - i,
        {
            let u = &self.entries[i].file;
            assert(self@[i as int] == self.entries@[i as int]@);
            refs.push(&u.sprite);
            let ghost before = warning_models(warnings@);
            let mut k: usize = 0;
            proof {
                let now = files.take(i + 1);
                assert(now.drop_last() == files.take(i as int));
                assert(now.last() == u@);
                assert(before + warnings_of_file(u@).take(0) =~= before);
            }
            while k < u.warnings.len()
                invariant
                    k <= u.warnings.len(),
                    warning_models(warnings@) == before + warnings_of_file(u@).take(k as int),
                decreases u.warnings.len() - k,
            {
                let w = FileWarning { path: u.path.clone(), warning: u.warnings[k] };
                proof {
                    let mine = warnings_of_file(u@);
                    assert(mine.take(k + 1) =~= mine.take(k as int).push(mine[k as int]));
                    assert(warning_models(warnings@.push(w)) =~= warning_models(warnings@).push(
                        w@,
                    ));
                    assert(before + mine.take(k as int).push(mine[k as int]) =~= (before
                        + mine.take(k as int)).push(mine[k as int]));
                }
                warnings.push(w);
                k += 1;
            }
            proof {
                let mine = warnings_of_file(u@);
                assert(mine.take(mine.len() as int) == mine);
            }
            i += 1;
        }
        proof {
            assert(files.take(files.len() as int) == files);
            assert(borrowed_models(refs@) =~= sprites_of(files));
        }
        Built { sprite: render_sprite(&refs), warnings }
    }
}

} // verus!
