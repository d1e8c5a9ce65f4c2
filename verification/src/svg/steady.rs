//! What holds of a cache once a rebuild is done: over the same listing
//! nothing is stale, and a further rebuild takes every file from the cache
//! and builds the same document.
use crate::svg::cache::{
    candidate_count, differs_from, enter, fresh, lemma_reconciled_stop, needs_processing,
    position_of, rebuild_due, rebuilt, reconcile_one, reconciled, stale_positions, EntryModel,
    ListedModel, Progress, Stamp,
};
use crate::svg::candidate;
use vstd::prelude::*;

verus! {

/// The listing with no text given for any file.
pub open spec fn unread(listing: Seq<ListedModel>) -> Seq<ListedModel> {
    Seq::new(
        listing.len(),
        |i: int|
            ListedModel {
                path: listing[i].path,
                file_name: listing[i].file_name,
                stamp: listing[i].stamp,
                source: None,
            },
    )
}

/// The path and the stamp of each candidate of a listing, in order.
pub open spec fn candidate_keys(listing: Seq<ListedModel>, output_name: Seq<char>) -> Seq<
    (Seq<char>, Stamp),
>
    decreases listing.len(),
{
    if listing.len() == 0 {
        Seq::empty()
    } else {
        candidate_keys(listing.drop_last(), output_name) + if candidate(
            listing.last().file_name,
            output_name,
        ) {
            seq![(listing.last().path, listing.last().stamp)]
        } else {
            Seq::empty()
        }
    }
}

/// The path and the stamp of each entry, in order.
pub open spec fn entry_keys(entries: Seq<EntryModel>) -> Seq<(Seq<char>, Stamp)> {
    Seq::new(entries.len(), |i: int| (entries[i].file.path, entries[i].stamp))
}

/// Whether no path stands twice among the keys.
pub open spec fn distinct_paths(keys: Seq<(Seq<char>, Stamp)>) -> bool {
    forall|i: int, j: int|
        0 <= i < j < keys.len() ==> (#[trigger] keys[i]).0 != (#[trigger] keys[j]).0
}

proof fn lemma_position_of(cache: Seq<EntryModel>, path: Seq<char>, i: int)
    requires
        0 <= i,
    ensures
        match position_of(cache, path, i) {
            Some(j) => i <= j < cache.len() && cache[j].file.path == path && forall|k: int|
                i <= k < j ==> (#[trigger] cache[k]).file.path != path,
            None => forall|k: int| i <= k < cache.len() ==> (#[trigger] cache[k]).file.path != path,
        },
    decreases cache.len() - i,
{
    if i < cache.len() && cache[i].file.path != path {
        lemma_position_of(cache, path, i + 1);
    }
}

/// The entries of a rebuild are those of the candidates of the listing, in
/// order, each under the path and the stamp of its candidate.
pub proof fn lemma_reconciled_keys(
    cache: Seq<EntryModel>,
    listing: Seq<ListedModel>,
    output_name: Seq<char>,
)
    ensures
        reconciled(cache, listing, output_name) matches Progress::Going(r) ==> entry_keys(r.entries)
            == candidate_keys(listing, output_name),
    decreases listing.len(),
{
    if listing.len() > 0 {
        lemma_reconciled_keys(cache, listing.drop_last(), output_name);
        if let Progress::Going(acc) = reconciled(cache, listing.drop_last(), output_name) {
            let l = listing.last();
            if let Progress::Going(r) = reconciled(cache, listing, output_name) {
                if candidate(l.file_name, output_name) {
                    lemma_position_of(cache, l.path, 0);
                    let e = r.entries.last();
                    assert(r.entries == acc.entries.push(e));
                    assert(e.file.path == l.path && e.stamp == l.stamp);
                    assert(entry_keys(r.entries) =~= entry_keys(acc.entries).push(
                        (l.path, l.stamp),
                    ));
                }
            }
        }
    } else {
        assert(entry_keys(Seq::<EntryModel>::empty()) =~= Seq::empty());
    }
}

proof fn lemma_reconciled_grows(
    cache: Seq<EntryModel>,
    listing: Seq<ListedModel>,
    k: int,
    output_name: Seq<char>,
)
    requires
        0 <= k <= listing.len(),
        reconciled(cache, listing, output_name) is Going,
    ensures
        reconciled(cache, listing.take(k), output_name) matches Progress::Going(rk) && ({
            let r = reconciled(cache, listing, output_name)->Going_0;
            rk.entries.len() <= r.entries.len() && rk.entries == r.entries.take(
                rk.entries.len() as int,
            )
        }),
    decreases listing.len() - k,
{
    let r = reconciled(cache, listing, output_name)->Going_0;
    if !(reconciled(cache, listing.take(k), output_name) is Going) {
        lemma_reconciled_stop(cache, listing, k, output_name);
    }
    if k < listing.len() {
        lemma_reconciled_grows(cache, listing, k + 1, output_name);
        assert(listing.take(k + 1).drop_last() == listing.take(k));
        let rk = reconciled(cache, listing.take(k), output_name)->Going_0;
        let rn = reconciled(cache, listing.take(k + 1), output_name)->Going_0;
        assert(rk.entries =~= rn.entries.take(rk.entries.len() as int));
        assert(rk.entries =~= r.entries.take(rk.entries.len() as int));
    } else {
        assert(listing.take(k) == listing);
        assert(r.entries =~= r.entries.take(r.entries.len() as int));
    }
}

proof fn lemma_steady_prefix(
    cache: Seq<EntryModel>,
    listing: Seq<ListedModel>,
    output_name: Seq<char>,
    k: int,
)
    requires
        reconciled(cache, listing, output_name) is Going,
        distinct_paths(candidate_keys(listing, output_name)),
        0 <= k <= listing.len(),
    ensures
        ({
            let next = reconciled(cache, listing, output_name)->Going_0.entries;
            &&& reconciled(next, unread(listing).take(k), output_name) == reconciled(
                cache,
                listing.take(k),
                output_name,
            )
            &&& stale_positions(next, unread(listing).take(k), output_name).len() == 0
        }),
    decreases k,
{
    let r = reconciled(cache, listing, output_name)->Going_0;
    let next = r.entries;
    let bare = unread(listing);
    if k > 0 {
        lemma_steady_prefix(cache, listing, output_name, k - 1);
        lemma_reconciled_grows(cache, listing, k - 1, output_name);
        lemma_reconciled_grows(cache, listing, k, output_name);
        assert(listing.take(k).drop_last() == listing.take(k - 1));
        assert(bare.take(k).drop_last() == bare.take(k - 1));
        let l = listing[k - 1];
        assert(listing.take(k).last() == l);
        assert(bare.take(k).last() == bare[k - 1]);
        let acc = reconciled(cache, listing.take(k - 1), output_name)->Going_0;
        let now = reconciled(cache, listing.take(k), output_name)->Going_0;
        if candidate(l.file_name, output_name) {
            let n = acc.entries.len() as int;
            let e = now.entries.last();
            lemma_position_of(cache, l.path, 0);
            assert(now.entries == acc.entries.push(e));
            assert(reconcile_one(acc, cache, l, k - 1, output_name) == enter(acc, e));
            assert(e.file.path == l.path && e.stamp == l.stamp);
            assert(next[n] == now.entries[n]);
            lemma_reconciled_keys(cache, listing, output_name);
            lemma_position_of(next, l.path, 0);
            let j = position_of(next, l.path, 0)->0;
            if j < n {
                assert(entry_keys(next)[j].0 == entry_keys(next)[n].0);
            }
            assert(fresh(next, l.path, l.stamp) == Some(n));
            assert(!needs_processing(next, bare[k - 1], output_name));
        }
    } else {
        assert(listing.take(0) =~= bare.take(0));
    }
}

proof fn lemma_candidate_count(
    cache: Seq<EntryModel>,
    listing: Seq<ListedModel>,
    output_name: Seq<char>,
)
    ensures
        candidate_count(unread(listing), output_name) == candidate_keys(listing, output_name).len(),
    decreases listing.len(),
{
    if listing.len() > 0 {
        assert(unread(listing).drop_last() =~= unread(listing.drop_last()));
        lemma_candidate_count(cache, listing.drop_last(), output_name);
    }
}

/// Once a rebuild is done, and no path is listed twice, the same listing
/// does not differ from the new cache, so that after the first round no
/// rebuild is due over it; and a rebuild over it, with no text given for any
/// file, ends as the first one ended: with the same cache and the same
/// document.
pub proof fn lemma_rebuild_steady(
    cache: Seq<EntryModel>,
    directory: Seq<char>,
    listing: Seq<ListedModel>,
    output_name: Seq<char>,
)
    requires
        rebuilt(cache, directory, listing, output_name) is Done,
        distinct_paths(candidate_keys(listing, output_name)),
    ensures
        ({
            let next = rebuilt(cache, directory, listing, output_name)->cache;
            &&& !differs_from(next, unread(listing), output_name)
            &&& forall|failed: Option<Seq<ListedModel>>|
                !#[trigger] rebuild_due(next, unread(listing), output_name, failed, false)
            &&& rebuilt(next, directory, unread(listing), output_name) == rebuilt(
                cache,
                directory,
                listing,
                output_name,
            )
        }),
{
    let n = listing.len() as int;
    lemma_steady_prefix(cache, listing, output_name, n);
    lemma_reconciled_keys(cache, listing, output_name);
    lemma_candidate_count(cache, listing, output_name);
    assert(listing.take(n) == listing);
    assert(unread(listing).take(n) == unread(listing));
    let next = reconciled(cache, listing, output_name)->Going_0.entries;
    assert(entry_keys(next).len() == next.len());
}

} // verus!
