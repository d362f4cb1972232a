use vstd::prelude::*;
use crate::manifest::{chunk_total, entry_view, entry_views, paths_of, ManifestEntry};
use crate::text::views;
use crate::vector_store::VectorStore;

verus! {

/// Why a file's vectors were not taken into the index.
#[derive(PartialEq, Eq, Structural, Clone, Copy, Debug)]
pub enum IndexError {
    /// The embedding service gave a number of vectors other than the
    /// number of chunks.
    CountMismatch,
    /// A vector's length differs from the store's dimension.
    DimensionMismatch,
}

/// The manifest after a file with `n` chunks is indexed: a file without
/// chunks leaves no record.
pub open spec fn record(es: Seq<(Seq<char>, nat)>, path: Seq<char>, n: nat) -> Seq<(Seq<char>, nat)> {
    if n > 0 {
        es.push((path, n))
    } else {
        es
    }
}

/// The files of `files`, in order, that no entry of `es` records.
pub open spec fn pending(es: Seq<(Seq<char>, nat)>, files: Seq<Seq<char>>) -> Seq<Seq<char>>
    decreases files.len(),
{
    if files.len() == 0 {
        seq![]
    } else if paths_of(es).contains(files.last()) {
        pending(es, files.drop_last())
    } else {
        pending(es, files.drop_last()).push(files.last())
    }
}

/// The manifest after the files of `todo` are indexed in order, a file `f`
/// having `count(f)` chunks.
pub open spec fn run(
    es: Seq<(Seq<char>, nat)>,
    todo: Seq<Seq<char>>,
    count: spec_fn(Seq<char>) -> nat,
) -> Seq<(Seq<char>, nat)>
    decreases todo.len(),
{
    if todo.len() == 0 {
        es
    } else {
        record(run(es, todo.drop_last(), count), todo.last(), count(todo.last()))
    }
}

/// The files of `files` that the manifest does not record yet, in order:
/// those an indexing run has to chunk and embed.
pub fn pending_files(entries: &Vec<ManifestEntry>, files: &Vec<String>) -> (r: Vec<String>)
    ensures
        views(r@) == pending(entry_views(entries@), views(files@)),
{
    let ghost es = entry_views(entries@);
    let ghost fs = views(files@);
    let mut out: Vec<String> = Vec::new();
    for i in 0..files.len()
        invariant
            es == entry_views(entries@),
            fs == views(files@),
            views(out@) == pending(es, fs.take(i as int)),
    {
        assert(fs.take(i + 1).drop_last() =~= fs.take(i as int));
        assert(fs.take(i + 1).last() == files[i as int]@);
        if !crate::manifest::is_indexed(entries, &files[i]) {
            let f = files[i].clone();
            assert(views(out@.push(f)) =~= views(out@).push(f@));
            out.push(f);
        }
    }
    assert(fs.take(files.len() as int) =~= fs);
    out
}

/// Takes one file's vectors into the index: appends them to the store and,
/// when there are any, records the file and its chunk count in the manifest.
/// Nothing changes when the vectors do not match the chunks or the store.
pub fn record_file(
    entries: &mut Vec<ManifestEntry>,
    store: &mut VectorStore,
    path: String,
    chunk_count: usize,
    vector_lens: &Vec<usize>,
) -> (r: Result<(), IndexError>)
    requires
        old(store).size() + vector_lens@.len() <= usize::MAX,
    ensures
        r == Err::<(), IndexError>(IndexError::CountMismatch) <==> vector_lens@.len() != chunk_count,
        r == Err::<(), IndexError>(IndexError::DimensionMismatch) <==> vector_lens@.len() == chunk_count
            && exists|j: int| 0 <= j < vector_lens@.len() && vector_lens@[j] != old(store).dimension(),
        r is Ok <==> vector_lens@.len() == chunk_count && forall|j: int|
            0 <= j < vector_lens@.len() ==> #[trigger] vector_lens@[j] == old(store).dimension(),
        r is Ok ==> entry_views(final(entries)@) == record(entry_views(old(entries)@), path@, chunk_count as nat)
            && final(store).size() == old(store).size() + chunk_count,
        r is Err ==> final(entries)@ == old(entries)@ && final(store).size() == old(store).size(),
        final(store).dimension() == old(store).dimension(),
        chunk_total(entry_views(old(entries)@)) == old(store).size() ==> chunk_total(
            entry_views(final(entries)@),
        ) == final(store).size(),
{
    if vector_lens.len() != chunk_count {
        return Err(IndexError::CountMismatch);
    }
    let dim = store.dim();
    for j in 0..vector_lens.len()
        invariant
            dim == store.dimension(),
            *store == *old(store),
            *entries == *old(entries),
            vector_lens@.len() == chunk_count,
            forall|i: int| 0 <= i < j ==> #[trigger] vector_lens@[i] == dim,
    {
        if vector_lens[j] != dim {
            assert(vector_lens@[j as int] != old(store).dimension());
            return Err(IndexError::DimensionMismatch);
        }
    }
    store.add(vector_lens);
    if chunk_count > 0 {
        let ghost old_es = entry_views(entries@);
        let e = ManifestEntry { path, chunk_count };
        entries.push(e);
        assert(entry_views(entries@) =~= old_es.push(entry_view(e)));
        assert(entry_views(entries@).drop_last() =~= old_es);
    }
    Ok(())
}

proof fn lemma_run_prefix(es: Seq<(Seq<char>, nat)>, todo: Seq<Seq<char>>, count: spec_fn(Seq<char>) -> nat)
    ensures
        run(es, todo, count).len() >= es.len(),
        run(es, todo, count).take(es.len() as int) == es,
    decreases todo.len(),
{
    if todo.len() > 0 {
        lemma_run_prefix(es, todo.drop_last(), count);
        let prev = run(es, todo.drop_last(), count);
        let f = todo.last();
        if count(f) > 0 {
            assert(prev.push((f, count(f))).take(es.len() as int) =~= prev.take(es.len() as int));
        }
    }
}

/// Indexing more files leaves every earlier manifest entry in its place, so
/// the vector positions of those entries' chunks do not move.
pub proof fn lemma_run_keeps_earlier_entries(
    es: Seq<(Seq<char>, nat)>,
    files: Seq<Seq<char>>,
    count: spec_fn(Seq<char>) -> nat,
)
    ensures
        run(es, pending(es, files), count).len() >= es.len(),
        run(es, pending(es, files), count).take(es.len() as int) == es,
        forall|e: int|
            0 <= e <= es.len() ==> #[trigger] chunk_total(run(es, pending(es, files), count).take(e))
                == chunk_total(es.take(e)),
{
    let todo = pending(es, files);
    lemma_run_prefix(es, todo, count);
    let after = run(es, todo, count);
    assert forall|e: int| 0 <= e <= es.len() implies #[trigger] chunk_total(after.take(e)) == chunk_total(
        es.take(e),
    ) by {
        assert(after.take(e) =~= after.take(es.len() as int).take(e));
    }
}

proof fn lemma_contains_grows(es: Seq<(Seq<char>, nat)>, big: Seq<(Seq<char>, nat)>, f: Seq<char>)
    requires
        big.len() >= es.len(),
        big.take(es.len() as int) == es,
        paths_of(es).contains(f),
    ensures
        paths_of(big).contains(f),
{
    let j = choose|j: int| 0 <= j < paths_of(es).len() && paths_of(es)[j] == f;
    assert(es[j] == big[j]);
    assert(paths_of(big)[j] == f);
}

proof fn lemma_run_records_todo(es: Seq<(Seq<char>, nat)>, todo: Seq<Seq<char>>, count: spec_fn(Seq<char>) -> nat, f: Seq<char>)
    requires
        todo.contains(f),
        count(f) > 0,
    ensures
        paths_of(run(es, todo, count)).contains(f),
    decreases todo.len(),
{
    let prev = run(es, todo.drop_last(), count);
    let after = run(es, todo, count);
    if todo.last() == f {
        assert(after.last() == (f, count(f)));
        assert(paths_of(after)[after.len() - 1] == f);
    } else {
        let j = choose|j: int| 0 <= j < todo.len() && todo[j] == f;
        assert(todo.drop_last()[j] == f);
        lemma_run_records_todo(es, todo.drop_last(), count, f);
        assert(after.take(prev.len() as int) =~= prev);
        lemma_contains_grows(prev, after, f);
    }
}

proof fn lemma_pending_members(es: Seq<(Seq<char>, nat)>, files: Seq<Seq<char>>, f: Seq<char>)
    ensures
        pending(es, files).contains(f) <==> files.contains(f) && !paths_of(es).contains(f),
    decreases files.len(),
{
    if files.len() > 0 {
        let pre = files.drop_last();
        lemma_pending_members(es, pre, f);
        let p = pending(es, pre);
        if files.contains(f) && files.last() != f {
            let j = choose|j: int| 0 <= j < files.len() && files[j] == f;
            assert(pre[j] == f);
        }
        if pre.contains(f) {
            let j = choose|j: int| 0 <= j < pre.len() && pre[j] == f;
            assert(files[j] == f);
        }
        if !paths_of(es).contains(files.last()) {
            if p.contains(f) {
                let j = choose|j: int| 0 <= j < p.len() && p[j] == f;
                assert(p.push(files.last())[j] == f);
            }
            if p.push(files.last()).contains(f) && files.last() != f {
                let j = choose|j: int| 0 <= j < p.len() + 1 && p.push(files.last())[j] == f;
                assert(p[j] == f);
            }
            assert(p.push(files.last())[p.len() as int] == files.last());
        }
        if files.last() == f {
            assert(files[files.len() - 1] == f);
        }
    }
}

/// After a run indexes the pending files, a second run over the same files
/// finds only files without chunks pending, so it asks for no embeddings.
pub proof fn lemma_rerun_embeds_nothing(
    es: Seq<(Seq<char>, nat)>,
    files: Seq<Seq<char>>,
    count: spec_fn(Seq<char>) -> nat,
)
    ensures
        forall|j: int|
            0 <= j < pending(run(es, pending(es, files), count), files).len() ==> count(
                #[trigger] pending(run(es, pending(es, files), count), files)[j],
            ) == 0,
{
    let todo = pending(es, files);
    let after = run(es, todo, count);
    lemma_run_prefix(es, todo, count);
    assert forall|j: int| 0 <= j < pending(after, files).len() implies count(
        #[trigger] pending(after, files)[j],
    ) == 0 by {
        let f = pending(after, files)[j];
        lemma_pending_members(after, files, f);
        lemma_pending_members(es, files, f);
        if paths_of(es).contains(f) {
            lemma_contains_grows(es, after, f);
        }
        if count(f) > 0 {
            lemma_run_records_todo(es, todo, count, f);
        }
    }
}

/// Number of vectors the files of `todo` add to the store, a file `f`
/// adding `count(f)`.
pub open spec fn added(todo: Seq<Seq<char>>, count: spec_fn(Seq<char>) -> nat) -> nat
    decreases todo.len(),
{
    if todo.len() == 0 {
        0
    } else {
        added(todo.drop_last(), count) + count(todo.last())
    }
}

/// A run grows the manifest's chunk total by exactly the number of vectors
/// it appends, so a manifest that matched the store's size before a run
/// matches it after.
pub proof fn lemma_run_chunk_total(
    es: Seq<(Seq<char>, nat)>,
    todo: Seq<Seq<char>>,
    count: spec_fn(Seq<char>) -> nat,
)
    ensures
        chunk_total(run(es, todo, count)) == chunk_total(es) + added(todo, count),
    decreases todo.len(),
{
    if todo.len() > 0 {
        lemma_run_chunk_total(es, todo.drop_last(), count);
        let prev = run(es, todo.drop_last(), count);
        let f = todo.last();
        if count(f) > 0 {
            assert(prev.push((f, count(f))).drop_last() =~= prev);
        }
    }
}

/// A manifest whose chunk total matched the store's size before a run
/// matches it after, once the store has taken the run's vectors.
pub proof fn lemma_run_keeps_alignment(
    es: Seq<(Seq<char>, nat)>,
    files: Seq<Seq<char>>,
    count: spec_fn(Seq<char>) -> nat,
    size_before: nat,
)
    requires
        chunk_total(es) == size_before,
    ensures
        chunk_total(run(es, pending(es, files), count)) == size_before + added(
            pending(es, files),
            count,
        ),
{
    lemma_run_chunk_total(es, pending(es, files), count);
}

} // verus!
