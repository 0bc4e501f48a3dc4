//! Detection of files with identical content.

use crate::assoc::TextMap;
use crate::text::opt_view;
use crate::types::FileAnalysis;
use vstd::prelude::*;

verus! {

/// The digests of a batch, record by record; `None` for a record without one.
pub open spec fn digests(files: Seq<FileAnalysis>) -> Seq<Option<Seq<char>>> {
    files.map_values(|f: FileAnalysis| opt_view(f.file_hash))
}

/// Whether record `i` has a digest that another record of the batch has too.
pub open spec fn shares_digest(hashes: Seq<Option<Seq<char>>>, i: int) -> bool {
    hashes[i] is Some && exists|j: int|
        0 <= j < hashes.len() && j != i && #[trigger] hashes[j] == hashes[i]
}

/// The number of records with the digest `digest`.
pub open spec fn occurrences(hashes: Seq<Option<Seq<char>>>, digest: Seq<char>) -> nat
    decreases hashes.len(),
{
    if hashes.len() == 0 {
        0
    } else {
        occurrences(hashes.drop_last(), digest) + if hashes.last() == Some(digest) {
            1nat
        } else {
            0nat
        }
    }
}

/// A digest occurs at most as often as there are records, and at least once
/// exactly when some record has it.
proof fn lemma_occurrences_bound(hashes: Seq<Option<Seq<char>>>, digest: Seq<char>)
    ensures
        occurrences(hashes, digest) <= hashes.len(),
        occurrences(hashes, digest) > 0 <==> exists|j: int|
            0 <= j < hashes.len() && #[trigger] hashes[j] == Some(digest),
    decreases hashes.len(),
{
    if hashes.len() > 0 {
        let init = hashes.drop_last();
        lemma_occurrences_bound(init, digest);
        if occurrences(hashes, digest) > 0 {
            if hashes.last() == Some(digest) {
                assert(hashes[hashes.len() - 1] == Some(digest));
            } else {
                let j = choose|j: int| 0 <= j < init.len() && #[trigger] init[j] == Some(digest);
                assert(hashes[j] == Some(digest));
            }
        }
        if exists|j: int| 0 <= j < hashes.len() && #[trigger] hashes[j] == Some(digest) {
            let j = choose|j: int| 0 <= j < hashes.len() && #[trigger] hashes[j] == Some(digest);
            if j < init.len() {
                assert(init[j] == Some(digest));
            }
        }
    }
}

/// A record shares its digest exactly when the digest occurs more than once.
pub proof fn lemma_shared_iff_repeated(hashes: Seq<Option<Seq<char>>>, i: int)
    requires
        0 <= i < hashes.len(),
        hashes[i] is Some,
    ensures
        shares_digest(hashes, i) <==> occurrences(hashes, hashes[i]->0) > 1,
    decreases hashes.len(),
{
    let digest = hashes[i]->0;
    let init = hashes.drop_last();
    let last = hashes.len() - 1;
    lemma_occurrences_bound(init, digest);
    if i == last {
        if shares_digest(hashes, i) {
            let j = choose|j: int|
                0 <= j < hashes.len() && j != i && #[trigger] hashes[j] == hashes[i];
            assert(init[j] == Some(digest));
        }
        if occurrences(hashes, digest) > 1 {
            let j = choose|j: int| 0 <= j < init.len() && #[trigger] init[j] == Some(digest);
            assert(hashes[j] == hashes[i]);
        }
    } else {
        assert(init[i] == hashes[i]);
        if hashes.last() == Some(digest) {
            assert(hashes[last] == hashes[i]);
        } else {
            lemma_shared_iff_repeated(init, i);
            if shares_digest(hashes, i) {
                let j = choose|j: int|
                    0 <= j < hashes.len() && j != i && #[trigger] hashes[j] == hashes[i];
                assert(init[j] == init[i]);
            }
            if shares_digest(init, i) {
                let j = choose|j: int| 0 <= j < init.len() && j != i && #[trigger] init[j] == init[i];
                assert(hashes[j] == hashes[i]);
            }
        }
    }
}

/// Whether `counts` holds, for every digest, the number of its occurrences.
spec fn counts_match(counts: Map<Seq<char>, usize>, hashes: Seq<Option<Seq<char>>>) -> bool {
    forall|d: Seq<char>|
        {
            &&& counts.dom().contains(d) <==> #[trigger] occurrences(hashes, d) > 0
            &&& counts.dom().contains(d) ==> counts[d] == occurrences(hashes, d)
        }
}

/// Sets the duplicate flag of every record of the batch: a record is a
/// duplicate exactly when it has a digest and another record has the same one.
/// Every record of such a group is flagged, the first one too; a record
/// without a digest never is. Nothing else of a record changes.
pub fn mark_duplicates(files: &mut Vec<FileAnalysis>)
    ensures
        final(files)@.len() == old(files)@.len(),
        forall|i: int|
            0 <= i < old(files)@.len() ==> #[trigger] final(files)@[i] == (FileAnalysis {
                is_duplicate: shares_digest(digests(old(files)@), i),
                ..old(files)@[i]
            }),
{
    let ghost hashes = digests(files@);
    let n: usize = files.len();
    let mut counts: TextMap<usize> = TextMap::new();
    let mut i: usize = 0;
    assert(hashes.take(0) =~= Seq::<Option<Seq<char>>>::empty());
    while i < n
        invariant
            n == files@.len(),
            files@ == old(files)@,
            hashes == digests(files@),
            i <= n,
            counts.wf(),
            counts_match(counts@, hashes.take(i as int)),
        decreases n - i,
    {
        let ghost seen = hashes.take(i as int);
        let ghost next = hashes.take(i + 1);
        proof {
            assert(next.drop_last() =~= seen);
            assert(next.last() == hashes[i as int]);
        }
        match &files[i].file_hash {
            Some(digest) => {
                proof {
                    lemma_occurrences_bound(seen, digest@);
                }
                let count: usize = match counts.get(digest.as_str()) {
                    Some(c) => *c,
                    None => 0,
                };
                let ghost before = counts@;
                counts.insert(digest.clone(), count + 1);
                assert forall|d: Seq<char>|
                    {
                        &&& counts@.dom().contains(d) <==> #[trigger] occurrences(next, d) > 0
                        &&& counts@.dom().contains(d) ==> counts@[d] == occurrences(next, d)
                    } by {
                    assert(before.dom().contains(d) <==> occurrences(seen, d) > 0);
                }
            },
            None => {
                assert forall|d: Seq<char>|
                    {
                        &&& counts@.dom().contains(d) <==> #[trigger] occurrences(next, d) > 0
                        &&& counts@.dom().contains(d) ==> counts@[d] == occurrences(next, d)
                    } by {
                    assert(counts@.dom().contains(d) <==> occurrences(seen, d) > 0);
                }
            },
        }
        i += 1;
    }
    assert(hashes.take(n as int) =~= hashes);
    let mut k: usize = 0;
    while k < n
        invariant
            n == files@.len(),
            n == old(files)@.len(),
            hashes == digests(old(files)@),
            k <= n,
            counts.wf(),
            counts_match(counts@, hashes),
            forall|j: int|
                0 <= j < k ==> #[trigger] files@[j] == (FileAnalysis {
                    is_duplicate: shares_digest(hashes, j),
                    ..old(files)@[j]
                }),
            forall|j: int| k <= j < n ==> files@[j] == old(files)@[j],
        decreases n - k,
    {
        let flag: bool = match &files[k].file_hash {
            Some(digest) => {
                proof {
                    assert(hashes[k as int] == Some(digest@));
                    lemma_shared_iff_repeated(hashes, k as int);
                    assert(counts@.dom().contains(digest@) <==> occurrences(hashes, digest@) > 0);
                }
                match counts.get(digest.as_str()) {
                    Some(c) => *c > 1,
                    None => false,
                }
            },
            None => false,
        };
        files[k].is_duplicate = flag;
        k += 1;
    }
}


/// Two records with the same digest are both duplicates.
pub proof fn lemma_shared_digest_flags_both(hashes: Seq<Option<Seq<char>>>, a: int, b: int)
    requires
        0 <= a < hashes.len(),
        0 <= b < hashes.len(),
        a != b,
        hashes[a] is Some,
        hashes[a] == hashes[b],
    ensures
        shares_digest(hashes, a),
        shares_digest(hashes, b),
{
    assert(hashes[b] == hashes[a]);
    assert(hashes[a] == hashes[b]);
}

/// A record whose digest no other record has is no duplicate, and neither is
/// a record without a digest.
pub proof fn lemma_unique_digest_is_not_flagged(hashes: Seq<Option<Seq<char>>>, a: int)
    requires
        0 <= a < hashes.len(),
        hashes[a] is None || forall|j: int| 0 <= j < hashes.len() && j != a ==> hashes[j] != hashes[a],
    ensures
        !shares_digest(hashes, a),
{
}

} // verus!
