use vstd::prelude::*;

use crate::catalog::{copy_texts, texts, Chapter, Manga};
use crate::decimal::{decimal, parse_decimal};
use crate::error::MirrorError;

verus! {

/// The persisted statement that a chapter has been mirrored in full, with the
/// file names of its pages in page order.
pub struct ChapterRecord {
    pub index: usize,
    pub name: String,
    pub pages: Vec<String>,
}

impl ChapterRecord {
    pub fn page_count(&self) -> (r: usize)
        ensures
            r == self.pages@.len(),
    {
        self.pages.len()
    }
}

/// The chapter indices that the remote catalog lists.
pub open spec fn remote_indices(remote: Seq<Chapter>) -> Set<usize> {
    Set::new(|i: usize| exists|k: int| 0 <= k < remote.len() && (#[trigger] remote[k]).index == i)
}

/// The chapter indices that the persisted document declares.
pub open spec fn declared_indices(declared: Seq<ChapterRecord>) -> Set<usize> {
    Set::new(|i: usize| exists|k: int| 0 <= k < declared.len() && (#[trigger] declared[k]).index == i)
}

/// The chapters that are listed remotely and not yet declared locally.
pub open spec fn missing_set(remote: Seq<Chapter>, declared: Seq<ChapterRecord>) -> Set<usize> {
    remote_indices(remote).difference(declared_indices(declared))
}

pub open spec fn strictly_increasing(s: Seq<usize>) -> bool {
    forall|i: int, j: int| 0 <= i < j < s.len() ==> s[i] < s[j]
}

/// `s` lists the set `m` in ascending order, each element once.
pub open spec fn lists_sorted(s: Seq<usize>, m: Set<usize>) -> bool {
    &&& strictly_increasing(s)
    &&& s.to_set() == m
}

/// The position in `missing` of the first chapter that already has a directory on disk.
pub open spec fn first_on_disk(missing: Seq<usize>, on_disk: Seq<usize>, k: int) -> bool {
    &&& 0 <= k < missing.len()
    &&& on_disk.contains(missing[k])
    &&& forall|j: int| 0 <= j < k ==> !on_disk.contains(#[trigger] missing[j])
}

/// The records that a full rewrite writes: one per catalog chapter, in catalog
/// order, with the chapter's index and name and the page files found for it.
pub open spec fn records_follow(
    chapters: Seq<Chapter>,
    pages: Seq<Seq<Seq<char>>>,
    records: Seq<ChapterRecord>,
) -> bool {
    &&& records.len() == chapters.len()
    &&& pages.len() == chapters.len()
    &&& forall|k: int|
        0 <= k < records.len() ==> {
            &&& (#[trigger] records[k]).index == chapters[k].index
            &&& records[k].name@ == chapters[k].name@
            &&& texts(records[k].pages@) == pages[k]
        }
}

/// Whether `index` is declared by one of the records.
pub fn is_declared(declared: &Vec<ChapterRecord>, index: usize) -> (r: bool)
    ensures
        r == declared_indices(declared@).contains(index),
{
    let mut k: usize = 0;
    while k < declared.len()
        invariant
            k <= declared@.len(),
            forall|j: int| 0 <= j < k ==> (#[trigger] declared@[j]).index != index,
        decreases declared@.len() - k,
    {
        if declared[k].index == index {
            assert(declared_indices(declared@).contains(index));
            return true;
        }
        k = k + 1;
    }
    false
}

/// Adds `x` to an ascending list of distinct values, keeping it so.
pub fn insert_sorted(v: &mut Vec<usize>, x: usize)
    requires
        strictly_increasing(old(v)@),
    ensures
        strictly_increasing(final(v)@),
        final(v)@.to_set() == old(v)@.to_set().insert(x),
{
    let n = v.len();
    let mut p: usize = 0;
    while p < n && v[p] < x
        invariant
            n == v@.len(),
            p <= n,
            forall|j: int| 0 <= j < p ==> v@[j] < x,
        decreases n - p,
    {
        p = p + 1;
    }
    if p < n && v[p] == x {
        assert(v@.to_set().insert(x) =~= v@.to_set());
        return;
    }
    let ghost before = v@;
    v.insert(p, x);
    assert(v@ == before.insert(p as int, x));
    assert forall|i: int, j: int| 0 <= i < j < v@.len() implies v@[i] < v@[j] by {
        if j < p {
        } else if j == p {
        } else if i < p {
            assert(before[j - 1] >= x);
        } else if i == p {
            assert(before[p as int] > x);
            assert(before[p as int] <= before[j - 1]);
        } else {
        }
    }
    assert forall|y: usize| #[trigger] v@.to_set().contains(y) <==> before.to_set().insert(x).contains(y) by {
        if v@.contains(y) {
            let i = choose|i: int| 0 <= i < v@.len() && v@[i] == y;
            if i < p {
                assert(before[i] == y);
            } else if i > p {
                assert(before[i - 1] == y);
            }
        }
        if before.contains(y) {
            let i = choose|i: int| 0 <= i < before.len() && before[i] == y;
            if i < p {
                assert(v@[i] == y);
            } else {
                assert(v@[i + 1] == y);
            }
        }
        if y == x {
            assert(v@[p as int] == x);
        }
    }
    assert(v@.to_set() =~= before.to_set().insert(x));
}

/// One more chapter of the catalog adds its index to the indices seen so far.
proof fn lemma_remote_indices_step(remote: Seq<Chapter>, k: int)
    requires
        0 <= k < remote.len(),
    ensures
        remote_indices(remote.take(k + 1)) == remote_indices(remote.take(k)).insert(remote[k].index),
{
    let index = remote[k].index;
    assert forall|i: usize| #[trigger] remote_indices(remote.take(k + 1)).contains(i) implies remote_indices(
        remote.take(k),
    ).contains(i) || i == index by {
        let j = choose|j: int| 0 <= j < k + 1 && (#[trigger] remote.take(k + 1)[j]).index == i;
        if j < k {
            assert(remote.take(k)[j].index == i);
        }
    }
    assert forall|i: usize| #[trigger] remote_indices(remote.take(k)).contains(i) implies remote_indices(
        remote.take(k + 1),
    ).contains(i) by {
        let j = choose|j: int| 0 <= j < k && (#[trigger] remote.take(k)[j]).index == i;
        assert(remote.take(k + 1)[j].index == i);
    }
    assert(remote.take(k + 1)[k].index == index);
    assert(remote_indices(remote.take(k + 1)) =~= remote_indices(remote.take(k)).insert(index));
}

/// The chapters that the remote catalog lists and no record declares, in
/// ascending order, each once.
pub fn missing_chapters(remote: &Vec<Chapter>, declared: &Vec<ChapterRecord>) -> (r: Vec<usize>)
    ensures
        lists_sorted(r@, missing_set(remote@, declared@)),
{
    let mut r: Vec<usize> = Vec::new();
    let mut k: usize = 0;
    while k < remote.len()
        invariant
            k <= remote@.len(),
            strictly_increasing(r@),
            r@.to_set() == missing_set(remote@.take(k as int), declared@),
        decreases remote@.len() - k,
    {
        let index = remote[k].index;
        proof {
            lemma_remote_indices_step(remote@, k as int);
        }
        if !is_declared(declared, index) {
            insert_sorted(&mut r, index);
            assert(missing_set(remote@.take(k + 1), declared@) =~= missing_set(
                remote@.take(k as int),
                declared@,
            ).insert(index));
        } else {
            assert(missing_set(remote@.take(k + 1), declared@) =~= missing_set(
                remote@.take(k as int),
                declared@,
            ));
        }
        k = k + 1;
    }
    assert(remote@.take(remote@.len() as int) == remote@);
    r
}

/// Refuses to go on when a chapter about to be fetched already has a directory
/// on disk: a previous run wrote pages for it and never recorded it.
pub fn check_consistency(missing: &Vec<usize>, on_disk: &Vec<usize>) -> (r: Result<(), MirrorError>)
    ensures
        r is Ok <==> forall|k: int| 0 <= k < missing@.len() ==> !on_disk@.contains(#[trigger] missing@[k]),
        r matches Err(e) ==> exists|k: int|
            first_on_disk(missing@, on_disk@, k) && e == MirrorError::ConsistencyViolation(missing@[k]),
{
    let mut k: usize = 0;
    while k < missing.len()
        invariant
            k <= missing@.len(),
            forall|j: int| 0 <= j < k ==> !on_disk@.contains(#[trigger] missing@[j]),
        decreases missing@.len() - k,
    {
        let m = missing[k];
        let mut j: usize = 0;
        while j < on_disk.len()
            invariant
                k < missing@.len(),
                m == missing@[k as int],
                forall|i: int| 0 <= i < k ==> !on_disk@.contains(#[trigger] missing@[i]),
                j <= on_disk@.len(),
                forall|i: int| 0 <= i < j ==> on_disk@[i] != m,
            decreases on_disk@.len() - j,
        {
            if on_disk[j] == m {
                assert(first_on_disk(missing@, on_disk@, k as int));
                return Err(MirrorError::ConsistencyViolation(m));
            }
            j = j + 1;
        }
        assert(!on_disk@.contains(m));
        k = k + 1;
    }
    Ok(())
}

/// Works out which chapters a run has to fetch, and stops before any work when
/// one of them already has a directory on disk.
pub fn plan_run(remote: &Vec<Chapter>, declared: &Vec<ChapterRecord>, on_disk: &Vec<usize>) -> (r:
    Result<Vec<usize>, MirrorError>)
    ensures
        r is Ok <==> forall|i: usize|
            #[trigger] missing_set(remote@, declared@).contains(i) ==> !on_disk@.contains(i),
        r matches Ok(m) ==> lists_sorted(m@, missing_set(remote@, declared@)),
        r matches Err(e) ==> exists|i: usize|
            missing_set(remote@, declared@).contains(i) && on_disk@.contains(i) && e
                == MirrorError::ConsistencyViolation(i) && forall|j: usize|
                #![trigger missing_set(remote@, declared@).contains(j)]
                missing_set(remote@, declared@).contains(j) && on_disk@.contains(j) ==> i <= j,
{
    let missing = missing_chapters(remote, declared);
    match check_consistency(&missing, on_disk) {
        Ok(()) => {
            assert forall|i: usize| #[trigger] missing_set(remote@, declared@).contains(i) implies !on_disk@.contains(i) by {
                assert(missing@.to_set().contains(i));
            }
            Ok(missing)
        },
        Err(e) => {
            let ghost k = choose|k: int|
                first_on_disk(missing@, on_disk@, k) && e == MirrorError::ConsistencyViolation(missing@[k]);
            assert(missing@.to_set().contains(missing@[k]));
            assert forall|j: usize|
                #![trigger missing_set(remote@, declared@).contains(j)]
                missing_set(remote@, declared@).contains(j) && on_disk@.contains(j) implies missing@[k] <= j by {
                assert(missing@.to_set().contains(j));
                let p = choose|p: int| 0 <= p < missing@.len() && missing@[p] == j;
                if p < k {
                    assert(!on_disk@.contains(missing@[p]));
                }
            }
            Err(e)
        },
    }
}

/// The chapter indices whose directories exist, from the names of the entries
/// of the chapters directory; other entries are passed over.
pub fn indices_on_disk(names: &Vec<String>) -> (r: Vec<usize>)
    ensures
        forall|i: usize|
            #[trigger] r@.contains(i) <==> exists|k: int| 0 <= k < names@.len() && names@[k]@ == decimal(i as nat),
{
    let mut r: Vec<usize> = Vec::new();
    let mut k: usize = 0;
    while k < names.len()
        invariant
            k <= names@.len(),
            forall|i: usize|
                #[trigger] r@.contains(i) <==> exists|j: int| 0 <= j < k && names@[j]@ == decimal(i as nat),
        decreases names@.len() - k,
    {
        let ghost before = r@;
        match parse_decimal(names[k].as_str()) {
            Some(v) => {
                r.push(v);
                assert forall|i: usize| #[trigger] r@.contains(i) <==> exists|j: int|
                    0 <= j < k + 1 && names@[j]@ == decimal(i as nat) by {
                    if r@.contains(i) && i != v {
                        let p = choose|p: int| 0 <= p < r@.len() && r@[p] == i;
                        assert(before[p] == i);
                    }
                    if before.contains(i) {
                        let p = choose|p: int| 0 <= p < before.len() && before[p] == i;
                        assert(r@[p] == i);
                    }
                    if i == v {
                        assert(r@[r@.len() - 1] == i);
                    }
                    if exists|j: int| 0 <= j < k + 1 && names@[j]@ == decimal(i as nat) {
                        let j = choose|j: int| 0 <= j < k + 1 && names@[j]@ == decimal(i as nat);
                        if j == k {
                            crate::decimal::lemma_decimal_injective(i as nat, v as nat);
                        }
                    }
                }
            },
            None => {
                assert forall|i: usize| #[trigger] r@.contains(i) <==> exists|j: int|
                    0 <= j < k + 1 && names@[j]@ == decimal(i as nat) by {
                    if exists|j: int| 0 <= j < k + 1 && names@[j]@ == decimal(i as nat) {
                        let j = choose|j: int| 0 <= j < k + 1 && names@[j]@ == decimal(i as nat);
                        assert(j != k);
                    }
                }
            },
        }
        k = k + 1;
    }
    r
}

/// The full rewrite of the chapter-index document: one record for every
/// catalog chapter, with the page files found in its directory.
pub fn build_records(manga: &Manga, pages: &Vec<Vec<String>>) -> (r: Vec<ChapterRecord>)
    requires
        pages@.len() == manga.chapters@.len(),
    ensures
        records_follow(manga.chapters@, pages@.map_values(|p: Vec<String>| texts(p@)), r@),
{
    let ghost pv = pages@.map_values(|p: Vec<String>| texts(p@));
    let mut r: Vec<ChapterRecord> = Vec::new();
    let mut k: usize = 0;
    while k < manga.chapters.len()
        invariant
            pages@.len() == manga.chapters@.len(),
            pv == pages@.map_values(|p: Vec<String>| texts(p@)),
            k <= manga.chapters@.len(),
            r@.len() == k,
            forall|j: int|
                0 <= j < k ==> {
                    &&& (#[trigger] r@[j]).index == manga.chapters@[j].index
                    &&& r@[j].name@ == manga.chapters@[j].name@
                    &&& texts(r@[j].pages@) == pv[j]
                },
        decreases manga.chapters@.len() - k,
    {
        let chapter = &manga.chapters[k];
        let record = ChapterRecord {
            index: chapter.index,
            name: chapter.name.clone(),
            pages: copy_texts(&pages[k]),
        };
        r.push(record);
        k = k + 1;
    }
    r
}

/// After the chapter-index document has been rewritten from a catalog, that
/// same catalog has no chapter missing: a second run against it fetches nothing.
pub proof fn lemma_rewrite_leaves_nothing_missing(
    remote: Seq<Chapter>,
    pages: Seq<Seq<Seq<char>>>,
    written: Seq<ChapterRecord>,
)
    requires
        records_follow(remote, pages, written),
    ensures
        missing_set(remote, written) == Set::<usize>::empty(),
{
    assert forall|i: usize| remote_indices(remote).contains(i) implies declared_indices(written).contains(i) by {
        let k = choose|k: int| 0 <= k < remote.len() && (#[trigger] remote[k]).index == i;
        assert(written[k].index == i);
    }
    assert(missing_set(remote, written) =~= Set::<usize>::empty());
}

/// The rewrite is a function of the catalog and of the page files found: two
/// runs that see the same ones write the same records.
pub proof fn lemma_rewrite_is_deterministic(
    chapters: Seq<Chapter>,
    pages: Seq<Seq<Seq<char>>>,
    first: Seq<ChapterRecord>,
    second: Seq<ChapterRecord>,
)
    requires
        records_follow(chapters, pages, first),
        records_follow(chapters, pages, second),
    ensures
        first.len() == second.len(),
        forall|k: int|
            0 <= k < first.len() ==> (#[trigger] first[k]).index == second[k].index && first[k].name@
                == second[k].name@ && texts(first[k].pages@) == texts(second[k].pages@),
{
}

} // verus!
