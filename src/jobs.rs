use vstd::prelude::*;
use vstd::string::*;

use std::collections::VecDeque;

use crate::catalog::{pages_of, texts, Chapter, Manga};
use crate::decimal::{decimal, decimal_string, lemma_decimal_shape};
use crate::paths::{chapter_dir, chapter_dir_spec, join_path, page_stem, with_extension};

verus! {

/// One page to download: the chapter address sent as referer, the image
/// address, and the file it goes to, without its extension.
pub struct PageJob {
    pub referer: String,
    pub url: String,
    pub dest: String,
}

pub open spec fn job_view(j: PageJob) -> (Seq<char>, Seq<char>, Seq<char>) {
    (j.referer@, j.url@, j.dest@)
}

/// The position of the first chapter with this index.
pub open spec fn position_of(chapters: Seq<Chapter>, index: usize) -> Option<int>
    decreases chapters.len(),
{
    if chapters.len() == 0 {
        None
    } else {
        match position_of(chapters.drop_last(), index) {
            Some(k) => Some(k),
            None => if chapters.last().index == index {
                Some(chapters.len() - 1)
            } else {
                None
            },
        }
    }
}

/// The jobs of one chapter: one per resolved page, in page order.
pub open spec fn chapter_jobs(chapters_dir: Seq<char>, c: Chapter) -> Seq<(Seq<char>, Seq<char>, Seq<char>)> {
    match pages_of(c) {
        Some(p) => Seq::new(
            p.len(),
            |k: int| (c.url@, p[k], page_stem(chapters_dir, c.index as nat, k as nat)),
        ),
        None => Seq::empty(),
    }
}

/// The jobs of a run: those of each missing chapter in turn. An index that
/// the catalog does not list gives none.
pub open spec fn planned_jobs(chapters_dir: Seq<char>, chapters: Seq<Chapter>, missing: Seq<usize>) -> Seq<
    (Seq<char>, Seq<char>, Seq<char>),
>
    decreases missing.len(),
{
    if missing.len() == 0 {
        Seq::empty()
    } else {
        planned_jobs(chapters_dir, chapters, missing.drop_last()) + match position_of(
            chapters,
            missing.last(),
        ) {
            Some(k) => chapter_jobs(chapters_dir, chapters[k]),
            None => Seq::empty(),
        }
    }
}

/// The positions of the missing chapters whose pages are still to be resolved,
/// in the order of `missing`.
pub open spec fn unresolved(chapters: Seq<Chapter>, missing: Seq<usize>) -> Seq<usize>
    decreases missing.len(),
{
    if missing.len() == 0 {
        Seq::empty()
    } else {
        unresolved(chapters, missing.drop_last()) + match position_of(chapters, missing.last()) {
            Some(k) => if chapters[k].pages is None {
                seq![k as usize]
            } else {
                Seq::empty()
            },
            None => Seq::empty(),
        }
    }
}

proof fn lemma_position_bounds(chapters: Seq<Chapter>, index: usize)
    ensures
        position_of(chapters, index) matches Some(k) ==> 0 <= k < chapters.len() && chapters[k].index
            == index,
        position_of(chapters, index) is None ==> forall|j: int|
            0 <= j < chapters.len() ==> (#[trigger] chapters[j]).index != index,
    decreases chapters.len(),
{
    if chapters.len() > 0 {
        lemma_position_bounds(chapters.drop_last(), index);
        if position_of(chapters.drop_last(), index) is None {
            assert forall|j: int| 0 <= j < chapters.len() - 1 implies (#[trigger] chapters[j]).index
                != index by {
                assert(chapters.drop_last()[j] == chapters[j]);
            }
        } else {
            let k = position_of(chapters.drop_last(), index).unwrap();
            assert(chapters.drop_last()[k] == chapters[k]);
        }
    }
}

/// The position of the first chapter with this index.
pub fn find_chapter(chapters: &Vec<Chapter>, index: usize) -> (r: Option<usize>)
    ensures
        r matches Some(k) ==> position_of(chapters@, index) == Some(k as int),
        r is None ==> position_of(chapters@, index) is None,
{
    let mut k: usize = 0;
    while k < chapters.len()
        invariant
            k <= chapters@.len(),
            position_of(chapters@.take(k as int), index) is None,
        decreases chapters@.len() - k,
    {
        assert(chapters@.take(k + 1).drop_last() == chapters@.take(k as int));
        if chapters[k].index == index {
            proof {
                lemma_position_prefix(chapters@, index, k + 1);
            }
            return Some(k);
        }
        k = k + 1;
    }
    assert(chapters@.take(chapters@.len() as int) == chapters@);
    None
}

/// A position found in a prefix stays the position in the whole sequence.
proof fn lemma_position_prefix(chapters: Seq<Chapter>, index: usize, n: int)
    requires
        0 <= n <= chapters.len(),
        position_of(chapters.take(n), index) is Some,
    ensures
        position_of(chapters, index) == position_of(chapters.take(n), index),
    decreases chapters.len(),
{
    if n < chapters.len() {
        assert(chapters.drop_last().take(n) == chapters.take(n));
        lemma_position_prefix(chapters.drop_last(), index, n);
    } else {
        assert(chapters.take(n) == chapters);
    }
}

/// The positions of the missing chapters whose pages have to be resolved
/// before their jobs can be compiled.
pub fn chapters_to_resolve(manga: &Manga, missing: &Vec<usize>) -> (r: Vec<usize>)
    ensures
        r@ == unresolved(manga.chapters@, missing@),
{
    let mut r: Vec<usize> = Vec::new();
    let mut i: usize = 0;
    while i < missing.len()
        invariant
            i <= missing@.len(),
            r@ == unresolved(manga.chapters@, missing@.take(i as int)),
        decreases missing@.len() - i,
    {
        let ghost before = r@;
        assert(missing@.take(i + 1).drop_last() == missing@.take(i as int));
        match find_chapter(&manga.chapters, missing[i]) {
            Some(k) => {
                proof {
                    lemma_position_bounds(manga.chapters@, missing@[i as int]);
                }
                if manga.chapters[k].pages.is_none() {
                    r.push(k);
                    assert(r@ == before + seq![k]);
                } else {
                    assert(r@ == before + Seq::<usize>::empty());
                }
            },
            None => {
                assert(r@ == before + Seq::<usize>::empty());
            },
        }
        i = i + 1;
    }
    assert(missing@.take(missing@.len() as int) == missing@);
    r
}

/// The queue of page jobs that the workers drain, first in first out.
pub struct JobQueue {
    jobs: VecDeque<PageJob>,
}

impl View for JobQueue {
    type V = Seq<(Seq<char>, Seq<char>, Seq<char>)>;

    closed spec fn view(&self) -> Self::V {
        self.jobs@.map_values(|j: PageJob| job_view(j))
    }
}

impl JobQueue {
    pub fn len(&self) -> (r: usize)
        ensures
            r == self@.len(),
    {
        self.jobs.len()
    }

    /// Takes the next job, or reports that none is left.
    pub fn pop(&mut self) -> (r: Option<PageJob>)
        ensures
            old(self)@.len() == 0 ==> r is None && final(self)@ == old(self)@,
            old(self)@.len() > 0 ==> (r matches Some(j) && job_view(j) == old(self)@[0] && final(self)@
                == old(self)@.drop_first()),
    {
        let r = self.jobs.pop_front();
        proof {
            if old(self)@.len() > 0 {
                assert(self@ =~= old(self)@.drop_first());
            }
        }
        r
    }
}

/// Appends the jobs of one chapter, one per page in page order.
fn push_chapter_jobs(queue: &mut VecDeque<PageJob>, chapters_dir: &String, chapter: &Chapter, pages: &Vec<String>)
    requires
        chapter.pages == Some(*pages),
    ensures
        final(queue)@.map_values(|j: PageJob| job_view(j)) == old(queue)@.map_values(
            |j: PageJob| job_view(j),
        ) + chapter_jobs(chapters_dir@, *chapter),
{
    let ghost start = old(queue)@.map_values(|j: PageJob| job_view(j));
    let ghost cj = chapter_jobs(chapters_dir@, *chapter);
    let dir = chapter_dir(chapters_dir.as_str(), chapter.index);
    let mut k: usize = 0;
    while k < pages.len()
        invariant
            chapter.pages == Some(*pages),
            cj == chapter_jobs(chapters_dir@, *chapter),
            dir@ == chapter_dir_spec(chapters_dir@, chapter.index as nat),
            k <= pages@.len(),
            queue@.map_values(|j: PageJob| job_view(j)) == start + cj.take(k as int),
        decreases pages@.len() - k,
    {
        let name = decimal_string(k);
        let dest = join_path(dir.as_str(), name.as_str());
        let job = PageJob { referer: chapter.url.clone(), url: pages[k].clone(), dest };
        let ghost before = queue@;
        queue.push_back(job);
        assert(texts(pages@)[k as int] == pages@[k as int]@);
        assert(pages_of(*chapter) == Some(texts(pages@)));
        assert(cj.len() == pages@.len());
        assert(cj[k as int] == job_view(job));
        assert(queue@.map_values(|j: PageJob| job_view(j)) =~= start + cj.take(k + 1)) by {
            let qv = queue@.map_values(|j: PageJob| job_view(j));
            let bv = before.map_values(|j: PageJob| job_view(j));
            let want = start + cj.take(k + 1);
            assert(queue@ == before.push(job));
            assert(bv == start + cj.take(k as int));
            assert(bv.len() == before.len());
            assert(qv.len() == queue@.len());
            assert(cj.take(k + 1).len() == k + 1);
            assert(qv.len() == want.len());
            assert forall|i: int| 0 <= i < qv.len() implies qv[i] == want[i] by {
                if i < before.len() {
                    assert(queue@[i] == before[i]);
                    assert(qv[i] == bv[i]);
                } else {
                    assert(queue@[i] == job);
                }
            }
        }
        k = k + 1;
    }
    assert(cj.take(pages@.len() as int) =~= cj);
}

/// Compiles the jobs of a run: for each missing chapter, in the order given,
/// one job per resolved page, in page order.
pub fn compile_jobs(chapters_dir: &String, manga: &Manga, missing: &Vec<usize>) -> (r: JobQueue)
    ensures
        r@ == planned_jobs(chapters_dir@, manga.chapters@, missing@),
{
    let mut queue: VecDeque<PageJob> = VecDeque::new();
    let mut i: usize = 0;
    while i < missing.len()
        invariant
            i <= missing@.len(),
            queue@.map_values(|j: PageJob| job_view(j)) == planned_jobs(
                chapters_dir@,
                manga.chapters@,
                missing@.take(i as int),
            ),
        decreases missing@.len() - i,
    {
        assert(missing@.take(i + 1).drop_last() == missing@.take(i as int));
        let ghost before = queue@.map_values(|j: PageJob| job_view(j));
        match find_chapter(&manga.chapters, missing[i]) {
            Some(k) => {
                proof {
                    lemma_position_bounds(manga.chapters@, missing@[i as int]);
                }
                let chapter = &manga.chapters[k];
                match &chapter.pages {
                    Some(pages) => {
                        push_chapter_jobs(&mut queue, chapters_dir, chapter, pages);
                    },
                    None => {
                        assert(before + chapter_jobs(chapters_dir@, manga.chapters@[k as int]) =~= before);
                    },
                }
            },
            None => {
                assert(before + Seq::empty() =~= before);
            },
        }
        i = i + 1;
    }
    assert(missing@.take(missing@.len() as int) == missing@);
    JobQueue { jobs: queue }
}

/// Each page of a chapter goes to `<chapter_dir>/<position>.<ext>`, whatever the
/// order in which the jobs are carried out: the file name is the page's
/// zero-based position.
pub proof fn lemma_page_file_names(chapters_dir: Seq<char>, c: Chapter, k: int, ext: Seq<char>)
    requires
        pages_of(c) is Some,
        0 <= k < pages_of(c).unwrap().len(),
    ensures
        with_extension(chapter_jobs(chapters_dir, c)[k].2, ext) == chapter_dir_spec(
            chapters_dir,
            c.index as nat,
        ) + seq!['/'] + decimal(k as nat) + seq!['.'] + ext,
{
    let d = chapter_dir_spec(chapters_dir, c.index as nat);
    lemma_decimal_shape(c.index as nat);
    let digits = decimal(c.index as nat);
    assert(d.last() == digits.last());
    assert(d.last() != '/');
}

/// Page `k` of the chapter with index `idx` has been resolved.
pub open spec fn resolved_page(chapters: Seq<Chapter>, idx: usize, k: int) -> bool {
    match position_of(chapters, idx) {
        Some(p) => match pages_of(chapters[p]) {
            Some(pages) => 0 <= k < pages.len(),
            None => false,
        },
        None => false,
    }
}

/// The job for page `k` of the chapter with index `idx`: its chapter address,
/// the page's image address, and `<chapters_dir>/<idx>/<k>`.
pub open spec fn page_job(chapters_dir: Seq<char>, chapters: Seq<Chapter>, idx: usize, k: int) -> (
    Seq<char>,
    Seq<char>,
    Seq<char>,
) {
    let c = chapters[position_of(chapters, idx).unwrap()];
    (c.url@, pages_of(c).unwrap()[k], page_stem(chapters_dir, idx as nat, k as nat))
}

/// `job` is the job for page `k` of the `m`-th missing chapter.
pub open spec fn job_for_page(
    chapters_dir: Seq<char>,
    chapters: Seq<Chapter>,
    missing: Seq<usize>,
    m: int,
    k: int,
    job: (Seq<char>, Seq<char>, Seq<char>),
) -> bool {
    &&& 0 <= m < missing.len()
    &&& resolved_page(chapters, missing[m], k)
    &&& job == page_job(chapters_dir, chapters, missing[m], k)
}

proof fn lemma_planned_split(chapters_dir: Seq<char>, chapters: Seq<Chapter>, missing: Seq<usize>)
    requires
        missing.len() > 0,
    ensures
        planned_jobs(chapters_dir, chapters, missing) == planned_jobs(chapters_dir, chapters, missing.drop_last())
            + match position_of(chapters, missing.last()) {
            Some(p) => chapter_jobs(chapters_dir, chapters[p]),
            None => Seq::empty(),
        },
{
}

/// Every job of a run is one resolved page `k` of one missing chapter `i`,
/// and goes to `<chapters_dir>/<i>/<k>`: the file a page ends up in is named
/// by its position, whatever the order in which workers take the jobs.
pub proof fn lemma_job_is_page(chapters_dir: Seq<char>, chapters: Seq<Chapter>, missing: Seq<usize>, t: int)
    requires
        0 <= t < planned_jobs(chapters_dir, chapters, missing).len(),
    ensures
        exists|m: int, k: int|
            #[trigger] job_for_page(
                chapters_dir,
                chapters,
                missing,
                m,
                k,
                planned_jobs(chapters_dir, chapters, missing)[t],
            ),
    decreases missing.len(),
{
    if missing.len() == 0 {
        assert(planned_jobs(chapters_dir, chapters, missing).len() == 0);
    } else {
        let prev = missing.drop_last();
        let last = missing.last();
        lemma_planned_split(chapters_dir, chapters, missing);
        lemma_position_bounds(chapters, last);
        let jobs = planned_jobs(chapters_dir, chapters, missing);
        let pj = planned_jobs(chapters_dir, chapters, prev);
        if t < pj.len() {
            lemma_job_is_page(chapters_dir, chapters, prev, t);
            let (m, k) = choose|m: int, k: int| #[trigger] job_for_page(chapters_dir, chapters, prev, m, k, pj[t]);
            assert(prev[m] == missing[m]);
            assert(jobs[t] == pj[t]);
            assert(job_for_page(chapters_dir, chapters, missing, m, k, jobs[t]));
        } else {
            let k = t - pj.len();
            let p = position_of(chapters, last).unwrap();
            assert(jobs[t] == chapter_jobs(chapters_dir, chapters[p])[k]);
            assert(job_for_page(chapters_dir, chapters, missing, missing.len() - 1, k, jobs[t]));
        }
    }
}

/// Every resolved page `k` of every missing chapter has its job in the run.
pub proof fn lemma_page_has_job(
    chapters_dir: Seq<char>,
    chapters: Seq<Chapter>,
    missing: Seq<usize>,
    m: int,
    k: int,
)
    requires
        0 <= m < missing.len(),
        resolved_page(chapters, missing[m], k),
    ensures
        planned_jobs(chapters_dir, chapters, missing).contains(page_job(chapters_dir, chapters, missing[m], k)),
    decreases missing.len(),
{
    let prev = missing.drop_last();
    let last = missing.last();
    lemma_planned_split(chapters_dir, chapters, missing);
    lemma_position_bounds(chapters, last);
    let jobs = planned_jobs(chapters_dir, chapters, missing);
    let pj = planned_jobs(chapters_dir, chapters, prev);
    if m < missing.len() - 1 {
        assert(prev[m] == missing[m]);
        lemma_page_has_job(chapters_dir, chapters, prev, m, k);
        let t = choose|t: int| 0 <= t < pj.len() && pj[t] == page_job(chapters_dir, chapters, prev[m], k);
        assert(jobs[t] == pj[t]);
    } else {
        let p = position_of(chapters, last).unwrap();
        let t = pj.len() + k;
        assert(jobs[t] == chapter_jobs(chapters_dir, chapters[p])[k]);
    }
}

} // verus!
