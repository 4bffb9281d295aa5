use swadloon::catalog::{catalog_from_links, Chapter, Manga};
use swadloon::error::MirrorError;
use swadloon::jobs::{chapters_to_resolve, compile_jobs, find_chapter, PageJob};
use swadloon::pages::{page_position, sort_pages};
use swadloon::reconcile::{
    build_records, check_consistency, indices_on_disk, missing_chapters, plan_run, ChapterRecord,
};
use swadloon::worker::{media_extension, page_destination};

fn chapter(index: usize, name: &str) -> Chapter {
    Chapter {
        index,
        name: name.to_string(),
        url: format!("https://mangapill.com/chapters/{}", index),
        pages: None,
    }
}

fn record(index: usize) -> ChapterRecord {
    ChapterRecord { index, name: format!("Chapter {}", index), pages: vec![] }
}

fn strings(v: &[&str]) -> Vec<String> {
    v.iter().map(|s| s.to_string()).collect()
}

fn links(n: usize) -> Vec<(String, String)> {
    // newest first, as the catalog page lists them
    (1..=n)
        .rev()
        .map(|i| (format!("Chapter {}", i), format!("/chapters/{}-10000000/title-chapter-{}", i, i)))
        .collect()
}

fn drain(manga: &Manga, chapters_dir: &str, missing: &[usize]) -> Vec<PageJob> {
    let mut queue = compile_jobs(&chapters_dir.to_string(), manga, &missing.to_vec());
    let mut jobs = Vec::new();
    while let Some(job) = queue.pop() {
        jobs.push(job);
    }
    jobs
}

#[test]
fn missing_is_remote_less_declared_sorted() {
    let remote = vec![chapter(5, "e"), chapter(2, "b"), chapter(4, "d"), chapter(1, "a"), chapter(2, "b2")];
    let declared = vec![record(4), record(9)];
    assert_eq!(missing_chapters(&remote, &declared), vec![1, 2, 5]);
}

#[test]
fn missing_everything_on_first_run() {
    let remote = vec![chapter(1, "a"), chapter(2, "b"), chapter(3, "c")];
    assert_eq!(missing_chapters(&remote, &vec![]), vec![1, 2, 3]);
}

#[test]
fn missing_nothing_when_all_declared() {
    let remote = vec![chapter(1, "a"), chapter(2, "b")];
    assert_eq!(missing_chapters(&remote, &vec![record(2), record(1)]), Vec::<usize>::new());
    assert_eq!(missing_chapters(&vec![], &vec![record(1)]), Vec::<usize>::new());
}

#[test]
fn orphan_directory_stops_the_run() {
    let remote = vec![chapter(1, "a"), chapter(2, "b"), chapter(3, "c")];
    let declared = vec![record(1)];
    let on_disk = vec![1, 3];
    assert_eq!(plan_run(&remote, &declared, &on_disk), Err(MirrorError::ConsistencyViolation(3)));
    assert_eq!(check_consistency(&vec![2, 3], &vec![3, 2]), Err(MirrorError::ConsistencyViolation(2)));
    assert_eq!(check_consistency(&vec![2, 3], &vec![1]), Ok(()));
    assert_eq!(plan_run(&remote, &declared, &vec![1]), Ok(vec![2, 3]));
}

#[test]
fn chapter_directories_from_entry_names() {
    let names = strings(&["1", "03", "x", "12", "name.txt", "0"]);
    assert_eq!(indices_on_disk(&names), vec![1, 12, 0]);
}

#[test]
fn catalog_reverses_and_numbers_from_one() {
    let manga = catalog_from_links(&links(3));
    assert_eq!(manga.chapters.len(), 3);
    for (k, c) in manga.chapters.iter().enumerate() {
        assert_eq!(c.index, k + 1);
        assert_eq!(c.name, format!("Chapter {}", k + 1));
        assert_eq!(
            c.url,
            format!("https://mangapill.com/chapters/{}-10000000/title-chapter-{}", k + 1, k + 1)
        );
        assert!(c.pages.is_none());
    }
}

#[test]
fn pages_resolved_only_when_missing() {
    let mut manga = catalog_from_links(&links(3));
    manga.set_pages(1, strings(&["img0"]));
    assert_eq!(chapters_to_resolve(&manga, &vec![1, 2, 3, 7]), vec![0, 2]);
    assert_eq!(find_chapter(&manga.chapters, 3), Some(2));
    assert_eq!(find_chapter(&manga.chapters, 7), None);
    assert_eq!(manga.chapters[1].pages, Some(strings(&["img0"])));
    assert_eq!(manga.chapters[1].index, 2);
}

#[test]
fn page_files_named_by_position() {
    let mut manga = Manga { chapters: vec![chapter(1, "a"), chapter(2, "b")] };
    manga.set_pages(0, strings(&["img0", "img1", "img2"]));
    manga.set_pages(1, strings(&["q0"]));
    let jobs = drain(&manga, "title/chapters", &[1]);
    let dests: Vec<&str> = jobs.iter().map(|j| j.dest.as_str()).collect();
    assert_eq!(dests, vec!["title/chapters/1/0", "title/chapters/1/1", "title/chapters/1/2"]);
    let urls: Vec<&str> = jobs.iter().map(|j| j.url.as_str()).collect();
    assert_eq!(urls, vec!["img0", "img1", "img2"]);
    assert!(jobs.iter().all(|j| j.referer == "https://mangapill.com/chapters/1"));
    // whichever worker finishes first, the file names follow the page position
    let mut files: Vec<String> = jobs
        .iter()
        .rev()
        .map(|j| page_destination(j, 200, Some("image/png")).unwrap())
        .collect();
    files.reverse();
    assert_eq!(files, vec!["title/chapters/1/0.png", "title/chapters/1/1.png", "title/chapters/1/2.png"]);
}

#[test]
fn jobs_follow_missing_order_and_skip_unknown() {
    let mut manga = Manga { chapters: vec![chapter(1, "a"), chapter(2, "b"), chapter(3, "c")] };
    manga.set_pages(0, strings(&["a0"]));
    manga.set_pages(2, strings(&["c0", "c1"]));
    let jobs = drain(&manga, "m/chapters/", &[3, 5, 1, 2]);
    let dests: Vec<&str> = jobs.iter().map(|j| j.dest.as_str()).collect();
    assert_eq!(dests, vec!["m/chapters/3/0", "m/chapters/3/1", "m/chapters/1/0"]);
    let queue = compile_jobs(&"m/chapters".to_string(), &manga, &vec![]);
    assert_eq!(queue.len(), 0);
}

#[test]
fn media_types_map_to_extensions() {
    assert_eq!(media_extension("image/jpeg"), Some("jpeg"));
    assert_eq!(media_extension("image/png"), Some("png"));
    assert_eq!(media_extension("image/gif"), Some("gif"));
    assert_eq!(media_extension("image/webp"), None);
    assert_eq!(media_extension(""), None);
}

#[test]
fn response_decides_the_page_file() {
    let job = PageJob {
        referer: "https://mangapill.com/chapters/1".to_string(),
        url: "https://cdn.example/1.jpeg".to_string(),
        dest: "t/chapters/1/0".to_string(),
    };
    assert_eq!(page_destination(&job, 200, Some("image/jpeg")), Ok("t/chapters/1/0.jpeg".to_string()));
    assert_eq!(page_destination(&job, 299, Some("image/gif")), Ok("t/chapters/1/0.gif".to_string()));
    assert_eq!(
        page_destination(&job, 200, Some("image/webp")),
        Err(MirrorError::UnsupportedMediaType("image/webp".to_string()))
    );
    assert_eq!(page_destination(&job, 200, None), Err(MirrorError::UnsupportedMediaType(String::new())));
    assert_eq!(page_destination(&job, 404, Some("image/jpeg")), Err(MirrorError::UpstreamFailure(404)));
    assert_eq!(page_destination(&job, 301, None), Err(MirrorError::UpstreamFailure(301)));
    assert_eq!(page_destination(&job, 199, Some("image/png")), Err(MirrorError::UpstreamFailure(199)));
}

#[test]
fn pages_sort_numerically() {
    let names = strings(&["10.png", "2.png", "name.txt", "1.jpeg", "0.gif"]);
    assert_eq!(sort_pages(&names), Ok(strings(&["0.gif", "1.jpeg", "2.png", "10.png"])));
    assert_eq!(sort_pages(&vec![]), Ok(vec![]));
    assert_eq!(sort_pages(&strings(&["name.txt"])), Ok(vec![]));
    assert_eq!(sort_pages(&strings(&["1.png", "cover.png"])), Err(MirrorError::MalformedState));
    assert_eq!(page_position("12.jpeg"), Some(12));
    assert_eq!(page_position("12"), None);
    assert_eq!(page_position(".png"), None);
    assert_eq!(page_position("99999999999999999999999.png"), None);
}

#[test]
fn rewritten_records_follow_the_catalog() {
    let manga = catalog_from_links(&links(2));
    let pages = vec![strings(&["0.png", "1.png"]), strings(&["0.jpeg"])];
    let records = build_records(&manga, &pages);
    assert_eq!(records.len(), 2);
    assert_eq!(records[0].index, 1);
    assert_eq!(records[0].name, "Chapter 1");
    assert_eq!(records[0].pages, strings(&["0.png", "1.png"]));
    assert_eq!(records[0].page_count(), 2);
    assert_eq!(records[1].index, 2);
    assert_eq!(records[1].page_count(), 1);
}

#[test]
fn second_run_has_nothing_to_do() {
    let manga = catalog_from_links(&links(4));
    let pages = vec![strings(&["0.png"]); 4];
    let first = build_records(&manga, &pages);
    assert_eq!(plan_run(&manga.chapters, &first, &vec![1, 2, 3, 4]), Ok(vec![]));
    let second = build_records(&manga, &pages);
    assert_eq!(first.len(), second.len());
    for (a, b) in first.iter().zip(second.iter()) {
        assert_eq!((a.index, &a.name, &a.pages), (b.index, &b.name, &b.pages));
    }
}

#[test]
fn three_chapters_end_to_end() {
    let mut manga = catalog_from_links(&links(3));
    let missing = plan_run(&manga.chapters, &vec![], &vec![]).unwrap();
    assert_eq!(missing, vec![1, 2, 3]);
    let resolved = [vec!["a0", "a1"], vec!["b0"], vec!["c0", "c1", "c2"]];
    for pos in chapters_to_resolve(&manga, &missing) {
        manga.set_pages(pos, strings(&resolved[pos]));
    }
    assert_eq!(chapters_to_resolve(&manga, &missing), Vec::<usize>::new());
    let jobs = drain(&manga, "t/chapters", &missing);
    assert_eq!(jobs.len(), 6);
    let mut on_disk: Vec<Vec<String>> = vec![vec![], vec![], vec![]];
    for job in &jobs {
        let file = page_destination(job, 200, Some("image/jpeg")).unwrap();
        let mut parts = file.rsplitn(3, '/');
        let name = parts.next().unwrap().to_string();
        let chapter: usize = parts.next().unwrap().parse().unwrap();
        on_disk[chapter - 1].push(name);
    }
    let pages: Vec<Vec<String>> = on_disk.iter().map(|names| sort_pages(names).unwrap()).collect();
    let records = build_records(&manga, &pages);
    assert_eq!(records.len(), 3);
    let counts: Vec<usize> = records.iter().map(|r| r.page_count()).collect();
    assert_eq!(counts, vec![2, 1, 3]);
    assert_eq!(records[2].pages, strings(&["0.jpeg", "1.jpeg", "2.jpeg"]));

    let again = catalog_from_links(&links(3));
    let missing = plan_run(&again.chapters, &records, &vec![1, 2, 3]).unwrap();
    assert!(missing.is_empty());
    assert_eq!(drain(&again, "t/chapters", &missing).len(), 0);
}

#[test]
fn shrinking_catalog_deletes_nothing() {
    let records: Vec<ChapterRecord> = (1..=3).map(record).collect();
    let shrunk = catalog_from_links(&links(2));
    let missing = plan_run(&shrunk.chapters, &records, &vec![1, 2, 3]).unwrap();
    assert!(missing.is_empty());
    assert_eq!(drain(&shrunk, "t/chapters", &missing).len(), 0);
    assert_eq!(records.len(), 3);
}
