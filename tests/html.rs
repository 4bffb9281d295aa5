use swadloon::html::{catalog_from_html, chapter_links, pages_from_html, result_links, search_from_html};

const CATALOG: &str = r#"<html><body>
<div id="chapters">
  <a href="/chapters/3-10003000/t-chapter-3">Chapter 3</a>
  <a href="/chapters/2-10002000/t-chapter-2">Chapter 2</a>
  <a href="/chapters/1-10001000/t-chapter-1">Chapter 1</a>
</div>
<a href="/elsewhere">Not a chapter</a>
</body></html>"#;

#[test]
fn catalog_page_to_chapters() {
    let manga = catalog_from_html(CATALOG).unwrap();
    assert_eq!(manga.chapters.len(), 3);
    assert_eq!(manga.chapters[0].index, 1);
    assert_eq!(manga.chapters[0].name, "Chapter 1");
    assert_eq!(manga.chapters[0].url, "https://mangapill.com/chapters/1-10001000/t-chapter-1");
    assert_eq!(manga.chapters[2].index, 3);
    assert_eq!(manga.chapters[2].name, "Chapter 3");
    assert!(manga.chapters.iter().all(|c| c.pages.is_none()));
}

#[test]
fn catalog_links_in_page_order() {
    let links = chapter_links(CATALOG).unwrap();
    let names: Vec<&str> = links.iter().map(|l| l.0.as_str()).collect();
    assert_eq!(names, vec!["Chapter 3", "Chapter 2", "Chapter 1"]);
    assert_eq!(links[2].1, "/chapters/1-10001000/t-chapter-1");
}

#[test]
fn catalog_link_without_address() {
    assert!(catalog_from_html(r#"<div id="chapters"><a>Chapter 1</a></div>"#).is_none());
    let empty = catalog_from_html("<div id=\"chapters\"></div>").unwrap();
    assert!(empty.chapters.is_empty());
}

#[test]
fn catalog_page_without_chapter_list() {
    assert!(catalog_from_html("<html><body><a href=\"/chapters/1\">Chapter 1</a></body></html>").is_none());
    assert!(catalog_from_html("").is_none());
}

#[test]
fn chapter_page_to_images() {
    let html = r#"<html><body>
<chapter-page><div><img data-src="https://cdn.example/a/1.jpeg" alt="1"></div></chapter-page>
<chapter-page><div><img data-src="https://cdn.example/a/2.jpeg" alt="2"></div></chapter-page>
<img data-src="https://cdn.example/banner.png">
</body></html>"#;
    assert_eq!(
        pages_from_html(html),
        Some(vec!["https://cdn.example/a/1.jpeg".to_string(), "https://cdn.example/a/2.jpeg".to_string()])
    );
    assert_eq!(pages_from_html("<chapter-page><img src=\"x\"></chapter-page>"), None);
    assert_eq!(pages_from_html("<p>no pages</p>"), Some(vec![]));
}

const SEARCH: &str = r#"<html><body>
<div class="container py-3">
  <div class="my-3 grid justify-end gap-3 grid-cols-2 md:grid-cols-3 lg:grid-cols-5">
    <div>
      <a href="/manga/2/one-piece"><img src="cover.jpg"></a>
      <div><a href="/manga/2/one-piece"><div>One Piece</div></a></div>
    </div>
    <div>
      <a href="/manga/+31/two"><img src="cover.jpg"></a>
      <div><a href="/manga/+31/two"><div>Two</div></a></div>
    </div>
  </div>
</div>
</body></html>"#;

#[test]
fn search_page_to_titles() {
    let found = search_from_html(SEARCH).unwrap();
    assert_eq!(found.len(), 2);
    assert_eq!((found[0].id, found[0].name.as_str()), (2, "One Piece"));
    assert_eq!((found[1].id, found[1].name.as_str()), (31, "Two"));
    let links = result_links(SEARCH).unwrap();
    assert_eq!(links[0], ("/manga/2/one-piece".to_string(), "One Piece".to_string()));
}

#[test]
fn search_page_with_incomplete_card() {
    let html = SEARCH.replace("<div>Two</div>", "");
    assert!(result_links(&html).is_none());
    assert!(search_from_html(&html).is_none());
    let bad_id = SEARCH.replace("/manga/+31/two", "/manga/x/two");
    assert!(result_links(&bad_id).is_some());
    assert!(search_from_html(&bad_id).is_none());
    assert_eq!(search_from_html("<p>nothing</p>").map(|v| v.len()), Some(0));
}
