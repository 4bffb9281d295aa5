use swadloon::decimal::{decimal_string, parse_decimal, parse_digits, parse_usize, same_text};
use swadloon::paths::{chapter_dir, create_paths, join_path, page_file};
use swadloon::sanitize_name;
use swadloon::site::{manga_id_from_href, manga_url, parse_choice, path_piece, search_results, search_url};

#[test]
fn decimal_forms() {
    assert_eq!(decimal_string(0), "0");
    assert_eq!(decimal_string(7), "7");
    assert_eq!(decimal_string(1204), "1204");
    assert_eq!(decimal_string(usize::MAX), usize::MAX.to_string());
    assert_eq!(parse_decimal("12"), Some(12));
    assert_eq!(parse_decimal("0"), Some(0));
    assert_eq!(parse_decimal("007"), None);
    assert_eq!(parse_decimal(""), None);
    assert_eq!(parse_decimal("1a"), None);
    assert_eq!(parse_digits("007"), Some(7));
    assert_eq!(parse_digits("18446744073709551616"), None);
    assert_eq!(parse_usize("+42"), Some(42));
    assert_eq!(parse_usize("42"), Some(42));
    assert_eq!(parse_usize("+"), None);
    assert_eq!(parse_usize(" 4"), None);
    assert!(same_text("abc", "abc"));
    assert!(!same_text("abc", "abd"));
}

#[test]
fn title_paths() {
    let p = create_paths(&"base".to_string());
    assert_eq!(p.chapters_dir, "base/chapters");
    assert_eq!(p.manga_metadata, "base/manga.json");
    let p = create_paths(&"base/".to_string());
    assert_eq!(p.chapters_dir, "base/chapters");
    let p = create_paths(&String::new());
    assert_eq!(p.chapters_dir, "chapters");
    assert_eq!(join_path("/a/b", "c"), "/a/b/c");
    assert_eq!(chapter_dir("t/chapters", 42), "t/chapters/42");
    assert_eq!(page_file("t/chapters/42/3", "gif"), "t/chapters/42/3.gif");
}

#[test]
fn sanitized_directory_names() {
    assert_eq!(sanitize_name("Hello World: Part 2!"), "Hello_World_Part_2");
    assert_eq!(sanitize_name("..One / Two.."), "One_Two");
    assert_eq!(sanitize_name("plain"), "plain");
    assert_eq!(sanitize_name(""), "");
    assert_eq!(sanitize_name("._-"), "");
    assert_eq!(sanitize_name("a__b\u{3000}c"), "a_b_c");
    assert_eq!(sanitize_name("x-y.z"), "x-y.z");
}

#[test]
fn site_addresses() {
    assert_eq!(search_url("one piece"), "https://mangapill.com/search?q=one%20piece&type=manga&status=");
    assert_eq!(search_url(""), "https://mangapill.com/search?q=&type=manga&status=");
    assert_eq!(search_url("a-b_c.d~e&f/\u{e9}"), "https://mangapill.com/search?q=a-b_c.d~e%26f%2F%C3%A9&type=manga&status=");
    assert_eq!(manga_url(2), "https://mangapill.com/manga/2");
}

#[test]
fn ids_from_result_links() {
    assert_eq!(manga_id_from_href("/manga/1234/one-piece"), Some(1234));
    assert_eq!(manga_id_from_href("/manga/77"), Some(77));
    assert_eq!(manga_id_from_href("/manga/x1/name"), None);
    assert_eq!(manga_id_from_href("/manga"), None);
    assert_eq!(manga_id_from_href("/manga//name"), None);
    assert_eq!(manga_id_from_href("/manga/+5/x"), Some(5));
    assert_eq!(manga_id_from_href("/manga/+/x"), None);
    assert_eq!(manga_id_from_href("/manga/-5/x"), None);
    assert_eq!(path_piece("a/b/c", 1), Some("b"));
    assert_eq!(path_piece("a/b/c", 3), None);
    let links = vec![
        ("/manga/2/b".to_string(), "B".to_string()),
        ("/manga/10/a".to_string(), "A".to_string()),
    ];
    let found = search_results(&links).unwrap();
    assert_eq!((found[0].id, found[0].name.as_str()), (2, "B"));
    assert_eq!((found[1].id, found[1].name.as_str()), (10, "A"));
    assert!(search_results(&vec![("/oops".to_string(), "C".to_string())]).is_none());
}

#[test]
fn menu_choices() {
    assert_eq!(parse_choice("2\n", 3), Some(1));
    assert_eq!(parse_choice("  1 ", 1), Some(0));
    assert_eq!(parse_choice("0", 3), None);
    assert_eq!(parse_choice("4", 3), None);
    assert_eq!(parse_choice("two", 3), None);
    assert_eq!(parse_choice("", 3), None);
    assert_eq!(parse_choice("+2\n", 3), Some(1));
    assert_eq!(parse_choice("\u{3000}3\u{a0}", 3), Some(2));
    assert_eq!(parse_choice("++2", 3), None);
}
