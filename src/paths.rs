use vstd::prelude::*;
use vstd::string::*;

use crate::decimal::{decimal, decimal_string};

verus! {

/// `name` placed under `dir`, with one `/` between them unless `dir` is empty
/// or already ends in one.
pub open spec fn join(dir: Seq<char>, name: Seq<char>) -> Seq<char> {
    if dir.len() == 0 || dir.last() == '/' {
        dir + name
    } else {
        dir + seq!['/'] + name
    }
}

/// `<chapters_dir>/<index>`: the directory that holds one chapter's pages.
pub open spec fn chapter_dir_spec(chapters_dir: Seq<char>, index: nat) -> Seq<char> {
    join(chapters_dir, decimal(index))
}

/// `<chapters_dir>/<index>/<position>`: a page file before its extension is known.
pub open spec fn page_stem(chapters_dir: Seq<char>, index: nat, position: nat) -> Seq<char> {
    join(chapter_dir_spec(chapters_dir, index), decimal(position))
}

/// A page's file once its extension is known.
pub open spec fn with_extension(stem: Seq<char>, ext: Seq<char>) -> Seq<char> {
    stem + seq!['.'] + ext
}

pub fn join_path(dir: &str, name: &str) -> (r: String)
    ensures
        r@ == join(dir@, name@),
{
    let n = dir.unicode_len();
    let mut r = String::from_str(dir);
    if n > 0 && dir.get_char(n - 1) != '/' {
        proof {
            reveal_strlit("/");
        }
        r.append("/");
    }
    r.append(name);
    r
}

pub fn chapter_dir(chapters_dir: &str, index: usize) -> (r: String)
    ensures
        r@ == chapter_dir_spec(chapters_dir@, index as nat),
{
    let name = decimal_string(index);
    join_path(chapters_dir, name.as_str())
}

pub fn page_file(stem: &str, ext: &str) -> (r: String)
    ensures
        r@ == with_extension(stem@, ext@),
{
    proof {
        reveal_strlit(".");
    }
    let mut r = String::from_str(stem);
    r.append(".");
    r.append(ext);
    r
}

/// Where a title's mirror keeps its chapters and its chapter-index document.
pub struct Paths {
    pub chapters_dir: String,
    pub manga_metadata: String,
}

pub fn create_paths(manga_dir: &String) -> (r: Paths)
    ensures
        r.chapters_dir@ == join(manga_dir@, "chapters"@),
        r.manga_metadata@ == join(manga_dir@, "manga.json"@),
{
    let chapters_dir = join_path(manga_dir.as_str(), "chapters");
    let manga_metadata = join_path(manga_dir.as_str(), "manga.json");
    Paths { chapters_dir, manga_metadata }
}

} // verus!
