use vstd::prelude::*;
use vstd::string::*;

verus! {

/// The address that chapter links of the catalog are relative to.
pub const SITE_URL: &'static str = "https://mangapill.com";

/// One chapter of the remote catalog.
///
/// `index` counts from 1, oldest first; `url` is where the chapter's pages are
/// listed; `pages` holds the page image addresses once they have been resolved.
pub struct Chapter {
    pub index: usize,
    pub name: String,
    pub url: String,
    pub pages: Option<Vec<String>>,
}

/// The remote catalog of one title, ordered by chapter index.
pub struct Manga {
    pub chapters: Vec<Chapter>,
}

pub open spec fn texts(v: Seq<String>) -> Seq<Seq<char>> {
    v.map_values(|s: String| s@)
}

/// The resolved page addresses of a chapter, if any.
pub open spec fn pages_of(c: Chapter) -> Option<Seq<Seq<char>>> {
    match c.pages {
        Some(p) => Some(texts(p@)),
        None => None,
    }
}

/// A catalog link as the catalog page lists it: the chapter's name and its
/// address relative to the site.
pub open spec fn link_view(l: (String, String)) -> (Seq<char>, Seq<char>) {
    (l.0@, l.1@)
}

/// The chapter that the catalog built from `links` holds at position `k`:
/// links come newest first, chapters go oldest first and are numbered from 1.
pub open spec fn catalog_chapter_ok(links: Seq<(Seq<char>, Seq<char>)>, c: Chapter, k: int) -> bool {
    let l = links[links.len() - 1 - k];
    &&& c.index == k + 1
    &&& c.name@ == l.0
    &&& c.url@ == SITE_URL@ + l.1
    &&& c.pages is None
}

pub fn copy_texts(v: &Vec<String>) -> (r: Vec<String>)
    ensures
        texts(r@) == texts(v@),
{
    let mut r: Vec<String> = Vec::new();
    let mut i: usize = 0;
    while i < v.len()
        invariant
            i <= v@.len(),
            r@.len() == i,
            texts(r@) == texts(v@).take(i as int),
        decreases v@.len() - i,
    {
        let s = v[i].clone();
        let ghost before = r@;
        r.push(s);
        assert forall|j: int| 0 <= j < i + 1 implies #[trigger] texts(r@)[j] == texts(v@).take(i + 1)[j] by {
            if j < i {
                assert(texts(before)[j] == texts(v@).take(i as int)[j]);
            }
        }
        assert(texts(r@) =~= texts(v@).take(i + 1));
        i = i + 1;
    }
    assert(texts(v@).take(v@.len() as int) =~= texts(v@));
    r
}

/// Builds the catalog from the chapter links in the order the catalog page
/// lists them (newest first).
pub fn catalog_from_links(links: &Vec<(String, String)>) -> (r: Manga)
    ensures
        r.chapters@.len() == links@.len(),
        forall|k: int|
            0 <= k < links@.len() ==> catalog_chapter_ok(
                links@.map_values(|l: (String, String)| link_view(l)),
                #[trigger] r.chapters@[k],
                k,
            ),
{
    let ghost lv = links@.map_values(|l: (String, String)| link_view(l));
    let n = links.len();
    let mut chapters: Vec<Chapter> = Vec::new();
    let mut k: usize = 0;
    while k < n
        invariant
            n == links@.len(),
            lv == links@.map_values(|l: (String, String)| link_view(l)),
            k <= n,
            chapters@.len() == k,
            forall|j: int| 0 <= j < k ==> catalog_chapter_ok(lv, #[trigger] chapters@[j], j),
        decreases n - k,
    {
        let link = &links[n - 1 - k];
        let url = String::from_str(SITE_URL).concat(link.1.as_str());
        let chapter = Chapter { index: k + 1, name: link.0.clone(), url, pages: None };
        chapters.push(chapter);
        k = k + 1;
    }
    Manga { chapters }
}

impl Manga {
    /// Records the resolved pages of the chapter at `pos`.
    pub fn set_pages(&mut self, pos: usize, pages: Vec<String>)
        requires
            pos < old(self).chapters@.len(),
        ensures
            final(self).chapters@.len() == old(self).chapters@.len(),
            forall|j: int|
                0 <= j < old(self).chapters@.len() && j != pos ==> #[trigger] final(self).chapters@[j]
                    == old(self).chapters@[j],
            final(self).chapters@[pos as int].index == old(self).chapters@[pos as int].index,
            final(self).chapters@[pos as int].name == old(self).chapters@[pos as int].name,
            final(self).chapters@[pos as int].url == old(self).chapters@[pos as int].url,
            final(self).chapters@[pos as int].pages == Some(pages),
    {
        let mut chapter = self.chapters.remove(pos);
        chapter.pages = Some(pages);
        self.chapters.insert(pos, chapter);
    }
}

} // verus!
