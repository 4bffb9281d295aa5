use vstd::prelude::*;
use vstd::seq_lib::*;
use vstd::string::*;

use crate::catalog::texts;
use crate::decimal::{all_digits, digits_value, is_digit, parse_digits, same_text};
use crate::error::MirrorError;

verus! {

/// The sidecar file that a chapter directory may hold beside its pages.
pub const NAME_FILE: &'static str = "name.txt";

/// `s` starts with `p` decimal digits followed by a `.`.
pub open spec fn page_stem_len(s: Seq<char>, p: int) -> bool {
    &&& 0 < p < s.len()
    &&& all_digits(s.take(p))
    &&& s[p] == '.'
}

/// The page position that a page file name starts with: `12.png` is page 12.
pub open spec fn page_key(s: Seq<char>) -> Option<nat> {
    if exists|p: int| page_stem_len(s, p) {
        Some(digits_value(s.take(choose|p: int| page_stem_len(s, p))))
    } else {
        None
    }
}

/// The entries of a chapter directory that are page files: all but the sidecar.
pub open spec fn page_files(names: Seq<Seq<char>>) -> Seq<Seq<char>>
    decreases names.len(),
{
    if names.len() == 0 {
        Seq::empty()
    } else if names.last() == NAME_FILE@ {
        page_files(names.drop_last())
    } else {
        page_files(names.drop_last()).push(names.last())
    }
}

/// The name starts with a page position that fits in `usize`.
pub open spec fn keyed(s: Seq<char>) -> bool {
    page_key(s) matches Some(v) && v <= usize::MAX
}

/// Every page file name has a page position that fits in `usize`.
pub open spec fn all_keyed(files: Seq<Seq<char>>) -> bool {
    forall|k: int| 0 <= k < files.len() ==> #[trigger] keyed(files[k])
}

/// `files` is ordered by page position, smallest first.
pub open spec fn ordered_by_key(files: Seq<Seq<char>>) -> bool {
    forall|i: int, j: int|
        0 <= i < j < files.len() ==> page_key(files[i]).unwrap() <= page_key(files[j]).unwrap()
}

proof fn lemma_stem_unique(s: Seq<char>, p: int, q: int)
    requires
        page_stem_len(s, p),
        page_stem_len(s, q),
    ensures
        p == q,
{
    if p < q {
        assert(is_digit(s.take(q)[p]));
    } else if q < p {
        assert(is_digit(s.take(p)[q]));
    }
}

fn char_is_digit(c: char) -> (r: bool)
    ensures
        r == is_digit(c),
{
    '0' <= c && c <= '9'
}

/// Reads the page position at the start of a page file name.
pub fn page_position(name: &str) -> (r: Option<usize>)
    ensures
        r matches Some(v) ==> page_key(name@) == Some(v as nat),
        r is None ==> (page_key(name@) matches Some(v) ==> v > usize::MAX),
{
    let n = name.unicode_len();
    let mut i: usize = 0;
    while i < n && char_is_digit(name.get_char(i))
        invariant
            n == name@.len(),
            i <= n,
            all_digits(name@.take(i as int)),
        decreases n - i,
    {
        assert(name@.take(i + 1) =~= name@.take(i as int).push(name@[i as int]));
        i = i + 1;
    }
    if i == 0 || i >= n || name.get_char(i) != '.' {
        proof {
            if exists|p: int| page_stem_len(name@, p) {
                let p = choose|p: int| page_stem_len(name@, p);
                if p < i {
                    assert(is_digit(name@.take(i as int)[p]));
                } else if p > i {
                    assert(is_digit(name@.take(p)[i as int]));
                }
            }
        }
        return None;
    }
    proof {
        assert(page_stem_len(name@, i as int));
        let p = choose|p: int| page_stem_len(name@, p);
        lemma_stem_unique(name@, p, i as int);
    }
    let stem = name.substring_char(0, i);
    assert(stem@ =~= name@.take(i as int));
    parse_digits(stem)
}

/// Orders the page files of a chapter directory by their page position,
/// numerically (`10.png` after `2.png`), leaving the sidecar out. A page file
/// whose name does not start with its position makes the directory unreadable.
pub fn sort_pages(names: &Vec<String>) -> (r: Result<Vec<String>, MirrorError>)
    ensures
        r is Ok <==> all_keyed(page_files(texts(names@))),
        r is Err ==> r == Err::<Vec<String>, MirrorError>(MirrorError::MalformedState),
        r matches Ok(v) ==> texts(v@).to_multiset() == page_files(texts(names@)).to_multiset()
            && ordered_by_key(texts(v@)),
{
    broadcast use group_to_multiset_ensures;

    let ghost all = texts(names@);
    let mut sorted: Vec<String> = Vec::new();
    let mut keys: Vec<usize> = Vec::new();
    let mut k: usize = 0;
    while k < names.len()
        invariant
            all == texts(names@),
            k <= names@.len(),
            sorted@.len() == keys@.len(),
            forall|i: int| 0 <= i < keys@.len() ==> page_key(#[trigger] sorted@[i]@) == Some(keys@[i] as nat),
            forall|i: int, j: int| 0 <= i < j < keys@.len() ==> keys@[i] <= keys@[j],
            all_keyed(page_files(all.take(k as int))),
            texts(sorted@).to_multiset() == page_files(all.take(k as int)).to_multiset(),
        decreases names@.len() - k,
    {
        let name = &names[k];
        assert(all.take(k + 1).drop_last() =~= all.take(k as int));
        assert(all.take(k + 1).last() == name@);
        if same_text(name.as_str(), NAME_FILE) {
            assert(page_files(all.take(k + 1)) == page_files(all.take(k as int)));
            k = k + 1;
            continue;
        }
        let key = match page_position(name.as_str()) {
            Some(v) => v,
            None => {
                proof {
                    let files = page_files(all.take(k + 1));
                    assert(files.last() == name@);
                    assert(!keyed(files[files.len() - 1]));
                    lemma_page_files_prefix(all, k + 1);
                }
                return Err(MirrorError::MalformedState);
            },
        };
        let mut p: usize = 0;
        while p < keys.len() && keys[p] <= key
            invariant
                p <= keys@.len(),
                forall|j: int| 0 <= j < p ==> keys@[j] <= key,
            decreases keys@.len() - p,
        {
            p = p + 1;
        }
        let ghost before_keys = keys@;
        let ghost before_sorted = sorted@;
        keys.insert(p, key);
        sorted.insert(p, name.clone());
        proof {
            assert(keys@ == before_keys.insert(p as int, key));
            assert(sorted@ == before_sorted.insert(p as int, *name));
            assert forall|i: int| 0 <= i < keys@.len() implies page_key(#[trigger] sorted@[i]@) == Some(
                keys@[i] as nat,
            ) by {
                if i > p {
                    assert(sorted@[i] == before_sorted[i - 1]);
                    assert(keys@[i] == before_keys[i - 1]);
                }
            }
            assert forall|i: int, j: int| 0 <= i < j < keys@.len() implies keys@[i] <= keys@[j] by {
                if i < p && j > p {
                    assert(keys@[j] == before_keys[j - 1]);
                    if p < before_keys.len() {
                        assert(before_keys[p as int] > key);
                        assert(before_keys[p as int] <= before_keys[j - 1]);
                    }
                } else if i == p && j > p {
                    assert(keys@[j] == before_keys[j - 1]);
                    assert(before_keys[p as int] > key);
                    assert(before_keys[p as int] <= before_keys[j - 1]);
                } else if i > p {
                    assert(keys@[i] == before_keys[i - 1]);
                    assert(keys@[j] == before_keys[j - 1]);
                }
            }
            assert(texts(sorted@) =~= texts(before_sorted).insert(p as int, name@));
            let files = page_files(all.take(k + 1));
            assert(files == page_files(all.take(k as int)).push(name@));
            assert(texts(before_sorted).len() == before_sorted.len());
            to_multiset_insert(texts(before_sorted), p as int, name@);
            to_multiset_build(page_files(all.take(k as int)), name@);
            assert(texts(before_sorted).insert(p as int, name@).to_multiset() == texts(
                before_sorted,
            ).to_multiset().insert(name@));
            assert(files.to_multiset() == page_files(all.take(k as int)).to_multiset().insert(name@));
            assert forall|i: int| 0 <= i < files.len() implies #[trigger] keyed(files[i]) by {
                if i < files.len() - 1 {
                    assert(files[i] == page_files(all.take(k as int))[i]);
                }
            }
        }
        k = k + 1;
    }
    assert(all.take(names@.len() as int) =~= all);
    proof {
        assert forall|i: int, j: int| 0 <= i < j < texts(sorted@).len() implies page_key(
            texts(sorted@)[i],
        ).unwrap() <= page_key(texts(sorted@)[j]).unwrap() by {
            assert(page_key(sorted@[i]@) == Some(keys@[i] as nat));
            assert(page_key(sorted@[j]@) == Some(keys@[j] as nat));
        }
    }
    Ok(sorted)
}

/// A page file that breaks `all_keyed` in a prefix breaks it in the whole list.
proof fn lemma_page_files_prefix(all: Seq<Seq<char>>, n: int)
    requires
        0 <= n <= all.len(),
        !all_keyed(page_files(all.take(n))),
    ensures
        !all_keyed(page_files(all)),
    decreases all.len(),
{
    if n < all.len() {
        assert(all.drop_last().take(n) =~= all.take(n));
        lemma_page_files_prefix(all.drop_last(), n);
        let before = page_files(all.drop_last());
        let k = choose|k: int| 0 <= k < before.len() && !#[trigger] keyed(before[k]);
        assert(page_files(all)[k] == before[k]);
    } else {
        assert(all.take(n) =~= all);
    }
}

} // verus!
