use vstd::prelude::*;
use vstd::string::*;
use vstd::utf8::encode_utf8;

use crate::catalog::SITE_URL;
use crate::decimal::{decimal, decimal_string, parse_usize, reads_as_usize};

verus! {

/// Unicode's White_Space property: what `char::is_whitespace`, `str::trim`
/// and regex's `\s` go by.
pub open spec fn is_white_space(c: char) -> bool {
    let u = c as u32;
    ||| 0x9 <= u <= 0xD
    ||| u == 0x20
    ||| u == 0x85
    ||| u == 0xA0
    ||| u == 0x1680
    ||| 0x2000 <= u <= 0x200A
    ||| u == 0x2028
    ||| u == 0x2029
    ||| u == 0x202F
    ||| u == 0x205F
    ||| u == 0x3000
}

/// `s` without the characters that satisfy `p` at its start.
pub open spec fn strip_start(s: Seq<char>, p: spec_fn(char) -> bool) -> Seq<char>
    decreases s.len(),
{
    if s.len() > 0 && p(s[0]) {
        strip_start(s.drop_first(), p)
    } else {
        s
    }
}

/// `s` without the characters that satisfy `p` at its end.
pub open spec fn strip_end(s: Seq<char>, p: spec_fn(char) -> bool) -> Seq<char>
    decreases s.len(),
{
    if s.len() > 0 && p(s.last()) {
        strip_end(s.drop_last(), p)
    } else {
        s
    }
}

/// `s` without the characters that satisfy `p` at either end.
pub open spec fn strip_both(s: Seq<char>, p: spec_fn(char) -> bool) -> Seq<char> {
    strip_end(strip_start(s, p), p)
}

/// A line of input without leading and trailing white space.
pub open spec fn trimmed(s: Seq<char>) -> Seq<char> {
    strip_both(s, |c: char| is_white_space(c))
}

/// The bytes that percent-encoding leaves as they are: ASCII letters and
/// digits, `-`, `.`, `_` and `~`.
pub open spec fn url_safe_byte(b: u8) -> bool {
    ||| 48 <= b <= 57
    ||| 65 <= b <= 90
    ||| 97 <= b <= 122
    ||| b == 45
    ||| b == 46
    ||| b == 95
    ||| b == 126
}

/// An upper-case hexadecimal digit.
pub open spec fn hex_digit(d: u8) -> char {
    if d < 10 {
        ((d + 48) as u8) as char
    } else {
        ((d + 55) as u8) as char
    }
}

/// One byte percent-encoded.
pub open spec fn byte_text(b: u8) -> Seq<char> {
    if url_safe_byte(b) {
        seq![b as char]
    } else {
        seq!['%', hex_digit(b / 16), hex_digit(b % 16)]
    }
}

pub open spec fn percent_encoded(bytes: Seq<u8>) -> Seq<char>
    decreases bytes.len(),
{
    if bytes.len() == 0 {
        Seq::empty()
    } else {
        percent_encoded(bytes.drop_last()) + byte_text(bytes.last())
    }
}

/// A query string percent-encoded byte by byte over its UTF-8 form.
pub open spec fn url_encoded(s: Seq<char>) -> Seq<char> {
    percent_encoded(encode_utf8(s))
}

/// Characters that may not stand in a directory name.
pub const UNSAFE_CHARS: &'static str = r#"[\\/<>:;"'|?!*{}#%&^+,~\s]"#;

/// Runs of two or more underscores.
pub const UNDERSCORE_RUNS: &'static str = r#"__+"#;

/// Underscores, dashes and dots at either end.
pub const EDGE_PUNCTUATION: &'static str = r#"^[_\-.]+|[_\-.]+$"#;

/// A character of the class `UNSAFE_CHARS`.
pub open spec fn unsafe_in_name(c: char) -> bool {
    ||| c == '\\' || c == '/' || c == '<' || c == '>' || c == ':' || c == ';'
    ||| c == '"' || c == '\'' || c == '|' || c == '?' || c == '!' || c == '*'
    ||| c == '{' || c == '}' || c == '#' || c == '%' || c == '&' || c == '^'
    ||| c == '+' || c == ',' || c == '~'
    ||| is_white_space(c)
}

/// A character of the class in `EDGE_PUNCTUATION`.
pub open spec fn edge_punctuation(c: char) -> bool {
    c == '_' || c == '-' || c == '.'
}

/// `_`, `-` and `.` cut from both ends.
pub open spec fn edges_stripped(s: Seq<char>) -> Seq<char> {
    strip_both(s, |c: char| edge_punctuation(c))
}

/// Every unsafe character replaced by `_`.
pub open spec fn unsafe_replaced(s: Seq<char>) -> Seq<char> {
    s.map_values(|c: char| if unsafe_in_name(c) { '_' } else { c })
}

/// Every run of underscores shrunk to one.
pub open spec fn runs_collapsed(s: Seq<char>) -> Seq<char>
    decreases s.len(),
{
    if s.len() == 0 {
        s
    } else if s.last() == '_' && s.len() >= 2 && s[s.len() - 2] == '_' {
        runs_collapsed(s.drop_last())
    } else {
        runs_collapsed(s.drop_last()).push(s.last())
    }
}

/// One of the three replacements that names are made with.
pub open spec fn fixed_replacement(pattern: Seq<char>, rep: Seq<char>) -> bool {
    ||| pattern == UNSAFE_CHARS@ && rep == "_"@
    ||| pattern == UNDERSCORE_RUNS@ && rep == "_"@
    ||| pattern == EDGE_PUNCTUATION@ && rep == ""@
}

/// What one of the three replacements makes of `text`.
pub open spec fn replaced_text(pattern: Seq<char>, text: Seq<char>) -> Seq<char> {
    if pattern == UNSAFE_CHARS@ {
        unsafe_replaced(text)
    } else if pattern == UNDERSCORE_RUNS@ {
        runs_collapsed(text)
    } else {
        edges_stripped(text)
    }
}

/// Relies on `regex::Regex::new`, which compiles `pattern` or reports it
/// invalid, and `Regex::replace_all`, which replaces each non-overlapping
/// match in `text`, leftmost first, by `rep` (here free of `$` references).
/// The three patterns of this library compile, and their matches are: any one
/// character of the class; a run of two or more `_`; a run of `_`, `-`, `.`
/// at the start, or one at the end (a text of such characters alone is one
/// match).
#[verifier::external_body]
fn replace_all_matches(pattern: &str, text: &str, rep: &str) -> (r: Option<String>)
    ensures
        r is Some <== fixed_replacement(pattern@, rep@),
        r matches Some(s) ==> (fixed_replacement(pattern@, rep@) ==> s@ == replaced_text(pattern@, text@)),
{
    match regex::Regex::new(pattern) {
        Ok(re) => Some(re.replace_all(text, rep).into_owned()),
        Err(_) => None,
    }
}

/// Relies on `urlencoding::encode`: percent-encodes every byte of the UTF-8
/// form except ASCII letters, digits and `-`, `_`, `.`, `~`, with upper-case
/// hexadecimal digits.
#[verifier::external_body]
fn url_encode(s: &str) -> (r: String)
    ensures
        r@ == url_encoded(s@),
{
    urlencoding::encode(s).into_owned()
}

/// Relies on `str::trim`: the input without leading and trailing characters
/// of Unicode's White_Space property.
#[verifier::external_body]
fn trim_text(s: &str) -> (r: &str)
    ensures
        r@ == trimmed(s@),
{
    s.trim()
}

/// A title turned into a directory name: unsafe characters become `_`, runs of
/// `_` shrink to one, and `_`, `-`, `.` are cut from both ends.
pub open spec fn sanitized(name: Seq<char>) -> Seq<char> {
    edges_stripped(runs_collapsed(unsafe_replaced(name)))
}

/// Turns a title into a name that is safe for a directory.
pub fn sanitize_name(name: &str) -> (r: String)
    ensures
        r@ == sanitized(name@),
{
    proof {
        reveal_strlit("_");
        reveal_strlit("");
        reveal_strlit(r#"[\\/<>:;"'|?!*{}#%&^+,~\s]"#);
        reveal_strlit(r#"__+"#);
        reveal_strlit(r#"^[_\-.]+|[_\-.]+$"#);
    }
    assert(UNSAFE_CHARS@.len() != UNDERSCORE_RUNS@.len());
    assert(UNSAFE_CHARS@.len() != EDGE_PUNCTUATION@.len());
    assert(UNDERSCORE_RUNS@.len() != EDGE_PUNCTUATION@.len());
    let a = replace_all_matches(UNSAFE_CHARS, name, "_").unwrap();
    assert(a@ == unsafe_replaced(name@));
    let b = replace_all_matches(UNDERSCORE_RUNS, a.as_str(), "_").unwrap();
    assert(b@ == runs_collapsed(a@));
    let c = replace_all_matches(EDGE_PUNCTUATION, b.as_str(), "").unwrap();
    assert(c@ == edges_stripped(b@));
    c
}

pub const SEARCH_PREFIX: &'static str = "https://mangapill.com/search?q=";

pub const SEARCH_SUFFIX: &'static str = "&type=manga&status=";

/// The address of the site's search for a query.
pub fn search_url(query: &str) -> (r: String)
    ensures
        r@ == SEARCH_PREFIX@ + url_encoded(query@) + SEARCH_SUFFIX@,
{
    let q = url_encode(query);
    String::from_str(SEARCH_PREFIX).concat(q.as_str()).concat(SEARCH_SUFFIX)
}

/// The address of a title's catalog page.
pub fn manga_url(id: usize) -> (r: String)
    ensures
        r@ == SITE_URL@ + "/manga/"@ + decimal(id as nat),
{
    let d = decimal_string(id);
    String::from_str(SITE_URL).concat("/manga/").concat(d.as_str())
}

/// The number of `/` in `s`.
pub open spec fn slash_count(s: Seq<char>) -> nat
    decreases s.len(),
{
    if s.len() == 0 {
        0
    } else {
        slash_count(s.drop_last()) + if s.last() == '/' {
            1nat
        } else {
            0nat
        }
    }
}

/// `s[a..b]` is piece `n` (counting from zero) of `s` cut at every `/`.
pub open spec fn is_piece(s: Seq<char>, n: nat, a: int, b: int) -> bool {
    &&& 0 <= a <= b <= s.len()
    &&& slash_count(s.take(a)) == n
    &&& (a == 0 || s[a - 1] == '/')
    &&& (b == s.len() || s[b] == '/')
    &&& forall|i: int| a <= i < b ==> s[i] != '/'
}

proof fn lemma_slash_count_grows(s: Seq<char>, i: int, j: int)
    requires
        0 <= i <= j <= s.len(),
    ensures
        slash_count(s.take(i)) <= slash_count(s.take(j)),
        i < j && s[j - 1] == '/' ==> slash_count(s.take(i)) < slash_count(s.take(j)),
    decreases j - i,
{
    if i < j {
        assert(s.take(j).drop_last() =~= s.take(j - 1));
        lemma_slash_count_grows(s, i, j - 1);
    }
}

proof fn lemma_piece_unique(s: Seq<char>, n: nat, a: int, b: int, c: int, d: int)
    requires
        is_piece(s, n, a, b),
        is_piece(s, n, c, d),
    ensures
        a == c && b == d,
{
    if a < c {
        lemma_slash_count_grows(s, a, c);
    } else if c < a {
        lemma_slash_count_grows(s, c, a);
    }
    if b < d {
        assert(s[b] != '/');
    } else if d < b {
        assert(s[d] != '/');
    }
}

/// Piece `n` of `s` cut at every `/`, if `s` has that many pieces.
pub fn path_piece(s: &str, n: usize) -> (r: Option<&str>)
    ensures
        r matches Some(p) ==> exists|a: int, b: int| is_piece(s@, n as nat, a, b) && p@ == s@.subrange(a, b),
        r is None ==> slash_count(s@) < n,
{
    let len = s.unicode_len();
    let mut count: usize = 0;
    let mut i: usize = 0;
    while i < len && count < n
        invariant
            len == s@.len(),
            i <= len,
            count <= n,
            count == slash_count(s@.take(i as int)),
            count == n ==> (i == 0 || s@[i - 1] == '/'),
        decreases len - i,
    {
        assert(s@.take(i + 1).drop_last() =~= s@.take(i as int));
        if s.get_char(i) == '/' {
            count = count + 1;
        }
        i = i + 1;
    }
    if count < n {
        assert(s@.take(len as int) =~= s@);
        return None;
    }
    let start = i;
    let mut j = start;
    while j < len && s.get_char(j) != '/'
        invariant
            len == s@.len(),
            start <= j <= len,
            forall|k: int| start <= k < j ==> s@[k] != '/',
        decreases len - j,
    {
        j = j + 1;
    }
    let p = s.substring_char(start, j);
    assert(is_piece(s@, n as nat, start as int, j as int));
    Some(p)
}

/// `v` is the title id that a search result link such as `/manga/1234/name`
/// carries: its third `/`-separated piece, read as a `usize`.
pub open spec fn href_id(href: Seq<char>, v: nat) -> bool {
    exists|a: int, b: int| is_piece(href, 2, a, b) && reads_as_usize(href.subrange(a, b), v)
}

/// The link carries a title id that fits in `usize`.
pub open spec fn carries_id(href: Seq<char>) -> bool {
    exists|v: nat| href_id(href, v)
}

/// Reads the title id from a search result link.
pub fn manga_id_from_href(href: &str) -> (r: Option<usize>)
    ensures
        r matches Some(v) ==> href_id(href@, v as nat),
        r is None ==> !carries_id(href@),
{
    match path_piece(href, 2) {
        None => {
            proof {
                assert forall|v: nat| !href_id(href@, v) by {
                    if href_id(href@, v) {
                        let (a, b) = choose|a: int, b: int|
                            is_piece(href@, 2, a, b) && reads_as_usize(href@.subrange(a, b), v);
                        lemma_slash_count_grows(href@, a, href@.len() as int);
                        assert(href@.take(href@.len() as int) =~= href@);
                    }
                }
            }
            None
        },
        Some(p) => {
            let r = parse_usize(p);
            proof {
                let (a, b) = choose|a: int, b: int| is_piece(href@, 2, a, b) && p@ == href@.subrange(a, b);
                assert forall|v: nat| #[trigger] href_id(href@, v) implies reads_as_usize(p@, v) by {
                    let (c, d) = choose|c: int, d: int|
                        is_piece(href@, 2, c, d) && reads_as_usize(href@.subrange(c, d), v);
                    lemma_piece_unique(href@, 2, a, b, c, d);
                }
                if r is Some {
                    assert(href_id(href@, r.unwrap() as nat));
                }
            }
            r
        },
    }
}

/// A title that the site's search found.
pub struct SearchResult {
    pub id: usize,
    pub name: String,
}

/// The titles of a search, from the result links as `(href, name)` pairs in
/// page order. `None` when a link carries no title id.
pub fn search_results(links: &Vec<(String, String)>) -> (r: Option<Vec<SearchResult>>)
    ensures
        r matches Some(v) ==> v@.len() == links@.len() && forall|k: int|
            0 <= k < links@.len() ==> href_id(links@[k].0@, (#[trigger] v@[k]).id as nat) && v@[k].name@
                == links@[k].1@,
        r is None ==> exists|k: int| 0 <= k < links@.len() && !carries_id(#[trigger] links@[k].0@),
{
    let mut v: Vec<SearchResult> = Vec::new();
    let mut k: usize = 0;
    while k < links.len()
        invariant
            k <= links@.len(),
            v@.len() == k,
            forall|j: int|
                0 <= j < k ==> href_id(links@[j].0@, (#[trigger] v@[j]).id as nat) && v@[j].name@
                    == links@[j].1@,
        decreases links@.len() - k,
    {
        let link = &links[k];
        match manga_id_from_href(link.0.as_str()) {
            Some(id) => {
                v.push(SearchResult { id, name: link.1.clone() });
            },
            None => {
                return None;
            },
        }
        k = k + 1;
    }
    Some(v)
}

/// The list position picked by a line of menu input: the entry number, which
/// counts from 1, less one.
pub fn parse_choice(input: &str, count: usize) -> (r: Option<usize>)
    ensures
        r matches Some(i) ==> i < count && reads_as_usize(trimmed(input@), (i + 1) as nat),
        r is None ==> forall|v: nat| #[trigger] reads_as_usize(trimmed(input@), v) ==> !(1 <= v <= count),
{
    let t = trim_text(input);
    match parse_usize(t) {
        Some(entry) => {
            if entry >= 1 && entry <= count {
                Some(entry - 1)
            } else {
                proof {
                    assert forall|v: nat| #[trigger] reads_as_usize(trimmed(input@), v) implies !(1 <= v
                        <= count) by {
                        crate::decimal::lemma_reads_unique(trimmed(input@), v, entry as nat);
                    }
                }
                None
            }
        },
        None => None,
    }
}

} // verus!
