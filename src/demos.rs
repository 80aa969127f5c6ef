//! The HTTP demo listing: where a server lists its demos, where a demo is
//! downloaded from, and which words of a listing name demos.
use vstd::prelude::*;
use vstd::string::{StrSliceExecFns, StringExecFns};

verus! {

/// Where a server at `address` lists its demos.
pub open spec fn listing_url(address: Seq<char>) -> Seq<char> {
    "http://"@ + address + "/demo_filenames"@
}

/// Where the demo `filename` of a server at `address` is downloaded from.
pub open spec fn download_url(address: Seq<char>, filename: Seq<char>) -> Seq<char> {
    "http://"@ + address + "/dl/demos/"@ + filename
}

/// The characters with the Unicode property White_Space.
pub open spec fn is_white_space(c: char) -> bool {
    ('\u{9}' <= c && c <= '\u{d}') || c == ' ' || c == '\u{85}' || c == '\u{a0}' || c
        == '\u{1680}' || ('\u{2000}' <= c && c <= '\u{200a}') || c == '\u{2028}' || c
        == '\u{2029}' || c == '\u{202f}' || c == '\u{205f}' || c == '\u{3000}'
}

/// The words of `s`, when the word `cur` has been read just before it.
pub open spec fn words_after(cur: Seq<char>, s: Seq<char>) -> Seq<Seq<char>>
    decreases s.len(),
{
    let done: Seq<Seq<char>> = if cur.len() == 0 {
        seq![]
    } else {
        seq![cur]
    };
    if s.len() == 0 {
        done
    } else if is_white_space(s[0]) {
        done + words_after(seq![], s.drop_first())
    } else {
        words_after(cur.push(s[0]), s.drop_first())
    }
}

/// The words of `s`: its maximal runs of characters that are not white
/// space, in order.
pub open spec fn words(s: Seq<char>) -> Seq<Seq<char>> {
    words_after(seq![], s)
}

/// A demo's name ends in `.mvd`.
pub open spec fn is_demo_name(w: Seq<char>) -> bool {
    w.len() >= 4 && w.skip(w.len() - 4) == seq!['.', 'm', 'v', 'd']
}

/// The demo names among `ws`, in order.
pub open spec fn demo_names(ws: Seq<Seq<char>>) -> Seq<Seq<char>>
    decreases ws.len(),
{
    if ws.len() == 0 {
        seq![]
    } else if is_demo_name(ws.last()) {
        demo_names(ws.drop_last()).push(ws.last())
    } else {
        demo_names(ws.drop_last())
    }
}

/// The texts of a sequence of strings.
pub open spec fn texts(v: Seq<String>) -> Seq<Seq<char>> {
    v.map_values(|s: String| s@)
}

/// Relies on `str::split_whitespace`: the sub-slices of `s` separated by
/// runs of Unicode white space, in order, with no empty ones.
#[verifier::external_body]
fn split_words(s: &str) -> (r: Vec<String>)
    ensures
        texts(r@) == words(s@),
{
    s.split_whitespace().map(|w| w.to_string()).collect()
}

/// The URL of the demo listing of the server at `address`.
pub fn demo_filenames_url(address: &str) -> (r: String)
    ensures
        r@ == listing_url(address@),
{
    let r = String::from_str("http://").concat(address).concat("/demo_filenames");
    r
}

/// The URL to download the demo `filename` from the server at `address`.
pub fn filename_to_url(address: &str, filename: &str) -> (r: String)
    ensures
        r@ == download_url(address@, filename@),
{
    let r = String::from_str("http://").concat(address).concat("/dl/demos/").concat(filename);
    r
}

fn is_demo_filename(name: &str) -> (r: bool)
    ensures
        r == is_demo_name(name@),
{
    let n = name.unicode_len();
    if n < 4 {
        return false;
    }
    let r = name.get_char(n - 4) == '.' && name.get_char(n - 3) == 'm' && name.get_char(n - 2)
        == 'v' && name.get_char(n - 1) == 'd';
    if r {
        assert(name@.skip(n - 4) =~= seq!['.', 'm', 'v', 'd']);
    } else {
        assert(name@.skip(n - 4) != seq!['.', 'm', 'v', 'd']) by {
            if name@.skip(n - 4) == seq!['.', 'm', 'v', 'd'] {
                assert(name@.skip(n - 4)[0] == name@[n - 4]);
                assert(name@.skip(n - 4)[1] == name@[n - 3]);
                assert(name@.skip(n - 4)[2] == name@[n - 2]);
                assert(name@.skip(n - 4)[3] == name@[n - 1]);
            }
        }
    }
    r
}

/// The demo filenames in a listing body: its white-space separated words
/// that end in `.mvd`, in the order they appear.
pub fn demo_filenames_from_body(body: &str) -> (r: Vec<String>)
    ensures
        texts(r@) == demo_names(words(body@)),
{
    let all = split_words(body);
    let ghost ws = words(body@);
    let mut r: Vec<String> = Vec::new();
    let mut i: usize = 0;
    while i < all.len()
        invariant
            i <= all.len(),
            texts(all@) == ws,
            texts(r@) == demo_names(ws.take(i as int)),
        decreases all.len() - i,
    {
        let name = all[i].clone();
        assert(ws.take(i + 1).drop_last() =~= ws.take(i as int));
        assert(ws[i as int] == all@[i as int]@);
        if is_demo_filename(name.as_str()) {
            r.push(name);
            assert(texts(r@) =~= texts(r@.drop_last()).push(ws[i as int]));
        }
        i = i + 1;
    }
    assert(ws.take(all.len() as int) =~= ws);
    r
}

/// The download URLs of `filenames` on the server at `address`, in the same
/// order.
pub fn demo_urls_from_filenames(address: &str, filenames: &Vec<String>) -> (r: Vec<String>)
    ensures
        r.len() == filenames.len(),
        forall|i: int|
            0 <= i < r.len() ==> #[trigger] r@[i]@ == download_url(address@, filenames@[i]@),
{
    let mut r: Vec<String> = Vec::new();
    let mut i: usize = 0;
    while i < filenames.len()
        invariant
            i <= filenames.len(),
            r.len() == i,
            forall|j: int|
                0 <= j < i ==> #[trigger] r@[j]@ == download_url(address@, filenames@[j]@),
        decreases filenames.len() - i,
    {
        r.push(filename_to_url(address, filenames[i].as_str()));
        i = i + 1;
    }
    r
}

/// Decides whether a listing response may be read: a response whose status
/// is not a success is refused with a message that names `url`.
pub fn fetch_status(url: &str, success: bool) -> (r: Result<(), String>)
    ensures
        r is Ok <==> success,
        r matches Err(m) ==> m@ == "qtvstat::demo_filenames: unable to fetch "@ + url@,
{
    if success {
        Ok(())
    } else {
        Err(String::from_str("qtvstat::demo_filenames: unable to fetch ").concat(url))
    }
}

} // verus!
