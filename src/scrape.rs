//! Picking string fields out of JSON text by searching for their keys, the
//! way release and repository listings are read without a full parse.

use vstd::prelude::*;
use vstd::string::*;

use crate::text::{is_space, skip_space, space_char, chars_of, contains_chars, contains_text, find_from, occurs_at, split_pieces, split_text};

verus! {

/// Whether `i` is the first place where `n` occurs in `h`.
pub open spec fn first_at(h: Seq<char>, n: Seq<char>, i: int) -> bool {
    occurs_at(h, n, i) && forall|j: int| 0 <= j < i ==> !#[trigger] occurs_at(h, n, j)
}

/// The first place where `n` occurs in `h`, if any.
pub open spec fn first_index(h: Seq<char>, n: Seq<char>) -> Option<int> {
    if exists|i: int| first_at(h, n, i) {
        Some(choose|i: int| first_at(h, n, i))
    } else {
        None
    }
}

proof fn lemma_first_index(h: Seq<char>, n: Seq<char>, i: int)
    requires
        first_at(h, n, i),
    ensures
        first_index(h, n) == Some(i),
{
    let j = choose|j: int| first_at(h, n, j);
    if j < i {
        assert(!occurs_at(h, n, j));
    } else if i < j {
        assert(!occurs_at(h, n, i));
    }
}

proof fn lemma_no_first_index(h: Seq<char>, n: Seq<char>)
    requires
        forall|j: int| 0 <= j ==> !#[trigger] occurs_at(h, n, j),
    ensures
        first_index(h, n).is_none(),
{
}

proof fn lemma_occurs_skip(h: Seq<char>, n: Seq<char>, k: int, e: int)
    requires
        0 <= k <= h.len(),
        0 <= e,
    ensures
        occurs_at(h.skip(k), n, e) == occurs_at(h, n, k + e),
{
    if occurs_at(h, n, k + e) {
        assert(h.skip(k).subrange(e, e + n.len()) =~= h.subrange(k + e, k + e + n.len()));
    }
    if occurs_at(h.skip(k), n, e) {
        assert(h.skip(k).subrange(e, e + n.len()) =~= h.subrange(k + e, k + e + n.len()));
    }
}

pub open spec fn quote() -> Seq<char> {
    seq!['"']
}

/// The string value after a key: white space, a colon, white space, then a
/// quoted run of characters up to the next quote.
pub open spec fn value_after(rest: Seq<char>) -> Option<Seq<char>> {
    let a = skip_space(rest);
    if a.len() > 0 && a[0] == ':' {
        let b = skip_space(a.drop_first());
        if b.len() > 0 && b[0] == '"' {
            let c = b.drop_first();
            match first_index(c, quote()) {
                Some(e) => Some(c.take(e)),
                None => None,
            }
        } else {
            None
        }
    } else {
        None
    }
}

/// The string value of the first occurrence of `"key"` in `json`.
pub open spec fn json_string_field(json: Seq<char>, key: Seq<char>) -> Option<Seq<char>> {
    let p = quote() + key + quote();
    match first_index(json, p) {
        Some(i) => value_after(json.skip(i + p.len())),
        None => None,
    }
}

/// Skips white space in `h` from `k` on.
fn skip_spaces(h: &Vec<char>, k: usize) -> (r: usize)
    requires
        k <= h@.len(),
    ensures
        k <= r <= h@.len(),
        h@.skip(r as int) == skip_space(h@.skip(k as int)),
{
    let mut i = k;
    while i < h.len() && space_char(h[i])
        invariant
            k <= i <= h@.len(),
            skip_space(h@.skip(i as int)) == skip_space(h@.skip(k as int)),
        decreases h@.len() - i,
    {
        proof {
            assert(h@.skip(i as int).drop_first() =~= h@.skip(i + 1));
        }
        i = i + 1;
    }
    proof {
        if i < h@.len() {
            assert(h@.skip(i as int)[0] == h@[i as int]);
        }
    }
    i
}

fn copy_range(h: &Vec<char>, from: usize, to: usize) -> (r: String)
    requires
        from <= to <= h@.len(),
    ensures
        r@ == h@.subrange(from as int, to as int),
{
    let mut out = String::new();
    let mut i = from;
    while i < to
        invariant
            from <= i <= to,
            to <= h@.len(),
            out@ == h@.subrange(from as int, i as int),
        decreases to - i,
    {
        crate::text::push_char(&mut out, h[i]);
        proof {
            assert(h@.subrange(from as int, i + 1) =~= h@.subrange(from as int, i as int).push(h@[i as int]));
        }
        i = i + 1;
    }
    out
}

/// Reads the string value that follows position `k` of `h` as
/// `value_after` describes.
fn read_value(h: &Vec<char>, k: usize) -> (r: Option<String>)
    requires
        k <= h@.len(),
    ensures
        match r {
            Some(v) => value_after(h@.skip(k as int)) == Some(v@),
            None => value_after(h@.skip(k as int)).is_none(),
        },
{
    let a = skip_spaces(h, k);
    if a >= h.len() || h[a] != ':' {
        proof {
            if a < h@.len() {
                assert(h@.skip(a as int)[0] == h@[a as int]);
            }
        }
        return None;
    }
    proof {
        assert(h@.skip(a as int)[0] == h@[a as int]);
        assert(h@.skip(a as int).drop_first() =~= h@.skip(a + 1));
    }
    let b = skip_spaces(h, a + 1);
    if b >= h.len() || h[b] != '"' {
        proof {
            if b < h@.len() {
                assert(h@.skip(b as int)[0] == h@[b as int]);
            }
        }
        return None;
    }
    let c = b + 1;
    let ghost cs = h@.skip(c as int);
    proof {
        assert(h@.skip(b as int)[0] == h@[b as int]);
        assert(h@.skip(b as int).drop_first() =~= cs);
    }
    let q = vec!['"'];
    proof {
        assert(q@ =~= quote());
    }
    match find_from(h, &q, c) {
        Some(e) => {
            proof {
                let off = e - c;
                assert forall|j: int| 0 <= j < off implies !#[trigger] occurs_at(cs, quote(), j) by {
                    lemma_occurs_skip(h@, quote(), c as int, j);
                    assert(!occurs_at(h@, q@, c + j));
                }
                lemma_occurs_skip(h@, quote(), c as int, off);
                lemma_first_index(cs, quote(), off);
                assert(cs.take(off) =~= h@.subrange(c as int, e as int));
            }
            Some(copy_range(h, c, e))
        },
        None => {
            proof {
                assert forall|j: int| 0 <= j implies !#[trigger] occurs_at(cs, quote(), j) by {
                    lemma_occurs_skip(h@, quote(), c as int, j);
                    assert(!occurs_at(h@, q@, c + j));
                }
                lemma_no_first_index(cs, quote());
            }
            None
        },
    }
}

fn quoted_key(key: &str) -> (r: Vec<char>)
    ensures
        r@ == quote() + key@ + quote(),
{
    let mut p = vec!['"'];
    let k = chars_of(key);
    let mut i: usize = 0;
    while i < k.len()
        invariant
            i <= k@.len(),
            k@ == key@,
            p@ == seq!['"'] + k@.subrange(0, i as int),
        decreases k@.len() - i,
    {
        p.push(k[i]);
        proof {
            assert(k@.subrange(0, i + 1) =~= k@.subrange(0, i as int).push(k@[i as int]));
            assert(seq!['"'] + k@.subrange(0, i + 1) =~= (seq!['"'] + k@.subrange(0, i as int)).push(k@[i as int]));
        }
        i = i + 1;
    }
    p.push('"');
    proof {
        assert(k@.subrange(0, k@.len() as int) =~= k@);
        assert(p@ =~= quote() + key@ + quote());
    }
    p
}

fn field_in(h: &Vec<char>, key: &str) -> (r: Option<String>)
    ensures
        match r {
            Some(v) => json_string_field(h@, key@) == Some(v@),
            None => json_string_field(h@, key@).is_none(),
        },
{
    let p = quoted_key(key);
    let n = h.len();
    match find_from(h, &p, 0) {
        Some(i) => {
            proof {
                lemma_first_index(h@, p@, i as int);
            }
            assert(i + p@.len() <= n);
            read_value(h, i + p.len())
        },
        None => {
            proof {
                lemma_no_first_index(h@, p@);
            }
            None
        },
    }
}

/// The string value of the first `"key"` in `json`: white space, a colon,
/// white space, then the characters between the next two quotes.
pub fn extract_json_string(json: &str, key: &str) -> (r: Option<String>)
    ensures
        match r {
            Some(v) => json_string_field(json@, key@) == Some(v@),
            None => json_string_field(json@, key@).is_none(),
        },
{
    field_in(&chars_of(json), key)
}

/// The key under which a release lists each asset's download address.
pub open spec fn download_key() -> Seq<char> {
    "browser_download_url"@
}

/// The first download address, looking at each `browser_download_url` from
/// position `from` on in turn, whose value (read from that position) holds
/// `asset`.
pub open spec fn asset_url_from(json: Seq<char>, asset: Seq<char>, from: int) -> Option<Seq<char>>
    decreases json.len() - from,
{
    if from < 0 || from > json.len() {
        None
    } else {
        match first_index(json.skip(from), download_key()) {
            Some(p) => if 0 <= p && from + p < json.len() {
                match json_string_field(json.skip(from + p), download_key()) {
                    Some(url) => if contains_text(url, asset) {
                        Some(url)
                    } else {
                        asset_url_from(json, asset, from + p + 1)
                    },
                    None => asset_url_from(json, asset, from + p + 1),
                }
            } else {
                None
            },
            None => None,
        }
    }
}

fn suffix(h: &Vec<char>, from: usize) -> (r: Vec<char>)
    requires
        from <= h@.len(),
    ensures
        r@ == h@.skip(from as int),
{
    let mut out: Vec<char> = Vec::new();
    let mut i = from;
    while i < h.len()
        invariant
            from <= i <= h@.len(),
            out@ == h@.subrange(from as int, i as int),
        decreases h@.len() - i,
    {
        out.push(h[i]);
        proof {
            assert(h@.subrange(from as int, i + 1) =~= h@.subrange(from as int, i as int).push(h@[i as int]));
        }
        i = i + 1;
    }
    assert(out@ =~= h@.skip(from as int));
    out
}

/// The download address of the release asset whose address holds
/// `asset_name`, found by looking at each `browser_download_url` in turn.
pub fn find_asset_url(json: &str, asset_name: &str) -> (r: Option<String>)
    ensures
        match r {
            Some(u) => asset_url_from(json@, asset_name@, 0) == Some(u@),
            None => asset_url_from(json@, asset_name@, 0).is_none(),
        },
{
    let h = chars_of(json);
    let key = chars_of("browser_download_url");
    let asset = chars_of(asset_name);
    let mut from: usize = 0;
    while from <= h.len()
        invariant
            h@ == json@,
            key@ == download_key(),
            asset@ == asset_name@,
            from <= h@.len() + 1,
            asset_url_from(h@, asset@, 0) == asset_url_from(h@, asset@, from as int),
        decreases h@.len() + 1 - from,
    {
        let ghost tail = h@.skip(from as int);
        match find_from(&h, &key, from) {
            None => {
                proof {
                    assert forall|j: int| 0 <= j implies !#[trigger] occurs_at(tail, download_key(), j) by {
                        lemma_occurs_skip(h@, download_key(), from as int, j);
                        assert(!occurs_at(h@, key@, from + j));
                    }
                    lemma_no_first_index(tail, download_key());
                }
                return None;
            },
            Some(abs) => {
                proof {
                    let off = abs - from;
                    assert forall|j: int| 0 <= j < off implies !#[trigger] occurs_at(tail, download_key(), j) by {
                        lemma_occurs_skip(h@, download_key(), from as int, j);
                        assert(!occurs_at(h@, key@, from + j));
                    }
                    lemma_occurs_skip(h@, download_key(), from as int, off);
                    lemma_first_index(tail, download_key(), off);
                    assert(abs < h@.len()) by {
                        reveal_strlit("browser_download_url");
                    }
                }
                let rest = suffix(&h, abs);
                match field_in(&rest, "browser_download_url") {
                    Some(url) => {
                        let url_chars = chars_of(url.as_str());
                        if contains_chars(&url_chars, &asset) {
                            return Some(url);
                        }
                    },
                    None => {},
                }
                from = abs + 1;
            },
        }
    }
    None
}

/// The value of `"key":"` in compact JSON `item`: the characters up to the
/// next quote.
pub open spec fn compact_field(item: Seq<char>, key: Seq<char>) -> Option<Seq<char>> {
    let p = quote() + key + quote() + seq![':'] + quote();
    match first_index(item, p) {
        Some(i) => {
            let c = item.skip(i + p.len());
            match first_index(c, quote()) {
                Some(e) => Some(c.take(e)),
                None => None,
            }
        },
        None => None,
    }
}

fn compact_pattern(key: &str) -> (r: Vec<char>)
    ensures
        r@ == quote() + key@ + quote() + seq![':'] + quote(),
{
    let mut p = quoted_key(key);
    p.push(':');
    p.push('"');
    proof {
        assert(p@ =~= quote() + key@ + quote() + seq![':'] + quote());
    }
    p
}

/// Reads `"key":"value"` from one item of compact JSON.
pub fn compact_json_string(item: &str, key: &str) -> (r: Option<String>)
    ensures
        match r {
            Some(v) => compact_field(item@, key@) == Some(v@),
            None => compact_field(item@, key@).is_none(),
        },
{
    let h = chars_of(item);
    let p = compact_pattern(key);
    let n = h.len();
    match find_from(&h, &p, 0) {
        Some(i) => {
            proof {
                lemma_first_index(h@, p@, i as int);
            }
            assert(i + p@.len() <= n);
            let c = i + p.len();
            let ghost cs = h@.skip(c as int);
            let q = vec!['"'];
            proof {
                assert(q@ =~= quote());
            }
            match find_from(&h, &q, c) {
                Some(e) => {
                    proof {
                        let off = e - c;
                        assert forall|j: int| 0 <= j < off implies !#[trigger] occurs_at(cs, quote(), j) by {
                            lemma_occurs_skip(h@, quote(), c as int, j);
                            assert(!occurs_at(h@, q@, c + j));
                        }
                        lemma_occurs_skip(h@, quote(), c as int, off);
                        lemma_first_index(cs, quote(), off);
                        assert(cs.take(off) =~= h@.subrange(c as int, e as int));
                    }
                    Some(copy_range(&h, c, e))
                },
                None => {
                    proof {
                        assert forall|j: int| 0 <= j implies !#[trigger] occurs_at(cs, quote(), j) by {
                            lemma_occurs_skip(h@, quote(), c as int, j);
                            assert(!occurs_at(h@, q@, c + j));
                        }
                        lemma_no_first_index(cs, quote());
                    }
                    None
                },
            }
        },
        None => {
            proof {
                lemma_no_first_index(h@, p@);
            }
            None
        },
    }
}

/// The repositories of pieces `items`, in order: those with both a name and
/// an address, the address turned into a clone address.
pub open spec fn repos_of(items: Seq<Seq<char>>) -> Seq<(Seq<char>, Seq<char>)>
    decreases items.len(),
{
    if items.len() == 0 {
        Seq::empty()
    } else {
        let front = repos_of(items.drop_last());
        let it = items.last();
        match (compact_field(it, "name"@), compact_field(it, "url"@)) {
            (Some(n), Some(u)) => front.push((n, u + ".git"@)),
            _ => front,
        }
    }
}

pub open spec fn pairs_view(v: Seq<(String, String)>) -> Seq<(Seq<char>, Seq<char>)> {
    v.map_values(|p: (String, String)| (p.0@, p.1@))
}

/// The (name, clone address) pairs of a `gh repo list --json name,url`
/// answer, read item by item.
pub fn parse_repo_list(json: &str) -> (r: Vec<(String, String)>)
    ensures
        pairs_view(r@) == repos_of(split_pieces(json@, "},"@)),
{
    proof {
        reveal_strlit("},");
    }
    let items = split_text(json, "},");
    let ghost ps = split_pieces(json@, "},"@);
    let mut out: Vec<(String, String)> = Vec::new();
    let mut i: usize = 0;
    proof {
        assert(ps.subrange(0, 0) =~= Seq::<Seq<char>>::empty());
        assert(pairs_view(out@) =~= Seq::<(Seq<char>, Seq<char>)>::empty());
    }
    while i < items.len()
        invariant
            ps == split_pieces(json@, "},"@),
            items@.len() == ps.len(),
            forall|k: int| 0 <= k < items@.len() ==> (#[trigger] items@[k])@ == ps[k],
            i <= items@.len(),
            pairs_view(out@) == repos_of(ps.subrange(0, i as int)),
        decreases items@.len() - i,
    {
        proof {
            assert(ps.subrange(0, i + 1).drop_last() =~= ps.subrange(0, i as int));
            assert(ps.subrange(0, i + 1).last() == items@[i as int]@);
        }
        let name = compact_json_string(items[i].as_str(), "name");
        let url = compact_json_string(items[i].as_str(), "url");
        match (name, url) {
            (Some(n), Some(u)) => {
                let clone_url = u.concat(".git");
                let ghost before = out@;
                out.push((n, clone_url));
                proof {
                    assert(pairs_view(out@) =~= pairs_view(before).push((n@, clone_url@)));
                }
            },
            _ => {},
        }
        i = i + 1;
    }
    proof {
        assert(ps.subrange(0, items@.len() as int) =~= ps);
    }
    out
}

} // verus!
