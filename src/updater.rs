//! Release checks: comparing version numbers and collecting the answer of a
//! background check.

use vstd::prelude::*;

use std::sync::mpsc::Receiver;

use crate::scrape::{asset_url_from, extract_json_string, find_asset_url, json_string_field};
use crate::text::{parse_decimal, parsed_decimal, split_pieces, split_text};

verus! {

/// A newer release and where to download it.
#[derive(Clone, Debug)]
pub struct UpdateInfo {
    pub version: String,
    pub download_url: String,
}

/// Relies on `Receiver::try_recv`: the answer, if it has arrived.
#[verifier::external_body]
fn try_take(rx: &Receiver<Option<UpdateInfo>>) -> (r: Option<Option<UpdateInfo>>) {
    rx.try_recv().ok()
}

/// Waits, without blocking, for the answer of a release check that runs
/// elsewhere.
pub struct UpdateChecker {
    result_rx: Receiver<Option<UpdateInfo>>,
}

impl UpdateChecker {
    /// A checker reading the answer from `result_rx`.
    pub fn new(result_rx: Receiver<Option<UpdateInfo>>) -> (r: UpdateChecker) {
        UpdateChecker { result_rx }
    }

    /// `Some(answer)` once the release check has finished (the answer being the newer
    /// release, if any), `None` before.
    pub fn poll(&self) -> (r: Option<Option<UpdateInfo>>) {
        try_take(&self.result_rx)
    }
}

/// The numbers among `pieces`, in order; a piece that is not a `u32` is left out.
pub open spec fn numeric_parts(pieces: Seq<Seq<char>>) -> Seq<u32>
    decreases pieces.len(),
{
    if pieces.len() == 0 {
        Seq::empty()
    } else {
        let front = numeric_parts(pieces.drop_last());
        match parsed_decimal(pieces.last(), u32::MAX as nat) {
            Some(v) => front.push(v as u32),
            None => front,
        }
    }
}

/// The numeric parts of a dotted version string.
pub open spec fn version_numbers(s: Seq<char>) -> Seq<u32> {
    numeric_parts(split_pieces(s, "."@))
}

/// Whether `a` comes strictly before `b` in lexicographic order, a proper
/// prefix coming first.
pub open spec fn numbers_less(a: Seq<u32>, b: Seq<u32>) -> bool
    decreases a.len(),
{
    if a.len() == 0 {
        b.len() > 0
    } else if b.len() == 0 {
        false
    } else if a[0] != b[0] {
        a[0] < b[0]
    } else {
        numbers_less(a.drop_first(), b.drop_first())
    }
}

fn version_parts(s: &str) -> (r: Vec<u32>)
    ensures
        r@ == version_numbers(s@),
{
    proof {
        reveal_strlit(".");
    }
    let pieces = split_text(s, ".");
    let mut out: Vec<u32> = Vec::new();
    let mut i: usize = 0;
    let ghost ps = split_pieces(s@, "."@);
    proof {
        assert(ps.subrange(0, 0) =~= Seq::<Seq<char>>::empty());
    }
    while i < pieces.len()
        invariant
            ps == split_pieces(s@, "."@),
            pieces@.len() == ps.len(),
            forall|k: int| 0 <= k < pieces@.len() ==> (#[trigger] pieces@[k])@ == ps[k],
            i <= pieces@.len(),
            out@ == numeric_parts(ps.subrange(0, i as int)),
        decreases pieces@.len() - i,
    {
        proof {
            assert(ps.subrange(0, i + 1).drop_last() =~= ps.subrange(0, i as int));
            assert(ps.subrange(0, i + 1).last() == pieces@[i as int]@);
        }
        match parse_decimal(pieces[i].as_str(), 4294967295u64) {
            Some(v) => {
                out.push(v as u32);
            },
            None => {},
        }
        i = i + 1;
    }
    proof {
        assert(ps.subrange(0, pieces@.len() as int) =~= ps);
    }
    out
}

proof fn lemma_numbers_less_skip(a: Seq<u32>, b: Seq<u32>, i: int)
    requires
        0 <= i <= a.len(),
        i <= b.len(),
        forall|j: int| 0 <= j < i ==> a[j] == b[j],
    ensures
        numbers_less(a, b) == numbers_less(a.skip(i), b.skip(i)),
    decreases i,
{
    if i > 0 {
        assert(a.drop_first().skip(i - 1) =~= a.skip(i));
        assert(b.drop_first().skip(i - 1) =~= b.skip(i));
        lemma_numbers_less_skip(a.drop_first(), b.drop_first(), i - 1);
    } else {
        assert(a.skip(0) =~= a);
        assert(b.skip(0) =~= b);
    }
}

/// Whether version `remote` is newer than version `local`: their numeric
/// parts compared in order, a version that extends another being newer.
pub fn version_is_newer(remote: &str, local: &str) -> (r: bool)
    ensures
        r == numbers_less(version_numbers(local@), version_numbers(remote@)),
{
    let rv = version_parts(remote);
    let lv = version_parts(local);
    let mut i: usize = 0;
    while i < lv.len() && i < rv.len()
        invariant
            lv@ == version_numbers(local@),
            rv@ == version_numbers(remote@),
            i <= lv@.len(),
            i <= rv@.len(),
            forall|j: int| 0 <= j < i ==> lv@[j] == rv@[j],
        decreases lv@.len() - i,
    {
        if lv[i] != rv[i] {
            proof {
                lemma_numbers_less_skip(lv@, rv@, i as int);
                assert(lv@.skip(i as int)[0] == lv@[i as int]);
                assert(rv@.skip(i as int)[0] == rv@[i as int]);
                let a = lv@.skip(i as int);
                let b = rv@.skip(i as int);
                assert(a.len() > 0 && b.len() > 0 && a[0] != b[0]);
                assert(numbers_less(a, b) == (a[0] < b[0]));
            }
            return lv[i] < rv[i];
        }
        i = i + 1;
    }
    proof {
        lemma_numbers_less_skip(lv@, rv@, i as int);
    }
    i < rv.len()
}

/// `s` without its leading `v`s, as `str::trim_start_matches('v')` leaves it.
pub open spec fn strip_vs(s: Seq<char>) -> Seq<char>
    decreases s.len(),
{
    if s.len() > 0 && s[0] == 'v' {
        strip_vs(s.drop_first())
    } else {
        s
    }
}

fn trim_vs(s: &str) -> (r: String)
    ensures
        r@ == strip_vs(s@),
{
    let n = s.unicode_len();
    let mut i: usize = 0;
    assert(s@.skip(0) =~= s@);
    while i < n && s.get_char(i) == 'v'
        invariant
            n == s@.len(),
            i <= n,
            strip_vs(s@.skip(i as int)) == strip_vs(s@),
        decreases n - i,
    {
        proof {
            assert(s@.skip(i as int).drop_first() =~= s@.skip(i + 1));
        }
        i = i + 1;
    }
    proof {
        if i < n {
            assert(s@.skip(i as int)[0] == s@[i as int]);
        }
        assert(s@.subrange(i as int, n as int) =~= s@.skip(i as int));
    }
    String::from_str(s.substring_char(i, n))
}

/// The release asset name for an operating system, as `std::env::consts::OS`
/// names it.
pub fn platform_asset_name(os: &str) -> (r: &'static str)
    ensures
        os@ == "windows"@ ==> r@ == "x86_64-pc-windows-msvc"@,
        os@ == "linux"@ ==> r@ == "x86_64-unknown-linux-gnu"@,
        os@ == "macos"@ ==> r@ == "aarch64-apple-darwin"@,
        os@ != "windows"@ && os@ != "linux"@ && os@ != "macos"@ ==> r@ == "unknown"@,
{
    proof {
        reveal_strlit("windows");
        reveal_strlit("linux");
        reveal_strlit("macos");
        assert("linux"@.len() != "windows"@.len());
        assert("macos"@.len() != "windows"@.len());
        assert("macos"@[0] != "linux"@[0]);
    }
    let o = String::from_str(os);
    if o == String::from_str("windows") {
        "x86_64-pc-windows-msvc"
    } else if o == String::from_str("linux") {
        "x86_64-unknown-linux-gnu"
    } else if o == String::from_str("macos") {
        "aarch64-apple-darwin"
    } else {
        "unknown"
    }
}

/// What a latest-release answer `body` offers to a program at version
/// `current`: the release's version (its tag without leading `v`s) and the
/// download address of asset `asset`, when that version is newer and such an
/// asset is listed.
pub fn release_update(body: &str, current: &str, asset: &str) -> (r: Option<UpdateInfo>)
    ensures
        json_string_field(body@, "tag_name"@) is None ==> r is None,
        json_string_field(body@, "tag_name"@) matches Some(tag) ==> {
            let v = strip_vs(tag);
            if !numbers_less(version_numbers(current@), version_numbers(v)) {
                r is None
            } else {
                match asset_url_from(body@, asset@, 0) {
                    None => r is None,
                    Some(u) => r matches Some(info) && info.version@ == v && info.download_url@ == u,
                }
            }
        },
{
    let tag = match extract_json_string(body, "tag_name") {
        Some(t) => t,
        None => return None,
    };
    let version = trim_vs(tag.as_str());
    if version_is_newer(version.as_str(), current) {
        match find_asset_url(body, asset) {
            Some(download_url) => Some(UpdateInfo { version, download_url }),
            None => None,
        }
    } else {
        None
    }
}

} // verus!
