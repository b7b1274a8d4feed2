//! Character-level operations on strings.

use vstd::prelude::*;
use vstd::string::*;

use crate::table::names_of_strings;

verus! {

/// Relies on `String::push`: appends one character.
#[verifier::external_body]
pub(crate) fn push_char(s: &mut String, c: char)
    ensures
        final(s)@ == old(s)@.push(c),
{
    s.push(c);
}

/// Relies on `String::pop`: removes the last character, if any.
#[verifier::external_body]
pub(crate) fn pop_char(s: &mut String)
    ensures
        final(s)@ == (if old(s)@.len() > 0 {
            old(s)@.drop_last()
        } else {
            old(s)@
        }),
{
    s.pop();
}

/// The code of `c` with an ASCII capital letter made small.
pub open spec fn ascii_lower(c: char) -> int {
    if 'A' <= c <= 'Z' {
        (c as u32) + 32
    } else {
        c as u32 as int
    }
}

/// Whether `a` and `b` are equal once ASCII letters are folded to one case.
pub open spec fn eq_ignore_ascii_case(a: Seq<char>, b: Seq<char>) -> bool {
    a.len() == b.len() && forall|i: int| 0 <= i < a.len() ==> ascii_lower(#[trigger] a[i]) == ascii_lower(b[i])
}

fn lower_code(c: char) -> (r: u32)
    ensures
        r as int == ascii_lower(c),
{
    if 'A' <= c && c <= 'Z' {
        (c as u32) + 32
    } else {
        c as u32
    }
}

/// Compares two strings ignoring ASCII case.
pub fn same_ignoring_ascii_case(a: &str, b: &str) -> (r: bool)
    ensures
        r == eq_ignore_ascii_case(a@, b@),
{
    let n = a.unicode_len();
    if n != b.unicode_len() {
        return false;
    }
    let mut i: usize = 0;
    while i < n
        invariant
            n == a@.len(),
            n == b@.len(),
            i <= n,
            forall|j: int| 0 <= j < i ==> ascii_lower(#[trigger] a@[j]) == ascii_lower(b@[j]),
        decreases n - i,
    {
        if lower_code(a.get_char(i)) != lower_code(b.get_char(i)) {
            return false;
        }
        i = i + 1;
    }
    true
}

/// Whether `a` comes strictly before `b` in lexicographic order of characters.
pub open spec fn lex_less(a: Seq<char>, b: Seq<char>) -> bool
    decreases a.len(),
{
    if a.len() == 0 {
        b.len() > 0
    } else if b.len() == 0 {
        false
    } else if a[0] != b[0] {
        (a[0] as u32) < (b[0] as u32)
    } else {
        lex_less(a.drop_first(), b.drop_first())
    }
}


proof fn lemma_lex_less_skip(a: Seq<char>, b: Seq<char>, i: int)
    requires
        0 <= i <= a.len(),
        i <= b.len(),
        forall|j: int| 0 <= j < i ==> a[j] == b[j],
    ensures
        lex_less(a, b) == lex_less(a.skip(i), b.skip(i)),
    decreases i,
{
    if i > 0 {
        assert(a.drop_first().skip(i - 1) =~= a.skip(i));
        assert(b.drop_first().skip(i - 1) =~= b.skip(i));
        lemma_lex_less_skip(a.drop_first(), b.drop_first(), i - 1);
    } else {
        assert(a.skip(0) =~= a);
        assert(b.skip(0) =~= b);
    }
}

/// Lexicographic order of characters is transitive.
pub proof fn lemma_lex_less_transitive(a: Seq<char>, b: Seq<char>, c: Seq<char>)
    requires
        lex_less(a, b),
        lex_less(b, c),
    ensures
        lex_less(a, c),
    decreases a.len(),
{
    if a.len() > 0 && b.len() > 0 && c.len() > 0 && a[0] == b[0] && b[0] == c[0] {
        lemma_lex_less_transitive(a.drop_first(), b.drop_first(), c.drop_first());
    }
}

/// Lexicographic order of characters is asymmetric.
pub proof fn lemma_lex_less_asymmetric(a: Seq<char>, b: Seq<char>)
    ensures
        !(lex_less(a, b) && lex_less(b, a)),
    decreases a.len(),
{
    if a.len() > 0 && b.len() > 0 && a[0] == b[0] {
        lemma_lex_less_asymmetric(a.drop_first(), b.drop_first());
    }
}

/// Whether `a` comes strictly before `b`, character by character.
pub fn str_less(a: &str, b: &str) -> (r: bool)
    ensures
        r == lex_less(a@, b@),
{
    let na = a.unicode_len();
    let nb = b.unicode_len();
    let mut i: usize = 0;
    while i < na && i < nb
        invariant
            na == a@.len(),
            nb == b@.len(),
            i <= na,
            i <= nb,
            forall|j: int| 0 <= j < i ==> a@[j] == b@[j],
        decreases na - i,
    {
        let ca = a.get_char(i);
        let cb = b.get_char(i);
        if ca != cb {
            proof {
                lemma_lex_less_skip(a@, b@, i as int);
                assert(a@.skip(i as int)[0] == ca);
                assert(b@.skip(i as int)[0] == cb);
            }
            return (ca as u32) < (cb as u32);
        }
        i = i + 1;
    }
    proof {
        lemma_lex_less_skip(a@, b@, i as int);
    }
    i < nb
}

/// The lower-case form of `s`, as `str::to_lowercase` gives it.
pub uninterp spec fn lowercase_of(s: Seq<char>) -> Seq<char>;

/// Relies on `str::to_lowercase`: the result depends on the characters alone.
#[verifier::external_body]
pub(crate) fn to_lowercase(s: &str) -> (r: String)
    ensures
        r@ == lowercase_of(s@),
{
    s.to_lowercase()
}


pub open spec fn is_digit(c: char) -> bool {
    '0' <= c <= '9'
}

pub open spec fn digit_value(c: char) -> nat {
    ((c as u32) - 48) as nat
}

/// The number written by the decimal digits `s`.
pub open spec fn digits_value(s: Seq<char>) -> nat
    decreases s.len(),
{
    if s.len() == 0 {
        0
    } else {
        digits_value(s.drop_last()) * 10 + digit_value(s.last())
    }
}

pub open spec fn unsigned_digits(s: Seq<char>) -> Seq<char> {
    if s.len() > 0 && s[0] == '+' {
        s.drop_first()
    } else {
        s
    }
}

/// A number as `str::parse` reads it into an unsigned type whose largest
/// value is `max`: an optional `+`, then one or more decimal digits whose
/// value is at most `max`.
pub open spec fn parsed_decimal(s: Seq<char>, max: nat) -> Option<nat> {
    let d = unsigned_digits(s);
    if d.len() > 0 && (forall|i: int| 0 <= i < d.len() ==> is_digit(#[trigger] d[i])) && digits_value(d)
        <= max {
        Some(digits_value(d))
    } else {
        None
    }
}

proof fn lemma_digits_prefix(d: Seq<char>, j: int)
    requires
        0 <= j <= d.len(),
    ensures
        digits_value(d.subrange(0, j)) <= digits_value(d),
    decreases d.len(),
{
    if j < d.len() {
        assert(d.drop_last().subrange(0, j) =~= d.subrange(0, j));
        lemma_digits_prefix(d.drop_last(), j);
    } else {
        assert(d.subrange(0, j) =~= d);
    }
}

/// Reads a decimal number of at most `max`, as `str::parse` does for an
/// unsigned type whose largest value is `max`.
pub fn parse_decimal(s: &str, max: u64) -> (r: Option<u64>)
    ensures
        match r {
            Some(v) => parsed_decimal(s@, max as nat) == Some(v as nat),
            None => parsed_decimal(s@, max as nat).is_none(),
        },
{
    let n = s.unicode_len();
    let mut i: usize = 0;
    if n > 0 && s.get_char(0) == '+' {
        i = 1;
    }
    let start = i;
    let ghost d = unsigned_digits(s@);
    proof {
        assert(d =~= s@.subrange(start as int, n as int));
    }
    if i == n {
        return None;
    }
    let mut v: u64 = 0;
    proof {
        assert(d.subrange(0, 0) =~= Seq::<char>::empty());
    }
    while i < n
        invariant
            start <= i <= n,
            n == s@.len(),
            d == s@.subrange(start as int, n as int),
            d == unsigned_digits(s@),
            d.len() > 0,
            v == digits_value(d.subrange(0, i - start)),
            v <= max,
            forall|k: int| 0 <= k < i - start ==> is_digit(#[trigger] d[k]),
        decreases n - i,
    {
        let c = s.get_char(i);
        proof {
            assert(c == d[i - start]);
            assert(d.subrange(0, i - start + 1).drop_last() =~= d.subrange(0, i - start));
        }
        if !('0' <= c && c <= '9') {
            assert(!is_digit(d[i - start]));
            return None;
        }
        let digit = (c as u32 - 48) as u64;
        let next = match v.checked_mul(10) {
            Some(t) => match t.checked_add(digit) {
                Some(u) => if u <= max {
                    Some(u)
                } else {
                    None
                },
                None => None,
            },
            None => None,
        };
        match next {
            Some(t) => {
                v = t;
            },
            None => {
                proof {
                    let k = i - start;
                    assert(digit as nat == digit_value(d[k]));
                    assert(digits_value(d.subrange(0, k + 1)) == v * 10 + digit);
                    assert(v * 10 + digit > max) by (nonlinear_arith)
                        requires
                            v as int * 10 > u64::MAX || v * 10 + digit > u64::MAX || v * 10 + digit > max,
                            digit >= 0,
                            max <= u64::MAX,
                    ;
                    lemma_digits_prefix(d, k + 1);
                }
                return None;
            },
        }
        i = i + 1;
    }
    proof {
        assert(d.subrange(0, n - start) =~= d);
    }
    Some(v)
}


/// Relies on `str::chars`: the characters of `s`, in order.
#[verifier::external_body]
pub(crate) fn chars_of(s: &str) -> (r: Vec<char>)
    ensures
        r@ == s@,
{
    s.chars().collect()
}

/// Whether `n` occurs in `h` starting at `i`.
pub open spec fn occurs_at(h: Seq<char>, n: Seq<char>, i: int) -> bool {
    0 <= i && i + n.len() <= h.len() && h.subrange(i, i + n.len()) == n
}

/// Whether `n` occurs somewhere in `h`.
pub open spec fn contains_text(h: Seq<char>, n: Seq<char>) -> bool {
    exists|i: int| occurs_at(h, n, i)
}

fn matches_at(h: &Vec<char>, n: &Vec<char>, i: usize) -> (r: bool)
    ensures
        r == occurs_at(h@, n@, i as int),
{
    if i > h.len() || n.len() > h.len() - i {
        return false;
    }
    let mut k: usize = 0;
    while k < n.len()
        invariant
            i + n@.len() <= h@.len(),
            h@.len() <= usize::MAX,
            k <= n@.len(),
            forall|j: int| 0 <= j < k ==> h@[i + j] == n@[j],
        decreases n@.len() - k,
    {
        assert(i + k < h@.len());
        if h[i + k] != n[k] {
            assert(h@.subrange(i as int, i + n@.len())[k as int] != n@[k as int]);
            return false;
        }
        k = k + 1;
    }
    assert(h@.subrange(i as int, i + n@.len()) =~= n@);
    true
}

/// The first place at or after `from` where `n` occurs in `h`.
pub fn find_from(h: &Vec<char>, n: &Vec<char>, from: usize) -> (r: Option<usize>)
    ensures
        match r {
            Some(i) => from <= i && occurs_at(h@, n@, i as int) && forall|j: int|
                from <= j < i ==> !#[trigger] occurs_at(h@, n@, j),
            None => forall|j: int| from <= j ==> !#[trigger] occurs_at(h@, n@, j),
        },
{
    let mut i = from;
    while i <= h.len()
        invariant
            from <= i,
            forall|j: int| from <= j < i ==> !#[trigger] occurs_at(h@, n@, j),
        decreases h@.len() + 1 - i,
    {
        if matches_at(h, n, i) {
            return Some(i);
        }
        if i == h.len() {
            return None;
        }
        i = i + 1;
    }
    None
}

/// Whether `n` occurs in `h`.
pub fn contains_chars(h: &Vec<char>, n: &Vec<char>) -> (r: bool)
    ensures
        r == contains_text(h@, n@),
{
    match find_from(h, n, 0) {
        Some(i) => true,
        None => {
            assert forall|j: int| !occurs_at(h@, n@, j) by {
                if j >= 0 {
                    assert(!occurs_at(h@, n@, j));
                }
            }
            false
        },
    }
}

/// Whether `name` contains `filter`, both in lower case; an empty filter
/// matches every name.
pub fn name_matches(name: &str, filter: &str) -> (r: bool)
    ensures
        r == (filter@.len() == 0 || contains_text(lowercase_of(name@), lowercase_of(filter@))),
{
    if filter.unicode_len() == 0 {
        return true;
    }
    let n = to_lowercase(name);
    let f = to_lowercase(filter);
    contains_chars(&chars_of(n.as_str()), &chars_of(f.as_str()))
}

/// The character of decimal digit `d`.
pub open spec fn digit_char(d: nat) -> char {
    ((d + 48) as u8) as char
}

/// `n` written in decimal, without leading zeros.
pub open spec fn decimal_text(n: nat) -> Seq<char>
    decreases n,
{
    if n < 10 {
        seq![digit_char(n)]
    } else {
        decimal_text(n / 10).push(digit_char(n % 10))
    }
}

/// Appends `n` written in decimal.
pub fn push_decimal(out: &mut String, n: u64)
    ensures
        final(out)@ == old(out)@ + decimal_text(n as nat),
    decreases n,
{
    if n >= 10 {
        push_decimal(out, n / 10);
    }
    let d = (n % 10) as u8;
    push_char(out, (d + 48) as char);
    proof {
        if n >= 10 {
            assert(old(out)@ + decimal_text(n as nat) =~= old(out)@ + decimal_text((n / 10) as nat) + seq![
                digit_char((n % 10) as nat),
            ]);
        }
    }
    assert(final(out)@ =~= old(out)@ + decimal_text(n as nat));
}

/// Whether `s` ends with `t`.
pub open spec fn ends_with(s: Seq<char>, t: Seq<char>) -> bool {
    s.len() >= t.len() && s.subrange(s.len() - t.len(), s.len() as int) == t
}

/// Whether `s` ends with `t`.
pub fn str_ends_with(s: &str, t: &Vec<char>) -> (r: bool)
    ensures
        r == ends_with(s@, t@),
{
    let h = chars_of(s);
    if h.len() < t.len() {
        return false;
    }
    let off = h.len() - t.len();
    let mut k: usize = 0;
    while k < t.len()
        invariant
            h@ == s@,
            off + t@.len() == h@.len(),
            h@.len() <= usize::MAX,
            k <= t@.len(),
            forall|j: int| 0 <= j < k ==> h@[off + j] == t@[j],
        decreases t@.len() - k,
    {
        if h[off + k] != t[k] {
            assert(h@.subrange(off as int, h@.len() as int)[k as int] != t@[k as int]);
            return false;
        }
        k = k + 1;
    }
    assert(h@.subrange(off as int, h@.len() as int) =~= t@);
    true
}

/// Whether `c` is white space in Unicode's sense (the White_Space
/// property), as `char::is_whitespace` tests it.
pub open spec fn is_space(c: char) -> bool {
    let u = c as u32;
    (0x09 <= u <= 0x0d) || u == 0x20 || u == 0x85 || u == 0xa0 || u == 0x1680 || (0x2000 <= u <= 0x200a)
        || u == 0x2028 || u == 0x2029 || u == 0x202f || u == 0x205f || u == 0x3000
}

pub(crate) fn space_char(c: char) -> (r: bool)
    ensures
        r == is_space(c),
{
    let u = c as u32;
    (0x09 <= u && u <= 0x0d) || u == 0x20 || u == 0x85 || u == 0xa0 || u == 0x1680 || (0x2000 <= u && u
        <= 0x200a) || u == 0x2028 || u == 0x2029 || u == 0x202f || u == 0x205f || u == 0x3000
}

/// `s` without its leading white space.
pub open spec fn skip_space(s: Seq<char>) -> Seq<char>
    decreases s.len(),
{
    if s.len() > 0 && is_space(s[0]) {
        skip_space(s.drop_first())
    } else {
        s
    }
}

/// `s` without its trailing white space.
pub open spec fn trim_end_space(s: Seq<char>) -> Seq<char>
    decreases s.len(),
{
    if s.len() > 0 && is_space(s.last()) {
        trim_end_space(s.drop_last())
    } else {
        s
    }
}

/// `s` without leading and trailing white space, as `str::trim` gives it.
pub open spec fn trimmed(s: Seq<char>) -> Seq<char> {
    trim_end_space(skip_space(s))
}

/// Removes leading and trailing white space.
pub fn trim_text(s: &str) -> (r: String)
    ensures
        r@ == trimmed(s@),
{
    let h = chars_of(s);
    let n = h.len();
    let mut i: usize = 0;
    assert(h@.skip(0) =~= h@);
    while i < n && space_char(h[i])
        invariant
            n == h@.len(),
            i <= n,
            skip_space(h@.skip(i as int)) == skip_space(h@),
        decreases n - i,
    {
        assert(h@.skip(i as int).drop_first() =~= h@.skip(i + 1));
        i = i + 1;
    }
    proof {
        if i < n {
            assert(h@.skip(i as int)[0] == h@[i as int]);
        }
        assert(h@.skip(i as int) =~= h@.subrange(i as int, n as int));
    }
    let mut j: usize = n;
    while j > i && space_char(h[j - 1])
        invariant
            n == h@.len(),
            i <= j <= n,
            trim_end_space(h@.subrange(i as int, j as int)) == trim_end_space(h@.subrange(i as int, n as int)),
        decreases j,
    {
        assert(h@.subrange(i as int, j as int).drop_last() =~= h@.subrange(i as int, j - 1));
        j = j - 1;
    }
    let mut out = String::new();
    let mut k = i;
    while k < j
        invariant
            i <= k <= j,
            j <= h@.len(),
            out@ == h@.subrange(i as int, k as int),
        decreases j - k,
    {
        push_char(&mut out, h[k]);
        assert(h@.subrange(i as int, k + 1) =~= h@.subrange(i as int, k as int).push(h@[k as int]));
        k = k + 1;
    }
    proof {
        if j > i {
            assert(h@.subrange(i as int, j as int).last() == h@[j - 1]);
        }
        assert(s@ == h@);
    }
    out
}

/// The first position from `i` on that does not hold white space.
pub open spec fn space_end(s: Seq<char>, i: int) -> int
    decreases s.len() - i,
{
    if i < 0 || i >= s.len() || !is_space(s[i]) {
        i
    } else {
        space_end(s, i + 1)
    }
}

/// The first position from `i` on that holds white space, or the end.
pub open spec fn word_stop(s: Seq<char>, i: int) -> int
    decreases s.len() - i,
{
    if i < 0 || i >= s.len() || is_space(s[i]) {
        i
    } else {
        word_stop(s, i + 1)
    }
}

/// The words of `s` from position `i` on: maximal runs of characters that
/// are not white space.
pub open spec fn words_from(s: Seq<char>, i: int) -> Seq<Seq<char>>
    decreases s.len() - i,
{
    let a = space_end(s, i);
    let b = word_stop(s, a);
    if 0 <= i <= a && a < b <= s.len() {
        seq![s.subrange(a, b)] + words_from(s, b)
    } else {
        Seq::empty()
    }
}

/// The words of `s`, as `str::split_whitespace` yields them.
pub open spec fn whitespace_words(s: Seq<char>) -> Seq<Seq<char>> {
    words_from(s, 0)
}

/// The words of `s`, in order.
pub fn split_words(s: &str) -> (r: Vec<String>)
    ensures
        names_of_strings(r@) == whitespace_words(s@),
{
    let h = chars_of(s);
    let n = h.len();
    let mut out: Vec<String> = Vec::new();
    let mut i: usize = 0;
    proof {
        assert(names_of_strings(out@) + words_from(h@, 0) =~= words_from(h@, 0));
    }
    while i < n
        invariant
            n == h@.len(),
            h@ == s@,
            i <= n,
            names_of_strings(out@) + words_from(h@, i as int) == words_from(h@, 0),
        decreases n - i,
    {
        let mut a = i;
        while a < n && space_char(h[a])
            invariant
                n == h@.len(),
                i <= a <= n,
                space_end(h@, a as int) == space_end(h@, i as int),
            decreases n - a,
        {
            a = a + 1;
        }
        let mut b = a;
        while b < n && !space_char(h[b])
            invariant
                n == h@.len(),
                a <= b <= n,
                word_stop(h@, b as int) == word_stop(h@, a as int),
            decreases n - b,
        {
            b = b + 1;
        }
        if a == b {
            // only white space is left
            proof {
                assert(words_from(h@, i as int) =~= Seq::<Seq<char>>::empty());
                assert(names_of_strings(out@) + words_from(h@, i as int) =~= names_of_strings(out@));
            }
            i = n;
            proof {
                assert(words_from(h@, n as int) =~= Seq::<Seq<char>>::empty());
                assert(names_of_strings(out@) + words_from(h@, n as int) =~= names_of_strings(out@));
            }
        } else {
            let mut word = String::new();
            let mut k = a;
            while k < b
                invariant
                    a <= k <= b,
                    b <= h@.len(),
                    word@ == h@.subrange(a as int, k as int),
                decreases b - k,
            {
                push_char(&mut word, h[k]);
                assert(h@.subrange(a as int, k + 1) =~= h@.subrange(a as int, k as int).push(h@[k as int]));
                k = k + 1;
            }
            let ghost before = out@;
            out.push(word);
            proof {
                assert(words_from(h@, i as int) == seq![h@.subrange(a as int, b as int)] + words_from(h@, b as int));
                assert(names_of_strings(out@) =~= names_of_strings(before).push(h@.subrange(a as int, b as int)));
                assert(names_of_strings(out@) + words_from(h@, b as int) =~= names_of_strings(before)
                    + words_from(h@, i as int));
            }
            i = b;
        }
    }
    proof {
        assert(words_from(h@, n as int) =~= Seq::<Seq<char>>::empty());
        assert(names_of_strings(out@) + words_from(h@, n as int) =~= names_of_strings(out@));
    }
    out
}

/// The first place at or after `i` where `sep` occurs in `s`.
pub open spec fn next_at(s: Seq<char>, sep: Seq<char>, i: int) -> Option<int>
    decreases s.len() + 1 - i,
{
    if i < 0 || i > s.len() {
        None
    } else if occurs_at(s, sep, i) {
        Some(i)
    } else {
        next_at(s, sep, i + 1)
    }
}

proof fn lemma_next_at(s: Seq<char>, sep: Seq<char>, i: int, k: int)
    requires
        0 <= i <= k,
        occurs_at(s, sep, k),
        forall|j: int| i <= j < k ==> !#[trigger] occurs_at(s, sep, j),
    ensures
        next_at(s, sep, i) == Some(k),
    decreases k - i,
{
    if i < k {
        lemma_next_at(s, sep, i + 1, k);
    }
}

proof fn lemma_no_next_at(s: Seq<char>, sep: Seq<char>, i: int)
    requires
        0 <= i,
        forall|j: int| i <= j ==> !#[trigger] occurs_at(s, sep, j),
    ensures
        next_at(s, sep, i) is None,
    decreases s.len() + 1 - i,
{
    if i <= s.len() {
        lemma_no_next_at(s, sep, i + 1);
    }
}

/// The pieces of `s` from `i` on between occurrences of a non-empty `sep`.
pub open spec fn pieces_from(s: Seq<char>, sep: Seq<char>, i: int) -> Seq<Seq<char>>
    decreases s.len() - i,
{
    if i < 0 || i > s.len() || sep.len() == 0 {
        Seq::empty()
    } else {
        match next_at(s, sep, i) {
            Some(k) => if i <= k && k + sep.len() <= s.len() {
                seq![s.subrange(i, k)] + pieces_from(s, sep, k + sep.len())
            } else {
                seq![s.subrange(i, s.len() as int)]
            },
            None => seq![s.subrange(i, s.len() as int)],
        }
    }
}

/// The pieces of `s` between occurrences of `sep`, as `str::split` yields
/// them for a non-empty separator.
pub open spec fn split_pieces(s: Seq<char>, sep: Seq<char>) -> Seq<Seq<char>> {
    pieces_from(s, sep, 0)
}

fn copy_chars(h: &Vec<char>, from: usize, to: usize) -> (r: String)
    requires
        from <= to <= h@.len(),
    ensures
        r@ == h@.subrange(from as int, to as int),
{
    let mut out = String::new();
    let mut k = from;
    while k < to
        invariant
            from <= k <= to,
            to <= h@.len(),
            out@ == h@.subrange(from as int, k as int),
        decreases to - k,
    {
        push_char(&mut out, h[k]);
        assert(h@.subrange(from as int, k + 1) =~= h@.subrange(from as int, k as int).push(h@[k as int]));
        k = k + 1;
    }
    out
}

/// The pieces of `s` between occurrences of the non-empty separator `sep`.
pub fn split_text(s: &str, sep: &str) -> (r: Vec<String>)
    requires
        sep@.len() > 0,
    ensures
        names_of_strings(r@) == split_pieces(s@, sep@),
{
    let h = chars_of(s);
    let p = chars_of(sep);
    let n = h.len();
    let mut out: Vec<String> = Vec::new();
    let mut i: usize = 0;
    proof {
        assert(names_of_strings(out@) + pieces_from(h@, p@, 0) =~= pieces_from(h@, p@, 0));
    }
    while i <= n
        invariant
            n == h@.len(),
            h@ == s@,
            p@ == sep@,
            p@.len() > 0,
            i <= n,
            names_of_strings(out@) + pieces_from(h@, p@, i as int) == pieces_from(h@, p@, 0),
        decreases n + 1 - i,
    {
        let ghost before = out@;
        match find_from(&h, &p, i) {
            Some(k) => {
                proof {
                    lemma_next_at(h@, p@, i as int, k as int);
                }
                assert(k + p@.len() <= n);
                out.push(copy_chars(&h, i, k));
                proof {
                    assert(names_of_strings(out@) =~= names_of_strings(before).push(h@.subrange(i as int, k as int)));
                    assert(names_of_strings(out@) + pieces_from(h@, p@, k + p@.len()) =~= names_of_strings(before)
                        + pieces_from(h@, p@, i as int));
                }
                i = k + p.len();
            },
            None => {
                proof {
                    lemma_no_next_at(h@, p@, i as int);
                }
                out.push(copy_chars(&h, i, n));
                proof {
                    assert(names_of_strings(out@) =~= names_of_strings(before) + pieces_from(h@, p@, i as int));
                }
                return out;
            },
        }
    }
    out
}

/// The lines of `s` from `i` on, as `str::lines` cuts them: at each
/// newline, a carriage return just before it dropped, and no empty line
/// after a final newline.
pub open spec fn lines_from(s: Seq<char>, i: int) -> Seq<Seq<char>>
    decreases s.len() - i,
{
    if i < 0 || i >= s.len() {
        Seq::empty()
    } else {
        match next_at(s, seq!['\n'], i) {
            Some(k) => if i <= k < s.len() {
                let line = if k > i && s[k - 1] == '\r' {
                    s.subrange(i, k - 1)
                } else {
                    s.subrange(i, k)
                };
                seq![line] + lines_from(s, k + 1)
            } else {
                seq![s.subrange(i, s.len() as int)]
            },
            None => seq![s.subrange(i, s.len() as int)],
        }
    }
}

/// The lines of `s`, as `str::lines` yields them.
pub open spec fn text_lines(s: Seq<char>) -> Seq<Seq<char>> {
    lines_from(s, 0)
}

/// The lines of `s`, in order, without their endings.
pub fn split_lines(s: &str) -> (r: Vec<String>)
    ensures
        r@.len() == text_lines(s@).len(),
        forall|i: int| 0 <= i < r@.len() ==> (#[trigger] r@[i])@ == text_lines(s@)[i],
{
    let h = chars_of(s);
    let nl = vec!['\n'];
    assert(nl@ =~= seq!['\n']);
    let n = h.len();
    let mut out: Vec<String> = Vec::new();
    let mut i: usize = 0;
    proof {
        assert(names_of_strings(out@) + lines_from(h@, 0) =~= lines_from(h@, 0));
    }
    while i < n
        invariant
            n == h@.len(),
            h@ == s@,
            nl@ == seq!['\n'],
            i <= n,
            names_of_strings(out@) + lines_from(h@, i as int) == lines_from(h@, 0),
        decreases n - i,
    {
        let ghost before = out@;
        match find_from(&h, &nl, i) {
            Some(k) => {
                proof {
                    lemma_next_at(h@, nl@, i as int, k as int);
                }
                assert(k < n);
                let end = if k > i && h[k - 1] == '\r' { k - 1 } else { k };
                out.push(copy_chars(&h, i, end));
                proof {
                    assert(names_of_strings(out@) =~= names_of_strings(before).push(h@.subrange(i as int, end as int)));
                    assert(names_of_strings(out@) + lines_from(h@, k + 1) =~= names_of_strings(before)
                        + lines_from(h@, i as int));
                }
                i = k + 1;
            },
            None => {
                proof {
                    lemma_no_next_at(h@, nl@, i as int);
                }
                out.push(copy_chars(&h, i, n));
                proof {
                    assert(names_of_strings(out@) =~= names_of_strings(before) + lines_from(h@, i as int));
                    assert(lines_from(h@, n as int) =~= Seq::<Seq<char>>::empty());
                    assert(names_of_strings(out@) + lines_from(h@, n as int) =~= names_of_strings(out@));
                }
                i = n;
            },
        }
    }
    proof {
        assert(lines_from(h@, n as int) =~= Seq::<Seq<char>>::empty());
        assert(names_of_strings(out@) + lines_from(h@, n as int) =~= names_of_strings(out@));
        assert forall|j: int| 0 <= j < out@.len() implies (#[trigger] out@[j])@ == text_lines(s@)[j] by {
            assert(names_of_strings(out@)[j] == out@[j]@);
        }
    }
    out
}

} // verus!
