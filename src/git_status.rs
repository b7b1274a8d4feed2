//! The git status of a working tree, and the reading of git's output into it.

use vstd::prelude::*;
use vstd::string::*;

use crate::text::{parse_decimal, parsed_decimal, split_words, trim_text, trimmed, whitespace_words};

verus! {

/// Branch and change counts of a git working tree.
#[derive(Debug, Clone)]
pub struct GitStatus {
    pub branch: String,
    pub staged: usize,
    pub modified: usize,
    pub untracked: usize,
    pub ahead: usize,
    pub behind: usize,
}

/// Change counts read from `git status --porcelain`.
#[derive(Debug, Clone, Copy, PartialEq, Eq, Structural)]
pub struct ChangeCounts {
    pub staged: usize,
    pub modified: usize,
    pub untracked: usize,
}

pub struct Tally {
    pub staged: nat,
    pub modified: nat,
    pub untracked: nat,
}

pub open spec fn no_changes() -> Tally {
    Tally { staged: 0, modified: 0, untracked: 0 }
}

pub open spec fn plus(a: Tally, b: Tally) -> Tally {
    Tally { staged: a.staged + b.staged, modified: a.modified + b.modified, untracked: a.untracked + b.untracked }
}

/// What one status line counts for. A line of at least two characters has
/// its index column `x` and work-tree column `y`: `x` neither blank nor `?`
/// is a staged change, `y` of `M` or `D` a modified file, `x` of `?` an
/// untracked file. A shorter line counts for nothing.
pub open spec fn line_tally(line: Seq<u8>) -> Tally {
    if line.len() < 2 {
        no_changes()
    } else {
        let x = line[0];
        let y = line[1];
        Tally {
            staged: if x != 0x20 && x != 0x3f { 1 } else { 0 },
            modified: if y == 0x4d || y == 0x44 { 1 } else { 0 },
            untracked: if x == 0x3f { 1 } else { 0 },
        }
    }
}

/// Where the first newline of `s` is.
pub open spec fn newline_at(s: Seq<u8>) -> Option<int>
    decreases s.len(),
{
    if s.len() == 0 {
        None
    } else if s[0] == 0x0a {
        Some(0)
    } else {
        match newline_at(s.drop_first()) {
            Some(k) => Some(k + 1),
            None => None,
        }
    }
}

/// The lines of `s` as `str::lines` cuts them: at each newline, with a
/// carriage return just before the newline dropped, and no empty line
/// after a final newline.
pub open spec fn output_lines(s: Seq<u8>) -> Seq<Seq<u8>>
    decreases s.len(),
{
    if s.len() == 0 {
        Seq::empty()
    } else {
        match newline_at(s) {
            Some(k) => if 0 <= k < s.len() {
                let line = if k > 0 && s[k - 1] == 0x0d {
                    s.take(k - 1)
                } else {
                    s.take(k)
                };
                seq![line] + output_lines(s.skip(k + 1))
            } else {
                seq![s]
            },
            None => seq![s],
        }
    }
}

pub open spec fn lines_tally(lines: Seq<Seq<u8>>) -> Tally
    decreases lines.len(),
{
    if lines.len() == 0 {
        no_changes()
    } else {
        plus(line_tally(lines[0]), lines_tally(lines.drop_first()))
    }
}

/// The change counts of `git status --porcelain` output `s`: the sum of
/// what each of its lines counts for.
pub open spec fn porcelain_tally(s: Seq<u8>) -> Tally {
    lines_tally(output_lines(s))
}

proof fn lemma_lines_tally_front(line: Seq<u8>, rest: Seq<Seq<u8>>)
    ensures
        lines_tally(seq![line] + rest) == plus(line_tally(line), lines_tally(rest)),
{
    assert((seq![line] + rest)[0] == line);
    assert((seq![line] + rest).drop_first() =~= rest);
}

/// Counts the changes listed in `git status --porcelain` output.
pub fn parse_porcelain(s: &[u8]) -> (r: ChangeCounts)
    ensures
        r.staged == porcelain_tally(s@).staged,
        r.modified == porcelain_tally(s@).modified,
        r.untracked == porcelain_tally(s@).untracked,
{
    let n = s.len();
    let mut staged: usize = 0;
    let mut modified: usize = 0;
    let mut untracked: usize = 0;
    let mut i: usize = 0;
    proof {
        assert(s@.skip(0) =~= s@);
    }
    while i < n
        invariant
            n == s@.len(),
            i <= n,
            staged + porcelain_tally(s@.skip(i as int)).staged == porcelain_tally(s@).staged,
            modified + porcelain_tally(s@.skip(i as int)).modified == porcelain_tally(s@).modified,
            untracked + porcelain_tally(s@.skip(i as int)).untracked == porcelain_tally(s@).untracked,
            staged <= i,
            modified <= i,
            untracked <= i,
        decreases n - i,
    {
        let mut j = i;
        proof {
            assert(s@.skip(i as int) =~= s@.skip(j as int));
        }
        while j < n && s[j] != 0x0a
            invariant
                n == s@.len(),
                i <= j <= n,
                match newline_at(s@.skip(j as int)) {
                    Some(k) => newline_at(s@.skip(i as int)) == Some(k + (j - i)),
                    None => newline_at(s@.skip(i as int)) is None,
                },
            decreases n - j,
        {
            proof {
                assert(s@.skip(j as int).drop_first() =~= s@.skip(j + 1));
                assert(s@.skip(j as int)[0] == s@[j as int]);
            }
            j = j + 1;
        }
        let ghost rest = s@.skip(i as int);
        // the line is s[i..end), a carriage return before the newline dropped
        let end = if j < n && j > i && s[j - 1] == 0x0d {
            j - 1
        } else {
            j
        };
        if end - i >= 2 {
            let x = s[i];
            let y = s[i + 1];
            if x != 0x20 && x != 0x3f {
                staged = staged + 1;
            }
            if y == 0x4d || y == 0x44 {
                modified = modified + 1;
            }
            if x == 0x3f {
                untracked = untracked + 1;
            }
        }
        proof {
            let line = s@.subrange(i as int, end as int);
            assert(line.len() >= 2 ==> line[0] == s@[i as int] && line[1] == s@[i + 1]);
            if j < n {
                assert(s@.skip(j as int)[0] == s@[j as int]);
                assert(newline_at(s@.skip(j as int)) == Some(0int));
                let k = j - i;
                assert(newline_at(rest) == Some(k as int));
                assert(rest.skip(k + 1) =~= s@.skip(j + 1));
                if k > 0 && rest[k - 1] == 0x0d {
                    assert(rest.take(k - 1) =~= line);
                } else {
                    assert(rest.take(k as int) =~= line);
                }
                assert(output_lines(rest) == seq![line] + output_lines(s@.skip(j + 1)));
                lemma_lines_tally_front(line, output_lines(s@.skip(j + 1)));
            } else {
                assert(newline_at(s@.skip(j as int)) is None);
                assert(rest =~= line);
                assert(output_lines(rest) == seq![line]);
                lemma_lines_tally_front(line, Seq::<Seq<u8>>::empty());
                assert(output_lines(s@.skip(n as int)) =~= Seq::<Seq<u8>>::empty());
            }
        }
        i = if j < n { j + 1 } else { n };
    }
    proof {
        assert(output_lines(s@.skip(n as int)) =~= Seq::<Seq<u8>>::empty());
    }
    ChangeCounts { staged, modified, untracked }
}

/// A count as `str::parse::<usize>` reads it.
pub open spec fn parsed_count(s: Seq<char>) -> Option<nat> {
    parsed_decimal(s, usize::MAX as nat)
}

pub open spec fn count_or_zero(s: Seq<char>) -> nat {
    match parsed_count(s) {
        Some(v) => v,
        None => 0,
    }
}

/// Reads a decimal count, as `str::parse::<usize>` does.
pub fn parse_count(s: &str) -> (r: Option<usize>)
    ensures
        match r {
            Some(v) => parsed_count(s@) == Some(v as nat),
            None => parsed_count(s@).is_none(),
        },
{
    match parse_decimal(s, usize::MAX as u64) {
        Some(v) => Some(v as usize),
        None => None,
    }
}

/// The commits behind and ahead of upstream, read from the output of
/// `git rev-list --left-right --count @{u}...HEAD`; zeros unless it is
/// exactly two words, and zero for a word that is not a count.
pub fn parse_ahead_behind(text: &str) -> (r: (usize, usize))
    ensures
        whitespace_words(text@).len() == 2 ==> r.0 == count_or_zero(whitespace_words(text@)[0])
            && r.1 == count_or_zero(whitespace_words(text@)[1]),
        whitespace_words(text@).len() != 2 ==> r == (0usize, 0usize),
{
    let words = split_words(text);
    if words.len() != 2 {
        return (0, 0);
    }
    assert(words@[0]@ == whitespace_words(text@)[0]);
    assert(words@[1]@ == whitespace_words(text@)[1]);
    let behind = match parse_count(words[0].as_str()) {
        Some(v) => v,
        None => 0,
    };
    let ahead = match parse_count(words[1].as_str()) {
        Some(v) => v,
        None => 0,
    };
    (behind, ahead)
}

/// The branch named by `git branch --show-current`, trimmed; `HEAD` when it
/// names none (a detached head).
pub open spec fn branch_of(text: Seq<char>) -> Seq<char> {
    if trimmed(text).len() == 0 {
        "HEAD"@
    } else {
        trimmed(text)
    }
}

/// Reads the branch name from the output of `git branch --show-current`.
pub fn branch_from_output(text: &str) -> (r: String)
    ensures
        r@ == branch_of(text@),
{
    let name = trim_text(text);
    if name.unicode_len() == 0 {
        String::from_str("HEAD")
    } else {
        name
    }
}

/// Assembles a status from the outputs of `git branch --show-current`,
/// `git status --porcelain` and, when it succeeded, `git rev-list
/// --left-right --count @{u}...HEAD`.
pub fn status_from_git_output(branch: &str, porcelain: &[u8], upstream: Option<&str>) -> (r: GitStatus)
    ensures
        r.branch@ == branch_of(branch@),
        r.staged == porcelain_tally(porcelain@).staged,
        r.modified == porcelain_tally(porcelain@).modified,
        r.untracked == porcelain_tally(porcelain@).untracked,
        upstream is None ==> r.ahead == 0 && r.behind == 0,
        upstream matches Some(t) ==> (r.behind, r.ahead) == parse_ahead_behind_spec(t@),
{
    let counts = parse_porcelain(porcelain);
    let (behind, ahead) = match upstream {
        Some(t) => parse_ahead_behind(t),
        None => (0, 0),
    };
    GitStatus {
        branch: branch_from_output(branch),
        staged: counts.staged,
        modified: counts.modified,
        untracked: counts.untracked,
        ahead,
        behind,
    }
}

/// The (behind, ahead) pair that `parse_ahead_behind` reads from `text`.
pub open spec fn parse_ahead_behind_spec(text: Seq<char>) -> (usize, usize) {
    let w = whitespace_words(text);
    if w.len() == 2 {
        (count_or_zero(w[0]) as usize, count_or_zero(w[1]) as usize)
    } else {
        (0, 0)
    }
}

} // verus!
