//! Moving the selection through the project list, and the choices made when
//! a project is run.

use vstd::prelude::*;
use vstd::arithmetic::div_mod::{lemma_add_mod_noop, lemma_mod_self_0, lemma_small_mod};

use crate::detect::{DetectedProject, ProjectType};
use crate::git_status::{parse_count, parsed_count};
use crate::text::{lowercase_of, split_pieces, split_text, to_lowercase, trim_text, trimmed};

verus! {

/// The selection after moving down a list of `len` items, wrapping at the end.
pub fn next_index(selected: Option<usize>, len: usize) -> (r: Option<usize>)
    ensures
        len == 0 ==> r == selected,
        len > 0 ==> r == Some(
            match selected {
                Some(i) => ((i + 1) % (len as int)) as usize,
                None => 0usize,
            },
        ),
{
    if len == 0 {
        return selected;
    }
    match selected {
        Some(i) => {
            let m = i % len;
            proof {
                lemma_add_mod_noop(i as int, 1, len as int);
                if len == 1 {
                    lemma_mod_self_0(1);
                } else {
                    lemma_small_mod(1, len as nat);
                }
            }
            if m + 1 == len {
                proof {
                    lemma_mod_self_0(len as int);
                    if len == 1 {
                        assert(m == 0);
                    }
                }
                Some(0)
            } else {
                proof {
                    lemma_small_mod((m + 1) as nat, len as nat);
                    lemma_small_mod(m as nat, len as nat);
                    if len == 1 {
                        lemma_mod_self_0(1);
                        assert(m == 0);
                    }
                }
                Some(m + 1)
            }
        },
        None => Some(0),
    }
}

/// The selection after moving up a list of `len` items, wrapping at the top.
pub fn previous_index(selected: Option<usize>, len: usize) -> (r: Option<usize>)
    ensures
        len == 0 ==> r == selected,
        len > 0 ==> r == Some(
            match selected {
                Some(i) => if i == 0 {
                    (len - 1) as usize
                } else {
                    (i - 1) as usize
                },
                None => 0usize,
            },
        ),
{
    if len == 0 {
        return selected;
    }
    match selected {
        Some(i) => if i == 0 {
            Some(len - 1)
        } else {
            Some(i - 1)
        },
        None => Some(0),
    }
}

/// The selection once the item at `removed` is gone and `len` items remain.
pub fn index_after_removal(removed: usize, len: usize) -> (r: Option<usize>)
    ensures
        len == 0 ==> r is None,
        len > 0 && removed >= len ==> r == Some((len - 1) as usize),
        len > 0 && removed < len ==> r == Some(removed),
{
    if len == 0 {
        None
    } else if removed >= len {
        Some(len - 1)
    } else {
        Some(removed)
    }
}

/// The command a project runs with: its own setting, else what detection
/// suggested.
pub fn choose_run_command(own: Option<String>, detected: Option<&DetectedProject>) -> (r: Option<String>)
    ensures
        own is Some ==> r == own,
        own is None ==> r == (match detected {
            Some(d) => d.run_command,
            None => None,
        }),
{
    match own {
        Some(c) => Some(c),
        None => match detected {
            Some(d) => d.run_command.clone(),
            None => None,
        },
    }
}

/// Whether a project gets a port of its own: only JavaScript projects do.
pub fn wants_port(detected: Option<&DetectedProject>) -> (r: bool)
    ensures
        r == (detected matches Some(d) && d.project_type == ProjectType::JavaScript),
{
    match detected {
        Some(d) => d.project_type == ProjectType::JavaScript,
        None => false,
    }
}

/// Directory names a project scan never enters.
pub open spec fn skipped_name(name: Seq<char>) -> bool {
    (name.len() > 0 && name[0] == '.') || name == "node_modules"@ || name == "target"@ || name == "build"@
        || name == "dist"@ || name == "vendor"@ || name == "__pycache__"@
}

/// Whether a project scan skips a directory of this name: hidden ones and
/// dependency or build output directories.
pub fn is_skipped_dir(name: &str) -> (r: bool)
    ensures
        r == skipped_name(name@),
{
    if name.unicode_len() > 0 && name.get_char(0) == '.' {
        return true;
    }
    let n = String::from_str(name);
    n == String::from_str("node_modules") || n == String::from_str("target") || n == String::from_str("build")
        || n == String::from_str("dist") || n == String::from_str("vendor") || n == String::from_str(
        "__pycache__",
    )
}

/// Whether an answer to a yes-or-no question whose default is yes says yes:
/// it is blank, or `y` in either case.
pub fn answers_yes(answer: &str) -> (r: bool)
    ensures
        r == (trimmed(answer@).len() == 0 || lowercase_of(trimmed(answer@)) == "y"@),
{
    let t = trim_text(answer);
    if t.unicode_len() == 0 {
        return true;
    }
    to_lowercase(t.as_str()) == String::from_str("y")
}

/// The zero-based positions that `pieces` choose among `count` items: each
/// piece, trimmed, that reads as a number from 1 to `count`.
pub open spec fn picked(pieces: Seq<Seq<char>>, count: nat) -> Seq<usize>
    decreases pieces.len(),
{
    if pieces.len() == 0 {
        Seq::empty()
    } else {
        let front = picked(pieces.drop_last(), count);
        match parsed_count(trimmed(pieces.last())) {
            Some(n) => if 1 <= n <= count {
                front.push((n - 1) as usize)
            } else {
                front
            },
            None => front,
        }
    }
}

/// The positions an answer chooses among `count` items: `all`, `none`, or
/// numbers from 1 separated by commas.
pub open spec fn import_selection(answer: Seq<char>, count: nat) -> Seq<usize> {
    let t = trimmed(answer);
    if t == "all"@ {
        Seq::new(count, |i: int| i as usize)
    } else if t == "none"@ {
        Seq::empty()
    } else {
        picked(split_pieces(t, ","@), count)
    }
}

/// Reads which of `count` listed items an answer chooses.
pub fn parse_import_selection(answer: &str, count: usize) -> (r: Vec<usize>)
    ensures
        r@ == import_selection(answer@, count as nat),
{
    let t = trim_text(answer);
    let mut out: Vec<usize> = Vec::new();
    if t == String::from_str("all") {
        let mut i: usize = 0;
        while i < count
            invariant
                i <= count,
                out@ == Seq::new(i as nat, |k: int| k as usize),
            decreases count - i,
        {
            out.push(i);
            proof {
                assert(out@ =~= Seq::new((i + 1) as nat, |k: int| k as usize));
            }
            i = i + 1;
        }
        return out;
    }
    if t == String::from_str("none") {
        assert(out@ =~= import_selection(answer@, count as nat));
        return out;
    }
    proof {
        reveal_strlit(",");
    }
    let pieces = split_text(t.as_str(), ",");
    let ghost ps = split_pieces(t@, ","@);
    let mut i: usize = 0;
    proof {
        assert(ps.subrange(0, 0) =~= Seq::<Seq<char>>::empty());
    }
    while i < pieces.len()
        invariant
            ps == split_pieces(t@, ","@),
            pieces@.len() == ps.len(),
            forall|k: int| 0 <= k < pieces@.len() ==> (#[trigger] pieces@[k])@ == ps[k],
            i <= pieces@.len(),
            out@ == picked(ps.subrange(0, i as int), count as nat),
        decreases pieces@.len() - i,
    {
        proof {
            assert(ps.subrange(0, i + 1).drop_last() =~= ps.subrange(0, i as int));
            assert(ps.subrange(0, i + 1).last() == pieces@[i as int]@);
        }
        let piece = trim_text(pieces[i].as_str());
        match parse_count(piece.as_str()) {
            Some(n) => {
                if 1 <= n && n <= count {
                    out.push(n - 1);
                }
            },
            None => {},
        }
        i = i + 1;
    }
    proof {
        assert(ps.subrange(0, pieces@.len() as int) =~= ps);
    }
    out
}

} // verus!
