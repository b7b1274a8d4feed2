//! The bounded buffer that collects a supervised process's output lines.

use vstd::prelude::*;

verus! {

/// How many lines a process's output buffer keeps.
pub const MAX_OUTPUT_LINES: usize = 1000;

/// The last `n` elements of `s`, or all of `s` when it is shorter.
pub open spec fn keep_last<T>(s: Seq<T>, n: nat) -> Seq<T> {
    if s.len() > n {
        s.subrange(s.len() - n, s.len() as int)
    } else {
        s
    }
}

/// The lines of a process's output, most recent last, at most
/// `MAX_OUTPUT_LINES` of them.
#[derive(Debug, Clone)]
pub struct OutputBuffer {
    lines: Vec<String>,
}

/// The buffer contents after appending each of `lines` in turn to an empty buffer.
pub open spec fn buffered(lines: Seq<String>) -> Seq<String>
    decreases lines.len(),
{
    if lines.len() == 0 {
        Seq::empty()
    } else {
        keep_last(buffered(lines.drop_last()).push(lines.last()), MAX_OUTPUT_LINES as nat)
    }
}

impl View for OutputBuffer {
    type V = Seq<String>;

    closed spec fn view(&self) -> Seq<String> {
        self.lines@
    }
}

impl OutputBuffer {
    pub open spec fn wf(&self) -> bool {
        self@.len() <= MAX_OUTPUT_LINES
    }

    pub fn new() -> (r: OutputBuffer)
        ensures
            r@ == Seq::<String>::empty(),
            r.wf(),
    {
        OutputBuffer { lines: Vec::new() }
    }

    /// Appends a line, dropping the oldest one when the buffer is full.
    pub fn push(&mut self, line: String)
        requires
            old(self).wf(),
        ensures
            final(self).wf(),
            final(self)@ == keep_last(old(self)@.push(line), MAX_OUTPUT_LINES as nat),
    {
        self.lines.push(line);
        if self.lines.len() > MAX_OUTPUT_LINES {
            self.lines.remove(0);
            assert(self@ =~= keep_last(old(self)@.push(line), MAX_OUTPUT_LINES as nat));
        }
    }

    /// Appends a line read from the process's standard error, tagged as such.
    pub fn push_stderr(&mut self, line: &str)
        requires
            old(self).wf(),
        ensures
            final(self).wf(),
            exists|tagged: String|
                #[trigger] tagged@ == stderr_tag() + line@ && final(self)@ == keep_last(
                    old(self)@.push(tagged),
                    MAX_OUTPUT_LINES as nat,
                ),
    {
        let tagged = String::from_str("[stderr] ").concat(line);
        self.push(tagged);
    }

    /// A copy of the buffered lines, oldest first.
    pub fn lines(&self) -> (r: Vec<String>)
        ensures
            r@ == self@,
    {
        self.lines.clone()
    }

    pub fn len(&self) -> (r: usize)
        ensures
            r == self@.len(),
    {
        self.lines.len()
    }
}

pub open spec fn stderr_tag() -> Seq<char> {
    "[stderr] "@
}

/// However many lines a process emits, its buffer holds at most
/// `MAX_OUTPUT_LINES` of them, and they are the most recent ones in the
/// order they were emitted.
pub proof fn lemma_output_bounded(lines: Seq<String>)
    ensures
        buffered(lines).len() <= MAX_OUTPUT_LINES,
        buffered(lines) == keep_last(lines, MAX_OUTPUT_LINES as nat),
    decreases lines.len(),
{
    if lines.len() > 0 {
        lemma_output_bounded(lines.drop_last());
        let prev = lines.drop_last();
        let n = MAX_OUTPUT_LINES as nat;
        assert(keep_last(keep_last(prev, n).push(lines.last()), n) =~= keep_last(lines, n));
    } else {
        assert(buffered(lines) =~= keep_last(lines, MAX_OUTPUT_LINES as nat));
    }
}

} // verus!
