//! The table of supervised dev-server processes: which names are running,
//! with what handle and port, and which output buffers are kept.
//!
//! Spawning, signalling and waiting on processes happen outside this module;
//! the table is generic over the process handle `H` and the output buffer `B`
//! and records the decisions.

use vstd::prelude::*;

use crate::table::{names_of_strings, NamedTable};
use crate::text::{split_words, whitespace_words};

verus! {

/// A command line cut into the program and its arguments.
#[derive(Debug, Clone)]
pub struct CommandLine {
    pub program: String,
    pub args: Vec<String>,
}

/// Why a process could not be started.
#[derive(Debug, Clone, Copy, PartialEq, Eq, Structural)]
pub enum StartError {
    /// The command holds no word.
    EmptyCommand,
}

/// Makes a command line from its words: the first is the program.
pub fn command_from_words(words: Vec<String>) -> (r: Result<CommandLine, StartError>)
    ensures
        words@.len() == 0 <==> r is Err,
        r matches Err(e) ==> e == StartError::EmptyCommand,
        r matches Ok(c) ==> c.program@ == words@[0]@ && c.args@ == words@.drop_first(),
{
    let mut words = words;
    if words.len() == 0 {
        return Err(StartError::EmptyCommand);
    }
    let program = words.remove(0);
    Ok(CommandLine { program, args: words })
}

/// Cuts `command` at whitespace into a program and its arguments; an empty
/// or all-blank command is refused.
pub fn parse_command(command: &str) -> (r: Result<CommandLine, StartError>)
    ensures
        whitespace_words(command@).len() == 0 <==> r is Err,
        r matches Err(e) ==> e == StartError::EmptyCommand,
        r matches Ok(c) ==> c.program@ == whitespace_words(command@)[0]
            && names_of_strings(c.args@) == whitespace_words(command@).drop_first(),
{
    let words = split_words(command);
    let r = command_from_words(words);
    proof {
        if r is Ok {
            let c = r->Ok_0;
            assert(names_of_strings(c.args@) =~= whitespace_words(command@).drop_first());
        }
    }
    r
}

/// A running process: its handle and the port it was given.
pub struct RunningProcess<H> {
    pub handle: H,
    pub port: Option<u16>,
}

/// The abstract state of a process table.
pub struct SupervisorView<H, B> {
    /// The processes believed to be running, by name.
    pub running: Map<Seq<char>, RunningProcess<H>>,
    /// The output buffers kept, by name; a buffer goes with its process, when
    /// the process is stopped or reaped.
    pub outputs: Map<Seq<char>, B>,
}

/// The state after `start` has spawned a process named `name`.
pub open spec fn after_start<H, B>(
    v: SupervisorView<H, B>,
    name: Seq<char>,
    handle: H,
    port: Option<u16>,
    output: B,
) -> SupervisorView<H, B> {
    SupervisorView {
        running: v.running.insert(name, RunningProcess { handle, port }),
        outputs: v.outputs.insert(name, output),
    }
}

/// The state after `stop(name)`.
pub open spec fn after_stop<H, B>(v: SupervisorView<H, B>, name: Seq<char>) -> SupervisorView<H, B> {
    SupervisorView { running: v.running.remove(name), outputs: v.outputs.remove(name) }
}

/// The state after the processes named in `exited` were seen to have exited.
pub open spec fn after_reap<H, B>(v: SupervisorView<H, B>, exited: Set<Seq<char>>) -> SupervisorView<H, B> {
    SupervisorView {
        running: Map::new(
            |k: Seq<char>| v.running.contains_key(k) && !exited.contains(k),
            |k: Seq<char>| v.running[k],
        ),
        outputs: Map::new(
            |k: Seq<char>| v.outputs.contains_key(k) && !exited.contains(k),
            |k: Seq<char>| v.outputs[k],
        ),
    }
}

/// Whether the table knows `name` at all: as a running process or by its output.
pub open spec fn known<H, B>(v: SupervisorView<H, B>, name: Seq<char>) -> bool {
    v.running.contains_key(name) || v.outputs.contains_key(name)
}

/// The table of supervised processes, keyed by project name.
pub struct ProcessTable<H, B> {
    running: NamedTable<RunningProcess<H>>,
    outputs: NamedTable<B>,
}

impl<H, B> View for ProcessTable<H, B> {
    type V = SupervisorView<H, B>;

    closed spec fn view(&self) -> SupervisorView<H, B> {
        SupervisorView { running: self.running@, outputs: self.outputs@ }
    }
}

impl<H, B> ProcessTable<H, B> {
    pub closed spec fn wf(&self) -> bool {
        self.running.wf() && self.outputs.wf()
    }

    pub fn new() -> (r: ProcessTable<H, B>)
        ensures
            r.wf(),
            r@.running == Map::<Seq<char>, RunningProcess<H>>::empty(),
            r@.outputs == Map::<Seq<char>, B>::empty(),
    {
        ProcessTable { running: NamedTable::new(), outputs: NamedTable::new() }
    }

    /// Records a freshly spawned process under `name`, with a new output
    /// buffer. A process already running under that name is no longer
    /// tracked: its handle is handed back so that the caller stops it.
    pub fn track(&mut self, name: String, handle: H, port: Option<u16>, output: B) -> (r: Option<H>)
        requires
            old(self).wf(),
        ensures
            final(self).wf(),
            final(self)@ == after_start(old(self)@, name@, handle, port, output),
            r.is_some() == old(self)@.running.contains_key(name@),
            r matches Some(h) ==> h == old(self)@.running[name@].handle,
    {
        let key = name.clone();
        let prev = self.running.insert(name, RunningProcess { handle, port });
        self.outputs.insert(key, output);
        match prev {
            Some(t) => Some(t.handle),
            None => None,
        }
    }

    /// Forgets the process named `name` and its output, handing back its
    /// handle so that the caller terminates it. Nothing changes for a name
    /// the table does not know.
    pub fn untrack(&mut self, name: &str) -> (r: Option<H>)
        requires
            old(self).wf(),
        ensures
            final(self).wf(),
            final(self)@ == after_stop(old(self)@, name@),
            r.is_some() == old(self)@.running.contains_key(name@),
            r matches Some(h) ==> h == old(self)@.running[name@].handle,
    {
        self.outputs.remove(name);
        match self.running.remove(name) {
            Some(t) => Some(t.handle),
            None => None,
        }
    }

    /// Drops the processes named in `exited`, which have ended, together with
    /// their output buffers.
    pub fn reap(&mut self, exited: &Vec<String>)
        requires
            old(self).wf(),
        ensures
            final(self).wf(),
            final(self)@ == after_reap(old(self)@, names_of_strings(exited@).to_set()),
    {
        let mut i: usize = 0;
        proof {
            assert(names_of_strings(exited@.subrange(0, 0)).to_set() =~= Set::<Seq<char>>::empty());
            assert(after_reap(self@, Set::<Seq<char>>::empty()).running =~= self@.running);
            assert(after_reap(self@, Set::<Seq<char>>::empty()).outputs =~= self@.outputs);
        }
        while i < exited.len()
            invariant
                self.wf(),
                i <= exited@.len(),
                self@ == after_reap(old(self)@, names_of_strings(exited@.subrange(0, i as int)).to_set()),
            decreases exited@.len() - i,
        {
            let ghost before = self@;
            self.running.remove(exited[i].as_str());
            self.outputs.remove(exited[i].as_str());
            proof {
                let s0 = names_of_strings(exited@.subrange(0, i as int)).to_set();
                let s1 = names_of_strings(exited@.subrange(0, i + 1)).to_set();
                let names_before = names_of_strings(exited@.subrange(0, i as int));
                let names_after = names_of_strings(exited@.subrange(0, i + 1));
                let x = exited@[i as int]@;
                assert(names_after =~= names_before.push(x));
                assert forall|a: Seq<char>| s1.contains(a) == s0.insert(x).contains(a) by {
                    if names_after.contains(a) {
                        let j = choose|j: int| 0 <= j < names_after.len() && names_after[j] == a;
                        if j < names_before.len() {
                            assert(names_before[j] == a);
                        }
                    }
                    if names_before.contains(a) {
                        let j = choose|j: int| 0 <= j < names_before.len() && names_before[j] == a;
                        assert(names_after[j] == a);
                    }
                    if a == x {
                        assert(names_after[i as int] == a);
                    }
                }
                assert(s1 =~= s0.insert(x));
                assert(self@.running =~= after_reap(old(self)@, s1).running);
                assert(self@.outputs =~= after_reap(old(self)@, s1).outputs);
            }
            i = i + 1;
        }
        proof {
            assert(exited@.subrange(0, exited@.len() as int) =~= exited@);
        }
    }

    /// Whether a process is tracked under `name`.
    pub fn is_tracked(&self, name: &str) -> (r: bool)
        requires
            self.wf(),
        ensures
            r == self@.running.contains_key(name@),
    {
        self.running.contains(name)
    }

    /// The handle of the process tracked under `name`.
    pub fn handle(&self, name: &str) -> (r: Option<&H>)
        requires
            self.wf(),
        ensures
            r.is_some() == self@.running.contains_key(name@),
            r matches Some(h) ==> *h == self@.running[name@].handle,
    {
        match self.running.get(name) {
            Some(t) => Some(&t.handle),
            None => None,
        }
    }

    /// The output buffer kept for `name`.
    pub fn output(&self, name: &str) -> (r: Option<&B>)
        requires
            self.wf(),
        ensures
            r.is_some() == self@.outputs.contains_key(name@),
            r matches Some(b) ==> *b == self@.outputs[name@],
    {
        self.outputs.get(name)
    }

    /// The port given to the process tracked under `name`.
    pub fn get_port(&self, name: &str) -> (r: Option<u16>)
        requires
            self.wf(),
        ensures
            r == (if self@.running.contains_key(name@) {
                self@.running[name@].port
            } else {
                None
            }),
    {
        match self.running.get(name) {
            Some(t) => t.port,
            None => None,
        }
    }

    /// The names of the tracked processes, each once.
    pub fn running_projects(&self) -> (r: Vec<String>)
        requires
            self.wf(),
        ensures
            names_of_strings(r@).no_duplicates(),
            names_of_strings(r@).to_set() == self@.running.dom(),
    {
        self.running.names()
    }
}

/// Stopping a name the table does not know changes nothing, and stopping the
/// same name twice in a row leaves the table as stopping it once.
pub proof fn lemma_stop_idempotent<H, B>(v: SupervisorView<H, B>, name: Seq<char>)
    ensures
        !known(v, name) ==> after_stop(v, name) == v,
        after_stop(after_stop(v, name), name) == after_stop(v, name),
        !known(after_stop(v, name), name),
{
    if !known(v, name) {
        assert(v.running.remove(name) =~= v.running);
        assert(v.outputs.remove(name) =~= v.outputs);
    }
    assert(after_stop(v, name).running.remove(name) =~= after_stop(v, name).running);
    assert(after_stop(v, name).outputs.remove(name) =~= after_stop(v, name).outputs);
}

/// Once a process is seen to have exited, a sweep drops it from the running
/// set and clears its output; stopping it afterwards changes nothing, and
/// the processes that did not exit keep their entries and output.
pub proof fn lemma_reaped_not_running<H, B>(v: SupervisorView<H, B>, exited: Set<Seq<char>>, name: Seq<char>)
    requires
        exited.contains(name),
    ensures
        !after_reap(v, exited).running.contains_key(name),
        !after_reap(v, exited).outputs.contains_key(name),
        !known(after_reap(v, exited), name),
        after_stop(after_reap(v, exited), name) == after_reap(v, exited),
        forall|k: Seq<char>|
            !exited.contains(k) ==> (#[trigger] after_reap(v, exited).running.contains_key(k)
                == v.running.contains_key(k) && after_reap(v, exited).outputs.contains_key(k)
                == v.outputs.contains_key(k)),
{
    lemma_stop_idempotent(after_reap(v, exited), name);
}

/// Starting a process makes its name running, with the port it was given
/// and an output buffer of its own.
pub proof fn lemma_started_is_running<H, B>(
    v: SupervisorView<H, B>,
    name: Seq<char>,
    handle: H,
    port: Option<u16>,
    output: B,
)
    ensures
        after_start(v, name, handle, port, output).running.contains_key(name),
        after_start(v, name, handle, port, output).running[name].port == port,
        after_start(v, name, handle, port, output).outputs[name] == output,
        !after_stop(after_start(v, name, handle, port, output), name).running.contains_key(name),
{
}

} // verus!
