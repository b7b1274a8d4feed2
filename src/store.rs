//! The list of projects the dashboard tracks, kept in order of name.

use vstd::prelude::*;
use vstd::seq_lib::*;

use crate::text::{
    eq_ignore_ascii_case, lemma_lex_less_asymmetric, lemma_lex_less_transitive, lex_less, lowercase_of,
    same_ignoring_ascii_case, str_less, to_lowercase,
};

verus! {

/// One tracked project.
#[derive(Debug, Clone)]
pub struct ProjectEntry {
    pub name: String,
    pub repo_url: Option<String>,
    pub path: String,
    pub run_command: Option<String>,
}

/// The projects of this machine and where new ones are cloned.
#[derive(Debug, Clone)]
pub struct ProjectStore {
    pub install_dir: Option<String>,
    pub projects: Vec<ProjectEntry>,
    /// Whether no saved store existed when this one was loaded.
    pub first_run: bool,
}

/// The key projects are ordered by: the name in lower case.
pub open spec fn sort_key(e: ProjectEntry) -> Seq<char> {
    lowercase_of(e.name@)
}

/// Whether `s` is in order of `sort_key`.
pub open spec fn sorted_by_name(s: Seq<ProjectEntry>) -> bool {
    forall|i: int, j: int| 0 <= i < j < s.len() ==> !lex_less(sort_key(#[trigger] s[j]), sort_key(#[trigger] s[i]))
}

/// Whether `e` goes by `name`, ignoring ASCII case.
pub open spec fn named(e: ProjectEntry, name: Seq<char>) -> bool {
    eq_ignore_ascii_case(e.name@, name)
}

pub open spec fn has_named(s: Seq<ProjectEntry>, name: Seq<char>) -> bool {
    exists|i: int| 0 <= i < s.len() && named(#[trigger] s[i], name)
}

/// The index of the first entry of `s` that goes by `name`, if any.
pub open spec fn first_named(s: Seq<ProjectEntry>, name: Seq<char>, i: int) -> bool {
    0 <= i < s.len() && named(s[i], name) && forall|j: int| 0 <= j < i ==> !named(#[trigger] s[j], name)
}

/// The test that keeps the projects not going by `name`.
pub open spec fn not_named(name: Seq<char>) -> spec_fn(ProjectEntry) -> bool {
    |e: ProjectEntry| !named(e, name)
}

fn name_before(a: &ProjectEntry, b: &ProjectEntry) -> (r: bool)
    ensures
        r == lex_less(sort_key(*a), sort_key(*b)),
{
    let ka = to_lowercase(a.name.as_str());
    let kb = to_lowercase(b.name.as_str());
    str_less(ka.as_str(), kb.as_str())
}

/// Sorts by `sort_key`, keeping entries with equal keys in their order.
fn sort_by_name(v: &mut Vec<ProjectEntry>)
    ensures
        sorted_by_name(final(v)@),
        final(v)@.to_multiset() == old(v)@.to_multiset(),
        final(v)@.len() == old(v)@.len(),
{
    broadcast use group_to_multiset_ensures;

    let n = v.len();
    let mut i: usize = 1;
    if n == 0 {
        return;
    }
    while i < n
        invariant
            1 <= i <= n,
            v@.len() == n,
            v@.to_multiset() == old(v)@.to_multiset(),
            sorted_by_name(v@.subrange(0, i as int)),
        decreases n - i,
    {
        let ghost before = v@;
        let item = v.remove(i);
        let mut k: usize = 0;
        while k < i && !name_before(&item, &v[k])
            invariant
                k <= i,
                i < n,
                before.len() == n,
                v@ == before.remove(i as int),
                item == before[i as int],
                forall|j: int| 0 <= j < k ==> !lex_less(sort_key(item), sort_key(#[trigger] v@[j])),
            decreases i - k,
        {
            k = k + 1;
        }
        let ghost mid = v@;
        v.insert(k, item);
        proof {
            assert(v@ == mid.insert(k as int, item));
            to_multiset_insert(mid, k as int, item);
            to_multiset_remove(before, i as int);
            to_multiset_contains(before, item);
            assert(before.contains(item)) by {
                assert(before[i as int] == item);
            }
            broadcast use vstd::multiset::group_multiset_axioms;
            assert(v@.to_multiset() =~= before.to_multiset());
            let p = v@.subrange(0, i + 1);
            assert forall|a: int, b: int| 0 <= a < b < p.len() implies !lex_less(
                sort_key(#[trigger] p[b]),
                sort_key(#[trigger] p[a]),
            ) by {
                let ka = sort_key(p[a]);
                let kb = sort_key(p[b]);
                if b < k {
                    assert(p[a] == before[a] && p[b] == before[b]);
                    assert(before.subrange(0, i as int)[a] == before[a]);
                    assert(before.subrange(0, i as int)[b] == before[b]);
                } else if b == k {
                    assert(p[b] == item);
                    assert(p[a] == mid[a]);
                } else if a > k {
                    assert(p[a] == before[a - 1] && p[b] == before[b - 1]);
                    assert(before.subrange(0, i as int)[a - 1] == before[a - 1]);
                    assert(before.subrange(0, i as int)[b - 1] == before[b - 1]);
                } else if a == k {
                    // item precedes every later element of the sorted prefix
                    assert(p[a] == item);
                    assert(p[b] == before[b - 1]);
                    assert(k < i);
                    assert(lex_less(sort_key(item), sort_key(mid[k as int])));
                    assert(mid[k as int] == before[k as int]);
                    assert(before.subrange(0, i as int)[k as int] == before[k as int]);
                    assert(before.subrange(0, i as int)[b - 1] == before[b - 1]);
                    if k < b - 1 {
                        assert(!lex_less(sort_key(before[b - 1]), sort_key(before[k as int])));
                    }
                    if lex_less(kb, ka) {
                        lemma_lex_less_asymmetric(sort_key(before[k as int]), kb);
                        if k < b - 1 {
                            if lex_less(kb, sort_key(before[k as int])) {
                            } else {
                                lemma_lex_less_transitive(kb, ka, sort_key(before[k as int]));
                            }
                        } else {
                            lemma_lex_less_asymmetric(ka, kb);
                        }
                    }
                } else {
                    // a < k < b
                    assert(p[a] == before[a]);
                    assert(p[b] == before[b - 1]);
                    assert(before.subrange(0, i as int)[a] == before[a]);
                    assert(before.subrange(0, i as int)[b - 1] == before[b - 1]);
                }
            }
        }
        i = i + 1;
    }
    proof {
        assert(v@.subrange(0, n as int) =~= v@);
    }
}

impl Default for ProjectStore {
    fn default() -> (r: ProjectStore)
        ensures
            r.install_dir is None,
            r.projects@.len() == 0,
            !r.first_run,
    {
        ProjectStore::new(false)
    }
}

impl ProjectStore {
    /// An empty store; `first_run` tells whether no saved store was found.
    pub fn new(first_run: bool) -> (r: ProjectStore)
        ensures
            r.install_dir is None,
            r.projects@.len() == 0,
            r.first_run == first_run,
    {
        ProjectStore { install_dir: None, projects: Vec::new(), first_run }
    }

    /// A store holding `projects`, put in order of name.
    pub fn from_loaded(install_dir: Option<String>, projects: Vec<ProjectEntry>, first_run: bool) -> (r: ProjectStore)
        ensures
            r.install_dir == install_dir,
            sorted_by_name(r.projects@),
            r.projects@.to_multiset() == projects@.to_multiset(),
            r.first_run == first_run,
    {
        let mut projects = projects;
        sort_by_name(&mut projects);
        ProjectStore { install_dir, projects, first_run }
    }

    /// Whether no saved store existed when this one was loaded.
    pub fn is_first_run(&self) -> (r: bool)
        ensures
            r == self.first_run,
    {
        self.first_run
    }

    fn position(&self, name: &str) -> (r: Option<usize>)
        ensures
            match r {
                Some(i) => first_named(self.projects@, name@, i as int),
                None => !has_named(self.projects@, name@),
            },
    {
        let mut i: usize = 0;
        while i < self.projects.len()
            invariant
                i <= self.projects@.len(),
                forall|j: int| 0 <= j < i ==> !named(#[trigger] self.projects@[j], name@),
            decreases self.projects@.len() - i,
        {
            if same_ignoring_ascii_case(self.projects[i].name.as_str(), name) {
                return Some(i);
            }
            i = i + 1;
        }
        None
    }

    /// Adds a project unless one of the same name (ignoring ASCII case) is
    /// there already, and keeps the list in order of name.
    pub fn add(&mut self, entry: ProjectEntry)
        ensures
            has_named(old(self).projects@, entry.name@) ==> final(self).projects@ == old(self).projects@,
            !has_named(old(self).projects@, entry.name@) ==> final(self).projects@.to_multiset()
                == old(self).projects@.push(entry).to_multiset() && sorted_by_name(final(self).projects@),
            final(self).install_dir == old(self).install_dir,
            final(self).first_run == old(self).first_run,
    {
        if self.position(entry.name.as_str()).is_some() {
            return;
        }
        self.projects.push(entry);
        sort_by_name(&mut self.projects);
    }

    /// Removes every project going by `name`, ignoring ASCII case.
    pub fn remove(&mut self, name: &str)
        ensures
            final(self).projects@ == old(self).projects@.filter(not_named(name@)),
            final(self).install_dir == old(self).install_dir,
            final(self).first_run == old(self).first_run,
    {
        let ghost all = self.projects@;
        let mut rest: Vec<ProjectEntry> = Vec::new();
        std::mem::swap(&mut rest, &mut self.projects);
        let mut kept: Vec<ProjectEntry> = Vec::new();
        let n = rest.len();
        let mut i: usize = 0;
        proof {
            reveal(Seq::filter);
            assert(all.subrange(0, 0) =~= Seq::<ProjectEntry>::empty());
        }
        while i < n
            invariant
                n == all.len(),
                i <= n,
                rest@ == all.subrange(i as int, n as int),
                kept@ == all.subrange(0, i as int).filter(not_named(name@)),
            decreases n - i,
        {
            let e = rest.remove(0);
            proof {
                reveal(Seq::filter);
                assert(e == all[i as int]);
                assert(all.subrange(0, i + 1).drop_last() =~= all.subrange(0, i as int));
                assert(all.subrange(0, i + 1).last() == e);
                assert(not_named(name@)(e) == !named(e, name@));
            }
            if !same_ignoring_ascii_case(e.name.as_str(), name) {
                kept.push(e);
            }
            i = i + 1;
        }
        proof {
            assert(all.subrange(0, n as int) =~= all);
        }
        self.projects = kept;
    }

    /// The first project going by `name`, ignoring ASCII case.
    pub fn get(&self, name: &str) -> (r: Option<&ProjectEntry>)
        ensures
            r is None <==> !has_named(self.projects@, name@),
            r matches Some(e) ==> exists|i: int| first_named(self.projects@, name@, i) && self.projects@[i] == *e,
    {
        match self.position(name) {
            Some(i) => Some(&self.projects[i]),
            None => None,
        }
    }

    /// The first project going by `name`, ignoring ASCII case, to change in place.
    pub fn get_mut(&mut self, name: &str) -> (r: Option<&mut ProjectEntry>)
        ensures
            r is None <==> !has_named(old(self).projects@, name@),
            r is None ==> final(self).projects@ == old(self).projects@,
            r matches Some(e) ==> exists|i: int|
                first_named(old(self).projects@, name@, i) && *e == old(self).projects@[i]
                    && final(self).projects@ == old(self).projects@.update(i, *final(e)),
            final(self).install_dir == old(self).install_dir,
            final(self).first_run == old(self).first_run,
    {
        match self.position(name) {
            Some(i) => Some(&mut self.projects[i]),
            None => None,
        }
    }

    /// The index of the first project going by `name`, ignoring ASCII case.
    pub fn index_of(&self, name: &str) -> (r: Option<usize>)
        ensures
            r is None <==> !has_named(self.projects@, name@),
            r matches Some(i) ==> first_named(self.projects@, name@, i as int),
    {
        self.position(name)
    }
}

} // verus!
