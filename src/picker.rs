//! A list of repositories to pick from, narrowed by typing a filter.

use vstd::prelude::*;

use crate::text::{contains_text, lowercase_of, name_matches, pop_char, push_char};

verus! {

/// A key as the picker sees it.
#[derive(Debug, Clone, Copy, PartialEq, Eq, Structural)]
pub enum PickerKey {
    Enter,
    Esc,
    Up,
    Down,
    Backspace,
    Char(char),
    Other,
}

/// Whether a repository named `name` passes `filter`.
pub open spec fn passes(name: Seq<char>, filter: Seq<char>) -> bool {
    filter.len() == 0 || contains_text(lowercase_of(name), lowercase_of(filter))
}

/// The positions in `repos` of the repositories that pass `filter`, in order.
pub open spec fn matching(repos: Seq<(String, String)>, filter: Seq<char>) -> Seq<int>
    decreases repos.len(),
{
    if repos.len() == 0 {
        Seq::empty()
    } else {
        let front = matching(repos.drop_last(), filter);
        if passes(repos.last().0@, filter) {
            front.push(repos.len() - 1)
        } else {
            front
        }
    }
}

proof fn lemma_matching_bounded(repos: Seq<(String, String)>, filter: Seq<char>)
    ensures
        matching(repos, filter).len() <= repos.len(),
        forall|k: int| 0 <= k < matching(repos, filter).len() ==> 0 <= #[trigger] matching(repos, filter)[k] < repos.len(),
    decreases repos.len(),
{
    if repos.len() > 0 {
        lemma_matching_bounded(repos.drop_last(), filter);
    }
}

/// A pop-up list of (name, clone address) pairs.
pub struct RepoSelector {
    pub visible: bool,
    pub repos: Vec<(String, String)>,
    /// The highlighted row among the repositories that pass the filter.
    pub selected: Option<usize>,
    pub filter: String,
}

impl RepoSelector {
    pub fn new() -> (r: RepoSelector)
        ensures
            !r.visible,
            r.repos@.len() == 0,
            r.selected is None,
            r.filter@.len() == 0,
    {
        RepoSelector { visible: false, repos: Vec::new(), selected: None, filter: String::new() }
    }

    /// Opens the picker on `repos`, unfiltered, with the first row highlighted.
    pub fn show(&mut self, repos: Vec<(String, String)>)
        ensures
            final(self).visible,
            final(self).repos@ == repos@,
            final(self).filter@.len() == 0,
            final(self).selected == Some(0usize),
    {
        self.repos = repos;
        self.visible = true;
        self.filter = String::new();
        self.selected = Some(0);
    }

    /// Closes the picker and forgets its list and filter.
    pub fn dismiss(&mut self)
        ensures
            !final(self).visible,
            final(self).repos@.len() == 0,
            final(self).filter@.len() == 0,
            final(self).selected == old(self).selected,
    {
        self.visible = false;
        self.repos = Vec::new();
        self.filter = String::new();
    }

    /// The positions in `repos` of the rows shown under the current filter.
    pub fn filtered(&self) -> (r: Vec<usize>)
        ensures
            r@.len() == matching(self.repos@, self.filter@).len(),
            forall|k: int| 0 <= k < r@.len() ==> r@[k] as int == #[trigger] matching(self.repos@, self.filter@)[k],
    {
        let mut out: Vec<usize> = Vec::new();
        let mut i: usize = 0;
        let ghost all = self.repos@;
        proof {
            assert(all.subrange(0, 0) =~= Seq::<(String, String)>::empty());
        }
        while i < self.repos.len()
            invariant
                all == self.repos@,
                i <= all.len(),
                out@.len() == matching(all.subrange(0, i as int), self.filter@).len(),
                forall|k: int| 0 <= k < out@.len() ==> out@[k] as int == #[trigger] matching(
                    all.subrange(0, i as int),
                    self.filter@,
                )[k],
            decreases all.len() - i,
        {
            proof {
                assert(all.subrange(0, i + 1).drop_last() =~= all.subrange(0, i as int));
                assert(all.subrange(0, i + 1).last() == all[i as int]);
            }
            if name_matches(self.repos[i].0.as_str(), self.filter.as_str()) {
                out.push(i);
            }
            i = i + 1;
        }
        proof {
            assert(all.subrange(0, all.len() as int) =~= all);
        }
        out
    }

    /// Applies a key. Enter picks the highlighted row and closes the picker,
    /// Esc closes it, Up/`k` and Down/`j` move the highlight round the shown
    /// rows, Backspace and other characters edit the filter and highlight
    /// the first row again.
    pub fn handle_key(&mut self, key: PickerKey) -> (r: Option<(String, String)>)
        ensures
            r is Some ==> key == PickerKey::Enter && !final(self).visible && final(self).repos@.len() == 0
                && final(self).filter@.len() == 0,
            key == PickerKey::Enter ==> (r is Some <==> (old(self).selected matches Some(i) && i < matching(
                old(self).repos@,
                old(self).filter@,
            ).len())),
            key == PickerKey::Enter && r is Some ==> (old(self).selected matches Some(i) && r == Some(
                old(self).repos@[matching(old(self).repos@, old(self).filter@)[i as int]],
            )),
            key == PickerKey::Esc ==> !final(self).visible && r is None && final(self).repos@.len() == 0
                && final(self).filter@.len() == 0,
            key == PickerKey::Enter && r is None ==> final(self).repos == old(self).repos && final(self).filter
                == old(self).filter && final(self).visible == old(self).visible,
            (key == PickerKey::Down || key == PickerKey::Char('j')) ==> final(self).filter == old(self).filter
                && final(self).selected == ({
                let n = matching(old(self).repos@, old(self).filter@).len();
                let i = match old(self).selected {
                    Some(i) => i as int,
                    None => 0,
                };
                if n == 0 {
                    old(self).selected
                } else if i >= n - 1 {
                    Some(0usize)
                } else {
                    Some((i + 1) as usize)
                }
            }),
            (key == PickerKey::Up || key == PickerKey::Char('k')) ==> final(self).filter == old(self).filter
                && final(self).selected == ({
                let n = matching(old(self).repos@, old(self).filter@).len();
                let i = match old(self).selected {
                    Some(i) => i as int,
                    None => 0,
                };
                if n == 0 {
                    old(self).selected
                } else if i == 0 {
                    Some((n - 1) as usize)
                } else {
                    Some((i - 1) as usize)
                }
            }),
            key == PickerKey::Backspace ==> final(self).filter@ == (if old(self).filter@.len() > 0 {
                old(self).filter@.drop_last()
            } else {
                old(self).filter@
            }),
            match key {
                PickerKey::Char(c) => (c != 'j' && c != 'k') ==> final(self).filter@ == old(self).filter@.push(c),
                _ => true,
            },
            key != PickerKey::Enter && key != PickerKey::Esc ==> final(self).repos == old(self).repos
                && final(self).visible == old(self).visible,
    {
        let shown = self.filtered();
        let len = shown.len();
        proof {
            lemma_matching_bounded(self.repos@, self.filter@);
        }
        match key {
            PickerKey::Enter => {
                match self.selected {
                    Some(idx) => {
                        if idx < len {
                            proof {
                                assert(shown@[idx as int] as int == matching(self.repos@, self.filter@)[idx as int]);
                            }
                            let pair = &self.repos[shown[idx]];
                            let item = (pair.0.clone(), pair.1.clone());
                            self.dismiss();
                            return Some(item);
                        }
                    },
                    None => {},
                }
                None
            },
            PickerKey::Esc => {
                self.dismiss();
                None
            },
            PickerKey::Up | PickerKey::Char('k') => {
                if len > 0 {
                    let idx = match self.selected {
                        Some(i) => i,
                        None => 0,
                    };
                    self.selected = Some(if idx == 0 { len - 1 } else { idx - 1 });
                }
                None
            },
            PickerKey::Down | PickerKey::Char('j') => {
                if len > 0 {
                    let idx = match self.selected {
                        Some(i) => i,
                        None => 0,
                    };
                    self.selected = Some(if idx >= len - 1 { 0 } else { idx + 1 });
                }
                None
            },
            PickerKey::Backspace => {
                pop_char(&mut self.filter);
                if self.filtered().len() > 0 {
                    self.selected = Some(0);
                }
                None
            },
            PickerKey::Char(c) => {
                push_char(&mut self.filter, c);
                if self.filtered().len() > 0 {
                    self.selected = Some(0);
                }
                None
            },
            PickerKey::Other => None,
        }
    }
}

} // verus!
