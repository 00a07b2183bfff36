//! Selecting one of the workspace's open buffers by its title.

use vstd::prelude::*;
use crate::search_select::{SearchSelectConfig, SearchSelectMode};
use crate::matching::{find_matches, fuzzy_find, match_positions, matched_positions};
use crate::select_modes::take_at_most;
use crate::selectable_vec::SelectableVec;
use crate::text::string_views;

verus! {

/// An open buffer, by its title (its path, or "Untitled") and its index in the
/// workspace.
#[derive(Clone, Debug)]
pub struct WorkspaceBuffer {
    pub title: String,
    pub index: usize,
}

impl View for WorkspaceBuffer {
    type V = (Seq<char>, usize);

    open spec fn view(&self) -> (Seq<char>, usize) {
        (self.title@, self.index)
    }
}

/// The values of a sequence of buffers.
pub open spec fn buffer_views(bs: Seq<WorkspaceBuffer>) -> Seq<(Seq<char>, usize)> {
    bs.map_values(|b: WorkspaceBuffer| b@)
}

/// The titles of a sequence of buffers.
pub open spec fn buffer_titles(bs: Seq<WorkspaceBuffer>) -> Seq<Seq<char>> {
    bs.map_values(|b: WorkspaceBuffer| b.title@)
}

/// The title of the buffer with the given path, if it has one.
pub open spec fn title_for(path: Option<String>) -> Seq<char> {
    match path {
        Some(p) => p@,
        None => "Untitled"@,
    }
}

/// The buffers at the positions that the matched titles `found` stand for (see
/// `matched_positions`).
pub open spec fn buffers_for(bs: Seq<WorkspaceBuffer>, found: Seq<Seq<char>>) -> Seq<(Seq<char>, usize)> {
    matched_positions(buffer_titles(bs), found).map_values(|i: int| bs[i]@)
}

fn copy_buffer(b: &WorkspaceBuffer) -> (r: WorkspaceBuffer)
    ensures
        r@ == b@,
{
    WorkspaceBuffer { title: b.title.clone(), index: b.index }
}

/// Switches between the workspace's open buffers.
pub struct BufferMode {
    insert: bool,
    input: String,
    buffers: SelectableVec<WorkspaceBuffer>,
    results: SelectableVec<WorkspaceBuffer>,
    config: SearchSelectConfig,
}

impl BufferMode {
    /// The open buffers.
    pub closed spec fn buffers_view(&self) -> Seq<WorkspaceBuffer> {
        self.buffers.items()
    }

    /// The index of the current buffer among the open ones.
    pub closed spec fn buffer_index(&self) -> nat {
        self.buffers.index()
    }

    /// The index of the selected result.
    pub closed spec fn result_index(&self) -> nat {
        self.results.index()
    }

    /// The settings in use.
    pub closed spec fn config_view(&self) -> SearchSelectConfig {
        self.config
    }

    pub fn new(config: SearchSelectConfig) -> (m: BufferMode)
        ensures
            m.insert_view(),
            m.query_view() == Seq::<char>::empty(),
            m.buffers_view() == Seq::<WorkspaceBuffer>::empty(),
            m.results_view() == Seq::<WorkspaceBuffer>::empty(),
            m.config_view() == config,
    {
        BufferMode {
            insert: true,
            input: String::new(),
            buffers: SelectableVec::new(Vec::new()),
            results: SelectableVec::new(Vec::new()),
            config,
        }
    }

    /// Starts a new search over the workspace's buffers, given by their paths (as
    /// text) in workspace order, with the current buffer selected.
    pub fn reset(&mut self, paths: Vec<Option<String>>, current: Option<usize>, config: SearchSelectConfig)
        ensures
            final(self).insert_view(),
            final(self).query_view() == Seq::<char>::empty(),
            final(self).results_view() == Seq::<WorkspaceBuffer>::empty(),
            final(self).config_view() == config,
            final(self).buffers_view().len() == paths@.len(),
            forall|i: int|
                0 <= i < paths@.len() ==> (#[trigger] final(self).buffers_view()[i])@ == (
                title_for(paths@[i]),
                i as usize,
                ),
            match current {
                Some(i) => final(self).buffer_index() == if i < paths@.len() {
                    i as nat
                } else {
                    0
                },
                None => final(self).buffer_index() == 0,
            },
    {
        let mut buffers: Vec<WorkspaceBuffer> = Vec::new();
        let mut i: usize = 0;
        while i < paths.len()
            invariant
                0 <= i <= paths@.len(),
                buffers@.len() == i,
                forall|k: int|
                    0 <= k < i ==> (#[trigger] buffers@[k])@ == (title_for(paths@[k]), k as usize),
            decreases paths@.len() - i,
        {
            let title = match &paths[i] {
                Some(p) => p.clone(),
                None => String::from_str("Untitled"),
            };
            buffers.push(WorkspaceBuffer { title, index: i });
            i = i + 1;
        }
        let mut buffers = SelectableVec::new(buffers);
        match current {
            Some(c) => {
                let _ = buffers.set_selected_index(c);
            },
            None => {},
        }
        *self = BufferMode {
            insert: true,
            input: String::new(),
            buffers,
            results: SelectableVec::new(Vec::new()),
            config,
        };
    }
}

impl SearchSelectMode<WorkspaceBuffer> for BufferMode {
    closed spec fn query_view(&self) -> Seq<char> {
        self.input@
    }

    closed spec fn insert_view(&self) -> bool {
        self.insert
    }

    closed spec fn results_view(&self) -> Seq<WorkspaceBuffer> {
        self.results.items()
    }

    closed spec fn selected_view(&self) -> nat {
        self.results.index()
    }

    open spec fn search_config(&self) -> SearchSelectConfig {
        self.config_view()
    }

    fn query(&self) -> (q: &String) {
        &self.input
    }

    fn set_query(&mut self, query: String) {
        self.input = query;
    }

    /// Without a query, the first `max_results` buffers, with the current buffer
    /// selected when it is among them; otherwise the buffers whose titles match the
    /// query, best first, at most `max_results` of them.
    fn search(&mut self)
        ensures
            old(self).query_view().len() == 0 ==> {
                &&& buffer_views(final(self).results_view()) == buffer_views(
                    take_at_most(old(self).buffers_view(), old(self).config_view().max_results as nat),
                )
                &&& final(self).result_index() == if old(self).buffer_index()
                    < final(self).results_view().len() {
                    old(self).buffer_index()
                } else {
                    0
                }
            },
            old(self).query_view().len() > 0 ==> {
                &&& buffer_views(final(self).results_view()) == buffers_for(
                    old(self).buffers_view(),
                    fuzzy_find(
                        old(self).query_view(),
                        buffer_titles(old(self).buffers_view()),
                        old(self).config_view().max_results as nat,
                    ),
                )
                &&& final(self).result_index() == 0
            },
            final(self).buffers_view() == old(self).buffers_view(),
            final(self).buffer_index() == old(self).buffer_index(),
            final(self).config_view() == old(self).config_view(),
    {
        let all = self.buffers.as_slice();
        let ghost bs = self.buffers.items();
        if self.input.as_str().is_empty() {
            let count = if all.len() <= self.config.max_results {
                all.len()
            } else {
                self.config.max_results
            };
            let mut results: Vec<WorkspaceBuffer> = Vec::new();
            let mut i: usize = 0;
            while i < count
                invariant
                    0 <= i <= count <= all@.len(),
                    all@ == bs,
                    results@.len() == i,
                    buffer_views(results@) == buffer_views(bs.subrange(0, i as int)),
                decreases count - i,
            {
                let ghost before = results@;
                results.push(copy_buffer(&all[i]));
                assert(buffer_views(results@) =~= buffer_views(bs.subrange(0, i as int + 1))) by {
                    assert forall|k: int| 0 <= k < i + 1 implies #[trigger] buffer_views(results@)[k]
                        == buffer_views(bs.subrange(0, i as int + 1))[k] by {
                        if k < i {
                            assert(results@[k] == before[k]);
                            assert(buffer_views(before)[k] == buffer_views(bs.subrange(0, i as int))[k]);
                        }
                    }
                }
                i = i + 1;
            }
            assert(bs.subrange(0, count as int) =~= take_at_most(
                bs,
                self.config.max_results as nat,
            ));
            let current = self.buffers.selected_index();
            let mut results = SelectableVec::new(results);
            let _ = results.set_selected_index(current);
            self.results = results;
        } else {
            let mut titles: Vec<String> = Vec::new();
            let mut i: usize = 0;
            while i < all.len()
                invariant
                    0 <= i <= all@.len(),
                    all@ == bs,
                    titles@.len() == i,
                    string_views(titles@) == buffer_titles(bs).subrange(0, i as int),
                decreases all@.len() - i,
            {
                let ghost before = titles@;
                titles.push(all[i].title.clone());
                assert(string_views(titles@) =~= buffer_titles(bs).subrange(0, i as int + 1)) by {
                    assert forall|k: int| 0 <= k < i + 1 implies #[trigger] string_views(titles@)[k]
                        == buffer_titles(bs).subrange(0, i as int + 1)[k] by {
                        if k < i {
                            assert(titles@[k] == before[k]);
                            assert(string_views(before)[k] == buffer_titles(bs).subrange(
                                0,
                                i as int,
                            )[k]);
                        }
                    }
                }
                i = i + 1;
            }
            assert(buffer_titles(bs).subrange(0, i as int) =~= buffer_titles(bs));
            let found = find_matches(self.input.as_str(), &titles, self.config.max_results);
            let positions = match_positions(&titles, &found);
            let ghost ps = matched_positions(buffer_titles(bs), string_views(found@));
            let mut results: Vec<WorkspaceBuffer> = Vec::new();
            let mut j: usize = 0;
            while j < positions.len()
                invariant
                    0 <= j <= positions@.len(),
                    all@ == bs,
                    string_views(titles@) == buffer_titles(bs),
                    titles@.len() == bs.len(),
                    positions@.len() == ps.len(),
                    forall|k: int| 0 <= k < positions@.len() ==> #[trigger] positions@[k] as int == ps[k]
                        && positions@[k] < titles@.len(),
                    results@.len() == j,
                    forall|k: int| 0 <= k < j ==> (#[trigger] results@[k])@ == bs[ps[k]]@,
                decreases positions@.len() - j,
            {
                let p = positions[j];
                results.push(copy_buffer(&all[p]));
                j = j + 1;
            }
            assert(buffer_views(results@) =~= buffers_for(bs, string_views(found@)));
            self.results = SelectableVec::new(results);
        }
    }

    fn insert_mode(&self) -> (b: bool) {
        self.insert
    }

    fn set_insert_mode(&mut self, insert_mode: bool) {
        self.insert = insert_mode;
    }

    fn results(&self) -> (r: &[WorkspaceBuffer]) {
        self.results.as_slice()
    }

    fn selection(&self) -> (s: Option<&WorkspaceBuffer>) {
        self.results.selection()
    }

    fn selected_index(&self) -> usize {
        self.results.selected_index()
    }

    fn select_previous(&mut self) {
        self.results.select_previous();
    }

    fn select_next(&mut self) {
        self.results.select_next();
    }

    fn config(&self) -> &SearchSelectConfig {
        &self.config
    }
}

} // verus!
