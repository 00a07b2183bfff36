//! Opening files: a fuzzy search over an index of the workspace's files, with
//! the open buffers listed while no query is typed.
//!
//! Part of the query can be pinned: pinned words stay in every search while new
//! words are typed after them.

use vstd::prelude::*;
use crate::matching::fuzzy_find;
use vstd::std_specs::iter::IteratorSpec;
use crate::paths::DisplayablePath;
use crate::search_select::{pop_token, without_last_token, SearchSelectConfig};
use crate::selectable_vec::SelectableVec;
use crate::text::{
    chars_of, lemma_words_plain, plain_word, spec_is_whitespace, split_whitespace, string_from_chars,
    string_push, words,
};

verus! {

#[verifier::external_type_specification]
#[verifier::external_body]
pub struct ExIndex(bloodhound::Index);

/// The state of the file index: built, or still being built for a directory.
#[derive(PartialEq)]
pub enum OpenModeIndex {
    Complete(bloodhound::Index),
    Indexing(std::path::PathBuf),
}

/// What `str::to_lowercase` makes of a text.
pub uninterp spec fn lowercase(s: Seq<char>) -> Seq<char>;

/// Calls `str::to_lowercase`.
#[verifier::external_body]
fn to_lowercase(s: &str) -> (r: String)
    ensures
        r@ == lowercase(s@),
{
    s.to_lowercase()
}

/// The texts an index searches: for each indexed path, in the order indexed, the
/// text that `fragment` matches against (lower-cased when the index was built
/// case-insensitively).
pub uninterp spec fn index_entries(index: bloodhound::Index) -> Seq<Seq<char>>;

/// The paths an index holds, in the order indexed: the path of each entry of
/// `index_entries`, at the same place.
pub uninterp spec fn index_paths(index: bloodhound::Index) -> Seq<std::path::PathBuf>;

/// Whether `found` are the paths of the index's entries that `fuzzy_find` keeps
/// for `term`, in its order, at most `limit` of them: the path at each place is
/// that of a distinct entry whose text is the kept text at that place.
pub open spec fn found_paths(found: Seq<DisplayablePath>, index: bloodhound::Index, term: Seq<char>, limit: nat) -> bool {
    let kept = fuzzy_find(term, index_entries(index), limit);
    found.len() == kept.len() && exists|at: Seq<int>| found_at(found, index, kept, at)
}

/// Whether `at` gives, for each place of `found`, a distinct entry of the index
/// whose text is `kept` at that place and whose path is `found` at that place.
pub open spec fn found_at(found: Seq<DisplayablePath>, index: bloodhound::Index, kept: Seq<Seq<char>>, at: Seq<int>) -> bool {
    &&& at.len() == found.len()
    &&& at.no_duplicates()
    &&& forall|k: int| 0 <= k < at.len() ==> entry_matches(found, index, kept, at, k)
}

/// Whether place `k` of `found` is the path of entry `at[k]`, whose text is `kept[k]`.
pub open spec fn entry_matches(found: Seq<DisplayablePath>, index: bloodhound::Index, kept: Seq<Seq<char>>, at: Seq<int>, k: int) -> bool {
    &&& 0 <= at[k] < index_entries(index).len()
    &&& at[k] < index_paths(index).len()
    &&& index_entries(index)[at[k]] == kept[k]
    &&& found[k].0 == index_paths(index)[at[k]]
}

/// Calls `bloodhound::Index::find`, which is `fragment::matching::find` over the
/// index's entries, handing out the path of each entry it keeps, in its order, at
/// most `limit` of them.
#[verifier::external_body]
fn index_find(index: &bloodhound::Index, term: &str, limit: usize) -> (r: Vec<DisplayablePath>)
    ensures
        found_paths(r@, *index, term@, limit as nat),
        r@.len() == fuzzy_find(term@, index_entries(*index), limit as nat).len(),
        forall|k: int|
            0 <= k < r@.len() ==> exists|i: int| 0 <= i < index_paths(*index).len() && #[trigger] r@[k].0 == index_paths(*index)[i],
        r@.len() <= limit,
{
    index.find(term, limit).into_iter().map(|p| DisplayablePath(p.to_path_buf())).collect()
}

/// The text that `Path::to_string_lossy` shows for a path.
pub uninterp spec fn lossy_text(path: std::path::PathBuf) -> Seq<char>;

/// Calls `Path::to_string_lossy`.
#[verifier::external_body]
fn path_text(path: &std::path::PathBuf) -> (t: String)
    ensures
        t@ == lossy_text(*path),
{
    path.to_string_lossy().into_owned()
}

/// Words joined by single spaces.
pub open spec fn join_words(ws: Seq<Seq<char>>) -> Seq<char>
    decreases ws.len(),
{
    if ws.len() == 0 {
        Seq::empty()
    } else if ws.len() == 1 {
        ws[0]
    } else {
        join_words(ws.drop_last()) + seq![' '] + ws.last()
    }
}

/// Whether all of `ws` are words (non-empty, without whitespace).
pub open spec fn all_plain(ws: Seq<Seq<char>>) -> bool {
    forall|i: int| 0 <= i < ws.len() ==> plain_word(#[trigger] ws[i])
}

/// The text searched for: the pinned query and the query, in lower case, with a
/// space between them.
pub open spec fn search_text(pinned: Seq<char>, query: Seq<char>) -> Seq<char> {
    lowercase(pinned) + seq![' '] + lowercase(query)
}

proof fn lemma_join_empty(ws: Seq<Seq<char>>)
    requires
        all_plain(ws),
    ensures
        join_words(ws).len() == 0 <==> ws.len() == 0,
    decreases ws.len(),
{
    if ws.len() > 1 {
        lemma_join_empty(ws.drop_last());
    } else if ws.len() == 1 {
        assert(plain_word(ws[0]));
    }
}

/// The position of the last space in `join_words(ws)`, when there are two words or more.
proof fn lemma_join_last_space(ws: Seq<Seq<char>>)
    requires
        all_plain(ws),
        ws.len() >= 1,
    ensures
        ws.len() >= 2 ==> join_words(ws)[join_words(ws.drop_last()).len() as int] == ' ',
        forall|k: int|
            (if ws.len() >= 2 {
                join_words(ws.drop_last()).len() + 1
            } else {
                0
            }) <= k < join_words(ws).len() ==> #[trigger] join_words(ws)[k] != ' ',
{
    let j = join_words(ws);
    let w = ws.last();
    assert(plain_word(w));
    if ws.len() >= 2 {
        let p = join_words(ws.drop_last());
        assert(j == p + seq![' '] + w);
        assert forall|k: int| p.len() + 1 <= k < j.len() implies #[trigger] j[k] != ' ' by {
            assert(j[k] == w[k - p.len() - 1]);
            assert(!spec_is_whitespace(w[k - p.len() - 1]));
        }
    } else {
        assert(j == ws[0]);
        assert forall|k: int| 0 <= k < j.len() implies #[trigger] j[k] != ' ' by {
            assert(!spec_is_whitespace(w[k]));
        }
    }
}

/// The pinned part of a query: words joined by single spaces.
struct PinnedQuery {
    text: String,
    words: Ghost<Seq<Seq<char>>>,
}

impl PinnedQuery {
    #[verifier::type_invariant]
    spec fn joined(&self) -> bool {
        &&& self.text@ == join_words(self.words@)
        &&& all_plain(self.words@)
    }
}

/// Searches the workspace's files, listing open buffers while the query is empty.
pub struct OpenMode {
    insert: bool,
    input: String,
    pinned: PinnedQuery,
    index: OpenModeIndex,
    buffers: SelectableVec<DisplayablePath>,
    results: SelectableVec<DisplayablePath>,
    marked_results: std::collections::HashSet<usize>,
    config: SearchSelectConfig,
}

impl OpenMode {
    /// The query typed since the last pin.
    pub closed spec fn query_view(&self) -> Seq<char> {
        self.input@
    }

    /// The pinned words.
    pub closed spec fn pinned_view(&self) -> Seq<Seq<char>> {
        self.pinned.words@
    }

    /// Whether the query is being edited.
    pub closed spec fn insert_view(&self) -> bool {
        self.insert
    }

    /// Whether the index is still being built.
    pub closed spec fn indexing(&self) -> bool {
        self.index is Indexing
    }

    /// The directory being indexed, while the index is built.
    pub closed spec fn indexed_path(&self) -> std::path::PathBuf {
        self.index->Indexing_0
    }

    /// The finished index, once it is built.
    pub closed spec fn index_view(&self) -> bloodhound::Index {
        self.index->Complete_0
    }

    /// The open buffers.
    pub closed spec fn buffers_view(&self) -> Seq<DisplayablePath> {
        self.buffers.items()
    }

    /// The index of the current buffer among the open ones.
    pub closed spec fn buffer_index(&self) -> nat {
        self.buffers.index()
    }

    /// The results of the last search.
    pub closed spec fn found_view(&self) -> Seq<DisplayablePath> {
        self.results.items()
    }

    /// The index of the selected result of the last search.
    pub closed spec fn found_index(&self) -> nat {
        self.results.index()
    }

    /// The marked results, by index.
    pub closed spec fn marked_view(&self) -> Set<usize> {
        self.marked_results@
    }

    /// The settings in use.
    pub closed spec fn config_view(&self) -> SearchSelectConfig {
        self.config
    }

    /// What is listed: the open buffers while the query is empty, else the results.
    pub open spec fn listed(&self) -> Seq<DisplayablePath> {
        if self.query_view().len() == 0 {
            self.buffers_view()
        } else {
            self.found_view()
        }
    }

    /// The index of the selected entry of what is listed.
    pub open spec fn listed_index(&self) -> nat {
        if self.query_view().len() == 0 {
            self.buffer_index()
        } else {
            self.found_index()
        }
    }

    /// A mode that starts indexing `path`.
    pub fn new(path: std::path::PathBuf, config: SearchSelectConfig) -> (m: OpenMode)
        ensures
            m.insert_view(),
            m.query_view() == Seq::<char>::empty(),
            m.pinned_view() == Seq::<Seq<char>>::empty(),
            m.indexing(),
            m.indexed_path() == path,
            m.buffers_view() == Seq::<DisplayablePath>::empty(),
            m.found_view() == Seq::<DisplayablePath>::empty(),
            m.marked_view() == Set::<usize>::empty(),
            m.config_view() == config,
    {
        OpenMode {
            insert: true,
            input: String::new(),
            pinned: PinnedQuery { text: String::new(), words: Ghost(Seq::empty()) },
            index: OpenModeIndex::Indexing(path),
            buffers: SelectableVec::new(Vec::new()),
            results: SelectableVec::new(Vec::new()),
            marked_results: std::collections::HashSet::new(),
            config,
        }
    }

    /// Installs the finished index.
    pub fn set_index(&mut self, index: bloodhound::Index)
        ensures
            !final(self).indexing(),
            final(self).index_view() == index,
            final(self).query_view() == old(self).query_view(),
            final(self).pinned_view() == old(self).pinned_view(),
            final(self).buffers_view() == old(self).buffers_view(),
            final(self).found_view() == old(self).found_view(),
            final(self).marked_view() == old(self).marked_view(),
            final(self).insert_view() == old(self).insert_view(),
            final(self).buffer_index() == old(self).buffer_index(),
            final(self).config_view() == old(self).config_view(),
    {
        self.index = OpenModeIndex::Complete(index);
    }

    /// Starts a new search: the query is cleared, the index is to be rebuilt for
    /// `path`, and the open buffers (by path, in workspace order) are listed with
    /// the current one selected. Fails, like selecting it would, when the current
    /// buffer's index is not among them. The pinned query is kept.
    pub fn reset(
        &mut self,
        path: std::path::PathBuf,
        buffers: Vec<DisplayablePath>,
        current: Option<usize>,
        config: SearchSelectConfig,
    ) -> (r: Result<(), crate::errors::AmpError>)
        ensures
            final(self).insert_view(),
            final(self).query_view() == Seq::<char>::empty(),
            final(self).pinned_view() == old(self).pinned_view(),
            final(self).config_view() == config,
            final(self).indexing(),
            final(self).indexed_path() == path,
            final(self).buffers_view() == buffers@,
            match current {
                Some(i) => if i < buffers@.len() {
                    r is Ok && final(self).buffer_index() == i
                } else {
                    r == Err::<(), crate::errors::AmpError>(
                        crate::errors::AmpError::SelectedIndexOutOfRange,
                    )
                },
                None => r is Ok && final(self).buffer_index() == 0,
            },
            r is Ok ==> final(self).found_view() == Seq::<DisplayablePath>::empty(),
            r is Ok ==> final(self).marked_view() == Set::<usize>::empty(),
    {
        self.insert = true;
        self.input = String::new();
        self.config = config;
        self.index = OpenModeIndex::Indexing(path);
        let mut listed = SelectableVec::new(buffers);
        let selected = match current {
            Some(i) => listed.set_selected_index(i),
            None => Ok(()),
        };
        self.buffers = listed;
        if let Err(e) = selected {
            return Err(e);
        }
        self.results = SelectableVec::new(Vec::new());
        self.marked_results = std::collections::HashSet::new();
        Ok(())
    }

    /// The pinned query.
    pub fn pinned_query(&self) -> (q: &str)
        ensures
            q@ == join_words(self.pinned_view()),
    {
        proof {
            use_type_invariant(&self.pinned);
        }
        self.pinned.text.as_str()
    }

    /// Moves the query's words to the end of the pinned query, and clears the query.
    pub fn pin_query(&mut self)
        ensures
            final(self).pinned_view() == old(self).pinned_view() + words(old(self).query_view()),
            final(self).query_view() == Seq::<char>::empty(),
            final(self).insert_view() == old(self).insert_view(),
            final(self).buffers_view() == old(self).buffers_view(),
            final(self).found_view() == old(self).found_view(),
            final(self).marked_view() == old(self).marked_view(),
    {
        proof {
            use_type_invariant(&self.pinned);
        }
        let q = chars_of(self.input.as_str());
        let ws = split_whitespace(&q);
        proof {
            lemma_words_plain(q@, 0);
        }
        let ghost start = self.pinned.words@;
        let mut pinned = chars_of(self.pinned.text.as_str());
        let ghost mut acc = start;
        let mut i: usize = 0;
        while i < ws.len()
            invariant
                0 <= i <= ws@.len(),
                ws@.len() == words(q@).len(),
                forall|k: int| 0 <= k < ws@.len() ==> #[trigger] ws@[k]@ == words(q@)[k],
                forall|k: int| 0 <= k < words(q@).len() ==> plain_word(#[trigger] words(q@)[k]),
                all_plain(start),
                acc == start + words(q@).subrange(0, i as int),
                all_plain(acc),
                pinned@ == join_words(acc),
            decreases ws@.len() - i,
        {
            proof {
                lemma_join_empty(acc);
            }
            let w = &ws[i];
            let ghost before = pinned@;
            if pinned.len() > 0 {
                pinned.push(' ');
            }
            let mut k: usize = 0;
            while k < w.len()
                invariant
                    0 <= k <= w@.len(),
                    pinned@ == (if before.len() > 0 {
                        before + seq![' ']
                    } else {
                        before
                    }) + w@.subrange(0, k as int),
                decreases w@.len() - k,
            {
                pinned.push(w[k]);
                k = k + 1;
            }
            proof {
                let nacc = acc.push(w@);
                assert(nacc.drop_last() =~= acc);
                assert(w@.subrange(0, w@.len() as int) =~= w@);
                assert(words(q@)[i as int] == w@);
                if acc.len() == 0 {
                    assert(pinned@ =~= w@);
                    assert(join_words(nacc) == nacc[0]);
                } else {
                    assert(pinned@ =~= before + seq![' '] + w@);
                }
                assert(start + words(q@).subrange(0, i + 1) =~= nacc);
                acc = nacc;
            }
            i = i + 1;
        }
        assert(words(q@).subrange(0, i as int) =~= words(q@));
        self.pinned = PinnedQuery { text: string_from_chars(&pinned), words: Ghost(acc) };
        self.input = String::new();
    }

    /// Removes the query's last token; when the query is empty, removes the
    /// pinned query's last word instead.
    pub fn pop_search_token(&mut self)
        ensures
            old(self).query_view().len() > 0 ==> final(self).query_view() == without_last_token(
                old(self).query_view(),
            ) && final(self).pinned_view() == old(self).pinned_view(),
            old(self).query_view().len() == 0 ==> final(self).query_view() == old(
                self,
            ).query_view() && final(self).pinned_view() == (if old(self).pinned_view().len() == 0 {
                old(self).pinned_view()
            } else {
                old(self).pinned_view().drop_last()
            }),
            final(self).insert_view() == old(self).insert_view(),
            final(self).buffers_view() == old(self).buffers_view(),
            final(self).found_view() == old(self).found_view(),
            final(self).marked_view() == old(self).marked_view(),
    {
        proof {
            use_type_invariant(&self.pinned);
        }
        if self.input.as_str().is_empty() {
            if self.pinned.text.as_str().is_empty() {
                proof {
                    lemma_join_empty(self.pinned.words@);
                }
                return;
            }
            let ghost ws = self.pinned.words@;
            proof {
                lemma_join_empty(ws);
                lemma_join_last_space(ws);
            }
            let p = chars_of(self.pinned.text.as_str());
            let mut boundary: usize = 0;
            let mut i: usize = 0;
            while i < p.len()
                invariant
                    0 <= i <= p@.len(),
                    boundary <= i,
                    p@ == join_words(ws),
                    ws.len() >= 1,
                    ws.len() >= 2 && i > join_words(ws.drop_last()).len() ==> boundary as int
                        == join_words(ws.drop_last()).len(),
                    ws.len() == 1 ==> boundary == 0,
                    ws.len() >= 2 ==> join_words(ws.drop_last()).len() < p@.len(),
                    ws.len() >= 2 ==> p@[join_words(ws.drop_last()).len() as int] == ' ',
                    forall|k: int|
                        (if ws.len() >= 2 {
                            join_words(ws.drop_last()).len() + 1
                        } else {
                            0
                        }) <= k < p@.len() ==> #[trigger] p@[k] != ' ',
                    ws.len() >= 2 ==> p@ == join_words(ws.drop_last()) + seq![' '] + ws.last(),
                decreases p@.len() - i,
            {
                if p[i] == ' ' {
                    boundary = i;
                }
                i = i + 1;
            }
            let mut kept: Vec<char> = Vec::new();
            let mut k: usize = 0;
            while k < boundary
                invariant
                    0 <= k <= boundary <= p@.len(),
                    kept@ == p@.subrange(0, k as int),
                decreases boundary - k,
            {
                kept.push(p[k]);
                k = k + 1;
                assert(kept@ =~= p@.subrange(0, k as int));
            }
            proof {
                if ws.len() >= 2 {
                    assert(kept@ =~= join_words(ws.drop_last()));
                } else {
                    assert(ws.drop_last() =~= Seq::<Seq<char>>::empty());
                    assert(kept@ =~= join_words(ws.drop_last()));
                }
                assert forall|j: int| 0 <= j < ws.drop_last().len() implies plain_word(
                    #[trigger] ws.drop_last()[j],
                ) by {
                    assert(ws.drop_last()[j] == ws[j]);
                }
            }
            self.pinned = PinnedQuery { text: string_from_chars(&kept), words: Ghost(ws.drop_last()) };
        } else {
            self.input = pop_token(&self.input);
        }
    }
}

impl OpenMode {
    pub fn query(&self) -> (q: &String)
        ensures
            q@ == self.query_view(),
    {
        &self.input
    }

    /// Replaces the query.
    pub fn set_query(&mut self, query: String)
        ensures
            final(self).query_view() == query@,
            final(self).pinned_view() == old(self).pinned_view(),
            final(self).insert_view() == old(self).insert_view(),
            final(self).indexing() == old(self).indexing(),
            final(self).buffers_view() == old(self).buffers_view(),
            final(self).buffer_index() == old(self).buffer_index(),
            final(self).found_view() == old(self).found_view(),
            final(self).found_index() == old(self).found_index(),
            final(self).marked_view() == old(self).marked_view(),
            final(self).config_view() == old(self).config_view(),
    {
        self.input = query;
    }

    /// Appends a character to the query.
    pub fn push_search_char(&mut self, c: char)
        ensures
            final(self).query_view() == old(self).query_view().push(c),
            final(self).pinned_view() == old(self).pinned_view(),
            final(self).found_view() == old(self).found_view(),
            final(self).marked_view() == old(self).marked_view(),
    {
        string_push(&mut self.input, c);
    }

    /// The text handed to the index: the pinned query and the query, in lower
    /// case, with a space between them.
    pub fn search_term(&self) -> (t: String)
        ensures
            t@ == search_text(join_words(self.pinned_view()), self.query_view()),
    {
        proof {
            use_type_invariant(&self.pinned);
        }
        let pinned = to_lowercase(self.pinned.text.as_str());
        let query = to_lowercase(self.input.as_str());
        let mut term = pinned;
        string_push(&mut term, ' ');
        let q = chars_of(query.as_str());
        let mut i: usize = 0;
        while i < q.len()
            invariant
                0 <= i <= q@.len(),
                q@ == lowercase(self.query_view()),
                term@ == lowercase(join_words(self.pinned_view())) + seq![' '] + q@.subrange(
                    0,
                    i as int,
                ),
            decreases q@.len() - i,
        {
            string_push(&mut term, q[i]);
            i = i + 1;
            assert(term@ =~= lowercase(join_words(self.pinned_view())) + seq![' '] + q@.subrange(
                0,
                i as int,
            ));
        }
        assert(q@.subrange(0, i as int) =~= q@);
        term
    }

    /// Searches the index for the search term (see `search_term`), keeping at most
    /// `max_results` paths and clearing the marks; nothing is found while the index
    /// is being built.
    pub fn search(&mut self)
        ensures
            final(self).found_view().len() <= old(self).config_view().max_results,
            old(self).indexing() ==> final(self).found_view() == Seq::<DisplayablePath>::empty(),
            !old(self).indexing() ==> found_paths(
                final(self).found_view(),
                old(self).index_view(),
                search_text(join_words(old(self).pinned_view()), old(self).query_view()),
                old(self).config_view().max_results as nat,
            ),
            final(self).index_view() == old(self).index_view(),
            final(self).indexed_path() == old(self).indexed_path(),
            final(self).found_index() == 0,
            final(self).marked_view() == Set::<usize>::empty(),
            final(self).query_view() == old(self).query_view(),
            final(self).pinned_view() == old(self).pinned_view(),
            final(self).insert_view() == old(self).insert_view(),
            final(self).indexing() == old(self).indexing(),
            final(self).buffers_view() == old(self).buffers_view(),
            final(self).buffer_index() == old(self).buffer_index(),
            final(self).config_view() == old(self).config_view(),
    {
        let results = match &self.index {
            OpenModeIndex::Complete(index) => {
                let term = self.search_term();
                index_find(index, term.as_str(), self.config.max_results)
            },
            OpenModeIndex::Indexing(_) => Vec::new(),
        };
        self.results = SelectableVec::new(results);
        self.marked_results = std::collections::HashSet::new();
    }

    pub fn insert_mode(&self) -> (b: bool)
        ensures
            b == self.insert_view(),
    {
        self.insert
    }

    pub fn set_insert_mode(&mut self, insert_mode: bool)
        ensures
            final(self).insert_view() == insert_mode,
            final(self).query_view() == old(self).query_view(),
            final(self).pinned_view() == old(self).pinned_view(),
            final(self).found_view() == old(self).found_view(),
            final(self).marked_view() == old(self).marked_view(),
    {
        self.insert = insert_mode;
    }

    /// What is listed: the open buffers while the query is empty, else the results.
    pub fn results(&self) -> (r: &[DisplayablePath])
        ensures
            r@ == self.listed(),
    {
        if self.input.as_str().is_empty() {
            self.buffers.as_slice()
        } else {
            self.results.as_slice()
        }
    }

    /// The selected entry of what is listed.
    pub fn selection(&self) -> (s: Option<&DisplayablePath>)
        ensures
            self.listed().len() == 0 ==> s is None,
            self.listed().len() > 0 ==> self.listed_index() < self.listed().len() && s == Some(
                &self.listed()[self.listed_index() as int],
            ),
    {
        if self.input.as_str().is_empty() {
            self.buffers.selection()
        } else {
            self.results.selection()
        }
    }

    /// The index of the selected entry of what is listed.
    pub fn selected_index(&self) -> (i: usize)
        ensures
            i == self.listed_index(),
            i < self.listed().len() || (self.listed().len() == 0 && i == 0),
    {
        if self.input.as_str().is_empty() {
            self.buffers.selected_index()
        } else {
            self.results.selected_index()
        }
    }

    /// Moves the selection of what is listed back, wrapping to the last entry.
    pub fn select_previous(&mut self)
        requires
            old(self).listed().len() > 0,
        ensures
            final(self).listed() == old(self).listed(),
            final(self).listed_index() == crate::selectable_vec::previous_index(
                old(self).listed().len(),
                old(self).listed_index(),
            ),
            final(self).query_view() == old(self).query_view(),
            final(self).marked_view() == old(self).marked_view(),
    {
        if self.input.as_str().is_empty() {
            self.buffers.select_previous();
        } else {
            self.results.select_previous();
        }
    }

    /// Moves the selection of what is listed forward, wrapping to the first entry.
    pub fn select_next(&mut self)
        requires
            old(self).listed().len() > 0,
        ensures
            final(self).listed() == old(self).listed(),
            final(self).listed_index() == crate::selectable_vec::next_index(
                old(self).listed().len(),
                old(self).listed_index(),
            ),
            final(self).query_view() == old(self).query_view(),
            final(self).marked_view() == old(self).marked_view(),
    {
        if self.input.as_str().is_empty() {
            self.buffers.select_next();
        } else {
            self.results.select_next();
        }
    }

    pub fn config(&self) -> (c: &SearchSelectConfig)
        ensures
            *c == self.config_view(),
    {
        &self.config
    }

    /// A prompt for the user. None while several buffers are open and nothing is
    /// typed (they are listed instead); while the index is built, a notice naming
    /// the indexed directory; without any query, a request for one; when nothing is
    /// listed, a notice that nothing matched.
    pub fn message(&self) -> (m: Option<String>)
        ensures
            self.buffers_view().len() > 1 && self.query_view().len() == 0 ==> m is None,
            !(self.buffers_view().len() > 1 && self.query_view().len() == 0) ==> {
                if self.indexing() {
                    m matches Some(t) && t@ == "Indexing "@ + lossy_text(self.indexed_path())
                } else if self.pinned_view().len() == 0 && self.query_view().len() == 0 {
                    m matches Some(t) && t@ == "Enter a search query to start."@
                } else if self.listed().len() == 0 {
                    m matches Some(t) && t@ == "No matching entries found."@
                } else {
                    m is None
                }
            },
    {
        proof {
            use_type_invariant(&self.pinned);
            lemma_join_empty(self.pinned.words@);
        }
        if self.buffers.len() > 1 && self.input.as_str().is_empty() {
            return None;
        }
        match &self.index {
            OpenModeIndex::Indexing(path) => {
                let mut text = String::from_str("Indexing ");
                text.append(path_text(path).as_str());
                Some(text)
            },
            OpenModeIndex::Complete(_) => {
                if self.pinned.text.as_str().is_empty() && self.input.as_str().is_empty() {
                    Some(String::from_str("Enter a search query to start."))
                } else if self.results().len() == 0 {
                    Some(String::from_str("No matching entries found."))
                } else {
                    None
                }
            },
        }
    }

    /// Marks the selected entry, or unmarks it when it is marked.
    pub fn toggle_selection(&mut self)
        ensures
            old(self).marked_view().contains(old(self).listed_index() as usize) ==> final(self).marked_view()
                == old(self).marked_view().remove(old(self).listed_index() as usize),
            !old(self).marked_view().contains(old(self).listed_index() as usize) ==> final(self).marked_view()
                == old(self).marked_view().insert(old(self).listed_index() as usize),
            final(self).query_view() == old(self).query_view(),
            final(self).listed() == old(self).listed(),
            final(self).listed_index() == old(self).listed_index(),
    {
        broadcast use vstd::std_specs::hash::group_hash_axioms;

        let index = self.selected_index();
        if self.marked_results.contains(&index) {
            self.marked_results.remove(&index);
        } else {
            self.marked_results.insert(index);
        }
    }

    /// The marked results, in the order the set of marks is walked, and then the
    /// selected entry.
    pub fn selections(&self) -> (r: Vec<&DisplayablePath>)
        requires
            forall|k: usize| #[trigger] self.marked_view().contains(k) ==> k < self.found_view().len(),
            self.listed().len() > 0,
        ensures
            exists|order: Seq<usize>|
                {
                    &&& order.no_duplicates()
                    &&& order.to_set() == self.marked_view()
                    &&& r@.len() == order.len() + 1
                    &&& forall|k: int| 0 <= k < order.len() ==> *r@[k] == self.found_view()[#[trigger] order[k] as int]
                },
            *r@.last() == self.listed()[self.listed_index() as int],
    {
        let marked = self.marked_indices();
        let mut r: Vec<&DisplayablePath> = Vec::new();
        let mut k: usize = 0;
        while k < marked.len()
            invariant
                0 <= k <= marked@.len(),
                marked@.to_set() == self.marked_view(),
                forall|j: usize| #[trigger] self.marked_view().contains(j) ==> j < self.found_view().len(),
                r@.len() == k,
                forall|j: int| 0 <= j < k ==> *r@[j] == self.found_view()[#[trigger] marked@[j] as int],
            decreases marked@.len() - k,
        {
            assert(marked@.to_set().contains(marked@[k as int]));
            match self.results.get(marked[k]) {
                Some(p) => r.push(p),
                None => {
                    assert(false);
                },
            }
            k = k + 1;
        }
        match self.selection() {
            Some(p) => r.push(p),
            None => {
                assert(false);
            },
        }
        assert(r@.len() == marked@.len() + 1);
        r
    }

    /// The marks, each once, in the order the set of marks is walked.
    fn marked_indices(&self) -> (r: Vec<usize>)
        ensures
            r@.no_duplicates(),
            r@.to_set() == self.marked_view(),
    {
        broadcast use vstd::std_specs::hash::group_hash_axioms;

        let ghost keys = vstd::std_specs::hash::spec_hash_keys_iter(&self.marked_results).remaining().unref();
        proof {
            vstd::std_specs::hash::axiom_spec_hash_keys_iter(&self.marked_results);
            let rem = vstd::std_specs::hash::spec_hash_keys_iter(&self.marked_results).remaining();
            assert forall|i: int, j: int| 0 <= i < keys.len() && 0 <= j < keys.len() && i != j implies keys[i]
                != keys[j] by {
                assert(rem[i] != rem[j]);
            }
        }
        let mut r: Vec<usize> = Vec::new();
        for k in it: self.marked_results.iter()
            invariant
                keys == it.seq().unref(),
                keys.to_set() == self.marked_results@,
                keys.no_duplicates(),
                r@ == keys.take(it.index()),
        {
            r.push(*k);
            assert(r@ =~= keys.take(it.index() + 1));
        }
        assert(r@ =~= keys);
        r
    }

    /// The indices of the marked results, in the order the set of marks is walked,
    /// and then the index of the selected entry.
    pub fn selected_indices(&self) -> (r: Vec<usize>)
        ensures
            r@.len() > 0,
            r@.last() == self.listed_index() as usize,
            r@.drop_last().no_duplicates(),
            r@.drop_last().to_set() == self.marked_view(),
    {
        let mut r = self.marked_indices();
        let ghost marked = r@;
        r.push(self.selected_index());
        assert(r@.drop_last() =~= marked);
        r
    }
}

#[verifier::external_type_specification]
#[verifier::external_body]
pub struct ExExclusionPattern(bloodhound::ExclusionPattern);

/// Whether `bloodhound::ExclusionPattern::new` (a glob pattern) accepts a text.
pub uninterp spec fn pattern_accepted(pattern: Seq<char>) -> bool;

/// Calls `bloodhound::ExclusionPattern::new`; `None` when it refuses the text.
#[verifier::external_body]
fn exclusion_pattern(pattern: &str) -> (r: Option<bloodhound::ExclusionPattern>)
    ensures
        r is Some <==> pattern_accepted(pattern@),
{
    bloodhound::ExclusionPattern::new(pattern).ok()
}

/// Why exclusion settings were refused.
#[derive(Clone, Debug, PartialEq)]
pub enum ExclusionError {
    /// This pattern is not a valid glob.
    InvalidPattern(String),
    /// An exclusion is not a string.
    NotAString,
}

/// The first problem with a list of exclusions, if any: an entry that is not a
/// string, or a string that is not a valid pattern.
pub open spec fn exclusion_problem(entries: Seq<crate::preferences::YamlValue>) -> Option<Option<Seq<char>>>
    decreases entries.len(),
{
    if entries.len() == 0 {
        None
    } else {
        match entries[0] {
            crate::preferences::YamlValue::String(p) => if pattern_accepted(p@) {
                exclusion_problem(entries.drop_first())
            } else {
                Some(Some(p@))
            },
            _ => Some(None),
        }
    }
}

/// Converts exclusion settings (strings) into glob patterns, one for each.
pub fn parse(exclusion_data: &Vec<crate::preferences::YamlValue>) -> (r: Result<Vec<bloodhound::ExclusionPattern>, ExclusionError>)
    ensures
        match exclusion_problem(exclusion_data@) {
            None => r matches Ok(v) && v@.len() == exclusion_data@.len(),
            Some(None) => r == Err::<Vec<bloodhound::ExclusionPattern>, ExclusionError>(ExclusionError::NotAString),
            Some(Some(p)) => r matches Err(ExclusionError::InvalidPattern(q)) && q@ == p,
        },
{
    let mut mapped: Vec<bloodhound::ExclusionPattern> = Vec::new();
    let mut i: usize = 0;
    assert(exclusion_data@.subrange(0, exclusion_data@.len() as int) =~= exclusion_data@);
    while i < exclusion_data.len()
        invariant
            0 <= i <= exclusion_data@.len(),
            mapped@.len() == i,
            exclusion_problem(exclusion_data@) == exclusion_problem(
                exclusion_data@.subrange(i as int, exclusion_data@.len() as int),
            ),
        decreases exclusion_data@.len() - i,
    {
        let ghost rest = exclusion_data@.subrange(i as int, exclusion_data@.len() as int);
        assert(rest.drop_first() =~= exclusion_data@.subrange(i + 1, exclusion_data@.len() as int));
        match &exclusion_data[i] {
            crate::preferences::YamlValue::String(pattern) => match exclusion_pattern(pattern.as_str()) {
                Some(x) => {
                    mapped.push(x);
                },
                None => {
                    return Err(ExclusionError::InvalidPattern(pattern.clone()));
                },
            },
            _ => {
                return Err(ExclusionError::NotAString);
            },
        }
        i = i + 1;
    }
    Ok(mapped)
}

} // verus!
