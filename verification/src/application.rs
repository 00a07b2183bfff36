//! The application's modes: which one is active, and switching between them.

use vstd::prelude::*;
use crate::modes::{
    ConfirmMode, LineJumpMode, ModeKey, PathMode, Position, SearchMode, SelectLineMode, SelectMode,
};
use crate::open_mode::{found_paths, join_words, search_text, OpenMode};
use crate::search_select::{SearchSelectConfig, SearchSelectMode};
use crate::select_modes::{CommandMode, DisplayableCommand, SyntaxMode, ThemeMode};
use crate::jump::{JumpMode, JumpState};
use crate::tag_generator::TAG_INDEX_START;
use crate::symbol_jump::{Symbol, SymbolJumpMode};

verus! {

/// A mode of the application with its state. `C` is the type of the commands
/// that command and confirm modes run.
pub enum Mode<C> {
    Command(CommandMode<C>),
    Confirm(ConfirmMode<C>),
    Exit,
    Insert,
    Jump(JumpMode),
    LineJump(LineJumpMode),
    Normal,
    Open(OpenMode),
    Paste,
    Path(PathMode),
    Search(SearchMode),
    Select(SelectMode),
    SelectLine(SelectLineMode),
    SymbolJump(SymbolJumpMode),
    Syntax(SyntaxMode),
    Theme(ThemeMode),
}

/// The name of the key map that serves a search/select mode.
pub open spec fn search_select_name(insert: bool) -> Seq<char> {
    if insert {
        "search_select_insert"@
    } else {
        "search_select"@
    }
}

/// The name under which a mode's key bindings are found: search/select modes and
/// search mode are named by whether their query is being typed; exiting has none.
pub open spec fn mode_name<C: Copy>(m: Mode<C>) -> Option<Seq<char>> {
    match m {
        Mode::Command(c) => Some(search_select_name(c.insert_view())),
        Mode::SymbolJump(s) => Some(search_select_name(s.insert_view())),
        Mode::Open(o) => Some(search_select_name(o.insert_view())),
        Mode::Theme(t) => Some(search_select_name(t.insert_view())),
        Mode::Syntax(s) => Some(search_select_name(s.insert_view())),
        Mode::Normal => Some("normal"@),
        Mode::Paste => Some("paste"@),
        Mode::Path(_) => Some("path"@),
        Mode::Confirm(_) => Some("confirm"@),
        Mode::Insert => Some("insert"@),
        Mode::Jump(_) => Some("jump"@),
        Mode::LineJump(_) => Some("line_jump"@),
        Mode::Select(_) => Some("select"@),
        Mode::SelectLine(_) => Some("select_line"@),
        Mode::Search(s) => Some(
            if s.insert {
                "search_insert"@
            } else {
                "search"@
            },
        ),
        Mode::Exit => None,
    }
}

fn search_select_str(insert: bool) -> (r: &'static str)
    ensures
        r@ == search_select_name(insert),
{
    if insert {
        "search_select_insert"
    } else {
        "search_select"
    }
}

impl<C: Copy> Mode<C> {
    /// The name under which the mode's key bindings are found (see `mode_name`).
    pub fn mode_str(&self) -> (r: Option<&'static str>)
        ensures
            r matches Some(s) ==> mode_name(*self) == Some(s@),
            r is None ==> mode_name(*self) is None,
    {
        match self {
            Mode::Command(mode) => Some(search_select_str(mode.insert_mode())),
            Mode::SymbolJump(mode) => Some(search_select_str(mode.insert_mode())),
            Mode::Open(mode) => Some(search_select_str(mode.insert_mode())),
            Mode::Theme(mode) => Some(search_select_str(mode.insert_mode())),
            Mode::Syntax(mode) => Some(search_select_str(mode.insert_mode())),
            Mode::Normal => Some("normal"),
            Mode::Paste => Some("paste"),
            Mode::Path(_) => Some("path"),
            Mode::Confirm(_) => Some("confirm"),
            Mode::Insert => Some("insert"),
            Mode::Jump(_) => Some("jump"),
            Mode::LineJump(_) => Some("line_jump"),
            Mode::Select(_) => Some("select"),
            Mode::SelectLine(_) => Some("select_line"),
            Mode::Search(mode) => {
                if mode.insert_mode() {
                    Some("search_insert")
                } else {
                    Some("search")
                }
            },
            Mode::Exit => None,
        }
    }
}

impl<C: Copy> Mode<C> {
    /// Takes in the finished file index: when open mode is active, it gets the
    /// index and searches again (a query may have been typed while indexing);
    /// other modes are left alone.
    pub fn index_complete(&mut self, index: bloodhound::Index)
        ensures
            match (*old(self), *final(self)) {
                (Mode::Open(before), Mode::Open(after)) => {
                    &&& !after.indexing()
                    &&& after.index_view() == index
                    &&& found_paths(
                        after.found_view(),
                        index,
                        search_text(join_words(before.pinned_view()), before.query_view()),
                        before.config_view().max_results as nat,
                    )
                    &&& after.found_index() == 0
                    &&& after.query_view() == before.query_view()
                    &&& after.pinned_view() == before.pinned_view()
                    &&& after.insert_view() == before.insert_view()
                    &&& after.buffers_view() == before.buffers_view()
                    &&& after.buffer_index() == before.buffer_index()
                    &&& after.config_view() == before.config_view()
                    &&& after.found_view().len() <= before.config_view().max_results
                    &&& after.marked_view() == Set::<usize>::empty()
                },
                (Mode::Open(_), _) => false,
                (before, after) => after == before,
            },
    {
        match self {
            Mode::Open(open_mode) => {
                open_mode.set_index(index);
                open_mode.search();
            },
            _ => {},
        }
    }
}

/// The slot in which the mode of a key is kept while it is not active.
pub open spec fn slot(k: ModeKey) -> int {
    match k {
        ModeKey::Command => 0,
        ModeKey::Confirm => 1,
        ModeKey::Exit => 2,
        ModeKey::Insert => 3,
        ModeKey::Jump => 4,
        ModeKey::LineJump => 5,
        ModeKey::Normal => 6,
        ModeKey::Open => 7,
        ModeKey::Paste => 8,
        ModeKey::Path => 9,
        ModeKey::Search => 10,
        ModeKey::Select => 11,
        ModeKey::SelectLine => 12,
        ModeKey::SymbolJump => 13,
        ModeKey::Syntax => 14,
        ModeKey::Theme => 15,
    }
}

/// The number of mode keys.
pub const MODE_COUNT: usize = 16;

fn slot_of(k: ModeKey) -> (i: usize)
    ensures
        i == slot(k),
        i < MODE_COUNT,
{
    match k {
        ModeKey::Command => 0,
        ModeKey::Confirm => 1,
        ModeKey::Exit => 2,
        ModeKey::Insert => 3,
        ModeKey::Jump => 4,
        ModeKey::LineJump => 5,
        ModeKey::Normal => 6,
        ModeKey::Open => 7,
        ModeKey::Paste => 8,
        ModeKey::Path => 9,
        ModeKey::Search => 10,
        ModeKey::Select => 11,
        ModeKey::SelectLine => 12,
        ModeKey::SymbolJump => 13,
        ModeKey::Syntax => 14,
        ModeKey::Theme => 15,
    }
}

proof fn lemma_slot_injective(a: ModeKey, b: ModeKey)
    ensures
        slot(a) == slot(b) <==> a == b,
{
}

/// The modes of the application: the active one with its key, the key of the
/// mode that was active before it, and the modes that are not active, by key.
pub struct ModeState<M> {
    pub active: M,
    pub current: ModeKey,
    pub previous: ModeKey,
    pub parked: Map<ModeKey, M>,
}

/// The modes after switching to `key`: nothing changes when it is the current
/// mode; otherwise its mode becomes active, the active one is kept under its key,
/// and the key switched from becomes the previous one.
pub open spec fn switched<M>(s: ModeState<M>, key: ModeKey) -> ModeState<M> {
    if key == s.current {
        s
    } else {
        ModeState {
            active: s.parked[key],
            current: key,
            previous: s.current,
            parked: s.parked.remove(key).insert(s.current, s.active),
        }
    }
}

/// Whether a switch to `key` is possible: it is the current mode, or its mode is
/// kept.
pub open spec fn can_switch<M>(s: ModeState<M>, key: ModeKey) -> bool {
    key == s.current || s.parked.contains_key(key)
}

/// The application's modes, each kept under its key while it is not active.
pub struct Modes<M> {
    mode: M,
    current_mode: ModeKey,
    previous_mode: ModeKey,
    slots: Vec<Option<M>>,
}

impl<M> Modes<M> {
    /// The modes, with a slot for every key.
    pub closed spec fn well_formed(&self) -> bool {
        self.slots@.len() == MODE_COUNT
    }

    /// The state of the modes.
    pub closed spec fn state(&self) -> ModeState<M> {
        ModeState {
            active: self.mode,
            current: self.current_mode,
            previous: self.previous_mode,
            parked: Map::new(
                |k: ModeKey| self.slots@[slot(k)] is Some,
                |k: ModeKey| self.slots@[slot(k)]->0,
            ),
        }
    }

    /// `mode` active under `key`, which is also the previous key, and no other
    /// mode kept.
    pub fn new(key: ModeKey, mode: M) -> (r: Modes<M>)
        ensures
            r.well_formed(),
            r.state().active == mode,
            r.state().current == key,
            r.state().previous == key,
            r.state().parked == Map::<ModeKey, M>::empty(),
    {
        let mut slots: Vec<Option<M>> = Vec::new();
        let mut i: usize = 0;
        while i < MODE_COUNT
            invariant
                0 <= i <= MODE_COUNT,
                slots@.len() == i,
                forall|j: int| 0 <= j < i ==> slots@[j] is None,
            decreases MODE_COUNT - i,
        {
            slots.push(None);
            i = i + 1;
        }
        let r = Modes { mode, current_mode: key, previous_mode: key, slots };
        assert(r.state().parked =~= Map::<ModeKey, M>::empty());
        r
    }

    /// Keeps `mode` under `key`, replacing any mode kept there.
    pub fn insert(&mut self, key: ModeKey, mode: M)
        requires
            old(self).well_formed(),
        ensures
            final(self).well_formed(),
            final(self).state() == (ModeState {
                parked: old(self).state().parked.insert(key, mode),
                ..old(self).state()
            }),
    {
        let i = slot_of(key);
        self.slots.set(i, Some(mode));
        proof {
            assert forall|k: ModeKey| #[trigger] slot(k) == slot(key) <==> k == key by {
                lemma_slot_injective(k, key);
            }
        }
        assert(self.state().parked =~= old(self).state().parked.insert(key, mode));
    }

    /// The active mode.
    pub fn mode(&self) -> (m: &M)
        ensures
            *m == self.state().active,
    {
        &self.mode
    }

    /// The key of the active mode.
    pub fn current_mode(&self) -> (k: ModeKey)
        ensures
            k == self.state().current,
    {
        self.current_mode
    }

    /// The key of the mode active before the current one.
    pub fn previous_mode(&self) -> (k: ModeKey)
        ensures
            k == self.state().previous,
    {
        self.previous_mode
    }

    /// Write access to the active mode.
    pub fn mode_mut(&mut self) -> (m: &mut M)
        ensures
            *m == old(self).state().active,
            final(self).well_formed() == old(self).well_formed(),
            final(self).state() == (ModeState { active: *final(m), ..old(self).state() }),
    {
        &mut self.mode
    }

    /// Replaces the active mode's state.
    pub fn set_mode(&mut self, mode: M)
        ensures
            final(self).well_formed() == old(self).well_formed(),
            final(self).state() == (ModeState { active: mode, ..old(self).state() }),
    {
        self.mode = mode;
    }

    /// Switches to the mode kept under `key` (see `switched`).
    pub fn switch_to(&mut self, key: ModeKey)
        requires
            old(self).well_formed(),
            can_switch(old(self).state(), key),
        ensures
            final(self).well_formed(),
            final(self).state() == switched(old(self).state(), key),
    {
        if self.current_mode == key {
            return;
        }
        let i = slot_of(key);
        let current = self.current_mode;
        let j = slot_of(current);
        proof {
            lemma_slot_injective(key, current);
            assert(self.slots@[slot(key)] is Some);
        }
        // Check out the specified mode, and check in the active one.
        let mut taken: Option<M> = None;
        self.slots.set_and_swap(i, &mut taken);
        let mode = match taken {
            Some(m) => m,
            None => {
                proof {
                    assert(false);
                }
                return;
            },
        };
        let mut previous = mode;
        std::mem::swap(&mut self.mode, &mut previous);
        self.slots.set(j, Some(previous));
        self.previous_mode = current;
        self.current_mode = key;
        proof {
            assert forall|k: ModeKey| #[trigger] slot(k) == slot(key) <==> k == key by {
                lemma_slot_injective(k, key);
            }
            assert forall|k: ModeKey| #[trigger] slot(k) == slot(current) <==> k == current by {
                lemma_slot_injective(k, current);
            }
        }
        assert(self.state().parked =~= old(self).state().parked.remove(key).insert(
            current,
            old(self).state().active,
        ));
    }

    /// Switches back to the mode that was active before the current one.
    pub fn switch_to_previous_mode(&mut self)
        requires
            old(self).well_formed(),
            can_switch(old(self).state(), old(self).state().previous),
        ensures
            final(self).well_formed(),
            final(self).state() == switched(old(self).state(), old(self).state().previous),
    {
        let previous = self.previous_mode;
        self.switch_to(previous);
    }
}

/// Whether every mode but the active one is kept, so that a switch to any key is
/// possible.
pub open spec fn complete<M>(s: ModeState<M>) -> bool {
    forall|k: ModeKey| k != s.current ==> #[trigger] s.parked.contains_key(k)
}

/// The application's modes as it starts: normal mode is active, and every mode
/// is kept in its initial state. Command mode offers `commands`, confirm mode runs
/// `confirm_command`, jump mode starts for a cursor on the first line, open mode
/// indexes
/// `workspace_path`, symbol jump mode lists `symbols`; the search/select modes
/// show at most as many results as `config` says.
pub fn create_modes<C: Copy>(
    config: SearchSelectConfig,
    commands: Vec<DisplayableCommand<C>>,
    confirm_command: C,
    workspace_path: std::path::PathBuf,
    symbols: Vec<Symbol>,
) -> (m: Modes<Mode<C>>)
    ensures
        m.well_formed(),
        m.state().current == ModeKey::Normal,
        m.state().previous == ModeKey::Normal,
        m.state().active == Mode::<C>::Normal,
        forall|k: ModeKey| #[trigger] m.state().parked.contains_key(k),
        complete(m.state()),
        m.state().parked[ModeKey::Exit] == Mode::<C>::Exit,
        m.state().parked[ModeKey::Insert] == Mode::<C>::Insert,
        m.state().parked[ModeKey::Normal] == Mode::<C>::Normal,
        m.state().parked[ModeKey::Paste] == Mode::<C>::Paste,
        m.state().parked[ModeKey::Jump] matches Mode::Jump(j) && j.well_formed() && j.state()
            == (JumpState {
                first_phase: true,
                cursor_line: 0,
                single: TAG_INDEX_START,
                double: 0,
                tags: Map::empty(),
                position: Position { line: 0, offset: 0 },
            }) && j.input_view().len() == 0 && j.selection_view() is Unselected,
        m.state().parked[ModeKey::Command] matches Mode::Command(c) && c.insert_view() && c.config_view() == config
            && c.commands_view() == commands@ && c.query_view().len() == 0 && c.results_view().len() == 0,
        m.state().parked[ModeKey::Confirm] matches Mode::Confirm(c) && c.command == confirm_command,
        m.state().parked[ModeKey::LineJump] matches Mode::LineJump(l) && l.input@.len() == 0,
        m.state().parked[ModeKey::Open] matches Mode::Open(o) && o.insert_view() && o.indexing()
            && o.indexed_path() == workspace_path && o.query_view().len() == 0 && o.pinned_view().len() == 0
            && o.buffers_view().len() == 0 && o.found_view().len() == 0 && o.config_view() == config,
        m.state().parked[ModeKey::Path] matches Mode::Path(p) && p.input@.len() == 0 && !p.save_on_accept,
        m.state().parked[ModeKey::Search] matches Mode::Search(s) && s.insert && s.input is None
            && s.results is None,
        m.state().parked[ModeKey::Select] == Mode::<C>::Select(
            SelectMode { anchor: Position { line: 0, offset: 0 } },
        ),
        m.state().parked[ModeKey::SelectLine] == Mode::<C>::SelectLine(SelectLineMode { anchor: 0 }),
        m.state().parked[ModeKey::SymbolJump] matches Mode::SymbolJump(s) && s.insert_view()
            && s.config_view() == config && s.symbols_view() == symbols@ && s.query_view().len() == 0
            && s.results_view().len() == 0,
        m.state().parked[ModeKey::Syntax] matches Mode::Syntax(s) && s.insert_view() && s.config_view()
            == config && s.syntaxes_view().len() == 0 && s.query_view().len() == 0 && s.results_view().len() == 0,
        m.state().parked[ModeKey::Theme] matches Mode::Theme(t) && t.insert_view() && t.config_view()
            == config && t.themes_view().len() == 0 && t.query_view().len() == 0 && t.results_view().len() == 0,
{
    let max_results = config.max_results;
    let mut modes = Modes::new(ModeKey::Normal, Mode::Normal);
    // The modes without state first.
    modes.insert(ModeKey::Exit, Mode::Exit);
    modes.insert(ModeKey::Insert, Mode::Insert);
    modes.insert(ModeKey::Normal, Mode::Normal);
    modes.insert(ModeKey::Paste, Mode::Paste);
    modes.insert(
        ModeKey::Command,
        Mode::Command(CommandMode::new(commands, SearchSelectConfig { max_results })),
    );
    modes.insert(ModeKey::Confirm, Mode::Confirm(ConfirmMode::new(confirm_command)));
    modes.insert(ModeKey::Jump, Mode::Jump(JumpMode::new(0)));
    modes.insert(ModeKey::LineJump, Mode::LineJump(LineJumpMode::new()));
    modes.insert(
        ModeKey::Open,
        Mode::Open(OpenMode::new(workspace_path, SearchSelectConfig { max_results })),
    );
    modes.insert(ModeKey::Path, Mode::Path(PathMode::new()));
    modes.insert(ModeKey::Search, Mode::Search(SearchMode::new(None)));
    modes.insert(ModeKey::Select, Mode::Select(SelectMode::new(Position { line: 0, offset: 0 })));
    modes.insert(ModeKey::SelectLine, Mode::SelectLine(SelectLineMode::new(0)));
    modes.insert(
        ModeKey::SymbolJump,
        Mode::SymbolJump(SymbolJumpMode::new(symbols, SearchSelectConfig { max_results })),
    );
    modes.insert(ModeKey::Syntax, Mode::Syntax(SyntaxMode::new(SearchSelectConfig { max_results })));
    modes.insert(ModeKey::Theme, Mode::Theme(ThemeMode::new(config)));
    proof {
        assert forall|k: ModeKey| #[trigger] modes.state().parked.contains_key(k) by {
            match k {
                ModeKey::Command => {},
                ModeKey::Confirm => {},
                ModeKey::Exit => {},
                ModeKey::Insert => {},
                ModeKey::Jump => {},
                ModeKey::LineJump => {},
                ModeKey::Normal => {},
                ModeKey::Open => {},
                ModeKey::Paste => {},
                ModeKey::Path => {},
                ModeKey::Search => {},
                ModeKey::Select => {},
                ModeKey::SelectLine => {},
                ModeKey::SymbolJump => {},
                ModeKey::Syntax => {},
                ModeKey::Theme => {},
            }
        }
    }
    modes
}

/// Once every mode but the active one is kept, a switch to any mode is possible,
/// and after it every mode but the new active one is still kept: switching never
/// finds a mode missing.
pub proof fn law_switching_keeps_every_mode<M>(s: ModeState<M>, key: ModeKey)
    requires
        complete(s),
    ensures
        can_switch(s, key),
        complete(switched(s, key)),
        can_switch(switched(s, key), switched(s, key).previous),
{
}

/// Switching to another mode and then back to the previous one makes the first
/// mode active again, with the state it had; the other mode is kept with the
/// state it was left in, and no longer counts the first one's old copy.
pub proof fn law_switching_back_restores<M>(s: ModeState<M>, key: ModeKey)
    requires
        key != s.current,
        s.parked.contains_key(key),
    ensures
        can_switch(switched(s, key), switched(s, key).previous),
        switched(switched(s, key), switched(s, key).previous) == (ModeState {
            active: s.active,
            current: s.current,
            previous: key,
            parked: s.parked.remove(s.current),
        }),
{
    let t = switched(s, key);
    assert(t.parked.contains_key(s.current));
    let u = switched(t, t.previous);
    assert(u.parked =~= s.parked.remove(s.current));
}

/// Switching to the previous mode activates the mode kept for it and makes the
/// mode switched from the previous one; switching to the previous mode again
/// restores the first mode, with the state it had.
pub proof fn law_switching_to_previous_twice_restores<M>(s: ModeState<M>)
    requires
        s.current != s.previous,
        s.parked.contains_key(s.previous),
    ensures
        can_switch(s, s.previous),
        switched(s, s.previous).current == s.previous,
        switched(s, s.previous).previous == s.current,
        switched(s, s.previous).active == s.parked[s.previous],
        can_switch(switched(s, s.previous), switched(s, s.previous).previous),
        switched(switched(s, s.previous), switched(s, s.previous).previous).current == s.current,
        switched(switched(s, s.previous), switched(s, s.previous).previous).previous == s.previous,
        switched(switched(s, s.previous), switched(s, s.previous).previous).active == s.active,
{
    let t = switched(s, s.previous);
    assert(t.parked.contains_key(s.current));
}

/// Switching to the mode that is already active changes nothing.
pub proof fn law_switching_to_current_is_idle<M>(s: ModeState<M>)
    ensures
        can_switch(s, s.current),
        switched(s, s.current) == s,
{
}

} // verus!
