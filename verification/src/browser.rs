//! The browser's state machine: list navigation, live substring search
//! and session drill-down over an in-memory snapshot of the history.
//!
//! The visible list always derives deterministically from the snapshot,
//! the active session filter and the active search query; the snapshot
//! itself is never altered.  Records arrive most recent first and are
//! shown newest-last, so "the most recent" is the last visible element.
//!
//! Boundary policy for the selection (the revisions of this machine
//! differed here, so it is fixed and documented): moving down from the
//! last element wraps to the first; moving up from the first element
//! stays there.

use vstd::prelude::*;

use crate::store::CommandHistoryEntry;
use crate::store::EntryModel;
use crate::text::contains_ci;
use crate::text::lower_char;
use crate::text::lower_seq;
use crate::text::to_lower_char;
use crate::text::matches_at;

verus! {

/// One input event, as the state machine sees it.  The front end maps
/// terminal key presses onto these; keys it does not know are simply not
/// delivered.
#[derive(Clone, Copy, Debug)]
pub enum Key {
    Up,
    Down,
    Enter,
    Backspace,
    Esc,
    Char(char),
}

/// The browser's full state over an immutable snapshot.
pub struct App {
    /// The visible records, newest-last: what the list renders.
    pub commands: Vec<CommandHistoryEntry>,
    /// The selection: an index into `commands`, `None` exactly when
    /// nothing is visible.  (Replaces the terminal library's list state.)
    pub selected: Option<usize>,
    pub should_quit: bool,
    pub show_help: bool,
    /// `Some(session)` while drilled into one session's records.
    pub session_view: Option<i64>,
    /// The snapshot as loaded, most recent first.
    pub all_commands: Vec<CommandHistoryEntry>,
    pub search_mode: bool,
    /// The live search query.
    pub search_query: Vec<char>,
    /// The last filtering result, kept alongside `commands`.
    pub filtered_commands: Vec<CommandHistoryEntry>,
}

/// The mathematical value of the browser state.
#[verifier::ext_equal]
pub struct AppModel {
    pub commands: Seq<EntryModel>,
    pub selected: Option<int>,
    pub should_quit: bool,
    pub show_help: bool,
    pub session_view: Option<int>,
    pub all_commands: Seq<EntryModel>,
    pub search_mode: bool,
    pub search_query: Seq<char>,
    pub filtered_commands: Seq<EntryModel>,
}

impl View for App {
    type V = AppModel;

    open spec fn view(&self) -> AppModel {
        AppModel {
            commands: self.commands.deep_view(),
            selected: if self.selected is Some {
                Some(self.selected->0 as int)
            } else {
                None
            },
            should_quit: self.should_quit,
            show_help: self.show_help,
            session_view: if self.session_view is Some {
                Some(self.session_view->0 as int)
            } else {
                None
            },
            all_commands: self.all_commands.deep_view(),
            search_mode: self.search_mode,
            search_query: self.search_query@,
            filtered_commands: self.filtered_commands.deep_view(),
        }
    }
}

/// A record matches a query when the query occurs in its command text,
/// ignoring ASCII case.
pub open spec fn entry_matches(e: EntryModel, q: Seq<char>) -> bool {
    contains_ci(e.command, q)
}

/// What the all-commands view shows for a snapshot and a query: the
/// matching records (all of them for an empty query), newest-last.
pub open spec fn query_filter(all: Seq<EntryModel>, q: Seq<char>) -> Seq<EntryModel> {
    if q.len() == 0 {
        all.reverse()
    } else {
        all.filter(|e: EntryModel| entry_matches(e, q)).reverse()
    }
}

/// What the session view shows: the session's records, newest-last.
pub open spec fn session_filter(all: Seq<EntryModel>, sid: int) -> Seq<EntryModel> {
    all.filter(|e: EntryModel| e.session_id == sid).reverse()
}

/// The selection after any recomputation of the visible list: its most
/// recent (last) element, or nothing when the list is empty.
pub open spec fn last_selection(n: int) -> Option<int> {
    if n == 0 {
        None
    } else {
        Some(n - 1)
    }
}

/// The state machine's invariant: the selection is valid for the visible
/// list and absent exactly when it is empty; the query is empty outside
/// search mode; no search runs inside a session view; and the visible
/// list is the deterministic function of snapshot, session filter and
/// query.
pub open spec fn app_wf(m: AppModel) -> bool {
    &&& match m.selected {
        None => m.commands.len() == 0,
        Some(i) => 0 <= i < m.commands.len(),
    }
    &&& !m.search_mode ==> m.search_query.len() == 0
    &&& m.session_view is Some ==> !m.search_mode
    &&& m.session_view is None ==> m.commands == query_filter(m.all_commands, m.search_query)
        && m.filtered_commands == m.commands
    &&& m.session_view is Some ==> m.commands == session_filter(
        m.all_commands,
        m.session_view->0,
    ) && m.filtered_commands == m.all_commands.reverse()
}

/// The state the browser starts in, given the loaded snapshot.
pub open spec fn app_init(all: Seq<EntryModel>) -> AppModel {
    AppModel {
        commands: all.reverse(),
        selected: last_selection(all.len() as int),
        should_quit: false,
        show_help: false,
        session_view: None,
        all_commands: all,
        search_mode: false,
        search_query: Seq::<char>::empty(),
        filtered_commands: all.reverse(),
    }
}

/// Moving down: one step towards the most recent record, wrapping from
/// the last element to the first.  No-op on an empty list.
pub open spec fn step_next(m: AppModel) -> AppModel {
    if m.commands.len() == 0 {
        m
    } else {
        let i = match m.selected {
            Some(i) => if i >= m.commands.len() - 1 {
                0int
            } else {
                i + 1
            },
            None => 0int,
        };
        AppModel { selected: Some(i), ..m }
    }
}

/// Moving up: one step towards the oldest record, staying at the first
/// element rather than wrapping.  No-op on an empty list.
pub open spec fn step_previous(m: AppModel) -> AppModel {
    if m.commands.len() == 0 {
        m
    } else {
        let i = match m.selected {
            Some(i) => if i == 0 {
                0int
            } else {
                i - 1
            },
            None => 0int,
        };
        AppModel { selected: Some(i), ..m }
    }
}

/// Showing or hiding the help overlay.
pub open spec fn step_toggle_help(m: AppModel) -> AppModel {
    AppModel { show_help: !m.show_help, ..m }
}

/// Recomputing the visible list from the snapshot and the query, with
/// the selection reset to the most recent element.
pub open spec fn step_apply_filter(m: AppModel) -> AppModel {
    let vis = query_filter(m.all_commands, m.search_query);
    AppModel {
        commands: vis,
        filtered_commands: vis,
        selected: last_selection(vis.len() as int),
        ..m
    }
}

/// Entering the session view of the selected record's session.  No-op
/// when nothing is selected.
pub open spec fn step_enter_session(m: AppModel) -> AppModel {
    match m.selected {
        None => m,
        Some(i) => {
            if 0 <= i < m.commands.len() {
                let sid = m.commands[i].session_id;
                let vis = session_filter(m.all_commands, sid);
                AppModel {
                    commands: vis,
                    session_view: Some(sid),
                    selected: last_selection(vis.len() as int),
                    ..m
                }
            } else {
                m
            }
        },
    }
}

/// Leaving the session view: the full snapshot becomes visible again,
/// search is reset, and the most recent record is selected.
pub open spec fn step_exit_session(m: AppModel) -> AppModel {
    let vis = m.all_commands.reverse();
    AppModel {
        commands: vis,
        filtered_commands: vis,
        session_view: None,
        search_mode: false,
        search_query: Seq::<char>::empty(),
        selected: last_selection(vis.len() as int),
        ..m
    }
}

/// Toggling search: entering search mode changes nothing else; leaving
/// it clears the query and shows the whole snapshot again.
pub open spec fn step_toggle_search(m: AppModel) -> AppModel {
    if m.search_mode {
        step_apply_filter(
            AppModel { search_mode: false, search_query: Seq::<char>::empty(), ..m },
        )
    } else {
        AppModel { search_mode: true, ..m }
    }
}

/// Typing one character while searching extends the query and refilters.
pub open spec fn step_add_char(m: AppModel, c: char) -> AppModel {
    if m.search_mode {
        step_apply_filter(AppModel { search_query: m.search_query.push(c), ..m })
    } else {
        m
    }
}

/// Backspace while searching shortens the query and refilters.
pub open spec fn step_remove_char(m: AppModel) -> AppModel {
    if m.search_mode && m.search_query.len() > 0 {
        step_apply_filter(AppModel { search_query: m.search_query.drop_last(), ..m })
    } else {
        m
    }
}

/// The context-sensitive back action: dismiss the help overlay first,
/// else leave search, else leave the session view, else quit.
pub open spec fn step_back_or_quit(m: AppModel) -> AppModel {
    if m.show_help {
        AppModel { show_help: false, ..m }
    } else if m.search_mode {
        step_toggle_search(m)
    } else if m.session_view is Some {
        step_exit_session(m)
    } else {
        AppModel { should_quit: true, ..m }
    }
}

/// The whole key dispatch.  While the help overlay is shown, the
/// navigation keys (up, down, enter and their letter aliases) are inert;
/// the keys that dismiss the overlay, and quitting, still work.  While
/// searching, every typed character except `q`, `j` and `k` edits the
/// query (those three are swallowed by their navigation/quit bindings,
/// which search mode disables).
pub open spec fn step_key(m: AppModel, key: Key) -> AppModel {
    match key {
        Key::Down => if !m.search_mode && !m.show_help {
            step_next(m)
        } else {
            m
        },
        Key::Up => if !m.search_mode && !m.show_help {
            step_previous(m)
        } else {
            m
        },
        Key::Enter => if m.session_view is None && !m.search_mode && !m.show_help {
            step_enter_session(m)
        } else {
            m
        },
        Key::Backspace => if m.search_mode {
            step_remove_char(m)
        } else {
            m
        },
        Key::Esc => step_back_or_quit(m),
        Key::Char(c) => {
            if c == 'q' {
                if !m.search_mode {
                    AppModel { should_quit: true, ..m }
                } else {
                    m
                }
            } else if c == 'j' {
                if !m.search_mode && !m.show_help {
                    step_next(m)
                } else {
                    m
                }
            } else if c == 'k' {
                if !m.search_mode && !m.show_help {
                    step_previous(m)
                } else {
                    m
                }
            } else if m.search_mode {
                step_add_char(m, c)
            } else if c == 'h' || c == '?' {
                step_toggle_help(m)
            } else if c == '/' {
                if m.session_view is None {
                    step_toggle_search(m)
                } else {
                    m
                }
            } else if c == 'b' {
                step_back_or_quit(m)
            } else {
                m
            }
        },
    }
}

/// Case-insensitive substring test of a query held as characters.
fn command_matches(hay: &str, needle: &Vec<char>) -> (r: bool)
    ensures
        r == contains_ci(hay@, needle@),
{
    let n = hay.unicode_len();
    let m = needle.len();
    if m > n {
        assert(!contains_ci(hay@, needle@)) by {
            assert(forall|k: int| !matches_at(lower_seq(hay@), lower_seq(needle@), k));
        }
        return false;
    }
    let mut k: usize = 0;
    while k <= n - m
        invariant
            m <= n,
            n == hay@.len(),
            m == needle@.len(),
            k <= n - m + 1,
            forall|k0: int| 0 <= k0 < k ==> !matches_at(lower_seq(hay@), lower_seq(needle@), k0),
        decreases n - m + 1 - k,
    {
        let mut j: usize = 0;
        let mut all_eq = true;
        while j < m
            invariant
                m <= n,
                n == hay@.len(),
                m == needle@.len(),
                k <= n - m,
                j <= m,
                all_eq <==> forall|j0: int|
                    0 <= j0 < j ==> lower_char(hay@[k + j0]) == lower_char(needle@[j0]),
            decreases m - j,
        {
            if to_lower_char(hay.get_char(k + j)) != to_lower_char(needle[j]) {
                all_eq = false;
                j = m;
            } else {
                j = j + 1;
            }
        }
        if all_eq {
            assert(matches_at(lower_seq(hay@), lower_seq(needle@), k as int)) by {
                assert(lower_seq(hay@).subrange(k as int, k + m) =~= lower_seq(needle@));
            }
            return true;
        }
        assert(!matches_at(lower_seq(hay@), lower_seq(needle@), k as int)) by {
            let lh = lower_seq(hay@);
            let ln = lower_seq(needle@);
            if matches_at(lh, ln, k as int) {
                let j0 = choose|j0: int|
                    0 <= j0 < m && lower_char(hay@[k + j0]) != lower_char(needle@[j0]);
                assert(lh.subrange(k as int, k + m)[j0] == lh[k + j0]);
            }
        }
        k = k + 1;
    }
    assert(forall|k0: int| !matches_at(lower_seq(hay@), lower_seq(needle@), k0));
    false
}

/// Unfolds one step of `Seq::filter` over a push.
proof fn lemma_filter_push(s: Seq<EntryModel>, pred: spec_fn(EntryModel) -> bool, x: EntryModel)
    ensures
        s.push(x).filter(pred) == if pred(x) {
            s.filter(pred).push(x)
        } else {
            s.filter(pred)
        },
{
    reveal(Seq::filter);
    assert(s.push(x).drop_last() =~= s);
    assert(s.push(x).last() == x);
}

/// Predicates that agree everywhere filter identically.
proof fn lemma_filter_congruent(
    s: Seq<EntryModel>,
    p1: spec_fn(EntryModel) -> bool,
    p2: spec_fn(EntryModel) -> bool,
)
    requires
        forall|e: EntryModel| #[trigger] p1(e) == p2(e),
    ensures
        s.filter(p1) == s.filter(p2),
    decreases s.len(),
{
    reveal(Seq::filter);
    if s.len() > 0 {
        lemma_filter_congruent(s.drop_last(), p1, p2);
    }
}

/// Copies a list of records.
fn clone_entries(v: &Vec<CommandHistoryEntry>) -> (r: Vec<CommandHistoryEntry>)
    ensures
        r@ == v@,
{
    let mut r: Vec<CommandHistoryEntry> = Vec::new();
    let mut i: usize = 0;
    while i < v.len()
        invariant
            i <= v.len(),
            r@ =~= v@.take(i as int),
        decreases v.len() - i,
    {
        r.push(v[i].clone());
        i = i + 1;
    }
    proof {
        assert(r@ =~= v@);
    }
    r
}

/// Copies a list of records in reverse order.
#[verifier::loop_isolation(false)]
fn reverse_entries(v: &Vec<CommandHistoryEntry>) -> (r: Vec<CommandHistoryEntry>)
    ensures
        r.deep_view() == v.deep_view().reverse(),
{
    let n = v.len();
    let mut r: Vec<CommandHistoryEntry> = Vec::new();
    let mut i: usize = 0;
    while i < n
        invariant
            i <= n,
            r.deep_view().len() == i,
            forall|q: int| 0 <= q < i ==> #[trigger] r.deep_view()[q] == v.deep_view()[n - 1 - q],
        decreases n - i,
    {
        let ghost r0 = r@;
        let ghost d0 = r.deep_view();
        r.push(v[n - 1 - i].clone());
        proof {
            assert forall|q: int| 0 <= q < i + 1 implies #[trigger] r.deep_view()[q]
                == v.deep_view()[n - 1 - q] by {
                assert(r.deep_view()[q] == r@[q].deep_view());
                if q < i {
                    assert(r@[q] == r0[q]);
                    assert(d0[q] == r0[q].deep_view());
                    assert(d0[q] == v.deep_view()[n - 1 - q]);
                } else {
                    assert(r@[q] == r@[i as int]);
                }
            }
        }
        i = i + 1;
    }
    proof {
        assert(r.deep_view() =~= v.deep_view().reverse());
    }
    r
}

/// Keeps the records whose command text contains the query, ignoring
/// ASCII case.
#[verifier::loop_isolation(false)]
fn filter_query_entries(v: &Vec<CommandHistoryEntry>, q: &Vec<char>) -> (r: Vec<
    CommandHistoryEntry,
>)
    ensures
        r.deep_view() == v.deep_view().filter(|e: EntryModel| entry_matches(e, q@)),
{
    let ghost pred = |e: EntryModel| entry_matches(e, q@);
    let mut r: Vec<CommandHistoryEntry> = Vec::new();
    let mut i: usize = 0;
    proof {
        reveal(Seq::filter);
        assert(v.deep_view().take(0) =~= Seq::<EntryModel>::empty());
    }
    while i < v.len()
        invariant
            i <= v.len(),
            r.deep_view() =~= v.deep_view().take(i as int).filter(pred),
        decreases v.len() - i,
    {
        let ghost r0 = r.deep_view();
        let keep = command_matches(v[i].command.as_str(), q);
        if keep {
            r.push(v[i].clone());
        }
        proof {
            let dv = v.deep_view();
            assert(dv.take(i + 1) =~= dv.take(i as int).push(dv[i as int]));
            lemma_filter_push(dv.take(i as int), pred, dv[i as int]);
            if keep {
                assert(r.deep_view() =~= r0.push(dv[i as int]));
            }
        }
        i = i + 1;
    }
    proof {
        assert(v.deep_view().take(v.len() as int) =~= v.deep_view());
    }
    r
}

/// Keeps the records of one session.
#[verifier::loop_isolation(false)]
fn filter_session_entries(v: &Vec<CommandHistoryEntry>, sid: i64) -> (r: Vec<CommandHistoryEntry>)
    ensures
        r.deep_view() == v.deep_view().filter(|e: EntryModel| e.session_id == sid as int),
{
    let ghost pred = |e: EntryModel| e.session_id == sid as int;
    let mut r: Vec<CommandHistoryEntry> = Vec::new();
    let mut i: usize = 0;
    proof {
        reveal(Seq::filter);
        assert(v.deep_view().take(0) =~= Seq::<EntryModel>::empty());
    }
    while i < v.len()
        invariant
            i <= v.len(),
            r.deep_view() =~= v.deep_view().take(i as int).filter(pred),
        decreases v.len() - i,
    {
        let ghost r0 = r.deep_view();
        let keep = v[i].session_id == sid;
        if keep {
            r.push(v[i].clone());
        }
        proof {
            let dv = v.deep_view();
            assert(dv.take(i + 1) =~= dv.take(i as int).push(dv[i as int]));
            lemma_filter_push(dv.take(i as int), pred, dv[i as int]);
            if keep {
                assert(r.deep_view() =~= r0.push(dv[i as int]));
            }
        }
        i = i + 1;
    }
    proof {
        assert(v.deep_view().take(v.len() as int) =~= v.deep_view());
    }
    r
}

impl App {
    /// Builds the browser state over a snapshot loaded most recent
    /// first: everything visible, newest-last, most recent selected.
    pub fn new(commands: Vec<CommandHistoryEntry>) -> (app: App)
        ensures
            app@ == app_init(commands.deep_view()),
            app_wf(app@),
    {
        let reversed = reverse_entries(&commands);
        let reversed_again = clone_entries(&reversed);
        let n = reversed.len();
        let selected: Option<usize> = if n == 0 {
            None
        } else {
            Some(n - 1)
        };
        let app = App {
            commands: reversed,
            selected,
            should_quit: false,
            show_help: false,
            session_view: None,
            all_commands: commands,
            search_mode: false,
            search_query: Vec::new(),
            filtered_commands: reversed_again,
        };
        proof {
            let init = app_init(app.all_commands.deep_view());
            assert(app@.commands =~= init.commands);
            assert(app@.filtered_commands =~= init.filtered_commands);
            assert(app@.search_query =~= init.search_query);
            assert(app@.all_commands =~= init.all_commands);
            assert(app@.commands.len() == app@.all_commands.reverse().len());
            assert(app@.selected == init.selected);
            assert(app@ =~= init);
        }
        app
    }

    /// Moving down; wraps from the last element to the first.
    pub fn next(&mut self)
        requires
            app_wf(old(self)@),
        ensures
            final(self)@ == step_next(old(self)@),
            app_wf(final(self)@),
    {
        if self.commands.len() == 0 {
            return ;
        }
        let i: usize = match self.selected {
            Some(i) => if i >= self.commands.len() - 1 {
                0
            } else {
                i + 1
            },
            None => 0,
        };
        self.selected = Some(i);
        proof {
            assert(self@ =~= step_next(old(self)@));
        }
    }

    /// Moving up; stays at the first element.
    pub fn previous(&mut self)
        requires
            app_wf(old(self)@),
        ensures
            final(self)@ == step_previous(old(self)@),
            app_wf(final(self)@),
    {
        if self.commands.len() == 0 {
            return ;
        }
        let i: usize = match self.selected {
            Some(i) => if i == 0 {
                0
            } else {
                i - 1
            },
            None => 0,
        };
        self.selected = Some(i);
        proof {
            assert(self@ =~= step_previous(old(self)@));
        }
    }

    /// Shows or hides the help overlay.
    pub fn toggle_help(&mut self)
        requires
            app_wf(old(self)@),
        ensures
            final(self)@ == step_toggle_help(old(self)@),
            app_wf(final(self)@),
    {
        self.show_help = !self.show_help;
        proof {
            assert(self@ =~= step_toggle_help(old(self)@));
        }
    }

    /// Recomputes the visible list from the snapshot and the query and
    /// selects the most recent element.
    pub fn apply_search_filter(&mut self)
        requires
            old(self)@.session_view is None,
            !old(self)@.search_mode ==> old(self)@.search_query.len() == 0,
        ensures
            final(self)@ == step_apply_filter(old(self)@),
            app_wf(final(self)@),
    {
        let vis = if self.search_query.len() == 0 {
            reverse_entries(&self.all_commands)
        } else {
            let kept = filter_query_entries(&self.all_commands, &self.search_query);
            reverse_entries(&kept)
        };
        let vis2 = clone_entries(&vis);
        let n = vis.len();
        self.commands = vis;
        self.filtered_commands = vis2;
        self.selected = if n == 0 {
            None
        } else {
            Some(n - 1)
        };
        proof {
            assert(self@.commands == query_filter(self@.all_commands, self@.search_query));
            assert(self@ =~= step_apply_filter(old(self)@));
        }
    }

    /// Enters search mode, or leaves it clearing the query.
    pub fn toggle_search(&mut self)
        requires
            app_wf(old(self)@),
            old(self)@.session_view is None,
        ensures
            final(self)@ == step_toggle_search(old(self)@),
            app_wf(final(self)@),
    {
        if self.search_mode {
            self.search_mode = false;
            self.search_query = Vec::new();
            self.apply_search_filter();
            proof {
                assert(self@ =~= step_toggle_search(old(self)@));
            }
        } else {
            self.search_mode = true;
            proof {
                assert(self@ =~= step_toggle_search(old(self)@));
            }
        }
    }

    /// Appends one character to the query while searching.
    pub fn add_search_char(&mut self, c: char)
        requires
            app_wf(old(self)@),
        ensures
            final(self)@ == step_add_char(old(self)@, c),
            app_wf(final(self)@),
    {
        if self.search_mode {
            self.search_query.push(c);
            self.apply_search_filter();
            proof {
                assert(self@ =~= step_add_char(old(self)@, c));
            }
        }
    }

    /// Removes the last query character while searching.
    pub fn remove_search_char(&mut self)
        requires
            app_wf(old(self)@),
        ensures
            final(self)@ == step_remove_char(old(self)@),
            app_wf(final(self)@),
    {
        if self.search_mode && self.search_query.len() > 0 {
            self.search_query.pop();
            proof {
                assert(self@.search_query =~= old(self)@.search_query.drop_last());
            }
            self.apply_search_filter();
            proof {
                assert(self@ =~= step_remove_char(old(self)@));
            }
        }
    }

    /// Drills into the selected record's session.
    pub fn enter_session_view(&mut self)
        requires
            app_wf(old(self)@),
            old(self)@.session_view is None,
            !old(self)@.search_mode,
        ensures
            final(self)@ == step_enter_session(old(self)@),
            app_wf(final(self)@),
    {
        match self.selected {
            None => {
            },
            Some(i) => {
                let sid = self.commands[i].session_id;
                let kept = filter_session_entries(&self.all_commands, sid);
                let vis = reverse_entries(&kept);
                let n = vis.len();
                self.commands = vis;
                self.session_view = Some(sid);
                self.selected = if n == 0 {
                    None
                } else {
                    Some(n - 1)
                };
                proof {
                    assert(self@.commands == session_filter(self@.all_commands, sid as int));
                    assert(self@ =~= step_enter_session(old(self)@));
                }
            },
        }
    }

    /// Leaves the session view, restoring the full snapshot.
    pub fn exit_session_view(&mut self)
        requires
            app_wf(old(self)@),
        ensures
            final(self)@ == step_exit_session(old(self)@),
            app_wf(final(self)@),
    {
        let vis = reverse_entries(&self.all_commands);
        let vis2 = clone_entries(&vis);
        let n = vis.len();
        self.commands = vis;
        self.filtered_commands = vis2;
        self.session_view = None;
        self.search_mode = false;
        self.search_query = Vec::new();
        self.selected = if n == 0 {
            None
        } else {
            Some(n - 1)
        };
        proof {
            assert(self@ =~= step_exit_session(old(self)@));
        }
    }

    /// The context-sensitive back action: dismisses the help overlay,
    /// else leaves search, else leaves the session view, else quits.
    pub fn back_or_quit(&mut self)
        requires
            app_wf(old(self)@),
        ensures
            final(self)@ == step_back_or_quit(old(self)@),
            app_wf(final(self)@),
    {
        if self.show_help {
            self.show_help = false;
            proof {
                assert(self@ =~= step_back_or_quit(old(self)@));
            }
        } else if self.search_mode {
            self.toggle_search();
        } else if self.session_view.is_some() {
            self.exit_session_view();
        } else {
            self.should_quit = true;
            proof {
                assert(self@ =~= step_back_or_quit(old(self)@));
            }
        }
    }

    /// Feeds one key press to the state machine.  See `step_key` for the
    /// full dispatch, including which keys the help overlay and search
    /// mode disable.
    pub fn handle_key(&mut self, key: Key)
        requires
            app_wf(old(self)@),
        ensures
            final(self)@ == step_key(old(self)@, key),
            app_wf(final(self)@),
    {
        match key {
            Key::Down => {
                if !self.search_mode && !self.show_help {
                    self.next();
                }
            },
            Key::Up => {
                if !self.search_mode && !self.show_help {
                    self.previous();
                }
            },
            Key::Enter => {
                if self.session_view.is_none() && !self.search_mode && !self.show_help {
                    self.enter_session_view();
                }
            },
            Key::Backspace => {
                if self.search_mode {
                    self.remove_search_char();
                }
            },
            Key::Esc => {
                self.back_or_quit();
            },
            Key::Char(c) => {
                if c == 'q' {
                    if !self.search_mode {
                        self.should_quit = true;
                        proof {
                            assert(self@ =~= step_key(old(self)@, key));
                        }
                    }
                } else if c == 'j' {
                    if !self.search_mode && !self.show_help {
                        self.next();
                    }
                } else if c == 'k' {
                    if !self.search_mode && !self.show_help {
                        self.previous();
                    }
                } else if self.search_mode {
                    self.add_search_char(c);
                } else if c == 'h' || c == '?' {
                    self.toggle_help();
                } else if c == '/' {
                    if self.session_view.is_none() {
                        self.toggle_search();
                    }
                } else if c == 'b' {
                    self.back_or_quit();
                }
            },
        }
    }
}

/// Search ignores case: two queries that fold to the same characters
/// select exactly the same visible records from any snapshot.
pub proof fn lemma_search_case_insensitive(all: Seq<EntryModel>, q1: Seq<char>, q2: Seq<char>)
    requires
        lower_seq(q1) == lower_seq(q2),
    ensures
        query_filter(all, q1) == query_filter(all, q2),
{
    assert(lower_seq(q1).len() == q1.len());
    assert(lower_seq(q2).len() == q2.len());
    assert(q1.len() == q2.len());
    if q1.len() == 0 {
    } else {
        let p1 = |e: EntryModel| entry_matches(e, q1);
        let p2 = |e: EntryModel| entry_matches(e, q2);
        assert(forall|e: EntryModel| #[trigger] p1(e) == p2(e)) by {
            assert(forall|e: EntryModel|
                contains_ci(e.command, q1) == contains_ci(e.command, q2));
        }
        lemma_filter_congruent(all, p1, p2);
    }
}

/// Search is idempotent: refiltering an already filtered state changes
/// nothing, because the visible list is always recomputed from the
/// unchanged snapshot and query.
pub proof fn lemma_apply_filter_idempotent(m: AppModel)
    ensures
        step_apply_filter(step_apply_filter(m)) == step_apply_filter(m),
{
    assert(step_apply_filter(step_apply_filter(m)) =~= step_apply_filter(m));
}

/// Entering a session view and leaving it again restores the visible
/// list (and the kept filtering result) exactly as they were before
/// entry.
pub proof fn lemma_enter_exit_restores_visible(m: AppModel)
    requires
        app_wf(m),
        m.session_view is None,
        !m.search_mode,
    ensures
        step_exit_session(step_enter_session(m)).commands == m.commands,
        step_exit_session(step_enter_session(m)).filtered_commands == m.filtered_commands,
{
    let after = step_exit_session(step_enter_session(m));
    assert(step_enter_session(m).all_commands == m.all_commands);
    assert(after.commands == m.all_commands.reverse());
    assert(m.commands == query_filter(m.all_commands, m.search_query));
    assert(m.search_query.len() == 0);
}

} // verus!
