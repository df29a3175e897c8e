use vstd::prelude::*;

use crate::process::{
    filter_indices, filtered, is_stable_sort, lemma_filter_upto_bounds, sorted_by,
    stable_sorted, ProcessInfo, SortColumn,
};
use crate::text::{parse_u64, parse_unsigned, pop_char, push_char};

verus! {

/// Minimum time, in milliseconds, between two snapshot pulls.
pub const REFRESH_INTERVAL_MS: u64 = 2000;

/// Age, in milliseconds, past which a status message is dropped.
pub const MESSAGE_EXPIRY_MS: u64 = 3000;

/// How keys are read: exactly one mode is active at a time.
#[derive(Clone, Copy, Debug, PartialEq, Eq, Structural)]
pub enum InputMode {
    Normal,
    Search,
    ConfirmKill,
}

#[derive(Clone, Copy, Debug, PartialEq, Eq, Structural)]
pub enum Severity {
    Info,
    Error,
}

/// A key press, as far as the session tells keys apart.
#[derive(Clone, Copy, Debug, PartialEq, Eq, Structural)]
pub enum Key {
    Char(char),
    Up,
    Down,
    Enter,
    Esc,
    Backspace,
    Other,
}

/// What the driving loop has to do after a key press.
#[derive(Clone, Copy, Debug, PartialEq, Eq, Structural)]
pub enum Action {
    Continue,
    Quit,
    /// Ask the operating system to end the process with this identifier,
    /// then report the outcome through `App::kill_finished`.
    Kill(u64),
}

/// The state of one monitoring session.
pub struct App {
    /// The last snapshot, in the active sort order.
    pub processes: Vec<ProcessInfo>,
    /// Positions in `processes` of the visible rows, in order.
    pub filtered_processes: Vec<usize>,
    /// Position in `filtered_processes` of the selected row.
    pub selected: Option<usize>,
    pub sort_column: SortColumn,
    pub sort_ascending: bool,
    pub input_mode: InputMode,
    pub search_query: String,
    pub message: Option<(String, Severity)>,
    /// When `message` was set.
    pub message_time: Option<u64>,
    /// Time of the last snapshot pull; `None` makes the next pull due at once.
    pub last_refresh: Option<u64>,
}

/// A selection position brought back into `[0, n)`: lost when nothing is
/// visible, moved to the last row when past the end.
pub open spec fn clamped(sel: Option<usize>, n: nat) -> Option<usize> {
    if n == 0 {
        None
    } else {
        match sel {
            None => None,
            Some(i) => if i < n {
                Some(i)
            } else {
                Some((n - 1) as usize)
            },
        }
    }
}

/// The selection after moving one row down, wrapping at the end.
pub open spec fn next_sel(sel: Option<usize>, n: nat) -> Option<usize> {
    if n == 0 {
        sel
    } else {
        match sel {
            None => Some(0),
            Some(i) => Some(((i + 1) % (n as int)) as usize),
        }
    }
}

/// The selection after moving one row up, wrapping at the top.
pub open spec fn prev_sel(sel: Option<usize>, n: nat) -> Option<usize> {
    if n == 0 {
        sel
    } else {
        match sel {
            None => Some(0),
            Some(i) => Some(((i + n - 1) % (n as int)) as usize),
        }
    }
}

/// A pull is due when none was recorded or the interval has passed.
pub open spec fn refresh_due_at(last: Option<u64>, now: u64) -> bool {
    match last {
        None => true,
        Some(t) => now >= t + REFRESH_INTERVAL_MS,
    }
}

/// A message set at `set_at` is too old at `now`.
pub open spec fn message_expired(set_at: Option<u64>, now: u64) -> bool {
    match set_at {
        None => false,
        Some(t) => now > t + MESSAGE_EXPIRY_MS,
    }
}

impl App {
    /// The record shown in visible row `k`.
    pub open spec fn row(self, k: int) -> ProcessInfo {
        self.processes@[self.filtered_processes@[k] as int]
    }

    pub open spec fn selection_ok(self) -> bool {
        match self.selected {
            None => true,
            Some(i) => i < self.filtered_processes@.len(),
        }
    }

    /// The snapshot is sorted, the visible rows follow the query, the
    /// selection is a visible row, and a message carries its time.
    pub open spec fn wf(self) -> bool {
        &&& sorted_by(self.sort_column, self.sort_ascending, self.processes@)
        &&& self.filtered_processes@ == filtered(self.processes@, self.search_query@)
        &&& self.selection_ok()
        &&& self.message is Some <==> self.message_time is Some
    }

    /// Identifier of the selected record.
    pub open spec fn selected_pid(self) -> Option<Seq<char>> {
        match self.selected {
            None => None,
            Some(i) => Some(self.row(i as int).pid@),
        }
    }

    pub open spec fn same_snapshot(self, other: App) -> bool {
        &&& self.processes == other.processes
        &&& self.sort_column == other.sort_column
        &&& self.sort_ascending == other.sort_ascending
    }

    pub open spec fn same_status(self, other: App) -> bool {
        &&& self.message == other.message
        &&& self.message_time == other.message_time
        &&& self.last_refresh == other.last_refresh
    }

    /// The visible rows of `self` follow its query, and the selection is
    /// `old_sel` clamped to them.
    pub open spec fn refiltered(self, old_sel: Option<usize>) -> bool {
        &&& self.filtered_processes@ == filtered(self.processes@, self.search_query@)
        &&& self.selected == clamped(old_sel, self.filtered_processes@.len())
    }

    /// `b` is `a` with the query set to `query`, the mode to `mode`, and the
    /// view derived again.
    pub open spec fn requeried(a: App, b: App, query: Seq<char>, mode: InputMode) -> bool {
        &&& a.same_snapshot(b)
        &&& a.same_status(b)
        &&& b.search_query@ == query
        &&& b.input_mode == mode
        &&& b.refiltered(a.selected)
    }

    /// What `apply_filter` does.
    pub open spec fn filter_step(a: App, b: App) -> bool {
        App::requeried(a, b, a.search_query@, a.input_mode)
    }

    /// What `set_sort(col)` does.
    pub open spec fn sort_step(a: App, col: SortColumn, b: App) -> bool {
        &&& b.sort_column == col
        &&& b.sort_ascending == if a.sort_column == col {
            !a.sort_ascending
        } else {
            true
        }
        &&& is_stable_sort(b.sort_column, b.sort_ascending, a.processes@, b.processes@)
        &&& sorted_by(b.sort_column, b.sort_ascending, b.processes@)
        &&& b.search_query@ == a.search_query@
        &&& b.input_mode == a.input_mode
        &&& a.same_status(b)
        &&& b.refiltered(a.selected)
    }

    pub open spec fn moved_next(a: App) -> App {
        App { selected: next_sel(a.selected, a.filtered_processes@.len()), ..a }
    }

    pub open spec fn moved_prev(a: App) -> App {
        App { selected: prev_sel(a.selected, a.filtered_processes@.len()), ..a }
    }

    /// `moved_next` applied `k` times.
    pub open spec fn moved_next_times(a: App, k: nat) -> App
        decreases k,
    {
        if k == 0 {
            a
        } else {
            App::moved_next(App::moved_next_times(a, (k - 1) as nat))
        }
    }

    /// The identifier that confirming a kill hands to the terminator: the
    /// selected record's, where it reads as a positive number.
    pub open spec fn kill_target(a: App) -> Option<u64> {
        match a.selected {
            None => None,
            Some(i) => match parse_unsigned(a.row(i as int).pid@) {
                Some(v) => if v > 0 {
                    Some(v)
                } else {
                    None
                },
                None => None,
            },
        }
    }

    /// The whole key dispatch: from state `a`, `key` leads to state `b` and
    /// asks the loop for `r`.
    pub open spec fn key_step(a: App, key: Key, b: App, r: Action) -> bool {
        match a.input_mode {
            InputMode::Normal => if key == Key::Char('q') {
                r == Action::Quit && b == a
            } else if key == Key::Down {
                r == Action::Continue && b == App::moved_next(a)
            } else if key == Key::Up {
                r == Action::Continue && b == App::moved_prev(a)
            } else if key == Key::Char('k') {
                r == Action::Continue && b == (App { input_mode: InputMode::ConfirmKill, ..a })
            } else if key == Key::Char('/') {
                r == Action::Continue && App::requeried(a, b, Seq::empty(), InputMode::Search)
            } else if key == Key::Char('p') {
                r == Action::Continue && App::sort_step(a, SortColumn::Pid, b)
            } else if key == Key::Char('n') {
                r == Action::Continue && App::sort_step(a, SortColumn::Name, b)
            } else if key == Key::Char('m') {
                r == Action::Continue && App::sort_step(a, SortColumn::Memory, b)
            } else {
                r == Action::Continue && b == a
            },
            InputMode::Search => match key {
                Key::Esc => r == Action::Continue && App::requeried(
                    a,
                    b,
                    Seq::empty(),
                    InputMode::Normal,
                ),
                Key::Enter => r == Action::Continue && App::requeried(
                    a,
                    b,
                    a.search_query@,
                    InputMode::Normal,
                ),
                Key::Backspace => r == Action::Continue && App::requeried(
                    a,
                    b,
                    if a.search_query@.len() > 0 {
                        a.search_query@.drop_last()
                    } else {
                        a.search_query@
                    },
                    InputMode::Search,
                ),
                Key::Char(c) => r == Action::Continue && App::requeried(
                    a,
                    b,
                    a.search_query@.push(c),
                    InputMode::Search,
                ),
                _ => r == Action::Continue && b == a,
            },
            InputMode::ConfirmKill => {
                &&& b == (App { input_mode: InputMode::Normal, ..a })
                &&& r == if key == Key::Char('y') {
                    match App::kill_target(a) {
                        Some(v) => Action::Kill(v),
                        None => Action::Continue,
                    }
                } else {
                    Action::Continue
                }
            },
        }
    }
}

impl App {
    /// A session over a first snapshot pulled at `now`: sorted by identifier,
    /// ascending, nothing searched, the first row selected.
    pub fn new(processes: Vec<ProcessInfo>, now: u64) -> (r: App)
        ensures
            r.wf(),
            r.sort_column == SortColumn::Pid,
            r.sort_ascending,
            is_stable_sort(SortColumn::Pid, true, processes@, r.processes@),
            r.search_query@.len() == 0,
            r.filtered_processes@ == filtered(r.processes@, Seq::empty()),
            r.selected == (if r.filtered_processes@.len() > 0 {
                Some(0usize)
            } else {
                None
            }),
            r.input_mode == InputMode::Normal,
            r.message is None,
            r.last_refresh == Some(now),
    {
        let sorted = stable_sorted(processes, SortColumn::Pid, true);
        let mut app = App {
            processes: sorted,
            filtered_processes: Vec::new(),
            selected: Some(0),
            sort_column: SortColumn::Pid,
            sort_ascending: true,
            input_mode: InputMode::Normal,
            search_query: String::new(),
            message: None,
            message_time: None,
            last_refresh: Some(now),
        };
        app.apply_filter();
        app
    }

    /// Derives the visible rows again from the snapshot and the query, and
    /// clamps the selection to them.
    pub fn apply_filter(&mut self)
        ensures
            App::filter_step(*old(self), *final(self)),
            old(self).wf() ==> final(self).wf(),
    {
        self.filtered_processes = filter_indices(&self.processes, self.search_query.as_str());
        let n = self.filtered_processes.len();
        if n == 0 {
            self.selected = None;
        } else {
            match self.selected {
                Some(i) => {
                    if i >= n {
                        self.selected = Some(n - 1);
                    }
                },
                None => {},
            }
        }
    }

    /// Orders by `column`: the same column again flips the direction, a new
    /// one starts ascending. The view is derived again.
    pub fn set_sort(&mut self, column: SortColumn)
        ensures
            App::sort_step(*old(self), column, *final(self)),
            old(self).wf() ==> final(self).wf(),
    {
        if self.sort_column == column {
            self.sort_ascending = !self.sort_ascending;
        } else {
            self.sort_column = column;
            self.sort_ascending = true;
        }
        let mut taken: Vec<ProcessInfo> = Vec::new();
        std::mem::swap(&mut self.processes, &mut taken);
        self.processes = stable_sorted(taken, self.sort_column, self.sort_ascending);
        self.apply_filter();
    }

    /// Selects the next visible row, wrapping to the first.
    pub fn move_next(&mut self)
        requires
            old(self).selection_ok(),
        ensures
            *final(self) == App::moved_next(*old(self)),
            old(self).wf() ==> final(self).wf(),
    {
        let n = self.filtered_processes.len();
        if n > 0 {
            self.selected = match self.selected {
                None => Some(0),
                Some(i) => {
                    proof {
                        if i + 1 == n {
                            vstd::arithmetic::div_mod::lemma_mod_self_0(n as int);
                        } else {
                            vstd::arithmetic::div_mod::lemma_small_mod((i + 1) as nat, n as nat);
                        }
                    }
                    Some(if i + 1 == n {
                        0
                    } else {
                        i + 1
                    })
                },
            };
        }
    }

    /// Selects the previous visible row, wrapping to the last.
    pub fn move_previous(&mut self)
        requires
            old(self).selection_ok(),
        ensures
            *final(self) == App::moved_prev(*old(self)),
            old(self).wf() ==> final(self).wf(),
    {
        let n = self.filtered_processes.len();
        if n > 0 {
            self.selected = match self.selected {
                None => Some(0),
                Some(i) => {
                    proof {
                        if i == 0 {
                            vstd::arithmetic::div_mod::lemma_small_mod((n - 1) as nat, n as nat);
                        } else {
                            vstd::arithmetic::div_mod::lemma_mod_add_multiples_vanish(
                                i - 1,
                                n as int,
                            );
                            vstd::arithmetic::div_mod::lemma_small_mod((i - 1) as nat, n as nat);
                        }
                    }
                    Some(if i == 0 {
                        n - 1
                    } else {
                        i - 1
                    })
                },
            };
        }
    }

    /// The selected record, if any.
    pub fn selected_process(&self) -> (r: Option<&ProcessInfo>)
        requires
            self.wf(),
        ensures
            match self.selected {
                None => r is None,
                Some(i) => r == Some(&self.row(i as int)),
            },
    {
        match self.selected {
            None => None,
            Some(i) => {
                proof {
                    lemma_filter_upto_bounds(
                        self.processes@,
                        self.search_query@,
                        self.processes@.len() as int,
                    );
                }
                Some(&self.processes[self.filtered_processes[i]])
            },
        }
    }

    /// Whether a snapshot pull is due at `now`.
    pub fn refresh_due(&self, now: u64) -> (r: bool)
        ensures
            r == refresh_due_at(self.last_refresh, now),
    {
        match self.last_refresh {
            None => true,
            Some(t) => now >= t && now - t >= REFRESH_INTERVAL_MS,
        }
    }
}

impl App {
    /// Replaces the snapshot with `fresh`, pulled at `now`: sorts it, derives
    /// the view, and keeps the selection on the record with the same
    /// identifier where that record is still visible.
    pub fn install_snapshot(&mut self, fresh: Vec<ProcessInfo>, now: u64)
        requires
            old(self).wf(),
        ensures
            final(self).wf(),
            final(self).sort_column == old(self).sort_column,
            final(self).sort_ascending == old(self).sort_ascending,
            is_stable_sort(old(self).sort_column, old(self).sort_ascending, fresh@, final(self).processes@),
            final(self).search_query@ == old(self).search_query@,
            final(self).input_mode == old(self).input_mode,
            final(self).message == old(self).message,
            final(self).message_time == old(self).message_time,
            final(self).last_refresh == Some(now),
            final(self).filtered_processes@ == filtered(final(self).processes@, old(self).search_query@),
            ({
                let n = final(self).filtered_processes@.len();
                match old(self).selected_pid() {
                    Some(id) => if exists|k: int| 0 <= k < n && (#[trigger] final(self).row(k)).pid@ == id {
                        match final(self).selected {
                            Some(j) => final(self).row(j as int).pid@ == id
                                && forall|k: int| 0 <= k < j ==> (#[trigger] final(self).row(k)).pid@ != id,
                            None => false,
                        }
                    } else {
                        final(self).selected == clamped(old(self).selected, n)
                    },
                    None => final(self).selected == clamped(old(self).selected, n),
                }
            }),
    {
        proof {
            lemma_filter_upto_bounds(self.processes@, self.search_query@, self.processes@.len() as int);
        }
        let ghost before = *self;
        let kept: Option<String> = match self.selected {
            Some(i) => Some(self.processes[self.filtered_processes[i]].pid.clone()),
            None => None,
        };
        self.processes = stable_sorted(fresh, self.sort_column, self.sort_ascending);
        self.apply_filter();
        self.last_refresh = Some(now);
        proof {
            lemma_filter_upto_bounds(self.processes@, self.search_query@, self.processes@.len() as int);
        }
        match kept {
            Some(id) => {
                assert(before.selected_pid() == Some(id@));
                let ghost looked = *self;
                match self.find_row(&id) {
                    Some(k) => {
                        self.selected = Some(k);
                        assert forall|t: int| 0 <= t <= k implies #[trigger] self.row(t)
                            == looked.row(t) by {}
                        assert(self.row(k as int).pid@ == id@);
                    },
                    None => {
                        assert forall|t: int|
                            0 <= t < self.filtered_processes@.len() implies (
                            #[trigger] self.row(t)).pid@ != id@ by {
                            assert(looked.row(t) == self.row(t));
                        }
                    },
                }
            },
            None => {
                assert(before.selected_pid() is None);
            },
        }
    }

    /// First visible row whose record has identifier `id`.
    fn find_row(&self, id: &String) -> (r: Option<usize>)
        requires
            forall|t: int|
                0 <= t < self.filtered_processes@.len() ==> #[trigger] self.filtered_processes@[t]
                    < self.processes@.len(),
        ensures
            match r {
                Some(j) => j < self.filtered_processes@.len() && self.row(j as int).pid@ == id@
                    && forall|k: int| 0 <= k < j ==> (#[trigger] self.row(k)).pid@ != id@,
                None => forall|k: int|
                    0 <= k < self.filtered_processes@.len() ==> (#[trigger] self.row(k)).pid@
                        != id@,
            },
    {
        let n = self.filtered_processes.len();
        let mut k: usize = 0;
        while k < n
            invariant
                n == self.filtered_processes@.len(),
                k <= n,
                forall|t: int| 0 <= t < n ==> #[trigger] self.filtered_processes@[t] < self.processes@.len(),
                forall|t: int| 0 <= t < k ==> (#[trigger] self.row(t)).pid@ != id@,
            decreases n - k,
        {
            if self.processes[self.filtered_processes[k]].pid == *id {
                return Some(k);
            }
            k = k + 1;
        }
        None
    }

    /// Drops the message once it is older than the expiry at `now`.
    pub fn expire_message(&mut self, now: u64)
        ensures
            old(self).wf() ==> final(self).wf(),
            *final(self) == if message_expired(old(self).message_time, now) {
                App { message: None, message_time: None, ..*old(self) }
            } else {
                *old(self)
            },
    {
        match self.message_time {
            Some(t) => {
                if now > t && now - t > MESSAGE_EXPIRY_MS {
                    self.message = None;
                    self.message_time = None;
                }
            },
            None => {},
        }
    }

    /// Leaves the kill confirmation and returns the identifier to terminate:
    /// the selected record's, where it reads as a positive number.
    pub fn kill_selected(&mut self) -> (r: Option<u64>)
        requires
            old(self).wf(),
        ensures
            r == App::kill_target(*old(self)),
            *final(self) == (App { input_mode: InputMode::Normal, ..*old(self) }),
    {
        self.input_mode = InputMode::Normal;
        match self.selected {
            None => None,
            Some(i) => {
                proof {
                    lemma_filter_upto_bounds(self.processes@, self.search_query@, self.processes@.len() as int);
                }
                match parse_u64(self.processes[self.filtered_processes[i]].pid.as_str()) {
                    Some(v) => if v > 0 {
                        Some(v)
                    } else {
                        None
                    },
                    None => None,
                }
            },
        }
    }

    /// Records the terminator's answer at `now`. Success posts a notice and
    /// makes the next pull due at once; failure posts an error with the
    /// terminator's description. Nothing else changes.
    pub fn kill_finished(&mut self, outcome: Result<(), String>, now: u64)
        ensures
            old(self).wf() ==> final(self).wf(),
            final(self).message_time == Some(now),
            final(self).processes == old(self).processes,
            final(self).filtered_processes == old(self).filtered_processes,
            final(self).selected == old(self).selected,
            final(self).sort_column == old(self).sort_column,
            final(self).sort_ascending == old(self).sort_ascending,
            final(self).input_mode == old(self).input_mode,
            final(self).search_query == old(self).search_query,
            match outcome {
                Ok(()) => {
                    &&& final(self).message matches Some((m, sev)) && m@ == "Process terminated"@
                        && sev == Severity::Info
                    &&& final(self).last_refresh is None
                },
                Err(e) => {
                    &&& final(self).message matches Some((m, sev)) && m@
                        == "Failed to kill process: "@ + e@ && sev == Severity::Error
                    &&& final(self).last_refresh == old(self).last_refresh
                },
            },
    {
        match outcome {
            Ok(()) => {
                self.message = Some((String::from_str("Process terminated"), Severity::Info));
                self.last_refresh = None;
            },
            Err(e) => {
                let mut text = String::from_str("Failed to kill process: ");
                text.append(e.as_str());
                self.message = Some((text, Severity::Error));
            },
        }
        self.message_time = Some(now);
    }
}

impl App {
    /// Sets the query to the empty text, derives the view again, and enters
    /// `mode`.
    fn reset_query(&mut self, mode: InputMode)
        ensures
            App::requeried(*old(self), *final(self), Seq::empty(), mode),
    {
        self.search_query = String::new();
        self.input_mode = mode;
        self.apply_filter();
    }

    /// Dispatches one key press according to the active mode.
    pub fn handle_key(&mut self, key: Key) -> (r: Action)
        requires
            old(self).wf(),
        ensures
            App::key_step(*old(self), key, *final(self), r),
            final(self).wf(),
    {
        match self.input_mode {
            InputMode::Normal => match key {
                Key::Char('q') => Action::Quit,
                Key::Down => {
                    self.move_next();
                    Action::Continue
                },
                Key::Up => {
                    self.move_previous();
                    Action::Continue
                },
                Key::Char('k') => {
                    self.input_mode = InputMode::ConfirmKill;
                    Action::Continue
                },
                Key::Char('/') => {
                    self.reset_query(InputMode::Search);
                    Action::Continue
                },
                Key::Char('p') => {
                    self.set_sort(SortColumn::Pid);
                    Action::Continue
                },
                Key::Char('n') => {
                    self.set_sort(SortColumn::Name);
                    Action::Continue
                },
                Key::Char('m') => {
                    self.set_sort(SortColumn::Memory);
                    Action::Continue
                },
                _ => Action::Continue,
            },
            InputMode::Search => match key {
                Key::Esc => {
                    self.reset_query(InputMode::Normal);
                    Action::Continue
                },
                Key::Enter => {
                    self.input_mode = InputMode::Normal;
                    self.apply_filter();
                    Action::Continue
                },
                Key::Backspace => {
                    let _ = pop_char(&mut self.search_query);
                    self.apply_filter();
                    Action::Continue
                },
                Key::Char(c) => {
                    push_char(&mut self.search_query, c);
                    self.apply_filter();
                    Action::Continue
                },
                _ => Action::Continue,
            },
            InputMode::ConfirmKill => {
                if key == Key::Char('y') {
                    match self.kill_selected() {
                        Some(pid) => Action::Kill(pid),
                        None => Action::Continue,
                    }
                } else {
                    self.input_mode = InputMode::Normal;
                    Action::Continue
                }
            },
        }
    }
}

} // verus!
