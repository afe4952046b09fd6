//! The desktop manager window's state between frames: the device badge, the
//! log panel, what each report of a background task does to the window, and
//! the applet checklist the window shows. Drawing the window, reading the
//! task channel and looking at files on disk are left to the caller.

use vstd::prelude::*;
use crate::checklist::{AppletChecklist, AppletChecklistRow, AppletSourceKind};
use crate::manager::{DeviceMode, OperationProgress, ProgressEvent};
use crate::protocol::{FileEntry, SmartAppletRecord};

verus! {

/// The number of lines the log panel keeps.
pub const GUI_LOG_LINES: usize = 200;

/// The device mode as the window tracks it.
#[derive(Clone, Copy, Debug, PartialEq, Eq, Structural)]
pub enum DeviceModeState {
    Missing,
    Hid,
    HidUnavailable,
    Direct,
    Unknown,
}

/// The colour family of the device badge.
#[derive(Clone, Copy, Debug, PartialEq, Eq, Structural)]
pub enum BadgeTone {
    Muted,
    AccentDark,
    Danger,
    Success,
}

/// The badge text of a device mode.
pub open spec fn badge_label(mode: DeviceModeState) -> Seq<char> {
    match mode {
        DeviceModeState::Missing => "No device"@,
        DeviceModeState::Hid => "Keyboard mode"@,
        DeviceModeState::HidUnavailable => "HID unavailable"@,
        DeviceModeState::Direct => "Direct USB"@,
        DeviceModeState::Unknown => "Checking"@,
    }
}

/// The badge colour of a device mode.
pub open spec fn badge_tone(mode: DeviceModeState) -> BadgeTone {
    match mode {
        DeviceModeState::Missing => BadgeTone::Muted,
        DeviceModeState::Hid => BadgeTone::AccentDark,
        DeviceModeState::HidUnavailable => BadgeTone::Danger,
        DeviceModeState::Direct => BadgeTone::Success,
        DeviceModeState::Unknown => BadgeTone::Muted,
    }
}

/// The device mode a window state stands for.
pub open spec fn mode_of_state(s: DeviceModeState) -> DeviceMode {
    match s {
        DeviceModeState::Missing => DeviceMode::Missing,
        DeviceModeState::Hid => DeviceMode::Hid,
        DeviceModeState::HidUnavailable => DeviceMode::HidUnavailable,
        DeviceModeState::Direct => DeviceMode::Direct,
        DeviceModeState::Unknown => DeviceMode::Unknown,
    }
}

impl DeviceModeState {
    /// The badge shown for the mode: its text and colour.
    pub fn badge(self) -> (r: (&'static str, BadgeTone))
        ensures
            r.0@ == badge_label(self),
            r.1 == badge_tone(self),
    {
        match self {
            DeviceModeState::Missing => ("No device", BadgeTone::Muted),
            DeviceModeState::Hid => ("Keyboard mode", BadgeTone::AccentDark),
            DeviceModeState::HidUnavailable => ("HID unavailable", BadgeTone::Danger),
            DeviceModeState::Direct => ("Direct USB", BadgeTone::Success),
            DeviceModeState::Unknown => ("Checking", BadgeTone::Muted),
        }
    }
}

impl From<DeviceModeState> for DeviceMode {
    fn from(value: DeviceModeState) -> (r: Self) {
        match value {
            DeviceModeState::Missing => DeviceMode::Missing,
            DeviceModeState::Hid => DeviceMode::Hid,
            DeviceModeState::HidUnavailable => DeviceMode::HidUnavailable,
            DeviceModeState::Direct => DeviceMode::Direct,
            DeviceModeState::Unknown => DeviceMode::Unknown,
        }
    }
}

impl vstd::std_specs::convert::FromSpecImpl<DeviceModeState> for DeviceMode {
    open spec fn obeys_from_spec() -> bool {
        true
    }

    open spec fn from_spec(v: DeviceModeState) -> DeviceMode {
        mode_of_state(v)
    }
}

/// What a background task reports to the window.
#[derive(Clone, Debug)]
pub enum TaskEvent {
    Log(String),
    Status(String),
    Progress(ProgressEvent),
    Inventory { files: Vec<FileEntry>, applets: Vec<SmartAppletRecord>, note: String },
    Finished { note: String },
    Failed { message: String },
}

/// The texts of a list of lines.
pub open spec fn line_texts(lines: Seq<String>) -> Seq<Seq<char>> {
    lines.map_values(|l: String| l@)
}

/// The last `n` items of `s`.
pub open spec fn keep_last<A>(s: Seq<A>, n: nat) -> Seq<A> {
    if s.len() > n {
        s.subrange(s.len() - n, s.len() as int)
    } else {
        s
    }
}

/// The log panel after a line is added to `before`.
pub open spec fn logged(before: Seq<String>, line: Seq<char>) -> Seq<Seq<char>> {
    keep_last(line_texts(before).push(line), GUI_LOG_LINES as nat)
}

/// The log panel never holds more than 200 lines, and its newest line is
/// the one just added.
pub proof fn lemma_log_panel_bounded(before: Seq<String>, line: Seq<char>)
    ensures
        logged(before, line).len() <= GUI_LOG_LINES,
        logged(before, line).last() == line,
{
}

/// The status line of a fresh window.
pub open spec fn ready_text() -> Seq<char> {
    "Alpha GUI ready. Refresh inventory when the NEO is connected."@
}

/// A selection index kept inside a list of `len` items (the first item of
/// an empty list).
pub open spec fn clamp_index(selected: usize, len: nat) -> usize {
    if len == 0 {
        0
    } else if selected < len {
        selected
    } else {
        (len - 1) as usize
    }
}

/// The manager window's state.
#[derive(Clone, Debug)]
pub struct GuiModel {
    pub mode: DeviceModeState,
    pub files: Vec<FileEntry>,
    pub applets: Vec<SmartAppletRecord>,
    pub status: String,
    pub error: Option<String>,
    pub logs: Vec<String>,
    pub selected_slot: usize,
    pub selected_applet: usize,
    pub operation_progress: Option<OperationProgress>,
    pub last_operation_summary: Option<String>,
}

/// The fields a log line leaves alone.
pub open spec fn same_but_logs(a: GuiModel, b: GuiModel) -> bool {
    &&& b.mode == a.mode
    &&& b.files == a.files
    &&& b.applets == a.applets
    &&& b.status == a.status
    &&& b.error == a.error
    &&& b.selected_slot == a.selected_slot
    &&& b.selected_applet == a.selected_applet
    &&& b.operation_progress == a.operation_progress
    &&& b.last_operation_summary == a.last_operation_summary
}

/// The fields only an inventory report changes.
pub open spec fn same_inventory(a: GuiModel, b: GuiModel) -> bool {
    &&& b.mode == a.mode
    &&& b.files == a.files
    &&& b.applets == a.applets
    &&& b.selected_slot == a.selected_slot
    &&& b.selected_applet == a.selected_applet
}

/// An optional text.
pub open spec fn text_of(o: Option<String>) -> Option<Seq<char>> {
    match o {
        Some(s) => Some(s@),
        None => None,
    }
}

impl GuiModel {
    /// The window when it opens: no device seen yet, nothing listed, one log
    /// line.
    pub fn new() -> (r: Self)
        ensures
            r.mode == DeviceModeState::Unknown,
            r.files@.len() == 0,
            r.applets@.len() == 0,
            r.status@ == ready_text(),
            r.error is None,
            line_texts(r.logs@) == seq!["Alpha GUI initialized."@],
            r.selected_slot == 0,
            r.selected_applet == 0,
            r.operation_progress is None,
            r.last_operation_summary is None,
    {
        let logs = vec![String::from_str("Alpha GUI initialized.")];
        let r = GuiModel {
            mode: DeviceModeState::Unknown,
            files: Vec::new(),
            applets: Vec::new(),
            status: String::from_str("Alpha GUI ready. Refresh inventory when the NEO is connected."),
            error: None,
            logs,
            selected_slot: 0,
            selected_applet: 0,
            operation_progress: None,
            last_operation_summary: None,
        };
        assert(line_texts(r.logs@) =~= seq!["Alpha GUI initialized."@]);
        r
    }

    /// Adds a line to the log panel, which keeps the last 200 lines.
    pub fn push_log(&mut self, line: String)
        ensures
            line_texts(final(self).logs@) == logged(old(self).logs@, line@),
            same_but_logs(*old(self), *final(self)),
    {
        let ghost before = self.logs@;
        self.logs.push(line);
        let ghost full = self.logs@;
        let ghost dropped: int = 0;
        assert(line_texts(full) =~= line_texts(before).push(line@));
        while self.logs.len() > GUI_LOG_LINES
            invariant
                same_but_logs(*old(self), *self),
                full.len() == before.len() + 1,
                0 <= dropped,
                dropped > 0 ==> self.logs@.len() >= GUI_LOG_LINES,
                dropped + self.logs@.len() == full.len(),
                self.logs@ == full.subrange(dropped, full.len() as int),
            decreases self.logs@.len(),
        {
            self.logs.remove(0);
            proof {
                dropped = dropped + 1;
            }
            assert(self.logs@ =~= full.subrange(dropped, full.len() as int));
        }
        assert(line_texts(self.logs@) =~= keep_last(line_texts(full), GUI_LOG_LINES as nat));
    }

    /// An operation failed: the status line says so, the log panel gets the
    /// message after `ERROR: `, and the error dialog shows the message.
    pub fn set_error(&mut self, message: String)
        ensures
            final(self).status@ == "Last operation failed."@,
            line_texts(final(self).logs@) == logged(old(self).logs@, "ERROR: "@ + message@),
            text_of(final(self).error) == Some(message@),
            same_inventory(*old(self), *final(self)),
            final(self).operation_progress == old(self).operation_progress,
            final(self).last_operation_summary == old(self).last_operation_summary,
    {
        self.status = String::from_str("Last operation failed.");
        let mut line = String::from_str("ERROR: ");
        line.append(message.as_str());
        proof {
            reveal_strlit("ERROR: ");
        }
        self.push_log(line);
        self.error = Some(message);
    }

    /// Takes one report of the running task; returns whether the task is
    /// still running. Log, status and progress reports keep it running; an
    /// inventory, a finish or a failure ends it. An inventory replaces the
    /// lists and keeps each selection inside its list.
    pub fn apply_task_event(&mut self, event: TaskEvent) -> (keep: bool)
        ensures
            match event {
                TaskEvent::Log(line) => {
                    &&& keep
                    &&& line_texts(final(self).logs@) == logged(old(self).logs@, line@)
                    &&& same_but_logs(*old(self), *final(self))
                },
                TaskEvent::Status(note) => {
                    &&& keep
                    &&& final(self).status == note
                    &&& final(self).logs == old(self).logs
                    &&& final(self).error == old(self).error
                    &&& same_inventory(*old(self), *final(self))
                    &&& final(self).operation_progress == old(self).operation_progress
                    &&& final(self).last_operation_summary == old(self).last_operation_summary
                },
                TaskEvent::Progress(update) => {
                    &&& keep
                    &&& final(self).status == old(self).status
                    &&& final(self).logs == old(self).logs
                    &&& final(self).error == old(self).error
                    &&& same_inventory(*old(self), *final(self))
                    &&& final(self).last_operation_summary == old(self).last_operation_summary
                    &&& (old(self).operation_progress is None ==> final(self).operation_progress is None)
                    &&& (old(self).operation_progress matches Some(p) ==> (final(self).operation_progress matches Some(q)
                        && progress_applied(p, update, q)))
                },
                TaskEvent::Inventory { files, applets, note } => {
                    &&& !keep
                    &&& final(self).files == files
                    &&& final(self).applets == applets
                    &&& final(self).status@ == note@
                    &&& line_texts(final(self).logs@) == logged(old(self).logs@, note@)
                    &&& text_of(final(self).last_operation_summary) == Some(note@)
                    &&& final(self).selected_slot == clamp_index(old(self).selected_slot, files@.len())
                    &&& final(self).selected_applet == clamp_index(old(self).selected_applet, applets@.len())
                    &&& final(self).error == old(self).error
                    &&& final(self).mode == old(self).mode
                    &&& final(self).operation_progress == old(self).operation_progress
                },
                TaskEvent::Finished { note } => {
                    &&& !keep
                    &&& final(self).status@ == note@
                    &&& line_texts(final(self).logs@) == logged(old(self).logs@, note@)
                    &&& text_of(final(self).last_operation_summary) == Some(note@)
                    &&& final(self).error == old(self).error
                    &&& same_inventory(*old(self), *final(self))
                    &&& final(self).operation_progress == old(self).operation_progress
                },
                TaskEvent::Failed { message } => {
                    &&& !keep
                    &&& final(self).status@ == "Last operation failed."@
                    &&& line_texts(final(self).logs@) == logged(old(self).logs@, "ERROR: "@ + message@)
                    &&& text_of(final(self).error) == Some(message@)
                    &&& same_inventory(*old(self), *final(self))
                    &&& final(self).operation_progress == old(self).operation_progress
                    &&& final(self).last_operation_summary == old(self).last_operation_summary
                },
            },
    {
        match event {
            TaskEvent::Log(line) => {
                self.push_log(line);
                true
            },
            TaskEvent::Status(note) => {
                self.status = note;
                true
            },
            TaskEvent::Progress(update) => {
                match self.operation_progress.take() {
                    Some(mut p) => {
                        p.apply(update);
                        self.operation_progress = Some(p);
                    },
                    None => {},
                }
                true
            },
            TaskEvent::Inventory { files, applets, note } => {
                self.files = files;
                self.applets = applets;
                self.status = note.clone();
                self.push_log(note.clone());
                self.last_operation_summary = Some(note);
                self.selected_slot = clamped(self.selected_slot, self.files.len());
                self.selected_applet = clamped(self.selected_applet, self.applets.len());
                false
            },
            TaskEvent::Finished { note } => {
                self.status = note.clone();
                self.push_log(note.clone());
                self.last_operation_summary = Some(note);
                false
            },
            TaskEvent::Failed { message } => {
                self.set_error(message);
                false
            },
        }
    }

    /// Ends the task display: once the task is no longer kept, its progress
    /// panel goes away.
    pub fn end_task(&mut self)
        ensures
            final(self).operation_progress is None,
            final(self).status == old(self).status,
            final(self).logs == old(self).logs,
            final(self).error == old(self).error,
            same_inventory(*old(self), *final(self)),
            final(self).last_operation_summary == old(self).last_operation_summary,
    {
        self.operation_progress = None;
    }
}

/// `selected` kept inside a list of `len` items
/// (`selected.min(len.saturating_sub(1))`).
fn clamped(selected: usize, len: usize) -> (r: usize)
    ensures
        r == clamp_index(selected, len as nat),
{
    let last = if len == 0 {
        0
    } else {
        len - 1
    };
    if selected < last {
        selected
    } else {
        last
    }
}

/// What `OperationProgress::apply` promises of a panel `q` made from `p` by
/// `update`.
pub open spec fn progress_applied(p: OperationProgress, update: ProgressEvent, q: OperationProgress) -> bool {
    &&& q.title == p.title
    &&& match update {
        ProgressEvent::Phase { phase, item, completed, total, indeterminate } => {
            &&& q.phase == phase
            &&& q.item == item
            &&& q.completed == completed
            &&& q.total == total
            &&& q.indeterminate == indeterminate
            &&& q.logs@ == p.logs@
        },
        ProgressEvent::Log(line) => {
            &&& q.phase == p.phase
            &&& q.item == p.item
            &&& q.completed == p.completed
            &&& q.total == p.total
            &&& q.indeterminate == p.indeterminate
            &&& q.logs@ == crate::manager::last_lines(p.logs@.push(line), 8)
        },
    }
}

/// A SmartApplet file the user added, as the caller read it from disk: its
/// path, the file name without extension (or "Custom Applet"), and its size
/// when known.
#[derive(Clone, Debug)]
pub struct AddedApplet {
    pub path: String,
    pub display_name: String,
    pub size: Option<u64>,
}

/// The tick the user set for a row key, if any (the first entry for it).
pub open spec fn tick_for(checks: Seq<(String, bool)>, key: Seq<char>) -> Option<bool>
    decreases checks.len(),
{
    if checks.len() == 0 {
        None
    } else if checks[0].0@ == key {
        Some(checks[0].1)
    } else {
        tick_for(checks.drop_first(), key)
    }
}

/// A row with the user's tick applied.
pub open spec fn ticked_row(row: AppletChecklistRow, checks: Seq<(String, bool)>) -> AppletChecklistRow {
    match tick_for(checks, row.key@) {
        Some(c) => AppletChecklistRow { checked: c, ..row },
        None => row,
    }
}

/// The row an added file gets, before the user's tick.
pub open spec fn added_row_matches(row: AppletChecklistRow, added: AddedApplet, checks: Seq<(String, bool)>) -> bool {
    &&& row.key@ == "file-"@ + added.path@
    &&& row.display_name@ == added.display_name@
    &&& row.version is None
    &&& row.size == added.size
    &&& !row.installed
    &&& row.checked == (match tick_for(checks, row.key@) {
        Some(c) => c,
        None => true,
    })
    &&& row.source matches AppletSourceKind::AddedFromFile { path } && path@ == added.path@
}

/// Finds the user's tick for a key.
fn find_tick(checks: &Vec<(String, bool)>, key: &String) -> (r: Option<bool>)
    ensures
        r == tick_for(checks@, key@),
{
    let mut i: usize = 0;
    assert(checks@.subrange(0, checks@.len() as int) =~= checks@);
    while i < checks.len()
        invariant
            i <= checks@.len(),
            tick_for(checks@, key@) == tick_for(checks@.subrange(i as int, checks@.len() as int), key@),
        decreases checks@.len() - i,
    {
        let ghost rest = checks@.subrange(i as int, checks@.len() as int);
        assert(rest.drop_first() =~= checks@.subrange(i + 1, checks@.len() as int));
        if checks[i].0 == *key {
            return Some(checks[i].1);
        }
        i = i + 1;
    }
    None
}

/// The checklist the window shows: the rows of `base`, then one row per
/// added file (ticked unless the user unticked it), with the user's ticks
/// applied to every row.
pub fn applet_checklist_with(base: AppletChecklist, added: &Vec<AddedApplet>, checks: &Vec<(String, bool)>) -> (r: AppletChecklist)
    ensures
        r.rows@.len() == base.rows@.len() + added@.len(),
        forall|i: int| 0 <= i < base.rows@.len() ==> r.rows@[i] == ticked_row(#[trigger] base.rows@[i], checks@),
        forall|j: int| 0 <= j < added@.len() ==> added_row_matches(
            #[trigger] r.rows@[base.rows@.len() + j],
            added@[j],
            checks@,
        ),
{
    let n = base.rows.len();
    let mut rows = base.rows;
    let ghost original = rows@;
    let mut i: usize = 0;
    while i < n
        invariant
            n == original.len(),
            i <= n,
            rows@.len() == n,
            forall|k: int| 0 <= k < i ==> rows@[k] == ticked_row(#[trigger] original[k], checks@),
            forall|k: int| i <= k < n ==> rows@[k] == original[k],
        decreases n - i,
    {
        let tick = find_tick(checks, &rows[i].key);
        match tick {
            Some(c) => {
                let mut row = rows.remove(i);
                row.checked = c;
                rows.insert(i, row);
            },
            None => {},
        }
        i = i + 1;
    }
    let mut j: usize = 0;
    while j < added.len()
        invariant
            n == original.len(),
            rows@.len() == n + j,
            j <= added@.len(),
            forall|k: int| 0 <= k < n ==> rows@[k] == ticked_row(#[trigger] original[k], checks@),
            forall|k: int| 0 <= k < j ==> added_row_matches(#[trigger] rows@[n + k], added@[k], checks@),
        decreases added@.len() - j,
    {
        let a = &added[j];
        let mut key = String::from_str("file-");
        key.append(a.path.as_str());
        proof {
            reveal_strlit("file-");
        }
        let tick = find_tick(checks, &key);
        let checked = match tick {
            Some(c) => c,
            None => true,
        };
        let row = AppletChecklistRow {
            key,
            display_name: a.display_name.clone(),
            version: None,
            size: a.size,
            installed: false,
            checked,
            source: AppletSourceKind::AddedFromFile { path: a.path.clone() },
        };
        rows.push(row);
        assert(rows@[n + j as int] == row);
        j = j + 1;
    }
    AppletChecklist { rows }
}

} // verus!
