//! The state behind the manager front ends: which tab and gate to show for a
//! connection, the progress of a long operation, and the text helpers used
//! when backing AlphaWord files up.

use vstd::prelude::*;
use crate::text::{bytes_to_text, lossy_text, text_chars, text_from_chars, decimal, push_decimal, push_char};

verus! {

/// A tab of the manager window.
#[derive(Clone, Copy, Debug, PartialEq, Eq, Structural)]
pub enum MainTab {
    Dashboard,
    SmartApplets,
    OsOperations,
    About,
}

/// The caption of a tab.
pub open spec fn tab_label(t: MainTab) -> Seq<char> {
    match t {
        MainTab::Dashboard => "Dashboard"@,
        MainTab::SmartApplets => "SmartApplets"@,
        MainTab::OsOperations => "OS Operations"@,
        MainTab::About => "About"@,
    }
}

/// The icon glyph of a tab.
pub open spec fn tab_icon(t: MainTab) -> Seq<char> {
    match t {
        MainTab::Dashboard => "▣"@,
        MainTab::SmartApplets => "▤"@,
        MainTab::OsOperations => "◆"@,
        MainTab::About => "?"@,
    }
}

impl MainTab {
    /// Every tab, in the order the tab bar shows them.
    pub const ALL: [MainTab; 4] = [MainTab::Dashboard, MainTab::SmartApplets, MainTab::OsOperations, MainTab::About];

    /// The caption of the tab.
    pub fn label(self) -> (r: &'static str)
        ensures
            r@ == tab_label(self),
    {
        match self {
            MainTab::Dashboard => "Dashboard",
            MainTab::SmartApplets => "SmartApplets",
            MainTab::OsOperations => "OS Operations",
            MainTab::About => "About",
        }
    }

    /// The icon glyph of the tab.
    pub fn icon(self) -> (r: &'static str)
        ensures
            r@ == tab_icon(self),
    {
        match self {
            MainTab::Dashboard => "▣",
            MainTab::SmartApplets => "▤",
            MainTab::OsOperations => "◆",
            MainTab::About => "?",
        }
    }
}

/// How the device presents itself on USB.
#[derive(Clone, Copy, Debug, PartialEq, Eq, Structural)]
pub enum DeviceMode {
    Missing,
    Hid,
    HidUnavailable,
    Direct,
    Unknown,
}

/// What the platform the manager runs on can do.
#[derive(Clone, Copy, Debug, PartialEq, Eq, Structural)]
pub struct PlatformCapabilities {
    pub can_auto_switch_hid: bool,
    pub can_pick_custom_applet_file: bool,
    pub can_run_manager_operations: bool,
    pub mobile: bool,
}

impl PlatformCapabilities {
    /// A desktop system: it can switch the keyboard mode itself and open
    /// files.
    pub fn desktop() -> (r: Self)
        ensures
            r == (PlatformCapabilities {
                can_auto_switch_hid: true,
                can_pick_custom_applet_file: true,
                can_run_manager_operations: true,
                mobile: false,
            }),
    {
        PlatformCapabilities {
            can_auto_switch_hid: true,
            can_pick_custom_applet_file: true,
            can_run_manager_operations: true,
            mobile: false,
        }
    }

    /// A phone: no keyboard-mode switch and no file picker for applets.
    pub fn mobile() -> (r: Self)
        ensures
            r == (PlatformCapabilities {
                can_auto_switch_hid: false,
                can_pick_custom_applet_file: false,
                can_run_manager_operations: true,
                mobile: true,
            }),
    {
        PlatformCapabilities {
            can_auto_switch_hid: false,
            can_pick_custom_applet_file: false,
            can_run_manager_operations: true,
            mobile: true,
        }
    }
}

/// What the connection screen asks of the user or does next.
#[derive(Clone, Copy, Debug, PartialEq, Eq, Structural)]
pub enum ConnectionAction {
    WaitForDevice,
    AutoSwitchToDirect,
    InstallAlphaUsbFromDesktop,
    EnterApp,
    Retry,
}

/// The connection screen: an action and the message shown with it.
#[derive(Clone, Debug, PartialEq, Eq)]
pub struct ConnectionGate {
    pub action: ConnectionAction,
    pub message: String,
}

/// The action for a device mode on a platform.
pub open spec fn gate_action(mode: DeviceMode, caps: PlatformCapabilities) -> ConnectionAction {
    match mode {
        DeviceMode::Direct => if caps.can_run_manager_operations {
            ConnectionAction::EnterApp
        } else {
            ConnectionAction::Retry
        },
        DeviceMode::Hid => if caps.can_auto_switch_hid {
            ConnectionAction::AutoSwitchToDirect
        } else {
            ConnectionAction::InstallAlphaUsbFromDesktop
        },
        DeviceMode::HidUnavailable => ConnectionAction::Retry,
        DeviceMode::Missing => ConnectionAction::WaitForDevice,
        DeviceMode::Unknown => ConnectionAction::Retry,
    }
}

/// The message for a device mode on a platform.
pub open spec fn gate_message(mode: DeviceMode, caps: PlatformCapabilities) -> Seq<char> {
    match mode {
        DeviceMode::Direct => if caps.can_run_manager_operations {
            "Direct USB connection ready."@
        } else {
            "Direct USB connection detected, but this build does not include a native manager backend for this platform."@
        },
        DeviceMode::Hid => if caps.can_auto_switch_hid {
            "Keyboard-mode device detected. Switching to direct USB."@
        } else {
            "Keyboard-mode device detected. Install and run Alpha USB from the desktop app before using mobile."@
        },
        DeviceMode::HidUnavailable => "AlphaSmart is present, but HID access is unavailable on this platform."@,
        DeviceMode::Missing => "Connect your AlphaSmart NEO over USB."@,
        DeviceMode::Unknown => "Checking AlphaSmart USB connection."@,
    }
}

impl ConnectionGate {
    /// The connection screen for a device mode on a platform.
    pub fn from_mode(mode: DeviceMode, capabilities: PlatformCapabilities) -> (r: Self)
        ensures
            r.action == gate_action(mode, capabilities),
            r.message@ == gate_message(mode, capabilities),
    {
        match mode {
            DeviceMode::Direct => if capabilities.can_run_manager_operations {
                ConnectionGate {
                    action: ConnectionAction::EnterApp,
                    message: String::from_str("Direct USB connection ready."),
                }
            } else {
                ConnectionGate {
                    action: ConnectionAction::Retry,
                    message: String::from_str(
                        "Direct USB connection detected, but this build does not include a native manager backend for this platform.",
                    ),
                }
            },
            DeviceMode::Hid => if capabilities.can_auto_switch_hid {
                ConnectionGate {
                    action: ConnectionAction::AutoSwitchToDirect,
                    message: String::from_str("Keyboard-mode device detected. Switching to direct USB."),
                }
            } else {
                ConnectionGate {
                    action: ConnectionAction::InstallAlphaUsbFromDesktop,
                    message: String::from_str(
                        "Keyboard-mode device detected. Install and run Alpha USB from the desktop app before using mobile.",
                    ),
                }
            },
            DeviceMode::HidUnavailable => ConnectionGate {
                action: ConnectionAction::Retry,
                message: String::from_str("AlphaSmart is present, but HID access is unavailable on this platform."),
            },
            DeviceMode::Missing => ConnectionGate {
                action: ConnectionAction::WaitForDevice,
                message: String::from_str("Connect your AlphaSmart NEO over USB."),
            },
            DeviceMode::Unknown => ConnectionGate {
                action: ConnectionAction::Retry,
                message: String::from_str("Checking AlphaSmart USB connection."),
            },
        }
    }

    /// The tabs are shown only once the manager can talk to the device.
    pub fn tabs_visible(&self) -> (r: bool)
        ensures
            r == (self.action == ConnectionAction::EnterApp),
    {
        self.action == ConnectionAction::EnterApp
    }
}

/// Tabs stay hidden until a direct connection that the platform can use:
/// on every platform and for every device mode, the tabs show exactly when
/// the device is in direct mode and the platform runs manager operations.
pub proof fn lemma_tabs_visible_only_when_direct(mode: DeviceMode, caps: PlatformCapabilities)
    ensures
        (gate_action(mode, caps) == ConnectionAction::EnterApp) <==> (mode == DeviceMode::Direct
            && caps.can_run_manager_operations),
{
}

/// What a confirmation dialog guards.
#[derive(Clone, Copy, Debug, PartialEq, Eq, Structural)]
pub enum ConfirmationKind {
    AppletReflash,
    FirmwareFlash,
    SystemFlash,
    SmallRomOperation,
}

/// A confirmation dialog.
#[derive(Clone, Debug, PartialEq, Eq)]
pub struct ConfirmationRequest {
    pub kind: ConfirmationKind,
    pub title: String,
    pub message: String,
    pub destructive: bool,
}

/// The number of log lines a progress panel keeps.
pub const PROGRESS_LOG_LINES: usize = 8;

/// The progress of a long device operation.
#[derive(Clone, Debug, PartialEq, Eq)]
pub struct OperationProgress {
    pub title: String,
    pub phase: String,
    pub item: Option<String>,
    pub completed: Option<usize>,
    pub total: Option<usize>,
    pub indeterminate: bool,
    pub logs: Vec<String>,
}

/// An update to a progress panel.
#[derive(Clone, Debug, PartialEq, Eq)]
pub enum ProgressEvent {
    Phase {
        phase: String,
        item: Option<String>,
        completed: Option<usize>,
        total: Option<usize>,
        indeterminate: bool,
    },
    Log(String),
}

/// The last `n` lines of `s`.
pub open spec fn last_lines(s: Seq<String>, n: nat) -> Seq<String> {
    if s.len() > n {
        s.subrange(s.len() - n, s.len() as int)
    } else {
        s
    }
}

impl OperationProgress {
    /// A fresh progress panel: "Starting", with no counts yet.
    pub fn new(title: &str) -> (r: Self)
        ensures
            r.title@ == title@,
            r.phase@ == "Starting"@,
            r.item is None,
            r.completed is None,
            r.total is None,
            r.indeterminate,
            r.logs@.len() == 0,
    {
        OperationProgress {
            title: String::from_str(title),
            phase: String::from_str("Starting"),
            item: None,
            completed: None,
            total: None,
            indeterminate: true,
            logs: Vec::new(),
        }
    }

    /// The panel with counts set; it is indeterminate when the total is zero.
    pub fn with_counts(self, completed: usize, total: usize) -> (r: Self)
        ensures
            r == (OperationProgress {
                completed: Some(completed),
                total: Some(total),
                indeterminate: total == 0,
                ..self
            }),
    {
        let mut s = self;
        s.completed = Some(completed);
        s.total = Some(total);
        s.indeterminate = total == 0;
        s
    }

    /// The completed and total counts behind the fraction done, when a
    /// nonzero total is known; an unknown completed count counts as zero.
    pub fn percent_parts(&self) -> (r: Option<(usize, usize)>)
        ensures
            r == (match self.total {
                Some(t) => if t == 0 {
                    None
                } else {
                    Some((
                        match self.completed {
                            Some(c) => c,
                            None => 0usize,
                        },
                        t,
                    ))
                },
                None => None,
            }),
    {
        match self.total {
            Some(t) => if t == 0 {
                None
            } else {
                Some((
                    match self.completed {
                        Some(c) => c,
                        None => 0usize,
                    },
                    t,
                ))
            },
            None => None,
        }
    }

    /// The counts behind the progress bar: none for an indeterminate panel.
    pub fn bar_fraction_parts(&self) -> (r: Option<(usize, usize)>)
        ensures
            self.indeterminate ==> r is None,
            !self.indeterminate ==> r == self.percent_parts_spec(),
    {
        if self.indeterminate {
            None
        } else {
            self.percent_parts()
        }
    }

    /// The value `percent_parts` returns.
    pub open spec fn percent_parts_spec(&self) -> Option<(usize, usize)> {
        match self.total {
            Some(t) => if t == 0 {
                None
            } else {
                Some((
                    match self.completed {
                        Some(c) => c,
                        None => 0usize,
                    },
                    t,
                ))
            },
            None => None,
        }
    }

    /// Applies an update: a phase replaces the phase, item and counts; a log
    /// line is appended and only the last eight lines are kept.
    pub fn apply(&mut self, event: ProgressEvent)
        ensures
            final(self).title == old(self).title,
            match event {
                ProgressEvent::Phase { phase, item, completed, total, indeterminate } => {
                    &&& final(self).phase == phase
                    &&& final(self).item == item
                    &&& final(self).completed == completed
                    &&& final(self).total == total
                    &&& final(self).indeterminate == indeterminate
                    &&& final(self).logs@ == old(self).logs@
                },
                ProgressEvent::Log(line) => {
                    &&& final(self).phase == old(self).phase
                    &&& final(self).item == old(self).item
                    &&& final(self).completed == old(self).completed
                    &&& final(self).total == old(self).total
                    &&& final(self).indeterminate == old(self).indeterminate
                    &&& final(self).logs@ == last_lines(old(self).logs@.push(line), 8)
                    &&& final(self).logs@.len() <= PROGRESS_LOG_LINES
                },
            },
    {
        match event {
            ProgressEvent::Phase { phase, item, completed, total, indeterminate } => {
                self.phase = phase;
                self.item = item;
                self.completed = completed;
                self.total = total;
                self.indeterminate = indeterminate;
            },
            ProgressEvent::Log(line) => {
                self.logs.push(line);
                let ghost full = self.logs@;
                let ghost dropped: int = 0;
                while self.logs.len() > PROGRESS_LOG_LINES
                    invariant
                        self.title == old(self).title,
                        self.phase == old(self).phase,
                        self.item == old(self).item,
                        self.completed == old(self).completed,
                        self.total == old(self).total,
                        self.indeterminate == old(self).indeterminate,
                        dropped > 0 ==> self.logs@.len() >= 8,
                        0 <= dropped,
                        dropped + self.logs@.len() == full.len(),
                        self.logs@ == full.subrange(dropped, full.len() as int),
                    decreases self.logs@.len(),
                {
                    self.logs.remove(0);
                    proof {
                        dropped = dropped + 1;
                    }
                    assert(self.logs@ =~= full.subrange(dropped, full.len() as int));
                }
                assert(self.logs@ =~= last_lines(full, 8));
            },
        }
    }
}

impl ProgressEvent {
    /// A phase with no item and no counts.
    pub fn phase(phase: &str) -> (r: Self)
        ensures
            r matches ProgressEvent::Phase { phase: p, item, completed, total, indeterminate }
                && p@ == phase@ && item is None && completed is None && total is None && indeterminate,
    {
        ProgressEvent::Phase {
            phase: String::from_str(phase),
            item: None,
            completed: None,
            total: None,
            indeterminate: true,
        }
    }

    /// A phase working on one item of a counted whole.
    pub fn phase_item(phase: &str, item: &str, completed: usize, total: usize) -> (r: Self)
        ensures
            r matches ProgressEvent::Phase { phase: p, item: Some(i), completed: c, total: t, indeterminate }
                && p@ == phase@ && i@ == item@ && c == Some(completed) && t == Some(total)
                && indeterminate == (total == 0),
    {
        ProgressEvent::Phase {
            phase: String::from_str(phase),
            item: Some(String::from_str(item)),
            completed: Some(completed),
            total: Some(total),
            indeterminate: total == 0,
        }
    }

    /// A log line.
    pub fn log(line: &str) -> (r: Self)
        ensures
            r matches ProgressEvent::Log(l) && l@ == line@,
    {
        ProgressEvent::Log(String::from_str(line))
    }
}

/// The screens of the terminal front end.
#[derive(Clone, Copy, Debug, PartialEq, Eq, Structural)]
pub enum Screen {
    Waiting,
    MainMenu,
    Files,
}

/// `n / d` in tenths, rounded to nearest with ties to even, as `{:.1}`
/// prints the exact quotient.
pub open spec fn rounded_tenths(n: nat, d: nat) -> nat
    recommends
        d > 0,
{
    let q = (n * 10) / d;
    let r = (n * 10) % d;
    if 2 * r > d || (2 * r == d && q % 2 == 1) {
        q + 1
    } else {
        q
    }
}

/// A quantity with one decimal place, from a count of tenths.
pub open spec fn one_decimal(tenths: nat) -> Seq<char> {
    decimal(tenths / 10).push('.') + decimal(tenths % 10)
}

/// A byte count for people: whole bytes below 1 KiB, else KiB or MiB with
/// one decimal place.
pub open spec fn human_bytes_text(bytes: u32) -> Seq<char> {
    if bytes >= 1_048_576 {
        one_decimal(rounded_tenths(bytes as nat, 1_048_576)) + " MB"@
    } else if bytes >= 1024 {
        one_decimal(rounded_tenths(bytes as nat, 1024)) + " KB"@
    } else {
        decimal(bytes as nat) + " B"@
    }
}

fn push_one_decimal(s: &mut String, n: u32, d: u64)
    requires
        d == 1024 || d == 1_048_576,
    ensures
        final(s)@ == old(s)@ + one_decimal(rounded_tenths(n as nat, d as nat)),
{
    let scaled: u64 = n as u64 * 10;
    let q = scaled / d;
    let r = scaled % d;
    let tenths: u64 = if 2 * r > d || (2 * r == d && q % 2 == 1) { q + 1 } else { q };
    assert(tenths == rounded_tenths(n as nat, d as nat));
    push_decimal(s, tenths / 10);
    push_char(s, '.');
    push_decimal(s, tenths % 10);
    assert(final(s)@ =~= old(s)@ + one_decimal(tenths as nat));
}

/// Formats a byte count for people.
pub fn human_bytes(bytes: u32) -> (r: String)
    ensures
        r@ == human_bytes_text(bytes),
{
    let mut s = String::new();
    if bytes >= 1_048_576 {
        push_one_decimal(&mut s, bytes, 1_048_576);
        s.append(" MB");
    } else if bytes >= 1024 {
        push_one_decimal(&mut s, bytes, 1024);
        s.append(" KB");
    } else {
        push_decimal(&mut s, bytes as u64);
        s.append(" B");
    }
    assert(s@ =~= human_bytes_text(bytes));
    s
}

/// A rough word count for a text of `bytes` bytes: six bytes a word, at
/// least one.
pub fn approximate_words_from_bytes(bytes: u32) -> (r: usize)
    ensures
        r == (if bytes / 6 >= 1 { bytes / 6 } else { 1 }),
{
    let w = (bytes / 6) as usize;
    if w >= 1 {
        w
    } else {
        1
    }
}

/// The byte a text export writes for a byte of an AlphaWord file: NUL
/// becomes a space and a carriage return a line feed.
pub open spec fn export_byte(b: u8) -> u8 {
    if b == 0 {
        0x20
    } else if b == 0x0d {
        0x0a
    } else {
        b
    }
}

/// A text export keeps the length of the file and every byte but NUL and
/// CR; each NUL becomes a space and each CR a line feed.
pub proof fn lemma_text_export(payload: Seq<u8>, text: Seq<u8>)
    requires
        text == payload.map_values(|b: u8| export_byte(b)),
    ensures
        text.len() == payload.len(),
        forall|i: int| 0 <= i < payload.len() ==> {
            &&& payload[i] == 0 ==> text[i] == 0x20
            &&& payload[i] == 0x0d ==> text[i] == 0x0a
            &&& payload[i] != 0 && payload[i] != 0x0d ==> text[i] == payload[i]
        },
{
    assert forall|i: int| 0 <= i < payload.len() implies {
        &&& payload[i] == 0 ==> text[i] == 0x20
        &&& payload[i] == 0x0d ==> text[i] == 0x0a
        &&& payload[i] != 0 && payload[i] != 0x0d ==> text[i] == payload[i]
    } by {
        assert(text[i] == export_byte(payload[i]));
    }
}

/// Why a text export failed.
#[derive(Clone, Copy, Debug, PartialEq, Eq, Structural)]
pub enum TextExportError {
    LengthMismatch { downloaded: usize, converted: usize },
}

/// The text export of an AlphaWord file: byte for byte, with NUL as space
/// and CR as LF, so it has the length of the download.
pub fn text_export_bytes(payload: &[u8]) -> (r: Result<Vec<u8>, TextExportError>)
    ensures
        r matches Ok(text) && text@ == payload@.map_values(|b: u8| export_byte(b)),
        r matches Ok(text) && text@.len() == payload@.len() && forall|i: int| 0 <= i < payload@.len() ==> {
            &&& payload@[i] == 0 ==> text@[i] == 0x20
            &&& payload@[i] == 0x0d ==> text@[i] == 0x0a
            &&& payload@[i] != 0 && payload@[i] != 0x0d ==> text@[i] == payload@[i]
        },
{
    let mut text: Vec<u8> = Vec::new();
    let mut i: usize = 0;
    while i < payload.len()
        invariant
            i <= payload@.len(),
            text@ == payload@.subrange(0, i as int).map_values(|b: u8| export_byte(b)),
        decreases payload@.len() - i,
    {
        let b = payload[i];
        let out = if b == 0 { 0x20 } else if b == 0x0d { 0x0a } else { b };
        text.push(out);
        i = i + 1;
        assert(text@ =~= payload@.subrange(0, i as int).map_values(|b: u8| export_byte(b)));
    }
    assert(payload@.subrange(0, payload@.len() as int) =~= payload@);
    if text.len() != payload.len() {
        return Err(TextExportError::LengthMismatch { downloaded: payload.len(), converted: text.len() });
    }
    proof {
        lemma_text_export(payload@, text@);
    }
    Ok(text)
}

/// Whether a character may stay in a file name.
pub open spec fn name_char_kept(c: char) -> bool {
    ('a' <= c <= 'z') || ('A' <= c <= 'Z') || ('0' <= c <= '9') || c == '-' || c == '_'
}

/// The characters of a file name with every other character made `_`.
pub open spec fn name_chars(s: Seq<char>) -> Seq<char> {
    s.map_values(|c: char| if name_char_kept(c) { c } else { '_' })
}

/// Number of `_` at the start of `s`.
pub open spec fn lead_underscores(s: Seq<char>) -> nat
    decreases s.len(),
{
    if s.len() > 0 && s[0] == '_' {
        1 + lead_underscores(s.drop_first())
    } else {
        0
    }
}

/// Number of `_` at the end of `s`.
pub open spec fn trail_underscores(s: Seq<char>) -> nat
    decreases s.len(),
{
    if s.len() > 0 && s.last() == '_' {
        1 + trail_underscores(s.drop_last())
    } else {
        0
    }
}

/// `s` without leading and trailing `_`.
pub open spec fn trim_underscores(s: Seq<char>) -> Seq<char> {
    if lead_underscores(s) == s.len() {
        Seq::empty()
    } else {
        s.subrange(lead_underscores(s) as int, s.len() - trail_underscores(s))
    }
}

/// The file-name stem for an AlphaWord file: its name with unsafe
/// characters made `_`, trimmed of `_`, or "untitled" if nothing is left.
pub open spec fn sanitized(name: Seq<char>) -> Seq<char> {
    let t = trim_underscores(name_chars(name));
    if t.len() == 0 {
        "untitled"@
    } else {
        t
    }
}

proof fn lemma_lead_underscores(s: Seq<char>, i: int)
    requires
        0 <= i <= s.len(),
        forall|k: int| 0 <= k < i ==> #[trigger] s[k] == '_',
        i == s.len() || s[i] != '_',
    ensures
        lead_underscores(s) == i,
    decreases i,
{
    if i > 0 {
        let t = s.drop_first();
        assert forall|k: int| 0 <= k < i - 1 implies #[trigger] t[k] == '_' by {
            assert(t[k] == s[k + 1]);
        }
        lemma_lead_underscores(t, i - 1);
    }
}

proof fn lemma_trail_underscores(s: Seq<char>, j: int)
    requires
        0 <= j <= s.len(),
        forall|k: int| j <= k < s.len() ==> #[trigger] s[k] == '_',
        j == 0 || s[j - 1] != '_',
    ensures
        trail_underscores(s) == s.len() - j,
    decreases s.len() - j,
{
    if j < s.len() {
        let t = s.drop_last();
        assert forall|k: int| j <= k < t.len() implies #[trigger] t[k] == '_' by {
            assert(t[k] == s[k]);
        }
        lemma_trail_underscores(t, j);
    }
}

/// Makes an AlphaWord file name safe to use in a file name.
pub fn sanitize_name(name: &str) -> (r: String)
    ensures
        r@ == sanitized(name@),
{
    let cs = text_chars(name);
    let mut mapped: Vec<char> = Vec::new();
    let mut i: usize = 0;
    while i < cs.len()
        invariant
            cs@ == name@,
            i <= cs@.len(),
            mapped@ == name_chars(cs@.subrange(0, i as int)),
        decreases cs@.len() - i,
    {
        let c = cs[i];
        let keep = ('a' <= c && c <= 'z') || ('A' <= c && c <= 'Z') || ('0' <= c && c <= '9') || c == '-' || c == '_';
        mapped.push(if keep { c } else { '_' });
        i = i + 1;
        assert(mapped@ =~= name_chars(cs@.subrange(0, i as int)));
    }
    assert(cs@.subrange(0, cs@.len() as int) =~= cs@);
    let ghost m = mapped@;
    let n = mapped.len();
    let mut a: usize = 0;
    while a < n && mapped[a] == '_'
        invariant
            n == m.len(),
            mapped@ == m,
            a <= n,
            forall|k: int| 0 <= k < a ==> #[trigger] m[k] == '_',
        decreases n - a,
    {
        a = a + 1;
    }
    proof {
        lemma_lead_underscores(m, a as int);
    }
    if a == n {
        return String::from_str("untitled");
    }
    let mut b: usize = n;
    while b > a && mapped[b - 1] == '_'
        invariant
            n == m.len(),
            mapped@ == m,
            a < n,
            m[a as int] != '_',
            a <= b <= n,
            forall|k: int| b <= k < n ==> #[trigger] m[k] == '_',
        decreases b,
    {
        b = b - 1;
    }
    proof {
        lemma_trail_underscores(m, b as int);
    }
    let mut kept: Vec<char> = Vec::new();
    let mut k: usize = a;
    while k < b
        invariant
            mapped@ == m,
            a <= k <= b <= m.len(),
            kept@ == m.subrange(a as int, k as int),
        decreases b - k,
    {
        kept.push(mapped[k]);
        k = k + 1;
        assert(kept@ =~= m.subrange(a as int, k as int));
    }
    assert(kept@.len() > 0);
    text_from_chars(&kept)
}

/// Line breaks in a text with every CR LF pair made one LF.
pub open spec fn crlf_to_lf(s: Seq<char>) -> Seq<char>
    decreases s.len(),
{
    if s.len() == 0 {
        s
    } else if s.len() >= 2 && s[0] == '\r' && s[1] == '\n' {
        seq!['\n'] + crlf_to_lf(s.subrange(2, s.len() as int))
    } else {
        seq![s[0]] + crlf_to_lf(s.drop_first())
    }
}

/// A text with every remaining CR made LF.
pub open spec fn cr_to_lf(s: Seq<char>) -> Seq<char> {
    s.map_values(|c: char| if c == '\r' { '\n' } else { c })
}

/// The text of an AlphaWord file: NUL bytes as spaces, decoded leniently,
/// with CR LF and lone CR line breaks made LF.
pub open spec fn normalized_text(raw: Seq<u8>) -> Seq<char> {
    cr_to_lf(crlf_to_lf(lossy_text(raw.map_values(|b: u8| if b == 0 { 0x20u8 } else { b }))))
}

/// Decodes an AlphaWord file to text.
pub fn normalize_text(raw: &[u8]) -> (r: String)
    ensures
        r@ == normalized_text(raw@),
{
    let mut cleaned: Vec<u8> = Vec::new();
    let mut i: usize = 0;
    while i < raw.len()
        invariant
            i <= raw@.len(),
            cleaned@ == raw@.subrange(0, i as int).map_values(|b: u8| if b == 0 { 0x20u8 } else { b }),
        decreases raw@.len() - i,
    {
        cleaned.push(if raw[i] == 0 { 0x20 } else { raw[i] });
        i = i + 1;
        assert(cleaned@ =~= raw@.subrange(0, i as int).map_values(|b: u8| if b == 0 { 0x20u8 } else { b }));
    }
    assert(raw@.subrange(0, raw@.len() as int) =~= raw@);
    let decoded = bytes_to_text(cleaned.as_slice());
    let cs = text_chars(decoded.as_str());
    let ghost target = normalized_text(raw@);
    let mut out: Vec<char> = Vec::new();
    let mut j: usize = 0;
    assert(cs@.subrange(0, cs@.len() as int) =~= cs@);
    assert(out@ + cr_to_lf(crlf_to_lf(cs@)) =~= cr_to_lf(crlf_to_lf(cs@)));
    while j < cs.len()
        invariant
            j <= cs@.len(),
            target == out@ + cr_to_lf(crlf_to_lf(cs@.subrange(j as int, cs@.len() as int))),
        decreases cs@.len() - j,
    {
        let ghost rest = cs@.subrange(j as int, cs@.len() as int);
        let c = cs[j];
        if c == '\r' && j + 1 < cs.len() && cs[j + 1] == '\n' {
            assert(rest.subrange(2, rest.len() as int) =~= cs@.subrange(j + 2, cs@.len() as int));
            let ghost tail = crlf_to_lf(cs@.subrange(j + 2, cs@.len() as int));
            assert(cr_to_lf(seq!['\n'] + tail) =~= seq!['\n'] + cr_to_lf(tail));
            out.push('\n');
            j = j + 2;
            assert(target =~= out@ + cr_to_lf(crlf_to_lf(cs@.subrange(j as int, cs@.len() as int))));
        } else {
            assert(rest.drop_first() =~= cs@.subrange(j + 1, cs@.len() as int));
            let ghost tail = crlf_to_lf(cs@.subrange(j + 1, cs@.len() as int));
            let d = if c == '\r' { '\n' } else { c };
            assert(cr_to_lf(seq![c] + tail) =~= seq![d] + cr_to_lf(tail));
            out.push(d);
            j = j + 1;
            assert(target =~= out@ + cr_to_lf(crlf_to_lf(cs@.subrange(j as int, cs@.len() as int))));
        }
    }
    assert(cs@.subrange(j as int, cs@.len() as int) =~= Seq::<char>::empty());
    assert(out@ =~= target);
    text_from_chars(&out)
}

} // verus!
