//! The terminal backup tool's state: which screen it shows, what its status
//! line says, and which files a backup takes. The USB work between its
//! steps is done by the caller, which hands each result back.

use vstd::prelude::*;
use crate::protocol::FileEntry;
use crate::usb_mode::NeoMode;

verus! {

/// The tool's screens.
#[derive(Clone, Copy, Debug, PartialEq, Eq, Structural)]
pub enum Screen {
    Waiting,
    MainMenu,
    Files,
}

/// What the caller does after a mode check.
#[derive(Clone, Copy, Debug, PartialEq, Eq, Structural)]
pub enum ConnectStep {
    /// Nothing to do until the next check.
    Wait,
    /// Switch the keyboard-mode NEO to direct mode, wait for it, then open
    /// the direct connection.
    SwitchThenOpen,
    /// Open the direct connection.
    Open,
}

/// The tool's state.
#[derive(Clone, Debug)]
pub struct App {
    pub screen: Screen,
    pub status: String,
    pub error: Option<String>,
    pub main_selected: usize,
    pub file_selected: usize,
    pub files: Vec<FileEntry>,
}

/// The status line while nothing is connected.
pub open spec fn waiting_text() -> Seq<char> {
    "Connect the NEO with USB. It should appear as HID keyboard mode first."@
}

/// The status line of a mode check.
pub open spec fn mode_status(mode: NeoMode) -> Seq<char> {
    match mode {
        NeoMode::Direct => "NEO already in direct USB mode. Initializing..."@,
        NeoMode::Hid => "NEO HID mode found. Switching to direct USB mode..."@,
        _ => waiting_text(),
    }
}

/// The step a mode check leads to.
pub open spec fn connect_step(mode: NeoMode) -> ConnectStep {
    match mode {
        NeoMode::Direct => ConnectStep::Open,
        NeoMode::Hid => ConnectStep::SwitchThenOpen,
        _ => ConnectStep::Wait,
    }
}

/// The files a backup takes: all of them when the selection is past the
/// last file (the "All files" entry), else the selected one.
pub open spec fn backup_targets_of(files: Seq<FileEntry>, selected: int) -> Seq<FileEntry> {
    if selected >= files.len() {
        files
    } else {
        seq![files[selected]]
    }
}

impl App {
    /// The tool before any device is seen.
    pub fn new() -> (r: Self)
        ensures
            r.screen == Screen::Waiting,
            r.status@ == "Connect the AlphaSmart NEO by USB. Waiting for HID keyboard mode..."@,
            r.error is None,
            r.main_selected == 0,
            r.file_selected == 0,
            r.files@.len() == 0,
    {
        App {
            screen: Screen::Waiting,
            status: String::from_str("Connect the AlphaSmart NEO by USB. Waiting for HID keyboard mode..."),
            error: None,
            main_selected: 0,
            file_selected: 0,
            files: Vec::new(),
        }
    }

    /// Takes the result of a mode check: sets the status line and says what
    /// the caller does next.
    pub fn on_mode(&mut self, mode: NeoMode) -> (r: ConnectStep)
        ensures
            r == connect_step(mode),
            final(self).status@ == mode_status(mode),
            final(self).screen == old(self).screen,
            final(self).error == old(self).error,
            final(self).files@ == old(self).files@,
            final(self).file_selected == old(self).file_selected,
            final(self).main_selected == old(self).main_selected,
    {
        match mode {
            NeoMode::Direct => {
                self.status = String::from_str("NEO already in direct USB mode. Initializing...");
                ConnectStep::Open
            },
            NeoMode::Hid => {
                self.status = String::from_str("NEO HID mode found. Switching to direct USB mode...");
                ConnectStep::SwitchThenOpen
            },
            _ => {
                self.status = String::from_str("Connect the NEO with USB. It should appear as HID keyboard mode first.");
                ConnectStep::Wait
            },
        }
    }

    /// The direct connection is open: the main menu shows.
    pub fn on_connected(&mut self)
        ensures
            final(self).screen == Screen::MainMenu,
            final(self).status@ == "NEO initialized. Choose an action."@,
            final(self).error == old(self).error,
            final(self).files@ == old(self).files@,
            final(self).file_selected == old(self).file_selected,
            final(self).main_selected == old(self).main_selected,
    {
        self.screen = Screen::MainMenu;
        self.status = String::from_str("NEO initialized. Choose an action.");
    }

    /// The file list was read: the file screen shows it, with the first
    /// file selected.
    pub fn on_files(&mut self, files: Vec<FileEntry>)
        ensures
            final(self).screen == Screen::Files,
            final(self).files@ == files@,
            final(self).file_selected == 0,
            final(self).status@ == "Select a file to back it up, or choose All files."@,
            final(self).error == old(self).error,
            final(self).main_selected == old(self).main_selected,
    {
        self.files = files;
        self.file_selected = 0;
        self.screen = Screen::Files;
        self.status = String::from_str("Select a file to back it up, or choose All files.");
    }

    /// The files a backup of the selection takes.
    pub fn backup_targets(&self) -> (r: Vec<FileEntry>)
        ensures
            r@ == backup_targets_of(self.files@, self.file_selected as int),
    {
        if self.file_selected >= self.files.len() {
            let mut all: Vec<FileEntry> = Vec::new();
            let mut i: usize = 0;
            while i < self.files.len()
                invariant
                    i <= self.files@.len(),
                    all@ == self.files@.subrange(0, i as int),
                decreases self.files@.len() - i,
            {
                all.push(self.files[i].clone_entry());
                i = i + 1;
                assert(all@ =~= self.files@.subrange(0, i as int));
            }
            assert(self.files@.subrange(0, self.files@.len() as int) =~= self.files@);
            all
        } else {
            let one = self.files[self.file_selected].clone_entry();
            let r = vec![one];
            assert(r@ =~= seq![self.files@[self.file_selected as int]]);
            r
        }
    }

    /// An operation failed: its message becomes the error and the status
    /// line.
    pub fn set_error(&mut self, message: String)
        ensures
            final(self).error matches Some(e) && e@ == message@,
            final(self).status@ == message@,
            final(self).screen == old(self).screen,
            final(self).files@ == old(self).files@,
            final(self).file_selected == old(self).file_selected,
            final(self).main_selected == old(self).main_selected,
    {
        self.status = message.clone();
        self.error = Some(message);
    }
}

/// `current` moved by `delta` places around a ring of `len` entries
/// (Euclidean remainder); 0 for an empty ring.
pub fn wrap_index(current: usize, len: usize, delta: isize) -> (r: usize)
    requires
        len > 0 ==> current <= isize::MAX && len <= isize::MAX && isize::MIN <= current + delta <= isize::MAX,
    ensures
        len == 0 ==> r == 0,
        len > 0 ==> r == (current + delta) % (len as int) && r < len,
{
    if len == 0 {
        return 0;
    }
    let len_signed = len as isize;
    let moved = current as isize + delta;
    match moved.checked_rem_euclid(len_signed) {
        Some(v) => v as usize,
        None => 0,
    }
}

impl App {
    /// Moves the cursor of the current screen by `delta` places: the main
    /// menu has one entry, and the file screen cycles through the files and
    /// the "All files" entry after them.
    pub fn move_selection(&mut self, delta: isize)
        requires
            old(self).files@.len() < isize::MAX,
            old(self).file_selected <= isize::MAX,
            isize::MIN <= old(self).file_selected + delta <= isize::MAX,
        ensures
            old(self).screen == Screen::MainMenu ==> final(self).main_selected == 0 && final(self).file_selected
                == old(self).file_selected,
            old(self).screen == Screen::Files ==> final(self).file_selected == (old(self).file_selected + delta) % (
            old(self).files@.len() + 1) as int && final(self).main_selected == old(self).main_selected,
            old(self).screen == Screen::Waiting ==> final(self).main_selected == old(self).main_selected
                && final(self).file_selected == old(self).file_selected,
            final(self).screen == old(self).screen,
            final(self).files@ == old(self).files@,
            final(self).status == old(self).status,
            final(self).error == old(self).error,
    {
        match self.screen {
            Screen::Waiting => {},
            Screen::MainMenu => {
                self.main_selected = 0;
            },
            Screen::Files => {
                let len = self.files.len() + 1;
                self.file_selected = wrap_index(self.file_selected, len, delta);
            },
        }
    }
}

impl FileEntry {
    /// A copy of the entry.
    pub fn clone_entry(&self) -> (r: FileEntry)
        ensures
            r == *self,
    {
        FileEntry { slot: self.slot, name: self.name.clone(), attribute_bytes: self.attribute_bytes }
    }
}

} // verus!
