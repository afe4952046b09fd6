//! Running a SmartApplet in the emulator: the OS3KApp package format, the
//! decisions the applet runner takes at each firmware call, and the two
//! hosts (the plain one and the one with the firmware's menus) that feed
//! NEO messages to an applet and record what came of them.
//!
//! The 68000 itself is not modelled here: a `MessageRunner` executes a
//! message's machine code and reports its status, trace or error, and the
//! hosts' contracts hold for every report.

use vstd::prelude::*;
use crate::bytes::{be_u16_at, be_u32_at, read_be_u16, read_be_u32};
use crate::domain::{AppletMetadata, EmulatorSnapshot, Screen, UsbMode};
use crate::os_shims::{
    NeoOs, NeoOsShims, applets_menu_rows, direct_attached_rows, menu_name_fits, usb_attach_start_rows,
    usb_keyboard_rows,
};
use crate::text::{decimal, field_text, hex_digits, read_c_string};
use crate::memory::{EmuMemory, is_mmio, ram_byte};

verus! {

/// Size of the OS3KApp header.
pub const OS3KAPP_HEADER_SIZE: usize = 0x84;

/// A SmartApplet package.
#[derive(Clone, Debug)]
pub struct Os3kApp {
    pub metadata: AppletMetadata,
    pub entry_offset: u32,
    pub image: Vec<u8>,
}

/// Why a package was refused.
#[derive(Clone, Debug, PartialEq, Eq)]
pub enum Os3kAppError {
    TooShort,
    BadMagic,
    SizeMismatch { declared: usize, actual: usize },
    BadEntry(u32),
    Read(String),
}

/// The metadata a package header carries.
pub open spec fn metadata_of(image: Seq<u8>, m: AppletMetadata) -> bool {
    &&& m.applet_id as int == be_u16_at(image, 0x14)
    &&& m.name@ == field_text(image.subrange(0x18, 0x40))
    &&& m.version_major == image[0x3C]
    &&& m.version_minor_bcd == image[0x3D]
}

impl Os3kApp {
    /// Checks a package image and reads its header: the magic 0xC0FFEEAD,
    /// a size field equal to the image size, and an entry offset inside the
    /// image.
    pub fn parse(image: Vec<u8>) -> (r: Result<Self, Os3kAppError>)
        ensures
            image@.len() < 0x94 ==> r == Err::<Os3kApp, Os3kAppError>(Os3kAppError::TooShort),
            image@.len() >= 0x94 && be_u32_at(image@, 0) != 0xC0FF_EEAD ==> r == Err::<Os3kApp, Os3kAppError>(Os3kAppError::BadMagic),
            image@.len() >= 0x94 && be_u32_at(image@, 0) == 0xC0FF_EEAD && be_u32_at(image@, 4) != image@.len() ==> r
                == Err::<Os3kApp, Os3kAppError>(Os3kAppError::SizeMismatch {
                    declared: be_u32_at(image@, 4) as usize,
                    actual: image@.len() as usize,
                }),
            image@.len() >= 0x94 && be_u32_at(image@, 0) == 0xC0FF_EEAD && be_u32_at(image@, 4) == image@.len()
                && be_u32_at(image@, 0x84) >= image@.len() ==> r == Err::<Os3kApp, Os3kAppError>(
                Os3kAppError::BadEntry(be_u32_at(image@, 0x84) as u32),
            ),
            image@.len() >= 0x94 && be_u32_at(image@, 0) == 0xC0FF_EEAD && be_u32_at(image@, 4) == image@.len()
                && be_u32_at(image@, 0x84) < image@.len() ==> (r matches Ok(app) && app.image@ == image@
                && app.entry_offset == be_u32_at(image@, 0x84) && metadata_of(image@, app.metadata)),
    {
        if image.len() < 0x94 {
            return Err(Os3kAppError::TooShort);
        }
        if read_be_u32(image[0], image[1], image[2], image[3]) != 0xC0FF_EEAD {
            return Err(Os3kAppError::BadMagic);
        }
        let declared = read_be_u32(image[4], image[5], image[6], image[7]);
        if declared as usize != image.len() {
            return Err(Os3kAppError::SizeMismatch { declared: declared as usize, actual: image.len() });
        }
        let entry_offset = read_be_u32(image[0x84], image[0x85], image[0x86], image[0x87]);
        if entry_offset as usize >= image.len() {
            return Err(Os3kAppError::BadEntry(entry_offset));
        }
        let metadata = AppletMetadata {
            applet_id: read_be_u16(image[0x14], image[0x15]),
            name: read_c_string(image.as_slice(), 0x18, 0x28),
            version_major: image[0x3C],
            version_minor_bcd: image[0x3D],
        };
        Ok(Os3kApp { metadata, entry_offset, image })
    }
}

/// What a message run ended with.
#[derive(Clone, Debug, PartialEq, Eq)]
pub struct RunResult {
    pub status: u32,
    pub trace: Vec<String>,
    pub yielded: bool,
}

/// Why a message run failed.
#[derive(Clone, Debug, PartialEq, Eq)]
pub enum RunnerError {
    ImageTooLarge,
    UnsupportedException { vector: u8, dis_pc: u32, cpu_pc: u32, opcodes: String },
    StepLimit,
    StackAccess(u32),
}

/// The sentence that describes a runner error.
pub open spec fn runner_error_text(e: RunnerError) -> Seq<char> {
    match e {
        RunnerError::ImageTooLarge => "applet image does not fit emulator memory"@,
        RunnerError::UnsupportedException { vector, dis_pc, cpu_pc, opcodes } => "unsupported exception vector "@
            + decimal(vector as nat) + " at dis_pc=0x"@ + hex_digits(dis_pc as nat, 8) + " cpu_pc=0x"@ + hex_digits(
            cpu_pc as nat,
            8,
        ) + " opcodes="@ + opcodes@,
        RunnerError::StepLimit => "message did not finish after 20000 m68k steps"@,
        RunnerError::StackAccess(addr) => "failed stack operation at 0x"@ + hex_digits(addr as nat, 8),
    }
}

impl RunnerError {
    /// The error as a sentence.
    pub fn message(&self) -> (r: String)
        ensures
            r@ == runner_error_text(*self),
    {
        match self {
            RunnerError::ImageTooLarge => String::from_str("applet image does not fit emulator memory"),
            RunnerError::UnsupportedException { vector, dis_pc, cpu_pc, opcodes } => {
                let mut s = String::from_str("unsupported exception vector ");
                crate::text::push_decimal(&mut s, *vector as u64);
                s.append(" at dis_pc=0x");
                crate::text::push_hex(&mut s, *dis_pc as u64, 8);
                s.append(" cpu_pc=0x");
                crate::text::push_hex(&mut s, *cpu_pc as u64, 8);
                s.append(" opcodes=");
                s.append(opcodes.as_str());
                proof {
                    reveal_strlit("unsupported exception vector ");
                    reveal_strlit(" at dis_pc=0x");
                    reveal_strlit(" cpu_pc=0x");
                    reveal_strlit(" opcodes=");
                }
                assert(s@ =~= runner_error_text(*self));
                s
            },
            RunnerError::StepLimit => String::from_str("message did not finish after 20000 m68k steps"),
            RunnerError::StackAccess(addr) => {
                let mut s = String::from_str("failed stack operation at 0x");
                crate::text::push_hex(&mut s, *addr as u64, 8);
                proof {
                    reveal_strlit("failed stack operation at 0x");
                }
                assert(s@ =~= runner_error_text(*self));
                s
            },
        }
    }
}

/// Runs the machine code of a NEO message against a loaded applet.
pub trait MessageRunner {
    /// Runs `message` for `app`, calling `os` for the firmware services the
    /// applet uses.
    fn run_message(&mut self, app: &Os3kApp, os: &mut NeoOsShims, message: u32) -> Result<RunResult, RunnerError>;
}

/// Runs the machine code of a NEO message against the simple host.
pub trait SimpleMessageRunner {
    /// Runs `message` for `app`, calling `os` for the firmware services the
    /// applet uses.
    fn run_message(&mut self, app: &Os3kApp, os: &mut NeoOs, message: u32) -> Result<RunResult, RunnerError>;
}

/// The message a focused applet gets.
pub const MSG_SET_FOCUS: u32 = 0x19;
/// The message an applet gets when USB is plugged in.
pub const MSG_USB_PLUG: u32 = 0x3_0001;

/// A loaded applet with the firmware's menus around it.
pub struct NeoSystem {
    app: Os3kApp,
    os: NeoOsShims,
    screen: Screen,
    last_status: Option<u32>,
    last_trace: Vec<String>,
    error: Option<String>,
    runs: Ghost<Seq<u32>>,
}

/// Why a system could not be made.
#[derive(Clone, Debug, PartialEq, Eq)]
pub enum NeoSystemError {
    Os3k(Os3kAppError),
    Runner(RunnerError),
}

impl NeoSystem {
    /// The loaded applet.
    pub closed spec fn applet(&self) -> Os3kApp {
        self.app
    }

    /// The firmware services.
    pub closed spec fn services(&self) -> NeoOsShims {
        self.os
    }

    /// The screen shown.
    pub closed spec fn screen_spec(&self) -> Screen {
        self.screen
    }

    /// The status of the last message that ran.
    pub closed spec fn status_spec(&self) -> Option<u32> {
        self.last_status
    }

    /// The error of the last message, if it failed.
    pub closed spec fn error_spec(&self) -> Option<String> {
        self.error
    }

    /// The messages handed to the runner so far, in order.
    pub closed spec fn messages_run(&self) -> Seq<u32> {
        self.runs@
    }

    /// The trace of the last message that ran.
    pub closed spec fn trace_spec(&self) -> Seq<String> {
        self.last_trace@
    }

    /// The system is ready to draw.
    pub open spec fn wf(&self) -> bool {
        &&& self.services().screen().wf()
        &&& menu_name_fits(self.applet().metadata.name@)
    }

    /// A fresh system with `app` loaded, on the applet menu with the applet
    /// selected.
    pub fn load(app: Os3kApp) -> (r: Self)
        requires
            menu_name_fits(app.metadata.name@),
        ensures
            r.wf(),
            r.applet() == app,
            r.screen_spec() == Screen::AppletsMenu,
            r.services().screen().texts() == applets_menu_rows(app.metadata.name@, true),
            r.services().mode() == UsbMode::HidKeyboard,
            r.status_spec() is None,
            r.error_spec() is None,
            r.trace_spec().len() == 0,
            r.messages_run().len() == 0,
    {
        let mut os = NeoOsShims::new();
        os.draw_applets_menu(app.metadata.name.as_str(), true);
        NeoSystem { app, os, screen: Screen::AppletsMenu, last_status: None, last_trace: Vec::new(), error: None, runs: Ghost(Seq::empty()) }
    }

    /// Takes what a message run came back with: a result's status and trace
    /// become the last ones and clear the error; an error is kept as its
    /// sentence and leaves the last status and trace alone.  Returns whether
    /// the run succeeded.
    pub fn record_run(&mut self, outcome: Result<RunResult, RunnerError>) -> (ok: bool)
        ensures
            final(self).applet() == old(self).applet(),
            final(self).services() == old(self).services(),
            final(self).screen_spec() == old(self).screen_spec(),
            final(self).messages_run() == old(self).messages_run(),
            ok == outcome is Ok,
            match outcome {
                Ok(result) => {
                    &&& final(self).status_spec() == Some(result.status)
                    &&& final(self).trace_spec() == result.trace@
                    &&& final(self).error_spec() is None
                },
                Err(e) => {
                    &&& final(self).status_spec() == old(self).status_spec()
                    &&& final(self).trace_spec() == old(self).trace_spec()
                    &&& final(self).error_spec() matches Some(m) && m@ == runner_error_text(e)
                },
            },
    {
        match outcome {
            Ok(result) => {
                self.last_status = Some(result.status);
                self.last_trace = result.trace;
                self.error = None;
                true
            },
            Err(error) => {
                self.error = Some(error.message());
                false
            },
        }
    }

    fn run_message<R: MessageRunner>(&mut self, runner: &mut R, message: u32) -> (ok: bool)
        requires
            old(self).wf(),
        ensures
            final(self).applet() == old(self).applet(),
            final(self).screen_spec() == old(self).screen_spec(),
            final(self).messages_run() == old(self).messages_run().push(message),
            ok ==> final(self).error_spec() is None && final(self).status_spec() is Some,
            !ok ==> final(self).error_spec() is Some && final(self).status_spec() == old(self).status_spec()
                && final(self).trace_spec() == old(self).trace_spec(),
    {
        let outcome = runner.run_message(&self.app, &mut self.os, message);
        proof {
            self.runs@ = self.runs@.push(message);
        }
        self.record_run(outcome)
    }

    /// Focuses the applet: the applet gets the SetFocus message; a run that
    /// fails leaves the last status and trace and records its error.
    pub fn open_applet<R: MessageRunner>(&mut self, runner: &mut R)
        requires
            old(self).wf(),
        ensures
            final(self).applet() == old(self).applet(),
            final(self).screen_spec() == Screen::AppletRunning,
            final(self).messages_run() == old(self).messages_run().push(MSG_SET_FOCUS),
            final(self).error_spec() is None ==> final(self).status_spec() is Some,
            final(self).error_spec() is Some ==> final(self).status_spec() == old(self).status_spec()
                && final(self).trace_spec() == old(self).trace_spec(),
    {
        self.screen = Screen::AppletRunning;
        self.run_message(runner, MSG_SET_FOCUS);
    }

    /// Plugs USB in: the screen shows the connection being made, the applet
    /// gets the USB plug message, and then, unless it failed, the screen
    /// shows a direct connection if the applet switched to direct mode and
    /// a keyboard connection otherwise.
    pub fn simulate_usb_attach<R: MessageRunner>(&mut self, runner: &mut R)
        requires
            old(self).wf(),
        ensures
            final(self).applet() == old(self).applet(),
            final(self).screen_spec() == Screen::UsbAttach,
            final(self).messages_run() == old(self).messages_run().push(MSG_USB_PLUG),
            final(self).error_spec() is None ==> final(self).services().screen().texts() == (if final(self).services().mode() == UsbMode::Direct {
                direct_attached_rows()
            } else {
                usb_keyboard_rows()
            }),
    {
        self.screen = Screen::UsbAttach;
        self.os.draw_usb_attach_start();
        let ok = self.run_message(runner, MSG_USB_PLUG);
        if ok {
            if self.os.current_usb_mode() == UsbMode::Direct {
                self.os.draw_direct_attached();
            } else {
                self.os.draw_usb_keyboard_attached();
            }
        }
    }

    /// Back to a fresh system with the same applet.
    pub fn reset(&mut self)
        requires
            old(self).wf(),
        ensures
            final(self).wf(),
            final(self).applet() == old(self).applet(),
            final(self).screen_spec() == Screen::AppletsMenu,
            final(self).services().screen().texts() == applets_menu_rows(old(self).applet().metadata.name@, true),
            final(self).services().mode() == UsbMode::HidKeyboard,
            final(self).status_spec() is None,
            final(self).error_spec() is None,
            final(self).trace_spec().len() == 0,
    {
        let mut os = NeoOsShims::new();
        os.draw_applets_menu(self.app.metadata.name.as_str(), true);
        self.os = os;
        self.screen = Screen::AppletsMenu;
        self.last_status = None;
        self.last_trace = Vec::new();
        self.error = None;
    }

    /// The menu has one applet: moving the selection does nothing.
    pub fn menu_up(&mut self)
        ensures
            final(self).applet() == old(self).applet(),
            final(self).services() == old(self).services(),
            final(self).screen_spec() == old(self).screen_spec(),
    {
    }

    /// The menu has one applet: moving the selection does nothing.
    pub fn menu_down(&mut self)
        ensures
            final(self).applet() == old(self).applet(),
            final(self).services() == old(self).services(),
            final(self).screen_spec() == old(self).screen_spec(),
    {
    }

    /// Opens the selected applet when the menu is shown.
    pub fn open_selected<R: MessageRunner>(&mut self, runner: &mut R)
        requires
            old(self).wf(),
        ensures
            final(self).applet() == old(self).applet(),
            old(self).screen_spec() == Screen::AppletsMenu ==> final(self).screen_spec() == Screen::AppletRunning,
            old(self).screen_spec() != Screen::AppletsMenu ==> final(self).screen_spec() == old(self).screen_spec()
                && final(self).services() == old(self).services(),
    {
        if self.screen == Screen::AppletsMenu {
            self.open_applet(runner);
        }
    }

    /// What a front end draws.
    pub fn snapshot(&self) -> (r: EmulatorSnapshot)
        ensures
            r.screen == self.screen_spec(),
            r.lcd.texts() == self.services().screen().texts(),
            r.usb_mode == self.services().mode(),
            r.last_status == self.status_spec(),
            r.metadata is Some,
            r.last_trace@ == self.trace_spec(),
            match self.error_spec() {
                Some(e) => r.error matches Some(m) && m@ == e@,
                None => r.error is None,
            },
    {
        EmulatorSnapshot {
            metadata: Some(self.app.metadata.clone()),
            screen: self.screen,
            lcd: self.os.lcd_ref().duplicate(),
            usb_mode: self.os.current_usb_mode(),
            last_status: self.last_status,
            last_trace: clone_lines(&self.last_trace),
            error: match &self.error {
                Some(e) => Some(e.clone()),
                None => None,
            },
        }
    }
}

/// A loaded applet on the plain host.
pub struct AppletHost {
    app: Os3kApp,
    os: NeoOs,
    last_status: Option<u32>,
    last_trace: Vec<String>,
    error: Option<String>,
    runs: Ghost<Seq<u32>>,
}

/// Why a host could not be made.
#[derive(Clone, Debug, PartialEq, Eq)]
pub enum HostError {
    Os3k(Os3kAppError),
    Cpu(RunnerError),
}

impl AppletHost {
    /// The loaded applet.
    pub closed spec fn applet(&self) -> Os3kApp {
        self.app
    }

    /// The firmware services.
    pub closed spec fn services(&self) -> NeoOs {
        self.os
    }

    /// The status of the last message that ran.
    pub closed spec fn status_spec(&self) -> Option<u32> {
        self.last_status
    }

    /// The error of the last message, if it failed.
    pub closed spec fn error_spec(&self) -> Option<String> {
        self.error
    }

    /// The messages handed to the runner so far, in order.
    pub closed spec fn messages_run(&self) -> Seq<u32> {
        self.runs@
    }

    /// The trace of the last message that ran.
    pub closed spec fn trace_spec(&self) -> Seq<String> {
        self.last_trace@
    }

    /// A fresh host with `app` loaded.
    pub fn load(app: Os3kApp) -> (r: Self)
        ensures
            r.applet() == app,
            r.services().screen().wf(),
            r.services().mode() == UsbMode::HidKeyboard,
            r.status_spec() is None,
            r.error_spec() is None,
            r.trace_spec().len() == 0,
            r.messages_run().len() == 0,
    {
        AppletHost { app, os: NeoOs::new(), last_status: None, last_trace: Vec::new(), error: None, runs: Ghost(Seq::empty()) }
    }

    /// Takes what a message run came back with, as `NeoSystem::record_run`
    /// does.
    pub fn record_run(&mut self, outcome: Result<RunResult, RunnerError>) -> (ok: bool)
        ensures
            final(self).applet() == old(self).applet(),
            final(self).services() == old(self).services(),
            final(self).messages_run() == old(self).messages_run(),
            ok == outcome is Ok,
            match outcome {
                Ok(result) => {
                    &&& final(self).status_spec() == Some(result.status)
                    &&& final(self).trace_spec() == result.trace@
                    &&& final(self).error_spec() is None
                },
                Err(e) => {
                    &&& final(self).status_spec() == old(self).status_spec()
                    &&& final(self).trace_spec() == old(self).trace_spec()
                    &&& final(self).error_spec() matches Some(m) && m@ == runner_error_text(e)
                },
            },
    {
        match outcome {
            Ok(result) => {
                self.last_status = Some(result.status);
                self.last_trace = result.trace;
                self.error = None;
                true
            },
            Err(error) => {
                self.error = Some(error.message());
                false
            },
        }
    }

    fn run_message<R: SimpleMessageRunner>(&mut self, runner: &mut R, message: u32) -> (ok: bool)
        ensures
            final(self).applet() == old(self).applet(),
            final(self).messages_run() == old(self).messages_run().push(message),
            ok ==> final(self).error_spec() is None && final(self).status_spec() is Some,
            !ok ==> final(self).error_spec() is Some && final(self).status_spec() == old(self).status_spec()
                && final(self).trace_spec() == old(self).trace_spec(),
    {
        let outcome = runner.run_message(&self.app, &mut self.os, message);
        proof {
            self.runs@ = self.runs@.push(message);
        }
        self.record_run(outcome)
    }

    /// Focuses the applet: it gets the SetFocus message; a run that fails
    /// leaves the last status and trace and records its error.
    pub fn open_applet<R: SimpleMessageRunner>(&mut self, runner: &mut R)
        ensures
            final(self).applet() == old(self).applet(),
            final(self).messages_run() == old(self).messages_run().push(MSG_SET_FOCUS),
            final(self).error_spec() is None ==> final(self).status_spec() is Some,
            final(self).error_spec() is Some ==> final(self).status_spec() == old(self).status_spec()
                && final(self).trace_spec() == old(self).trace_spec(),
    {
        self.run_message(runner, MSG_SET_FOCUS);
    }

    /// Plugs USB in: the applet gets the USB plug message; a run that fails
    /// leaves the last status and trace and records its error.
    pub fn simulate_usb_attach<R: SimpleMessageRunner>(&mut self, runner: &mut R)
        ensures
            final(self).applet() == old(self).applet(),
            final(self).messages_run() == old(self).messages_run().push(MSG_USB_PLUG),
            final(self).error_spec() is None ==> final(self).status_spec() is Some,
            final(self).error_spec() is Some ==> final(self).status_spec() == old(self).status_spec()
                && final(self).trace_spec() == old(self).trace_spec(),
    {
        self.run_message(runner, MSG_USB_PLUG);
    }

    /// Back to a fresh host with the same applet.
    pub fn reset(&mut self)
        ensures
            final(self).applet() == old(self).applet(),
            final(self).services().screen().wf(),
            final(self).services().mode() == UsbMode::HidKeyboard,
            final(self).status_spec() is None,
            final(self).error_spec() is None,
            final(self).trace_spec().len() == 0,
    {
        self.os = NeoOs::new();
        self.last_status = None;
        self.last_trace = Vec::new();
        self.error = None;
    }

    /// What a front end draws.
    pub fn snapshot(&self) -> (r: EmulatorSnapshot)
        ensures
            r.lcd.texts() == self.services().screen().texts(),
            r.usb_mode == self.services().mode(),
            r.last_status == self.status_spec(),
            r.metadata is Some,
            r.screen == Screen::AppletRunning,
            r.last_trace@ == self.trace_spec(),
            match self.error_spec() {
                Some(e) => r.error matches Some(m) && m@ == e@,
                None => r.error is None,
            },
    {
        EmulatorSnapshot {
            metadata: Some(self.app.metadata.clone()),
            screen: Screen::AppletRunning,
            lcd: self.os.lcd_ref().duplicate(),
            usb_mode: self.os.current_usb_mode(),
            last_status: self.last_status,
            last_trace: clone_lines(&self.last_trace),
            error: match &self.error {
                Some(e) => Some(e.clone()),
                None => None,
            },
        }
    }
}

fn clone_lines(lines: &Vec<String>) -> (r: Vec<String>)
    ensures
        r@ == lines@,
{
    let mut out: Vec<String> = Vec::new();
    let mut i: usize = 0;
    while i < lines.len()
        invariant
            i <= lines@.len(),
            out@ == lines@.subrange(0, i as int),
        decreases lines@.len() - i,
    {
        out.push(lines[i].clone());
        i = i + 1;
        assert(out@ =~= lines@.subrange(0, i as int));
    }
    assert(lines@.subrange(0, lines@.len() as int) =~= lines@);
    out
}

/// What the runner does for a display or system trap of the applet.
#[derive(Clone, Copy, Debug, PartialEq, Eq, Structural)]
pub enum LineATrap {
    ClearScreen,
    SetTextRegion,
    ReadCursor,
    Ignore,
    AppendChar,
    AppendText,
    ReturnZero,
    ReadKey,
    KeyReady,
    Yield,
    Unsupported,
}

/// The trap action for an A-line opcode.
pub open spec fn line_a_action(opcode: u16) -> LineATrap {
    if opcode == 0xA000 {
        LineATrap::ClearScreen
    } else if opcode == 0xA004 {
        LineATrap::SetTextRegion
    } else if opcode == 0xA008 {
        LineATrap::ReadCursor
    } else if opcode == 0xA00C {
        LineATrap::Ignore
    } else if opcode == 0xA010 {
        LineATrap::AppendChar
    } else if opcode == 0xA014 {
        LineATrap::AppendText
    } else if 0xA018 <= opcode <= 0xA03C {
        if opcode % 4 == 0 { LineATrap::ReturnZero } else { LineATrap::Unsupported }
    } else if opcode == 0xA094 {
        LineATrap::ReadKey
    } else if opcode == 0xA09C {
        LineATrap::KeyReady
    } else if opcode == 0xA098 || opcode == 0xA0A4 {
        LineATrap::Ignore
    } else if opcode == 0xA25C {
        LineATrap::Yield
    } else if 0xA040 <= opcode <= 0xA308 || 0xA364 <= opcode <= 0xA3B0 {
        if opcode % 4 == 0 { LineATrap::ReturnZero } else { LineATrap::Unsupported }
    } else {
        LineATrap::Unsupported
    }
}

/// Classifies an A-line trap opcode.
pub fn classify_line_a(opcode: u16) -> (r: LineATrap)
    ensures
        r == line_a_action(opcode),
{
    if opcode == 0xA000 {
        LineATrap::ClearScreen
    } else if opcode == 0xA004 {
        LineATrap::SetTextRegion
    } else if opcode == 0xA008 {
        LineATrap::ReadCursor
    } else if opcode == 0xA00C {
        LineATrap::Ignore
    } else if opcode == 0xA010 {
        LineATrap::AppendChar
    } else if opcode == 0xA014 {
        LineATrap::AppendText
    } else if 0xA018 <= opcode && opcode <= 0xA03C {
        if opcode % 4 == 0 { LineATrap::ReturnZero } else { LineATrap::Unsupported }
    } else if opcode == 0xA094 {
        LineATrap::ReadKey
    } else if opcode == 0xA09C {
        LineATrap::KeyReady
    } else if opcode == 0xA098 || opcode == 0xA0A4 {
        LineATrap::Ignore
    } else if opcode == 0xA25C {
        LineATrap::Yield
    } else if (0xA040 <= opcode && opcode <= 0xA308) || (0xA364 <= opcode && opcode <= 0xA3B0) {
        if opcode % 4 == 0 { LineATrap::ReturnZero } else { LineATrap::Unsupported }
    } else {
        LineATrap::Unsupported
    }
}

/// What the runner does when the applet calls into the firmware.
#[derive(Clone, Copy, Debug, PartialEq, Eq, Structural)]
pub enum OsCall {
    ReturnOnly,
    MarkDirect,
    NotOsCall,
}

/// Classifies a program counter: the USB stage and delay routines return
/// at once; the direct-mode routine switches the USB mode first.
pub fn classify_os_call(pc: u32) -> (r: OsCall)
    ensures
        r == (if pc == 0x0041_f9a0 || pc == 0x0042_4780 || pc == 0x0044_044e || pc == 0x0044_047c {
            OsCall::ReturnOnly
        } else if pc == 0x0041_0b26 {
            OsCall::MarkDirect
        } else {
            OsCall::NotOsCall
        }),
{
    if pc == 0x0041_f9a0 || pc == 0x0042_4780 || pc == 0x0044_044e || pc == 0x0044_047c {
        OsCall::ReturnOnly
    } else if pc == 0x0041_0b26 {
        OsCall::MarkDirect
    } else {
        OsCall::NotOsCall
    }
}

/// The long word at `addr` of RAM, big-endian, if it lies within RAM.
pub open spec fn ram_long(ram: Seq<u8>, addr: int) -> Option<u32> {
    if 0 <= addr && addr + 4 <= ram.len() {
        Some(be_u32_at(ram, addr) as u32)
    } else {
        None
    }
}

/// The address `k` bytes after `ptr`, wrapping around the 32-bit space.
pub open spec fn wrapped(ptr: u32, k: int) -> u32 {
    if ptr + k > u32::MAX {
        (ptr + k - 0x1_0000_0000) as u32
    } else {
        (ptr + k) as u32
    }
}

/// The bytes of the C string at `ptr` from its `k`-th byte on: it stops at
/// a zero byte, at the end of RAM, or after 256 bytes.
pub open spec fn ram_c_text(ram: Seq<u8>, ptr: u32, k: nat) -> Seq<u8>
    decreases 256 - k,
{
    if k >= 256 {
        Seq::empty()
    } else {
        match ram_byte(ram, wrapped(ptr, k as int)) {
            Some(b) => if b == 0 {
                Seq::empty()
            } else {
                seq![b] + ram_c_text(ram, ptr, k + 1)
            },
            None => Seq::empty(),
        }
    }
}

/// Reads a long word as the CPU does: the word at `addr`, then the word two
/// bytes further; `None` if either is past the end of memory.  Outside the
/// register space the memory is untouched.
pub fn read_long(memory: &mut EmuMemory, addr: u32) -> (r: Option<u32>)
    requires
        old(memory).wf(),
        addr <= u32::MAX - 3,
    ensures
        final(memory).wf(),
        !is_mmio(addr) && !is_mmio((addr + 2) as u32) ==> final(memory)@ == old(memory)@ && r == ram_long(
            old(memory)@.ram,
            addr as int,
        ),
{
    let high = match memory.get_word(addr) {
        Some(w) => w,
        None => return None,
    };
    let low = match memory.get_word(addr + 2) {
        Some(w) => w,
        None => return None,
    };
    Some((high as u32) * 0x1_0000 + low as u32)
}

/// What the runner does for an A-line trap, with the arguments it reads
/// from the applet's stack.
#[derive(Clone, Debug, PartialEq, Eq)]
pub enum LineARequest {
    ClearScreen,
    SetTextRegion { row: u32, col: u32, width: u32 },
    ReadCursor { row_ptr: u32, col_ptr: u32 },
    Ignore,
    AppendChar(u8),
    AppendText(Vec<u8>),
    ReturnZero,
    ReadKey,
    KeyReady,
    Yield,
    Unsupported,
}

/// Whether the trap reads arguments from the stack.
pub open spec fn reads_stack(t: LineATrap) -> bool {
    t is SetTextRegion || t is ReadCursor || t is AppendChar || t is AppendText
}

/// Whether no address of the stack arguments of a trap at `sp` lies in
/// the register space.
pub open spec fn plain_stack(sp: u32) -> bool {
    forall|k: int| 4 <= k < 16 ==> !is_mmio(#[trigger] wrapped(sp, k))
}

/// The long word `k` bytes above the stack pointer `sp` in RAM, or
/// `default` when it cannot be read.
pub open spec fn stack_long(ram: Seq<u8>, sp: u32, k: int, default: u32) -> u32 {
    match ram_long(ram, sp + k) {
        Some(v) => v,
        None => default,
    }
}

/// Whether no byte of the C string a text trap names lies in the register
/// space.
pub open spec fn plain_text(ram: Seq<u8>, sp: u32) -> bool {
    forall|k: int| 0 <= k < 256 ==> !is_mmio(#[trigger] wrapped(stack_long(ram, sp, 4, 0), k))
}

/// Whether `r` is the request of A-line opcode `opcode` for a stack at
/// `sp`, read from RAM: a long word that cannot be read stands for 1 (text
/// region), 0 (pointers) or a space (character); a character is the low
/// byte of its long word; a text is the C string its pointer names.
pub open spec fn is_line_a_request(ram: Seq<u8>, opcode: u16, sp: u32, r: LineARequest) -> bool {
    match line_a_action(opcode) {
        LineATrap::ClearScreen => r == LineARequest::ClearScreen,
        LineATrap::SetTextRegion => r == (LineARequest::SetTextRegion {
            row: stack_long(ram, sp, 4, 1),
            col: stack_long(ram, sp, 8, 1),
            width: stack_long(ram, sp, 12, 1),
        }),
        LineATrap::ReadCursor => r == (LineARequest::ReadCursor {
            row_ptr: stack_long(ram, sp, 4, 0),
            col_ptr: stack_long(ram, sp, 8, 0),
        }),
        LineATrap::Ignore => r == LineARequest::Ignore,
        LineATrap::AppendChar => r == LineARequest::AppendChar((stack_long(ram, sp, 4, 0x20) % 0x100) as u8),
        LineATrap::AppendText => r matches LineARequest::AppendText(bytes) && bytes@ == ram_c_text(
            ram,
            stack_long(ram, sp, 4, 0),
            0,
        ),
        LineATrap::ReturnZero => r == LineARequest::ReturnZero,
        LineATrap::ReadKey => r == LineARequest::ReadKey,
        LineATrap::KeyReady => r == LineARequest::KeyReady,
        LineATrap::Yield => r == LineARequest::Yield,
        LineATrap::Unsupported => r == LineARequest::Unsupported,
    }
}

/// Whether `r` is the kind of request `t` names.
pub open spec fn request_kind(t: LineATrap, r: LineARequest) -> bool {
    match t {
        LineATrap::ClearScreen => r is ClearScreen,
        LineATrap::SetTextRegion => r is SetTextRegion,
        LineATrap::ReadCursor => r is ReadCursor,
        LineATrap::Ignore => r is Ignore,
        LineATrap::AppendChar => r is AppendChar,
        LineATrap::AppendText => r is AppendText,
        LineATrap::ReturnZero => r is ReturnZero,
        LineATrap::ReadKey => r is ReadKey,
        LineATrap::KeyReady => r is KeyReady,
        LineATrap::Yield => r is Yield,
        LineATrap::Unsupported => r is Unsupported,
    }
}

/// Reads the C string at `ptr`: up to 256 bytes, stopping before a zero
/// byte or at the end of memory.  Outside the register space the memory is
/// untouched.
fn read_c_text(memory: &mut EmuMemory, ptr: u32) -> (r: Vec<u8>)
    requires
        old(memory).wf(),
    ensures
        final(memory).wf(),
        (forall|k: int| 0 <= k < 256 ==> !is_mmio(#[trigger] wrapped(ptr, k))) ==> final(memory)@ == old(memory)@
            && r@ == ram_c_text(old(memory)@.ram, ptr, 0),
{
    let ghost m0 = memory@;
    let ghost plain = forall|k: int| 0 <= k < 256 ==> !is_mmio(#[trigger] wrapped(ptr, k));
    let mut bytes: Vec<u8> = Vec::new();
    let mut offset: u32 = 0;
    let mut done = false;
    while offset < 256 && !done
        invariant
            offset <= 256,
            memory.wf(),
            plain == (forall|k: int| 0 <= k < 256 ==> !is_mmio(#[trigger] wrapped(ptr, k))),
            plain ==> memory@ == m0,
            plain && !done ==> bytes@ + ram_c_text(m0.ram, ptr, offset as nat) == ram_c_text(m0.ram, ptr, 0),
            plain && done ==> bytes@ == ram_c_text(m0.ram, ptr, 0),
        decreases 256 - offset + (if done { 0int } else { 1int }),
    {
        let addr = ptr.wrapping_add(offset);
        assert(addr == wrapped(ptr, offset as int));
        let ghost before = bytes@;
        match memory.get_byte(addr) {
            Some(b) => {
                if b == 0 {
                    done = true;
                } else {
                    bytes.push(b);
                    offset = offset + 1;
                    proof {
                        if plain {
                            assert(before + ram_c_text(m0.ram, ptr, (offset - 1) as nat) == ram_c_text(m0.ram, ptr, 0));
                            assert(bytes@ + ram_c_text(m0.ram, ptr, offset as nat) =~= before + ram_c_text(
                                m0.ram,
                                ptr,
                                (offset - 1) as nat,
                            ));
                        }
                    }
                }
            },
            None => {
                done = true;
            },
        }
        proof {
            if plain && done {
                assert(ram_c_text(m0.ram, ptr, offset as nat) =~= Seq::<u8>::empty());
                assert(bytes@ =~= bytes@ + Seq::<u8>::empty());
            }
        }
    }
    proof {
        if plain && !done {
            assert(ram_c_text(m0.ram, ptr, offset as nat) =~= Seq::<u8>::empty());
            assert(bytes@ =~= bytes@ + Seq::<u8>::empty());
        }
    }
    bytes
}

/// The request of A-line opcode `opcode` for the applet's stack at `sp`:
/// the trap it names, with the arguments it reads from the stack.  When no
/// address read lies in the register space the memory is untouched and the
/// request is `is_line_a_request` of RAM.
pub fn line_a_request(memory: &mut EmuMemory, opcode: u16, sp: u32) -> (r: LineARequest)
    requires
        old(memory).wf(),
        reads_stack(line_a_action(opcode)) ==> sp <= u32::MAX - 16,
    ensures
        final(memory).wf(),
        request_kind(line_a_action(opcode), r),
        !reads_stack(line_a_action(opcode)) ==> final(memory)@ == old(memory)@ && is_line_a_request(
            old(memory)@.ram,
            opcode,
            sp,
            r,
        ),
        reads_stack(line_a_action(opcode)) && plain_stack(sp) && (line_a_action(opcode) is AppendText ==> plain_text(
            old(memory)@.ram,
            sp,
        )) ==> final(memory)@ == old(memory)@ && is_line_a_request(old(memory)@.ram, opcode, sp, r),
{
    let ghost m0 = memory@;
    let ghost plain = plain_stack(sp);
    proof {
        if reads_stack(line_a_action(opcode)) && plain {
            assert(!is_mmio(wrapped(sp, 4)) && !is_mmio(wrapped(sp, 6)));
            assert(!is_mmio(wrapped(sp, 8)) && !is_mmio(wrapped(sp, 10)));
            assert(!is_mmio(wrapped(sp, 12)) && !is_mmio(wrapped(sp, 14)));
        }
    }
    match classify_line_a(opcode) {
        LineATrap::ClearScreen => LineARequest::ClearScreen,
        LineATrap::SetTextRegion => {
            let row = match read_long(memory, sp + 4) { Some(v) => v, None => 1 };
            assert(plain ==> memory@ == m0);
            let col = match read_long(memory, sp + 8) { Some(v) => v, None => 1 };
            let width = match read_long(memory, sp + 12) { Some(v) => v, None => 1 };
            LineARequest::SetTextRegion { row, col, width }
        },
        LineATrap::ReadCursor => {
            let row_ptr = match read_long(memory, sp + 4) { Some(v) => v, None => 0 };
            let col_ptr = match read_long(memory, sp + 8) { Some(v) => v, None => 0 };
            LineARequest::ReadCursor { row_ptr, col_ptr }
        },
        LineATrap::Ignore => LineARequest::Ignore,
        LineATrap::AppendChar => {
            let raw = match read_long(memory, sp + 4) { Some(v) => v, None => 0x20 };
            LineARequest::AppendChar((raw % 0x100) as u8)
        },
        LineATrap::AppendText => {
            let ptr = match read_long(memory, sp + 4) { Some(v) => v, None => 0 };
            assert(plain ==> memory@ == m0);
            assert(plain ==> ptr == stack_long(m0.ram, sp, 4, 0));
            let bytes = read_c_text(memory, ptr);
            LineARequest::AppendText(bytes)
        },
        LineATrap::ReturnZero => LineARequest::ReturnZero,
        LineATrap::ReadKey => LineARequest::ReadKey,
        LineATrap::KeyReady => LineARequest::KeyReady,
        LineATrap::Yield => LineARequest::Yield,
        LineATrap::Unsupported => LineARequest::Unsupported,
    }
}

/// The long words the runner puts on the stack before a message: the
/// return sentinel, the message, a zero parameter and the status address,
/// from the stack start upwards.
pub fn entry_stack(message: u32) -> (r: [(u32, u32); 4])
    ensures
        r@ == seq![
            (0x0070_0000u32, 0x007f_fff0u32),
            (0x0070_0004u32, message),
            (0x0070_0008u32, 0u32),
            (0x0070_000cu32, 0x0002_0000u32),
        ],
{
    let r = [(0x0070_0000u32, 0x007f_fff0u32), (0x0070_0004u32, message), (0x0070_0008u32, 0u32), (0x0070_000cu32, 0x0002_0000u32)];
    assert(r@ =~= seq![
        (0x0070_0000u32, 0x007f_fff0u32),
        (0x0070_0004u32, message),
        (0x0070_0008u32, 0u32),
        (0x0070_000cu32, 0x0002_0000u32),
    ]);
    r
}

/// Where a `bra.l` at `pc` with a 32-bit displacement goes: the
/// displacement counts from `pc + 2`, wrapping.
pub fn long_branch_target(pc: u32, displacement: u32) -> (r: u32)
    requires
        pc <= u32::MAX - 2,
    ensures
        r as int == (pc + 2 + displacement) % 0x1_0000_0000,
{
    let base = pc + 2;
    let sum: u64 = base as u64 + displacement as u64;
    (sum % 0x1_0000_0000) as u32
}

/// Appends a trace line; past eighty lines the oldest is dropped.
pub fn push_trace(trace: &mut Vec<String>, line: String)
    ensures
        final(trace)@ == (if old(trace)@.len() + 1 > 80 {
            old(trace)@.push(line).drop_first()
        } else {
            old(trace)@.push(line)
        }),
{
    let ghost full = old(trace)@.push(line);
    trace.push(line);
    if trace.len() > 80 {
        trace.remove(0);
        assert(trace@ =~= full.drop_first());
    }
}

} // verus!
