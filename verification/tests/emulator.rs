use neo_re::domain::{truncate_text, Lcd, UsbMode};
use neo_re::firmware::{FirmwareError, FirmwareRuntime, FirmwareSegment};
use neo_re::host::{
    classify_line_a, classify_os_call, entry_stack, long_branch_target, push_trace, LineATrap, MessageRunner,
    NeoSystem, Os3kApp, Os3kAppError, OsCall, RunResult, RunnerError,
};
use neo_re::os_shims::{NeoOs, NeoOsShims};
use neo_re::recovery_seed::{RecoverySeed, RecoverySeedError};
use neo_re::domain::Screen;

fn package(name: &str) -> Vec<u8> {
    let mut image = vec![0_u8; 0x100];
    image[0..4].copy_from_slice(&0xC0FF_EEAD_u32.to_be_bytes());
    image[4..8].copy_from_slice(&0x100_u32.to_be_bytes());
    image[0x14..0x16].copy_from_slice(&0xA130_u16.to_be_bytes());
    image[0x18..0x18 + name.len()].copy_from_slice(name.as_bytes());
    image[0x3C] = 1;
    image[0x3D] = 0x20;
    image[0x84..0x88].copy_from_slice(&0x94_u32.to_be_bytes());
    image
}

struct PlugRunner {
    direct: bool,
}

impl MessageRunner for PlugRunner {
    fn run_message(&mut self, _app: &Os3kApp, os: &mut NeoOsShims, message: u32) -> Result<RunResult, RunnerError> {
        if message == 0x19 {
            os.clear_screen();
            os.set_text_region(2, 1, 40);
            os.append_text("Now connect the NEO");
            return Ok(RunResult { status: 0, trace: Vec::new(), yielded: true });
        }
        if self.direct {
            os.switch_to_direct();
            Ok(RunResult { status: 0x11, trace: vec!["rts".to_owned()], yielded: false })
        } else {
            Err(RunnerError::StepLimit)
        }
    }
}

#[test]
fn parses_a_package_header() {
    let app = Os3kApp::parse(package("Alpha USB")).unwrap();
    assert_eq!(app.metadata.applet_id, 0xA130);
    assert_eq!(app.metadata.name, "Alpha USB");
    assert_eq!(app.entry_offset, 0x94);
    assert!(app.image.len() > app.entry_offset as usize);
}

#[test]
fn refuses_bad_packages() {
    assert!(matches!(Os3kApp::parse(vec![0; 0x93]), Err(Os3kAppError::TooShort)));
    let mut bad = package("x");
    bad[0] = 0;
    assert!(matches!(Os3kApp::parse(bad), Err(Os3kAppError::BadMagic)));
    let mut short = package("x");
    short.push(0);
    assert!(matches!(Os3kApp::parse(short), Err(Os3kAppError::SizeMismatch { declared: 0x100, actual: 0x101 })));
    let mut entry = package("x");
    entry[0x84..0x88].copy_from_slice(&0x100_u32.to_be_bytes());
    assert!(matches!(Os3kApp::parse(entry), Err(Os3kAppError::BadEntry(0x100))));
}

#[test]
fn starts_in_applets_menu() {
    let app = Os3kApp::parse(package("Alpha USB")).unwrap();
    let system = NeoSystem::load(app);
    let snapshot = system.snapshot();
    assert_eq!(snapshot.screen, Screen::AppletsMenu);
    assert_eq!(snapshot.lcd.rows()[0], "SmartApplets");
    assert_eq!(snapshot.lcd.rows()[2], "> Alpha USB");
}

#[test]
fn usb_attach_shows_direct_connection() {
    let app = Os3kApp::parse(package("Alpha USB")).unwrap();
    let mut system = NeoSystem::load(app);
    system.simulate_usb_attach(&mut PlugRunner { direct: true });
    let snapshot = system.snapshot();
    assert_eq!(snapshot.error, None);
    assert_eq!(snapshot.usb_mode, UsbMode::Direct);
    assert_eq!(snapshot.lcd.rows()[1], "Connected to");
    assert_eq!(snapshot.lcd.rows()[2], "NEO Manager.");
    assert_eq!(snapshot.last_status, Some(0x11));
}

#[test]
fn failed_attach_keeps_the_connecting_screen_and_reports() {
    let app = Os3kApp::parse(package("Alpha USB")).unwrap();
    let mut system = NeoSystem::load(app);
    system.simulate_usb_attach(&mut PlugRunner { direct: false });
    let snapshot = system.snapshot();
    assert_eq!(snapshot.error.as_deref(), Some("message did not finish after 20000 m68k steps"));
    assert_eq!(snapshot.lcd.rows()[1], "Making USB");
    system.reset();
    assert_eq!(system.snapshot().error, None);
    assert_eq!(system.snapshot().screen, Screen::AppletsMenu);
}

#[test]
fn focus_runs_the_applet() {
    let app = Os3kApp::parse(package("Alpha USB")).unwrap();
    let mut system = NeoSystem::load(app);
    system.open_selected(&mut PlugRunner { direct: true });
    let snapshot = system.snapshot();
    assert_eq!(snapshot.screen, Screen::AppletRunning);
    assert_eq!(snapshot.lcd.rows()[1], "Now connect the NEO");
}

#[test]
fn lcd_rows_are_cut_to_forty_bytes() {
    let mut lcd = Lcd::new();
    lcd.set_row(0, &"x".repeat(50));
    assert_eq!(lcd.rows()[0].len(), 40);
    lcd.set_row(9, "ignored");
    assert_eq!(truncate_text("ééé", 4), "éé");
    lcd.put_char(1, 3, 'A');
    assert_eq!(lcd.rows()[1], "   A");
    lcd.clear_span(1, 3, 1);
    assert_eq!(lcd.rows()[1], "    ");
    assert_eq!(UsbMode::Direct.label(), "Direct USB");
}

#[test]
fn simple_host_screens() {
    let mut os = NeoOs::default();
    assert_eq!(os.lcd.rows()[2], "No applet loaded.");
    os.set_row_text(2, "hello".to_owned());
    os.append_char(b'!');
    assert_eq!(os.lcd.rows()[1], "hello!");
    os.draw_usb_keyboard_attached();
    assert_eq!(os.lcd.rows()[1], "Connected to computer,");
}

#[test]
fn shim_traps_write_at_the_cursor_and_queue_keys() {
    let mut os = NeoOsShims::default();
    os.clear_screen();
    os.set_text_region(1, 3, 10);
    os.append_char(b'\t');
    os.append_char(b'Z');
    assert_eq!(os.lcd.rows()[0], "   Z");
    assert!(!os.is_key_ready());
    os.push_key(7);
    os.push_key(9);
    assert!(os.is_key_ready());
    assert_eq!(os.read_key(), 7);
    assert_eq!(os.read_key(), 9);
    assert_eq!(os.read_key(), 0);
}

#[test]
fn runner_decisions() {
    assert_eq!(classify_line_a(0xA000), LineATrap::ClearScreen);
    assert_eq!(classify_line_a(0xA25C), LineATrap::Yield);
    assert_eq!(classify_line_a(0xA020), LineATrap::ReturnZero);
    assert_eq!(classify_line_a(0xA021), LineATrap::Unsupported);
    assert_eq!(classify_line_a(0xA098), LineATrap::Ignore);
    assert_eq!(classify_line_a(0xA400), LineATrap::Unsupported);
    assert_eq!(classify_os_call(0x0041_0b26), OsCall::MarkDirect);
    assert_eq!(classify_os_call(0x0042_4780), OsCall::ReturnOnly);
    assert_eq!(classify_os_call(0x0040_0000), OsCall::NotOsCall);
    assert_eq!(entry_stack(0x19)[1], (0x0070_0004, 0x19));
    assert_eq!(long_branch_target(0x1000, 0xFFFF_FFF0), 0x0FF2);
    let mut trace = Vec::new();
    for n in 0..85 {
        push_trace(&mut trace, format!("{n}"));
    }
    assert_eq!(trace.len(), 80);
    assert_eq!(trace[0], "5");
}

fn system_image() -> Vec<u8> {
    let mut image = vec![0_u8; 0x70 + 0x30];
    image[0..4].copy_from_slice(&0x0007_fff0_u32.to_be_bytes());
    image[4..8].copy_from_slice(&0x0040_042a_u32.to_be_bytes());
    image[6..24].copy_from_slice(b"System 3 Neo      ");
    image[0x50..0x54].copy_from_slice(&0x0041_0000_u32.to_be_bytes());
    image[0x54..0x58].copy_from_slice(&0x20_u32.to_be_bytes());
    image[0x58..0x5C].copy_from_slice(&0x005F_0000_u32.to_be_bytes());
    image[0x5C..0x60].copy_from_slice(&0x10_u32.to_be_bytes());
    image
}

#[test]
fn firmware_vectors_and_segments() {
    let rom = FirmwareRuntime::from_image(vec![0, 7, 0xff, 0xf0, 0, 0x40, 0x04, 0x2a, 1, 2]);
    assert_eq!(rom.reset_vectors().unwrap(), (0x0007_fff0, 0x0040_042a));
    assert_eq!(rom.boot_vectors().unwrap(), (0x0007_fff0, 0x0040_042a));
    assert!(!rom.is_neo_system_image());
    assert!(rom.neo_system_segments().unwrap().is_empty());
    assert_eq!(FirmwareRuntime::from_image(vec![0; 4]).reset_vectors(), Err(FirmwareError::MissingResetVectors));

    let system = FirmwareRuntime::from_image(system_image());
    assert!(system.is_neo_system_image());
    assert_eq!(system.boot_vectors().unwrap(), (0x0007_fff0, 0x0041_0082));
    assert_eq!(
        system.neo_system_segments().unwrap(),
        vec![
            FirmwareSegment { address: 0x0041_0000, file_offset: 0x70, length: 0x20 },
            FirmwareSegment { address: 0x005F_0000, file_offset: 0x90, length: 0x10 },
        ]
    );
    let mut broken = system_image();
    broken[0x5C..0x60].copy_from_slice(&0x11_u32.to_be_bytes());
    assert_eq!(FirmwareRuntime::from_image(broken).neo_system_segments(), Err(FirmwareError::InvalidSegmentTable));
}

#[test]
fn recovery_seed_round_trips() {
    let memory: Vec<u8> = (0..0x2000u32).map(|i| (i % 251) as u8).collect();
    let seed = RecoverySeed::from_memory(&memory);
    let bytes = seed.encode();
    assert_eq!(&bytes[..12], b"NEOSEED1\0\0\0\0");
    assert_eq!(bytes.len(), 16 + 8 + 0x400 + 8 + 0xD00);
    assert_eq!(RecoverySeed::decode(&bytes).unwrap(), seed);
    let mut truncated = bytes.clone();
    truncated.pop();
    assert_eq!(RecoverySeed::decode(&truncated), Err(RecoverySeedError::InvalidSeed));
    let mut longer = bytes;
    longer.push(0);
    assert_eq!(RecoverySeed::decode(&longer), Err(RecoverySeedError::InvalidSeed));
    assert_eq!(RecoverySeed::decode(b"NEOSEED2\0\0\0\0\0\0\0\0"), Err(RecoverySeedError::InvalidSeed));
}

#[test]
fn recorded_runs_keep_status_or_error() {
    let app = Os3kApp::parse(package("Alpha USB")).unwrap();
    let mut system = NeoSystem::load(app);
    assert!(system.record_run(Ok(RunResult { status: 0x11, trace: vec!["rts".to_owned()], yielded: false })));
    assert!(!system.record_run(Err(RunnerError::StackAccess(0x0070_0000))));
    let snapshot = system.snapshot();
    assert_eq!(snapshot.last_status, Some(0x11));
    assert_eq!(snapshot.last_trace, vec!["rts".to_owned()]);
    assert_eq!(snapshot.error.as_deref(), Some("failed stack operation at 0x00700000"));
    assert_eq!(
        RunnerError::UnsupportedException { vector: 4, dis_pc: 0x10, cpu_pc: 0x12, opcodes: "4afc".to_owned() }.message(),
        "unsupported exception vector 4 at dis_pc=0x00000010 cpu_pc=0x00000012 opcodes=4afc"
    );
}

#[test]
fn append_text_writes_each_byte_from_the_cursor() {
    let mut os = NeoOsShims::new();
    os.clear_screen();
    os.set_text_region(2, 3, 10);
    os.append_text("Hi\u{1}!");
    os.append_text("?");
    assert_eq!(os.lcd_ref().rows()[1], "  Hi !?");
    assert_eq!(os.lcd_ref().rows()[0], "");
}
