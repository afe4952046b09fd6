//! How the NEO presents itself on USB, and the decisions the USB back ends
//! take from what the bus shows: which mode a device list means, which
//! endpoints carry the direct protocol, and how long to wait for a mode.

use vstd::prelude::*;

verus! {

/// The AlphaSmart USB vendor id.
pub const VID: u16 = 0x081E;
/// The product id of a NEO in direct mode.
pub const PID_DIRECT: u16 = 0xBD01;
/// The product id of a NEO in keyboard mode.
pub const PID_HID: u16 = 0xBD04;

/// How the NEO presents itself.
#[derive(Clone, Copy, Debug, PartialEq, Eq, Structural)]
pub enum NeoMode {
    Missing,
    Hid,
    HidUnavailable,
    Direct,
}

/// How the NEO presents itself to Android's USB manager.
#[derive(Clone, Copy, Debug, PartialEq, Eq, Structural)]
pub enum UsbMode {
    Missing,
    Hid,
    HidUnavailable,
    Direct,
}

/// The mode a list of (vendor, product) ids shows: direct if a NEO is in
/// direct mode, else keyboard if one is in keyboard mode, else missing.
pub open spec fn mode_of_devices(ids: Seq<(u16, u16)>) -> NeoMode {
    if exists|i: int| 0 <= i < ids.len() && #[trigger] ids[i] == (VID, PID_DIRECT) {
        NeoMode::Direct
    } else if exists|i: int| 0 <= i < ids.len() && #[trigger] ids[i] == (VID, PID_HID) {
        NeoMode::Hid
    } else {
        NeoMode::Missing
    }
}

/// The mode the devices on the bus show.
pub fn mode_from_devices(ids: &[(u16, u16)]) -> (r: NeoMode)
    ensures
        r == mode_of_devices(ids@),
{
    let mut saw_hid = false;
    let mut i: usize = 0;
    while i < ids.len()
        invariant
            i <= ids@.len(),
            forall|k: int| 0 <= k < i ==> ids@[k] != (VID, PID_DIRECT),
            saw_hid <==> exists|k: int| 0 <= k < i && #[trigger] ids@[k] == (VID, PID_HID),
        decreases ids@.len() - i,
    {
        let (vendor, product) = ids[i];
        if vendor == VID && product == PID_DIRECT {
            return NeoMode::Direct;
        }
        if vendor == VID && product == PID_HID {
            saw_hid = true;
        }
        i = i + 1;
    }
    if saw_hid {
        NeoMode::Hid
    } else {
        NeoMode::Missing
    }
}

/// The mode Android shows: direct or keyboard by product id, else a
/// keyboard the USB manager cannot open, else missing.
pub open spec fn android_mode_of(products: Seq<u16>, keyboard_present: bool) -> UsbMode {
    if exists|i: int| 0 <= i < products.len() && #[trigger] products[i] == PID_DIRECT {
        UsbMode::Direct
    } else if exists|i: int| 0 <= i < products.len() && #[trigger] products[i] == PID_HID {
        UsbMode::Hid
    } else if keyboard_present {
        UsbMode::HidUnavailable
    } else {
        UsbMode::Missing
    }
}

/// The mode Android shows for the AlphaSmart devices it lists and whether
/// an AlphaSmart keyboard is attached as an input device.
pub fn android_mode(products: &[u16], keyboard_present: bool) -> (r: UsbMode)
    ensures
        r == android_mode_of(products@, keyboard_present),
{
    let mut i: usize = 0;
    while i < products.len()
        invariant
            i <= products@.len(),
            forall|k: int| 0 <= k < i ==> products@[k] != PID_DIRECT,
        decreases products@.len() - i,
    {
        if products[i] == PID_DIRECT {
            return UsbMode::Direct;
        }
        i = i + 1;
    }
    let mut j: usize = 0;
    while j < products.len()
        invariant
            j <= products@.len(),
            forall|k: int| 0 <= k < products@.len() ==> products@[k] != PID_DIRECT,
            forall|k: int| 0 <= k < j ==> products@[k] != PID_HID,
        decreases products@.len() - j,
    {
        if products[j] == PID_HID {
            return UsbMode::Hid;
        }
        j = j + 1;
    }
    if keyboard_present {
        UsbMode::HidUnavailable
    } else {
        UsbMode::Missing
    }
}

/// The NEO mode of an Android USB mode.
pub fn neo_mode_of(mode: UsbMode) -> (r: NeoMode)
    ensures
        r == match mode {
            UsbMode::Missing => NeoMode::Missing,
            UsbMode::Hid => NeoMode::Hid,
            UsbMode::HidUnavailable => NeoMode::HidUnavailable,
            UsbMode::Direct => NeoMode::Direct,
        },
{
    match mode {
        UsbMode::Missing => NeoMode::Missing,
        UsbMode::Hid => NeoMode::Hid,
        UsbMode::HidUnavailable => NeoMode::HidUnavailable,
        UsbMode::Direct => NeoMode::Direct,
    }
}

/// The HID output reports that switch a NEO from keyboard to direct mode,
/// in order.
pub fn hid_switch_reports() -> (r: [u8; 5])
    ensures
        r@ == seq![0xE0u8, 0xE1, 0xE2, 0xE3, 0xE4],
{
    let r: [u8; 5] = [0xE0, 0xE1, 0xE2, 0xE3, 0xE4];
    assert(r@ =~= seq![0xE0u8, 0xE1, 0xE2, 0xE3, 0xE4]);
    r
}

/// What to do after checking the mode while waiting for one: stop when
/// it is found; otherwise wait the delay, then check again or, after the
/// last check, stop.
#[derive(Clone, Copy, Debug, PartialEq, Eq, Structural)]
pub enum WaitStep {
    Found,
    SleepAndRetry,
    SleepAndGiveUp,
}

/// The step after the `attempt`-th check (counted from zero) of
/// `attempts` saw `observed` while waiting for `target`.
pub fn wait_step(target: NeoMode, observed: NeoMode, attempt: usize, attempts: usize) -> (r: WaitStep)
    ensures
        observed == target ==> r == WaitStep::Found,
        observed != target && attempt + 1 < attempts ==> r == WaitStep::SleepAndRetry,
        observed != target && attempt + 1 >= attempts ==> r == WaitStep::SleepAndGiveUp,
{
    if observed == target {
        WaitStep::Found
    } else if attempt < attempts && attempts - attempt > 1 {
        WaitStep::SleepAndRetry
    } else {
        WaitStep::SleepAndGiveUp
    }
}

/// An endpoint of a USB interface setting.
#[derive(Clone, Copy, Debug, PartialEq, Eq, Structural)]
pub struct EndpointInfo {
    pub bulk: bool,
    pub input: bool,
    pub address: u8,
}

/// An interface setting: its interface number and endpoints.
#[derive(Clone, Debug, PartialEq, Eq)]
pub struct InterfaceSetting {
    pub interface_number: u8,
    pub endpoints: Vec<EndpointInfo>,
}

/// The address of the last bulk endpoint of a direction.
pub open spec fn last_bulk(eps: Seq<EndpointInfo>, input: bool) -> Option<u8>
    decreases eps.len(),
{
    if eps.len() == 0 {
        None
    } else if eps.last().bulk && eps.last().input == input {
        Some(eps.last().address)
    } else {
        last_bulk(eps.drop_last(), input)
    }
}

/// Why no endpoints were found.
#[derive(Clone, Copy, Debug, PartialEq, Eq, Structural)]
pub enum EndpointError {
    NoBulkPair,
}

fn last_bulk_exec(eps: &Vec<EndpointInfo>, input: bool) -> (r: Option<u8>)
    ensures
        r == last_bulk(eps@, input),
{
    let mut found: Option<u8> = None;
    let mut i: usize = 0;
    while i < eps.len()
        invariant
            i <= eps@.len(),
            found == last_bulk(eps@.subrange(0, i as int), input),
        decreases eps@.len() - i,
    {
        assert(eps@.subrange(0, i + 1).drop_last() =~= eps@.subrange(0, i as int));
        if eps[i].bulk && eps[i].input == input {
            found = Some(eps[i].address);
        }
        i = i + 1;
    }
    assert(eps@.subrange(0, eps@.len() as int) =~= eps@);
    found
}

/// The first interface setting with a bulk IN and a bulk OUT endpoint:
/// its number and the last such endpoint of each direction.
pub fn select_bulk_endpoints(settings: &Vec<InterfaceSetting>) -> (r: Result<(u8, u8, u8), EndpointError>)
    ensures
        match r {
            Ok((number, input, output)) => exists|i: int| 0 <= i < settings@.len()
                && (#[trigger] settings@[i]).interface_number == number
                && last_bulk(settings@[i].endpoints@, true) == Some(input)
                && last_bulk(settings@[i].endpoints@, false) == Some(output)
                && forall|j: int| 0 <= j < i ==> (last_bulk((#[trigger] settings@[j]).endpoints@, true) is None
                    || last_bulk(settings@[j].endpoints@, false) is None),
            Err(_) => forall|j: int| 0 <= j < settings@.len() ==> (last_bulk((#[trigger] settings@[j]).endpoints@, true) is None
                || last_bulk(settings@[j].endpoints@, false) is None),
        },
{
    let mut i: usize = 0;
    while i < settings.len()
        invariant
            i <= settings@.len(),
            forall|j: int| 0 <= j < i ==> (last_bulk((#[trigger] settings@[j]).endpoints@, true) is None
                || last_bulk(settings@[j].endpoints@, false) is None),
        decreases settings@.len() - i,
    {
        let input = last_bulk_exec(&settings[i].endpoints, true);
        let output = last_bulk_exec(&settings[i].endpoints, false);
        match (input, output) {
            (Some(a), Some(b)) => {
                return Ok((settings[i].interface_number, a, b));
            },
            _ => {},
        }
        i = i + 1;
    }
    Err(EndpointError::NoBulkPair)
}

/// Why a USB operation failed.
#[derive(Clone, Debug, PartialEq, Eq)]
pub struct UsbError {
    pub message: String,
}

/// The USB back end of a platform without one: no device is ever seen.
pub fn detect_mode() -> (r: Result<NeoMode, UsbError>)
    ensures
        r == Ok::<NeoMode, UsbError>(NeoMode::Missing),
{
    Ok(NeoMode::Missing)
}

/// The USB back end of a platform without one: switching is refused.
pub fn switch_hid_to_direct() -> (r: Result<(), UsbError>)
    ensures
        r matches Err(e) && e.message@ == "USB access is not implemented for this target yet"@,
{
    Err(UsbError { message: String::from_str("USB access is not implemented for this target yet") })
}

/// The USB back end of a platform without one: the mode never comes.
pub fn wait_for_mode(target: NeoMode, attempts: usize, delay_ms: u64) -> (r: Result<bool, UsbError>)
    ensures
        r == Ok::<bool, UsbError>(false),
{
    Ok(false)
}

} // verus!
