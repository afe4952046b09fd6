//! What the desktop and Android GUI exchanges with its web front end: the
//! data shapes it sends, how device data maps onto them, where backups go,
//! and which applet images a flash needs.

use vstd::prelude::*;
use crate::catalog::{BundledApplet, BundledAppletKind, BundledCatalog, BundledSource, restore_indices, restore_order};
use crate::checklist::{AppletChecklist, AppletChecklistRow, AppletSourceKind};
use crate::manager::{sanitize_name, sanitized};
use crate::protocol::{FileEntry, SmartAppletRecord};
use crate::text::{has_infix, has_prefix, contains_text, starts_with_text, trim_char, trim_char_text, hex_digits, push_hex};

verus! {

/// A file on the device.
#[derive(Clone, Debug, PartialEq, Eq)]
pub struct FileDto {
    pub slot: u8,
    pub name: String,
    pub attribute_bytes: u32,
}

/// An installed SmartApplet.
#[derive(Clone, Debug, PartialEq, Eq)]
pub struct SmartAppletDto {
    pub applet_id: u16,
    pub version: String,
    pub name: String,
    pub file_size: u32,
    pub applet_class: u8,
}

/// A bundled SmartApplet.
#[derive(Clone, Debug, PartialEq, Eq)]
pub struct BundledAppletDto {
    pub id: String,
    pub applet_id: Option<u16>,
    pub name: String,
    pub version: Option<String>,
    pub size: Option<u64>,
    pub kind: String,
}

/// A checklist row.
#[derive(Clone, Debug, PartialEq, Eq)]
pub struct AppletChecklistRowDto {
    pub key: String,
    pub display_name: String,
    pub version: Option<String>,
    pub size: Option<u64>,
    pub installed: bool,
    pub checked: bool,
    pub source_kind: String,
}

/// Everything on the device and in the bundle.
#[derive(Clone, Debug, PartialEq, Eq)]
pub struct InventoryDto {
    pub files: Vec<FileDto>,
    pub installed_applets: Vec<SmartAppletDto>,
    pub bundled_applets: Vec<BundledAppletDto>,
    pub applet_rows: Vec<AppletChecklistRowDto>,
}

/// The USB mode of the device.
#[derive(Clone, Copy, Debug, PartialEq, Eq, Structural)]
pub enum DeviceModeDto {
    Missing,
    Hid,
    HidUnavailable,
    Direct,
}

/// The outcome of a backup.
#[derive(Clone, Debug, PartialEq, Eq)]
pub struct BackupResultDto {
    pub directory: String,
    pub saved_files: usize,
    pub saved_applets: usize,
    pub bytes: usize,
}

/// Where a backup goes, if the user chose.
#[derive(Clone, Debug, PartialEq, Eq)]
pub struct BackupTargetDto {
    pub backup_root: Option<String>,
}

/// The applets the user ticked and the files the user added.
#[derive(Clone, Debug, PartialEq, Eq)]
pub struct AppletSelectionDto {
    pub checked_keys: Vec<String>,
    pub added_files: Vec<AddedAppletSelectionDto>,
}

/// An applet file the user added.
#[derive(Clone, Debug, PartialEq, Eq)]
pub struct AddedAppletSelectionDto {
    pub key: String,
    pub path: String,
    pub display_name: String,
}

/// A progress update for the front end.
#[derive(Clone, Debug, PartialEq, Eq)]
pub struct ProgressEventDto {
    pub operation_id: String,
    pub title: String,
    pub phase: String,
    pub item: Option<String>,
    pub completed: Option<usize>,
    pub total: Option<usize>,
    pub indeterminate: bool,
    pub log: Option<String>,
}

/// A file entry for the front end.
pub fn file_dto(entry: FileEntry) -> (r: FileDto)
    ensures
        r.slot == entry.slot,
        r.name == entry.name,
        r.attribute_bytes == entry.attribute_bytes,
{
    FileDto { slot: entry.slot, name: entry.name, attribute_bytes: entry.attribute_bytes }
}

/// An installed applet for the front end.
pub fn smart_applet_dto(record: SmartAppletRecord) -> (r: SmartAppletDto)
    ensures
        r.applet_id == record.applet_id,
        r.version == record.version,
        r.name == record.name,
        r.file_size == record.file_size,
        r.applet_class == record.applet_class,
{
    SmartAppletDto {
        applet_id: record.applet_id,
        version: record.version,
        name: record.name,
        file_size: record.file_size,
        applet_class: record.applet_class,
    }
}

/// The front end's name for an applet kind.
pub open spec fn kind_name(k: BundledAppletKind) -> Seq<char> {
    match k {
        BundledAppletKind::Stock => "stock"@,
        BundledAppletKind::AlphaUsb => "alphaUsb"@,
    }
}

/// A bundled applet for the front end.
pub fn bundled_applet_dto(applet: &BundledApplet) -> (r: BundledAppletDto)
    ensures
        r.id == applet.id,
        r.applet_id == applet.applet_id,
        r.name == applet.name,
        r.version == applet.version,
        r.size == applet.size,
        r.kind@ == kind_name(applet.kind),
{
    BundledAppletDto {
        id: applet.id.clone(),
        applet_id: applet.applet_id,
        name: applet.name.clone(),
        version: match &applet.version {
            Some(v) => Some(v.clone()),
            None => None,
        },
        size: applet.size,
        kind: match applet.kind {
            BundledAppletKind::Stock => String::from_str("stock"),
            BundledAppletKind::AlphaUsb => String::from_str("alphaUsb"),
        },
    }
}

/// The front end's name for a row source.
pub open spec fn source_name(s: AppletSourceKind) -> Seq<char> {
    match s {
        AppletSourceKind::InstalledOnly { .. } => "installedOnly"@,
        AppletSourceKind::Bundled { .. } => "bundled"@,
        AppletSourceKind::AddedFromFile { .. } => "addedFromFile"@,
    }
}

/// A checklist row for the front end.
pub fn checklist_row_dto(row: AppletChecklistRow) -> (r: AppletChecklistRowDto)
    ensures
        r.key == row.key,
        r.display_name == row.display_name,
        r.version == row.version,
        r.size == row.size,
        r.installed == row.installed,
        r.checked == row.checked,
        r.source_kind@ == source_name(row.source),
{
    let source_kind = match &row.source {
        AppletSourceKind::InstalledOnly { .. } => String::from_str("installedOnly"),
        AppletSourceKind::Bundled { .. } => String::from_str("bundled"),
        AppletSourceKind::AddedFromFile { .. } => String::from_str("addedFromFile"),
    };
    AppletChecklistRowDto {
        key: row.key,
        display_name: row.display_name,
        version: row.version,
        size: row.size,
        installed: row.installed,
        checked: row.checked,
        source_kind,
    }
}

/// The device mode for the front end.
pub fn device_mode_dto(mode: crate::usb_mode::NeoMode) -> (r: DeviceModeDto)
    ensures
        r == match mode {
            crate::usb_mode::NeoMode::Missing => DeviceModeDto::Missing,
            crate::usb_mode::NeoMode::Hid => DeviceModeDto::Hid,
            crate::usb_mode::NeoMode::HidUnavailable => DeviceModeDto::HidUnavailable,
            crate::usb_mode::NeoMode::Direct => DeviceModeDto::Direct,
        },
{
    match mode {
        crate::usb_mode::NeoMode::Missing => DeviceModeDto::Missing,
        crate::usb_mode::NeoMode::Hid => DeviceModeDto::Hid,
        crate::usb_mode::NeoMode::HidUnavailable => DeviceModeDto::HidUnavailable,
        crate::usb_mode::NeoMode::Direct => DeviceModeDto::Direct,
    }
}

/// The inventory: the device's files and applets, the bundle, and the
/// checklist made from them.
pub fn inventory_dto(files: Vec<FileEntry>, installed: Vec<SmartAppletRecord>) -> (r: InventoryDto)
    ensures
        r.files@.len() == files@.len(),
        forall|i: int| 0 <= i < files@.len() ==> (#[trigger] r.files@[i]).slot == files@[i].slot
            && r.files@[i].name == files@[i].name && r.files@[i].attribute_bytes == files@[i].attribute_bytes,
        r.installed_applets@.len() == installed@.len(),
        forall|i: int| 0 <= i < installed@.len() ==> (#[trigger] r.installed_applets@[i]).applet_id == installed@[i].applet_id
            && r.installed_applets@[i].name == installed@[i].name,
        r.bundled_applets@.len() == 15,
{
    let catalog = BundledCatalog::dev_defaults();
    let checklist = AppletChecklist::from_installed_and_bundled(installed.as_slice(), catalog.applets.as_slice());
    let mut file_dtos: Vec<FileDto> = Vec::new();
    let mut i: usize = 0;
    while i < files.len()
        invariant
            i <= files@.len(),
            file_dtos@.len() == i,
            forall|k: int| 0 <= k < i ==> (#[trigger] file_dtos@[k]).slot == files@[k].slot
                && file_dtos@[k].name == files@[k].name && file_dtos@[k].attribute_bytes == files@[k].attribute_bytes,
        decreases files@.len() - i,
    {
        let e = &files[i];
        file_dtos.push(FileDto { slot: e.slot, name: e.name.clone(), attribute_bytes: e.attribute_bytes });
        i = i + 1;
    }
    let mut applet_dtos: Vec<SmartAppletDto> = Vec::new();
    let mut j: usize = 0;
    while j < installed.len()
        invariant
            j <= installed@.len(),
            applet_dtos@.len() == j,
            forall|k: int| 0 <= k < j ==> (#[trigger] applet_dtos@[k]).applet_id == installed@[k].applet_id
                && applet_dtos@[k].name == installed@[k].name,
        decreases installed@.len() - j,
    {
        let rec = &installed[j];
        applet_dtos.push(SmartAppletDto {
            applet_id: rec.applet_id,
            version: rec.version.clone(),
            name: rec.name.clone(),
            file_size: rec.file_size,
            applet_class: rec.applet_class,
        });
        j = j + 1;
    }
    let mut bundled_dtos: Vec<BundledAppletDto> = Vec::new();
    let mut k: usize = 0;
    while k < catalog.applets.len()
        invariant
            k <= catalog.applets@.len(),
            catalog.applets@.len() == 15,
            bundled_dtos@.len() == k,
        decreases catalog.applets@.len() - k,
    {
        bundled_dtos.push(bundled_applet_dto(&catalog.applets[k]));
        k = k + 1;
    }
    let mut rows = checklist.rows;
    let mut row_dtos: Vec<AppletChecklistRowDto> = Vec::new();
    while rows.len() > 0
        decreases rows@.len(),
    {
        let row = rows.remove(0);
        row_dtos.push(checklist_row_dto(row));
    }
    InventoryDto { files: file_dtos, installed_applets: applet_dtos, bundled_applets: bundled_dtos, applet_rows: row_dtos }
}

/// Whether a backup root is an Android storage tree.
pub fn is_android_tree_uri(value: &str) -> (r: bool)
    ensures
        r == (has_prefix(value@, "content://"@) && has_infix(value@, "/tree/"@)),
{
    starts_with_text(value, "content://") && contains_text(value, "/tree/")
}

/// Whether a path is an Android content URI.
pub fn is_android_content_uri(value: &str) -> (r: bool)
    ensures
        r == has_prefix(value@, "content://"@),
{
    starts_with_text(value, "content://")
}

/// The path of a backup file below a storage tree: kind, timestamp and
/// file name, each without surrounding slashes, joined by slashes.
pub fn backup_relative_path(kind: &str, timestamp: &str, file_name: &str) -> (r: String)
    ensures
        r@ == trim_char(kind@, '/') + "/"@ + trim_char(timestamp@, '/') + "/"@ + trim_char(file_name@, '/'),
{
    let mut s = trim_char_text(kind, '/');
    s.append("/");
    let t = trim_char_text(timestamp, '/');
    s.append(t.as_str());
    s.append("/");
    let f = trim_char_text(file_name, '/');
    s.append(f.as_str());
    s
}

/// A device file name made safe for a file system.
pub fn safe_name(name: &str) -> (r: String)
    ensures
        r@ == sanitized(name@),
{
    sanitize_name(name)
}

/// The applet ids of the stock restore, in order: every id of the restore
/// order, since the shipped catalog has a stock applet for each.
pub fn original_stock_restore_plan_ids() -> (r: Vec<u16>)
    ensures
        r@ == restore_order(),
{
    let catalog = BundledCatalog::dev_defaults();
    let picked = catalog.original_stock_restore_applets();
    proof {
        crate::catalog::lemma_default_restore_picks(catalog.applets@);
        assert forall|k: int| 0 <= k < 13 implies (#[trigger] picked@[k]).applet_id == Some(restore_order()[k]) by {
            let idx = restore_indices(catalog.applets@, restore_order())[k];
            assert(*picked@[k] == catalog.applets@[idx]);
        }
    }
    let mut ids: Vec<u16> = Vec::new();
    let mut i: usize = 0;
    while i < picked.len()
        invariant
            i <= picked@.len(),
            picked@.len() == 13,
            forall|k: int| 0 <= k < 13 ==> (#[trigger] picked@[k]).applet_id == Some(restore_order()[k]),
            ids@ == restore_order().subrange(0, i as int),
        decreases picked@.len() - i,
    {
        if let Some(id) = picked[i].applet_id {
            ids.push(id);
        }
        i = i + 1;
        assert(ids@ =~= restore_order().subrange(0, i as int));
    }
    assert(ids@ =~= restore_order());
    ids
}

/// Why an install could not be confirmed.
#[derive(Clone, Debug, PartialEq, Eq)]
pub struct VerifyInstallError {
    pub message: String,
}

/// Checks that an applet id is among the installed applets after an
/// install.
pub fn verify_installed_applet_id(installed: &[SmartAppletRecord], applet_id: u16) -> (r: Result<(), VerifyInstallError>)
    ensures
        r is Ok <==> exists|i: int| 0 <= i < installed@.len() && (#[trigger] installed@[i]).applet_id == applet_id,
        r matches Err(e) ==> e.message@ == "applet 0x"@ + hex_digits(applet_id as nat, 4) + " did not appear after install"@,
{
    let mut i: usize = 0;
    while i < installed.len()
        invariant
            i <= installed@.len(),
            forall|k: int| 0 <= k < i ==> (#[trigger] installed@[k]).applet_id != applet_id,
        decreases installed@.len() - i,
    {
        if installed[i].applet_id == applet_id {
            return Ok(());
        }
        i = i + 1;
    }
    let mut message = String::from_str("applet 0x");
    push_hex(&mut message, applet_id as u64, 4);
    message.append(" did not appear after install");
    Err(VerifyInstallError { message })
}

/// The marker the Android folder picker puts before an error message.
pub const PICKER_ERROR_PREFIX: &'static str = "__ALPHAGUI_ERROR__:";

/// The marker the Android folder picker puts before an error message.
pub open spec fn picker_error_prefix() -> Seq<char> {
    "__ALPHAGUI_ERROR__:"@
}

/// The error an Android bridge call reported.
#[derive(Clone, Debug, PartialEq, Eq)]
pub struct PickerError {
    pub message: String,
}

/// Reads what the Android folder picker returned: nothing when cancelled,
/// an error when it carries the error marker, the folder URI otherwise.
pub fn parse_picker_result(value: &str) -> (r: Result<Option<String>, PickerError>)
    ensures
        value@.len() == 0 ==> r == Ok::<Option<String>, PickerError>(None),
        value@.len() > 0 && has_prefix(value@, picker_error_prefix()) ==> (r matches Err(e)
            && e.message@ == value@.subrange(picker_error_prefix().len() as int, value@.len() as int)),
        value@.len() > 0 && !has_prefix(value@, picker_error_prefix()) ==> (r matches Ok(Some(s)) && s@ == value@),
{
    if value.unicode_len() == 0 {
        return Ok(None);
    }
    let prefix = "__ALPHAGUI_ERROR__:";
    if starts_with_text(value, prefix) {
        proof {
            reveal_strlit("__ALPHAGUI_ERROR__:");
        }
        let n = prefix.unicode_len();
        let rest = value.substring_char(n, value.unicode_len());
        return Err(PickerError { message: String::from_str(rest) });
    }
    Ok(Some(String::from_str(value)))
}

/// The folder picker off Android: not available.
pub fn pick_backup_folder() -> (r: Result<Option<String>, PickerError>)
    ensures
        r matches Err(e) && e.message@ == "Android folder picker is only available on Android"@,
{
    Err(PickerError { message: String::from_str("Android folder picker is only available on Android") })
}

/// The content URI reader off Android: not available.
pub fn read_content_uri(uri: &str) -> (r: Result<Vec<u8>, PickerError>)
    ensures
        r matches Err(e) && e.message@ == "Android content URI reader is only available on Android"@,
{
    Err(PickerError { message: String::from_str("Android content URI reader is only available on Android") })
}

/// The storage-tree writer off Android: not available.
pub fn write_backup_file(root_uri: &str, relative_path: &str, bytes: &[u8]) -> (r: Result<(), PickerError>)
    ensures
        r matches Err(e) && e.message@ == "Android SAF backup writer is only available on Android"@,
{
    Err(PickerError { message: String::from_str("Android SAF backup writer is only available on Android") })
}

/// Where the bytes of one applet of a flash come from.
#[derive(Clone, Debug, PartialEq, Eq)]
pub enum PlanSource {
    Bundled(BundledSource),
    File(String),
}

/// One applet image a flash needs, keyed by its checklist row.
#[derive(Clone, Debug, PartialEq, Eq)]
pub struct PlannedApplet {
    pub key: String,
    pub source: PlanSource,
}

/// Why a flash plan could not be made.
#[derive(Clone, Debug, PartialEq, Eq)]
pub enum FlashPlanError {
    MissingBundled { id: String },
    WouldLoseInstalledOnly { applet_id: u16 },
}

/// Whether the catalog has an applet with id `id`.
pub open spec fn catalog_has(applets: Seq<BundledApplet>, id: Seq<char>) -> bool {
    exists|k: int| 0 <= k < applets.len() && #[trigger] applets[k].id@ == id
}

/// Whether applet `k` is the first of `applets` with id `id`.
pub open spec fn first_with_id(applets: Seq<BundledApplet>, id: Seq<char>, k: int) -> bool {
    &&& 0 <= k < applets.len()
    &&& applets[k].id@ == id
    &&& forall|m: int| 0 <= m < k ==> (#[trigger] applets[m]).id@ != id
}

/// The source of the first catalog applet with id `id`.
pub open spec fn first_source(applets: Seq<BundledApplet>, id: Seq<char>) -> BundledSource {
    applets[choose|k: int| first_with_id(applets, id, k)].source
}

/// The flash plan of `rows`: for each ticked row in order, its key and
/// where its image comes from (the first catalog applet with the row's id
/// for a bundled row, the row's file for an added one); installed-only rows
/// have no image.
pub open spec fn planned(rows: Seq<AppletChecklistRow>, applets: Seq<BundledApplet>) -> Seq<PlannedApplet>
    decreases rows.len(),
{
    if rows.len() == 0 {
        Seq::empty()
    } else {
        let r = rows.last();
        let prev = planned(rows.drop_last(), applets);
        if !r.checked {
            prev
        } else {
            match r.source {
                AppletSourceKind::Bundled { id } => prev.push(
                    PlannedApplet { key: r.key, source: PlanSource::Bundled(first_source(applets, id@)) },
                ),
                AppletSourceKind::AddedFromFile { path } => prev.push(
                    PlannedApplet { key: r.key, source: PlanSource::File(path) },
                ),
                AppletSourceKind::InstalledOnly { .. } => prev,
            }
        }
    }
}

proof fn lemma_first_with_id_unique(applets: Seq<BundledApplet>, id: Seq<char>, j: int, k: int)
    requires
        first_with_id(applets, id, j),
        first_with_id(applets, id, k),
    ensures
        j == k,
{
    if j < k {
        assert(applets[j].id@ != id);
    } else if k < j {
        assert(applets[k].id@ != id);
    }
}

/// The ticked rows of `rows`, in order.
pub open spec fn ticked(rows: Seq<AppletChecklistRow>) -> Seq<AppletChecklistRow> {
    rows.filter(|r: AppletChecklistRow| r.checked)
}

/// Lists, for the ticked rows, where each applet image comes from: the
/// bundle for a bundled row, the file for an added row; an installed-only
/// row has no image, which is an error when the applet area is cleared.
pub fn resolve_applet_flash_plan(checklist: &AppletChecklist, catalog: &BundledCatalog, requires_clear: bool) -> (r: Result<Vec<PlannedApplet>, FlashPlanError>)
    ensures
        r matches Ok(plan) ==> plan@ == planned(checklist.rows@, catalog.applets@),
        r matches Ok(plan) ==> plan@.len() <= checklist.rows@.len(),
        r matches Ok(plan) ==> plan_keys(plan@) == flashed_keys(checklist.rows@),
        r matches Ok(plan) ==> forall|k: int| #![trigger plan@[k]] 0 <= k < plan@.len() ==> exists|i: int| 0 <= i < checklist.rows@.len()
                && (#[trigger] checklist.rows@[i]).checked && checklist.rows@[i].key@ == plan@[k].key@,
        r matches Err(FlashPlanError::WouldLoseInstalledOnly { applet_id }) ==> requires_clear && exists|i: int|
            0 <= i < checklist.rows@.len() && (#[trigger] checklist.rows@[i]).checked
                && checklist.rows@[i].source == (AppletSourceKind::InstalledOnly { applet_id }),
        r matches Err(FlashPlanError::MissingBundled { id }) ==> !catalog_has(catalog.applets@, id@),
        (forall|i: int| 0 <= i < checklist.rows@.len() && (#[trigger] checklist.rows@[i]).checked ==> match checklist.rows@[i].source {
            AppletSourceKind::Bundled { id } => catalog_has(catalog.applets@, id@),
            AppletSourceKind::InstalledOnly { .. } => !requires_clear,
            AppletSourceKind::AddedFromFile { .. } => true,
        }) ==> r is Ok,
{
    let mut plan: Vec<PlannedApplet> = Vec::new();
    let mut i: usize = 0;
    while i < checklist.rows.len()
        invariant
            i <= checklist.rows@.len(),
            plan@.len() <= i,
            plan_keys(plan@) == flashed_keys(checklist.rows@.subrange(0, i as int)),
            plan@ == planned(checklist.rows@.subrange(0, i as int), catalog.applets@),
            forall|k: int| #![trigger plan@[k]] 0 <= k < plan@.len() ==> exists|j: int| 0 <= j < i
                && (#[trigger] checklist.rows@[j]).checked && checklist.rows@[j].key@ == plan@[k].key@,
        decreases checklist.rows@.len() - i,
    {
        let row = &checklist.rows[i];
        let ghost keys_before = plan_keys(plan@);
        proof {
            let sub = checklist.rows@.subrange(0, i + 1);
            assert(sub.drop_last() =~= checklist.rows@.subrange(0, i as int));
        }
        if row.checked {
            match &row.source {
                AppletSourceKind::Bundled { id } => {
                    let mut k: usize = 0;
                    let mut found = false;
                    while k < catalog.applets.len() && !found
                        invariant
                            k <= catalog.applets@.len(),
                            found ==> k < catalog.applets@.len() && catalog.applets@[k as int].id@ == id@,
                            forall|m: int| 0 <= m < k ==> (#[trigger] catalog.applets@[m]).id@ != id@,
                        decreases catalog.applets@.len() - k + (if found { 0int } else { 1int }),
                    {
                        if catalog.applets[k].id == *id {
                            found = true;
                        } else {
                            k = k + 1;
                        }
                    }
                    if !found {
                        return Err(FlashPlanError::MissingBundled { id: id.clone() });
                    }
                    proof {
                        assert(first_with_id(catalog.applets@, id@, k as int));
                        let c = choose|c: int| first_with_id(catalog.applets@, id@, c);
                        lemma_first_with_id_unique(catalog.applets@, id@, k as int, c);
                    }
                    let ghost n = plan@.len();
                    let ghost before = plan@;
                    plan.push(PlannedApplet { key: row.key.clone(), source: PlanSource::Bundled(catalog.applets[k].source.copy()) });
                    assert(checklist.rows@[i as int].key@ == plan@[n as int].key@);
                    assert(plan@.drop_last() =~= before);
                },
                AppletSourceKind::InstalledOnly { applet_id } => {
                    if requires_clear {
                        return Err(FlashPlanError::WouldLoseInstalledOnly { applet_id: *applet_id });
                    }
                },
                AppletSourceKind::AddedFromFile { path } => {
                    let ghost n = plan@.len();
                    let ghost before = plan@;
                    plan.push(PlannedApplet { key: row.key.clone(), source: PlanSource::File(path.clone()) });
                    assert(checklist.rows@[i as int].key@ == plan@[n as int].key@);
                    assert(plan@.drop_last() =~= before);
                },
            }
        }
        i = i + 1;
    }
    assert(checklist.rows@.subrange(0, i as int) =~= checklist.rows@);
    assert forall|k: int| #![trigger plan@[k]] 0 <= k < plan@.len() implies exists|m: int| 0 <= m < checklist.rows@.len()
        && (#[trigger] checklist.rows@[m]).checked && checklist.rows@[m].key@ == plan@[k].key@ by {
        let j = choose|j: int| 0 <= j < i && (#[trigger] checklist.rows@[j]).checked && checklist.rows@[j].key@ == plan@[k].key@;
        assert(0 <= j < checklist.rows@.len());
    }
    Ok(plan)
}

/// The keys of a flash plan, in order.
pub open spec fn plan_keys(plan: Seq<PlannedApplet>) -> Seq<Seq<char>>
    decreases plan.len(),
{
    if plan.len() == 0 {
        Seq::empty()
    } else {
        plan_keys(plan.drop_last()).push(plan.last().key@)
    }
}

/// The keys of the ticked rows that have an image to flash (every ticked
/// row but installed-only ones), in order.
pub open spec fn flashed_keys(rows: Seq<AppletChecklistRow>) -> Seq<Seq<char>>
    decreases rows.len(),
{
    if rows.len() == 0 {
        Seq::empty()
    } else {
        let r = rows.last();
        let prev = flashed_keys(rows.drop_last());
        if r.checked && !(r.source is InstalledOnly) {
            prev.push(r.key@)
        } else {
            prev
        }
    }
}

/// Whether `key` is among `keys`.
pub open spec fn key_in(keys: Seq<String>, key: Seq<char>) -> bool {
    exists|i: int| 0 <= i < keys.len() && (#[trigger] keys[i])@ == key
}

/// Whether `row` is the checklist row of added file `added` of `size`
/// bytes, ticked as `checked`.
pub open spec fn added_selection_row(row: AppletChecklistRow, added: AddedAppletSelectionDto, size: Option<u64>, checked: bool) -> bool {
    &&& row.key@ == added.key@
    &&& row.display_name@ == added.display_name@
    &&& row.version is None
    &&& row.size == size
    &&& !row.installed
    &&& row.checked == checked
    &&& row.source matches AppletSourceKind::AddedFromFile { path } && path@ == added.path@
}

fn has_key(keys: &Vec<String>, key: &String) -> (r: bool)
    ensures
        r == key_in(keys@, key@),
{
    let mut i: usize = 0;
    while i < keys.len()
        invariant
            i <= keys@.len(),
            forall|j: int| 0 <= j < i ==> (#[trigger] keys@[j])@ != key@,
        decreases keys@.len() - i,
    {
        if keys[i] == *key {
            return true;
        }
        i = i + 1;
    }
    false
}

/// The checklist a flash works from: the rows of `base`, then a row per
/// added file (with the size the caller read from disk, `sizes[j]` for
/// `added[j]`); every row is ticked exactly when its key is among
/// `checked_keys`.
pub fn selection_checklist(
    base: AppletChecklist,
    added: &Vec<AddedAppletSelectionDto>,
    sizes: &Vec<Option<u64>>,
    checked_keys: &Vec<String>,
) -> (r: AppletChecklist)
    requires
        sizes@.len() == added@.len(),
    ensures
        r.rows@.len() == base.rows@.len() + added@.len(),
        forall|i: int| 0 <= i < base.rows@.len() ==> #[trigger] r.rows@[i] == (AppletChecklistRow {
            checked: key_in(checked_keys@, base.rows@[i].key@),
            ..base.rows@[i]
        }),
        forall|j: int| 0 <= j < added@.len() ==> added_selection_row(
            #[trigger] r.rows@[base.rows@.len() + j],
            added@[j],
            sizes@[j],
            key_in(checked_keys@, added@[j].key@),
        ),
{
    let n = base.rows.len();
    let mut rows = base.rows;
    let ghost original = rows@;
    let mut i: usize = 0;
    while i < n
        invariant
            n == original.len(),
            i <= n,
            rows@.len() == n,
            forall|k: int| 0 <= k < i ==> #[trigger] rows@[k] == (AppletChecklistRow {
                checked: key_in(checked_keys@, original[k].key@),
                ..original[k]
            }),
            forall|k: int| i <= k < n ==> rows@[k] == original[k],
        decreases n - i,
    {
        let tick = has_key(checked_keys, &rows[i].key);
        let mut row = rows.remove(i);
        row.checked = tick;
        rows.insert(i, row);
        i = i + 1;
    }
    let mut j: usize = 0;
    while j < added.len()
        invariant
            n == original.len(),
            sizes@.len() == added@.len(),
            rows@.len() == n + j,
            j <= added@.len(),
            forall|k: int| 0 <= k < n ==> #[trigger] rows@[k] == (AppletChecklistRow {
                checked: key_in(checked_keys@, original[k].key@),
                ..original[k]
            }),
            forall|k: int| 0 <= k < j ==> added_selection_row(
                #[trigger] rows@[n + k],
                added@[k],
                sizes@[k],
                key_in(checked_keys@, added@[k].key@),
            ),
        decreases added@.len() - j,
    {
        let a = &added[j];
        let checked = has_key(checked_keys, &a.key);
        let row = AppletChecklistRow {
            key: a.key.clone(),
            display_name: a.display_name.clone(),
            version: None,
            size: sizes[j],
            installed: false,
            checked,
            source: AppletSourceKind::AddedFromFile { path: a.path.clone() },
        };
        rows.push(row);
        assert(rows@[n + j as int] == row);
        j = j + 1;
    }
    AppletChecklist { rows }
}

/// The keys to install, in order, when flashing the ticked rows: a bundled
/// row unless it is already installed and the area is not cleared, and
/// every added file.
pub open spec fn install_keys_of(rows: Seq<AppletChecklistRow>, requires_clear: bool) -> Seq<Seq<char>>
    decreases rows.len(),
{
    if rows.len() == 0 {
        Seq::empty()
    } else {
        let r = rows.last();
        let prev = install_keys_of(rows.drop_last(), requires_clear);
        let take = r.checked && match r.source {
            AppletSourceKind::Bundled { .. } => requires_clear || !r.installed,
            AppletSourceKind::AddedFromFile { .. } => true,
            AppletSourceKind::InstalledOnly { .. } => false,
        };
        if take {
            prev.push(r.key@)
        } else {
            prev
        }
    }
}

/// The keys of the rows a flash installs, in order.
pub fn install_keys(checklist: &AppletChecklist, requires_clear: bool) -> (r: Vec<String>)
    ensures
        r@.map_values(|k: String| k@) == install_keys_of(checklist.rows@, requires_clear),
{
    let mut out: Vec<String> = Vec::new();
    let mut i: usize = 0;
    while i < checklist.rows.len()
        invariant
            i <= checklist.rows@.len(),
            out@.map_values(|k: String| k@) == install_keys_of(checklist.rows@.subrange(0, i as int), requires_clear),
        decreases checklist.rows@.len() - i,
    {
        let row = &checklist.rows[i];
        let take = row.checked && match &row.source {
            AppletSourceKind::Bundled { .. } => requires_clear || !row.installed,
            AppletSourceKind::AddedFromFile { .. } => true,
            AppletSourceKind::InstalledOnly { .. } => false,
        };
        let ghost before = out@;
        proof {
            let sub = checklist.rows@.subrange(0, i + 1);
            assert(sub.drop_last() =~= checklist.rows@.subrange(0, i as int));
        }
        if take {
            out.push(row.key.clone());
            assert(out@.map_values(|k: String| k@) =~= before.map_values(|k: String| k@).push(row.key@));
        }
        i = i + 1;
    }
    assert(checklist.rows@.subrange(0, i as int) =~= checklist.rows@);
    out
}

} // verus!
