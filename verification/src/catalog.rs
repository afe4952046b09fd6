//! The SmartApplets and system image that ship with the tools, and the order
//! in which the original stock applets are restored.

use vstd::prelude::*;
use crate::text::{hex_digits, hex_digits_upper, push_hex, push_hex_upper};

verus! {

/// What a bundled SmartApplet is.
#[derive(Clone, Copy, Debug, PartialEq, Eq, Structural)]
pub enum BundledAppletKind {
    Stock,
    AlphaUsb,
}

/// What a bundled firmware image is.
#[derive(Clone, Copy, Debug, PartialEq, Eq, Structural)]
pub enum BundledOsImageKind {
    Firmware,
    System,
}

/// Where the bytes of a bundled item come from: a file next to the tools, or
/// an asset built into the program under a file name.
#[derive(Clone, Debug, PartialEq, Eq)]
pub enum BundledSource {
    DevPath(String),
    Embedded { name: String },
}

impl BundledSource {
    /// The same source, its text copied.
    pub fn copy(&self) -> (r: BundledSource)
        ensures
            r == *self,
    {
        match self {
            BundledSource::DevPath(path) => BundledSource::DevPath(path.clone()),
            BundledSource::Embedded { name } => BundledSource::Embedded { name: name.clone() },
        }
    }

    /// Both kinds of source can be read without asking the user for a file.
    pub fn is_resolvable_without_picker(&self) -> (r: bool)
        ensures
            r,
    {
        match self {
            BundledSource::DevPath(_) => true,
            BundledSource::Embedded { .. } => true,
        }
    }

    /// The file path of a source that lives on disk.
    pub fn path(&self) -> (r: Option<&str>)
        ensures
            match self {
                BundledSource::DevPath(p) => r matches Some(q) && q@ == p@,
                BundledSource::Embedded { .. } => r is None,
            },
    {
        match self {
            BundledSource::DevPath(p) => Some(p.as_str()),
            BundledSource::Embedded { .. } => None,
        }
    }
}

/// A SmartApplet the tools can install.
#[derive(Clone, Debug, PartialEq, Eq)]
pub struct BundledApplet {
    pub id: String,
    pub applet_id: Option<u16>,
    pub name: String,
    pub version: Option<String>,
    pub size: Option<u64>,
    pub kind: BundledAppletKind,
    pub source: BundledSource,
}

/// A firmware image the tools can flash.
#[derive(Clone, Debug, PartialEq, Eq)]
pub struct BundledOsImage {
    pub id: String,
    pub name: String,
    pub kind: BundledOsImageKind,
    pub source: BundledSource,
}

/// Everything that ships with the tools.
#[derive(Clone, Debug, PartialEq, Eq)]
pub struct BundledCatalog {
    pub applets: Vec<BundledApplet>,
    pub os_images: Vec<BundledOsImage>,
}

/// The applet ids of the stock SmartApplets, in catalog order.
pub open spec fn stock_applet_ids() -> Seq<u16> {
    seq![
        0x0000u16, 0xa000, 0xa001, 0xa002, 0xa004, 0xa005, 0xa006, 0xa007, 0xa027, 0xaf00,
        0xaf02, 0xaf03, 0xaf73, 0xaf75,
    ]
}

/// The order in which the original stock applets are put back on a device.
pub open spec fn restore_order() -> Seq<u16> {
    seq![
        0xa000u16, 0xaf00, 0xaf75, 0xaf02, 0xaf73, 0xaf03, 0xa004, 0xa007, 0xa006, 0xa001,
        0xa002, 0xa027, 0xa005,
    ]
}

/// The catalog entry of stock applet `id`: it is named after its backup
/// file, whose name is the id in upper-case hexadecimal.
pub open spec fn is_stock_entry(a: BundledApplet, id: u16) -> bool {
    &&& a.id@ == hex_digits(id as nat, 4)
    &&& a.applet_id == Some(id)
    &&& a.name@ == hex_digits_upper(id as nat, 4)
    &&& a.version is None
    &&& a.size is None
    &&& a.kind == BundledAppletKind::Stock
    &&& a.source matches BundledSource::Embedded { name } && name@ == hex_digits_upper(id as nat, 4)
        + ".os3kapp"@
}

/// The catalog entry of the Alpha USB applet.
pub open spec fn is_alpha_usb_entry(a: BundledApplet) -> bool {
    &&& a.id@ == "alpha-usb"@
    &&& a.applet_id == Some(0xa130u16)
    &&& a.name@ == "Alpha USB"@
    &&& a.version is None
    &&& a.size is None
    &&& a.kind == BundledAppletKind::AlphaUsb
    &&& a.source matches BundledSource::Embedded { name } && name@ == "alpha-usb-native.os3kapp"@
}

/// The catalog entry of the NEO system image.
pub open spec fn is_neo_os_entry(i: BundledOsImage) -> bool {
    &&& i.id@ == "neo-os"@
    &&& i.name@ == "AlphaSmart NEO OS"@
    &&& i.kind == BundledOsImageKind::System
    &&& i.source matches BundledSource::Embedded { name } && name@ == "os3kneorom.os3kos"@
}

/// Whether `a` is the stock applet with id `id`.
pub open spec fn is_stock_with(a: BundledApplet, id: u16) -> bool {
    a.kind == BundledAppletKind::Stock && a.applet_id == Some(id)
}

/// The index of the first stock applet with id `id`, or -1.
pub open spec fn first_stock(s: Seq<BundledApplet>, id: u16) -> int
    decreases s.len(),
{
    if s.len() == 0 {
        -1
    } else {
        let f = first_stock(s.drop_last(), id);
        if f >= 0 {
            f
        } else if is_stock_with(s.last(), id) {
            s.len() - 1
        } else {
            -1
        }
    }
}

/// For each id in `ids` that a stock applet of `s` carries, the index of the
/// first such applet.
pub open spec fn restore_indices(s: Seq<BundledApplet>, ids: Seq<u16>) -> Seq<int>
    decreases ids.len(),
{
    if ids.len() == 0 {
        Seq::empty()
    } else {
        let prev = restore_indices(s, ids.drop_last());
        let f = first_stock(s, ids.last());
        if f >= 0 {
            prev.push(f)
        } else {
            prev
        }
    }
}

proof fn lemma_first_stock_bounds(s: Seq<BundledApplet>, id: u16)
    ensures
        -1 <= first_stock(s, id) < s.len(),
        first_stock(s, id) >= 0 ==> is_stock_with(s[first_stock(s, id)], id)
            && forall|j: int| 0 <= j < first_stock(s, id) ==> !is_stock_with(#[trigger] s[j], id),
        first_stock(s, id) < 0 ==> forall|j: int| 0 <= j < s.len() ==> !is_stock_with(#[trigger] s[j], id),
    decreases s.len(),
{
    if s.len() > 0 {
        lemma_first_stock_bounds(s.drop_last(), id);
        let p = s.drop_last();
        assert forall|j: int| 0 <= j < p.len() implies p[j] == s[j] by {}
    }
}

/// At most one applet is picked per id.
pub proof fn lemma_restore_indices_len(s: Seq<BundledApplet>, ids: Seq<u16>)
    ensures
        restore_indices(s, ids).len() <= ids.len(),
    decreases ids.len(),
{
    if ids.len() > 0 {
        lemma_restore_indices_len(s, ids.drop_last());
    }
}

proof fn lemma_restore_indices_all_found(s: Seq<BundledApplet>, ids: Seq<u16>)
    requires
        forall|k: int| 0 <= k < ids.len() ==> first_stock(s, #[trigger] ids[k]) >= 0,
    ensures
        restore_indices(s, ids).len() == ids.len(),
        forall|k: int|
            0 <= k < ids.len() ==> 0 <= #[trigger] restore_indices(s, ids)[k] < s.len() && s[restore_indices(
                s,
                ids,
            )[k]].applet_id == Some(ids[k]),
    decreases ids.len(),
{
    if ids.len() > 0 {
        let p = ids.drop_last();
        assert forall|k: int| 0 <= k < p.len() implies first_stock(s, #[trigger] p[k]) >= 0 by {
            assert(p[k] == ids[k]);
        }
        lemma_restore_indices_all_found(s, p);
        lemma_first_stock_bounds(s, ids.last());
        assert(ids.last() == ids[ids.len() - 1]);
        assert forall|k: int| 0 <= k < ids.len() implies 0 <= #[trigger] restore_indices(s, ids)[k] < s.len()
            && s[restore_indices(s, ids)[k]].applet_id == Some(ids[k]) by {
            if k < p.len() {
                assert(restore_indices(s, ids)[k] == restore_indices(s, p)[k]);
                assert(p[k] == ids[k]);
            }
        }
    }
}

/// The catalog index of the stock applet restored `k`-th.
spec fn restore_source(k: int) -> int {
    if k == 0 { 1 }
    else if k == 1 { 9 }
    else if k == 2 { 13 }
    else if k == 3 { 10 }
    else if k == 4 { 12 }
    else if k == 5 { 11 }
    else if k == 6 { 4 }
    else if k == 7 { 7 }
    else if k == 8 { 6 }
    else if k == 9 { 2 }
    else if k == 10 { 3 }
    else if k == 11 { 8 }
    else { 5 }
}

/// In a catalog holding the stock applets in their catalog order, the stock
/// restore finds an applet for every id of the restore order.
pub proof fn lemma_default_restore_picks(s: Seq<BundledApplet>)
    requires
        s.len() == 15,
        forall|i: int| 0 <= i < 14 ==> is_stock_entry(#[trigger] s[i], stock_applet_ids()[i]),
    ensures
        restore_indices(s, restore_order()).len() == 13,
        forall|k: int|
            0 <= k < 13 ==> s[#[trigger] restore_indices(s, restore_order())[k]].applet_id == Some(
                restore_order()[k],
            ),
{
    let ids = restore_order();
    assert forall|k: int| 0 <= k < ids.len() implies first_stock(s, #[trigger] ids[k]) >= 0 by {
        let j = restore_source(k);
        assert(is_stock_entry(s[j], stock_applet_ids()[j]));
        assert(stock_applet_ids()[j] == ids[k]);
        assert(is_stock_with(s[j], ids[k]));
        lemma_first_stock_bounds(s, ids[k]);
    }
    lemma_restore_indices_all_found(s, ids);
}

/// Builds the catalog entry of stock applet `id`.
fn stock_applet(id: u16) -> (a: BundledApplet)
    ensures
        is_stock_entry(a, id),
{
    let mut key = String::new();
    push_hex(&mut key, id as u64, 4);
    let mut name = String::new();
    push_hex_upper(&mut name, id as u64, 4);
    let mut file = String::new();
    push_hex_upper(&mut file, id as u64, 4);
    file.append(".os3kapp");
    assert(key@ =~= hex_digits(id as nat, 4));
    assert(name@ =~= hex_digits_upper(id as nat, 4));
    BundledApplet {
        id: key,
        applet_id: Some(id),
        name,
        version: None,
        size: None,
        kind: BundledAppletKind::Stock,
        source: BundledSource::Embedded { name: file },
    }
}

/// Whether `a` is `b` with size `size`.
pub open spec fn sized_as(a: BundledApplet, b: BundledApplet, size: Option<u64>) -> bool {
    &&& a.id == b.id
    &&& a.applet_id == b.applet_id
    &&& a.name == b.name
    &&& a.version == b.version
    &&& a.size == size
    &&& a.kind == b.kind
    &&& a.source == b.source
}

impl BundledCatalog {
    /// The catalog with the byte length of each applet's image: applet `i`
    /// gets size `sizes[i]`; applets past the end of `sizes` keep theirs.
    pub fn with_asset_sizes(self, sizes: &[u64]) -> (r: Self)
        ensures
            r.os_images == self.os_images,
            r.applets@.len() == self.applets@.len(),
            forall|i: int| 0 <= i < r.applets@.len() ==> sized_as(
                #[trigger] r.applets@[i],
                self.applets@[i],
                if i < sizes@.len() { Some(sizes@[i]) } else { self.applets@[i].size },
            ),
    {
        let ghost orig = self.applets@;
        let count = self.applets.len();
        let mut rest = self.applets;
        let mut applets: Vec<BundledApplet> = Vec::new();
        let mut i: usize = 0;
        while rest.len() > 0
            invariant
                i + rest@.len() == orig.len(),
                orig.len() == count,
                rest@ == orig.subrange(i as int, orig.len() as int),
                applets@.len() == i,
                forall|k: int| 0 <= k < i ==> sized_as(
                    #[trigger] applets@[k],
                    orig[k],
                    if k < sizes@.len() { Some(sizes@[k]) } else { orig[k].size },
                ),
            decreases rest@.len(),
        {
            let mut a = rest.remove(0);
            if i < sizes.len() {
                a.size = Some(sizes[i]);
            }
            applets.push(a);
            i = i + 1;
            assert(rest@ =~= orig.subrange(i as int, orig.len() as int));
        }
        BundledCatalog { applets, os_images: self.os_images }
    }

    /// The catalog as it ships: the stock applets, Alpha USB, and the NEO
    /// system image, applets in order of name.
    pub fn dev_defaults() -> (r: Self)
        ensures
            r.applets@.len() == 15,
            forall|i: int| 0 <= i < 14 ==> is_stock_entry(#[trigger] r.applets@[i], stock_applet_ids()[i]),
            is_alpha_usb_entry(r.applets@[14]),
            r.os_images@.len() == 1,
            is_neo_os_entry(r.os_images@[0]),
    {
        let ids: [u16; 14] = [
            0x0000, 0xa000, 0xa001, 0xa002, 0xa004, 0xa005, 0xa006, 0xa007, 0xa027, 0xaf00,
            0xaf02, 0xaf03, 0xaf73, 0xaf75,
        ];
        assert(ids@ =~= stock_applet_ids());
        let mut applets: Vec<BundledApplet> = Vec::new();
        let mut i: usize = 0;
        while i < 14
            invariant
                i <= 14,
                ids@ == stock_applet_ids(),
                applets@.len() == i,
                forall|k: int| 0 <= k < i ==> is_stock_entry(#[trigger] applets@[k], stock_applet_ids()[k]),
            decreases 14 - i,
        {
            applets.push(stock_applet(ids[i]));
            i = i + 1;
        }
        applets.push(BundledApplet {
            id: String::from_str("alpha-usb"),
            applet_id: Some(0xa130),
            name: String::from_str("Alpha USB"),
            version: None,
            size: None,
            kind: BundledAppletKind::AlphaUsb,
            source: BundledSource::Embedded { name: String::from_str("alpha-usb-native.os3kapp") },
        });
        let mut os_images: Vec<BundledOsImage> = Vec::new();
        os_images.push(BundledOsImage {
            id: String::from_str("neo-os"),
            name: String::from_str("AlphaSmart NEO OS"),
            kind: BundledOsImageKind::System,
            source: BundledSource::Embedded { name: String::from_str("os3kneorom.os3kos") },
        });
        BundledCatalog { applets, os_images }
    }

    /// The first system image of the given kind.
    pub fn os_image_by_kind(&self, kind: BundledOsImageKind) -> (r: Option<&BundledOsImage>)
        ensures
            match r {
                Some(image) => exists|i: int| 0 <= i < self.os_images@.len()
                    && self.os_images@[i] == *image
                    && image.kind == kind
                    && forall|j: int| 0 <= j < i ==> (#[trigger] self.os_images@[j]).kind != kind,
                None => forall|j: int| 0 <= j < self.os_images@.len() ==> (#[trigger] self.os_images@[j]).kind != kind,
            },
    {
        let mut i: usize = 0;
        while i < self.os_images.len()
            invariant
                i <= self.os_images@.len(),
                forall|j: int| 0 <= j < i ==> (#[trigger] self.os_images@[j]).kind != kind,
            decreases self.os_images@.len() - i,
        {
            if self.os_images[i].kind == kind {
                return Some(&self.os_images[i]);
            }
            i = i + 1;
        }
        None
    }

    /// The stock applets to put back on a device, in restore order; an id of
    /// the order with no stock applet in the catalog is skipped.
    pub fn original_stock_restore_applets(&self) -> (r: Vec<&BundledApplet>)
        ensures
            r@.len() == restore_indices(self.applets@, restore_order()).len(),
            forall|k: int| 0 <= k < r@.len() ==> *r@[k] == self.applets@[#[trigger] restore_indices(self.applets@, restore_order())[k]],
    {
        let order: [u16; 13] = [
            0xa000, 0xaf00, 0xaf75, 0xaf02, 0xaf73, 0xaf03, 0xa004, 0xa007, 0xa006, 0xa001,
            0xa002, 0xa027, 0xa005,
        ];
        assert(order@ =~= restore_order());
        let mut out: Vec<&BundledApplet> = Vec::new();
        let mut k: usize = 0;
        while k < 13
            invariant
                k <= 13,
                order@ == restore_order(),
                out@.len() == restore_indices(self.applets@, order@.subrange(0, k as int)).len(),
                forall|m: int| 0 <= m < out@.len() ==> *out@[m] == self.applets@[#[trigger] restore_indices(self.applets@, order@.subrange(0, k as int))[m]],
            decreases 13 - k,
        {
            let id = order[k];
            let ghost ids_next = order@.subrange(0, k + 1);
            assert(ids_next.drop_last() =~= order@.subrange(0, k as int));
            proof {
                lemma_first_stock_bounds(self.applets@, id);
            }
            let mut j: usize = 0;
            let mut found = false;
            while j < self.applets.len() && !found
                invariant
                    j <= self.applets@.len(),
                    found ==> j < self.applets@.len() && is_stock_with(self.applets@[j as int], id),
                    forall|q: int| 0 <= q < j ==> !is_stock_with(#[trigger] self.applets@[q], id),
                decreases self.applets@.len() - j + (if found { 0int } else { 1int }),
            {
                if self.applets[j].kind == BundledAppletKind::Stock && self.applets[j].applet_id == Some(id) {
                    found = true;
                } else {
                    j = j + 1;
                }
            }
            if found {
                assert(first_stock(self.applets@, id) == j);
                out.push(&self.applets[j]);
            } else {
                assert(first_stock(self.applets@, id) < 0);
            }
            k = k + 1;
        }
        assert(order@.subrange(0, 13) =~= order@);
        out
    }
}

} // verus!
