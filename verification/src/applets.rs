//! The applets this project ships, written with the SDK, and the registry
//! the build tool looks them up in.

use vstd::prelude::*;
use crate::sdk::{
    define, defined_messages, holds_hooks, Action, AppletDefinition, AppletId, AppletManifest, NeoApplet, Status, UiContext,
    UsbContext, SystemContext, KeyContext, IdentityContext, Version,
};
use crate::text::text_eq;

verus! {

/// The Alpha USB applet: on focus it tells the user to connect the NEO; when
/// plugged in it switches the NEO from keyboard mode to direct mode.
pub struct AlphaUsb;

/// The manifest of Alpha USB.
pub open spec fn alpha_usb_manifest() -> AppletManifest {
    AppletManifest {
        id: AppletId(0xA130),
        name: "Alpha USB",
        version: Version { major_bcd: 0x01, minor_bcd: 0x20 },
        flags: 0xFF00_00CE,
        base_memory_size: 0x100,
        extra_memory_size: 0x2000,
        copyright: "neo-re benign SmartApplet probe",
        alphaword_write_metadata: true,
    }
}

impl NeoApplet for AlphaUsb {
    open spec fn manifest_spec(&self) -> AppletManifest {
        alpha_usb_manifest()
    }

    fn manifest(&self) -> (r: AppletManifest) {
        AppletManifest {
            id: AppletId(0xA130),
            name: "Alpha USB",
            version: Version::new(0x01, 0x20),
            flags: 0xFF00_00CE,
            base_memory_size: 0x100,
            extra_memory_size: 0x2000,
            copyright: "neo-re benign SmartApplet probe",
            alphaword_write_metadata: true,
        }
    }

    /// Init returns status 0.
    open spec fn init_records(&self, added: Seq<Action>) -> bool {
        added == seq![Action::ReturnStatus(0)]
    }

    fn on_init(&self, ctx: &mut SystemContext) {
        let ghost a0 = ctx.actions@;
        ctx.status(Status::raw(0));
        proof {
            assert(ctx.actions@.subrange(0, a0.len() as int) =~= a0);
            assert(ctx.actions@.subrange(a0.len() as int, ctx.actions@.len() as int) =~= seq![Action::ReturnStatus(0)]);
        }
    }

    /// On focus it clears the screen, writes the instructions from row 2 and
    /// waits.
    open spec fn focus_records(&self, added: Seq<Action>) -> bool {
        &&& added.len() == 3
        &&& added[0] == Action::ClearScreen
        &&& added[1] matches Action::WriteLines { start_row: s, lines: l } && s == 2 && l@ == seq![
            "Now connect the NEO",
            "to your computer or",
            "smartphone via USB.",
        ]
        &&& added[2] == Action::IdleForever
    }

    fn on_focus(&self, ctx: &mut UiContext)
        ensures
            final(ctx).actions@.len() == old(ctx).actions@.len() + 3,
            final(ctx).actions@.subrange(0, old(ctx).actions@.len() as int) == old(ctx).actions@,
            final(ctx).actions@[old(ctx).actions@.len() as int] == Action::ClearScreen,
            final(ctx).actions@[old(ctx).actions@.len() + 1int] matches Action::WriteLines { start_row: s, lines: l }
                && s == 2 && l@ == seq!["Now connect the NEO", "to your computer or", "smartphone via USB."],
            final(ctx).actions@[old(ctx).actions@.len() + 2int] == Action::IdleForever,
    {
        let ghost a0 = ctx.actions@;
        ctx.screen().clear();
        let ghost a1 = ctx.actions@;
        ctx.screen().write_lines(2, ["Now connect the NEO", "to your computer or", "smartphone via USB."]);
        let ghost a2 = ctx.actions@;
        ctx.events().idle_forever();
        proof {
            let n = a0.len() as int;
            assert forall|j: int| 0 <= j <= n implies #[trigger] ctx.actions@[j] == a1[j] by {
                assert(a2.drop_last()[j] == a2[j]);
            }
            assert(ctx.actions@[n] == Action::ClearScreen);
            assert(ctx.actions@.subrange(0, n) =~= a0);
            assert(ctx.actions@[n + 1] == a2.last());
            let added = ctx.actions@.subrange(n, ctx.actions@.len() as int);
            assert(added[0] == ctx.actions@[n]);
            assert(added[1] == ctx.actions@[n + 1]);
            assert(added[2] == ctx.actions@[n + 2]);
        }
    }

    /// Char passes the key on (status 4).
    open spec fn char_records(&self, added: Seq<Action>) -> bool {
        added == seq![Action::ReturnStatus(0x04)]
    }

    fn on_char(&self, ctx: &mut SystemContext) {
        let ghost a0 = ctx.actions@;
        ctx.status(Status::raw(0x04));
        proof {
            assert(ctx.actions@.subrange(0, a0.len() as int) =~= a0);
            assert(ctx.actions@.subrange(a0.len() as int, ctx.actions@.len() as int) =~= seq![Action::ReturnStatus(0x04)]);
        }
    }

    /// Key passes the key on (status 4).
    open spec fn key_records(&self, added: Seq<Action>) -> bool {
        added == seq![Action::ReturnStatus(0x04)]
    }

    fn on_key(&self, ctx: &mut KeyContext) {
        let ghost a0 = ctx.actions@;
        ctx.status(Status::raw(0x04));
        proof {
            assert(ctx.actions@.subrange(0, a0.len() as int) =~= a0);
            assert(ctx.actions@.subrange(a0.len() as int, ctx.actions@.len() as int) =~= seq![Action::ReturnStatus(0x04)]);
        }
    }

    /// Identity returns the applet id.
    open spec fn identity_records(&self, added: Seq<Action>) -> bool {
        added == seq![Action::ReturnAppletId]
    }

    fn on_identity(&self, ctx: &mut IdentityContext) {
        let ghost a0 = ctx.actions@;
        ctx.return_applet_id();
        proof {
            assert(ctx.actions@.subrange(0, a0.len() as int) =~= a0);
            assert(ctx.actions@.subrange(a0.len() as int, ctx.actions@.len() as int) =~= seq![Action::ReturnAppletId]);
        }
    }

    /// The Macintosh USB init returns status 0x11.
    open spec fn usb_mac_init_records(&self, added: Seq<Action>) -> bool {
        added == seq![Action::ReturnStatus(0x11)]
    }

    fn on_usb_mac_init(&self, ctx: &mut UsbContext) {
        let ghost a0 = ctx.actions@;
        ctx.status(Status::raw(0x11));
        proof {
            assert(ctx.actions@.subrange(0, a0.len() as int) =~= a0);
            assert(ctx.actions@.subrange(a0.len() as int, ctx.actions@.len() as int) =~= seq![Action::ReturnStatus(0x11)]);
        }
    }

    /// On USB plug it completes the switch to direct mode, marks the direct
    /// connection up and returns status 0x11.
    open spec fn usb_plug_records(&self, added: Seq<Action>) -> bool {
        added == seq![Action::CompleteHidToDirect, Action::MarkDirectConnected, Action::ReturnStatus(0x11)]
    }

    fn on_usb_plug(&self, ctx: &mut UsbContext)
        ensures
            final(ctx).actions@ == old(ctx).actions@.push(Action::CompleteHidToDirect).push(
                Action::MarkDirectConnected,
            ).push(Action::ReturnStatus(0x11)),
    {
        let ghost a0 = ctx.actions@;
        ctx.usb().complete_hid_to_direct();
        ctx.usb().mark_direct_connected();
        ctx.status(Status::raw(0x11));
        proof {
            assert(ctx.actions@.subrange(0, a0.len() as int) =~= a0);
            assert(ctx.actions@.subrange(a0.len() as int, ctx.actions@.len() as int) =~= seq![
                Action::CompleteHidToDirect,
                Action::MarkDirectConnected,
                Action::ReturnStatus(0x11),
            ]);
        }
    }

    /// The PC USB init returns status 0x11.
    open spec fn usb_pc_init_records(&self, added: Seq<Action>) -> bool {
        added == seq![Action::ReturnStatus(0x11)]
    }

    fn on_usb_pc_init(&self, ctx: &mut UsbContext) {
        let ghost a0 = ctx.actions@;
        ctx.status(Status::raw(0x11));
        proof {
            assert(ctx.actions@.subrange(0, a0.len() as int) =~= a0);
            assert(ctx.actions@.subrange(a0.len() as int, ctx.actions@.len() as int) =~= seq![Action::ReturnStatus(0x11)]);
        }
    }

    /// Every other USB message passes on (status 4).
    open spec fn other_usb_records(&self, message: u32, added: Seq<Action>) -> bool {
        added == seq![Action::ReturnStatus(0x04)]
    }

    fn on_other_usb(&self, ctx: &mut SystemContext, message: u32) {
        let ghost a0 = ctx.actions@;
        ctx.status(Status::raw(0x04));
        proof {
            assert(ctx.actions@.subrange(0, a0.len() as int) =~= a0);
            assert(ctx.actions@.subrange(a0.len() as int, ctx.actions@.len() as int) =~= seq![Action::ReturnStatus(0x04)]);
        }
    }
}

/// The definition of Alpha USB.
pub fn define_alpha_usb() -> (r: AppletDefinition)
    ensures
        r.manifest == alpha_usb_manifest(),
        r.handlers@.len() == defined_messages().len(),
        forall|i: int| 0 <= i < r.handlers@.len() ==> (#[trigger] r.handlers@[i]).message == defined_messages()[i],
        holds_hooks(AlphaUsb, r.handlers@),
{
    define(AlphaUsb)
}

/// An applet the build tool can produce, and the file it writes.
#[derive(Clone, Copy, Debug, PartialEq, Eq)]
pub struct AppletPackage {
    pub name: &'static str,
    pub output_filename: &'static str,
}

impl AppletPackage {
    /// The definition of the packaged applet.
    pub fn build(&self) -> (r: AppletDefinition)
        ensures
            r.manifest == alpha_usb_manifest(),
            r.handlers@.len() == defined_messages().len(),
            forall|i: int| 0 <= i < r.handlers@.len() ==> (#[trigger] r.handlers@[i]).message == defined_messages()[i],
            holds_hooks(AlphaUsb, r.handlers@),
    {
        define_alpha_usb()
    }
}

/// The names and output files of the registered applets.
pub open spec fn registry() -> Seq<(Seq<char>, Seq<char>)> {
    seq![("alpha_usb"@, "alpha-usb.os3kapp"@)]
}

/// Every registered applet.
pub fn all() -> (r: Vec<AppletPackage>)
    ensures
        r@.len() == registry().len(),
        forall|i: int| 0 <= i < r@.len() ==> (#[trigger] r@[i]).name@ == registry()[i].0
            && r@[i].output_filename@ == registry()[i].1,
{
    let mut v: Vec<AppletPackage> = Vec::new();
    v.push(AppletPackage { name: "alpha_usb", output_filename: "alpha-usb.os3kapp" });
    v
}

/// The registered applet called `name`.
pub fn find(name: &str) -> (r: Option<AppletPackage>)
    ensures
        match r {
            Some(p) => p.name@ == name@ && exists|i: int| 0 <= i < registry().len()
                && registry()[i].0 == name@ && #[trigger] registry()[i].1 == p.output_filename@,
            None => forall|i: int| 0 <= i < registry().len() ==> (#[trigger] registry()[i]).0 != name@,
        },
{
    let packages = all();
    let mut i: usize = 0;
    while i < packages.len()
        invariant
            i <= packages@.len(),
            packages@.len() == registry().len(),
            forall|k: int| 0 <= k < packages@.len() ==> (#[trigger] packages@[k]).name@ == registry()[k].0
                && packages@[k].output_filename@ == registry()[k].1,
            forall|k: int| 0 <= k < i ==> (#[trigger] registry()[k]).0 != name@,
        decreases packages@.len() - i,
    {
        if text_eq(packages[i].name, name) {
            assert(registry()[i as int].1 == packages@[i as int].output_filename@);
            return Some(packages[i]);
        }
        i = i + 1;
    }
    None
}

} // verus!
