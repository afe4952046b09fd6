//! A small SDK for writing SmartApplets: an applet says, per NEO message,
//! which actions its handler takes, and `define` collects them into an
//! applet definition for the compiler.

use vstd::prelude::*;

verus! {

/// A SmartApplet id.
#[derive(Clone, Copy, Debug, PartialEq, Eq, Structural)]
pub struct AppletId(pub u16);

/// A version in binary-coded decimal.
#[derive(Clone, Copy, Debug, PartialEq, Eq, Structural)]
pub struct Version {
    pub major_bcd: u8,
    pub minor_bcd: u8,
}

impl Version {
    /// A version from its BCD major and minor bytes.
    pub fn new(major: u8, minor: u8) -> (r: Self)
        ensures
            r == (Version { major_bcd: major, minor_bcd: minor }),
    {
        Version { major_bcd: major, minor_bcd: minor }
    }
}

/// The header fields of an applet.
#[derive(Clone, Copy, Debug, PartialEq, Eq)]
pub struct AppletManifest {
    pub id: AppletId,
    pub name: &'static str,
    pub version: Version,
    pub flags: u32,
    pub base_memory_size: u32,
    pub extra_memory_size: u32,
    pub copyright: &'static str,
    pub alphaword_write_metadata: bool,
}

impl AppletManifest {
    /// The manifest of an ordinary applet.
    pub fn basic(id: AppletId, name: &'static str, version: Version) -> (r: Self)
        ensures
            r.id == id,
            r.name == name,
            r.version == version,
            r.flags == 0xFF00_0000u32,
            r.base_memory_size == 0x100,
            r.extra_memory_size == 0,
            r.copyright@ == "neo-re SmartApplet"@,
            !r.alphaword_write_metadata,
    {
        AppletManifest {
            id,
            name,
            version,
            flags: 0xFF00_0000,
            base_memory_size: 0x100,
            extra_memory_size: 0,
            copyright: "neo-re SmartApplet",
            alphaword_write_metadata: false,
        }
    }

    /// The manifest of an applet that bridges USB keyboard mode to direct
    /// mode.
    pub fn alpha_usb_bridge(id: AppletId, name: &'static str, version: Version) -> (r: Self)
        ensures
            r.id == id,
            r.name == name,
            r.version == version,
            r.flags == 0xFF00_00CEu32,
            r.base_memory_size == 0x100,
            r.extra_memory_size == 0x2000,
            r.copyright@ == "neo-re benign SmartApplet probe"@,
            r.alphaword_write_metadata,
    {
        AppletManifest {
            id,
            name,
            version,
            flags: 0xFF00_00CE,
            base_memory_size: 0x100,
            extra_memory_size: 0x2000,
            copyright: "neo-re benign SmartApplet probe",
            alphaword_write_metadata: true,
        }
    }
}

/// An applet: its manifest and one handler per message.
#[derive(Debug, PartialEq, Eq)]
pub struct AppletDefinition {
    pub manifest: AppletManifest,
    pub handlers: Vec<MessageHandler>,
}

/// What an applet does on one message.
#[derive(Debug, PartialEq, Eq)]
pub struct MessageHandler {
    pub message: Message,
    pub actions: Vec<Action>,
}

/// A message the NEO sends an applet.
#[derive(Clone, Copy, Debug, PartialEq, Eq, Structural)]
pub enum Message {
    Init,
    SetFocus,
    Char,
    Key,
    Identity,
    UsbMacInit,
    UsbPlug,
    UsbPcInit,
    OtherUsb(u32),
}

/// A step of a message handler.
#[derive(Debug, PartialEq, Eq)]
pub enum Action {
    ClearScreen,
    WriteLines { start_row: u8, lines: Vec<&'static str> },
    IdleForever,
    ReturnStatus(u8),
    CompleteHidToDirect,
    MarkDirectConnected,
    ReturnAppletId,
    IfKey { key: Key, actions: Vec<Action> },
}

/// A status byte a handler returns.
#[derive(Clone, Copy, Debug, PartialEq, Eq, Structural)]
pub struct Status(u8);

impl Status {
    /// The status byte.
    pub closed spec fn byte(self) -> u8 {
        self.0
    }

    /// A status from its byte.
    pub fn raw(value: u8) -> (r: Self)
        ensures
            r.byte() == value,
    {
        Status(value)
    }

    /// The status byte.
    pub fn value(self) -> (r: u8)
        ensures
            r == self.byte(),
    {
        self.0
    }
}

/// The messages `define` asks an applet about, in order.
pub open spec fn defined_messages() -> Seq<Message> {
    seq![
        Message::Init,
        Message::SetFocus,
        Message::Char,
        Message::Key,
        Message::Identity,
        Message::UsbMacInit,
        Message::UsbPlug,
        Message::UsbPcInit,
        Message::OtherUsb(0x10003),
        Message::OtherUsb(0x10006),
        Message::OtherUsb(0x20002),
        Message::OtherUsb(0x20006),
        Message::OtherUsb(0x2011F),
    ]
}

/// The actions a hook appended to a context that held `before` and now
/// holds `after`, when it kept what was there.
pub open spec fn appended(before: Seq<Action>, after: Seq<Action>) -> Option<Seq<Action>> {
    if after.len() >= before.len() && after.subrange(0, before.len() as int) == before {
        Some(after.subrange(before.len() as int, after.len() as int))
    } else {
        None
    }
}

/// What a hook appends to a fresh context is all the context holds.
proof fn lemma_fresh_appended(after: Seq<Action>)
    ensures
        appended(Seq::empty(), after) == Some(after),
{
    assert(after.subrange(0, 0) =~= Seq::<Action>::empty());
    assert(after.subrange(0, after.len() as int) =~= after);
}

/// A SmartApplet written with the SDK: one hook per message, each of which
/// records the actions of its handler, and for each hook a spec function
/// that says which actions it records.
pub trait NeoApplet {
    /// The applet's header fields.
    spec fn manifest_spec(&self) -> AppletManifest;

    /// The applet's header fields.
    fn manifest(&self) -> (r: AppletManifest)
        ensures
            r == self.manifest_spec();

    /// Whether `added` is what the hook for the Init message records.
    spec fn init_records(&self, added: Seq<Action>) -> bool;

    /// The handler for the Init message: it keeps what the context holds and
    /// appends its actions.
    fn on_init(&self, ctx: &mut SystemContext)
        ensures
            appended(old(ctx).actions@, final(ctx).actions@) matches Some(added) && self.init_records(added);

    /// Whether `added` is what the hook for the SetFocus message records.
    spec fn focus_records(&self, added: Seq<Action>) -> bool;

    /// The handler for the SetFocus message: it keeps what the context holds and
    /// appends its actions.
    fn on_focus(&self, ctx: &mut UiContext)
        ensures
            appended(old(ctx).actions@, final(ctx).actions@) matches Some(added) && self.focus_records(added);

    /// Whether `added` is what the hook for the Char message records.
    spec fn char_records(&self, added: Seq<Action>) -> bool;

    /// The handler for the Char message: it keeps what the context holds and
    /// appends its actions.
    fn on_char(&self, ctx: &mut SystemContext)
        ensures
            appended(old(ctx).actions@, final(ctx).actions@) matches Some(added) && self.char_records(added);

    /// Whether `added` is what the hook for the Key message records.
    spec fn key_records(&self, added: Seq<Action>) -> bool;

    /// The handler for the Key message: it keeps what the context holds and
    /// appends its actions.
    fn on_key(&self, ctx: &mut KeyContext)
        ensures
            appended(old(ctx).actions@, final(ctx).actions@) matches Some(added) && self.key_records(added);

    /// Whether `added` is what the hook for the Identity message records.
    spec fn identity_records(&self, added: Seq<Action>) -> bool;

    /// The handler for the Identity message: it keeps what the context holds and
    /// appends its actions.
    fn on_identity(&self, ctx: &mut IdentityContext)
        ensures
            appended(old(ctx).actions@, final(ctx).actions@) matches Some(added) && self.identity_records(added);

    /// Whether `added` is what the hook for the Macintosh USB init message records.
    spec fn usb_mac_init_records(&self, added: Seq<Action>) -> bool;

    /// The handler for the Macintosh USB init message: it keeps what the context holds and
    /// appends its actions.
    fn on_usb_mac_init(&self, ctx: &mut UsbContext)
        ensures
            appended(old(ctx).actions@, final(ctx).actions@) matches Some(added) && self.usb_mac_init_records(added);

    /// Whether `added` is what the hook for the USB plug message records.
    spec fn usb_plug_records(&self, added: Seq<Action>) -> bool;

    /// The handler for the USB plug message: it keeps what the context holds and
    /// appends its actions.
    fn on_usb_plug(&self, ctx: &mut UsbContext)
        ensures
            appended(old(ctx).actions@, final(ctx).actions@) matches Some(added) && self.usb_plug_records(added);

    /// Whether `added` is what the hook for the PC USB init message records.
    spec fn usb_pc_init_records(&self, added: Seq<Action>) -> bool;

    /// The handler for the PC USB init message: it keeps what the context holds and
    /// appends its actions.
    fn on_usb_pc_init(&self, ctx: &mut UsbContext)
        ensures
            appended(old(ctx).actions@, final(ctx).actions@) matches Some(added) && self.usb_pc_init_records(added);

    /// Whether `added` is what the hook for the other USB message `message`
    /// records.
    spec fn other_usb_records(&self, message: u32, added: Seq<Action>) -> bool;

    /// The handler for the other USB messages.
    fn on_other_usb(&self, ctx: &mut SystemContext, message: u32)
        ensures
            appended(old(ctx).actions@, final(ctx).actions@) matches Some(added) && self.other_usb_records(message, added);
}

/// Whether `hs` holds, in the order of `defined_messages`, what each hook
/// of `a` records on a fresh context.
pub open spec fn holds_hooks<A: NeoApplet>(a: A, hs: Seq<MessageHandler>) -> bool {
    &&& hs.len() == 13
    &&& a.init_records(hs[0].actions@)
    &&& a.focus_records(hs[1].actions@)
    &&& a.char_records(hs[2].actions@)
    &&& a.key_records(hs[3].actions@)
    &&& a.identity_records(hs[4].actions@)
    &&& a.usb_mac_init_records(hs[5].actions@)
    &&& a.usb_plug_records(hs[6].actions@)
    &&& a.usb_pc_init_records(hs[7].actions@)
    &&& forall|k: int| 8 <= k < 13 ==> a.other_usb_records(
        (#[trigger] defined_messages()[k])->OtherUsb_0,
        hs[k].actions@,
    )
}

/// Collects an applet's handlers: one for each of `defined_messages`, in
/// that order, holding the actions its hook recorded.
pub fn define<A: NeoApplet>(applet: A) -> (r: AppletDefinition)
    ensures
        r.manifest == applet.manifest_spec(),
        r.handlers@.len() == defined_messages().len(),
        forall|i: int| 0 <= i < r.handlers@.len() ==> (#[trigger] r.handlers@[i]).message == defined_messages()[i],
        holds_hooks(applet, r.handlers@),
{
    let mut handlers: Vec<MessageHandler> = Vec::new();

    let mut init = SystemContext { actions: Vec::new() };
    applet.on_init(&mut init);
    proof { lemma_fresh_appended(init.actions@); }
    handlers.push(MessageHandler { message: Message::Init, actions: init.actions });

    let mut focus = UiContext { actions: Vec::new() };
    applet.on_focus(&mut focus);
    proof { lemma_fresh_appended(focus.actions@); }
    handlers.push(MessageHandler { message: Message::SetFocus, actions: focus.actions });

    let mut char_ctx = SystemContext { actions: Vec::new() };
    applet.on_char(&mut char_ctx);
    proof { lemma_fresh_appended(char_ctx.actions@); }
    handlers.push(MessageHandler { message: Message::Char, actions: char_ctx.actions });

    let mut key_ctx = KeyContext { actions: Vec::new() };
    applet.on_key(&mut key_ctx);
    proof { lemma_fresh_appended(key_ctx.actions@); }
    handlers.push(MessageHandler { message: Message::Key, actions: key_ctx.actions });

    let mut identity = IdentityContext { actions: Vec::new() };
    applet.on_identity(&mut identity);
    proof { lemma_fresh_appended(identity.actions@); }
    handlers.push(MessageHandler { message: Message::Identity, actions: identity.actions });

    let mut mac = UsbContext { actions: Vec::new() };
    applet.on_usb_mac_init(&mut mac);
    proof { lemma_fresh_appended(mac.actions@); }
    handlers.push(MessageHandler { message: Message::UsbMacInit, actions: mac.actions });

    let mut plug = UsbContext { actions: Vec::new() };
    applet.on_usb_plug(&mut plug);
    proof { lemma_fresh_appended(plug.actions@); }
    handlers.push(MessageHandler { message: Message::UsbPlug, actions: plug.actions });

    let mut pc = UsbContext { actions: Vec::new() };
    applet.on_usb_pc_init(&mut pc);
    proof { lemma_fresh_appended(pc.actions@); }
    handlers.push(MessageHandler { message: Message::UsbPcInit, actions: pc.actions });

    let others: [u32; 5] = [0x10003, 0x10006, 0x20002, 0x20006, 0x2011F];
    let mut k: usize = 0;
    while k < 5
        invariant
            k <= 5,
            others@ == seq![0x10003u32, 0x10006, 0x20002, 0x20006, 0x2011F],
            handlers@.len() == 8 + k,
            forall|i: int| 0 <= i < handlers@.len() ==> (#[trigger] handlers@[i]).message == defined_messages()[i],
            applet.init_records(handlers@[0].actions@),
            applet.focus_records(handlers@[1].actions@),
            applet.char_records(handlers@[2].actions@),
            applet.key_records(handlers@[3].actions@),
            applet.identity_records(handlers@[4].actions@),
            applet.usb_mac_init_records(handlers@[5].actions@),
            applet.usb_plug_records(handlers@[6].actions@),
            applet.usb_pc_init_records(handlers@[7].actions@),
            forall|j: int| 8 <= j < 8 + k ==> applet.other_usb_records(
                (#[trigger] defined_messages()[j])->OtherUsb_0,
                handlers@[j].actions@,
            ),
        decreases 5 - k,
    {
        let mut other = SystemContext { actions: Vec::new() };
        applet.on_other_usb(&mut other, others[k]);
        proof { lemma_fresh_appended(other.actions@); }
        let ghost before = handlers@;
        handlers.push(MessageHandler { message: Message::OtherUsb(others[k]), actions: other.actions });
        proof {
            assert(defined_messages()[8 + k as int] == Message::OtherUsb(others@[k as int]));
            assert forall|j: int| 0 <= j < before.len() implies handlers@[j] == before[j] by {}
        }
        k = k + 1;
    }
    AppletDefinition { manifest: applet.manifest(), handlers }
}

/// The actions of a handler that only returns a status.
pub struct SystemContext {
    pub actions: Vec<Action>,
}

impl SystemContext {
    /// Returns `status` from the handler.
    pub fn status(&mut self, status: Status)
        ensures
            final(self).actions@ == old(self).actions@.push(Action::ReturnStatus(status.byte())),
    {
        self.actions.push(Action::ReturnStatus(status.value()));
    }
}

/// The actions of a handler that may draw on the screen.
pub struct UiContext {
    pub actions: Vec<Action>,
}

impl UiContext {
    /// The screen operations of the handler.
    pub fn screen(&mut self) -> (r: Screen<'_>)
        ensures
            *r.actions == old(self).actions,
            final(self).actions == *final(r.actions),
    {
        Screen { actions: &mut self.actions }
    }

    /// The event-loop operations of the handler.
    pub fn events(&mut self) -> (r: Events<'_>)
        ensures
            *r.actions == old(self).actions,
            final(self).actions == *final(r.actions),
    {
        Events { actions: &mut self.actions }
    }

    /// Returns `status` from the handler.
    pub fn status(&mut self, status: Status)
        ensures
            final(self).actions@ == old(self).actions@.push(Action::ReturnStatus(status.byte())),
    {
        self.actions.push(Action::ReturnStatus(status.value()));
    }
}

/// Screen operations, recorded into a handler.
pub struct Screen<'a> {
    pub actions: &'a mut Vec<Action>,
}

impl<'a> Screen<'a> {
    /// Clears the screen.
    pub fn clear(self)
        ensures
            final(self.actions)@ == old(self.actions)@.push(Action::ClearScreen),
    {
        self.actions.push(Action::ClearScreen);
    }

    /// Writes one line per row, starting at `start_row`.
    pub fn write_lines<const N: usize>(self, start_row: u8, lines: [&'static str; N])
        ensures
            final(self.actions)@.len() == old(self.actions)@.len() + 1,
            final(self.actions)@.drop_last() == old(self.actions)@,
            final(self.actions)@.last() matches Action::WriteLines { start_row: s, lines: l }
                && s == start_row && l@ == lines@,
    {
        let mut v: Vec<&'static str> = Vec::new();
        let mut i: usize = 0;
        while i < N
            invariant
                i <= N,
                N == lines@.len(),
                v@ == lines@.subrange(0, i as int),
            decreases N - i,
        {
            v.push(lines[i]);
            i = i + 1;
            assert(v@ =~= lines@.subrange(0, i as int));
        }
        assert(lines@.subrange(0, N as int) =~= lines@);
        let ghost before = self.actions@;
        self.actions.push(Action::WriteLines { start_row, lines: v });
        assert(self.actions@.drop_last() =~= before);
    }
}

/// Event-loop operations, recorded into a handler.
pub struct Events<'a> {
    pub actions: &'a mut Vec<Action>,
}

impl<'a> Events<'a> {
    /// Yields to the system forever.
    pub fn idle_forever(self)
        ensures
            final(self.actions)@ == old(self.actions)@.push(Action::IdleForever),
    {
        self.actions.push(Action::IdleForever);
    }
}

/// A key the NEO reports with the Key message.
#[derive(Clone, Copy, Debug, PartialEq, Eq, Structural)]
pub enum Key {
    Esc,
    Raw(u32),
}

/// The code the NEO reports for a key.
pub open spec fn key_code(k: Key) -> u32 {
    match k {
        Key::Esc => 0x48,
        Key::Raw(v) => v,
    }
}

impl Key {
    /// The code the NEO reports for the key.
    pub fn raw_value(self) -> (r: u32)
        ensures
            r == key_code(self),
    {
        match self {
            Key::Esc => 0x48,
            Key::Raw(value) => value,
        }
    }
}

/// The actions of a handler for the Key message.
pub struct KeyContext {
    pub actions: Vec<Action>,
}

impl KeyContext {
    /// Records actions taken only for `key`: `build` fills a fresh context
    /// with them.
    pub fn when_key<F: FnOnce(SystemContext) -> SystemContext>(&mut self, key: Key, build: F)
        requires
            forall|c: SystemContext| call_requires(build, (c,)),
        ensures
            final(self).actions@.len() == old(self).actions@.len() + 1,
            final(self).actions@.drop_last() == old(self).actions@,
            final(self).actions@.last() matches Action::IfKey { key: k, .. } && k == key,
    {
        let nested = build(SystemContext { actions: Vec::new() });
        let ghost before = self.actions@;
        self.actions.push(Action::IfKey { key, actions: nested.actions });
        assert(self.actions@.drop_last() =~= before);
    }

    /// Returns `status` from the handler.
    pub fn status(&mut self, status: Status)
        ensures
            final(self).actions@ == old(self).actions@.push(Action::ReturnStatus(status.byte())),
    {
        self.actions.push(Action::ReturnStatus(status.value()));
    }
}

/// The actions of a handler for a USB message.
pub struct UsbContext {
    pub actions: Vec<Action>,
}

impl UsbContext {
    /// The USB operations of the handler.
    pub fn usb(&mut self) -> (r: Usb<'_>)
        ensures
            *r.actions == old(self).actions,
            final(self).actions == *final(r.actions),
    {
        Usb { actions: &mut self.actions }
    }

    /// Returns `status` from the handler.
    pub fn status(&mut self, status: Status)
        ensures
            final(self).actions@ == old(self).actions@.push(Action::ReturnStatus(status.byte())),
    {
        self.actions.push(Action::ReturnStatus(status.value()));
    }
}

/// USB operations, recorded into a handler.
pub struct Usb<'a> {
    pub actions: &'a mut Vec<Action>,
}

impl<'a> Usb<'a> {
    /// Completes the switch from keyboard mode to direct mode.
    pub fn complete_hid_to_direct(self)
        ensures
            final(self.actions)@ == old(self.actions)@.push(Action::CompleteHidToDirect),
    {
        self.actions.push(Action::CompleteHidToDirect);
    }

    /// Tells the system the direct connection is up.
    pub fn mark_direct_connected(self)
        ensures
            final(self.actions)@ == old(self.actions)@.push(Action::MarkDirectConnected),
    {
        self.actions.push(Action::MarkDirectConnected);
    }
}

/// The actions of a handler for the Identity message.
pub struct IdentityContext {
    pub actions: Vec<Action>,
}

impl IdentityContext {
    /// Returns the applet id.
    pub fn return_applet_id(&mut self)
        ensures
            final(self).actions@ == old(self).actions@.push(Action::ReturnAppletId),
    {
        self.actions.push(Action::ReturnAppletId);
    }
}

} // verus!
