//! The clipboard on the X side: owning selections for clients, and fetching
//! what other windows put there.

use crate::input::clipboard;
use crate::input::clipboard::{cap_clipboard_text, CLIPBOARD_TEXT_CAP};
use crate::rfb::message;
use crate::text;
use crate::text::from_utf8_lossy;
use vstd::prelude::*;

verus! {

/// No window, no atom.
pub const X_NONE: u32 = 0;

/// The time that stands for now.
pub const X_CURRENT_TIME: u32 = 0;

/// The names of what the bridge talks about, as numbers of the X server.
#[derive(Debug, Clone, Copy, PartialEq, Eq, Structural)]
pub struct ClipboardAtoms {
    pub clipboard: u32,
    pub primary: u32,
    pub utf8: u32,
    pub targets: u32,
    pub text: u32,
    pub timestamp: u32,
    pub incr: u32,
    pub property: u32,
    pub string: u32,
}

/// One display's clipboard agent.
#[derive(Debug)]
pub struct X11ClipboardBridge {
    pub window: u32,
    pub atoms: ClipboardAtoms,
    /// The text offered to other windows.
    pub held: String,
    /// A text was asked for in UTF-8 and has not come yet.
    pub pending_utf8: bool,
}

/// What to do about an answer to a request for the clipboard.
#[derive(Debug, Clone, Copy, PartialEq, Eq, Structural)]
pub enum ConvertAction {
    Ignore,
    /// Ask again, for a plain string.
    AskForString,
    /// Read the text from this property, then delete it.
    Read(u32),
}

/// A request of another window for the selection.
#[derive(Debug, Clone, Copy)]
pub struct SelectionRequest {
    pub time: u32,
    pub requestor: u32,
    pub selection: u32,
    pub target: u32,
    pub property: u32,
}

/// What is put into the property of the window that asked.
#[derive(Debug)]
pub enum SelectionData {
    /// The kinds of data on offer.
    Atoms(Vec<u32>),
    /// A time.
    Time(u32),
    /// A text, of the given type.
    Text(u32, Vec<u8>),
    /// Nothing: the kind asked for is not on offer.
    Refused,
}

/// What is put into the property, over mathematical values.
pub enum DataView {
    Atoms(Seq<u32>),
    Time(u32),
    Text(u32, Seq<u8>),
    Refused,
}

impl View for SelectionData {
    type V = DataView;

    open spec fn view(&self) -> DataView {
        match *self {
            SelectionData::Atoms(a) => DataView::Atoms(a@),
            SelectionData::Time(t) => DataView::Time(t),
            SelectionData::Text(ty, b) => DataView::Text(ty, b@),
            SelectionData::Refused => DataView::Refused,
        }
    }
}

/// The answer to a request for the selection.
#[derive(Debug)]
pub struct SelectionReply {
    /// The property to fill.
    pub property: u32,
    pub data: SelectionData,
    /// The property to name in the notice: none where the request was refused.
    pub notify_property: u32,
}

/// The property that a request is answered in: its target where it names none.
pub open spec fn reply_property(req: SelectionRequest) -> u32 {
    if req.property == X_NONE {
        req.target
    } else {
        req.property
    }
}

impl X11ClipboardBridge {
    pub fn new(window: u32, atoms: ClipboardAtoms) -> (r: Self)
        ensures
            r.window == window,
            r.atoms == atoms,
            r.held@ == Seq::<char>::empty(),
            !r.pending_utf8,
    {
        X11ClipboardBridge { window, atoms, held: String::new(), pending_utf8: false }
    }

    /// Takes over a client's text. Returns the selections to own for it, in
    /// order: CLIPBOARD, then PRIMARY.
    pub fn own_from_client(&mut self, text: &str) -> (selections: [u32; 2])
        ensures
            final(self).held@ == text@,
            final(self).window == old(self).window,
            final(self).atoms == old(self).atoms,
            final(self).pending_utf8 == old(self).pending_utf8,
            selections@ == seq![old(self).atoms.clipboard, old(self).atoms.primary],
    {
        self.held = text.to_owned();
        let selections = [self.atoms.clipboard, self.atoms.primary];
        assert(selections@ =~= seq![self.atoms.clipboard, self.atoms.primary]);
        selections
    }

    /// Whether to ask for the text after the owner of a selection has changed.
    pub open spec fn asks(&self, selection: u32, owner: u32) -> bool {
        selection == self.atoms.clipboard && owner != self.window && owner != X_NONE
    }

    /// Whether an answer is one to a request for the clipboard made here.
    pub open spec fn is_ours(&self, requestor: u32, selection: u32) -> bool {
        requestor == self.window && selection == self.atoms.clipboard
    }

    /// What to do about an answer.
    pub open spec fn on_answer(
        &self,
        requestor: u32,
        selection: u32,
        property: u32,
    ) -> ConvertAction {
        if !self.is_ours(requestor, selection) {
            ConvertAction::Ignore
        } else if property != X_NONE {
            ConvertAction::Read(property)
        } else if self.pending_utf8 {
            ConvertAction::AskForString
        } else {
            ConvertAction::Ignore
        }
    }

    /// The owner of a selection has changed. Returns whether to ask for the
    /// text: where another window now owns the clipboard.
    pub fn handle_xfixes_notify(&mut self, selection: u32, owner: u32) -> (ask: bool)
        ensures
            ask == old(self).asks(selection, owner),
            *final(self) == (X11ClipboardBridge {
                pending_utf8: ask || old(self).pending_utf8,
                ..*old(self)
            }),
    {
        if selection != self.atoms.clipboard || owner == self.window || owner == X_NONE {
            return false;
        }
        self.pending_utf8 = true;
        true
    }

    /// The text could not be asked for.
    pub fn ask_failed(&mut self)
        ensures
            *final(self) == (X11ClipboardBridge { pending_utf8: false, ..*old(self) }),
    {
        self.pending_utf8 = false;
    }

    /// An answer to the request for the text has come. Where there is no text
    /// in UTF-8, a plain string is asked for, once.
    pub fn handle_convert_notify(
        &mut self,
        requestor: u32,
        selection: u32,
        property: u32,
    ) -> (action: ConvertAction)
        ensures
            action == old(self).on_answer(requestor, selection, property),
            *final(self) == (X11ClipboardBridge {
                pending_utf8: old(self).pending_utf8 && !old(self).is_ours(requestor, selection),
                ..*old(self)
            }),
    {
        if requestor != self.window || selection != self.atoms.clipboard {
            return ConvertAction::Ignore;
        }
        if property == X_NONE {
            if self.pending_utf8 {
                self.pending_utf8 = false;
                return ConvertAction::AskForString;
            }
            return ConvertAction::Ignore;
        }
        self.pending_utf8 = false;
        ConvertAction::Read(property)
    }

    /// The text in a property, given its type and bytes; `None` for a transfer
    /// in parts, which is not supported. The text is cut to what the clipboard
    /// keeps.
    pub fn read_property_text(&self, type_: u32, value: &[u8]) -> (r: Option<String>)
        ensures
            r is None == (type_ == self.atoms.incr),
            r matches Some(t) ==> t@ == if value@.len() == 0 {
                Seq::<char>::empty()
            } else {
                clipboard::capped(text::utf8_lossy(value@))
            },
            r matches Some(t) ==> vstd::utf8::valid_utf8(value@) && value@.len() > 0 ==> t@
                == clipboard::capped(vstd::utf8::decode_utf8(value@)),
    {
        if type_ == self.atoms.incr {
            return None;
        }
        if value.len() == 0 {
            return Some(String::new());
        }
        Some(cap_clipboard_text(from_utf8_lossy(value)))
    }

    /// What is offered for a target.
    pub open spec fn offer(&self, target: u32) -> DataView {
        if target == self.atoms.targets {
            DataView::Atoms(
                seq![
                    self.atoms.targets,
                    self.atoms.timestamp,
                    self.atoms.utf8,
                    self.atoms.string,
                    self.atoms.text,
                ],
            )
        } else if target == self.atoms.timestamp {
            DataView::Time(X_CURRENT_TIME)
        } else if target == self.atoms.utf8 || target == self.atoms.string || target
            == self.atoms.text {
            DataView::Text(
                if target == self.atoms.string {
                    self.atoms.string
                } else {
                    self.atoms.utf8
                },
                vstd::utf8::encode_utf8(self.held@),
            )
        } else {
            DataView::Refused
        }
    }

    /// Answers a request for the selection: with the kinds of data on offer,
    /// the time, or the text held; anything else is refused.
    pub fn handle_selection_request(&self, req: &SelectionRequest) -> (r: SelectionReply)
        ensures
            r.property == reply_property(*req),
            r.data@ == self.offer(req.target),
            r.notify_property == if self.offer(req.target) is Refused {
                X_NONE
            } else {
                reply_property(*req)
            },
    {
        let property: u32 = if req.property == X_NONE {
            req.target
        } else {
            req.property
        };
        if req.target == self.atoms.targets {
            let mut targets: Vec<u32> = Vec::new();
            targets.push(self.atoms.targets);
            targets.push(self.atoms.timestamp);
            targets.push(self.atoms.utf8);
            targets.push(self.atoms.string);
            targets.push(self.atoms.text);
            assert(targets@ =~= self.offer(req.target)->Atoms_0);
            SelectionReply {
                property,
                data: SelectionData::Atoms(targets),
                notify_property: property,
            }
        } else if req.target == self.atoms.timestamp {
            SelectionReply {
                property,
                data: SelectionData::Time(X_CURRENT_TIME),
                notify_property: property,
            }
        } else if req.target == self.atoms.utf8 || req.target == self.atoms.string || req.target
            == self.atoms.text {
            let ty: u32 = if req.target == self.atoms.string {
                self.atoms.string
            } else {
                self.atoms.utf8
            };
            let mut bytes: Vec<u8> = Vec::new();
            bytes.extend_from_slice(self.held.as_str().as_bytes());
            assert(bytes@ =~= vstd::utf8::encode_utf8(self.held@));
            SelectionReply {
                property,
                data: SelectionData::Text(ty, bytes),
                notify_property: property,
            }
        } else {
            SelectionReply { property, data: SelectionData::Refused, notify_property: X_NONE }
        }
    }
}

/// Another window that asks for the text in UTF-8 gets the client's text: what
/// it receives decodes to the text held.
pub proof fn law_offered_text_is_held_text(b: X11ClipboardBridge)
    requires
        b.atoms.utf8 != b.atoms.targets,
        b.atoms.utf8 != b.atoms.timestamp,
        b.atoms.utf8 != b.atoms.string,
    ensures
        b.offer(b.atoms.utf8) matches DataView::Text(ty, bytes) && ty == b.atoms.utf8
            && vstd::utf8::decode_utf8(bytes) == b.held@,
{
    vstd::utf8::encode_utf8_decode_utf8(b.held@);
}

/// The way from a client to the desktop loses nothing: text that is valid
/// UTF-8 and fits in the clipboard is offered byte for byte as the client sent
/// it.
pub proof fn law_client_text_reaches_the_desktop(b: X11ClipboardBridge, sent: Seq<u8>)
    requires
        b.atoms.utf8 != b.atoms.targets,
        b.atoms.utf8 != b.atoms.timestamp,
        b.atoms.utf8 != b.atoms.string,
        vstd::utf8::valid_utf8(sent),
        sent.len() <= CLIPBOARD_TEXT_CAP,
        b.held@ == clipboard::capped(vstd::utf8::decode_utf8(sent)),
    ensures
        b.offer(b.atoms.utf8) == DataView::Text(b.atoms.utf8, sent),
{
    vstd::utf8::decode_utf8_encode_utf8(sent);
    clipboard::law_fitting_text_is_kept(vstd::utf8::decode_utf8(sent));
}

/// The way from the desktop to the clients loses nothing: text that is valid
/// UTF-8 and fits in the clipboard, cut when it is read and again when it is
/// kept, is sent on byte for byte.
pub proof fn law_desktop_text_reaches_the_clients(value: Seq<u8>)
    requires
        vstd::utf8::valid_utf8(value),
        value.len() <= CLIPBOARD_TEXT_CAP,
    ensures
        message::server_cut_text_bytes(
            vstd::utf8::encode_utf8(
                clipboard::capped(clipboard::capped(vstd::utf8::decode_utf8(value))),
            ),
        ) == message::server_cut_text_bytes(value),
{
    vstd::utf8::decode_utf8_encode_utf8(value);
    clipboard::law_fitting_text_is_kept(vstd::utf8::decode_utf8(value));
}

/// What other windows are offered: the list of kinds, each of which, asked for,
/// is not refused; the text, as bytes that decode to it, under each of its three
/// kinds, plain strings as such and the others as UTF-8; and nothing else.
pub proof fn law_what_is_offered(b: X11ClipboardBridge, target: u32)
    requires
        b.atoms.targets != b.atoms.timestamp,
        b.atoms.targets != b.atoms.utf8,
        b.atoms.targets != b.atoms.string,
        b.atoms.targets != b.atoms.text,
        b.atoms.timestamp != b.atoms.utf8,
        b.atoms.timestamp != b.atoms.string,
        b.atoms.timestamp != b.atoms.text,
        b.atoms.utf8 != b.atoms.string,
        b.atoms.text != b.atoms.string,
    ensures
        b.offer(b.atoms.targets) matches DataView::Atoms(kinds) && (kinds.contains(target)
            <==> !(b.offer(target) is Refused)),
        b.offer(b.atoms.timestamp) == DataView::Time(0),
        b.offer(target) matches DataView::Text(ty, bytes) ==> {
            &&& target == b.atoms.utf8 || target == b.atoms.string || target == b.atoms.text
            &&& ty == if target == b.atoms.string {
                b.atoms.string
            } else {
                b.atoms.utf8
            }
            &&& vstd::utf8::decode_utf8(bytes) == b.held@
        },
        target == b.atoms.utf8 || target == b.atoms.string || target == b.atoms.text ==> b.offer(
            target,
        ) is Text,
{
    vstd::utf8::encode_utf8_decode_utf8(b.held@);
    let kinds = b.offer(b.atoms.targets)->Atoms_0;
    assert(kinds[0] == b.atoms.targets);
    assert(kinds[1] == b.atoms.timestamp);
    assert(kinds[2] == b.atoms.utf8);
    assert(kinds[3] == b.atoms.string);
    assert(kinds[4] == b.atoms.text);
}

/// A request is answered in the property that it names, or, where it names none,
/// in that of its target.
pub proof fn law_where_a_request_is_answered(req: SelectionRequest)
    ensures
        req.property != 0 ==> reply_property(req) == req.property,
        req.property == 0 ==> reply_property(req) == req.target,
{
}

/// The clipboard is fetched from other windows and never from the bridge itself:
/// not where the bridge owns it, nobody does, or it is another selection.
pub proof fn law_what_is_fetched(b: X11ClipboardBridge, selection: u32, owner: u32)
    ensures
        b.asks(selection, owner) ==> selection == b.atoms.clipboard,
        !b.asks(selection, b.window),
        !b.asks(selection, 0),
        owner != b.window && owner != 0 ==> b.asks(b.atoms.clipboard, owner),
{
}

/// An answer that names a property is read from it; one that names none, to a
/// request for UTF-8, leads to one more request, for a plain string, and after
/// that to nothing. Answers to others are left alone.
pub proof fn law_answers_are_read(
    b: X11ClipboardBridge,
    later: X11ClipboardBridge,
    requestor: u32,
    selection: u32,
    property: u32,
)
    requires
        later.window == b.window,
        later.atoms == b.atoms,
        later.pending_utf8 == (b.pending_utf8 && !b.is_ours(b.window, b.atoms.clipboard)),
    ensures
        property != 0 ==> b.on_answer(b.window, b.atoms.clipboard, property)
            == ConvertAction::Read(property),
        b.pending_utf8 ==> b.on_answer(b.window, b.atoms.clipboard, 0)
            == ConvertAction::AskForString,
        later.on_answer(b.window, b.atoms.clipboard, 0) == ConvertAction::Ignore,
        requestor != b.window || selection != b.atoms.clipboard ==> b.on_answer(
            requestor,
            selection,
            property,
        ) == ConvertAction::Ignore,
{
}

} // verus!
