//! Capture: picks the richest format of a clipboard snapshot, suppresses
//! repeated notifications of the same content, and hands events on.

use crate::hash::{compute_hash, fingerprint};
use crate::persist::{
    blob_name, image_stored, joined, json_encoding, text_hash, upserted, ClipType, StoreError, Storage,
};
use crate::text::trimmed;
use crossbeam_channel::Sender;
use vstd::prelude::*;

verus! {

/// The window, in milliseconds, within which the same content seen again is
/// taken as a repeated notification.
pub const DEBOUNCE_MS: u64 = 500;

/// One captured clipboard payload, or a failure to read the clipboard.
#[derive(Debug)]
pub enum ClipEvent {
    Text(String),
    Image(Vec<u8>),
    Html(String),
    FileList(Vec<String>),
    Error(String),
}

/// What the clipboard offered in each format at one moment.
#[derive(Debug)]
pub struct ClipSnapshot {
    pub html: Option<String>,
    pub text: Option<String>,
    pub image: Option<Vec<u8>>,
    pub files: Option<Vec<String>>,
}

#[verifier::external_type_specification]
#[verifier::external_body]
#[verifier::reject_recursive_types(T)]
pub struct ExSender<T>(Sender<T>);

/// Relies on crossbeam's `Sender::try_send`: hands the event on without
/// waiting, and drops it where the channel is full or closed.
#[verifier::external_body]
fn offer(sender: &Sender<ClipEvent>, ev: ClipEvent) -> (sent: bool) {
    sender.try_send(ev).is_ok()
}

/// The bytes that identify a payload: UTF-8 for markup and text, the raw
/// bytes of an image, the paths one per line for a file list.
pub open spec fn canonical_bytes(ev: ClipEvent) -> Seq<u8> {
    match ev {
        ClipEvent::Html(h) => vstd::utf8::encode_utf8(h@),
        ClipEvent::Text(t) => vstd::utf8::encode_utf8(t@),
        ClipEvent::Image(b) => b@,
        ClipEvent::FileList(p) => vstd::utf8::encode_utf8(joined(p.deep_view())),
        ClipEvent::Error(e) => vstd::utf8::encode_utf8(e@),
    }
}

/// The payload of the first format present, in the order HTML, text, image,
/// file list.
pub open spec fn classified(snap: ClipSnapshot, ev: Option<ClipEvent>) -> bool {
    if snap.html is Some {
        ev == Some(ClipEvent::Html(snap.html->Some_0))
    } else if snap.text is Some {
        ev == Some(ClipEvent::Text(snap.text->Some_0))
    } else if snap.image is Some {
        ev == Some(ClipEvent::Image(snap.image->Some_0))
    } else if snap.files is Some {
        ev == Some(ClipEvent::FileList(snap.files->Some_0))
    } else {
        ev is None
    }
}

/// Picks the payload of the richest format present in a snapshot.
pub fn classify(snap: ClipSnapshot) -> (r: Option<ClipEvent>)
    ensures
        classified(snap, r),
{
    match snap.html {
        Some(h) => Some(ClipEvent::Html(h)),
        None => match snap.text {
            Some(t) => Some(ClipEvent::Text(t)),
            None => match snap.image {
                Some(b) => Some(ClipEvent::Image(b)),
                None => match snap.files {
                    Some(f) => Some(ClipEvent::FileList(f)),
                    None => None,
                },
            },
        },
    }
}

/// The bytes that identify an event's payload (see `canonical_bytes`).
pub fn payload_bytes(ev: &ClipEvent) -> (r: Vec<u8>)
    ensures
        r@ == canonical_bytes(*ev),
{
    match ev {
        ClipEvent::Html(h) => h.as_str().as_bytes_vec(),
        ClipEvent::Text(t) => t.as_str().as_bytes_vec(),
        ClipEvent::Image(b) => {
            let c = b.clone();
            proof {
                assert(c@ =~= b@);
            }
            c
        },
        ClipEvent::FileList(p) => crate::persist::join_lines(p).as_str().as_bytes_vec(),
        ClipEvent::Error(e) => e.as_str().as_bytes_vec(),
    }
}

/// Content with fingerprint `h` seen at `now` is new: either the last
/// content differs, or at least the window has passed since it was seen.
/// A clock reading earlier than the last one counts as no time passed.
pub open spec fn emits(last_hash: Seq<char>, last_ms: u64, h: Seq<char>, now: u64) -> bool {
    let elapsed: int = if now >= last_ms { now - last_ms } else { 0 };
    !(last_hash == h && elapsed < DEBOUNCE_MS)
}

/// A capture of `snap` at `now` by a listener whose last content had
/// fingerprint `h0`, let through at `t0`, gives `r` and leaves `h1`, `t1`:
/// the payload of the richest format present is let through and becomes the
/// last content if it is new (see `emits`), and is dropped otherwise; a
/// snapshot with no format gives an error event. Only a payload let through
/// changes the last content.
pub open spec fn captured(snap: ClipSnapshot, now: u64, h0: Seq<char>, t0: u64, h1: Seq<char>, t1: u64, r: Option<ClipEvent>) -> bool {
    exists|ev: Option<ClipEvent>| #[trigger] classified(snap, ev) && match ev {
        None => r is Some && r->Some_0 is Error && r->Some_0->Error_0@ == "no supported clipboard format"@
            && h1 == h0 && t1 == t0,
        Some(e) => {
            let h = fingerprint(canonical_bytes(e));
            if emits(h0, t0, h, now) {
                r == Some(e) && h1 == h && t1 == now
            } else {
                r is None && h1 == h0 && t1 == t0
            }
        },
    }
}

/// What a listener does on one notification (see `captured`): a failed
/// read with message `m` gives the event `Error(m)` and changes nothing.
pub open spec fn notified(snap: Result<ClipSnapshot, String>, now: u64, h0: Seq<char>, t0: u64, h1: Seq<char>, t1: u64, r: Option<ClipEvent>) -> bool {
    match snap {
        Err(m) => r == Some(ClipEvent::Error(m)) && h1 == h0 && t1 == t0,
        Ok(s) => captured(s, now, h0, t0, h1, t1, r),
    }
}

/// The listener: the channel it hands events to, and the fingerprint and
/// time (in milliseconds) of the last content it let through.
pub struct SystemHook {
    pub sender: Sender<ClipEvent>,
    last_hash: String,
    last_update: u64,
}

impl SystemHook {
    /// The fingerprint of the last content let through.
    pub closed spec fn last_hash(&self) -> Seq<char> {
        self.last_hash@
    }

    /// The channel events are handed to.
    pub closed spec fn channel(&self) -> Sender<ClipEvent> {
        self.sender
    }

    /// When the last content was let through.
    pub closed spec fn last_update(&self) -> u64 {
        self.last_update
    }

    /// A listener that has let nothing through yet, created at `now_ms`.
    pub fn new(sender: Sender<ClipEvent>, now_ms: u64) -> (r: SystemHook)
        ensures
            r.last_hash().len() == 0,
            r.last_update() == now_ms,
            r.channel() == sender,
    {
        SystemHook { sender, last_hash: String::new(), last_update: now_ms }
    }

    /// Whether `data`, seen at `now_ms`, is new content; if so it becomes
    /// the last content seen.
    pub fn update_latest(&mut self, data: &[u8], now_ms: u64) -> (r: bool)
        ensures
            r == emits(old(self).last_hash(), old(self).last_update(), fingerprint(data@), now_ms),
            r ==> final(self).last_hash() == fingerprint(data@) && final(self).last_update() == now_ms,
            !r ==> final(self).last_hash() == old(self).last_hash() && final(self).last_update() == old(self).last_update(),
            old(self).last_hash().len() == 0 ==> r,
            final(self).channel() == old(self).channel(),
    {
        let hash = compute_hash(data);
        let elapsed: u64 = if now_ms >= self.last_update { now_ms - self.last_update } else { 0 };
        if self.last_hash == hash && elapsed < DEBOUNCE_MS {
            return false;
        }
        self.last_hash = hash;
        self.last_update = now_ms;
        true
    }

    /// The event to hand on for a snapshot taken at `now_ms`: the payload of
    /// its richest format, unless that is a repeat within the window; an
    /// error event where the snapshot holds no format.
    pub fn capture(&mut self, snap: ClipSnapshot, now_ms: u64) -> (r: Option<ClipEvent>)
        ensures
            captured(snap, now_ms, old(self).last_hash(), old(self).last_update(), final(self).last_hash(), final(self).last_update(), r),
            final(self).channel() == old(self).channel(),
    {
        let picked = classify(snap);
        match picked {
            None => {
                proof {
                    reveal_strlit("no supported clipboard format");
                }
                Some(ClipEvent::Error(String::from_str("no supported clipboard format")))
            },
            Some(ev) => {
                let bytes = payload_bytes(&ev);
                if self.update_latest(bytes.as_slice(), now_ms) {
                    Some(ev)
                } else {
                    None
                }
            },
        }
    }

    /// The event to hand on for one change notification: an error event
    /// with the message of a failed read, else what `capture` gives.
    pub fn event_for(&mut self, snap: Result<ClipSnapshot, String>, now_ms: u64) -> (r: Option<ClipEvent>)
        ensures
            notified(snap, now_ms, old(self).last_hash(), old(self).last_update(), final(self).last_hash(), final(self).last_update(), r),
            final(self).channel() == old(self).channel(),
    {
        match snap {
            Err(message) => Some(ClipEvent::Error(message)),
            Ok(s) => self.capture(s, now_ms),
        }
    }

    /// Handles one change notification: offers the event of `event_for` to
    /// the channel, without waiting. Returns whether the channel took it.
    pub fn on_clipboard_change(&mut self, snap: Result<ClipSnapshot, String>, now_ms: u64) -> (sent: bool)
        ensures
            exists|ev: Option<ClipEvent>|
                #[trigger] notified(snap, now_ms, old(self).last_hash(), old(self).last_update(), final(self).last_hash(), final(self).last_update(), ev)
                    && (ev is None ==> !sent),
            final(self).channel() == old(self).channel(),
    {
        match self.event_for(snap, now_ms) {
            Some(ev) => offer(&self.sender, ev),
            None => false,
        }
    }
}

/// Two captures of the same content, the first of them new: a second one
/// less than the window after the first is suppressed, one at least the
/// window after it is let through.
pub proof fn lemma_debounce_window(last_hash: Seq<char>, last_ms: u64, data: Seq<u8>, t1: u64, t2: u64)
    requires
        emits(last_hash, last_ms, fingerprint(data), t1),
        t1 <= t2,
    ensures
        t2 - t1 < DEBOUNCE_MS ==> !emits(fingerprint(data), t1, fingerprint(data), t2),
        t2 - t1 >= DEBOUNCE_MS ==> emits(fingerprint(data), t1, fingerprint(data), t2),
{
}

/// Routes one event into the store: text, HTML (its markup doubling as its
/// searchable text), image and file list each go to their `add_*` operation
/// at time `now`; a capture failure stores nothing and gives `None`.
pub fn dispatch(storage: &mut Storage, ev: ClipEvent, now: i64) -> (r: Option<Result<i64, StoreError>>)
    requires
        old(storage).wf(),
    ensures
        final(storage).wf(),
        ev is Error ==> (r is None && *final(storage) == *old(storage)),
        ev is Text ==> (r is Some && (trimmed(ev->Text_0@).len() == 0 ==> r == Some(Ok::<i64, StoreError>(0)) && *final(storage) == *old(storage))
            && (trimmed(ev->Text_0@).len() > 0 ==> upserted(old(storage).records(), final(storage).records(), old(storage).next_id(), final(storage).next_id(), ClipType::Text, text_hash(trimmed(ev->Text_0@)), now, Some(trimmed(ev->Text_0@)), None, None, None, r->Some_0))),
        ev is Html ==> (r is Some && upserted(old(storage).records(), final(storage).records(), old(storage).next_id(), final(storage).next_id(), ClipType::Html, text_hash(ev->Html_0@), now, Some(ev->Html_0@), Some(ev->Html_0@), None, None, r->Some_0)),
        ev is Image ==> (r is Some && image_stored(old(storage).records(), old(storage).blobs(), final(storage).blobs(), old(storage).next_id(), fingerprint(ev->Image_0@), ev->Image_0@)
                && upserted(old(storage).records(), final(storage).records(), old(storage).next_id(), final(storage).next_id(), ClipType::Image, fingerprint(ev->Image_0@), now, None, None, Some(blob_name(fingerprint(ev->Image_0@))), None, r->Some_0)),
        ev is FileList ==> (r is Some && (ev->FileList_0@.len() == 0 ==> r == Some(Ok::<i64, StoreError>(0)) && *final(storage) == *old(storage))
            && (ev->FileList_0@.len() > 0 ==> upserted(old(storage).records(), final(storage).records(), old(storage).next_id(), final(storage).next_id(), ClipType::Files, text_hash(json_encoding(ev->FileList_0.deep_view())), now, Some(joined(ev->FileList_0.deep_view())), None, None, Some(json_encoding(ev->FileList_0.deep_view())), r->Some_0))),
{
    match ev {
        ClipEvent::Text(t) => Some(storage.add_text(t, now)),
        ClipEvent::Html(h) => {
            let text = h.clone();
            Some(storage.add_html(text, h, now))
        },
        ClipEvent::Image(b) => Some(storage.add_image(b, now)),
        ClipEvent::FileList(p) => Some(storage.add_files(p, now)),
        ClipEvent::Error(_) => None,
    }
}

} // verus!
