use vstd::prelude::*;

use crate::clipboard::{ClipboardData, ClipboardDataView, RawClipboardData, RawClipboardDataView};
use crate::tcp::TcpDataView;
use crate::wire;

verus! {

/// The view of a history vector.
pub open spec fn history_view(v: Seq<ClipboardData>) -> Seq<ClipboardDataView> {
    v.map_values(|d: ClipboardData| d@)
}

/// The one process-wide sync state: the last applied clipboard value (the
/// echo guard), the outbound send queue, the history, and the peer
/// configuration. Callers keep it behind one exclusive lock; every
/// mutating method here is a single critical section.
pub struct AppState {
    pub server_address: Option<String>,
    pub server_port: u16,
    pub app_folder_path: String,
    pub last_clipboard: RawClipboardData,
    pub send_data_queue: Vec<crate::tcp::TcpData>,
    pub clipboard_history: Vec<ClipboardData>,
}

/// The mathematical value of the shared state.
pub ghost struct AppStateView {
    pub server_address: Option<Seq<char>>,
    pub server_port: u16,
    pub app_folder_path: Seq<char>,
    pub last_clipboard: RawClipboardDataView,
    pub send_data_queue: Seq<TcpDataView>,
    pub clipboard_history: Seq<ClipboardDataView>,
}

impl View for AppState {
    type V = AppStateView;

    open spec fn view(&self) -> AppStateView {
        AppStateView {
            server_address: match self.server_address {
                Some(s) => Some(s@),
                None => None,
            },
            server_port: self.server_port,
            app_folder_path: self.app_folder_path@,
            last_clipboard: self.last_clipboard@,
            send_data_queue: wire::msgs_view(self.send_data_queue@),
            clipboard_history: history_view(self.clipboard_history@),
        }
    }
}

/// The state a process starts from: nothing applied (empty text), nothing
/// queued, no history, no peer remembered.
pub open spec fn initial_state() -> AppStateView {
    AppStateView {
        server_address: None,
        server_port: 0,
        app_folder_path: Seq::empty(),
        last_clipboard: RawClipboardDataView::Text(Seq::empty()),
        send_data_queue: Seq::empty(),
        clipboard_history: Seq::empty(),
    }
}

impl AppState {
    pub fn new() -> (r: AppState)
        ensures
            r@ == initial_state(),
    {
        let r = AppState {
            server_address: None,
            server_port: 0,
            app_folder_path: String::new(),
            last_clipboard: RawClipboardData::Text(String::new()),
            send_data_queue: Vec::new(),
            clipboard_history: Vec::new(),
        };
        proof {
            assert(wire::msgs_view(r.send_data_queue@) =~= Seq::<TcpDataView>::empty());
            assert(history_view(r.clipboard_history@) =~= Seq::<ClipboardDataView>::empty());
        }
        r
    }
}

impl Default for AppState {
    fn default() -> (r: AppState)
        ensures
            r@ == initial_state(),
    {
        AppState::new()
    }
}

// ---------------------------------------------------------------------------
// The echo-suppression state machine, as one mathematical model. The
// executable operations below and in the sibling modules each implement
// one step of it; the lemmas state the laws the whole machine obeys.
// ---------------------------------------------------------------------------

/// The wire message a snapshot is sent as: text as itself, an image as
/// its dimension header plus base64 pixels.
pub open spec fn snap_message(s: RawClipboardDataView) -> TcpDataView {
    match s {
        RawClipboardDataView::Text(t) => TcpDataView {
            data_type: crate::tcp::TcpDataType::Text,
            data: t,
        },
        RawClipboardDataView::Image { width, height, bytes } => TcpDataView {
            data_type: crate::tcp::TcpDataType::Image,
            data: wire::spec_image_payload(width, height, bytes),
        },
    }
}

/// The history entry recorded for a snapshot: text entries carry the text,
/// image entries the name of the file the pixels are saved under.
pub open spec fn snap_entry(
    s: RawClipboardDataView,
    uuid: Seq<char>,
    datetime: Seq<char>,
) -> ClipboardDataView {
    match s {
        RawClipboardDataView::Text(t) => ClipboardDataView {
            uuid: uuid,
            data_type: crate::clipboard::ClipboardType::Text,
            data: t,
            datetime: datetime,
        },
        RawClipboardDataView::Image { .. } => ClipboardDataView {
            uuid: uuid,
            data_type: crate::clipboard::ClipboardType::Image,
            data: uuid + ".png"@,
            datetime: datetime,
        },
    }
}

/// One detector tick that read snapshot `s` (the outbound path): a
/// genuine change is queued for the peer, recorded in the history, and
/// becomes the last applied value, all in one step; anything else is a
/// no-op.
pub open spec fn detect_step(
    st: AppStateView,
    s: RawClipboardDataView,
    uuid: Seq<char>,
    datetime: Seq<char>,
) -> AppStateView {
    if s == st.last_clipboard {
        st
    } else {
        AppStateView {
            last_clipboard: s,
            send_data_queue: st.send_data_queue.push(snap_message(s)),
            clipboard_history: st.clipboard_history.push(snap_entry(s, uuid, datetime)),
            ..st
        }
    }
}

/// Applying one inbound snapshot (the inbound path): the last applied
/// value is updated first, so the next detector tick sees no change, and
/// the entry is recorded; the send queue is never touched. Applying a
/// value already held is a no-op.
pub open spec fn apply_step(
    st: AppStateView,
    s: RawClipboardDataView,
    uuid: Seq<char>,
    datetime: Seq<char>,
) -> AppStateView {
    if s == st.last_clipboard {
        st
    } else {
        AppStateView {
            last_clipboard: s,
            clipboard_history: st.clipboard_history.push(snap_entry(s, uuid, datetime)),
            ..st
        }
    }
}

/// Applying the same inbound snapshot twice in a row changes the state
/// once: the second application is a no-op against the last applied
/// value, and neither application queues an outbound copy.
pub proof fn lemma_apply_idempotent(
    st: AppStateView,
    s: RawClipboardDataView,
    u1: Seq<char>,
    d1: Seq<char>,
    u2: Seq<char>,
    d2: Seq<char>,
)
    ensures
        apply_step(apply_step(st, s, u1, d1), s, u2, d2) == apply_step(st, s, u1, d1),
        apply_step(st, s, u1, d1).send_data_queue == st.send_data_queue,
{
}

/// One observed change, local (read off the clipboard by the detector) or
/// remote (decoded from the peer), with the identifiers its history entry
/// would carry.
pub ghost enum SyncEvent {
    Local { snap: RawClipboardDataView, uuid: Seq<char>, datetime: Seq<char> },
    Remote { snap: RawClipboardDataView, uuid: Seq<char>, datetime: Seq<char> },
}

/// The state after a sequence of local and remote changes.
pub open spec fn run_events(st: AppStateView, evs: Seq<SyncEvent>) -> AppStateView
    decreases evs.len(),
{
    if evs.len() == 0 {
        st
    } else {
        let st1 = match evs[0] {
            SyncEvent::Local { snap, uuid, datetime } => detect_step(st, snap, uuid, datetime),
            SyncEvent::Remote { snap, uuid, datetime } => apply_step(st, snap, uuid, datetime),
        };
        run_events(st1, evs.skip(1))
    }
}

/// How many of the local changes in a sequence are genuine: different
/// from the last applied value at the moment they are observed.
pub open spec fn genuine_local_count(st: AppStateView, evs: Seq<SyncEvent>) -> int
    decreases evs.len(),
{
    if evs.len() == 0 {
        0
    } else {
        match evs[0] {
            SyncEvent::Local { snap, uuid, datetime } => (if snap == st.last_clipboard {
                0int
            } else {
                1int
            }) + genuine_local_count(detect_step(st, snap, uuid, datetime), evs.skip(1)),
            SyncEvent::Remote { snap, uuid, datetime } => genuine_local_count(
                apply_step(st, snap, uuid, datetime),
                evs.skip(1),
            ),
        }
    }
}

/// The no-echo invariant: across any sequence of alternating local and
/// remote changes, the number of messages queued for the peer equals the
/// number of genuine local changes. Remote-origin updates are never
/// re-sent.
pub proof fn lemma_no_echo(st: AppStateView, evs: Seq<SyncEvent>)
    ensures
        run_events(st, evs).send_data_queue.len() == st.send_data_queue.len()
            + genuine_local_count(st, evs),
    decreases evs.len(),
{
    if evs.len() > 0 {
        match evs[0] {
            SyncEvent::Local { snap, uuid, datetime } => {
                lemma_no_echo(detect_step(st, snap, uuid, datetime), evs.skip(1));
            },
            SyncEvent::Remote { snap, uuid, datetime } => {
                lemma_no_echo(apply_step(st, snap, uuid, datetime), evs.skip(1));
            },
        }
    }
}

} // verus!
