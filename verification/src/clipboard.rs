use vstd::prelude::*;

use crate::errors::SyncError;
use crate::state::{
    apply_step, detect_step, history_view, snap_entry, AppState, AppStateView,
};
use crate::tcp::{self, TcpData, TcpDataType, TcpDataView};
use crate::wire;
use crate::wrappers::{fresh_uuid, now_rfc3339, MAX_PAYLOAD_BYTES};
use vstd::string::StringExecFns;

verus! {

/// What kind of content a history entry holds.
#[derive(Clone, Copy, PartialEq, Eq, Structural, Debug)]
pub enum ClipboardType {
    Text,
    Image,
    File,
}

/// One clipboard history entry: for `Text` the `data` field holds the text
/// itself, for `Image` the name of the file the pixels were saved under.
#[derive(Clone, Debug)]
pub struct ClipboardData {
    pub uuid: String,
    pub data_type: ClipboardType,
    pub data: String,
    pub datetime: String,
}

/// The mathematical value of a history entry.
pub ghost struct ClipboardDataView {
    pub uuid: Seq<char>,
    pub data_type: ClipboardType,
    pub data: Seq<char>,
    pub datetime: Seq<char>,
}

impl View for ClipboardData {
    type V = ClipboardDataView;

    open spec fn view(&self) -> ClipboardDataView {
        ClipboardDataView {
            uuid: self.uuid@,
            data_type: self.data_type,
            data: self.data@,
            datetime: self.datetime@,
        }
    }
}

impl ClipboardData {
    /// A copy whose contents are known to equal the original's.
    pub fn duplicate(&self) -> (r: ClipboardData)
        ensures
            r@ == self@,
    {
        ClipboardData {
            uuid: self.uuid.clone(),
            data_type: self.data_type,
            data: self.data.clone(),
            datetime: self.datetime.clone(),
        }
    }
}

/// A captured clipboard value: text, or an image as its dimensions and raw
/// RGBA pixel bytes. Compared by content, never by identity.
#[derive(Clone, Debug)]
pub enum RawClipboardData {
    Image { width: u32, height: u32, bytes: Vec<u8> },
    Text(String),
}

/// The mathematical value of a snapshot.
pub ghost enum RawClipboardDataView {
    Image { width: u32, height: u32, bytes: Seq<u8> },
    Text(Seq<char>),
}

impl View for RawClipboardData {
    type V = RawClipboardDataView;

    open spec fn view(&self) -> RawClipboardDataView {
        match self {
            RawClipboardData::Image { width, height, bytes } => RawClipboardDataView::Image {
                width: *width,
                height: *height,
                bytes: bytes@,
            },
            RawClipboardData::Text(s) => RawClipboardDataView::Text(s@),
        }
    }
}

/// Whether two byte vectors hold the same bytes.
fn bytes_equal(a: &Vec<u8>, b: &Vec<u8>) -> (r: bool)
    ensures
        r == (a@ == b@),
{
    if a.len() != b.len() {
        return false;
    }
    let n = a.len();
    let mut i: usize = 0;
    while i < n
        invariant
            0 <= i <= n,
            n == a@.len() == b@.len(),
            forall|j: int| 0 <= j < i ==> a@[j] == b@[j],
        decreases n - i,
    {
        if a[i] != b[i] {
            return false;
        }
        i = i + 1;
    }
    proof {
        assert(a@ =~= b@);
    }
    true
}

impl PartialEq for RawClipboardData {
    /// Content equality: texts with the same characters, or images with
    /// the same dimensions and the same pixel bytes.
    fn eq(&self, other: &RawClipboardData) -> (r: bool) {
        match (self, other) {
            (
                RawClipboardData::Image { width: w1, height: h1, bytes: b1 },
                RawClipboardData::Image { width: w2, height: h2, bytes: b2 },
            ) => {
                let same = *w1 == *w2 && *h1 == *h2 && bytes_equal(b1, b2);
                proof {
                    if same {
                        assert(self@ == other@);
                    } else {
                        assert(self@ != other@);
                    }
                }
                same
            },
            (RawClipboardData::Text(t1), RawClipboardData::Text(t2)) => {
                let same = t1.eq(t2);
                proof {
                    if same {
                        assert(self@ == other@);
                    } else {
                        assert(self@ != other@);
                    }
                }
                same
            },
            _ => {
                proof {
                    assert(self@ != other@);
                }
                false
            },
        }
    }
}

impl vstd::std_specs::cmp::PartialEqSpecImpl for RawClipboardData {
    open spec fn obeys_eq_spec() -> bool {
        true
    }

    open spec fn eq_spec(&self, other: &RawClipboardData) -> bool {
        self@ == other@
    }
}

/// A copy of a byte vector whose contents are known to equal the
/// original's.
fn copy_bytes(v: &Vec<u8>) -> (r: Vec<u8>)
    ensures
        r@ == v@,
{
    let n = v.len();
    let mut r: Vec<u8> = Vec::new();
    let mut i: usize = 0;
    while i < n
        invariant
            0 <= i <= n,
            n == v@.len(),
            r@ == v@.take(i as int),
        decreases n - i,
    {
        r.push(v[i]);
        i = i + 1;
        proof {
            assert(r@ =~= v@.take(i as int));
        }
    }
    proof {
        assert(v@.take(n as int) =~= v@);
    }
    r
}

impl RawClipboardData {
    /// A copy whose contents are known to equal the original's.
    pub fn duplicate(&self) -> (r: RawClipboardData)
        ensures
            r@ == self@,
    {
        match self {
            RawClipboardData::Image { width, height, bytes } => RawClipboardData::Image {
                width: *width,
                height: *height,
                bytes: copy_bytes(bytes),
            },
            RawClipboardData::Text(t) => RawClipboardData::Text(t.clone()),
        }
    }
}

/// One detector tick, with the identifiers for the history entry given by
/// the caller. Compares the freshly read snapshot against the last
/// applied value; on a genuine change it queues the snapshot for the
/// peer, records a history entry, and makes the snapshot the last applied
/// value — one critical section, so the network side cannot interleave.
/// Returns the history entry recorded, `None` when nothing changed.
pub fn poll_once_at(
    state: &mut AppState,
    current: &RawClipboardData,
    uuid: String,
    datetime: String,
) -> (r: Option<ClipboardData>)
    requires
        current@ matches RawClipboardDataView::Image { bytes, .. } ==> bytes.len()
            <= MAX_PAYLOAD_BYTES,
    ensures
        final(state)@ == detect_step(old(state)@, current@, uuid@, datetime@),
        r matches Some(e) ==> e@ == snap_entry(current@, uuid@, datetime@),
        (r is Some) == (current@ != old(state)@.last_clipboard),
{
    if *current == state.last_clipboard {
        return None;
    }
    match current {
        RawClipboardData::Text(t) => {
            tcp::push_text_to_send_queue(state, t.clone());
            let entry = ClipboardData {
                uuid: uuid,
                data_type: ClipboardType::Text,
                data: t.clone(),
                datetime: datetime,
            };
            let ghost h0 = state.clipboard_history@;
            state.clipboard_history.push(entry.duplicate());
            state.last_clipboard = RawClipboardData::Text(t.clone());
            proof {
                assert(history_view(h0.push(state.clipboard_history@.last())) =~= history_view(
                    h0,
                ).push(entry@));
            }
            Some(entry)
        },
        RawClipboardData::Image { width, height, bytes } => {
            tcp::push_image_to_send_queue(state, *width, *height, bytes);
            let mut file_name = uuid.clone();
            file_name.append(".png");
            let entry = ClipboardData {
                uuid: uuid,
                data_type: ClipboardType::Image,
                data: file_name,
                datetime: datetime,
            };
            let ghost h0 = state.clipboard_history@;
            state.clipboard_history.push(entry.duplicate());
            state.last_clipboard = current.duplicate();
            proof {
                assert(history_view(h0.push(state.clipboard_history@.last())) =~= history_view(
                    h0,
                ).push(entry@));
            }
            Some(entry)
        },
    }
}

/// One detector tick against the freshly read snapshot; the history
/// entry's identifiers come from the clock and a fresh uuid.
pub fn poll_once(state: &mut AppState, current: &RawClipboardData) -> (r: Option<ClipboardData>)
    requires
        current@ matches RawClipboardDataView::Image { bytes, .. } ==> bytes.len()
            <= MAX_PAYLOAD_BYTES,
    ensures
        exists|u: Seq<char>, d: Seq<char>|
            final(state)@ == #[trigger] detect_step(old(state)@, current@, u, d) && (r matches Some(
                e,
            ) ==> e@ == snap_entry(current@, u, d)),
        (r is Some) == (current@ != old(state)@.last_clipboard),
{
    let uuid = fresh_uuid();
    let datetime = now_rfc3339();
    let ghost u = uuid@;
    let ghost d = datetime@;
    let r = poll_once_at(state, current, uuid, datetime);
    proof {
        assert(state@ == detect_step(old(state)@, current@, u, d) && (r matches Some(e) ==> e@
            == snap_entry(current@, u, d)));
    }
    r
}

/// Apply one inbound snapshot from the peer. The last applied value is
/// updated *before* the caller writes the clipboard capability, so the
/// next detector tick sees no change; the send queue is never touched, so
/// a remote update is never re-sent. Applying the value already held is a
/// no-op. Returns the history entry recorded; for an image the caller
/// saves the pixels under the entry's file name, then writes the
/// clipboard.
pub fn apply_remote_at(
    state: &mut AppState,
    incoming: &RawClipboardData,
    uuid: String,
    datetime: String,
) -> (r: Option<ClipboardData>)
    ensures
        final(state)@ == apply_step(old(state)@, incoming@, uuid@, datetime@),
        r matches Some(e) ==> e@ == snap_entry(incoming@, uuid@, datetime@),
        (r is Some) == (incoming@ != old(state)@.last_clipboard),
{
    if *incoming == state.last_clipboard {
        return None;
    }
    state.last_clipboard = incoming.duplicate();
    let entry = match incoming {
        RawClipboardData::Text(t) => ClipboardData {
            uuid: uuid,
            data_type: ClipboardType::Text,
            data: t.clone(),
            datetime: datetime,
        },
        RawClipboardData::Image { .. } => {
            let mut file_name = uuid.clone();
            file_name.append(".png");
            ClipboardData {
                uuid: uuid,
                data_type: ClipboardType::Image,
                data: file_name,
                datetime: datetime,
            }
        },
    };
    let ghost h0 = state.clipboard_history@;
    state.clipboard_history.push(entry.duplicate());
    proof {
        assert(history_view(h0.push(state.clipboard_history@.last())) =~= history_view(h0).push(
            entry@,
        ));
    }
    Some(entry)
}

/// Apply one decoded wire message: `Text` and well-formed `Image`
/// payloads become inbound snapshots; `Blob` and `Command` are accepted
/// and ignored, and a malformed image payload is a `DecodeError` that
/// drops this message alone. The send queue is never touched.
pub fn apply_message(
    state: &mut AppState,
    msg: &TcpData,
    uuid: String,
    datetime: String,
) -> (r: Result<Option<ClipboardData>, SyncError>)
    ensures
        final(state)@.send_data_queue == old(state)@.send_data_queue,
        final(state)@.server_address == old(state)@.server_address,
        final(state)@.server_port == old(state)@.server_port,
        final(state)@.app_folder_path == old(state)@.app_folder_path,
        r matches Ok(o) ==> (match o {
            Some(e) => final(state)@.clipboard_history == old(state)@.clipboard_history.push(e@),
            None => final(state)@.clipboard_history == old(state)@.clipboard_history,
        }),
        msg@.data_type == TcpDataType::Text ==> (r matches Ok(o) && final(state)@ == apply_step(
            old(state)@,
            RawClipboardDataView::Text(msg@.data),
            uuid@,
            datetime@,
        ) && ((o is Some) == (RawClipboardDataView::Text(msg@.data) != old(
            state,
        )@.last_clipboard))),
        msg@.data_type == TcpDataType::Blob || msg@.data_type == TcpDataType::Command ==> r
            == Ok::<Option<ClipboardData>, SyncError>(None) && final(state)@ == old(state)@,
        r is Err ==> r == Err::<Option<ClipboardData>, SyncError>(SyncError::DecodeError)
            && final(state)@ == old(state)@ && msg@.data_type == TcpDataType::Image,
        forall|w: u32, h: u32, b: Seq<u8>|
            msg@.data_type == TcpDataType::Image && msg@.data == #[trigger] wire::spec_image_payload(
                w,
                h,
                b,
            ) && w >= 1 && h >= 1 && b.len() == 4 * (w as int) * (h as int) ==> r is Ok
                && final(state)@ == apply_step(
                old(state)@,
                RawClipboardDataView::Image { width: w, height: h, bytes: b },
                uuid@,
                datetime@,
            ),
        msg@.data_type == TcpDataType::Image && r is Ok ==> (exists|w: u32, h: u32, b: Seq<u8>|
            wire::parse_dim(msg@.data.take(10)) == Some(w) && wire::parse_dim(
                msg@.data.subrange(10, 20),
            ) == Some(h) && b.len() == 4 * (w as int) * (h as int) && final(state)@
                == #[trigger] apply_step(
                old(state)@,
                RawClipboardDataView::Image { width: w, height: h, bytes: b },
                uuid@,
                datetime@,
            )),
{
    match msg.data_type {
        TcpDataType::Text => {
            let snapshot = RawClipboardData::Text(msg.data.clone());
            Ok(apply_remote_at(state, &snapshot, uuid, datetime))
        },
        TcpDataType::Image => {
            match tcp::parse_image_payload(msg.data.as_str()) {
                Ok(dims) => {
                    let (w, h, bytes) = dims;
                    let snapshot = RawClipboardData::Image { width: w, height: h, bytes: bytes };
                    let r = Ok(apply_remote_at(state, &snapshot, uuid, datetime));
                    r
                },
                Err(e) => Err(e),
            }
        },
        TcpDataType::Blob => Ok(None),
        TcpDataType::Command => Ok(None),
    }
}

/// Whether two string slices hold the same characters.
fn str_eq(a: &str, b: &str) -> (r: bool)
    ensures
        r == (a@ == b@),
{
    let n = a.unicode_len();
    if n != b.unicode_len() {
        proof {
            assert(a@ != b@);
        }
        return false;
    }
    let mut i: usize = 0;
    while i < n
        invariant
            0 <= i <= n,
            n == a@.len() == b@.len(),
            forall|j: int| 0 <= j < i ==> a@[j] == b@[j],
        decreases n - i,
    {
        if a.get_char(i) != b.get_char(i) {
            return false;
        }
        i = i + 1;
    }
    proof {
        assert(a@ =~= b@);
    }
    true
}

/// Record a text entry in the history, under a fresh uuid; the timestamp
/// is the given one, or the clock's when none is given. Returns the entry
/// recorded.
pub fn add_text_clipboard_data(
    state: &mut AppState,
    text: String,
    timestamp: Option<String>,
) -> (r: ClipboardData)
    ensures
        r@.data_type == ClipboardType::Text,
        r@.data == text@,
        timestamp matches Some(ts) ==> r@.datetime == ts@,
        r@.uuid.len() == 36,
        final(state)@ == (AppStateView {
            clipboard_history: old(state)@.clipboard_history.push(r@),
            ..old(state)@
        }),
{
    let uuid = fresh_uuid();
    let datetime = match timestamp {
        Some(ts) => ts,
        None => now_rfc3339(),
    };
    let entry = ClipboardData {
        uuid: uuid,
        data_type: ClipboardType::Text,
        data: text,
        datetime: datetime,
    };
    let ghost h0 = state.clipboard_history@;
    state.clipboard_history.push(entry.duplicate());
    proof {
        assert(history_view(h0.push(state.clipboard_history@.last())) =~= history_view(h0).push(
            entry@,
        ));
    }
    entry
}

/// Record an image entry in the history: `data` is the name of the file
/// the pixels are saved under. Otherwise as the text variant.
pub fn add_image_clipboard_data(
    state: &mut AppState,
    file_name: String,
    timestamp: Option<String>,
) -> (r: ClipboardData)
    ensures
        r@.data_type == ClipboardType::Image,
        r@.data == file_name@,
        timestamp matches Some(ts) ==> r@.datetime == ts@,
        r@.uuid.len() == 36,
        final(state)@ == (AppStateView {
            clipboard_history: old(state)@.clipboard_history.push(r@),
            ..old(state)@
        }),
{
    let uuid = fresh_uuid();
    let datetime = match timestamp {
        Some(ts) => ts,
        None => now_rfc3339(),
    };
    let entry = ClipboardData {
        uuid: uuid,
        data_type: ClipboardType::Image,
        data: file_name,
        datetime: datetime,
    };
    let ghost h0 = state.clipboard_history@;
    state.clipboard_history.push(entry.duplicate());
    proof {
        assert(history_view(h0.push(state.clipboard_history@.last())) =~= history_view(h0).push(
            entry@,
        ));
    }
    entry
}

/// The first history entry carrying the given uuid, if any.
pub open spec fn spec_find_uuid(h: Seq<ClipboardDataView>, uuid: Seq<char>) -> Option<int>
    decreases h.len(),
{
    if h.len() == 0 {
        None
    } else if h[0].uuid == uuid {
        Some(0)
    } else {
        match spec_find_uuid(h.skip(1), uuid) {
            Some(i) => Some(1 + i),
            None => None,
        }
    }
}

/// The state after a history entry's text has been re-copied: the text is
/// the last applied value, it is queued for the peer, and a new entry
/// records it under a fresh uuid `u2` and timestamp `d2`.
pub open spec fn copied_state(
    st: AppStateView,
    text: Seq<char>,
    u2: Seq<char>,
    d2: Seq<char>,
) -> AppStateView {
    AppStateView {
        last_clipboard: RawClipboardDataView::Text(text),
        send_data_queue: st.send_data_queue.push(
            TcpDataView { data_type: TcpDataType::Text, data: text },
        ),
        clipboard_history: st.clipboard_history.push(
            ClipboardDataView { uuid: u2, data_type: ClipboardType::Text, data: text, datetime: d2 },
        ),
        ..st
    }
}

/// Re-copy a history entry, by uuid: its text becomes the last applied
/// value, goes back on the send queue, and is recorded as a new history
/// entry under a fresh uuid. Returns the text for the caller to write to
/// the clipboard capability; `None` (and no change) when no entry carries
/// the uuid.
pub fn copy_clipboard_from(state: &mut AppState, uuid: &str) -> (r: Option<String>)
    ensures
        (r is None) == (spec_find_uuid(old(state)@.clipboard_history, uuid@) is None),
        r is None ==> final(state)@ == old(state)@,
        r matches Some(text) ==> (spec_find_uuid(old(state)@.clipboard_history, uuid@) matches Some(
            i,
        ) && text@ == old(state)@.clipboard_history[i].data && exists|u2: Seq<char>, d2: Seq<char>|
            final(state)@ == #[trigger] copied_state(old(state)@, text@, u2, d2)),
{
    let ghost h = state@.clipboard_history;
    let n = state.clipboard_history.len();
    let mut i: usize = 0;
    let mut found: Option<usize> = None;
    proof {
        assert(h.skip(0) =~= h);
    }
    while i < n
        invariant
            0 <= i <= n,
            n == state.clipboard_history.len(),
            h == state@.clipboard_history,
            match found {
                Some(k) => k < n && spec_find_uuid(h, uuid@) == Some(k as int),
                None => spec_find_uuid(h, uuid@) == (match spec_find_uuid(
                    h.skip(i as int),
                    uuid@,
                ) {
                    Some(j) => Some(i + j),
                    None => None::<int>,
                }),
            },
        decreases n - i,
    {
        if found.is_none() {
            proof {
                assert(h.skip(i as int)[0] == h[i as int]);
                assert(h.skip(i as int).skip(1) =~= h.skip(i as int + 1));
            }
            if str_eq(state.clipboard_history[i].uuid.as_str(), uuid) {
                found = Some(i);
                proof {
                    assert(spec_find_uuid(h.skip(i as int), uuid@) == Some(0int));
                }
            }
        }
        i = i + 1;
    }
    proof {
        if found is None {
            assert(h.skip(n as int).len() == 0);
        }
    }
    match found {
        None => None,
        Some(k) => {
            let text = state.clipboard_history[k].data.clone();
            state.last_clipboard = RawClipboardData::Text(text.clone());
            tcp::push_text_to_send_queue(state, text.clone());
            let entry = add_text_clipboard_data(state, text.clone(), None);
            proof {
                let u2 = entry@.uuid;
                let d2 = entry@.datetime;
                assert(state@ == copied_state(old(state)@, text@, u2, d2));
            }
            Some(text)
        },
    }
}

/// A copy of the whole history, oldest entry first.
pub fn get_clipboard_history(state: &AppState) -> (r: Vec<ClipboardData>)
    ensures
        history_view(r@) == state@.clipboard_history,
{
    let n = state.clipboard_history.len();
    let mut r: Vec<ClipboardData> = Vec::new();
    proof {
        assert(history_view(r@) =~= history_view(state.clipboard_history@.take(0)));
    }
    let mut i: usize = 0;
    while i < n
        invariant
            0 <= i <= n,
            n == state.clipboard_history.len(),
            history_view(r@) == history_view(state.clipboard_history@.take(i as int)),
        decreases n - i,
    {
        let ghost r0 = r@;
        r.push(state.clipboard_history[i].duplicate());
        i = i + 1;
        proof {
            let hv = state.clipboard_history@;
            assert(history_view(r0).len() == r0.len());
            assert(history_view(hv.take(i as int - 1)).len() == i - 1);
            assert(r0.len() == i - 1);
            assert forall|k: int| 0 <= k < i implies history_view(r@)[k] == history_view(
                hv.take(i as int),
            )[k] by {
                if k < i - 1 {
                    assert(history_view(r0)[k] == history_view(hv.take(i as int - 1))[k]);
                    assert(r@[k] == r0[k]);
                    assert(hv.take(i as int)[k] == hv.take(i as int - 1)[k]);
                } else {
                    assert(r@[k]@ == hv[k]@);
                    assert(hv.take(i as int)[k] == hv[k]);
                }
            }
            assert(history_view(r@) =~= history_view(hv.take(i as int)));
        }
    }
    proof {
        assert(state.clipboard_history@.take(n as int) =~= state.clipboard_history@);
    }
    r
}

/// Delete every history entry carrying the given uuid; everything else
/// stays, in order.
pub fn delete_clipboard_history(state: &mut AppState, uuid: &str)
    ensures
        final(state)@ == (AppStateView {
            clipboard_history: old(state)@.clipboard_history.filter(
                |e: ClipboardDataView| e.uuid != uuid@,
            ),
            ..old(state)@
        }),
{
    let ghost h = state@.clipboard_history;
    let ghost pred = (|e: ClipboardDataView| e.uuid != uuid@);
    let n = state.clipboard_history.len();
    let mut kept: Vec<ClipboardData> = Vec::new();
    proof {
        assert(h.take(0) =~= Seq::<ClipboardDataView>::empty());
        assert(history_view(kept@) =~= h.take(0).filter(pred));
    }
    let mut i: usize = 0;
    while i < n
        invariant
            0 <= i <= n,
            n == state.clipboard_history.len(),
            h == state@.clipboard_history,
            pred == (|e: ClipboardDataView| e.uuid != uuid@),
            history_view(kept@) == h.take(i as int).filter(pred),
        decreases n - i,
    {
        let ghost prefix = h.take(i as int + 1);
        proof {
            assert(prefix.drop_last() =~= h.take(i as int));
            assert(prefix.last() == h[i as int]);
            assert(h[i as int] == state.clipboard_history@[i as int]@);
        }
        if !str_eq(state.clipboard_history[i].uuid.as_str(), uuid) {
            let ghost k0 = kept@;
            kept.push(state.clipboard_history[i].duplicate());
            proof {
                assert(history_view(k0).len() == k0.len());
                assert(history_view(k0).len() == h.take(i as int).filter(pred).len());
                assert forall|k: int| 0 <= k < kept@.len() implies history_view(kept@)[k]
                    == history_view(k0).push(h[i as int])[k] by {
                    if k < kept@.len() - 1 {
                        assert(kept@[k] == k0[k]);
                    } else {
                        assert(kept@[k]@ == h[i as int]);
                    }
                }
                assert(history_view(kept@) =~= history_view(k0).push(h[i as int]));
                assert(pred(h[i as int]));
                reveal(Seq::filter);
                assert(prefix.filter(pred) == h.take(i as int).filter(pred).push(h[i as int]));
            }
        } else {
            proof {
                assert(!pred(h[i as int]));
                reveal(Seq::filter);
                assert(prefix.filter(pred) == h.take(i as int).filter(pred));
            }
        }
        i = i + 1;
    }
    proof {
        assert(h.take(n as int) =~= h);
    }
    state.clipboard_history = kept;
}

/// Empty the history; nothing else changes.
pub fn clear_clipboard_history(state: &mut AppState)
    ensures
        final(state)@ == (AppStateView { clipboard_history: Seq::empty(), ..old(state)@ }),
{
    state.clipboard_history = Vec::new();
    proof {
        assert(history_view(Seq::<ClipboardData>::empty()) =~= Seq::<ClipboardDataView>::empty());
    }
}

/// What applying one decoded wire message may do to the state, for the
/// identifiers `uuid` and `datetime` its history entry would carry. A
/// `Text` message is exactly one inbound `apply_step`; `Blob` and
/// `Command` change nothing; an `Image` message either fails to decode
/// and changes nothing, or is one inbound `apply_step` of an image whose
/// dimensions are the ones its header declares and whose byte count
/// matches them.
pub open spec fn message_effect(
    st: AppStateView,
    m: TcpDataView,
    uuid: Seq<char>,
    datetime: Seq<char>,
    st2: AppStateView,
) -> bool {
    match m.data_type {
        TcpDataType::Text => st2 == apply_step(
            st,
            RawClipboardDataView::Text(m.data),
            uuid,
            datetime,
        ),
        TcpDataType::Blob => st2 == st,
        TcpDataType::Command => st2 == st,
        TcpDataType::Image => st2 == st || (exists|w: u32, h: u32, b: Seq<u8>|
            wire::parse_dim(m.data.take(10)) == Some(w) && wire::parse_dim(m.data.subrange(10, 20))
                == Some(h) && b.len() == 4 * (w as int) * (h as int) && st2 == #[trigger] apply_step(
                st,
                RawClipboardDataView::Image { width: w, height: h, bytes: b },
                uuid,
                datetime,
            )),
    }
}

/// Whether `st2` can follow from `st` by applying the messages of `msgs`
/// in order, the k-th under the identifiers `meta[k]`.
pub open spec fn run_messages(
    st: AppStateView,
    msgs: Seq<TcpDataView>,
    meta: Seq<(Seq<char>, Seq<char>)>,
    st2: AppStateView,
) -> bool
    decreases msgs.len(),
{
    if msgs.len() == 0 {
        st2 == st
    } else if meta.len() == 0 {
        false
    } else {
        exists|mid: AppStateView|
            #[trigger] message_effect(st, msgs[0], meta[0].0, meta[0].1, mid) && run_messages(
                mid,
                msgs.skip(1),
                meta.skip(1),
                st2,
            )
    }
}

/// Extending a run by one more message at its end.
proof fn lemma_run_messages_snoc(
    st: AppStateView,
    msgs: Seq<TcpDataView>,
    meta: Seq<(Seq<char>, Seq<char>)>,
    mid: AppStateView,
    m: TcpDataView,
    u: Seq<char>,
    d: Seq<char>,
    st2: AppStateView,
)
    requires
        meta.len() == msgs.len(),
        run_messages(st, msgs, meta, mid),
        message_effect(mid, m, u, d, st2),
    ensures
        run_messages(st, msgs.push(m), meta.push((u, d)), st2),
    decreases msgs.len(),
{
    let msgs2 = msgs.push(m);
    let meta2 = meta.push((u, d));
    if msgs.len() == 0 {
        assert(mid == st);
        assert(msgs2[0] == m);
        assert(meta2[0] == (u, d));
        assert(msgs2.skip(1) =~= Seq::<TcpDataView>::empty());
        assert(meta2.skip(1) =~= Seq::<(Seq<char>, Seq<char>)>::empty());
        assert(message_effect(st, msgs2[0], meta2[0].0, meta2[0].1, st2));
        assert(run_messages(st2, msgs2.skip(1), meta2.skip(1), st2));
    } else {
        let mid1 = choose|x: AppStateView|
            #[trigger] message_effect(st, msgs[0], meta[0].0, meta[0].1, x) && run_messages(
                x,
                msgs.skip(1),
                meta.skip(1),
                mid,
            );
        lemma_run_messages_snoc(mid1, msgs.skip(1), meta.skip(1), mid, m, u, d, st2);
        assert(msgs2.skip(1) =~= msgs.skip(1).push(m));
        assert(meta2.skip(1) =~= meta.skip(1).push((u, d)));
        assert(msgs2[0] == msgs[0]);
        assert(meta2[0] == meta[0]);
        assert(message_effect(st, msgs2[0], meta2[0].0, meta2[0].1, mid1));
    }
}

/// One read's worth of inbound bytes: peel every complete message off the
/// buffer and apply each in turn, as the duplex loop does after a read.
/// Returns the history entries recorded — the caller's clipboard writes
/// and image saves — and how many characters of the buffer were consumed;
/// the unconsumed tail is a fragment awaiting the next read. Inbound
/// traffic never queues anything outbound.
pub fn process_incoming(state: &mut AppState, input: &str) -> (r: (Vec<ClipboardData>, usize))
    ensures
        r.1 == wire::spec_split(input@).1,
        r.1 <= input@.len(),
        final(state)@.send_data_queue == old(state)@.send_data_queue,
        final(state)@.server_address == old(state)@.server_address,
        final(state)@.server_port == old(state)@.server_port,
        final(state)@.app_folder_path == old(state)@.app_folder_path,
        final(state)@.clipboard_history == old(state)@.clipboard_history + history_view(r.0@),
        exists|meta: Seq<(Seq<char>, Seq<char>)>|
            meta.len() == wire::spec_split(input@).0.len() && #[trigger] run_messages(
                old(state)@,
                wire::spec_split(input@).0,
                meta,
                final(state)@,
            ),
{
    let (msgs, used) = tcp::split_json(input);
    let ghost mut meta: Seq<(Seq<char>, Seq<char>)> = Seq::empty();
    let ghost all = wire::msgs_view(msgs@);
    let mut out: Vec<ClipboardData> = Vec::new();
    proof {
        assert(history_view(out@) =~= Seq::<ClipboardDataView>::empty());
        assert(state@.clipboard_history + Seq::<ClipboardDataView>::empty()
            =~= state@.clipboard_history);
        assert(all.take(0) =~= Seq::<TcpDataView>::empty());
    }
    let n = msgs.len();
    let mut i: usize = 0;
    while i < n
        invariant
            0 <= i <= n,
            n == msgs.len(),
            all == wire::msgs_view(msgs@),
            all == wire::spec_split(input@).0,
            state@.send_data_queue == old(state)@.send_data_queue,
            state@.server_address == old(state)@.server_address,
            state@.server_port == old(state)@.server_port,
            state@.app_folder_path == old(state)@.app_folder_path,
            state@.clipboard_history == old(state)@.clipboard_history + history_view(out@),
            meta.len() == i,
            run_messages(old(state)@, all.take(i as int), meta, state@),
        decreases n - i,
    {
        let uuid = fresh_uuid();
        let datetime = now_rfc3339();
        let ghost u = uuid@;
        let ghost d = datetime@;
        let ghost st_pre = state@;
        let ghost meta_pre = meta;
        match apply_message(state, &msgs[i], uuid, datetime) {
            Ok(Some(entry)) => {
                let ghost out0 = out@;
                let ghost ev = entry@;
                out.push(entry);
                proof {
                    assert(history_view(out0.push(out@.last())) =~= history_view(out0).push(ev));
                    assert((old(state)@.clipboard_history + history_view(out0)).push(ev) =~= old(
                        state,
                    )@.clipboard_history + history_view(out0).push(ev));
                }
            },
            Ok(None) => {},
            Err(_) => {},
        }
        proof {
            assert(all[i as int] == msgs@[i as int]@);
            assert(message_effect(st_pre, all[i as int], u, d, state@));
            meta = meta.push((u, d));
            lemma_run_messages_snoc(
                old(state)@,
                all.take(i as int),
                meta_pre,
                st_pre,
                all[i as int],
                u,
                d,
                state@,
            );
            assert(all.take(i as int).push(all[i as int]) =~= all.take(i as int + 1));
        }
        i = i + 1;
    }
    proof {
        assert(all.take(n as int) =~= all);
        assert(run_messages(old(state)@, wire::spec_split(input@).0, meta, state@));
    }
    (out, used)
}

} // verus!
