use vstd::prelude::*;

use crate::errors::SyncError;
use crate::state::{AppState, AppStateView};
use crate::wire;
use crate::wrappers::{b64_decode, b64_encode, b64_of, str_to_chars, string_from_chars, MAX_PAYLOAD_BYTES};
use vstd::string::StrSliceExecFns;
use vstd::string::StringExecFns;

verus! {

/// The kind tag of a wire message. `kind` fully determines how the `data`
/// field is to be decoded.
#[derive(Clone, Copy, PartialEq, Eq, Structural, Debug)]
pub enum TcpDataType {
    Text,
    Blob,
    Image,
    Command,
}

/// One sync message as it travels on the wire: a kind tag and a payload
/// string. For `Text` the payload is the clipboard text itself; for `Blob`
/// it is base64 of raw bytes; for `Image` it is a fixed-width decimal
/// width/height header followed by base64 of raw RGBA pixel bytes.
#[derive(Clone, Debug)]
pub struct TcpData {
    pub data_type: TcpDataType,
    pub data: String,
}

/// The mathematical value of a `TcpData`.
pub ghost struct TcpDataView {
    pub data_type: TcpDataType,
    pub data: Seq<char>,
}

impl View for TcpData {
    type V = TcpDataView;

    open spec fn view(&self) -> TcpDataView {
        TcpDataView { data_type: self.data_type, data: self.data@ }
    }
}

/// Append one message to the outbound queue. One short critical section:
/// the caller holds the state's lock across this call alone.
pub fn push_data_to_send_queue(state: &mut AppState, data: TcpData)
    ensures
        final(state)@ == (AppStateView {
            send_data_queue: old(state)@.send_data_queue.push(data@),
            ..old(state)@
        }),
{
    let ghost q0 = state.send_data_queue@;
    let ghost dv = data@;
    state.send_data_queue.push(data);
    proof {
        assert(wire::msgs_view(q0.push(state.send_data_queue@.last())) =~= wire::msgs_view(
            q0,
        ).push(dv));
    }
}

/// Queue raw bytes for the peer as a `Blob` message, base64-encoded.
pub fn push_blob_to_send_queue(state: &mut AppState, data: Vec<u8>)
    requires
        data@.len() <= MAX_PAYLOAD_BYTES,
    ensures
        final(state)@ == (AppStateView {
            send_data_queue: old(state)@.send_data_queue.push(
                TcpDataView { data_type: TcpDataType::Blob, data: b64_of(data@) },
            ),
            ..old(state)@
        }),
{
    let payload = b64_encode(data.as_slice());
    push_data_to_send_queue(
        state,
        TcpData { data_type: TcpDataType::Blob, data: payload },
    );
}

/// Queue clipboard text for the peer as a `Text` message.
pub fn push_text_to_send_queue(state: &mut AppState, text: String)
    ensures
        final(state)@ == (AppStateView {
            send_data_queue: old(state)@.send_data_queue.push(
                TcpDataView { data_type: TcpDataType::Text, data: text@ },
            ),
            ..old(state)@
        }),
{
    push_data_to_send_queue(state, TcpData { data_type: TcpDataType::Text, data: text });
}

/// Queue an image for the peer as an `Image` message: its dimensions in
/// the fixed-width header, its raw pixel bytes in base64.
pub fn push_image_to_send_queue(state: &mut AppState, width: u32, height: u32, raw: &Vec<u8>)
    requires
        raw@.len() <= MAX_PAYLOAD_BYTES,
    ensures
        final(state)@ == (AppStateView {
            send_data_queue: old(state)@.send_data_queue.push(
                TcpDataView {
                    data_type: TcpDataType::Image,
                    data: wire::spec_image_payload(width, height, raw@),
                },
            ),
            ..old(state)@
        }),
{
    let payload = make_image_payload(width, height, raw);
    push_data_to_send_queue(state, TcpData { data_type: TcpDataType::Image, data: payload });
}

/// Atomically take everything queued, in FIFO order: the first message
/// queued is the first returned. The queue is left empty; nothing else
/// changes.
pub fn drain_send_queue(state: &mut AppState) -> (r: Vec<TcpData>)
    ensures
        wire::msgs_view(r@) == old(state)@.send_data_queue,
        final(state)@ == (AppStateView { send_data_queue: Seq::empty(), ..old(state)@ }),
{
    let mut out: Vec<TcpData> = Vec::new();
    core::mem::swap(&mut out, &mut state.send_data_queue);
    proof {
        assert(wire::msgs_view(Seq::<TcpData>::empty()) =~= Seq::<TcpDataView>::empty());
    }
    out
}

/// The JSON wire text of one message.
pub fn encode_tcp_data(data: &TcpData) -> (r: String)
    ensures
        r@ == wire::spec_encode(data@.data_type, data@.data),
{
    let chars = wire::encode_tcp_data_chars(data);
    string_from_chars(&chars)
}

/// Parse exactly one message from the start of `data`; trailing bytes
/// after the object are ignored. `DecodeError` when no well-formed
/// envelope starts the buffer.
pub fn parse_tcp_data(data: &str) -> (r: Result<TcpData, SyncError>)
    ensures
        r matches Ok(t) ==> (wire::parse_object(data@) matches Some(p) && t.data_type == p.0
            && t.data@ == p.1),
        r is Err ==> wire::parse_object(data@) is None && r == Err::<TcpData, SyncError>(
            SyncError::DecodeError,
        ),
{
    let chars = str_to_chars(data);
    match wire::p_object(&chars) {
        Some(t) => Ok(TcpData { data_type: t.0, data: string_from_chars(&t.1) }),
        None => Err(SyncError::DecodeError),
    }
}

/// Peel every complete message off the front of a read buffer, in order:
/// complete objects that parse are returned, complete objects that do not
/// parse are dropped (a decode failure loses one message, never the
/// connection), and an incomplete trailing object stays unconsumed. The
/// second component says how many characters were consumed.
pub fn split_json(data: &str) -> (r: (Vec<TcpData>, usize))
    ensures
        ({
            let sp = wire::spec_split(data@);
            wire::msgs_view(r.0@) == sp.0 && r.1 == sp.1 && r.1 <= data@.len()
        }),
{
    let chars = str_to_chars(data);
    let n = chars.len();
    let mut pos: usize = 0;
    let mut out: Vec<TcpData> = Vec::new();
    proof {
        assert(data@.skip(0) =~= data@);
        assert(wire::msgs_view(out@) =~= Seq::<TcpDataView>::empty());
    }
    loop
        invariant
            n == chars.len(),
            chars@ == data@,
            0 <= pos <= n,
            wire::spec_split(data@) == (({
                let rest = wire::spec_split(data@.skip(pos as int));
                (wire::msgs_view(out@) + rest.0, pos + rest.1)
            })),
        decreases n - pos,
    {
        let ghost suffix = data@.skip(pos as int);
        match wire::json_end_chars(&chars, pos) {
            None => {
                proof {
                    assert(wire::spec_split(suffix) == (Seq::<TcpDataView>::empty(), 0int));
                    assert(wire::msgs_view(out@) + Seq::<TcpDataView>::empty() =~= wire::msgs_view(
                        out@,
                    ));
                }
                return (out, pos);
            },
            Some(e) => {
                let obj = wire::subvec(&chars, pos, pos + e);
                let ghost rest_suffix = data@.skip(pos as int + e as int);
                proof {
                    assert(obj@ =~= suffix.take(e as int));
                    assert(suffix.skip(e as int) =~= rest_suffix);
                }
                match wire::p_object(&obj) {
                    Some(t) => {
                        let msg = TcpData { data_type: t.0, data: string_from_chars(&t.1) };
                        let ghost out0 = out@;
                        let ghost mv = msg@;
                        out.push(msg);
                        proof {
                            let rest = wire::spec_split(rest_suffix);
                            assert(wire::spec_split(suffix) == (seq![mv] + rest.0, e + rest.1));
                            assert(wire::msgs_view(out0.push(msg)) =~= wire::msgs_view(out0)
                                + seq![mv]);
                            assert(wire::msgs_view(out0) + (seq![mv] + rest.0) =~= (wire::msgs_view(
                                out0,
                            ) + seq![mv]) + rest.0);
                        }
                    },
                    None => {
                        proof {
                            let rest = wire::spec_split(rest_suffix);
                            assert(wire::spec_split(suffix) == (rest.0, e + rest.1));
                        }
                    },
                }
                pos = pos + e;
            },
        }
    }
}

/// Build the payload of an `Image` message: the width and height in their
/// fixed 10-character decimal fields, then the raw pixel bytes in base64.
pub fn make_image_payload(width: u32, height: u32, raw: &Vec<u8>) -> (r: String)
    requires
        raw@.len() <= MAX_PAYLOAD_BYTES,
    ensures
        r@ == wire::spec_image_payload(width, height, raw@),
{
    let mut chars: Vec<char> = Vec::new();
    wire::push_pad10(&mut chars, width);
    wire::push_pad10(&mut chars, height);
    proof {
        assert(chars@ =~= wire::pad10(width) + wire::pad10(height));
    }
    let header = string_from_chars(&chars);
    let tail = b64_encode(raw.as_slice());
    let r = header.concat(tail.as_str());
    proof {
        assert((wire::pad10(width) + wire::pad10(height)) + b64_of(raw@) =~= wire::spec_image_payload(
            width,
            height,
            raw@,
        ));
    }
    r
}

/// Take an `Image` payload apart: the 20-character dimension header, then
/// base64 pixel bytes. A header field that does not read as a positive
/// number, a short payload, pixel text that is not base64, or a pixel
/// count that contradicts the declared dimensions (an RGBA image of
/// w by h pixels holds exactly 4*w*h bytes) is a `DecodeError` for this
/// message alone.
pub fn parse_image_payload(data: &str) -> (r: Result<(u32, u32, Vec<u8>), SyncError>)
    ensures
        data@.len() < 20 ==> r is Err,
        r is Err ==> r == Err::<(u32, u32, Vec<u8>), SyncError>(SyncError::DecodeError),
        r matches Ok(t) ==> data@.len() >= 20 && wire::parse_dim(data@.take(10)) == Some(t.0)
            && wire::parse_dim(data@.subrange(10, 20)) == Some(t.1) && t.2@.len() == 4 * (
            t.0 as int) * (t.1 as int),
        forall|w: u32, h: u32, b: Seq<u8>|
            data@ == #[trigger] wire::spec_image_payload(w, h, b) && w >= 1 && h >= 1 && b.len()
                == 4 * (w as int) * (h as int) ==> (r matches Ok(t) && t.0 == w && t.1 == h && t.2@
                == b),
{
    let chars = str_to_chars(data);
    let n = chars.len();
    if n < 20 {
        proof {
            assert forall|w: u32, h: u32, b: Seq<u8>|
                data@ == #[trigger] wire::spec_image_payload(w, h, b) && w >= 1 && h
                    >= 1 implies false by {
                wire::lemma_payload_shape(data@, w, h, b);
            }
        }
        return Err(SyncError::DecodeError);
    }
    let wfield = wire::subvec(&chars, 0, 10);
    let hfield = wire::subvec(&chars, 10, 20);
    proof {
        assert(wfield@ =~= data@.take(10));
        assert(hfield@ =~= data@.subrange(10, 20));
    }
    let wdim = match wire::parse_dim_chars(&wfield) {
        Some(x) => x,
        None => {
            proof {
                assert forall|w: u32, h: u32, b: Seq<u8>|
                    data@ == #[trigger] wire::spec_image_payload(w, h, b) && w >= 1 && h
                        >= 1 implies false by {
                    wire::lemma_payload_shape(data@, w, h, b);
                }
            }
            return Err(SyncError::DecodeError);
        },
    };
    let hdim = match wire::parse_dim_chars(&hfield) {
        Some(x) => x,
        None => {
            proof {
                assert forall|w: u32, h: u32, b: Seq<u8>|
                    data@ == #[trigger] wire::spec_image_payload(w, h, b) && w >= 1 && h
                        >= 1 implies false by {
                    wire::lemma_payload_shape(data@, w, h, b);
                }
            }
            return Err(SyncError::DecodeError);
        },
    };
    let rest = data.substring_char(20, n);
    let bytes = match b64_decode(rest) {
        Some(v) => v,
        None => {
            proof {
                assert forall|w: u32, h: u32, b: Seq<u8>|
                    data@ == #[trigger] wire::spec_image_payload(w, h, b) && w >= 1 && h
                        >= 1 implies false by {
                    wire::lemma_payload_shape(data@, w, h, b);
                    assert(rest@ == b64_of(b));
                }
            }
            return Err(SyncError::DecodeError);
        },
    };
    proof {
        assert((4 * (wdim as int)) * (hdim as int) <= 0xFFFF_FFFF_FFFF_FFFF_FFFFint)
            by (nonlinear_arith)
            requires
                wdim <= 0xFFFF_FFFFu32,
                hdim <= 0xFFFF_FFFFu32,
        ;
    }
    let need: u128 = 4u128 * (wdim as u128) * (hdim as u128);
    proof {
        assert(need == 4 * (wdim as int) * (hdim as int)) by (nonlinear_arith)
            requires
                need == 4u128 * (wdim as u128) * (hdim as u128),
        ;
    }
    if (bytes.len() as u128) != need {
        proof {
            assert forall|w: u32, h: u32, b: Seq<u8>|
                data@ == #[trigger] wire::spec_image_payload(w, h, b) && w >= 1 && h >= 1 && b.len()
                    == 4 * (w as int) * (h as int) implies false by {
                wire::lemma_payload_shape(data@, w, h, b);
                assert(rest@ == b64_of(b));
                assert(wdim == w && hdim == h && bytes@ == b);
            }
        }
        return Err(SyncError::DecodeError);
    }
    let r = Ok((wdim, hdim, bytes));
    proof {
        assert(bytes@.len() == 4 * (wdim as int) * (hdim as int));
        assert forall|w: u32, h: u32, b: Seq<u8>|
            data@ == #[trigger] wire::spec_image_payload(w, h, b) && w >= 1 && h >= 1 && b.len()
                == 4 * (w as int) * (h as int) implies (wdim == w && hdim == h && bytes@ == b) by {
            wire::lemma_payload_shape(data@, w, h, b);
            assert(rest@ == b64_of(b));
        }
    }
    r
}

} // verus!
