use vstd::prelude::*;

use crate::codec::{decode_message, encode_message, msgpack_bytes, msgpack_value, VALUE_DEPTH_LIMIT};
use crate::dict::{str_dict_of, value_to_str_dict, StrDict};
use crate::error::{BngError, ErrView};
use crate::frame::{frame_end, frame_ok, frame_of, frame_payload, read_frame, write_frame};
use crate::value::{
    spec_value_as_u64, spec_value_text, value_as_str, value_as_u64, wire_sized, MsgValue, MsgView,
};

verus! {

broadcast use vstd::std_specs::vec::group_vec_axioms;

/// The protocol version this client speaks.
pub const PROTOCOL_VERSION: &'static str = "v1.26";

/// The payload a response left behind: a successfully decoded dictionary, or
/// an error the simulator reported inside an otherwise well-formed response.
pub enum ResponsePayload {
    /// A plain success payload.
    Success(StrDict),
    /// A simulator-reported failure, already classified.
    SimError(BngError),
}

/// The mathematical shape of a [`ResponsePayload`].
pub enum PayloadView {
    Success(Map<Seq<char>, MsgView>),
    SimError(ErrView),
}

impl View for ResponsePayload {
    type V = PayloadView;

    open spec fn view(&self) -> PayloadView {
        match self {
            ResponsePayload::Success(d) => PayloadView::Success(d@),
            ResponsePayload::SimError(e) => PayloadView::SimError(e@),
        }
    }
}

/// A payload is well-formed when a success dictionary is.
pub open spec fn payload_wf(p: ResponsePayload) -> bool {
    match p {
        ResponsePayload::Success(d) => d.wf(),
        ResponsePayload::SimError(_) => true,
    }
}

/// The mapping a list of buffered responses holds, keyed by request identity;
/// a later entry under the same identity replaces the earlier one.
pub open spec fn buf_map(s: Seq<(u64, ResponsePayload)>) -> Map<u64, PayloadView>
    decreases s,
{
    if s.len() == 0 {
        Map::empty()
    } else {
        buf_map(s.drop_last()).insert(s.last().0, s.last().1@)
    }
}

/// Whether a list of buffered responses has pairwise distinct identities.
pub open spec fn distinct_ids(s: Seq<(u64, ResponsePayload)>) -> bool {
    forall|i: int, j: int|
        0 <= i < j < s.len() ==> (#[trigger] s[i]).0 != (#[trigger] s[j]).0
}

/// An identity is in the buffered mapping exactly when some entry carries it,
/// and the entry of an identity, where identities are distinct, gives its
/// payload.
pub broadcast proof fn lemma_buf_map(s: Seq<(u64, ResponsePayload)>)
    ensures
        forall|k: u64| #[trigger]
            buf_map(s).contains_key(k) <==> exists|i: int| 0 <= i < s.len() && (#[trigger] s[i]).0
                == k,
        distinct_ids(s) ==> forall|i: int|
            0 <= i < s.len() ==> buf_map(s).contains_key((#[trigger] s[i]).0) && buf_map(s)[s[i].0]
                == s[i].1@,
    decreases s,
{
    if s.len() != 0 {
        lemma_buf_map(s.drop_last());
        assert forall|k: u64| #[trigger] buf_map(s).contains_key(k) implies exists|i: int|
            0 <= i < s.len() && (#[trigger] s[i]).0 == k by {
            if k == s.last().0 {
                assert(s[s.len() - 1].0 == k);
            } else {
                assert(buf_map(s.drop_last()).contains_key(k));
                let i = choose|i: int|
                    0 <= i < s.drop_last().len() && (#[trigger] s.drop_last()[i]).0 == k;
                assert(s.drop_last()[i] == s[i]);
                assert(s[i].0 == k);
            }
        }
        assert forall|k: u64|
            (exists|i: int| 0 <= i < s.len() && (#[trigger] s[i]).0 == k) implies buf_map(
            s,
        ).contains_key(k) by {
            let i = choose|i: int| 0 <= i < s.len() && (#[trigger] s[i]).0 == k;
            if i < s.len() - 1 {
                assert(s.drop_last()[i] == s[i]);
                assert(exists|j: int|
                    0 <= j < s.drop_last().len() && (#[trigger] s.drop_last()[j]).0 == k);
                assert(buf_map(s.drop_last()).contains_key(k));
            }
        }
        if distinct_ids(s) {
            assert(distinct_ids(s.drop_last())) by {
                assert forall|i: int, j: int|
                    0 <= i < j < s.drop_last().len() implies (#[trigger] s.drop_last()[i]).0 != (
                #[trigger] s.drop_last()[j]).0 by {
                    assert(s.drop_last()[i] == s[i]);
                    assert(s.drop_last()[j] == s[j]);
                }
            }
            assert forall|i: int| 0 <= i < s.len() implies buf_map(s).contains_key(
                (#[trigger] s[i]).0,
            ) && buf_map(s)[s[i].0] == s[i].1@ by {
                if i < s.len() - 1 {
                    assert(s.drop_last()[i] == s[i]);
                    assert(s[i].0 != s.last().0);
                }
            }
        }
    }
}

/// A connection's protocol state: the identity counter, the buffer of
/// out-of-order responses, and the bytes waiting to be written to the wire.
/// The byte stream itself lives with the caller, which feeds received bytes
/// into [`Connection::recv`] and drains [`Connection::take_outbox`] onto the
/// wire after every send.
pub struct Connection {
    req_id: u64,
    buffered: Vec<(u64, ResponsePayload)>,
    outbox: Vec<u8>,
}

impl Connection {
    /// The identity the next request will be assigned.
    pub closed spec fn next_req_id(&self) -> u64 {
        self.req_id
    }

    /// The buffered out-of-order responses, by identity.
    pub closed spec fn pending(&self) -> Map<u64, PayloadView> {
        buf_map(self.buffered@)
    }

    /// The bytes waiting to be written to the wire.
    pub closed spec fn outbox_bytes(&self) -> Seq<u8> {
        self.outbox@
    }

    /// Buffered identities are distinct and buffered dictionaries well
    /// formed; constructors establish this and methods preserve it.
    pub closed spec fn wf(&self) -> bool {
        &&& distinct_ids(self.buffered@)
        &&& forall|i: int| 0 <= i < self.buffered@.len() ==> payload_wf((#[trigger] self.buffered@[i]).1)
    }

    /// A fresh connection state: identities start at zero, nothing buffered,
    /// nothing to write.
    pub fn new() -> (c: Connection)
        ensures
            c.wf(),
            c.next_req_id() == 0,
            c.pending() == Map::<u64, PayloadView>::empty(),
            c.outbox_bytes() == Seq::<u8>::empty(),
    {
        Connection { req_id: 0, buffered: Vec::new(), outbox: Vec::new() }
    }

    /// The identity the next request will be assigned; requests consume
    /// identities in strict submission order starting at zero.
    pub fn next_request_id(&self) -> (r: u64)
        ensures
            r == self.next_req_id(),
    {
        self.req_id
    }

    /// Whether a response for this identity sits in the buffer.
    #[verifier::loop_isolation(false)]
    pub fn has_buffered(&self, id: u64) -> (r: bool)
        requires
            self.wf(),
        ensures
            r == self.pending().contains_key(id),
    {
        proof {
            broadcast use lemma_buf_map;

        }
        let n = self.buffered.len();
        let mut i: usize = 0;
        while i < n
            invariant
                0 <= i <= n,
                n == self.buffered@.len(),
                forall|j: int| 0 <= j < i ==> (#[trigger] self.buffered@[j]).0 != id,
            decreases n - i,
        {
            if self.buffered[i].0 == id {
                proof {
                    broadcast use lemma_buf_map;

                }
                return true;
            }
            i = i + 1;
        }
        proof {
            broadcast use lemma_buf_map;

            if self.pending().contains_key(id) {
                let j = choose|j: int|
                    0 <= j < self.buffered@.len() && (#[trigger] self.buffered@[j]).0 == id;
            }
        }
        false
    }

    /// Take the buffered response for this identity out of the buffer, if one
    /// is there.
    #[verifier::loop_isolation(false)]
    pub fn take_buffered(&mut self, id: u64) -> (r: Option<ResponsePayload>)
        requires
            old(self).wf(),
        ensures
            final(self).wf(),
            final(self).next_req_id() == old(self).next_req_id(),
            final(self).outbox_bytes() == old(self).outbox_bytes(),
            final(self).pending() == old(self).pending().remove(id),
            r is Some <==> old(self).pending().contains_key(id),
            r is Some ==> r->0@ == old(self).pending()[id] && payload_wf(r->0),
    {
        proof {
            broadcast use lemma_buf_map;

        }
        let n = self.buffered.len();
        let mut i: usize = 0;
        while i < n
            invariant
                0 <= i <= n,
                n == self.buffered@.len(),
                self.req_id == old(self).req_id,
                self.outbox@ == old(self).outbox@,
                self.buffered@ == old(self).buffered@,
                forall|j: int| 0 <= j < i ==> (#[trigger] self.buffered@[j]).0 != id,
            decreases n - i,
        {
            if self.buffered[i].0 == id {
                let ghost before = self.buffered@;
                let pair = self.buffered.remove(i);
                proof {
                    broadcast use lemma_buf_map;

                    Self::lemma_buf_map_remove(before, i as int);
                    assert(self.buffered@ =~= before.remove(i as int));
                    assert(self.pending() =~= old(self).pending().remove(id));
                    assert forall|a: int, b: int|
                        0 <= a < b < self.buffered@.len() implies (#[trigger] self.buffered@[a]).0
                        != (#[trigger] self.buffered@[b]).0 by {
                        let a0 = if a < i { a } else { a + 1 };
                        let b0 = if b < i { b } else { b + 1 };
                        assert(self.buffered@[a] == before[a0]);
                        assert(self.buffered@[b] == before[b0]);
                    }
                    assert forall|a: int| 0 <= a < self.buffered@.len() implies payload_wf(
                        (#[trigger] self.buffered@[a]).1,
                    ) by {
                        let a0 = if a < i { a } else { a + 1 };
                        assert(self.buffered@[a] == before[a0]);
                    }
                }
                return Some(pair.1);
            }
            i = i + 1;
        }
        proof {
            broadcast use lemma_buf_map;

            if self.pending().contains_key(id) {
                let j = choose|j: int|
                    0 <= j < self.buffered@.len() && (#[trigger] self.buffered@[j]).0 == id;
            }
            assert(self.pending() =~= self.pending().remove(id));
        }
        None
    }

    /// Removing one entry from a distinct-keyed buffer removes exactly its
    /// identity from the mapping.
    proof fn lemma_buf_map_remove(s: Seq<(u64, ResponsePayload)>, i: int)
        requires
            distinct_ids(s),
            0 <= i < s.len(),
        ensures
            buf_map(s.remove(i)) == buf_map(s).remove(s[i].0),
        decreases s,
    {
        broadcast use lemma_buf_map;

        assert(distinct_ids(s.drop_last())) by {
            assert forall|a: int, b: int|
                0 <= a < b < s.drop_last().len() implies (#[trigger] s.drop_last()[a]).0 != (
            #[trigger] s.drop_last()[b]).0 by {
                assert(s.drop_last()[a] == s[a]);
                assert(s.drop_last()[b] == s[b]);
            }
        }
        if i == s.len() - 1 {
            assert(s.remove(i) =~= s.drop_last());
            assert(!buf_map(s.drop_last()).contains_key(s[i].0)) by {
                if buf_map(s.drop_last()).contains_key(s[i].0) {
                    let j = choose|j: int|
                        0 <= j < s.drop_last().len() && (#[trigger] s.drop_last()[j]).0 == s[i].0;
                    assert(s[j] == s.drop_last()[j]);
                }
            }
            assert(buf_map(s).remove(s[i].0) =~= buf_map(s.drop_last()));
        } else {
            Self::lemma_buf_map_remove(s.drop_last(), i);
            assert(s.remove(i).drop_last() =~= s.drop_last().remove(i));
            assert(s.remove(i).last() == s.last());
            assert(s.drop_last()[i] == s[i]);
            assert(buf_map(s.remove(i)) == buf_map(s.drop_last().remove(i)).insert(
                s.last().0,
                s.last().1@,
            ));
            assert(s[i].0 != s.last().0);
            assert(buf_map(s.remove(i)) =~= buf_map(s).remove(s[i].0));
        }
    }

    /// Buffer a classified payload under its identity; an existing entry
    /// under the same identity is replaced.
    fn insert_buffered(&mut self, id: u64, payload: ResponsePayload)
        requires
            old(self).wf(),
            payload_wf(payload),
        ensures
            final(self).wf(),
            final(self).next_req_id() == old(self).next_req_id(),
            final(self).outbox_bytes() == old(self).outbox_bytes(),
            final(self).pending() == old(self).pending().insert(id, payload@),
    {
        let _ = self.take_buffered(id);
        proof {
            broadcast use lemma_buf_map;

        }
        let ghost before = self.buffered@;
        self.buffered.push((id, payload));
        proof {
            broadcast use lemma_buf_map;

            assert(self.buffered@.drop_last() =~= before);
            assert(self.pending() == buf_map(before).insert(
                self.buffered@.last().0,
                self.buffered@.last().1@,
            ));
            assert(self.pending() =~= old(self).pending().insert(id, payload@));
            assert forall|a: int, b: int|
                0 <= a < b < self.buffered@.len() implies (#[trigger] self.buffered@[a]).0 != (
            #[trigger] self.buffered@[b]).0 by {
                if b < self.buffered@.len() - 1 {
                    assert(self.buffered@[a] == before[a]);
                    assert(self.buffered@[b] == before[b]);
                } else {
                    assert(self.buffered@[a] == before[a]);
                    assert(!buf_map(before).contains_key(self.buffered@[b].0));
                }
            }
            assert forall|a: int| 0 <= a < self.buffered@.len() implies payload_wf(
                (#[trigger] self.buffered@[a]).1,
            ) by {
                if a < self.buffered@.len() - 1 {
                    assert(self.buffered@[a] == before[a]);
                }
            }
        }
    }

    /// Hand out the bytes that sends have queued for the wire, leaving the
    /// outbox empty. The caller writes them to its transport, whole and in
    /// order, before it expects any response.
    pub fn take_outbox(&mut self) -> (r: Vec<u8>)
        requires
            old(self).wf(),
        ensures
            final(self).wf(),
            final(self).next_req_id() == old(self).next_req_id(),
            final(self).pending() == old(self).pending(),
            final(self).outbox_bytes() == Seq::<u8>::empty(),
            r@ == old(self).outbox_bytes(),
    {
        let mut out: Vec<u8> = Vec::new();
        core::mem::swap(&mut out, &mut self.outbox);
        out
    }
}

/// The views of a field list.
pub open spec fn fields_views(s: Seq<(String, MsgValue)>) -> Seq<(Seq<char>, MsgView)> {
    Seq::new(s.len(), |i: int| (s[i].0@, s[i].1@))
}

/// The message a request is built as: a map whose first pair carries the
/// request type under `type`, whose second carries the assigned identity
/// under `_id`, and whose remaining pairs are the caller's fields in order.
pub open spec fn request_msg(req_type: Seq<char>, id: u64, fields: Seq<(Seq<char>, MsgView)>) -> MsgView {
    MsgView::Dict(
        seq![
            (MsgView::Text("type"@), MsgView::Text(req_type)),
            (MsgView::Text("_id"@), MsgView::UInt(id)),
        ] + Seq::new(fields.len(), |i: int| (MsgView::Text(fields[i].0), fields[i].1)),
    )
}

/// Build the wire map for a request.
#[verifier::loop_isolation(false)]
fn build_request(req_type: &str, id: u64, fields: Vec<(String, MsgValue)>) -> (r: MsgValue)
    ensures
        r@ == request_msg(req_type@, id, fields_views(fields@)),
{
    broadcast use crate::value::lemma_dict_view;

    let ghost orig = fields@;
    let ghost target = request_msg(req_type@, id, fields_views(orig))->Dict_0;
    let mut fields = fields;
    let mut pairs: Vec<(MsgValue, MsgValue)> = Vec::new();
    pairs.push((MsgValue::Text("type".to_owned()), MsgValue::Text(req_type.to_owned())));
    pairs.push((MsgValue::Text("_id".to_owned()), MsgValue::UInt(id)));
    let n = fields.len();
    let mut i: usize = 0;
    while i < n
        invariant
            0 <= i <= n,
            n == orig.len(),
            fields@.len() == n - i,
            forall|j: int| 0 <= j < n - i ==> #[trigger] fields@[j] == orig[i + j],
            pairs@.len() == i + 2,
            (pairs@[0].0@, pairs@[0].1@) == target[0],
            (pairs@[1].0@, pairs@[1].1@) == target[1],
            forall|j: int| 0 <= j < i ==> ((#[trigger] pairs@[j + 2]).0@, pairs@[j + 2].1@)
                == target[j + 2],
        decreases n - i,
    {
        let (k, v) = fields.remove(0);
        proof {
            assert(k@ == orig[i as int].0@ && v == orig[i as int].1);
        }
        pairs.push((MsgValue::Text(k), v));
        i = i + 1;
    }
    let out = MsgValue::Dict(pairs);
    proof {
        assert(out@ == MsgView::Dict(crate::value::dict_view(pairs@)));
        assert(target.len() == orig.len() + 2);
        assert forall|j: int| 0 <= j < pairs@.len() implies crate::value::dict_view(pairs@)[j]
            == target[j] by {
            assert(crate::value::dict_view(pairs@)[j] == (pairs@[j].0@, pairs@[j].1@));
            if j >= 2 {
                let jj = j - 2;
                assert(((#[trigger] pairs@[jj + 2]).0@, pairs@[jj + 2].1@) == target[jj + 2]);
                assert(pairs@[jj + 2] == pairs@[j]);
            }
        }
        assert(crate::value::dict_view(pairs@) =~= target);
    }
    out
}

impl Connection {
    /// Allocate the next identity and queue a request for the wire.
    ///
    /// The request map carries `type = req_type`, `_id` = the returned
    /// identity, then the caller's fields; it is encoded, framed, and
    /// appended to the outbox. The identity is consumed even when encoding
    /// refuses the value — as step-by-step allocation would have it — and
    /// encoding refuses exactly the values that overrun the codec's size
    /// bounds or the frame's 32-bit length prefix. Nothing here waits for any
    /// response.
    pub fn send_raw(&mut self, req_type: &str, fields: Vec<(String, MsgValue)>) -> (r: Result<
        u64,
        BngError,
    >)
        requires
            old(self).wf(),
            old(self).next_req_id() < u64::MAX,
        ensures
            final(self).wf(),
            final(self).next_req_id() == old(self).next_req_id() + 1,
            final(self).pending() == old(self).pending(),
            ({
                let msg = request_msg(req_type@, old(self).next_req_id(), fields_views(fields@));
                &&& (r is Ok <==> (wire_sized(msg, VALUE_DEPTH_LIMIT as int) && msgpack_bytes(
                    msg,
                ).len() <= u32::MAX))
                &&& (r is Ok ==> r->Ok_0 == old(self).next_req_id() && final(self).outbox_bytes()
                    == old(self).outbox_bytes() + frame_of(msgpack_bytes(msg)))
                &&& (r is Err ==> r->Err_0 is MsgpackEncode && final(self).outbox_bytes() == old(
                    self,
                ).outbox_bytes())
            }),
    {
        let id = self.req_id;
        self.req_id = self.req_id + 1;
        let msg = build_request(req_type, id, fields);
        let packed = match encode_message(&msg) {
            Ok(b) => b,
            Err(e) => {
                return Err(e);
            },
        };
        if packed.len() as u64 > 0xffff_ffffu64 {
            return Err(
                BngError::MsgpackEncode("encoded message exceeds the frame size limit".to_owned()),
            );
        }
        let frame = write_frame(&packed);
        self.outbox.extend_from_slice(frame.as_slice());
        proof {
            assert(self.outbox@ =~= old(self).outbox@ + frame_of(packed@));
        }
        Ok(id)
    }
}

/// The text of a simulator-reported error value: its native text, or a
/// fixed fallback where the value is not native text.
pub open spec fn err_text(v: MsgView, fallback: Seq<char>) -> Seq<char> {
    match v {
        MsgView::Text(s) => s,
        _ => fallback,
    }
}

/// The simulator error a response dictionary signals, if any: a generic
/// error under `bngError`, else a value/argument error under `bngValueError`.
/// Presence of either key turns an otherwise well-formed response into a
/// failure.
pub open spec fn sim_error_of(d: Map<Seq<char>, MsgView>) -> Option<ErrView> {
    if d.contains_key("bngError"@) {
        Some(ErrView::SimulatorError(err_text(d["bngError"@], "unknown error"@)))
    } else if d.contains_key("bngValueError"@) {
        Some(ErrView::ValueError(err_text(d["bngValueError"@], "unknown value error"@)))
    } else {
        None
    }
}

/// A response dictionary, classified: the simulator error it carries, or
/// else a plain success payload.
pub open spec fn classify(d: Map<Seq<char>, MsgView>) -> PayloadView {
    match sim_error_of(d) {
        Some(e) => PayloadView::SimError(e),
        None => PayloadView::Success(d),
    }
}

/// The identity a response dictionary echoes under the reserved key, read in
/// any of the accepted spellings.
pub open spec fn msg_id_of(d: Map<Seq<char>, MsgView>) -> Option<u64> {
    if d.contains_key("_id"@) {
        spec_value_as_u64(d["_id"@])
    } else {
        None
    }
}

/// Why a receive failed.
pub enum RecvErrKind {
    /// The stream closed in the middle of a frame header.
    ClosedHeader,
    /// The stream closed in the middle of a frame body.
    ClosedBody,
    /// A frame's payload did not decode to a message value.
    Undecodable,
    /// A decoded message was not a text-keyed map, or carried no readable
    /// identity: the peer is likely incompatible.
    NoIdentity,
    /// The simulator reported an error in the awaited response.
    Sim(ErrView),
}

/// What a receive yields: the awaited dictionary, or a classified failure —
/// in either case together with the buffer and stream position it leaves
/// behind.
pub enum RecvOutcome {
    Delivered { dict: Map<Seq<char>, MsgView>, pending: Map<u64, PayloadView>, pos: int },
    Refused { err: RecvErrKind, pending: Map<u64, PayloadView>, pos: int },
}

/// Whether an error reports a receive failure of the given kind, message for
/// message where the kind pins one; a decode failure's message comes from
/// the deserializer and only its kind is pinned.
pub open spec fn recv_err_matches(e: ErrView, k: RecvErrKind) -> bool {
    match k {
        RecvErrKind::ClosedHeader => e == ErrView::Disconnected(
            "Connection closed while reading frame header"@,
        ),
        RecvErrKind::ClosedBody => e == ErrView::Disconnected(
            "Connection closed while reading frame body"@,
        ),
        RecvErrKind::Undecodable => e is MsgpackDecode,
        RecvErrKind::NoIdentity => e == ErrView::MissingId,
        RecvErrKind::Sim(ev) => e == ev,
    }
}

/// What reading frames off the received bytes until the awaited identity
/// appears yields, one frame at a time: a frame for another identity is
/// classified and buffered under that identity, a frame for the awaited one
/// is delivered (or surfaces the simulator error it carries), and a frame
/// that cannot be read through to an identity ends the receive with the
/// failure saying why.
pub open spec fn spec_recv_stream(
    pending: Map<u64, PayloadView>,
    id: u64,
    data: Seq<u8>,
    pos: int,
) -> RecvOutcome
    decreases data.len() - pos,
{
    if !frame_ok(data, pos) {
        if pos + 4 > data.len() {
            RecvOutcome::Refused { err: RecvErrKind::ClosedHeader, pending, pos }
        } else {
            RecvOutcome::Refused { err: RecvErrKind::ClosedBody, pending, pos }
        }
    } else {
        let payload = frame_payload(data, pos);
        let pos2 = frame_end(data, pos);
        match msgpack_value(payload) {
            Option::None => RecvOutcome::Refused {
                err: RecvErrKind::Undecodable,
                pending,
                pos: pos2,
            },
            Option::Some(v) => match v {
                MsgView::Dict(pairs) => match str_dict_of(pairs) {
                    Option::None => RecvOutcome::Refused {
                        err: RecvErrKind::NoIdentity,
                        pending,
                        pos: pos2,
                    },
                    Option::Some(d) => match msg_id_of(d) {
                        Option::None => RecvOutcome::Refused {
                            err: RecvErrKind::NoIdentity,
                            pending,
                            pos: pos2,
                        },
                        Option::Some(mid) => if mid == id {
                            match sim_error_of(d) {
                                Option::Some(e) => RecvOutcome::Refused {
                                    err: RecvErrKind::Sim(e),
                                    pending,
                                    pos: pos2,
                                },
                                Option::None => RecvOutcome::Delivered {
                                    dict: d,
                                    pending,
                                    pos: pos2,
                                },
                            }
                        } else {
                            spec_recv_stream(pending.insert(mid, classify(d)), id, data, pos2)
                        },
                    },
                },
                _ => RecvOutcome::Refused { err: RecvErrKind::NoIdentity, pending, pos: pos2 },
            },
        }
    }
}

/// What a whole receive yields: the buffered response for the identity if
/// one is waiting — removed from the buffer as it goes — else whatever the
/// stream holds, as [`spec_recv_stream`] reads it.
pub open spec fn spec_recv(
    pending: Map<u64, PayloadView>,
    id: u64,
    data: Seq<u8>,
    pos: int,
) -> RecvOutcome {
    if pending.contains_key(id) {
        match pending[id] {
            PayloadView::Success(d) => RecvOutcome::Delivered {
                dict: d,
                pending: pending.remove(id),
                pos,
            },
            PayloadView::SimError(e) => RecvOutcome::Refused {
                err: RecvErrKind::Sim(e),
                pending: pending.remove(id),
                pos,
            },
        }
    } else {
        spec_recv_stream(pending, id, data, pos)
    }
}

impl Connection {
    /// The simulator error a response dictionary carries, if any: generic
    /// errors under the one key, value/argument errors under the other, the
    /// value's native text as the message (with a fixed fallback where it is
    /// not text).
    pub fn check_sim_error(dict: &StrDict) -> (r: Option<BngError>)
        requires
            dict.wf(),
        ensures
            r is Some <==> sim_error_of(dict@) is Some,
            r is Some ==> r->0@ == sim_error_of(dict@)->0,
    {
        if let Some(v) = dict.get(&"bngError".to_owned()) {
            let msg = match v {
                MsgValue::Text(s) => s.clone(),
                _ => "unknown error".to_owned(),
            };
            return Some(BngError::SimulatorError(msg));
        }
        if let Some(v) = dict.get(&"bngValueError".to_owned()) {
            let msg = match v {
                MsgValue::Text(s) => s.clone(),
                _ => "unknown value error".to_owned(),
            };
            return Some(BngError::ValueError(msg));
        }
        None
    }

    /// Wait for the response with the given identity.
    ///
    /// A buffered response for the identity is consumed first. Otherwise
    /// frames are read off the received bytes one at a time: each is decoded
    /// and classified, one for another identity is buffered for whoever
    /// awaits it, and one for the awaited identity is returned — as the
    /// dictionary itself, or as the simulator error it carries. A response
    /// without a readable identity fails the receive, as does a frame that
    /// does not decode or a stream that closed mid-frame; [`spec_recv`] pins
    /// every one of these outcomes, the buffer left behind included.
    ///
    /// Correlation is cooperative: there is no background dispatcher, so a
    /// caller that sends but never receives leaves its response buffered
    /// indefinitely once some other receive has read it off the stream.
    #[verifier::loop_isolation(false)]
    pub fn recv(&mut self, req_id: u64, data: &Vec<u8>, pos: &mut usize) -> (r: Result<
        StrDict,
        BngError,
    >)
        requires
            old(self).wf(),
            *old(pos) <= data@.len(),
        ensures
            final(self).wf(),
            final(self).next_req_id() == old(self).next_req_id(),
            final(self).outbox_bytes() == old(self).outbox_bytes(),
            *final(pos) <= data@.len(),
            ({
                let o = spec_recv(old(self).pending(), req_id, data@, *old(pos) as int);
                match o {
                    RecvOutcome::Delivered { dict, pending, pos: p } => {
                        &&& r is Ok
                        &&& r->Ok_0@ == dict
                        &&& r->Ok_0.wf()
                        &&& final(self).pending() == pending
                        &&& *final(pos) == p
                    },
                    RecvOutcome::Refused { err, pending, pos: p } => {
                        &&& r is Err
                        &&& recv_err_matches(r->Err_0@, err)
                        &&& final(self).pending() == pending
                        &&& *final(pos) == p
                    },
                }
            }),
    {
        if let Some(p) = self.take_buffered(req_id) {
            proof {
                assert(old(self).pending().contains_key(req_id));
            }
            return match p {
                ResponsePayload::Success(d) => Ok(d),
                ResponsePayload::SimError(e) => Err(e),
            };
        }
        proof {
            assert(self.pending() =~= old(self).pending());
        }
        loop
            invariant
                *pos <= data@.len(),
                self.wf(),
                self.req_id == old(self).req_id,
                self.outbox@ == old(self).outbox@,
                spec_recv(old(self).pending(), req_id, data@, *old(pos) as int)
                    == spec_recv_stream(self.pending(), req_id, data@, *pos as int),
            decreases data@.len() - *pos,
        {
            let (payload, new_pos) = match read_frame(data, *pos) {
                Ok(x) => x,
                Err(e) => {
                    return Err(e);
                },
            };
            let frame_pos = *pos;
            *pos = new_pos;
            let m = match decode_message(&payload) {
                Ok(v) => v,
                Err(e) => {
                    return Err(e);
                },
            };
            let dict = match value_to_str_dict(m) {
                Some(d) => d,
                None => {
                    return Err(BngError::MissingId);
                },
            };
            let mid = match dict.get(&"_id".to_owned()) {
                Some(v) => match value_as_u64(v) {
                    Some(u) => u,
                    None => {
                        return Err(BngError::MissingId);
                    },
                },
                None => {
                    return Err(BngError::MissingId);
                },
            };
            let fault = Self::check_sim_error(&dict);
            if mid == req_id {
                return match fault {
                    Some(e) => Err(e),
                    None => Ok(dict),
                };
            }
            let ghost pending_before = self.pending();
            let stored = match fault {
                Some(e) => ResponsePayload::SimError(e),
                None => ResponsePayload::Success(dict),
            };
            proof {
                assert(stored@ == classify(dict@));
            }
            self.insert_buffered(mid, stored);
            proof {
                assert(spec_recv_stream(pending_before, req_id, data@, frame_pos as int)
                    == spec_recv_stream(pending_before.insert(mid, classify(dict@)), req_id, data@, new_pos as int));
            }
        }
    }
}

/// The text a dictionary holds under a key, in either spelling; empty where
/// the key is absent or its value does not read as text.
pub open spec fn text_field(d: Map<Seq<char>, MsgView>, key: Seq<char>) -> Seq<char> {
    if d.contains_key(key) && spec_value_text(d[key]) is Some {
        spec_value_text(d[key])->0
    } else {
        Seq::empty()
    }
}

impl Connection {
    /// Read a dictionary's text under a key, with empty text where it is
    /// absent or unreadable.
    fn get_text_field(dict: &StrDict, key: &String) -> (r: String)
        requires
            dict.wf(),
        ensures
            r@ == text_field(dict@, key@),
    {
        match dict.get(key) {
            Some(v) => match value_as_str(v) {
                Some(s) => s,
                None => String::new(),
            },
            None => String::new(),
        }
    }

    /// Send a request and wait for the correlated response: the common
    /// synchronous-call pattern, [`Connection::send_raw`] followed by
    /// [`Connection::recv`] on the identity it assigned.
    pub fn request(&mut self, req_type: &str, fields: Vec<(String, MsgValue)>, data: &Vec<u8>, pos: &mut usize) -> (r: Result<StrDict, BngError>)
        requires
            old(self).wf(),
            old(self).next_req_id() < u64::MAX,
            *old(pos) <= data@.len(),
        ensures
            final(self).wf(),
            final(self).next_req_id() == old(self).next_req_id() + 1,
            *final(pos) <= data@.len(),
            ({
                let msg = request_msg(req_type@, old(self).next_req_id(), fields_views(fields@));
                let sendable = wire_sized(msg, VALUE_DEPTH_LIMIT as int) && msgpack_bytes(msg).len() <= u32::MAX;
                if !sendable {
                    &&& r is Err
                    &&& r->Err_0 is MsgpackEncode
                    &&& final(self).outbox_bytes() == old(self).outbox_bytes()
                    &&& final(self).pending() == old(self).pending()
                    &&& *final(pos) == *old(pos)
                } else {
                    &&& final(self).outbox_bytes() == old(self).outbox_bytes() + frame_of(msgpack_bytes(msg))
                    &&& (match spec_recv(old(self).pending(), old(self).next_req_id(), data@, *old(pos) as int) {
                        RecvOutcome::Delivered { dict, pending, pos: p } => {
                            &&& r is Ok
                            &&& r->Ok_0@ == dict
                            &&& r->Ok_0.wf()
                            &&& final(self).pending() == pending
                            &&& *final(pos) == p
                        },
                        RecvOutcome::Refused { err, pending, pos: p } => {
                            &&& r is Err
                            &&& recv_err_matches(r->Err_0@, err)
                            &&& final(self).pending() == pending
                            &&& *final(pos) == p
                        },
                    })
                }
            }),
    {
        let req_id = match self.send_raw(req_type, fields) {
            Ok(id) => id,
            Err(e) => {
                return Err(e);
            },
        };
        self.recv(req_id, data, pos)
    }
}

impl Connection {
    /// Send a typed request and verify that the response's `type` equals the
    /// expected acknowledgement type: the ack pattern. A response of any
    /// other type is an unexpected-response-type failure carrying both.
    pub fn ack(&mut self, req_type: &str, ack_type: &str, fields: Vec<(String, MsgValue)>, data: &Vec<u8>, pos: &mut usize) -> (r: Result<(), BngError>)
        requires
            old(self).wf(),
            old(self).next_req_id() < u64::MAX,
            *old(pos) <= data@.len(),
        ensures
            final(self).wf(),
            final(self).next_req_id() == old(self).next_req_id() + 1,
            *final(pos) <= data@.len(),
            ({
                let msg = request_msg(req_type@, old(self).next_req_id(), fields_views(fields@));
                let sendable = wire_sized(msg, VALUE_DEPTH_LIMIT as int) && msgpack_bytes(msg).len() <= u32::MAX;
                if !sendable {
                    &&& r is Err
                    &&& r->Err_0 is MsgpackEncode
                    &&& final(self).pending() == old(self).pending()
                    &&& *final(pos) == *old(pos)
                } else {
                    match spec_recv(old(self).pending(), old(self).next_req_id(), data@, *old(pos) as int) {
                        RecvOutcome::Delivered { dict, pending, pos: p } => {
                            &&& final(self).pending() == pending
                            &&& *final(pos) == p
                            &&& if text_field(dict, "type"@) == ack_type@ {
                                r is Ok
                            } else {
                                r is Err && r->Err_0@ == (ErrView::UnexpectedResponseType {
                                    expected: ack_type@,
                                    got: text_field(dict, "type"@),
                                })
                            }
                        },
                        RecvOutcome::Refused { err, pending, pos: p } => {
                            &&& r is Err
                            &&& recv_err_matches(r->Err_0@, err)
                            &&& final(self).pending() == pending
                            &&& *final(pos) == p
                        },
                    }
                }
            }),
    {
        let resp = match self.request(req_type, fields, data, pos) {
            Ok(d) => d,
            Err(e) => {
                return Err(e);
            },
        };
        match Self::check_response_type(&resp, ack_type) {
            Ok(()) => Ok(()),
            Err(e) => Err(e),
        }
    }

    /// Send a typed request, verify that the response's `type` echoes the
    /// request's, and hand out the response's `result` field if it carries
    /// one.
    pub fn message(&mut self, req_type: &str, fields: Vec<(String, MsgValue)>, data: &Vec<u8>, pos: &mut usize) -> (r: Result<Option<MsgValue>, BngError>)
        requires
            old(self).wf(),
            old(self).next_req_id() < u64::MAX,
            *old(pos) <= data@.len(),
        ensures
            final(self).wf(),
            final(self).next_req_id() == old(self).next_req_id() + 1,
            *final(pos) <= data@.len(),
            ({
                let msg = request_msg(req_type@, old(self).next_req_id(), fields_views(fields@));
                let sendable = wire_sized(msg, VALUE_DEPTH_LIMIT as int) && msgpack_bytes(msg).len() <= u32::MAX;
                if !sendable {
                    &&& r is Err
                    &&& r->Err_0 is MsgpackEncode
                    &&& final(self).pending() == old(self).pending()
                    &&& *final(pos) == *old(pos)
                } else {
                    match spec_recv(old(self).pending(), old(self).next_req_id(), data@, *old(pos) as int) {
                        RecvOutcome::Delivered { dict, pending, pos: p } => {
                            &&& final(self).pending() == pending
                            &&& *final(pos) == p
                            &&& if text_field(dict, "type"@) == req_type@ {
                                &&& r is Ok
                                &&& (dict.contains_key("result"@) ==> r->Ok_0 is Some
                                    && r->Ok_0->0@ == dict["result"@])
                                &&& (!dict.contains_key("result"@) ==> r->Ok_0 is None)
                            } else {
                                r is Err && r->Err_0@ == (ErrView::UnexpectedResponseType {
                                    expected: req_type@,
                                    got: text_field(dict, "type"@),
                                })
                            }
                        },
                        RecvOutcome::Refused { err, pending, pos: p } => {
                            &&& r is Err
                            &&& recv_err_matches(r->Err_0@, err)
                            &&& final(self).pending() == pending
                            &&& *final(pos) == p
                        },
                    }
                }
            }),
    {
        let mut resp = match self.request(req_type, fields, data, pos) {
            Ok(d) => d,
            Err(e) => {
                return Err(e);
            },
        };
        if let Err(e) = Self::check_response_type(&resp, req_type) {
            return Err(e);
        }
        Ok(resp.remove(&"result".to_owned()))
    }

    /// Perform the version handshake that gates all further traffic: send a
    /// `Hello` request carrying this client's protocol version, and demand a
    /// `Hello` response echoing that exact version string.
    ///
    /// A differing version fails with a protocol-mismatch condition naming
    /// both versions; a response of another type is an
    /// unexpected-response-type failure. Either way the connection is not to
    /// be used further. On the first exchange of a connection this consumes
    /// identity zero.
    pub fn hello(&mut self, data: &Vec<u8>, pos: &mut usize) -> (r: Result<(), BngError>)
        requires
            old(self).wf(),
            old(self).next_req_id() < u64::MAX,
            *old(pos) <= data@.len(),
        ensures
            final(self).wf(),
            final(self).next_req_id() == old(self).next_req_id() + 1,
            *final(pos) <= data@.len(),
            ({
                let msg = request_msg(
                    "Hello"@,
                    old(self).next_req_id(),
                    seq![("protocolVersion"@, MsgView::Text("v1.26"@))],
                );
                let sendable = wire_sized(msg, VALUE_DEPTH_LIMIT as int) && msgpack_bytes(msg).len() <= u32::MAX;
                if !sendable {
                    &&& r is Err
                    &&& r->Err_0 is MsgpackEncode
                    &&& final(self).pending() == old(self).pending()
                    &&& *final(pos) == *old(pos)
                } else {
                    match spec_recv(old(self).pending(), old(self).next_req_id(), data@, *old(pos) as int) {
                        RecvOutcome::Delivered { dict, pending, pos: p } => {
                            &&& final(self).pending() == pending
                            &&& *final(pos) == p
                            &&& if text_field(dict, "protocolVersion"@) != "v1.26"@ {
                                r is Err && r->Err_0@ == (ErrView::ProtocolMismatch(
                                    "BeamNGpy's is: "@ + "v1.26"@ + ", BeamNG.tech's is: "@
                                        + text_field(dict, "protocolVersion"@),
                                ))
                            } else if text_field(dict, "type"@) != "Hello"@ {
                                r is Err && r->Err_0@ == (ErrView::UnexpectedResponseType {
                                    expected: "Hello"@,
                                    got: text_field(dict, "type"@),
                                })
                            } else {
                                r is Ok
                            }
                        },
                        RecvOutcome::Refused { err, pending, pos: p } => {
                            &&& r is Err
                            &&& recv_err_matches(r->Err_0@, err)
                            &&& final(self).pending() == pending
                            &&& *final(pos) == p
                        },
                    }
                }
            }),
    {
        let mut fields: Vec<(String, MsgValue)> = Vec::new();
        fields.push(("protocolVersion".to_owned(), MsgValue::Text(PROTOCOL_VERSION.to_owned())));
        proof {
            assert(fields_views(fields@) =~= seq![("protocolVersion"@, MsgView::Text("v1.26"@))]);
        }
        let resp = match self.request("Hello", fields, data, pos) {
            Ok(d) => d,
            Err(e) => {
                return Err(e);
            },
        };
        match Self::check_hello_response(&resp) {
            Ok(()) => Ok(()),
            Err(e) => Err(e),
        }
    }
}

impl Connection {
    /// Judge a response against an expected type: the response's `type` text
    /// must equal it, else the mismatch is an unexpected-response-type
    /// failure carrying both.
    pub fn check_response_type(resp: &StrDict, expected: &str) -> (r: Result<(), BngError>)
        requires
            resp.wf(),
        ensures
            r is Ok <==> text_field(resp@, "type"@) == expected@,
            r is Err ==> r->Err_0@ == (ErrView::UnexpectedResponseType {
                expected: expected@,
                got: text_field(resp@, "type"@),
            }),
    {
        let got = Self::get_text_field(resp, &"type".to_owned());
        if !got.eq(&expected.to_owned()) {
            return Err(BngError::UnexpectedResponseType { expected: expected.to_owned(), got });
        }
        Ok(())
    }

    /// Judge a handshake response: its `protocolVersion` text must echo this
    /// client's version exactly — else the mismatch fails with a
    /// protocol-mismatch condition naming both versions — and its `type`
    /// must be `Hello`.
    pub fn check_hello_response(resp: &StrDict) -> (r: Result<(), BngError>)
        requires
            resp.wf(),
        ensures
            r is Ok <==> (text_field(resp@, "protocolVersion"@) == "v1.26"@ && text_field(
                resp@,
                "type"@,
            ) == "Hello"@),
            r is Err && text_field(resp@, "protocolVersion"@) != "v1.26"@ ==> r->Err_0@
                == (ErrView::ProtocolMismatch(
                "BeamNGpy's is: "@ + "v1.26"@ + ", BeamNG.tech's is: "@ + text_field(
                    resp@,
                    "protocolVersion"@,
                ),
            )),
            r is Err && text_field(resp@, "protocolVersion"@) == "v1.26"@ ==> r->Err_0@
                == (ErrView::UnexpectedResponseType {
                expected: "Hello"@,
                got: text_field(resp@, "type"@),
            }),
    {
        let version = Self::get_text_field(resp, &"protocolVersion".to_owned());
        if !version.eq(&PROTOCOL_VERSION.to_owned()) {
            let msg = "BeamNGpy's is: ".to_owned().concat(PROTOCOL_VERSION).concat(
                ", BeamNG.tech's is: ",
            ).concat(version.as_str());
            return Err(BngError::ProtocolMismatch(msg));
        }
        Self::check_response_type(resp, "Hello")
    }
}

/// Out-of-order correlation: where nothing waits buffered for the awaited
/// identity and the received bytes hold first a well-formed response for
/// some other identity, then one for the awaited identity, the receive
/// delivers the awaited response — and the other identity's classified
/// payload stays buffered for whoever awaits it.
pub proof fn lemma_out_of_order_correlation(
    pending: Map<u64, PayloadView>,
    id: u64,
    data: Seq<u8>,
    pos: int,
    other: Map<Seq<char>, MsgView>,
    awaited: Map<Seq<char>, MsgView>,
)
    requires
        !pending.contains_key(id),
        frame_ok(data, pos),
        ({
            let first = msgpack_value(frame_payload(data, pos));
            &&& first matches Some(v)
            &&& v matches MsgView::Dict(pairs)
            &&& str_dict_of(pairs) == Some(other)
        }),
        msg_id_of(other) is Some,
        msg_id_of(other)->0 != id,
        frame_ok(data, frame_end(data, pos)),
        ({
            let second = msgpack_value(frame_payload(data, frame_end(data, pos)));
            &&& second matches Some(v)
            &&& v matches MsgView::Dict(pairs)
            &&& str_dict_of(pairs) == Some(awaited)
        }),
        msg_id_of(awaited) == Some(id),
        sim_error_of(awaited) is None,
    ensures
        spec_recv(pending, id, data, pos) == (RecvOutcome::Delivered {
            dict: awaited,
            pending: pending.insert(msg_id_of(other)->0, classify(other)),
            pos: frame_end(data, frame_end(data, pos)),
        }),
        spec_recv(pending, id, data, pos)->Delivered_pending.contains_key(msg_id_of(other)->0),
{
    let mid = msg_id_of(other)->0;
    let pos2 = frame_end(data, pos);
    assert(spec_recv_stream(pending, id, data, pos) == spec_recv_stream(
        pending.insert(mid, classify(other)),
        id,
        data,
        pos2,
    ));
}

/// Simulator error surfacing: a response for the awaited identity that
/// carries the generic-error key fails the receive with the simulator-error
/// kind carrying that key's text; the value-error key, checked only when the
/// generic key is absent, fails it with the distinct value-error kind.
pub proof fn lemma_sim_error_surfaces(
    pending: Map<u64, PayloadView>,
    id: u64,
    data: Seq<u8>,
    pos: int,
    dict: Map<Seq<char>, MsgView>,
)
    requires
        !pending.contains_key(id),
        frame_ok(data, pos),
        ({
            let first = msgpack_value(frame_payload(data, pos));
            &&& first matches Some(v)
            &&& v matches MsgView::Dict(pairs)
            &&& str_dict_of(pairs) == Some(dict)
        }),
        msg_id_of(dict) == Some(id),
        dict.contains_key("bngError"@) || dict.contains_key("bngValueError"@),
    ensures
        spec_recv(pending, id, data, pos) == (RecvOutcome::Refused {
            err: RecvErrKind::Sim(sim_error_of(dict)->0),
            pending,
            pos: frame_end(data, pos),
        }),
        dict.contains_key("bngError"@) ==> sim_error_of(dict)->0 == ErrView::SimulatorError(
            err_text(dict["bngError"@], "unknown error"@),
        ),
        (!dict.contains_key("bngError"@) && dict.contains_key("bngValueError"@))
            ==> sim_error_of(dict)->0 == ErrView::ValueError(
            err_text(dict["bngValueError"@], "unknown value error"@),
        ),
{
}

/// Identity coercion: an identity echoed as a floating-point number whose
/// truncation equals the awaited identity still reads as that identity.
pub proof fn lemma_float_identity_matches(dict: Map<Seq<char>, MsgView>, bits: u64, id: u64)
    requires
        dict.contains_key("_id"@),
        dict["_id"@] == MsgView::Float(bits),
        crate::value::float_bits_trunc(bits) == id,
    ensures
        msg_id_of(dict) == Some(id),
{
}

} // verus!
