#![allow(non_snake_case)]
#![allow(non_camel_case_types)]

use crate::protocol::msg::is_opcode_byte;
use crate::protocol::msg::ErrorCode;
use crate::protocol::msg::RequestResponseCode;
use crate::protocol::msg::VERSION::MAX_VERSION_NUMBER_ENTRY;
use crate::protocol::GET_VERSION;
use crate::protocol::VersionNumberEntry;
use crate::protocol::VERSION;
use crate::utils::u16_of;
use crate::utils::Bytes;
use vstd::prelude::*;

verus! {

/// Configuration for a requester session.
pub struct RequesterConfig {
    pub SPDMVersion: u8,
}

/// The phases of the VCA negotiation, in the order they are passed.  Each
/// request phase is followed by the phase that waits for its response;
/// `Negotiated` is terminal.
#[derive(Clone, Copy, Debug, PartialEq, Eq, Structural)]
pub enum State {
    GET_VERSION,
    GET_VERSION_DONE,
    GET_CAPABILITIES,
    GET_CAPABILITIES_DONE,
    NEGOTIATE_ALGORITHMS,
    NEGOTIATE_ALGORITHMS_DONE,
    Negotiated,
}

/// What one requester session knows: its phase, and the raw 16-bit version
/// entry it settled on once the peer's VERSION response was consumed.
pub struct ReqView {
    pub state: State,
    pub version: Option<u16>,
}

/// One step's outcome: the value `vca` returns, the session view afterwards,
/// and the bytes placed at the start of the write buffer.
pub struct StepOutcome {
    pub result: Result<(nat, nat), ErrorCode>,
    pub next: ReqView,
    pub sent: Seq<u8>,
}

/// The largest raw entry among the first `count` version entries of the
/// VERSION message held in `read` (zero when `count` is zero).
pub open spec fn max_entry_raw(read: Seq<u8>, count: nat) -> u16
    decreases count,
{
    if count == 0 {
        0
    } else {
        let prev = max_entry_raw(read, (count - 1) as nat);
        let v = u16_of(read[6 + 2 * (count - 1)], read[7 + 2 * (count - 1)]);
        if v > prev {
            v
        } else {
            prev
        }
    }
}

/// A sending phase: when the write buffer has room for the 4-byte request
/// the message goes out and the phase advances; otherwise the step fails
/// without touching anything.
pub open spec fn send_spec(cur: ReqView, next_state: State, msg: Seq<u8>, wcap: nat) -> StepOutcome {
    if wcap >= 4 {
        StepOutcome {
            result: Ok((0, 4)),
            next: ReqView { state: next_state, version: cur.version },
            sent: msg,
        }
    } else {
        StepOutcome { result: Err(ErrorCode::Unspecified), next: cur, sent: Seq::empty() }
    }
}

/// A receiving phase for a header-only response: ask for the missing bytes,
/// reject a byte outside the opcode set as `InvalidRequest`, reject a
/// response other than `expected` as `UnexpectedRequest`, else advance.
pub open spec fn recv_header_spec(
    cur: ReqView,
    next_state: State,
    expected: u8,
    read: Seq<u8>,
) -> StepOutcome {
    if read.len() < 4 {
        StepOutcome { result: Ok(((4 - read.len()) as nat, 0)), next: cur, sent: Seq::empty() }
    } else if !is_opcode_byte(read[1]) {
        StepOutcome { result: Err(ErrorCode::InvalidRequest), next: cur, sent: Seq::empty() }
    } else if read[1] != expected {
        StepOutcome { result: Err(ErrorCode::UnexpectedRequest), next: cur, sent: Seq::empty() }
    } else {
        StepOutcome {
            result: Ok((0, 0)),
            next: ReqView { state: next_state, version: cur.version },
            sent: Seq::empty(),
        }
    }
}

/// The receiving phase for the VERSION response.  Insufficient bytes are
/// asked for; an unknown opcode, and a count over the protocol ceiling, are
/// malformed (`InvalidRequest`); a response without entries leaves no
/// version to pick (`MajorVersionMismatch`); otherwise the largest offered
/// entry is recorded and the phase advances.
pub open spec fn recv_version_spec(cur: ReqView, read: Seq<u8>) -> StepOutcome {
    if read.len() < 6 {
        StepOutcome { result: Ok(((6 - read.len()) as nat, 0)), next: cur, sent: Seq::empty() }
    } else if !is_opcode_byte(read[1]) {
        StepOutcome { result: Err(ErrorCode::InvalidRequest), next: cur, sent: Seq::empty() }
    } else if read[1] != 0x04 {
        StepOutcome { result: Err(ErrorCode::UnexpectedRequest), next: cur, sent: Seq::empty() }
    } else if read[5] > MAX_VERSION_NUMBER_ENTRY {
        StepOutcome { result: Err(ErrorCode::InvalidRequest), next: cur, sent: Seq::empty() }
    } else if read.len() < 6 + 2 * read[5] {
        StepOutcome {
            result: Ok(((6 + 2 * read[5] - read.len()) as nat, 0)),
            next: cur,
            sent: Seq::empty(),
        }
    } else if read[5] == 0 {
        StepOutcome { result: Err(ErrorCode::MajorVersionMismatch), next: cur, sent: Seq::empty() }
    } else {
        StepOutcome {
            result: Ok((0, 0)),
            next: ReqView {
                state: State::GET_CAPABILITIES,
                version: Some(max_entry_raw(read, read[5] as nat)),
            },
            sent: Seq::empty(),
        }
    }
}

/// What one `vca` step does, as a function of the session view, the readable
/// bytes and the write-buffer capacity.
pub open spec fn vca_spec(cur: ReqView, read: Seq<u8>, wcap: nat) -> StepOutcome {
    match cur.state {
        State::GET_VERSION => send_spec(
            cur,
            State::GET_VERSION_DONE,
            seq![0x10u8, 0x84u8, 0u8, 0u8],
            wcap,
        ),
        State::GET_VERSION_DONE => recv_version_spec(cur, read),
        State::GET_CAPABILITIES => send_spec(
            cur,
            State::GET_CAPABILITIES_DONE,
            seq![0x10u8, 0xE1u8, 0u8, 0u8],
            wcap,
        ),
        State::GET_CAPABILITIES_DONE => recv_header_spec(
            cur,
            State::NEGOTIATE_ALGORITHMS,
            0x61,
            read,
        ),
        State::NEGOTIATE_ALGORITHMS => send_spec(
            cur,
            State::NEGOTIATE_ALGORITHMS_DONE,
            seq![0x10u8, 0xE3u8, 0u8, 0u8],
            wcap,
        ),
        State::NEGOTIATE_ALGORITHMS_DONE => recv_header_spec(cur, State::Negotiated, 0x63, read),
        State::Negotiated => StepOutcome { result: Ok((0, 0)), next: cur, sent: Seq::empty() },
    }
}

/// One requester session: the current phase and, once known, the negotiated
/// version entry.
pub struct Requester {
    state: State,
    negotiated_version: Option<VersionNumberEntry>,
}

impl View for Requester {
    type V = ReqView;

    closed spec fn view(&self) -> ReqView {
        ReqView {
            state: self.state,
            version: match self.negotiated_version {
                Some(e) => Some(e.0),
                None => None,
            },
        }
    }
}

impl Requester {
    /// A fresh session, about to send GET_VERSION, with no version settled.
    pub fn new() -> (r: Self)
        ensures
            r@.state == State::GET_VERSION,
            r@.version is None,
    {
        Requester { state: State::GET_VERSION, negotiated_version: None }
    }

    /// The raw 16-bit version entry this session settled on: `None` until
    /// the peer's VERSION response has been consumed.
    pub fn negotiated(&self) -> (r: Option<u16>)
        ensures
            r == self@.version,
    {
        match self.negotiated_version {
            Some(e) => Some(e.0),
            None => None,
        }
    }

    /// Drive the Version / Capabilities / Algorithms negotiation one step:
    /// either serialize the next request into `write_buffer`, or consume the
    /// next response from `read_buffer`.  Returns `(bytes still needed from
    /// the peer, bytes produced for the peer)`; a shortfall of readable
    /// bytes does not advance the phase, a malformed or unexpected response
    /// fails the step, and the whole behaviour is `vca_spec` of the state,
    /// the readable bytes and the write capacity.
    pub fn vca(&mut self, read_buffer: &[u8], write_buffer: &mut [u8]) -> (r: Result<
        (usize, usize),
        ErrorCode,
    >)
        ensures
            ({
                let o = vca_spec(old(self)@, read_buffer@, old(write_buffer)@.len());
                &&& final(self)@ == o.next
                &&& final(write_buffer)@.len() == old(write_buffer)@.len()
                &&& final(write_buffer)@.subrange(0, o.sent.len() as int) == o.sent
                &&& final(write_buffer)@.skip(o.sent.len() as int) == old(write_buffer)@.skip(
                    o.sent.len() as int,
                )
                &&& match (r, o.result) {
                    (Ok((needed, produced)), Ok((sn, sp))) => needed == sn && produced == sp,
                    (Err(e), Err(se)) => e == se,
                    _ => false,
                }
            }),
    {
        match self.state {
            State::GET_VERSION => {
                let v = GET_VERSION::new();
                match v.to_bytes(write_buffer) {
                    Ok(nwrite) => {
                        self.state = State::GET_VERSION_DONE;
                        proof {
                            assert(v.enc() =~= seq![0x10u8, 0x84u8, 0u8, 0u8]);
                        }
                        Ok((0, nwrite))
                    },
                    Err(_) => {
                        proof {
                            assert(final(write_buffer)@.subrange(0, 0) =~= Seq::<u8>::empty());
                        }
                        Err(ErrorCode::Unspecified)
                    },
                }
            },
            State::GET_VERSION_DONE => {
                proof {
                    assert(final(write_buffer)@.subrange(0, 0) =~= Seq::<u8>::empty());
                }
                let len = read_buffer.len();
                if len < 6 {
                    return Ok((6 - len, 0));
                }
                let opcode = read_buffer[1];
                if let Err(e) = RequestResponseCode::try_from(opcode) {
                    return Err(e);
                }
                if opcode != 0x04 {
                    return Err(ErrorCode::UnexpectedRequest);
                }
                let count = read_buffer[5] as usize;
                if count > MAX_VERSION_NUMBER_ENTRY {
                    return Err(ErrorCode::InvalidRequest);
                }
                if len < 6 + 2 * count {
                    return Ok((6 + 2 * count - len, 0));
                }
                if count == 0 {
                    return Err(ErrorCode::MajorVersionMismatch);
                }
                let mut msg = VERSION::default();
                match msg.from_bytes(read_buffer) {
                    Ok(_) => {},
                    Err(_) => {
                        // A buffer long enough for its own count byte always
                        // decodes, so this arm cannot be reached.
                        proof {
                            assert(false);
                        }
                        return Err(ErrorCode::Unspecified);
                    },
                }
                let mut best: u16 = 0;
                let mut i: usize = 0;
                while i < count
                    invariant
                        i <= count,
                        count <= MAX_VERSION_NUMBER_ENTRY,
                        read_buffer@.len() >= 6 + 2 * count,
                        count == read_buffer@[5],
                        VERSION::dec_rel(read_buffer@, msg),
                        best == max_entry_raw(read_buffer@, i as nat),
                    decreases count - i,
                {
                    let e = msg.VersionNumberEntry1_n[i].0;
                    proof {
                        assert(msg.VersionNumberEntry1_n@[i as int].0 == u16_of(
                            read_buffer@[6 + 2 * (i as int)],
                            read_buffer@[7 + 2 * (i as int)],
                        ));
                    }
                    if e > best {
                        best = e;
                    }
                    i = i + 1;
                }
                self.state = State::GET_CAPABILITIES;
                self.negotiated_version = Some(VersionNumberEntry(best));
                Ok((0, 0))
            },
            State::GET_CAPABILITIES => {
                match Self::write_header(write_buffer, 0xE1) {
                    Some(nwrite) => {
                        self.state = State::GET_CAPABILITIES_DONE;
                        Ok((0, nwrite))
                    },
                    None => {
                        proof {
                            assert(final(write_buffer)@.subrange(0, 0) =~= Seq::<u8>::empty());
                        }
                        Err(ErrorCode::Unspecified)
                    },
                }
            },
            State::GET_CAPABILITIES_DONE => {
                proof {
                    assert(final(write_buffer)@.subrange(0, 0) =~= Seq::<u8>::empty());
                }
                let len = read_buffer.len();
                if len < 4 {
                    return Ok((4 - len, 0));
                }
                let opcode = read_buffer[1];
                if let Err(e) = RequestResponseCode::try_from(opcode) {
                    return Err(e);
                }
                if opcode != 0x61 {
                    return Err(ErrorCode::UnexpectedRequest);
                }
                self.state = State::NEGOTIATE_ALGORITHMS;
                Ok((0, 0))
            },
            State::NEGOTIATE_ALGORITHMS => {
                match Self::write_header(write_buffer, 0xE3) {
                    Some(nwrite) => {
                        self.state = State::NEGOTIATE_ALGORITHMS_DONE;
                        Ok((0, nwrite))
                    },
                    None => {
                        proof {
                            assert(final(write_buffer)@.subrange(0, 0) =~= Seq::<u8>::empty());
                        }
                        Err(ErrorCode::Unspecified)
                    },
                }
            },
            State::NEGOTIATE_ALGORITHMS_DONE => {
                proof {
                    assert(final(write_buffer)@.subrange(0, 0) =~= Seq::<u8>::empty());
                }
                let len = read_buffer.len();
                if len < 4 {
                    return Ok((4 - len, 0));
                }
                let opcode = read_buffer[1];
                if let Err(e) = RequestResponseCode::try_from(opcode) {
                    return Err(e);
                }
                if opcode != 0x63 {
                    return Err(ErrorCode::UnexpectedRequest);
                }
                self.state = State::Negotiated;
                Ok((0, 0))
            },
            State::Negotiated => {
                proof {
                    assert(final(write_buffer)@.subrange(0, 0) =~= Seq::<u8>::empty());
                }
                Ok((0, 0))
            },
        }
    }

    /// Serialize the 4-byte header of a request carrying no payload:
    /// SPDM version 1.0, the given opcode, zero parameters.
    fn write_header(write_buffer: &mut [u8], opcode: u8) -> (r: Option<usize>)
        ensures
            final(write_buffer)@.len() == old(write_buffer)@.len(),
            match r {
                Some(n) => {
                    &&& n == 4
                    &&& old(write_buffer)@.len() >= 4
                    &&& final(write_buffer)@.subrange(0, 4) == seq![0x10u8, opcode, 0u8, 0u8]
                    &&& final(write_buffer)@.skip(4) == old(write_buffer)@.skip(4)
                },
                None => {
                    &&& old(write_buffer)@.len() < 4
                    &&& final(write_buffer)@ == old(write_buffer)@
                },
            },
    {
        if write_buffer.len() < 4 {
            return None;
        }
        write_buffer[0] = 0x10;
        write_buffer[1] = opcode;
        write_buffer[2] = 0;
        write_buffer[3] = 0;
        proof {
            assert(final(write_buffer)@.subrange(0, 4) =~= seq![0x10u8, opcode, 0u8, 0u8]);
            assert(final(write_buffer)@.skip(4) =~= old(write_buffer)@.skip(4));
        }
        Some(4)
    }
}

/// Law: a fresh session's first step writes the 4-byte GET_VERSION request
/// (version 1.0, opcode 0x84, zero parameters), reports that nothing is
/// needed from the peer, and moves to waiting for the VERSION response.
pub proof fn lemma_first_step_sends_get_version(cur: ReqView, read: Seq<u8>, wcap: nat)
    requires
        cur.state == State::GET_VERSION,
        wcap >= 4,
    ensures
        vca_spec(cur, read, wcap).result == Ok::<(nat, nat), ErrorCode>((0, 4)),
        vca_spec(cur, read, wcap).sent == seq![0x10u8, 0x84u8, 0u8, 0u8],
        vca_spec(cur, read, wcap).next.state == State::GET_VERSION_DONE,
        vca_spec(cur, read, wcap).next.version == cur.version,
{
}

/// Law: once negotiated, every further step returns `(0, 0)`, writes
/// nothing, and leaves the session exactly as it was.
pub proof fn lemma_negotiated_is_idempotent(cur: ReqView, read: Seq<u8>, wcap: nat)
    requires
        cur.state == State::Negotiated,
    ensures
        vca_spec(cur, read, wcap).result == Ok::<(nat, nat), ErrorCode>((0, 0)),
        vca_spec(cur, read, wcap).next == cur,
        vca_spec(cur, read, wcap).sent == Seq::<u8>::empty(),
{
}

/// Law: in any receiving phase, a header whose opcode byte lies outside the
/// closed opcode set is rejected as `InvalidRequest` and the session does
/// not advance.
pub proof fn lemma_unknown_opcode_rejected(cur: ReqView, read: Seq<u8>, wcap: nat)
    requires
        (cur.state == State::GET_VERSION_DONE && read.len() >= 6) || ((cur.state
            == State::GET_CAPABILITIES_DONE || cur.state == State::NEGOTIATE_ALGORITHMS_DONE)
            && read.len() >= 4),
        !is_opcode_byte(read[1]),
    ensures
        vca_spec(cur, read, wcap).result == Err::<(nat, nat), ErrorCode>(
            ErrorCode::InvalidRequest,
        ),
        vca_spec(cur, read, wcap).next == cur,
{
}

} // verus!
