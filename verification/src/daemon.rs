//! The bridge daemon's decision core: it owns the output sequence counter
//! and the exactly-once exit report, frames outbound messages, and decides
//! what each inbound control line asks for. The surrounding process plumbing
//! (standard streams, the session's reader thread) performs the actions.

use vstd::prelude::*;

use base64::Engine;

use crate::protocol::{
    exit_line_v, is_blank, is_blank_v, output_line_v, parse_msg_v, parse_to_pty,
    render_exit_line, render_output_line, ToPty, ToPtyV,
};

verus! {

#[verifier::external_type_specification]
#[verifier::external_body]
pub struct ExDecodeError(base64::DecodeError);

/// The transport form that the standard base64 engine gives a byte
/// sequence.
pub uninterp spec fn b64_of(bytes: Seq<u8>) -> Seq<u8>;

/// The bytes a transport-form sequence decodes to, when it is well formed.
pub uninterp spec fn b64_decoded(text: Seq<u8>) -> Option<Seq<u8>>;

/// A byte of the standard base64 alphabet or its padding: none of them
/// needs escaping inside a JSON string.
pub open spec fn is_b64_byte(b: u8) -> bool {
    ('A' as u8 <= b && b <= 'Z' as u8) || ('a' as u8 <= b && b <= 'z' as u8) || ('0' as u8 <= b
        && b <= '9' as u8) || b == '+' as u8 || b == '/' as u8 || b == '=' as u8
}

/// Relies on base64's Engine::encode with the standard padded alphabet
/// (RFC 4648): a function of the bytes alone, writing only alphabet and
/// padding bytes, and inverted by the engine's decode.
#[verifier::external_body]
fn b64_encode(bytes: &[u8]) -> (r: Vec<u8>)
    requires
        bytes@.len() <= 0x1000_0000,
    ensures
        r@ == b64_of(bytes@),
        forall|i: int| 0 <= i < r@.len() ==> is_b64_byte(#[trigger] r@[i]),
        b64_decoded(r@) == Some(bytes@),
{
    base64::engine::general_purpose::STANDARD.encode(bytes).into_bytes()
}

/// Relies on base64's Engine::decode with the standard padded alphabet:
/// Ok exactly on well-formed transport text, returning the encoded bytes.
#[verifier::external_body]
fn b64_decode(text: &[u8]) -> (r: Result<Vec<u8>, base64::DecodeError>)
    ensures
        r matches Ok(b) ==> b64_decoded(text@) == Some(b@),
        r is Ok <==> b64_decoded(text@) is Some,
{
    base64::engine::general_purpose::STANDARD.decode(text)
}

/// Why an inbound line was refused. Either failure is fatal to the daemon:
/// a desynchronized controller is unsafe to continue serving.
#[derive(Clone, Copy, PartialEq, Eq, Structural, Debug)]
pub enum ProtocolError {
    /// The line is not a well-formed control message.
    Malformed,
    /// The line carried input whose base64 payload does not decode.
    BadEncoding,
}

/// What a control line asks the surrounding process to do.
#[derive(Debug, PartialEq, Eq)]
pub enum ControlAction {
    /// A blank line: nothing.
    Idle,
    /// Write these bytes to the session's input.
    Write(Vec<u8>),
    /// Resize the session to this geometry, before any later write.
    Resize(u16, u16),
    /// Deliver the signal with this name to the hosted process.
    Signal(Vec<u8>),
}

/// The mathematical image of a `ControlAction`.
#[verifier::ext_equal]
pub enum ControlActionV {
    Idle,
    Write(Seq<u8>),
    Resize(u16, u16),
    Signal(Seq<u8>),
}

impl View for ControlAction {
    type V = ControlActionV;

    open spec fn view(&self) -> ControlActionV {
        match self {
            ControlAction::Idle => ControlActionV::Idle,
            ControlAction::Write(b) => ControlActionV::Write(b@),
            ControlAction::Resize(c, r) => ControlActionV::Resize(*c, *r),
            ControlAction::Signal(s) => ControlActionV::Signal(s@),
        }
    }
}

/// What one inbound line means: blank lines do nothing; a line that the
/// grammar rejects is `Malformed`; input whose payload does not decode is
/// `BadEncoding`; otherwise the decoded write, the resize, or the signal,
/// in receipt order — one action per line, so a resize received before
/// input always takes effect before that input is written.
pub open spec fn control_action_v(line: Seq<u8>) -> Result<ControlActionV, ProtocolError> {
    if is_blank_v(line) {
        Ok(ControlActionV::Idle)
    } else {
        match parse_msg_v(line) {
            None => Err(ProtocolError::Malformed),
            Some(ToPtyV::Input { data }) => match b64_decoded(data) {
                Some(b) => Ok(ControlActionV::Write(b)),
                None => Err(ProtocolError::BadEncoding),
            },
            Some(ToPtyV::Resize { cols, rows }) => Ok(ControlActionV::Resize(cols, rows)),
            Some(ToPtyV::Signal { sig }) => Ok(ControlActionV::Signal(sig)),
        }
    }
}

/// Decide what one control line asks for, as `control_action_v` states.
pub fn control_action(line: &[u8]) -> (r: Result<ControlAction, ProtocolError>)
    ensures
        r matches Ok(a) ==> control_action_v(line@) == Ok::<ControlActionV, ProtocolError>(a@),
        r matches Err(e) ==> control_action_v(line@) == Err::<ControlActionV, ProtocolError>(e),
{
    if is_blank(line) {
        return Ok(ControlAction::Idle);
    }
    match parse_to_pty(line) {
        None => Err(ProtocolError::Malformed),
        Some(ToPty::Input { data }) => match b64_decode(data.as_slice()) {
            Ok(bytes) => Ok(ControlAction::Write(bytes)),
            Err(_) => Err(ProtocolError::BadEncoding),
        },
        Some(ToPty::Resize { cols, rows }) => Ok(ControlAction::Resize(cols, rows)),
        Some(ToPty::Signal { sig }) => Ok(ControlAction::Signal(sig)),
    }
}

/// The exit code reported for a child: its raw code when it fits a signed
/// 32-bit value, and 1 otherwise.
pub open spec fn exit_code_v(raw: u32) -> nat {
    if raw <= 0x7FFF_FFFF {
        raw as nat
    } else {
        1
    }
}

/// The daemon's own state: the next output sequence number and whether the
/// exit report has been emitted. The exit report is the last message: no
/// output message may follow it.
pub struct Daemon {
    pub seq: u64,
    pub exited: bool,
}

impl Daemon {
    /// A fresh daemon: sequence numbers start at 0, no exit emitted.
    pub fn new() -> (d: Daemon)
        ensures
            d.seq == 0,
            !d.exited,
    {
        Daemon { seq: 0, exited: false }
    }

    /// Frame one chunk of session output: the chunk in transport form with
    /// this message's sequence number. Each call emits the current number
    /// and advances it by exactly one — numbers never repeat and never go
    /// backward.
    pub fn output_message(&mut self, chunk: &[u8]) -> (line: Vec<u8>)
        requires
            old(self).seq < u64::MAX,
            !old(self).exited,
            chunk@.len() <= 0x1000_0000,
        ensures
            final(self).seq == old(self).seq + 1,
            !final(self).exited,
            line@ == output_line_v(b64_of(chunk@), old(self).seq as nat),
    {
        let data = b64_encode(chunk);
        let line = render_output_line(data.as_slice(), self.seq);
        self.seq = self.seq + 1;
        line
    }

    /// Frame the exit report: the child's raw exit code (values that do not
    /// fit a signed 32-bit value are reported as 1) and the name of the
    /// signal that ended it, if one did. Callable once: afterwards no
    /// message can be emitted.
    pub fn exit_message(&mut self, raw_code: u32, signal: Option<&Vec<u8>>) -> (line: Vec<u8>)
        requires
            !old(self).exited,
        ensures
            final(self).exited,
            final(self).seq == old(self).seq,
            line@ == exit_line_v(
                exit_code_v(raw_code),
                match signal {
                    Some(sg) => Some(sg@),
                    None => None,
                },
            ),
    {
        let code: u64 = if raw_code <= 0x7FFF_FFFF {
            raw_code as u64
        } else {
            1
        };
        self.exited = true;
        render_exit_line(code, signal)
    }
}

/// The lines the output flow emits for a list of chunks, starting the
/// counter at `seq0`.
pub open spec fn flow_lines_v(seq0: nat, chunks: Seq<Seq<u8>>) -> Seq<Seq<u8>>
    decreases chunks.len(),
{
    if chunks.len() == 0 {
        Seq::empty()
    } else {
        seq![output_line_v(b64_of(chunks[0]), seq0)] + flow_lines_v(seq0 + 1, chunks.drop_first())
    }
}

proof fn lemma_flow_lines(seq0: nat, chunks: Seq<Seq<u8>>)
    ensures
        flow_lines_v(seq0, chunks).len() == chunks.len(),
        forall|i: int|
            0 <= i < chunks.len() ==> flow_lines_v(seq0, chunks)[i] == output_line_v(
                b64_of(chunks[i]),
                (seq0 + i) as nat,
            ),
    decreases chunks.len(),
{
    if chunks.len() > 0 {
        lemma_flow_lines(seq0 + 1, chunks.drop_first());
    }
}

/// Sequence numbers of one session's output flow: starting from a fresh
/// daemon, the i-th emitted output message carries sequence number exactly
/// i — they begin at 0 and increase by 1 per message, with no gap, repeat
/// or reordering.
pub proof fn lemma_sequence_numbers(chunks: Seq<Seq<u8>>)
    ensures
        flow_lines_v(0, chunks).len() == chunks.len(),
        forall|i: int|
            0 <= i < chunks.len() ==> flow_lines_v(0, chunks)[i] == output_line_v(
                b64_of(chunks[i]),
                i as nat,
            ),
{
    lemma_flow_lines(0, chunks);
}

} // verus!
