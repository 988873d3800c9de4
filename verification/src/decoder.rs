//! The streaming response decoder.
//!
//! A session consumes raw byte chunks of an HTTP response body and
//! emits the semantic events they encode. Three kinds of fragmentation
//! are handled: chunk boundaries inside a multi-byte character and
//! inside a logical `data:` line (an undecodable or unterminated tail is
//! carried in `pending_bytes` and prepended to the next chunk), a
//! terminated line whose payload does not yet parse (carried in
//! `pending_line`), and a whole-body error document that replaces the
//! event stream: while the decoded bytes still look like one, they
//! accumulate until the document parses and yields its single error
//! event.
//!
//! The behaviour of one decode cycle is fixed by the specification
//! function [`cycle`]; [`DecoderState::process_chunk`] is proved to
//! implement it exactly.

use vstd::prelude::*;

use crate::bytesutil::{subvec, trim, trim_vec, vec_eq, vec_starts_with};
use crate::chunk::{spec_parse_chunk, parse_chunk, ChunkM, Lits, byte_vec14};
use crate::errdoc::{spec_parse_error, parse_error_doc, ErrLits, ErrorDetail, ErrorDetailM};
use crate::utf8check::{check_utf8, utf8_status, Utf8Status};

verus! {

/// A terminal or transport-level failure surfaced as an event.
#[derive(Clone, Debug, PartialEq)]
pub enum StreamError {
    /// The server answered with a whole-body error document.
    Upstream(ErrorDetail),
    /// The assembled bytes can never decode as text.
    InvalidEncoding,
    /// The underlying chunk source failed; the message describes how.
    Transport(String),
}

/// One semantic event reconstructed from the stream.
#[derive(Clone, Debug, PartialEq)]
pub enum StreamEvent {
    /// An incremental content fragment to append to the message.
    Data(String),
    /// The server signalled completion of this response.
    Done,
    /// A failure converted into the event channel.
    Error(StreamError),
}

/// Mathematical image of a failure event.
pub enum ErrorM {
    Upstream(ErrorDetailM),
    InvalidEncoding,
    Transport(Seq<char>),
}

/// Mathematical image of an event.
pub enum EventM {
    Data(Seq<char>),
    Done,
    Error(ErrorM),
}

impl View for StreamError {
    type V = ErrorM;

    open spec fn view(&self) -> ErrorM {
        match self {
            StreamError::Upstream(e) => ErrorM::Upstream(e@),
            StreamError::InvalidEncoding => ErrorM::InvalidEncoding,
            StreamError::Transport(s) => ErrorM::Transport(s@),
        }
    }
}

impl View for StreamEvent {
    type V = EventM;

    open spec fn view(&self) -> EventM {
        match self {
            StreamEvent::Data(s) => EventM::Data(s@),
            StreamEvent::Done => EventM::Done,
            StreamEvent::Error(e) => EventM::Error(e@),
        }
    }
}

/// The cross-chunk state of one decode session, as the model sees it.
pub struct DecoderModel {
    /// Bytes carried into the next chunk: an undecodable or
    /// unterminated tail, or a whole-body error document still growing.
    pub pending_bytes: Option<Seq<u8>>,
    /// Payload of a terminated line that did not parse, awaiting its
    /// continuation.
    pub pending_line: Option<Seq<u8>>,
    /// Whether the whole-body error check is still pending.
    pub awaiting_first: bool,
}

/// The termination sentinel line, `data: [DONE]`.
pub open spec fn sentinel() -> Seq<u8> {
    seq![0x64u8, 0x61, 0x74, 0x61, 0x3a, 0x20, 0x5b, 0x44, 0x4f, 0x4e, 0x45, 0x5d]
}

/// The spaced data-event prefix, `data: `.
pub open spec fn data_prefix6() -> Seq<u8> {
    seq![0x64u8, 0x61, 0x74, 0x61, 0x3a, 0x20]
}

/// The unspaced data-event prefix, `data:`.
pub open spec fn data_prefix5() -> Seq<u8> {
    seq![0x64u8, 0x61, 0x74, 0x61, 0x3a]
}

/// The error-document prefix with four-space indentation.
pub open spec fn err_prefix4() -> Seq<u8> {
    seq![0x7bu8, 0x0a, 0x20, 0x20, 0x20, 0x20, 0x22, 0x65, 0x72, 0x72, 0x6f, 0x72, 0x22]
}

/// The error-document prefix with two-space indentation.
pub open spec fn err_prefix2() -> Seq<u8> {
    seq![0x7bu8, 0x0a, 0x20, 0x20, 0x22, 0x65, 0x72, 0x72, 0x6f, 0x72, 0x22]
}

/// Spec image of an optional byte buffer.
pub open spec fn opt_bytes(p: Option<Vec<u8>>) -> Option<Seq<u8>> {
    match p {
        Some(v) => Some(v@),
        None => None,
    }
}

/// Events produced by one successfully parsed chunk: the content of the
/// first choice's delta, if it carries any.
pub open spec fn chunk_events(c: ChunkM) -> Seq<EventM> {
    if c.choices.len() > 0 {
        match c.choices[0].delta.content {
            Some(txt) => seq![EventM::Data(txt)],
            None => seq![],
        }
    } else {
        seq![]
    }
}

/// Attempt to parse an accumulated payload; an unparseable payload is
/// kept as the new pending line.
pub open spec fn join_payload(cand: Seq<u8>) -> (Option<Seq<u8>>, Seq<EventM>) {
    match spec_parse_chunk(cand) {
        Some(c) => (None, chunk_events(c)),
        None => (Some(cand), seq![]),
    }
}

/// Interpret one trimmed, non-empty line under the current pending
/// payload: the sentinel emits `Done` and leaves the pending payload
/// alone; a line with a data prefix is stripped, appended to the
/// pending payload and parsed; a line with neither is discarded and
/// does not affect the pending payload.
pub open spec fn interp_line(pl: Option<Seq<u8>>, t: Seq<u8>) -> (Option<Seq<u8>>, Seq<EventM>) {
    if t == sentinel() {
        (pl, seq![EventM::Done])
    } else if t.len() >= 6 && t.subrange(0, 6) == data_prefix6() {
        join_payload(match pl {
            Some(p) => p + t.skip(6),
            None => t.skip(6),
        })
    } else if t.len() >= 5 && t.subrange(0, 5) == data_prefix5() {
        join_payload(match pl {
            Some(p) => p + t.skip(5),
            None => t.skip(5),
        })
    } else {
        (pl, seq![])
    }
}

/// Handle one raw line: trim it, discard it when blank.
pub open spec fn handle_one(pl: Option<Seq<u8>>, cur: Seq<u8>) -> (Option<Seq<u8>>, Seq<EventM>) {
    let t = trim(cur);
    if t.len() == 0 {
        (pl, seq![])
    } else {
        interp_line(pl, t)
    }
}

/// Fold [`handle_one`] over the lines of `s`, with `cur` the bytes of
/// the current line read so far. The final segment without a newline is
/// handled as a line of its own.
pub open spec fn run_lines(pl: Option<Seq<u8>>, s: Seq<u8>, cur: Seq<u8>) -> (
    Option<Seq<u8>>,
    Seq<EventM>,
)
    decreases s.len(),
{
    if s.len() == 0 {
        handle_one(pl, cur)
    } else if s[0] == 0x0a {
        let r1 = handle_one(pl, cur);
        let r2 = run_lines(r1.0, s.skip(1), Seq::empty());
        (r2.0, r1.1 + r2.1)
    } else {
        run_lines(pl, s.skip(1), cur.push(s[0]))
    }
}

/// Whether the decoded body begins with a recognized error-document
/// prefix in full.
pub open spec fn err_prefix_match(s: Seq<u8>) -> bool {
    (s.len() >= 13 && s.subrange(0, 13) == err_prefix4()) || (s.len() >= 11 && s.subrange(0, 11)
        == err_prefix2())
}

/// Whether `s` and `p` agree on their common length: either may still
/// grow into the other.
pub open spec fn prefix_compat(s: Seq<u8>, p: Seq<u8>) -> bool {
    if s.len() <= p.len() {
        s.is_prefix_of(p)
    } else {
        p.is_prefix_of(s)
    }
}

/// Whether the bytes decoded so far can still turn out to be a
/// whole-body error document: they carry a recognized prefix, or are
/// themselves a prefix of one.
pub open spec fn could_be_error_body(s: Seq<u8>) -> bool {
    prefix_compat(s, err_prefix4()) || prefix_compat(s, err_prefix2())
}

/// Index just after the last newline of `s`; bytes from there on form
/// an unterminated line tail that belongs to the next fragment.
pub open spec fn last_line_start(s: Seq<u8>) -> int
    decreases s.len(),
{
    if s.len() == 0 {
        0
    } else if s.last() == 0x0a {
        s.len() as int
    } else {
        last_line_start(s.drop_last())
    }
}

/// One decode cycle: assemble pending bytes with the chunk and classify
/// the buffer. While the whole-body error check is active and the bytes
/// still look like an error document, they accumulate until the
/// document parses and yields its one `Error` event. Otherwise the
/// terminated lines are processed in order and the unterminated tail is
/// carried over to the next chunk.
pub open spec fn cycle(m: DecoderModel, chunk: Seq<u8>) -> (DecoderModel, Seq<EventM>) {
    let buf = match m.pending_bytes {
        Some(p) => p + chunk,
        None => chunk,
    };
    match utf8_status(buf) {
        Utf8Status::Incomplete => (
            DecoderModel {
                pending_bytes: Some(buf),
                pending_line: m.pending_line,
                awaiting_first: m.awaiting_first,
            },
            seq![],
        ),
        Utf8Status::Invalid => (
            DecoderModel {
                pending_bytes: None,
                pending_line: m.pending_line,
                awaiting_first: m.awaiting_first,
            },
            seq![EventM::Error(ErrorM::InvalidEncoding)],
        ),
        Utf8Status::Valid => {
            if buf.len() == 0 {
                (
                    DecoderModel {
                        pending_bytes: None,
                        pending_line: m.pending_line,
                        awaiting_first: m.awaiting_first,
                    },
                    seq![],
                )
            } else if m.awaiting_first && could_be_error_body(buf) {
                match spec_parse_error(buf) {
                    Some(e) => (
                        DecoderModel {
                            pending_bytes: None,
                            pending_line: m.pending_line,
                            awaiting_first: false,
                        },
                        seq![EventM::Error(ErrorM::Upstream(e))],
                    ),
                    None => (
                        DecoderModel {
                            pending_bytes: Some(buf),
                            pending_line: m.pending_line,
                            awaiting_first: true,
                        },
                        seq![],
                    ),
                }
            } else {
                let cut = last_line_start(buf);
                let r = run_lines(m.pending_line, buf.take(cut), Seq::empty());
                (
                    DecoderModel {
                        pending_bytes: if cut == buf.len() {
                            None
                        } else {
                            Some(buf.skip(cut))
                        },
                        pending_line: r.0,
                        awaiting_first: false,
                    },
                    r.1,
                )
            }
        },
    }
}

/// The cross-chunk state of one live decode session.
pub struct DecoderState {
    pub pending_bytes: Option<Vec<u8>>,
    pub pending_line: Option<Vec<u8>>,
    pub awaiting_first: bool,
}

impl View for DecoderState {
    type V = DecoderModel;

    open spec fn view(&self) -> DecoderModel {
        DecoderModel {
            pending_bytes: opt_bytes(self.pending_bytes),
            pending_line: opt_bytes(self.pending_line),
            awaiting_first: self.awaiting_first,
        }
    }
}

/// Interpret one trimmed, non-empty line; implements [`interp_line`].
/// The first component of the result is the new pending payload, the
/// second the event the line produced, if any.
pub fn handle_line(pending: Option<Vec<u8>>, line: &Vec<u8>) -> (r: (
    Option<Vec<u8>>,
    Option<StreamEvent>,
))
    ensures
        ({
            let sr = interp_line(opt_bytes(pending), line@);
            opt_bytes(r.0) == sr.0 && (match r.1 {
                Some(e) => sr.1 == seq![e@],
                None => sr.1 == Seq::<EventM>::empty(),
            })
        }),
{
    let sent = byte_vec14(12, 0x64, 0x61, 0x74, 0x61, 0x3a, 0x20, 0x5b, 0x44, 0x4f, 0x4e, 0x45,
        0x5d, 0, 0);
    proof {
        assert(sent@ =~= sentinel());
    }
    if vec_eq(line, &sent) {
        return (pending, Some(StreamEvent::Done));
    }
    let p6 = byte_vec14(6, 0x64, 0x61, 0x74, 0x61, 0x3a, 0x20, 0, 0, 0, 0, 0, 0, 0, 0);
    let p5 = byte_vec14(5, 0x64, 0x61, 0x74, 0x61, 0x3a, 0, 0, 0, 0, 0, 0, 0, 0, 0);
    proof {
        assert(p6@ =~= data_prefix6());
        assert(p5@ =~= data_prefix5());
    }
    let payload: Vec<u8> = if vec_starts_with(line, &p6) {
        proof {
            assert(line@.subrange(0, 6) =~= data_prefix6());
            assert(line@.subrange(6, line@.len() as int) =~= line@.skip(6));
        }
        subvec(line, 6, line.len())
    } else if vec_starts_with(line, &p5) {
        proof {
            assert(line@.subrange(0, 5) =~= data_prefix5());
            assert(line@.subrange(5, line@.len() as int) =~= line@.skip(5));
            if line@.len() >= 6 {
                assert(line@.subrange(0, 6) != data_prefix6());
            }
        }
        subvec(line, 5, line.len())
    } else {
        proof {
            if line@.len() >= 6 && line@.subrange(0, 6) == data_prefix6() {
                assert(data_prefix6().is_prefix_of(line@));
            }
            if line@.len() >= 5 && line@.subrange(0, 5) == data_prefix5() {
                assert(data_prefix5().is_prefix_of(line@));
            }
        }
        return (pending, None);
    };
    let cand = assemble(&pending, &payload);
    join_exec(cand)
}

/// Parse an accumulated payload; implements [`join_payload`].
fn join_exec(cand: Vec<u8>) -> (r: (Option<Vec<u8>>, Option<StreamEvent>))
    ensures
        ({
            let sr = join_payload(cand@);
            opt_bytes(r.0) == sr.0 && (match r.1 {
                Some(e) => sr.1 == seq![e@],
                None => sr.1 == Seq::<EventM>::empty(),
            })
        }),
{
    let lits = Lits::new();
    match parse_chunk(&cand, &lits) {
        Some(c) => {
            if c.choices.len() > 0 {
                let got: Option<StreamEvent> = match &c.choices[0].delta.content {
                    Some(s) => Some(StreamEvent::Data(s.clone())),
                    None => None,
                };
                proof {
                    assert(c@.choices[0] == c.choices@.map_values(
                        |ch: crate::chunk::OpenAIStreamChunkChoice| ch@,
                    )[0]);
                }
                (None, got)
            } else {
                (None, None)
            }
        },
        None => (Some(cand), None),
    }
}

/// Assemble the held-back bytes and the new chunk into one buffer.
fn assemble(pending: &Option<Vec<u8>>, chunk: &Vec<u8>) -> (r: Vec<u8>)
    ensures
        r@ == (match *pending {
            Some(ref p) => p@ + chunk@,
            None => chunk@,
        }),
{
    let mut buf: Vec<u8> = match pending {
        Some(p) => subvec(p, 0, p.len()),
        None => Vec::new(),
    };
    let ghost pb = buf@;
    let mut i: usize = 0;
    while i < chunk.len()
        invariant
            0 <= i <= chunk.len(),
            buf@ == pb + chunk@.subrange(0, i as int),
        decreases chunk.len() - i,
    {
        buf.push(chunk[i]);
        i = i + 1;
        proof {
            assert(buf@ =~= pb + chunk@.subrange(0, i as int));
        }
    }
    proof {
        assert(buf@ =~= pb + chunk@);
        match *pending {
            Some(ref p) => {
                assert(pb + chunk@ =~= p@ + chunk@);
            },
            None => {
                assert(pb + chunk@ =~= chunk@);
            },
        }
    }
    buf
}

/// Split the decoded fragment on newlines and interpret each trimmed,
/// non-empty line in order; implements [`run_lines`].
#[verifier::rlimit(100)]
fn run_lines_exec(pl: Option<Vec<u8>>, buf: &Vec<u8>) -> (r: (Option<Vec<u8>>, Vec<StreamEvent>))
    ensures
        ({
            let sr = run_lines(opt_bytes(pl), buf@, Seq::empty());
            opt_bytes(r.0) == sr.0 && r.1@.map_values(|e: StreamEvent| e@) == sr.1
        }),
{
    let ghost bufs = buf@;
    let ghost pl0 = opt_bytes(pl);
    let mut pl = pl;
    let mut events: Vec<StreamEvent> = Vec::new();
    let mut ls: usize = 0;
    let mut pos: usize = 0;
    proof {
        assert(bufs.skip(0) =~= bufs);
        assert(bufs.subrange(0, 0) =~= Seq::<u8>::empty());
    }
    while pos < buf.len()
        invariant
            0 <= ls <= pos <= buf.len(),
            buf@ == bufs,
            ({
                let total = run_lines(pl0, bufs, Seq::empty());
                let fut = run_lines(
                    opt_bytes(pl),
                    bufs.skip(pos as int),
                    bufs.subrange(ls as int, pos as int),
                );
                total.0 == fut.0 && total.1 == events@.map_values(|e: StreamEvent| e@) + fut.1
            }),
        decreases buf.len() - pos,
    {
        let ghost rest = bufs.skip(pos as int);
        proof {
            assert(rest[0] == bufs[pos as int]);
            assert(rest.skip(1) =~= bufs.skip(pos as int + 1));
        }
        if buf[pos] == 0x0a {
            let line = subvec(buf, ls, pos);
            let t = trim_vec(&line);
            let ghost cur = bufs.subrange(ls as int, pos as int);
            if t.len() > 0 {
                let (npl, ev) = handle_line(pl, &t);
                pl = npl;
                match ev {
                    Some(e) => {
                        let ghost evs0 = events@.map_values(|e: StreamEvent| e@);
                        events.push(e);
                        proof {
                            assert(events@.map_values(|e: StreamEvent| e@) =~= evs0.push(e@));
                        }
                    },
                    None => {},
                }
            }
            ls = pos + 1;
            pos = pos + 1;
            proof {
                assert(bufs.subrange(ls as int, pos as int) =~= Seq::<u8>::empty());
            }
        } else {
            let ghost cur = bufs.subrange(ls as int, pos as int);
            pos = pos + 1;
            proof {
                assert(bufs.subrange(ls as int, pos as int) =~= cur.push(bufs[pos as int - 1]));
            }
        }
    }
    // final, unterminated segment
    let line = subvec(buf, ls, buf.len());
    let t = trim_vec(&line);
    proof {
        assert(bufs.skip(pos as int) =~= Seq::<u8>::empty());
    }
    if t.len() > 0 {
        let (npl, ev) = handle_line(pl, &t);
        pl = npl;
        match ev {
            Some(e) => {
                let ghost evs0 = events@.map_values(|e: StreamEvent| e@);
                events.push(e);
                proof {
                    assert(events@.map_values(|e: StreamEvent| e@) =~= evs0.push(e@));
                }
            },
            None => {},
        }
    }
    proof {
        let total = run_lines(pl0, bufs, Seq::empty());
        assert(total.1 =~= events@.map_values(|e: StreamEvent| e@));
    }
    (pl, events)
}

/// Process the terminated lines of a decoded fragment: the new pending
/// payload, the unterminated tail that belongs to the next fragment,
/// and the events, as the line branch of [`cycle`] states them.
#[verifier::rlimit(100)]
fn lines_exec(pl: Option<Vec<u8>>, buf: Vec<u8>) -> (r: (
    Option<Vec<u8>>,
    Option<Vec<u8>>,
    Vec<StreamEvent>,
))
    ensures
        ({
            let cut = last_line_start(buf@);
            let rr = run_lines(opt_bytes(pl), buf@.take(cut), Seq::empty());
            &&& opt_bytes(r.0) == rr.0
            &&& opt_bytes(r.1) == (if cut == buf@.len() {
                None::<Seq<u8>>
            } else {
                Some(buf@.skip(cut))
            })
            &&& r.2@.map_values(|e: StreamEvent| e@) == rr.1
        }),
{
    let mut cut: usize = buf.len();
    proof {
        assert(buf@.take(buf@.len() as int) =~= buf@);
    }
    while cut > 0 && buf[cut - 1] != 0x0a
        invariant
            0 <= cut <= buf.len(),
            last_line_start(buf@) == last_line_start(buf@.take(cut as int)),
        decreases cut,
    {
        proof {
            let t = buf@.take(cut as int);
            assert(t.last() == buf@[cut as int - 1]);
            assert(t.drop_last() =~= buf@.take(cut as int - 1));
        }
        cut = cut - 1;
    }
    proof {
        if cut > 0 {
            assert(buf@.take(cut as int).last() == buf@[cut as int - 1]);
        } else {
            assert(buf@.take(0) =~= Seq::<u8>::empty());
        }
        assert(last_line_start(buf@) == cut as int);
    }
    let head = subvec(&buf, 0, cut);
    let (npl, events) = run_lines_exec(pl, &head);
    let tail: Option<Vec<u8>> = if cut < buf.len() {
        Some(subvec(&buf, cut, buf.len()))
    } else {
        None
    };
    (npl, tail, events)
}

impl DecoderState {
    /// A fresh session: nothing pending, error check still to come.
    pub fn new() -> (s: DecoderState)
        ensures
            s@ == (DecoderModel {
                pending_bytes: None,
                pending_line: None,
                awaiting_first: true,
            }),
    {
        DecoderState { pending_bytes: None, pending_line: None, awaiting_first: true }
    }

    /// Convert a transport-level read failure into its event. The
    /// session state is untouched: buffered partial data survives the
    /// error, and the next chunk is processed normally.
    pub fn transport_error(&self, message: String) -> (e: StreamEvent)
        ensures
            e@ == EventM::Error(ErrorM::Transport(message@)),
    {
        StreamEvent::Error(StreamError::Transport(message))
    }

    /// Process one chunk of the response body and return the events it
    /// completes, in order; implements one [`cycle`] of the model.
    #[verifier::rlimit(100)]
    pub fn process_chunk(&mut self, chunk: &Vec<u8>) -> (events: Vec<StreamEvent>)
        ensures
            ({
                let cm = cycle(old(self)@, chunk@);
                final(self)@ == cm.0 && events@.map_values(|e: StreamEvent| e@) == cm.1
            }),
    {
        let ghost m0 = self@;
        let buf = assemble(&self.pending_bytes, chunk);
        let ghost bufs = buf@;
        match check_utf8(&buf) {
            Utf8Status::Incomplete => {
                self.pending_bytes = Some(buf);
                let events: Vec<StreamEvent> = Vec::new();
                proof {
                    assert(events@.map_values(|e: StreamEvent| e@) =~= Seq::<EventM>::empty());
                }
                events
            },
            Utf8Status::Invalid => {
                self.pending_bytes = None;
                let mut events: Vec<StreamEvent> = Vec::new();
                events.push(StreamEvent::Error(StreamError::InvalidEncoding));
                proof {
                    assert(events@.map_values(|e: StreamEvent| e@) =~= seq![
                        EventM::Error(ErrorM::InvalidEncoding),
                    ]);
                }
                events
            },
            Utf8Status::Valid => {
                if buf.len() == 0 {
                    self.pending_bytes = None;
                    let events: Vec<StreamEvent> = Vec::new();
                    proof {
                        assert(events@.map_values(|e: StreamEvent| e@) =~= Seq::<EventM>::empty());
                    }
                    return events;
                }
                let e4 = byte_vec14(13, 0x7b, 0x0a, 0x20, 0x20, 0x20, 0x20, 0x22, 0x65, 0x72, 0x72,
                    0x6f, 0x72, 0x22, 0);
                let e2 = byte_vec14(11, 0x7b, 0x0a, 0x20, 0x20, 0x22, 0x65, 0x72, 0x72, 0x6f, 0x72,
                    0x22, 0, 0, 0);
                proof {
                    assert(e4@ =~= err_prefix4());
                    assert(e2@ =~= err_prefix2());
                }
                let compat4 = if buf.len() <= e4.len() {
                    vec_starts_with(&e4, &buf)
                } else {
                    vec_starts_with(&buf, &e4)
                };
                let compat2 = if buf.len() <= e2.len() {
                    vec_starts_with(&e2, &buf)
                } else {
                    vec_starts_with(&buf, &e2)
                };
                let compat = self.awaiting_first && (compat4 || compat2);
                proof {
                    assert(compat == (m0.awaiting_first && could_be_error_body(bufs)));
                }
                if compat {
                    let err_lits = ErrLits::new();
                    match parse_error_doc(&buf, &err_lits) {
                        Some(e) => {
                            self.pending_bytes = None;
                            self.awaiting_first = false;
                            let mut events: Vec<StreamEvent> = Vec::new();
                            events.push(StreamEvent::Error(StreamError::Upstream(e)));
                            proof {
                                assert(events@.map_values(|ev: StreamEvent| ev@)
                                    =~= cycle(m0, chunk@).1);
                            }
                            events
                        },
                        None => {
                            // still a plausible error document: keep
                            // accumulating, the check stays active
                            self.pending_bytes = Some(buf);
                            let events: Vec<StreamEvent> = Vec::new();
                            proof {
                                assert(events@.map_values(|ev: StreamEvent| ev@)
                                    =~= Seq::<EventM>::empty());
                            }
                            events
                        },
                    }
                } else {
                    self.awaiting_first = false;
                    let pl: Option<Vec<u8>> = match &self.pending_line {
                        Some(p) => Some(subvec(p, 0, p.len())),
                        None => None,
                    };
                    proof {
                        assert(opt_bytes(pl) == m0.pending_line);
                    }
                    let (npl, tail, events) = lines_exec(pl, buf);
                    self.pending_line = npl;
                    self.pending_bytes = tail;
                    events
                }
            },
        }
    }
}

} // verus!
