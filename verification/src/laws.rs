//! Properties of the decoder that hold across chunk boundaries, proved
//! against the [`cycle`](crate::decoder::cycle) model.

use vstd::prelude::*;
use vstd::utf8::{valid_first_scalar, pop_first_scalar, valid_utf8};

use crate::bytesutil::{is_ws, trim, ws_end, ws_start};
use crate::decoder::{
    cycle, data_prefix5, data_prefix6, err_prefix2, err_prefix4, err_prefix_match, could_be_error_body,
    handle_one, interp_line, last_line_start, run_lines, sentinel, DecoderModel, ErrorM, EventM,
};
use crate::errdoc::spec_parse_error;
use crate::utf8check::{lemma_status_valid_iff, lemma_valid_prefix_not_invalid, utf8_status,
    Utf8Status};

verus! {

/// Splitting a chunk inside a multi-byte character is invisible: when
/// the first fragment leaves the assembled buffer with an incomplete
/// UTF-8 tail, delivering the two fragments separately produces exactly
/// the state and events of delivering them as one chunk.
#[verifier::rlimit(100)]
pub proof fn lemma_split_mid_character(m: DecoderModel, a: Seq<u8>, b: Seq<u8>)
    requires
        ({
            let buf = match m.pending_bytes {
                Some(p) => p + a,
                None => a,
            };
            utf8_status(buf) == Utf8Status::Incomplete
        }),
    ensures
        ({
            let whole = cycle(m, a + b);
            let first = cycle(m, a);
            let second = cycle(first.0, b);
            whole.0 == second.0 && whole.1 == first.1 + second.1
        }),
{
    let buf1 = match m.pending_bytes {
        Some(p) => p + a,
        None => a,
    };
    match m.pending_bytes {
        Some(p) => {
            assert(p + (a + b) =~= buf1 + b);
        },
        None => {
            assert(a + b =~= buf1 + b);
        },
    }
    let first = cycle(m, a);
    let second = cycle(first.0, b);
    assert(first.1 + second.1 =~= second.1);
}

proof fn lemma_no_newline_lls(s: Seq<u8>)
    requires
        forall|i: int| 0 <= i < s.len() ==> s[i] != 0x0a,
    ensures
        last_line_start(s) == 0,
    decreases s.len(),
{
    if s.len() > 0 {
        lemma_no_newline_lls(s.drop_last());
    }
}

/// The pending bytes assembled with the incoming chunk.
pub open spec fn assembled(m: DecoderModel, chunk: Seq<u8>) -> Seq<u8> {
    match m.pending_bytes {
        Some(p) => p + chunk,
        None => chunk,
    }
}

/// Splitting a chunk anywhere inside a logical line is invisible: as
/// long as the first fragment (together with any bytes already pending)
/// holds no newline and is not invalid text, it is carried whole into
/// the next cycle — every byte offset of the line, the data prefix
/// included, splits losslessly.
#[verifier::rlimit(100)]
pub proof fn lemma_split_mid_line(m: DecoderModel, a: Seq<u8>, b: Seq<u8>)
    requires
        !m.awaiting_first,
        utf8_status(assembled(m, a)) != Utf8Status::Invalid,
        forall|i: int| 0 <= i < assembled(m, a).len() ==> #[trigger] assembled(m, a)[i] != 0x0a,
    ensures
        ({
            let whole = cycle(m, a + b);
            let first = cycle(m, a);
            let second = cycle(first.0, b);
            whole.0 == second.0 && whole.1 == first.1 + second.1
        }),
{
    let buf1 = assembled(m, a);
    match m.pending_bytes {
        Some(p) => {
            assert(p + (a + b) =~= buf1 + b);
        },
        None => {
            assert(a + b =~= buf1 + b);
        },
    }
    assert(forall|i: int| 0 <= i < buf1.len() ==> #[trigger] buf1[i] != 0x0a);
    if utf8_status(buf1) == Utf8Status::Valid && buf1.len() > 0 {
        lemma_no_newline_lls(buf1);
        assert(buf1.take(0) =~= Seq::<u8>::empty());
        lemma_trim_empty();
        assert(run_lines(m.pending_line, buf1.take(0), Seq::empty()) == (
            m.pending_line,
            Seq::<EventM>::empty(),
        ));
        assert(buf1.skip(0) =~= buf1);
    }
    let first = cycle(m, a);
    let second = cycle(first.0, b);
    assert(first.1 + second.1 =~= second.1);
}

/// A `Done` event arises from exactly the sentinel line: interpreting
/// the sentinel yields one `Done` whatever payload is pending, and no
/// other line ever produces one — so across a whole stream, `Done` is
/// emitted once per sentinel line, never duplicated and never
/// suppressed by the surrounding framing.
pub proof fn lemma_done_iff_sentinel(pl: Option<Seq<u8>>, t: Seq<u8>)
    ensures
        t == sentinel() ==> interp_line(pl, t) == (pl, seq![EventM::Done]),
        t != sentinel() ==> !interp_line(pl, t).1.contains(EventM::Done),
{
    if t != sentinel() {
        let evs = interp_line(pl, t).1;
        if evs.len() > 0 {
            assert(evs[0] is Data);
        }
        if evs.contains(EventM::Done) {
            let i = choose|i: int| 0 <= i < evs.len() && evs[i] == EventM::Done;
            assert(false);
        }
    }
}

/// A line that is not the sentinel and carries no data prefix is
/// discarded: it yields no event and leaves the pending payload exactly
/// as it was, so subsequent lines parse as if it had never arrived.
pub proof fn lemma_unrecognized_line(pl: Option<Seq<u8>>, t: Seq<u8>)
    requires
        t != sentinel(),
        !(t.len() >= 6 && t.subrange(0, 6) == data_prefix6()),
        !(t.len() >= 5 && t.subrange(0, 5) == data_prefix5()),
    ensures
        interp_line(pl, t).0 == pl,
        interp_line(pl, t).1 == Seq::<EventM>::empty(),
{
}

/// While the whole-body error check is active, bytes that still look
/// like an error document but do not yet parse are buffered whole: no
/// event is emitted, nothing is routed to line processing, and the
/// check stays active for the next chunk.
pub proof fn lemma_error_body_buffering(m: DecoderModel, chunk: Seq<u8>)
    requires
        m.awaiting_first,
        ({
            let buf = match m.pending_bytes {
                Some(p) => p + chunk,
                None => chunk,
            };
            &&& utf8_status(buf) == Utf8Status::Valid
            &&& buf.len() > 0
            &&& could_be_error_body(buf)
            &&& spec_parse_error(buf) is None
        }),
    ensures
        ({
            let buf = match m.pending_bytes {
                Some(p) => p + chunk,
                None => chunk,
            };
            cycle(m, chunk) == (
                DecoderModel {
                    pending_bytes: Some(buf),
                    pending_line: m.pending_line,
                    awaiting_first: true,
                },
                Seq::<EventM>::empty(),
            )
        }),
{
}

/// Once the accumulated body parses as an error document, the session
/// yields exactly one `Error` event carrying the parsed payload and the
/// check is spent.
pub proof fn lemma_error_body_complete(m: DecoderModel, chunk: Seq<u8>)
    requires
        m.awaiting_first,
        ({
            let buf = match m.pending_bytes {
                Some(p) => p + chunk,
                None => chunk,
            };
            &&& utf8_status(buf) == Utf8Status::Valid
            &&& buf.len() > 0
            &&& could_be_error_body(buf)
            &&& spec_parse_error(buf) is Some
        }),
    ensures
        ({
            let buf = match m.pending_bytes {
                Some(p) => p + chunk,
                None => chunk,
            };
            cycle(m, chunk) == (
                DecoderModel {
                    pending_bytes: None,
                    pending_line: m.pending_line,
                    awaiting_first: false,
                },
                seq![EventM::Error(ErrorM::Upstream(spec_parse_error(buf)->0))],
            )
        }),
{
}

/// The bytes of the given chunks, in order.
pub open spec fn concat_chunks(chunks: Seq<Seq<u8>>) -> Seq<u8>
    decreases chunks.len(),
{
    if chunks.len() == 0 {
        Seq::empty()
    } else {
        chunks[0] + concat_chunks(chunks.drop_first())
    }
}

/// The decoder run over a whole sequence of chunks.
pub open spec fn run_cycles(m: DecoderModel, chunks: Seq<Seq<u8>>) -> (DecoderModel, Seq<EventM>)
    decreases chunks.len(),
{
    if chunks.len() == 0 {
        (m, seq![])
    } else {
        let r1 = cycle(m, chunks[0]);
        let r2 = run_cycles(r1.0, chunks.drop_first());
        (r2.0, r1.1 + r2.1)
    }
}

// Every prefix of a body that carries a recognized error prefix still
// looks like an error body.
proof fn lemma_could_be_prefix(doc: Seq<u8>, k: int)
    requires
        err_prefix_match(doc),
        0 <= k <= doc.len(),
    ensures
        could_be_error_body(doc.take(k)),
{
    let t = doc.take(k);
    if doc.len() >= 13 && doc.subrange(0, 13) == err_prefix4() {
        if k <= 13 {
            assert(t =~= err_prefix4().subrange(0, k));
            assert(t.is_prefix_of(err_prefix4()));
        } else {
            assert(err_prefix4() =~= t.subrange(0, 13));
            assert(err_prefix4().is_prefix_of(t));
        }
    } else {
        if k <= 11 {
            assert(t =~= err_prefix2().subrange(0, k));
            assert(t.is_prefix_of(err_prefix2()));
        } else {
            assert(err_prefix2() =~= t.subrange(0, 11));
            assert(err_prefix2().is_prefix_of(t));
        }
    }
}

// Chunks that together hold no bytes leave the session untouched.
proof fn lemma_run_cycles_no_bytes(m: DecoderModel, chunks: Seq<Seq<u8>>)
    requires
        m.pending_bytes is None,
        concat_chunks(chunks) == Seq::<u8>::empty(),
    ensures
        run_cycles(m, chunks) == (m, Seq::<EventM>::empty()),
    decreases chunks.len(),
{
    if chunks.len() > 0 {
        let c = chunks[0];
        assert(concat_chunks(chunks) == c + concat_chunks(chunks.drop_first()));
        assert(c.len() == 0);
        assert(c =~= Seq::<u8>::empty());
        assert(utf8_status(c) == Utf8Status::Valid);
        assert(cycle(m, c) == (m, Seq::<EventM>::empty()));
        lemma_run_cycles_no_bytes(m, chunks.drop_first());
        assert(Seq::<EventM>::empty() + Seq::<EventM>::empty() =~= Seq::<EventM>::empty());
    }
}

// Induction step: with the first `d` bytes of the document already
// buffered, feeding the remaining chunks yields exactly the one parsed
// error event.
#[verifier::rlimit(100)]
proof fn lemma_err_steps(doc: Seq<u8>, chunks: Seq<Seq<u8>>, pl: Option<Seq<u8>>, d: int)
    requires
        err_prefix_match(doc),
        valid_utf8(doc),
        spec_parse_error(doc) is Some,
        forall|k: int| 0 <= k < doc.len() ==> spec_parse_error(#[trigger] doc.take(k)) is None,
        0 <= d < doc.len(),
        concat_chunks(chunks) == doc.skip(d),
    ensures
        run_cycles(
            DecoderModel {
                pending_bytes: if d == 0 {
                    None
                } else {
                    Some(doc.take(d))
                },
                pending_line: pl,
                awaiting_first: true,
            },
            chunks,
        ) == (
            (DecoderModel { pending_bytes: None, pending_line: pl, awaiting_first: false }),
            seq![EventM::Error(ErrorM::Upstream(spec_parse_error(doc)->0))],
        ),
    decreases chunks.len(),
{
    if chunks.len() == 0 {
        assert(concat_chunks(chunks) =~= Seq::<u8>::empty());
        assert(doc.skip(d).len() == doc.len() - d);
        assert(false);
    }
    let c = chunks[0];
    let rest = chunks.drop_first();
    assert(concat_chunks(chunks) == c + concat_chunks(rest));
    let d2 = d + c.len();
    assert(c.len() + concat_chunks(rest).len() == doc.len() - d);
    assert(d2 <= doc.len());
    assert(c =~= doc.subrange(d, d2)) by {
        assert(c =~= (c + concat_chunks(rest)).subrange(0, c.len() as int));
        assert(doc.skip(d).subrange(0, c.len() as int) =~= doc.subrange(d, d2));
    }
    assert(concat_chunks(rest) =~= doc.skip(d2)) by {
        assert(concat_chunks(rest) =~= (c + concat_chunks(rest)).subrange(
            c.len() as int,
            (c + concat_chunks(rest)).len() as int,
        ));
        assert(doc.skip(d).subrange(c.len() as int, doc.skip(d).len() as int) =~= doc.skip(d2));
    }
    let m = DecoderModel {
        pending_bytes: if d == 0 {
            None
        } else {
            Some(doc.take(d))
        },
        pending_line: pl,
        awaiting_first: true,
    };
    let buf = match m.pending_bytes {
        Some(p) => p + c,
        None => c,
    };
    assert(buf =~= doc.take(d2)) by {
        if d == 0 {
            assert(c =~= doc.take(d2));
        } else {
            assert(doc.take(d) + doc.subrange(d, d2) =~= doc.take(d2));
        }
    }
    lemma_valid_prefix_not_invalid(doc, d2);
    let r1 = cycle(m, c);
    if d2 < doc.len() {
        if utf8_status(buf) == Utf8Status::Incomplete {
            assert(r1 == (
                DecoderModel { pending_bytes: Some(buf), pending_line: pl, awaiting_first: true },
                Seq::<EventM>::empty(),
            ));
        } else {
            assert(utf8_status(buf) == Utf8Status::Valid);
            if d2 == 0 {
                assert(buf.len() == 0);
                assert(r1 == (
                    DecoderModel { pending_bytes: None, pending_line: pl, awaiting_first: true },
                    Seq::<EventM>::empty(),
                ));
            } else {
                lemma_could_be_prefix(doc, d2);
                assert(spec_parse_error(buf) is None);
                assert(r1 == (
                    DecoderModel {
                        pending_bytes: Some(buf),
                        pending_line: pl,
                        awaiting_first: true,
                    },
                    Seq::<EventM>::empty(),
                ));
            }
        }
        lemma_err_steps(doc, rest, pl, d2);
        let r2 = run_cycles(r1.0, rest);
        assert(Seq::<EventM>::empty() + r2.1 =~= r2.1);
    } else {
        assert(buf =~= doc);
        lemma_status_valid_iff(doc);
        assert(doc.len() >= 11);
        lemma_could_be_prefix(doc, doc.len() as int);
        assert(doc.take(doc.len() as int) =~= doc);
        assert(r1 == (
            DecoderModel { pending_bytes: None, pending_line: pl, awaiting_first: false },
            seq![EventM::Error(ErrorM::Upstream(spec_parse_error(doc)->0))],
        ));
        assert(doc.skip(doc.len() as int) =~= Seq::<u8>::empty());
        assert(concat_chunks(rest) == Seq::<u8>::empty());
        lemma_run_cycles_no_bytes(r1.0, rest);
        assert(r1.1 + Seq::<EventM>::empty() =~= r1.1);
    }
}

/// A whole-body error document yields exactly one `Error` event
/// carrying its parsed payload, however the transport partitions it
/// into chunks — down to single bytes. The hypothesis that no proper
/// prefix of the document already parses is always met: a proper prefix
/// of a JSON document is never itself a complete document.
pub proof fn lemma_error_body_chunked(m: DecoderModel, doc: Seq<u8>, chunks: Seq<Seq<u8>>)
    requires
        m.pending_bytes is None,
        m.awaiting_first,
        err_prefix_match(doc),
        valid_utf8(doc),
        spec_parse_error(doc) is Some,
        forall|k: int| 0 <= k < doc.len() ==> spec_parse_error(#[trigger] doc.take(k)) is None,
        concat_chunks(chunks) == doc,
    ensures
        run_cycles(m, chunks) == (
            (DecoderModel {
                pending_bytes: None,
                pending_line: m.pending_line,
                awaiting_first: false,
            }),
            seq![EventM::Error(ErrorM::Upstream(spec_parse_error(doc)->0))],
        ),
{
    assert(doc.skip(0) =~= doc);
    assert(m == (DecoderModel {
        pending_bytes: None::<Seq<u8>>,
        pending_line: m.pending_line,
        awaiting_first: true,
    }));
    lemma_err_steps(doc, chunks, m.pending_line, 0);
}

proof fn lemma_ascii_valid(s: Seq<u8>)
    requires
        forall|i: int| 0 <= i < s.len() ==> s[i] < 0x80,
    ensures
        utf8_status(s) == Utf8Status::Valid,
    decreases s.len(),
{
    if s.len() > 0 {
        assert(valid_first_scalar(s));
        assert(pop_first_scalar(s) =~= s.skip(1));
        lemma_ascii_valid(s.skip(1));
    }
}

/// The bytes of a run of blank lines.
pub open spec fn all_newlines(s: Seq<u8>) -> bool {
    forall|i: int| 0 <= i < s.len() ==> s[i] == 0x0a
}

proof fn lemma_trim_empty()
    ensures
        trim(Seq::<u8>::empty()).len() == 0,
{
    assert(ws_start(Seq::<u8>::empty(), 0) == 0);
    assert(ws_end(Seq::<u8>::empty(), 0) == 0);
}

proof fn lemma_trim_sentinel()
    ensures
        trim(sentinel()) == sentinel(),
{
    let s = sentinel();
    assert(!is_ws(s[0]));
    assert(ws_start(s, 0) == 0);
    assert(!is_ws(s[11]));
    assert(ws_end(s, 12) == 12);
    assert(s.subrange(0, 12) =~= s);
}

// Leading blank lines produce no events and leave the state alone.
proof fn lemma_run_nl_prefix(pl: Option<Seq<u8>>, u: Seq<u8>, rest: Seq<u8>)
    requires
        all_newlines(u),
    ensures
        run_lines(pl, u + rest, Seq::empty()) == run_lines(pl, rest, Seq::empty()),
    decreases u.len(),
{
    if u.len() == 0 {
        assert(u + rest =~= rest);
    } else {
        let s = u + rest;
        assert(s[0] == 0x0a);
        lemma_trim_empty();
        let r1 = handle_one(pl, Seq::empty());
        assert(r1 == (pl, Seq::<EventM>::empty()));
        assert(s.skip(1) =~= u.skip(1) + rest);
        lemma_run_nl_prefix(pl, u.skip(1), rest);
        let r2 = run_lines(pl, rest, Seq::empty());
        assert(Seq::<EventM>::empty() + r2.1 =~= r2.1);
    }
}

// A newline-free piece is carried into the current line unchanged.
proof fn lemma_run_nlfree(pl: Option<Seq<u8>>, x: Seq<u8>, rest: Seq<u8>, cur: Seq<u8>)
    requires
        forall|i: int| 0 <= i < x.len() ==> x[i] != 0x0a,
    ensures
        run_lines(pl, x + rest, cur) == run_lines(pl, rest, cur + x),
    decreases x.len(),
{
    if x.len() == 0 {
        assert(x + rest =~= rest);
        assert(cur + x =~= cur);
    } else {
        let s = x + rest;
        assert(s[0] == x[0]);
        assert(s[0] != 0x0a);
        assert(s.skip(1) =~= x.skip(1) + rest);
        lemma_run_nlfree(pl, x.skip(1), rest, cur.push(x[0]));
        assert(cur.push(x[0]) + x.skip(1) =~= cur + x);
    }
}

// Once the sentinel is the current line, a tail of blank lines yields
// exactly one completion event.
proof fn lemma_run_sentinel_tail(pl: Option<Seq<u8>>, w: Seq<u8>)
    requires
        all_newlines(w),
    ensures
        run_lines(pl, w, sentinel()) == (pl, seq![EventM::Done]),
    decreases w.len(),
{
    lemma_trim_sentinel();
    if w.len() == 0 {
        assert(handle_one(pl, sentinel()) == (pl, seq![EventM::Done]));
    } else {
        assert(w[0] == 0x0a);
        let r1 = handle_one(pl, sentinel());
        assert(r1 == (pl, seq![EventM::Done]));
        assert(w.skip(1) + Seq::<u8>::empty() =~= w.skip(1));
        lemma_run_nl_prefix(pl, w.skip(1), Seq::empty());
        lemma_trim_empty();
        let r2 = run_lines(pl, w.skip(1), Seq::empty());
        assert(r2 == (pl, Seq::<EventM>::empty()));
        assert(seq![EventM::Done] + Seq::<EventM>::empty() =~= seq![EventM::Done]);
    }
}

/// A terminated sentinel line yields exactly one `Done` event, whatever
/// blank lines surround it, and leaves any pending line payload
/// untouched.
#[verifier::rlimit(100)]
pub proof fn lemma_sentinel_done(m: DecoderModel, u: Seq<u8>, w: Seq<u8>)
    requires
        m.pending_bytes is None,
        all_newlines(u),
        all_newlines(w),
        w.len() > 0,
    ensures
        ({
            let c = u + sentinel() + w;
            cycle(m, c) == (
                DecoderModel {
                    pending_bytes: None,
                    pending_line: m.pending_line,
                    awaiting_first: false,
                },
                seq![EventM::Done],
            )
        }),
{
    let c = u + sentinel() + w;
    assert forall|i: int| 0 <= i < c.len() implies c[i] < 0x80 by {
        if i < u.len() {
            assert(c[i] == u[i]);
        } else if i < u.len() + 12 {
            assert(c[i] == sentinel()[i - u.len()]);
        } else {
            assert(c[i] == w[i - u.len() - 12]);
        }
    }
    lemma_ascii_valid(c);
    assert(c.len() >= 13);
    // the buffer never looks like an error document
    if could_be_error_body(c) {
        if c.is_prefix_of(err_prefix4()) || err_prefix4().is_prefix_of(c) || c.is_prefix_of(
            err_prefix2(),
        ) || err_prefix2().is_prefix_of(c) {
            assert(c[0] == 0x7b);
        }
        if u.len() > 0 {
            assert(c[0] == u[0]);
            assert(false);
        } else {
            assert(c[0] == sentinel()[0]);
            assert(false);
        }
    }
    // the buffer ends with a newline, so every line is terminated
    assert(c.last() == w.last());
    assert(last_line_start(c) == c.len());
    assert(c.take(c.len() as int) =~= c);
    // walk the lines: blank lines, the sentinel line, blank lines
    assert(c =~= u + (sentinel() + w));
    lemma_run_nl_prefix(m.pending_line, u, sentinel() + w);
    lemma_run_nlfree(m.pending_line, sentinel(), w, Seq::empty());
    assert(Seq::<u8>::empty() + sentinel() =~= sentinel());
    lemma_run_sentinel_tail(m.pending_line, w);
    assert(run_lines(m.pending_line, c, Seq::empty()) == (m.pending_line, seq![EventM::Done]));
}

} // verus!
