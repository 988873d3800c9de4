//! The whole-body error document: when a request fails, the server
//! sends a single pretty-printed JSON document instead of an event
//! stream. This module parses `{ "error": { message, type, code? } }`.

use vstd::prelude::*;

use crate::chunk::{byte_vec14, bytes_is, spec_opt_string_value, spec_string_value, opt_string_value,
    string_value};
use crate::json::{adv2, skip_json_ws, skip_value, spec_skip_value, spec_string_content,
    string_content, wsa};
use crate::utf8check::chars_or_empty;

verus! {

/// The structured error payload of a failed request.
#[derive(Clone, Debug, PartialEq)]
pub struct ErrorDetail {
    pub message: String,
    pub error_type: String,
    pub code: Option<String>,
}

/// Mathematical image of an error payload.
pub struct ErrorDetailM {
    pub message: Seq<char>,
    pub error_type: Seq<char>,
    pub code: Option<Seq<char>>,
}

impl View for ErrorDetail {
    type V = ErrorDetailM;

    open spec fn view(&self) -> ErrorDetailM {
        ErrorDetailM {
            message: self.message@,
            error_type: self.error_type@,
            code: match self.code {
                Some(ref c) => Some(c@),
                None => None,
            },
        }
    }
}

pub open spec fn key_error() -> Seq<u8> {
    seq![0x65u8, 0x72, 0x72, 0x6f, 0x72]
}

pub open spec fn key_message() -> Seq<u8> {
    seq![0x6du8, 0x65, 0x73, 0x73, 0x61, 0x67, 0x65]
}

pub open spec fn key_type() -> Seq<u8> {
    seq![0x74u8, 0x79, 0x70, 0x65]
}

pub open spec fn key_code() -> Seq<u8> {
    seq![0x63u8, 0x6f, 0x64, 0x65]
}

/// The byte literals compared against while parsing an error document.
pub struct ErrLits {
    pub error: Vec<u8>,
    pub message: Vec<u8>,
    pub type_key: Vec<u8>,
    pub code: Vec<u8>,
}

impl ErrLits {
    pub open spec fn wf(&self) -> bool {
        &&& self.error@ == key_error()
        &&& self.message@ == key_message()
        &&& self.type_key@ == key_type()
        &&& self.code@ == key_code()
    }

    pub fn new() -> (r: ErrLits)
        ensures
            r.wf(),
    {
        let error = byte_vec14(5, 0x65, 0x72, 0x72, 0x6f, 0x72, 0, 0, 0, 0, 0, 0, 0, 0, 0);
        let message = byte_vec14(7, 0x6d, 0x65, 0x73, 0x73, 0x61, 0x67, 0x65, 0, 0, 0, 0, 0, 0, 0);
        let type_key = byte_vec14(4, 0x74, 0x79, 0x70, 0x65, 0, 0, 0, 0, 0, 0, 0, 0, 0, 0);
        let code = byte_vec14(4, 0x63, 0x6f, 0x64, 0x65, 0, 0, 0, 0, 0, 0, 0, 0, 0, 0);
        proof {
            assert(error@ =~= key_error());
            assert(message@ =~= key_message());
            assert(type_key@ =~= key_type());
            assert(code@ =~= key_code());
        }
        ErrLits { error, message, type_key, code }
    }
}

/// Spec image of an optional-string accumulator.
pub open spec fn osv(x: Option<String>) -> Option<Seq<char>> {
    match x {
        Some(s) => Some(s@),
        None => None,
    }
}

/// Members of the inner error object, from just after `{` or `,`.
pub open spec fn spec_errdetail_members(
    s: Seq<u8>,
    i: int,
    msg: Option<Seq<char>>,
    typ: Option<Seq<char>>,
    code: Option<Option<Seq<char>>>,
    can_close: bool,
) -> Option<(ErrorDetailM, int)>
    decreases s.len() - i,
{
    let j = wsa(s, i);
    if j >= s.len() {
        None
    } else if s[j] == 0x7d && can_close {
        match (msg, typ) {
            (Some(m), Some(t)) => Some(
                (
                    ErrorDetailM {
                        message: m,
                        error_type: t,
                        code: match code {
                            Some(c) => c,
                            None => None,
                        },
                    },
                    j + 1,
                ),
            ),
            _ => None,
        }
    } else if s[j] == 0x22 {
        match spec_string_content(s, j + 1, Seq::empty()) {
            None => None,
            Some(kp) => {
                let k = wsa(s, adv2(j + 1, kp.1));
                if k >= s.len() || s[k] != 0x3a {
                    None
                } else {
                    let step: Option<
                        (Option<Seq<char>>, Option<Seq<char>>, Option<Option<Seq<char>>>, int),
                    > = if kp.0 == key_message() {
                        if msg is Some {
                            None
                        } else {
                            match spec_string_value(s, k + 1) {
                                None => None,
                                Some(sp) => Some((Some(chars_or_empty(sp.0)), typ, code, sp.1)),
                            }
                        }
                    } else if kp.0 == key_type() {
                        if typ is Some {
                            None
                        } else {
                            match spec_string_value(s, k + 1) {
                                None => None,
                                Some(sp) => Some((msg, Some(chars_or_empty(sp.0)), code, sp.1)),
                            }
                        }
                    } else if kp.0 == key_code() {
                        if code is Some {
                            None
                        } else {
                            match spec_opt_string_value(s, k + 1) {
                                None => None,
                                Some(cp) => Some(
                                    (
                                        msg,
                                        typ,
                                        Some(
                                            match cp.0 {
                                                Some(b) => Some(chars_or_empty(b)),
                                                None => None,
                                            },
                                        ),
                                        cp.1,
                                    ),
                                ),
                            }
                        }
                    } else {
                        match spec_skip_value(s, k + 1) {
                            None => None,
                            Some(m0) => Some((msg, typ, code, m0)),
                        }
                    };
                    match step {
                        None => None,
                        Some(t) => {
                            let m = wsa(s, adv2(k + 1, t.3));
                            if m >= s.len() {
                                None
                            } else if s[m] == 0x2c {
                                spec_errdetail_members(s, m + 1, t.0, t.1, t.2, false)
                            } else if s[m] == 0x7d {
                                match (t.0, t.1) {
                                    (Some(m0), Some(t0)) => Some(
                                        (
                                            ErrorDetailM {
                                                message: m0,
                                                error_type: t0,
                                                code: match t.2 {
                                                    Some(c) => c,
                                                    None => None,
                                                },
                                            },
                                            m + 1,
                                        ),
                                    ),
                                    _ => None,
                                }
                            } else {
                                None
                            }
                        },
                    }
                }
            },
        }
    } else {
        None
    }
}

/// Executable counterpart of [`spec_errdetail_members`].
#[verifier::rlimit(60)]
pub fn errdetail_members(
    v: &Vec<u8>,
    i: usize,
    msg: Option<String>,
    typ: Option<String>,
    code: Option<Option<String>>,
    can_close: bool,
    lits: &ErrLits,
) -> (r: Option<(ErrorDetail, usize)>)
    requires
        i <= v.len(),
        lits.wf(),
    ensures
        ({
            let sr = spec_errdetail_members(
                v@,
                i as int,
                osv(msg),
                osv(typ),
                match code {
                    Some(Some(ref c)) => Some(Some(c@)),
                    Some(None) => Some(None),
                    None => None,
                },
                can_close,
            );
            match r {
                Some(p) => sr == Some((p.0@, p.1 as int)) && i < p.1 <= v.len(),
                None => sr is None,
            }
        }),
    decreases v.len() - i,
{
    let j = skip_json_ws(v, i);
    if j >= v.len() {
        return None;
    }
    if v[j] == 0x7d && can_close {
        return match (msg, typ) {
            (Some(m), Some(t)) => Some(
                (
                    ErrorDetail {
                        message: m,
                        error_type: t,
                        code: match code {
                            Some(c) => c,
                            None => None,
                        },
                    },
                    j + 1,
                ),
            ),
            _ => None,
        };
    }
    if v[j] != 0x22 {
        return None;
    }
    match string_content(v, j + 1, Vec::new()) {
        None => None,
        Some(kp) => {
            let k = skip_json_ws(v, kp.1);
            proof {
                assert(adv2(j as int + 1, kp.1 as int) == kp.1 as int);
            }
            if k >= v.len() || v[k] != 0x3a {
                return None;
            }
            let step: Option<(Option<String>, Option<String>, Option<Option<String>>, usize)> =
                if bytes_is(&kp.0, &lits.message) {
                if msg.is_some() {
                    None
                } else {
                    match string_value(v, k + 1) {
                        None => None,
                        Some(sp) => Some(
                            (Some(crate::utf8check::string_or_empty(sp.0)), typ, code, sp.1),
                        ),
                    }
                }
            } else if bytes_is(&kp.0, &lits.type_key) {
                if typ.is_some() {
                    None
                } else {
                    match string_value(v, k + 1) {
                        None => None,
                        Some(sp) => Some(
                            (msg, Some(crate::utf8check::string_or_empty(sp.0)), code, sp.1),
                        ),
                    }
                }
            } else if bytes_is(&kp.0, &lits.code) {
                if code.is_some() {
                    None
                } else {
                    match opt_string_value(v, k + 1) {
                        None => None,
                        Some(cp) => Some(
                            (
                                msg,
                                typ,
                                Some(
                                    match cp.0 {
                                        Some(b) => Some(crate::utf8check::string_or_empty(b)),
                                        None => None,
                                    },
                                ),
                                cp.1,
                            ),
                        ),
                    }
                }
            } else {
                match skip_value(v, k + 1) {
                    None => None,
                    Some(m0) => Some((msg, typ, code, m0)),
                }
            };
            match step {
                None => None,
                Some(t) => {
                    let m = skip_json_ws(v, t.3);
                    proof {
                        assert(adv2(k as int + 1, t.3 as int) == t.3 as int);
                    }
                    if m >= v.len() {
                        None
                    } else if v[m] == 0x2c {
                        errdetail_members(v, m + 1, t.0, t.1, t.2, false, lits)
                    } else if v[m] == 0x7d {
                        match (t.0, t.1) {
                            (Some(m0), Some(t0)) => Some(
                                (
                                    ErrorDetail {
                                        message: m0,
                                        error_type: t0,
                                        code: match t.2 {
                                            Some(c) => c,
                                            None => None,
                                        },
                                    },
                                    m + 1,
                                ),
                            ),
                            _ => None,
                        }
                    } else {
                        None
                    }
                },
            }
        },
    }
}

/// Members of the outer document object, from just after `{` or `,`.
pub open spec fn spec_errdoc_members(s: Seq<u8>, i: int, err: Option<ErrorDetailM>, can_close: bool) -> Option<
    (ErrorDetailM, int),
>
    decreases s.len() - i,
{
    let j = wsa(s, i);
    if j >= s.len() {
        None
    } else if s[j] == 0x7d && can_close {
        match err {
            Some(e) => Some((e, j + 1)),
            None => None,
        }
    } else if s[j] == 0x22 {
        match spec_string_content(s, j + 1, Seq::empty()) {
            None => None,
            Some(kp) => {
                let k = wsa(s, adv2(j + 1, kp.1));
                if k >= s.len() || s[k] != 0x3a {
                    None
                } else {
                    let step: Option<(Option<ErrorDetailM>, int)> = if kp.0 == key_error() {
                        if err is Some {
                            None
                        } else {
                            let jv = wsa(s, k + 1);
                            if jv < s.len() && s[jv] == 0x7b {
                                match spec_errdetail_members(s, jv + 1, None, None, None, true) {
                                    None => None,
                                    Some(ep) => Some((Some(ep.0), ep.1)),
                                }
                            } else {
                                None
                            }
                        }
                    } else {
                        match spec_skip_value(s, k + 1) {
                            None => None,
                            Some(m0) => Some((err, m0)),
                        }
                    };
                    match step {
                        None => None,
                        Some(t) => {
                            let m = wsa(s, adv2(k + 1, t.1));
                            if m >= s.len() {
                                None
                            } else if s[m] == 0x2c {
                                spec_errdoc_members(s, m + 1, t.0, false)
                            } else if s[m] == 0x7d {
                                match t.0 {
                                    Some(e) => Some((e, m + 1)),
                                    None => None,
                                }
                            } else {
                                None
                            }
                        },
                    }
                }
            },
        }
    } else {
        None
    }
}

/// Executable counterpart of [`spec_errdoc_members`].
#[verifier::rlimit(60)]
pub fn errdoc_members(
    v: &Vec<u8>,
    i: usize,
    err: Option<ErrorDetail>,
    can_close: bool,
    lits: &ErrLits,
) -> (r: Option<(ErrorDetail, usize)>)
    requires
        i <= v.len(),
        lits.wf(),
    ensures
        ({
            let sr = spec_errdoc_members(
                v@,
                i as int,
                match err {
                    Some(ref e) => Some(e@),
                    None => None,
                },
                can_close,
            );
            match r {
                Some(p) => sr == Some((p.0@, p.1 as int)) && i < p.1 <= v.len(),
                None => sr is None,
            }
        }),
    decreases v.len() - i,
{
    let j = skip_json_ws(v, i);
    if j >= v.len() {
        return None;
    }
    if v[j] == 0x7d && can_close {
        return match err {
            Some(e) => Some((e, j + 1)),
            None => None,
        };
    }
    if v[j] != 0x22 {
        return None;
    }
    match string_content(v, j + 1, Vec::new()) {
        None => None,
        Some(kp) => {
            let k = skip_json_ws(v, kp.1);
            proof {
                assert(adv2(j as int + 1, kp.1 as int) == kp.1 as int);
            }
            if k >= v.len() || v[k] != 0x3a {
                return None;
            }
            let step: Option<(Option<ErrorDetail>, usize)> = if bytes_is(&kp.0, &lits.error) {
                if err.is_some() {
                    None
                } else {
                    let jv = skip_json_ws(v, k + 1);
                    if jv < v.len() && v[jv] == 0x7b {
                        match errdetail_members(v, jv + 1, None, None, None, true, lits) {
                            None => None,
                            Some(ep) => Some((Some(ep.0), ep.1)),
                        }
                    } else {
                        None
                    }
                }
            } else {
                match skip_value(v, k + 1) {
                    None => None,
                    Some(m0) => Some((err, m0)),
                }
            };
            match step {
                None => None,
                Some(t) => {
                    let m = skip_json_ws(v, t.1);
                    proof {
                        assert(adv2(k as int + 1, t.1 as int) == t.1 as int);
                    }
                    if m >= v.len() {
                        None
                    } else if v[m] == 0x2c {
                        errdoc_members(v, m + 1, t.0, false, lits)
                    } else if v[m] == 0x7d {
                        match t.0 {
                            Some(e) => Some((e, m + 1)),
                            None => None,
                        }
                    } else {
                        None
                    }
                },
            }
        },
    }
}

/// The error payload encoded by a whole JSON error document.
#[verifier::opaque]
pub open spec fn spec_parse_error(s: Seq<u8>) -> Option<ErrorDetailM> {
    let j = wsa(s, 0);
    if j < s.len() && s[j] == 0x7b {
        match spec_errdoc_members(s, j + 1, None, true) {
            None => None,
            Some(p) => {
                let e = wsa(s, adv2(j + 1, p.1));
                if e >= s.len() {
                    Some(p.0)
                } else {
                    None
                }
            },
        }
    } else {
        None
    }
}

/// Parse a whole JSON document as an upstream error response.
pub fn parse_error_doc(v: &Vec<u8>, lits: &ErrLits) -> (r: Option<ErrorDetail>)
    requires
        lits.wf(),
    ensures
        ({
            let sr = spec_parse_error(v@);
            match r {
                Some(e) => sr == Some(e@),
                None => sr is None,
            }
        }),
{
    proof {
        reveal(spec_parse_error);
    }
    let j = skip_json_ws(v, 0);
    if !(j < v.len() && v[j] == 0x7b) {
        return None;
    }
    match errdoc_members(v, j + 1, None, true, lits) {
        None => None,
        Some(p) => {
            let e = skip_json_ws(v, p.1);
            proof {
                assert(adv2(j as int + 1, p.1 as int) == p.1 as int);
            }
            if e >= v.len() {
                Some(p.0)
            } else {
                None
            }
        },
    }
}

} // verus!
