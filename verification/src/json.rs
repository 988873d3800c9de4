//! A verified recursive-descent scanner for the JSON subset used by the
//! event stream: strings with escapes, numbers, literals, and nested
//! values to be skipped over. Every executable function returns exactly
//! what its specification-level counterpart computes on the byte view.

use vstd::prelude::*;

verus! {

/// JSON insignificant whitespace.
pub open spec fn is_json_ws(b: u8) -> bool {
    b == 0x20 || b == 0x09 || b == 0x0a || b == 0x0d
}

/// First index at or after `i` holding a byte that is not JSON whitespace.
pub open spec fn jws_end(s: Seq<u8>, i: int) -> int
    decreases s.len() - i,
{
    if 0 <= i < s.len() && is_json_ws(s[i]) {
        jws_end(s, i + 1)
    } else {
        i
    }
}

/// [`jws_end`], clamped so that it never moves backwards.
pub open spec fn wsa(s: Seq<u8>, i: int) -> int {
    let j = jws_end(s, i);
    if j > i {
        j
    } else {
        i
    }
}

/// Clamp a scanner result so that it always advances past `lo`.
pub open spec fn adv2(lo: int, j: int) -> int {
    if j > lo {
        j
    } else {
        lo + 1
    }
}

/// Skip JSON whitespace starting at `i`.
pub fn skip_json_ws(v: &Vec<u8>, i: usize) -> (r: usize)
    requires
        i <= v.len(),
    ensures
        i <= r <= v.len(),
        r as int == wsa(v@, i as int),
{
    let mut j: usize = i;
    while j < v.len() && is_json_ws_byte(v[j])
        invariant
            i <= j <= v.len(),
            jws_end(v@, i as int) == jws_end(v@, j as int),
        decreases v.len() - j,
    {
        proof {
            assert(jws_end(v@, j as int) == jws_end(v@, j as int + 1));
        }
        j = j + 1;
    }
    proof {
        assert(jws_end(v@, j as int) == j as int);
    }
    j
}

/// Executable counterpart of [`is_json_ws`].
pub fn is_json_ws_byte(b: u8) -> (r: bool)
    ensures
        r == is_json_ws(b),
{
    b == 0x20 || b == 0x09 || b == 0x0a || b == 0x0d
}

/// ASCII decimal digit.
pub open spec fn is_digit(b: u8) -> bool {
    0x30 <= b <= 0x39
}

/// First index at or after `i` holding a non-digit byte.
pub open spec fn spec_digits_end(s: Seq<u8>, i: int) -> int
    decreases s.len() - i,
{
    if 0 <= i < s.len() && is_digit(s[i]) {
        spec_digits_end(s, i + 1)
    } else {
        i
    }
}

/// Scan past decimal digits starting at `i`.
pub fn digits_end(v: &Vec<u8>, i: usize) -> (r: usize)
    requires
        i <= v.len(),
    ensures
        i <= r <= v.len(),
        r as int == spec_digits_end(v@, i as int),
{
    let mut j: usize = i;
    while j < v.len() && 0x30 <= v[j] && v[j] <= 0x39
        invariant
            i <= j <= v.len(),
            spec_digits_end(v@, i as int) == spec_digits_end(v@, j as int),
        decreases v.len() - j,
    {
        proof {
            assert(spec_digits_end(v@, j as int) == spec_digits_end(v@, j as int + 1));
        }
        j = j + 1;
    }
    proof {
        assert(spec_digits_end(v@, j as int) == j as int);
    }
    j
}

/// Value of a single hexadecimal digit.
pub open spec fn spec_hex_digit(b: u8) -> Option<u32> {
    if 0x30 <= b <= 0x39 {
        Some((b - 0x30) as u32)
    } else if 0x61 <= b <= 0x66 {
        Some((b - 0x61 + 10) as u32)
    } else if 0x41 <= b <= 0x46 {
        Some((b - 0x41 + 10) as u32)
    } else {
        None
    }
}

fn hex_digit(b: u8) -> (r: Option<u32>)
    ensures
        r == spec_hex_digit(b),
{
    if 0x30 <= b && b <= 0x39 {
        Some((b - 0x30) as u32)
    } else if 0x61 <= b && b <= 0x66 {
        Some((b - 0x61 + 10) as u32)
    } else if 0x41 <= b && b <= 0x46 {
        Some((b - 0x41 + 10) as u32)
    } else {
        None
    }
}

/// Value of the four hexadecimal digits at `i`.
pub open spec fn spec_hex4(s: Seq<u8>, i: int) -> Option<u32> {
    if i < 0 || i + 4 > s.len() {
        None
    } else {
        match (spec_hex_digit(s[i]), spec_hex_digit(s[i + 1]), spec_hex_digit(s[i + 2]),
        spec_hex_digit(s[i + 3])) {
            (Some(d0), Some(d1), Some(d2), Some(d3)) => Some(
                (d0 * 0x1000 + d1 * 0x100 + d2 * 0x10 + d3) as u32,
            ),
            _ => None,
        }
    }
}

fn hex4(v: &Vec<u8>, i: usize) -> (r: Option<u32>)
    requires
        i <= v.len(),
    ensures
        r == spec_hex4(v@, i as int),
        r is Some ==> i + 4 <= v.len() && (r->0 < 0x10000),
{
    if v.len() - i < 4 {
        return None;
    }
    let d0 = hex_digit(v[i]);
    let d1 = hex_digit(v[i + 1]);
    let d2 = hex_digit(v[i + 2]);
    let d3 = hex_digit(v[i + 3]);
    match (d0, d1, d2, d3) {
        (Some(a), Some(b), Some(c), Some(d)) => Some(a * 0x1000 + b * 0x100 + c * 0x10 + d),
        _ => None,
    }
}

/// Unescaped content of a JSON string, scanned from `i` (just after the
/// opening quote) to the closing quote. A `\uXXXX` escape in the
/// surrogate range must pair a high with a low surrogate, which decode
/// to one supplementary character; a lone surrogate escape fails.
pub open spec fn spec_string_content(s: Seq<u8>, i: int, acc: Seq<u8>) -> Option<(Seq<u8>, int)>
    decreases s.len() - i,
{
    if i < 0 || i >= s.len() {
        None
    } else {
        let b = s[i];
        if b == 0x22 {
            Some((acc, i + 1))
        } else if b == 0x5c {
            if i + 1 >= s.len() {
                None
            } else {
                let e = s[i + 1];
                if e == 0x22 || e == 0x5c || e == 0x2f {
                    spec_string_content(s, i + 2, acc.push(e))
                } else if e == 0x62 {
                    spec_string_content(s, i + 2, acc.push(0x08))
                } else if e == 0x66 {
                    spec_string_content(s, i + 2, acc.push(0x0c))
                } else if e == 0x6e {
                    spec_string_content(s, i + 2, acc.push(0x0a))
                } else if e == 0x72 {
                    spec_string_content(s, i + 2, acc.push(0x0d))
                } else if e == 0x74 {
                    spec_string_content(s, i + 2, acc.push(0x09))
                } else if e == 0x75 {
                    match spec_hex4(s, i + 2) {
                        None => None,
                        Some(cp) => if 0xd800 <= cp <= 0xdbff {
                            // high surrogate: a low surrogate escape must follow
                            if i + 8 <= s.len() && s[i + 6] == 0x5c && s[i + 7] == 0x75 {
                                match spec_hex4(s, i + 8) {
                                    None => None,
                                    Some(cp2) => if 0xdc00 <= cp2 <= 0xdfff {
                                        let sc = 0x10000 + (cp - 0xd800) * 0x400 + (cp2
                                            - 0xdc00);
                                        spec_string_content(
                                            s,
                                            i + 12,
                                            acc.push((0xf0 + sc / 0x40000) as u8).push(
                                                (0x80 + (sc / 0x1000) % 0x40) as u8,
                                            ).push((0x80 + (sc / 0x40) % 0x40) as u8).push(
                                                (0x80 + sc % 0x40) as u8,
                                            ),
                                        )
                                    } else {
                                        None
                                    },
                                }
                            } else {
                                None
                            }
                        } else if 0xdc00 <= cp <= 0xdfff {
                            None
                        } else if cp < 0x80 {
                            spec_string_content(s, i + 6, acc.push(cp as u8))
                        } else if cp < 0x800 {
                            spec_string_content(
                                s,
                                i + 6,
                                acc.push((0xc0 + cp / 0x40) as u8).push((0x80 + cp % 0x40) as u8),
                            )
                        } else {
                            spec_string_content(
                                s,
                                i + 6,
                                acc.push((0xe0 + cp / 0x1000) as u8).push(
                                    (0x80 + (cp / 0x40) % 0x40) as u8,
                                ).push((0x80 + cp % 0x40) as u8),
                            )
                        },
                    }
                } else {
                    None
                }
            }
        } else if b >= 0x20 {
            spec_string_content(s, i + 1, acc.push(b))
        } else {
            None
        }
    }
}

/// Executable counterpart of [`spec_string_content`].
pub fn string_content(v: &Vec<u8>, i: usize, acc: Vec<u8>) -> (r: Option<(Vec<u8>, usize)>)
    requires
        i <= v.len(),
    ensures
        ({
            let sr = spec_string_content(v@, i as int, acc@);
            match r {
                Some(p) => sr == Some((p.0@, p.1 as int)) && i < p.1 <= v.len(),
                None => sr is None,
            }
        }),
    decreases v.len() - i,
{
    if i >= v.len() {
        return None;
    }
    let b = v[i];
    if b == 0x22 {
        Some((acc, i + 1))
    } else if b == 0x5c {
        if i + 1 >= v.len() {
            return None;
        }
        let e = v[i + 1];
        let mut acc = acc;
        if e == 0x22 || e == 0x5c || e == 0x2f {
            acc.push(e);
            string_content(v, i + 2, acc)
        } else if e == 0x62 {
            acc.push(0x08);
            string_content(v, i + 2, acc)
        } else if e == 0x66 {
            acc.push(0x0c);
            string_content(v, i + 2, acc)
        } else if e == 0x6e {
            acc.push(0x0a);
            string_content(v, i + 2, acc)
        } else if e == 0x72 {
            acc.push(0x0d);
            string_content(v, i + 2, acc)
        } else if e == 0x74 {
            acc.push(0x09);
            string_content(v, i + 2, acc)
        } else if e == 0x75 {
            match hex4(v, i + 2) {
                None => None,
                Some(cp) => {
                    if 0xd800 <= cp && cp <= 0xdbff {
                        if v.len() - i >= 8 && v[i + 6] == 0x5c && v[i + 7] == 0x75 {
                            match hex4(v, i + 8) {
                                None => None,
                                Some(cp2) => {
                                    if 0xdc00 <= cp2 && cp2 <= 0xdfff {
                                        let sc = 0x10000 + (cp - 0xd800) * 0x400 + (cp2 - 0xdc00);
                                        acc.push((0xf0 + sc / 0x40000) as u8);
                                        acc.push((0x80 + (sc / 0x1000) % 0x40) as u8);
                                        acc.push((0x80 + (sc / 0x40) % 0x40) as u8);
                                        acc.push((0x80 + sc % 0x40) as u8);
                                        string_content(v, i + 12, acc)
                                    } else {
                                        None
                                    }
                                },
                            }
                        } else {
                            None
                        }
                    } else if 0xdc00 <= cp && cp <= 0xdfff {
                        None
                    } else if cp < 0x80 {
                        acc.push(cp as u8);
                        string_content(v, i + 6, acc)
                    } else if cp < 0x800 {
                        acc.push((0xc0 + cp / 0x40) as u8);
                        acc.push((0x80 + cp % 0x40) as u8);
                        string_content(v, i + 6, acc)
                    } else {
                        acc.push((0xe0 + cp / 0x1000) as u8);
                        acc.push((0x80 + (cp / 0x40) % 0x40) as u8);
                        acc.push((0x80 + cp % 0x40) as u8);
                        string_content(v, i + 6, acc)
                    }
                },
            }
        } else {
            None
        }
    } else if b >= 0x20 {
        let mut acc = acc;
        acc.push(b);
        string_content(v, i + 1, acc)
    } else {
        None
    }
}

/// End of the JSON number starting at `i`, if its syntax is valid.
pub open spec fn spec_number(s: Seq<u8>, i: int) -> Option<int> {
    let j = if 0 <= i < s.len() && s[i] == 0x2d {
        i + 1
    } else {
        i
    };
    if !(0 <= j < s.len() && is_digit(s[j])) {
        None
    } else {
        let k = if s[j] == 0x30 {
            j + 1
        } else {
            spec_digits_end(s, j)
        };
        let k2 = if 0 <= k < s.len() && s[k] == 0x2e {
            if k + 1 < s.len() && is_digit(s[k + 1]) {
                spec_digits_end(s, k + 1)
            } else {
                -1
            }
        } else {
            k
        };
        if k2 < 0 {
            None
        } else {
            let k3 = if 0 <= k2 < s.len() && (s[k2] == 0x65 || s[k2] == 0x45) {
                let e0 = if k2 + 1 < s.len() && (s[k2 + 1] == 0x2b || s[k2 + 1] == 0x2d) {
                    k2 + 2
                } else {
                    k2 + 1
                };
                if 0 <= e0 < s.len() && is_digit(s[e0]) {
                    spec_digits_end(s, e0)
                } else {
                    -1
                }
            } else {
                k2
            };
            if k3 < 0 {
                None
            } else {
                Some(k3)
            }
        }
    }
}

/// Executable counterpart of [`spec_number`].
pub fn number_end(v: &Vec<u8>, i: usize) -> (r: Option<usize>)
    requires
        i <= v.len(),
    ensures
        ({
            let sr = spec_number(v@, i as int);
            match r {
                Some(j) => sr == Some(j as int) && i < j <= v.len(),
                None => sr is None,
            }
        }),
{
    let j = if i < v.len() && v[i] == 0x2d {
        i + 1
    } else {
        i
    };
    if !(j < v.len() && 0x30 <= v[j] && v[j] <= 0x39) {
        return None;
    }
    let k = if v[j] == 0x30 {
        j + 1
    } else {
        proof {
            assert(spec_digits_end(v@, j as int) == spec_digits_end(v@, j as int + 1));
        }
        digits_end(v, j + 1)
    };
    let mut fail = false;
    let k2 = if k < v.len() && v[k] == 0x2e {
        if k + 1 < v.len() && 0x30 <= v[k + 1] && v[k + 1] <= 0x39 {
            digits_end(v, k + 1)
        } else {
            fail = true;
            0
        }
    } else {
        k
    };
    if fail {
        return None;
    }
    let mut fail2 = false;
    let k3 = if k2 < v.len() && (v[k2] == 0x65 || v[k2] == 0x45) {
        let e0 = if k2 + 1 < v.len() && (v[k2 + 1] == 0x2b || v[k2 + 1] == 0x2d) {
            k2 + 2
        } else {
            k2 + 1
        };
        if e0 < v.len() && 0x30 <= v[e0] && v[e0] <= 0x39 {
            digits_end(v, e0)
        } else {
            fail2 = true;
            0
        }
    } else {
        k2
    };
    if fail2 {
        return None;
    }
    Some(k3)
}

/// End of the complete JSON value starting at or after `i`, if any.
pub open spec fn spec_skip_value(s: Seq<u8>, i: int) -> Option<int>
    decreases s.len() - i, 0int,
{
    let j = wsa(s, i);
    if j >= s.len() {
        None
    } else {
        let b = s[j];
        if b == 0x7b {
            spec_skip_object(s, j + 1, true)
        } else if b == 0x5b {
            spec_skip_array(s, j + 1, true)
        } else if b == 0x22 {
            match spec_string_content(s, j + 1, Seq::empty()) {
                Some(p) => Some(p.1),
                None => None,
            }
        } else if b == 0x74 {
            if j + 4 <= s.len() && s[j + 1] == 0x72 && s[j + 2] == 0x75 && s[j + 3] == 0x65 {
                Some(j + 4)
            } else {
                None
            }
        } else if b == 0x66 {
            if j + 5 <= s.len() && s[j + 1] == 0x61 && s[j + 2] == 0x6c && s[j + 3] == 0x73 && s[j
                + 4] == 0x65 {
                Some(j + 5)
            } else {
                None
            }
        } else if b == 0x6e {
            if j + 4 <= s.len() && s[j + 1] == 0x75 && s[j + 2] == 0x6c && s[j + 3] == 0x6c {
                Some(j + 4)
            } else {
                None
            }
        } else if b == 0x2d || is_digit(b) {
            spec_number(s, j)
        } else {
            None
        }
    }
}

/// Members of an object being skipped, from just after `{` or `,`.
pub open spec fn spec_skip_object(s: Seq<u8>, i: int, can_close: bool) -> Option<int>
    decreases s.len() - i, 1int,
{
    let j = wsa(s, i);
    if j >= s.len() {
        None
    } else if s[j] == 0x7d && can_close {
        Some(j + 1)
    } else if s[j] == 0x22 {
        match spec_string_content(s, j + 1, Seq::empty()) {
            None => None,
            Some(p) => {
                let k = wsa(s, adv2(j + 1, p.1));
                if k >= s.len() || s[k] != 0x3a {
                    None
                } else {
                    match spec_skip_value(s, k + 1) {
                        None => None,
                        Some(m0) => {
                            let m = wsa(s, adv2(k + 1, m0));
                            if m >= s.len() {
                                None
                            } else if s[m] == 0x2c {
                                spec_skip_object(s, m + 1, false)
                            } else if s[m] == 0x7d {
                                Some(m + 1)
                            } else {
                                None
                            }
                        },
                    }
                }
            },
        }
    } else {
        None
    }
}

/// Elements of an array being skipped, from just after `[` or `,`.
pub open spec fn spec_skip_array(s: Seq<u8>, i: int, can_close: bool) -> Option<int>
    decreases s.len() - i, 1int,
{
    let j = wsa(s, i);
    if j >= s.len() {
        None
    } else if s[j] == 0x5d && can_close {
        Some(j + 1)
    } else {
        match spec_skip_value(s, j) {
            None => None,
            Some(m0) => {
                let m = wsa(s, adv2(j, m0));
                if m >= s.len() {
                    None
                } else if s[m] == 0x2c {
                    spec_skip_array(s, m + 1, false)
                } else if s[m] == 0x5d {
                    Some(m + 1)
                } else {
                    None
                }
            },
        }
    }
}

/// Executable counterpart of [`spec_skip_value`].
pub fn skip_value(v: &Vec<u8>, i: usize) -> (r: Option<usize>)
    requires
        i <= v.len(),
    ensures
        ({
            let sr = spec_skip_value(v@, i as int);
            match r {
                Some(j) => sr == Some(j as int) && i < j <= v.len(),
                None => sr is None,
            }
        }),
    decreases v.len() - i, 0int,
{
    let j = skip_json_ws(v, i);
    if j >= v.len() {
        return None;
    }
    let b = v[j];
    if b == 0x7b {
        skip_object(v, j + 1, true)
    } else if b == 0x5b {
        skip_array(v, j + 1, true)
    } else if b == 0x22 {
        match string_content(v, j + 1, Vec::new()) {
            Some(p) => Some(p.1),
            None => None,
        }
    } else if b == 0x74 {
        if v.len() - j >= 4 && v[j + 1] == 0x72 && v[j + 2] == 0x75 && v[j + 3] == 0x65 {
            Some(j + 4)
        } else {
            None
        }
    } else if b == 0x66 {
        if v.len() - j >= 5 && v[j + 1] == 0x61 && v[j + 2] == 0x6c && v[j + 3] == 0x73 && v[j + 4]
            == 0x65 {
            Some(j + 5)
        } else {
            None
        }
    } else if b == 0x6e {
        if v.len() - j >= 4 && v[j + 1] == 0x75 && v[j + 2] == 0x6c && v[j + 3] == 0x6c {
            Some(j + 4)
        } else {
            None
        }
    } else if b == 0x2d || (0x30 <= b && b <= 0x39) {
        number_end(v, j)
    } else {
        None
    }
}

/// Executable counterpart of [`spec_skip_object`].
pub fn skip_object(v: &Vec<u8>, i: usize, can_close: bool) -> (r: Option<usize>)
    requires
        i <= v.len(),
    ensures
        ({
            let sr = spec_skip_object(v@, i as int, can_close);
            match r {
                Some(j) => sr == Some(j as int) && i < j <= v.len(),
                None => sr is None,
            }
        }),
    decreases v.len() - i, 1int,
{
    let j = skip_json_ws(v, i);
    if j >= v.len() {
        return None;
    }
    if v[j] == 0x7d && can_close {
        return Some(j + 1);
    }
    if v[j] != 0x22 {
        return None;
    }
    match string_content(v, j + 1, Vec::new()) {
        None => None,
        Some(p) => {
            let k = skip_json_ws(v, p.1);
            proof {
                assert(adv2(j as int + 1, p.1 as int) == p.1 as int);
            }
            if k >= v.len() || v[k] != 0x3a {
                return None;
            }
            match skip_value(v, k + 1) {
                None => None,
                Some(m0) => {
                    let m = skip_json_ws(v, m0);
                    proof {
                        assert(adv2(k as int + 1, m0 as int) == m0 as int);
                    }
                    if m >= v.len() {
                        None
                    } else if v[m] == 0x2c {
                        skip_object(v, m + 1, false)
                    } else if v[m] == 0x7d {
                        Some(m + 1)
                    } else {
                        None
                    }
                },
            }
        },
    }
}

/// Executable counterpart of [`spec_skip_array`].
pub fn skip_array(v: &Vec<u8>, i: usize, can_close: bool) -> (r: Option<usize>)
    requires
        i <= v.len(),
    ensures
        ({
            let sr = spec_skip_array(v@, i as int, can_close);
            match r {
                Some(j) => sr == Some(j as int) && i < j <= v.len(),
                None => sr is None,
            }
        }),
    decreases v.len() - i, 1int,
{
    let j = skip_json_ws(v, i);
    if j >= v.len() {
        return None;
    }
    if v[j] == 0x5d && can_close {
        return Some(j + 1);
    }
    match skip_value(v, j) {
        None => None,
        Some(m0) => {
            let m = skip_json_ws(v, m0);
            proof {
                assert(adv2(j as int, m0 as int) == m0 as int);
            }
            if m >= v.len() {
                None
            } else if v[m] == 0x2c {
                skip_array(v, m + 1, false)
            } else if v[m] == 0x5d {
                Some(m + 1)
            } else {
                None
            }
        },
    }
}

} // verus!
