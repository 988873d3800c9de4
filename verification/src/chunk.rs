//! The streamed chat completion chunk: its data model and a verified
//! parser from a JSON payload line to the typed representation.
//!
//! Parsing follows the schema `{ object, model, choices: [ { delta:
//! { role?, content? }, index?, finish_reason? } ] }`. Unknown members
//! are skipped, duplicate known members are rejected, the three
//! top-level members are required, and an unrecognized `finish_reason`
//! or `role` makes the whole payload fail to parse.

use vstd::prelude::*;

use crate::json::{
    adv2, is_digit, digits_end, skip_json_ws, skip_value, spec_digits_end, spec_skip_value,
    spec_string_content, string_content, wsa,
};
use crate::utf8check::{chars_or_empty, string_or_empty};

verus! {

/// Why the model stopped emitting tokens, as reported by the server.
#[derive(Clone, Copy, Debug, PartialEq, Eq, Structural)]
pub enum OpenAIFinishReason {
    Stop,
    Length,
    ContentFilter,
}

/// Conversation role attached to a delta.
#[derive(Clone, Copy, Debug, PartialEq, Eq, Structural)]
pub enum OpenAIChatRole {
    System,
    User,
    Assistant,
}

/// Incremental part of the streamed message carried by one chunk.
#[derive(Clone, Debug, PartialEq)]
pub struct OpenAIStreamChunkChoiceDelta {
    pub role: Option<OpenAIChatRole>,
    pub content: Option<String>,
}

/// One choice of a streamed chunk.
#[derive(Clone, Debug, PartialEq)]
pub struct OpenAIStreamChunkChoice {
    pub delta: OpenAIStreamChunkChoiceDelta,
    pub index: Option<usize>,
    pub finish_reason: Option<OpenAIFinishReason>,
}

/// One parsed `data:` event of the completion stream.
#[derive(Clone, Debug, PartialEq)]
pub struct OpenAIStreamChunk {
    pub object: String,
    pub model: String,
    pub choices: Vec<OpenAIStreamChunkChoice>,
}

/// Mathematical image of a delta.
pub struct DeltaM {
    pub role: Option<OpenAIChatRole>,
    pub content: Option<Seq<char>>,
}

/// Mathematical image of a choice.
pub struct ChoiceM {
    pub delta: DeltaM,
    pub index: Option<usize>,
    pub finish_reason: Option<OpenAIFinishReason>,
}

/// Mathematical image of a chunk.
pub struct ChunkM {
    pub object: Seq<char>,
    pub model: Seq<char>,
    pub choices: Seq<ChoiceM>,
}

impl View for OpenAIStreamChunkChoiceDelta {
    type V = DeltaM;

    open spec fn view(&self) -> DeltaM {
        DeltaM {
            role: self.role,
            content: match self.content {
                Some(ref s) => Some(s@),
                None => None,
            },
        }
    }
}

impl View for OpenAIStreamChunkChoice {
    type V = ChoiceM;

    open spec fn view(&self) -> ChoiceM {
        ChoiceM { delta: self.delta@, index: self.index, finish_reason: self.finish_reason }
    }
}

impl View for OpenAIStreamChunk {
    type V = ChunkM;

    open spec fn view(&self) -> ChunkM {
        ChunkM {
            object: self.object@,
            model: self.model@,
            choices: self.choices@.map_values(|c: OpenAIStreamChunkChoice| c@),
        }
    }
}

/// A field accumulator: outer `None` means "not seen yet".
pub open spec fn flat<T>(x: Option<Option<T>>) -> Option<T> {
    match x {
        Some(y) => y,
        None => None,
    }
}

pub open spec fn key_object() -> Seq<u8> {
    seq![0x6fu8, 0x62, 0x6a, 0x65, 0x63, 0x74]
}

pub open spec fn key_model() -> Seq<u8> {
    seq![0x6du8, 0x6f, 0x64, 0x65, 0x6c]
}

pub open spec fn key_choices() -> Seq<u8> {
    seq![0x63u8, 0x68, 0x6f, 0x69, 0x63, 0x65, 0x73]
}

pub open spec fn key_delta() -> Seq<u8> {
    seq![0x64u8, 0x65, 0x6c, 0x74, 0x61]
}

pub open spec fn key_index() -> Seq<u8> {
    seq![0x69u8, 0x6e, 0x64, 0x65, 0x78]
}

pub open spec fn key_finish_reason() -> Seq<u8> {
    seq![0x66u8, 0x69, 0x6e, 0x69, 0x73, 0x68, 0x5f, 0x72, 0x65, 0x61, 0x73, 0x6f, 0x6e]
}

pub open spec fn key_role() -> Seq<u8> {
    seq![0x72u8, 0x6f, 0x6c, 0x65]
}

pub open spec fn key_content() -> Seq<u8> {
    seq![0x63u8, 0x6f, 0x6e, 0x74, 0x65, 0x6e, 0x74]
}

pub open spec fn lit_stop() -> Seq<u8> {
    seq![0x73u8, 0x74, 0x6f, 0x70]
}

pub open spec fn lit_length() -> Seq<u8> {
    seq![0x6cu8, 0x65, 0x6e, 0x67, 0x74, 0x68]
}

pub open spec fn lit_content_filter() -> Seq<u8> {
    seq![0x63u8, 0x6f, 0x6e, 0x74, 0x65, 0x6e, 0x74, 0x5f, 0x66, 0x69, 0x6c, 0x74, 0x65, 0x72]
}

pub open spec fn lit_system() -> Seq<u8> {
    seq![0x73u8, 0x79, 0x73, 0x74, 0x65, 0x6d]
}

pub open spec fn lit_user() -> Seq<u8> {
    seq![0x75u8, 0x73, 0x65, 0x72]
}

pub open spec fn lit_assistant() -> Seq<u8> {
    seq![0x61u8, 0x73, 0x73, 0x69, 0x73, 0x74, 0x61, 0x6e, 0x74]
}

/// Compare a parsed key against an expected byte sequence given as a vector.
pub fn bytes_is(k: &Vec<u8>, expected: &Vec<u8>) -> (r: bool)
    ensures
        r == (k@ == expected@),
{
    crate::bytesutil::vec_eq(k, expected)
}

/// Whether a `null` literal sits at `j` (the caller has seen the `n`).
pub open spec fn null_at(s: Seq<u8>, j: int) -> bool {
    j + 4 <= s.len() && s[j] == 0x6e && s[j + 1] == 0x75 && s[j + 2] == 0x6c && s[j + 3] == 0x6c
}

/// A JSON string value: whitespace, quote, content.
pub open spec fn spec_string_value(s: Seq<u8>, i: int) -> Option<(Seq<u8>, int)> {
    let j = wsa(s, i);
    if j < s.len() && s[j] == 0x22 {
        spec_string_content(s, j + 1, Seq::empty())
    } else {
        None
    }
}

pub fn string_value(v: &Vec<u8>, i: usize) -> (r: Option<(Vec<u8>, usize)>)
    requires
        i <= v.len(),
    ensures
        ({
            let sr = spec_string_value(v@, i as int);
            match r {
                Some(p) => sr == Some((p.0@, p.1 as int)) && i < p.1 <= v.len(),
                None => sr is None,
            }
        }),
{
    let j = skip_json_ws(v, i);
    if j < v.len() && v[j] == 0x22 {
        string_content(v, j + 1, Vec::new())
    } else {
        None
    }
}

/// A string-or-null value.
pub open spec fn spec_opt_string_value(s: Seq<u8>, i: int) -> Option<(Option<Seq<u8>>, int)> {
    let j = wsa(s, i);
    if j >= s.len() {
        None
    } else if s[j] == 0x6e {
        if null_at(s, j) {
            Some((None, j + 4))
        } else {
            None
        }
    } else if s[j] == 0x22 {
        match spec_string_content(s, j + 1, Seq::empty()) {
            Some(p) => Some((Some(p.0), p.1)),
            None => None,
        }
    } else {
        None
    }
}

pub fn opt_string_value(v: &Vec<u8>, i: usize) -> (r: Option<(Option<Vec<u8>>, usize)>)
    requires
        i <= v.len(),
    ensures
        ({
            let sr = spec_opt_string_value(v@, i as int);
            match r {
                Some(p) => sr == Some(
                    (
                        match p.0 {
                            Some(ref b) => Some(b@),
                            None => None,
                        },
                        p.1 as int,
                    ),
                ) && i < p.1 <= v.len(),
                None => sr is None,
            }
        }),
{
    let j = skip_json_ws(v, i);
    if j >= v.len() {
        return None;
    }
    if v[j] == 0x6e {
        if v.len() - j >= 4 && v[j + 1] == 0x75 && v[j + 2] == 0x6c && v[j + 3] == 0x6c {
            Some((None, j + 4))
        } else {
            None
        }
    } else if v[j] == 0x22 {
        match string_content(v, j + 1, Vec::new()) {
            Some(p) => Some((Some(p.0), p.1)),
            None => None,
        }
    } else {
        None
    }
}

/// Value of the digits `s[j..k]` read as a decimal number.
pub open spec fn digits_val(s: Seq<u8>, j: int, k: int) -> int
    decreases k - j,
{
    if k <= j {
        0
    } else {
        digits_val(s, j, k - 1) * 10 + (s[k - 1] - 0x30)
    }
}

pub open spec fn pow10(n: int) -> int
    decreases n,
{
    if n <= 0 {
        1
    } else {
        10 * pow10(n - 1)
    }
}

proof fn lemma_digits_region(s: Seq<u8>, i: int)
    ensures
        forall|x: int| i <= x < spec_digits_end(s, i) ==> is_digit(#[trigger] s[x]),
        i <= s.len() ==> spec_digits_end(s, i) <= s.len(),
        spec_digits_end(s, i) >= i,
    decreases s.len() - i,
{
    if 0 <= i < s.len() && is_digit(s[i]) {
        lemma_digits_region(s, i + 1);
    }
}

proof fn lemma_pow10_pos(n: int)
    ensures
        pow10(n) >= 1,
    decreases n,
{
    if n > 0 {
        lemma_pow10_pos(n - 1);
    }
}

proof fn lemma_pow10_le(a: int, b: int)
    requires
        a <= b,
    ensures
        pow10(a) <= pow10(b),
        pow10(a) >= 1,
    decreases b - a,
{
    lemma_pow10_pos(a);
    if a < b {
        lemma_pow10_le(a, b - 1);
        lemma_pow10_pos(b - 1);
    }
}

proof fn lemma_digits_val_bound(s: Seq<u8>, j: int, k: int)
    requires
        forall|x: int| j <= x < k ==> is_digit(#[trigger] s[x]),
    ensures
        0 <= digits_val(s, j, k),
        j <= k ==> digits_val(s, j, k) < pow10(k - j),
    decreases k - j,
{
    if k <= j {
    } else {
        lemma_digits_val_bound(s, j, k - 1);
        lemma_pow10_le(0, k - 1 - j);
    }
}

/// An unsigned-integer-or-null value, as accepted for the `index` member.
/// Fractions, exponents, negative numbers and values above `usize::MAX`
/// are rejected; runs of more than 19 digits are rejected outright.
pub open spec fn spec_usize_value(s: Seq<u8>, i: int) -> Option<(Option<usize>, int)> {
    let j = wsa(s, i);
    if j >= s.len() {
        None
    } else if s[j] == 0x6e {
        if null_at(s, j) {
            Some((None, j + 4))
        } else {
            None
        }
    } else if is_digit(s[j]) {
        let k = if s[j] == 0x30 {
            j + 1
        } else {
            spec_digits_end(s, j)
        };
        if k < s.len() && (s[k] == 0x2e || s[k] == 0x65 || s[k] == 0x45) {
            None
        } else if k - j > 19 {
            None
        } else if digits_val(s, j, k) > usize::MAX as int {
            None
        } else {
            Some((Some(digits_val(s, j, k) as usize), k))
        }
    } else {
        None
    }
}

pub fn usize_value(v: &Vec<u8>, i: usize) -> (r: Option<(Option<usize>, usize)>)
    requires
        i <= v.len(),
    ensures
        ({
            let sr = spec_usize_value(v@, i as int);
            match r {
                Some(p) => sr == Some((p.0, p.1 as int)) && i < p.1 <= v.len(),
                None => sr is None,
            }
        }),
{
    let j = skip_json_ws(v, i);
    if j >= v.len() {
        return None;
    }
    if v[j] == 0x6e {
        if v.len() - j >= 4 && v[j + 1] == 0x75 && v[j + 2] == 0x6c && v[j + 3] == 0x6c {
            return Some((None, j + 4));
        } else {
            return None;
        }
    }
    if !(0x30 <= v[j] && v[j] <= 0x39) {
        return None;
    }
    let k = if v[j] == 0x30 {
        j + 1
    } else {
        proof {
            assert(spec_digits_end(v@, j as int) == spec_digits_end(v@, j as int + 1));
            lemma_digits_region(v@, j as int + 1);
        }
        digits_end(v, j)
    };
    proof {
        lemma_digits_region(v@, j as int);
        assert(forall|x: int| j as int <= x < k as int ==> is_digit(#[trigger] v@[x]));
    }
    if k < v.len() && (v[k] == 0x2e || v[k] == 0x65 || v[k] == 0x45) {
        return None;
    }
    if k - j > 19 {
        return None;
    }
    proof {
        lemma_digits_val_bound(v@, j as int, k as int);
        lemma_pow10_le(k as int - j as int, 19);
        assert(pow10(19) == 10000000000000000000) by {
            reveal_with_fuel(pow10, 20);
        }
    }
    let mut acc: u64 = 0;
    let mut x: usize = j;
    while x < k
        invariant
            j <= x <= k <= v.len(),
            acc as int == digits_val(v@, j as int, x as int),
            forall|y: int| j as int <= y < k as int ==> is_digit(#[trigger] v@[y]),
            digits_val(v@, j as int, k as int) < pow10(19),
            k as int - j as int <= 19,
        decreases k - x,
    {
        proof {
            lemma_digits_val_bound(v@, j as int, x as int + 1);
            lemma_pow10_le(x as int + 1 - j as int, 19);
            assert(pow10(19) == 10000000000000000000) by {
            reveal_with_fuel(pow10, 20);
        }
        }
        acc = acc * 10 + ((v[x] - 0x30) as u64);
        x = x + 1;
    }
    if acc > (usize::MAX as u64) {
        None
    } else {
        Some((Some(acc as usize), k))
    }
}

/// A `finish_reason` value: `null` or one of the recognized literals.
pub open spec fn spec_finish_value(s: Seq<u8>, i: int) -> Option<
    (Option<OpenAIFinishReason>, int),
> {
    match spec_opt_string_value(s, i) {
        None => None,
        Some(p) => match p.0 {
            None => Some((None, p.1)),
            Some(b) => if b == lit_stop() {
                Some((Some(OpenAIFinishReason::Stop), p.1))
            } else if b == lit_length() {
                Some((Some(OpenAIFinishReason::Length), p.1))
            } else if b == lit_content_filter() {
                Some((Some(OpenAIFinishReason::ContentFilter), p.1))
            } else {
                None
            },
        },
    }
}

pub fn finish_value(v: &Vec<u8>, i: usize, lits: &Lits) -> (r: Option<
    (Option<OpenAIFinishReason>, usize),
>)
    requires
        i <= v.len(),
        lits.wf(),
    ensures
        ({
            let sr = spec_finish_value(v@, i as int);
            match r {
                Some(p) => sr == Some((p.0, p.1 as int)) && i < p.1 <= v.len(),
                None => sr is None,
            }
        }),
{
    match opt_string_value(v, i) {
        None => None,
        Some((ob, e)) => match ob {
            None => Some((None, e)),
            Some(b) => {
                if bytes_is(&b, &lits.stop) {
                    Some((Some(OpenAIFinishReason::Stop), e))
                } else if bytes_is(&b, &lits.length) {
                    Some((Some(OpenAIFinishReason::Length), e))
                } else if bytes_is(&b, &lits.content_filter) {
                    Some((Some(OpenAIFinishReason::ContentFilter), e))
                } else {
                    None
                }
            },
        },
    }
}

/// A `role` value: `null` or one of the recognized literals.
pub open spec fn spec_role_value(s: Seq<u8>, i: int) -> Option<(Option<OpenAIChatRole>, int)> {
    match spec_opt_string_value(s, i) {
        None => None,
        Some(p) => match p.0 {
            None => Some((None, p.1)),
            Some(b) => if b == lit_system() {
                Some((Some(OpenAIChatRole::System), p.1))
            } else if b == lit_user() {
                Some((Some(OpenAIChatRole::User), p.1))
            } else if b == lit_assistant() {
                Some((Some(OpenAIChatRole::Assistant), p.1))
            } else {
                None
            },
        },
    }
}

pub fn role_value(v: &Vec<u8>, i: usize, lits: &Lits) -> (r: Option<(Option<OpenAIChatRole>, usize)>)
    requires
        i <= v.len(),
        lits.wf(),
    ensures
        ({
            let sr = spec_role_value(v@, i as int);
            match r {
                Some(p) => sr == Some((p.0, p.1 as int)) && i < p.1 <= v.len(),
                None => sr is None,
            }
        }),
{
    match opt_string_value(v, i) {
        None => None,
        Some((ob, e)) => match ob {
            None => Some((None, e)),
            Some(b) => {
                if bytes_is(&b, &lits.system) {
                    Some((Some(OpenAIChatRole::System), e))
                } else if bytes_is(&b, &lits.user) {
                    Some((Some(OpenAIChatRole::User), e))
                } else if bytes_is(&b, &lits.assistant) {
                    Some((Some(OpenAIChatRole::Assistant), e))
                } else {
                    None
                }
            },
        },
    }
}

/// The protocol byte literals the parser compares against, built once.
pub struct Lits {
    pub object: Vec<u8>,
    pub model: Vec<u8>,
    pub choices: Vec<u8>,
    pub delta: Vec<u8>,
    pub index: Vec<u8>,
    pub finish_reason: Vec<u8>,
    pub role: Vec<u8>,
    pub content: Vec<u8>,
    pub stop: Vec<u8>,
    pub length: Vec<u8>,
    pub content_filter: Vec<u8>,
    pub system: Vec<u8>,
    pub user: Vec<u8>,
    pub assistant: Vec<u8>,
}

impl Lits {
    pub open spec fn wf(&self) -> bool {
        &&& self.object@ == key_object()
        &&& self.model@ == key_model()
        &&& self.choices@ == key_choices()
        &&& self.delta@ == key_delta()
        &&& self.index@ == key_index()
        &&& self.finish_reason@ == key_finish_reason()
        &&& self.role@ == key_role()
        &&& self.content@ == key_content()
        &&& self.stop@ == lit_stop()
        &&& self.length@ == lit_length()
        &&& self.content_filter@ == lit_content_filter()
        &&& self.system@ == lit_system()
        &&& self.user@ == lit_user()
        &&& self.assistant@ == lit_assistant()
    }

    pub fn new() -> (r: Lits)
        ensures
            r.wf(),
    {
        let object = byte_vec14(6, 0x6f, 0x62, 0x6a, 0x65, 0x63, 0x74, 0, 0, 0, 0, 0, 0, 0, 0);
        let model = byte_vec14(5, 0x6d, 0x6f, 0x64, 0x65, 0x6c, 0, 0, 0, 0, 0, 0, 0, 0, 0);
        let choices = byte_vec14(7, 0x63, 0x68, 0x6f, 0x69, 0x63, 0x65, 0x73, 0, 0, 0, 0, 0, 0, 0);
        let delta = byte_vec14(5, 0x64, 0x65, 0x6c, 0x74, 0x61, 0, 0, 0, 0, 0, 0, 0, 0, 0);
        let index = byte_vec14(5, 0x69, 0x6e, 0x64, 0x65, 0x78, 0, 0, 0, 0, 0, 0, 0, 0, 0);
        let finish_reason = byte_vec14(
            13,
            0x66,
            0x69,
            0x6e,
            0x69,
            0x73,
            0x68,
            0x5f,
            0x72,
            0x65,
            0x61,
            0x73,
            0x6f,
            0x6e,
            0,
        );
        let role = byte_vec14(4, 0x72, 0x6f, 0x6c, 0x65, 0, 0, 0, 0, 0, 0, 0, 0, 0, 0);
        let content = byte_vec14(7, 0x63, 0x6f, 0x6e, 0x74, 0x65, 0x6e, 0x74, 0, 0, 0, 0, 0, 0, 0);
        let stop = byte_vec14(4, 0x73, 0x74, 0x6f, 0x70, 0, 0, 0, 0, 0, 0, 0, 0, 0, 0);
        let length = byte_vec14(6, 0x6c, 0x65, 0x6e, 0x67, 0x74, 0x68, 0, 0, 0, 0, 0, 0, 0, 0);
        let content_filter = byte_vec14(
            14,
            0x63,
            0x6f,
            0x6e,
            0x74,
            0x65,
            0x6e,
            0x74,
            0x5f,
            0x66,
            0x69,
            0x6c,
            0x74,
            0x65,
            0x72,
        );
        let system = byte_vec14(6, 0x73, 0x79, 0x73, 0x74, 0x65, 0x6d, 0, 0, 0, 0, 0, 0, 0, 0);
        let user = byte_vec14(4, 0x75, 0x73, 0x65, 0x72, 0, 0, 0, 0, 0, 0, 0, 0, 0, 0);
        let assistant = byte_vec14(
            9,
            0x61,
            0x73,
            0x73,
            0x69,
            0x73,
            0x74,
            0x61,
            0x6e,
            0x74,
            0,
            0,
            0,
            0,
            0,
        );
        proof {
            assert(object@ =~= key_object());
            assert(model@ =~= key_model());
            assert(choices@ =~= key_choices());
            assert(delta@ =~= key_delta());
            assert(index@ =~= key_index());
            assert(finish_reason@ =~= key_finish_reason());
            assert(role@ =~= key_role());
            assert(content@ =~= key_content());
            assert(stop@ =~= lit_stop());
            assert(length@ =~= lit_length());
            assert(content_filter@ =~= lit_content_filter());
            assert(system@ =~= lit_system());
            assert(user@ =~= lit_user());
            assert(assistant@ =~= lit_assistant());
        }
        Lits {
            object,
            model,
            choices,
            delta,
            index,
            finish_reason,
            role,
            content,
            stop,
            length,
            content_filter,
            system,
            user,
            assistant,
        }
    }
}

/// Spec image of an optional-string accumulator.
pub open spec fn oos_view(x: Option<Option<String>>) -> Option<Option<Seq<char>>> {
    match x {
        Some(Some(s)) => Some(Some(s@)),
        Some(None) => Some(None),
        None => None,
    }
}

/// Members of a `delta` object, from just after `{` or `,`.
pub open spec fn spec_delta_members(
    s: Seq<u8>,
    i: int,
    role: Option<Option<OpenAIChatRole>>,
    content: Option<Option<Seq<char>>>,
    can_close: bool,
) -> Option<(DeltaM, int)>
    decreases s.len() - i,
{
    let j = wsa(s, i);
    if j >= s.len() {
        None
    } else if s[j] == 0x7d && can_close {
        Some((DeltaM { role: flat(role), content: flat(content) }, j + 1))
    } else if s[j] == 0x22 {
        match spec_string_content(s, j + 1, Seq::empty()) {
            None => None,
            Some(kp) => {
                let k = wsa(s, adv2(j + 1, kp.1));
                if k >= s.len() || s[k] != 0x3a {
                    None
                } else {
                    let step: Option<
                        (Option<Option<OpenAIChatRole>>, Option<Option<Seq<char>>>, int),
                    > = if kp.0 == key_role() {
                        if role is Some {
                            None
                        } else {
                            match spec_role_value(s, k + 1) {
                                None => None,
                                Some(rp) => Some((Some(rp.0), content, rp.1)),
                            }
                        }
                    } else if kp.0 == key_content() {
                        if content is Some {
                            None
                        } else {
                            match spec_opt_string_value(s, k + 1) {
                                None => None,
                                Some(cp) => Some(
                                    (
                                        role,
                                        Some(
                                            match cp.0 {
                                                Some(b) => Some(chars_or_empty(b)),
                                                None => None,
                                            },
                                        ),
                                        cp.1,
                                    ),
                                ),
                            }
                        }
                    } else {
                        match spec_skip_value(s, k + 1) {
                            None => None,
                            Some(m0) => Some((role, content, m0)),
                        }
                    };
                    match step {
                        None => None,
                        Some(t) => {
                            let m = wsa(s, adv2(k + 1, t.2));
                            if m >= s.len() {
                                None
                            } else if s[m] == 0x2c {
                                spec_delta_members(s, m + 1, t.0, t.1, false)
                            } else if s[m] == 0x7d {
                                Some((DeltaM { role: flat(t.0), content: flat(t.1) }, m + 1))
                            } else {
                                None
                            }
                        },
                    }
                }
            },
        }
    } else {
        None
    }
}

/// Executable counterpart of [`spec_delta_members`].
#[verifier::rlimit(60)]
pub fn delta_members(
    v: &Vec<u8>,
    i: usize,
    role: Option<Option<OpenAIChatRole>>,
    content: Option<Option<String>>,
    can_close: bool,
    lits: &Lits,
) -> (r: Option<(OpenAIStreamChunkChoiceDelta, usize)>)
    requires
        i <= v.len(),
        lits.wf(),
    ensures
        ({
            let sr = spec_delta_members(v@, i as int, role, oos_view(content), can_close);
            match r {
                Some(p) => sr == Some((p.0@, p.1 as int)) && i < p.1 <= v.len(),
                None => sr is None,
            }
        }),
    decreases v.len() - i,
{
    let j = skip_json_ws(v, i);
    if j >= v.len() {
        return None;
    }
    if v[j] == 0x7d && can_close {
        let d = OpenAIStreamChunkChoiceDelta {
            role: match role {
                Some(r0) => r0,
                None => None,
            },
            content: match content {
                Some(c0) => c0,
                None => None,
            },
        };
        return Some((d, j + 1));
    }
    if v[j] != 0x22 {
        return None;
    }
    match string_content(v, j + 1, Vec::new()) {
        None => None,
        Some(kp) => {
            let k = skip_json_ws(v, kp.1);
            proof {
                assert(adv2(j as int + 1, kp.1 as int) == kp.1 as int);
            }
            if k >= v.len() || v[k] != 0x3a {
                return None;
            }
            let step: Option<(Option<Option<OpenAIChatRole>>, Option<Option<String>>, usize)> =
                if bytes_is(&kp.0, &lits.role) {
                if role.is_some() {
                    None
                } else {
                    match role_value(v, k + 1, lits) {
                        None => None,
                        Some(rp) => Some((Some(rp.0), content, rp.1)),
                    }
                }
            } else if bytes_is(&kp.0, &lits.content) {
                if content.is_some() {
                    None
                } else {
                    match opt_string_value(v, k + 1) {
                        None => None,
                        Some(cp) => Some(
                            (
                                role,
                                Some(
                                    match cp.0 {
                                        Some(b) => Some(string_or_empty(b)),
                                        None => None,
                                    },
                                ),
                                cp.1,
                            ),
                        ),
                    }
                }
            } else {
                match skip_value(v, k + 1) {
                    None => None,
                    Some(m0) => Some((role, content, m0)),
                }
            };
            match step {
                None => None,
                Some(t) => {
                    let m = skip_json_ws(v, t.2);
                    proof {
                        assert(adv2(k as int + 1, t.2 as int) == t.2 as int);
                    }
                    if m >= v.len() {
                        None
                    } else if v[m] == 0x2c {
                        delta_members(v, m + 1, t.0, t.1, false, lits)
                    } else if v[m] == 0x7d {
                        let d = OpenAIStreamChunkChoiceDelta {
                            role: match t.0 {
                                Some(r0) => r0,
                                None => None,
                            },
                            content: match t.1 {
                                Some(c0) => c0,
                                None => None,
                            },
                        };
                        Some((d, m + 1))
                    } else {
                        None
                    }
                },
            }
        },
    }
}

/// Members of a choice object, from just after `{` or `,`.
pub open spec fn spec_choice_members(
    s: Seq<u8>,
    i: int,
    delta: Option<DeltaM>,
    index: Option<Option<usize>>,
    fin: Option<Option<OpenAIFinishReason>>,
    can_close: bool,
) -> Option<(ChoiceM, int)>
    decreases s.len() - i,
{
    let j = wsa(s, i);
    if j >= s.len() {
        None
    } else if s[j] == 0x7d && can_close {
        match delta {
            Some(d) => Some(
                (ChoiceM { delta: d, index: flat(index), finish_reason: flat(fin) }, j + 1),
            ),
            None => None,
        }
    } else if s[j] == 0x22 {
        match spec_string_content(s, j + 1, Seq::empty()) {
            None => None,
            Some(kp) => {
                let k = wsa(s, adv2(j + 1, kp.1));
                if k >= s.len() || s[k] != 0x3a {
                    None
                } else {
                    let step: Option<
                        (
                            Option<DeltaM>,
                            Option<Option<usize>>,
                            Option<Option<OpenAIFinishReason>>,
                            int,
                        ),
                    > = if kp.0 == key_delta() {
                        if delta is Some {
                            None
                        } else {
                            let jv = wsa(s, k + 1);
                            if jv < s.len() && s[jv] == 0x7b {
                                match spec_delta_members(s, jv + 1, None, None, true) {
                                    None => None,
                                    Some(dp) => Some((Some(dp.0), index, fin, dp.1)),
                                }
                            } else {
                                None
                            }
                        }
                    } else if kp.0 == key_index() {
                        if index is Some {
                            None
                        } else {
                            match spec_usize_value(s, k + 1) {
                                None => None,
                                Some(ip) => Some((delta, Some(ip.0), fin, ip.1)),
                            }
                        }
                    } else if kp.0 == key_finish_reason() {
                        if fin is Some {
                            None
                        } else {
                            match spec_finish_value(s, k + 1) {
                                None => None,
                                Some(fp) => Some((delta, index, Some(fp.0), fp.1)),
                            }
                        }
                    } else {
                        match spec_skip_value(s, k + 1) {
                            None => None,
                            Some(m0) => Some((delta, index, fin, m0)),
                        }
                    };
                    match step {
                        None => None,
                        Some(t) => {
                            let m = wsa(s, adv2(k + 1, t.3));
                            if m >= s.len() {
                                None
                            } else if s[m] == 0x2c {
                                spec_choice_members(s, m + 1, t.0, t.1, t.2, false)
                            } else if s[m] == 0x7d {
                                match t.0 {
                                    Some(d) => Some(
                                        (
                                            ChoiceM {
                                                delta: d,
                                                index: flat(t.1),
                                                finish_reason: flat(t.2),
                                            },
                                            m + 1,
                                        ),
                                    ),
                                    None => None,
                                }
                            } else {
                                None
                            }
                        },
                    }
                }
            },
        }
    } else {
        None
    }
}

/// Executable counterpart of [`spec_choice_members`].
#[verifier::rlimit(60)]
pub fn choice_members(
    v: &Vec<u8>,
    i: usize,
    delta: Option<OpenAIStreamChunkChoiceDelta>,
    index: Option<Option<usize>>,
    fin: Option<Option<OpenAIFinishReason>>,
    can_close: bool,
    lits: &Lits,
) -> (r: Option<(OpenAIStreamChunkChoice, usize)>)
    requires
        i <= v.len(),
        lits.wf(),
    ensures
        ({
            let sr = spec_choice_members(
                v@,
                i as int,
                match delta {
                    Some(ref d) => Some(d@),
                    None => None,
                },
                index,
                fin,
                can_close,
            );
            match r {
                Some(p) => sr == Some((p.0@, p.1 as int)) && i < p.1 <= v.len(),
                None => sr is None,
            }
        }),
    decreases v.len() - i,
{
    let j = skip_json_ws(v, i);
    if j >= v.len() {
        return None;
    }
    if v[j] == 0x7d && can_close {
        return match delta {
            Some(d) => Some(
                (
                    OpenAIStreamChunkChoice {
                        delta: d,
                        index: match index {
                            Some(i0) => i0,
                            None => None,
                        },
                        finish_reason: match fin {
                            Some(f0) => f0,
                            None => None,
                        },
                    },
                    j + 1,
                ),
            ),
            None => None,
        };
    }
    if v[j] != 0x22 {
        return None;
    }
    match string_content(v, j + 1, Vec::new()) {
        None => None,
        Some(kp) => {
            let k = skip_json_ws(v, kp.1);
            proof {
                assert(adv2(j as int + 1, kp.1 as int) == kp.1 as int);
            }
            if k >= v.len() || v[k] != 0x3a {
                return None;
            }
            let step: Option<
                (
                    Option<OpenAIStreamChunkChoiceDelta>,
                    Option<Option<usize>>,
                    Option<Option<OpenAIFinishReason>>,
                    usize,
                ),
            > = if bytes_is(&kp.0, &lits.delta) {
                if delta.is_some() {
                    None
                } else {
                    let jv = skip_json_ws(v, k + 1);
                    if jv < v.len() && v[jv] == 0x7b {
                        match delta_members(v, jv + 1, None, None, true, lits) {
                            None => None,
                            Some(dp) => Some((Some(dp.0), index, fin, dp.1)),
                        }
                    } else {
                        None
                    }
                }
            } else if bytes_is(&kp.0, &lits.index) {
                if index.is_some() {
                    None
                } else {
                    match usize_value(v, k + 1) {
                        None => None,
                        Some(ip) => Some((delta, Some(ip.0), fin, ip.1)),
                    }
                }
            } else if bytes_is(&kp.0, &lits.finish_reason) {
                if fin.is_some() {
                    None
                } else {
                    match finish_value(v, k + 1, lits) {
                        None => None,
                        Some(fp) => Some((delta, index, Some(fp.0), fp.1)),
                    }
                }
            } else {
                match skip_value(v, k + 1) {
                    None => None,
                    Some(m0) => Some((delta, index, fin, m0)),
                }
            };
            match step {
                None => None,
                Some(t) => {
                    let m = skip_json_ws(v, t.3);
                    proof {
                        assert(adv2(k as int + 1, t.3 as int) == t.3 as int);
                    }
                    if m >= v.len() {
                        None
                    } else if v[m] == 0x2c {
                        choice_members(v, m + 1, t.0, t.1, t.2, false, lits)
                    } else if v[m] == 0x7d {
                        match t.0 {
                            Some(d) => Some(
                                (
                                    OpenAIStreamChunkChoice {
                                        delta: d,
                                        index: match t.1 {
                                            Some(i0) => i0,
                                            None => None,
                                        },
                                        finish_reason: match t.2 {
                                            Some(f0) => f0,
                                            None => None,
                                        },
                                    },
                                    m + 1,
                                ),
                            ),
                            None => None,
                        }
                    } else {
                        None
                    }
                },
            }
        },
    }
}

/// Elements of the `choices` array, from just after `[` or `,`.
pub open spec fn spec_choices_elems(s: Seq<u8>, i: int, acc: Seq<ChoiceM>, can_close: bool) -> Option<
    (Seq<ChoiceM>, int),
>
    decreases s.len() - i,
{
    let j = wsa(s, i);
    if j >= s.len() {
        None
    } else if s[j] == 0x5d && can_close {
        Some((acc, j + 1))
    } else if s[j] == 0x7b {
        match spec_choice_members(s, j + 1, None, None, None, true) {
            None => None,
            Some(cp) => {
                let m = wsa(s, adv2(j + 1, cp.1));
                if m >= s.len() {
                    None
                } else if s[m] == 0x2c {
                    spec_choices_elems(s, m + 1, acc.push(cp.0), false)
                } else if s[m] == 0x5d {
                    Some((acc.push(cp.0), m + 1))
                } else {
                    None
                }
            },
        }
    } else {
        None
    }
}

/// Executable counterpart of [`spec_choices_elems`].
#[verifier::rlimit(60)]
pub fn choices_elems(
    v: &Vec<u8>,
    i: usize,
    acc: Vec<OpenAIStreamChunkChoice>,
    can_close: bool,
    lits: &Lits,
) -> (r: Option<(Vec<OpenAIStreamChunkChoice>, usize)>)
    requires
        i <= v.len(),
        lits.wf(),
    ensures
        ({
            let sr = spec_choices_elems(
                v@,
                i as int,
                acc@.map_values(|c: OpenAIStreamChunkChoice| c@),
                can_close,
            );
            match r {
                Some(p) => sr == Some(
                    (p.0@.map_values(|c: OpenAIStreamChunkChoice| c@), p.1 as int),
                ) && i < p.1 <= v.len(),
                None => sr is None,
            }
        }),
    decreases v.len() - i,
{
    let j = skip_json_ws(v, i);
    if j >= v.len() {
        return None;
    }
    if v[j] == 0x5d && can_close {
        return Some((acc, j + 1));
    }
    if v[j] != 0x7b {
        return None;
    }
    match choice_members(v, j + 1, None, None, None, true, lits) {
        None => None,
        Some(cp) => {
            let m = skip_json_ws(v, cp.1);
            proof {
                assert(adv2(j as int + 1, cp.1 as int) == cp.1 as int);
            }
            if m >= v.len() {
                None
            } else if v[m] == 0x2c {
                let mut acc = acc;
                let ghost accv = acc@.map_values(|c: OpenAIStreamChunkChoice| c@);
                acc.push(cp.0);
                proof {
                    assert(acc@.map_values(|c: OpenAIStreamChunkChoice| c@) =~= accv.push(cp.0@));
                }
                choices_elems(v, m + 1, acc, false, lits)
            } else if v[m] == 0x5d {
                let mut acc = acc;
                let ghost accv = acc@.map_values(|c: OpenAIStreamChunkChoice| c@);
                acc.push(cp.0);
                proof {
                    assert(acc@.map_values(|c: OpenAIStreamChunkChoice| c@) =~= accv.push(cp.0@));
                }
                Some((acc, m + 1))
            } else {
                None
            }
        },
    }
}

/// Spec image of an optional-string field accumulator already decoded.
pub open spec fn os_view(x: Option<String>) -> Option<Seq<char>> {
    match x {
        Some(s) => Some(s@),
        None => None,
    }
}

/// Members of the top-level chunk object, from just after `{` or `,`.
pub open spec fn spec_chunk_members(
    s: Seq<u8>,
    i: int,
    object: Option<Seq<char>>,
    model: Option<Seq<char>>,
    choices: Option<Seq<ChoiceM>>,
    can_close: bool,
) -> Option<(ChunkM, int)>
    decreases s.len() - i,
{
    let j = wsa(s, i);
    if j >= s.len() {
        None
    } else if s[j] == 0x7d && can_close {
        match (object, model, choices) {
            (Some(o), Some(md), Some(cs)) => Some(
                (ChunkM { object: o, model: md, choices: cs }, j + 1),
            ),
            _ => None,
        }
    } else if s[j] == 0x22 {
        match spec_string_content(s, j + 1, Seq::empty()) {
            None => None,
            Some(kp) => {
                let k = wsa(s, adv2(j + 1, kp.1));
                if k >= s.len() || s[k] != 0x3a {
                    None
                } else {
                    let step: Option<
                        (Option<Seq<char>>, Option<Seq<char>>, Option<Seq<ChoiceM>>, int),
                    > = if kp.0 == key_object() {
                        if object is Some {
                            None
                        } else {
                            match spec_string_value(s, k + 1) {
                                None => None,
                                Some(sp) => Some(
                                    (Some(chars_or_empty(sp.0)), model, choices, sp.1),
                                ),
                            }
                        }
                    } else if kp.0 == key_model() {
                        if model is Some {
                            None
                        } else {
                            match spec_string_value(s, k + 1) {
                                None => None,
                                Some(sp) => Some(
                                    (object, Some(chars_or_empty(sp.0)), choices, sp.1),
                                ),
                            }
                        }
                    } else if kp.0 == key_choices() {
                        if choices is Some {
                            None
                        } else {
                            let jv = wsa(s, k + 1);
                            if jv < s.len() && s[jv] == 0x5b {
                                match spec_choices_elems(s, jv + 1, Seq::empty(), true) {
                                    None => None,
                                    Some(ap) => Some((object, model, Some(ap.0), ap.1)),
                                }
                            } else {
                                None
                            }
                        }
                    } else {
                        match spec_skip_value(s, k + 1) {
                            None => None,
                            Some(m0) => Some((object, model, choices, m0)),
                        }
                    };
                    match step {
                        None => None,
                        Some(t) => {
                            let m = wsa(s, adv2(k + 1, t.3));
                            if m >= s.len() {
                                None
                            } else if s[m] == 0x2c {
                                spec_chunk_members(s, m + 1, t.0, t.1, t.2, false)
                            } else if s[m] == 0x7d {
                                match (t.0, t.1, t.2) {
                                    (Some(o), Some(md), Some(cs)) => Some(
                                        (ChunkM { object: o, model: md, choices: cs }, m + 1),
                                    ),
                                    _ => None,
                                }
                            } else {
                                None
                            }
                        },
                    }
                }
            },
        }
    } else {
        None
    }
}

/// Executable counterpart of [`spec_chunk_members`].
#[verifier::rlimit(60)]
pub fn chunk_members(
    v: &Vec<u8>,
    i: usize,
    object: Option<String>,
    model: Option<String>,
    choices: Option<Vec<OpenAIStreamChunkChoice>>,
    can_close: bool,
    lits: &Lits,
) -> (r: Option<(OpenAIStreamChunk, usize)>)
    requires
        i <= v.len(),
        lits.wf(),
    ensures
        ({
            let sr = spec_chunk_members(
                v@,
                i as int,
                os_view(object),
                os_view(model),
                match choices {
                    Some(ref cs) => Some(cs@.map_values(|c: OpenAIStreamChunkChoice| c@)),
                    None => None,
                },
                can_close,
            );
            match r {
                Some(p) => sr == Some((p.0@, p.1 as int)) && i < p.1 <= v.len(),
                None => sr is None,
            }
        }),
    decreases v.len() - i,
{
    let j = skip_json_ws(v, i);
    if j >= v.len() {
        return None;
    }
    if v[j] == 0x7d && can_close {
        return match (object, model, choices) {
            (Some(o), Some(md), Some(cs)) => Some(
                (OpenAIStreamChunk { object: o, model: md, choices: cs }, j + 1),
            ),
            _ => None,
        };
    }
    if v[j] != 0x22 {
        return None;
    }
    match string_content(v, j + 1, Vec::new()) {
        None => None,
        Some(kp) => {
            let k = skip_json_ws(v, kp.1);
            proof {
                assert(adv2(j as int + 1, kp.1 as int) == kp.1 as int);
            }
            if k >= v.len() || v[k] != 0x3a {
                return None;
            }
            let step: Option<
                (Option<String>, Option<String>, Option<Vec<OpenAIStreamChunkChoice>>, usize),
            > = if bytes_is(&kp.0, &lits.object) {
                if object.is_some() {
                    None
                } else {
                    match string_value(v, k + 1) {
                        None => None,
                        Some(sp) => Some((Some(string_or_empty(sp.0)), model, choices, sp.1)),
                    }
                }
            } else if bytes_is(&kp.0, &lits.model) {
                if model.is_some() {
                    None
                } else {
                    match string_value(v, k + 1) {
                        None => None,
                        Some(sp) => Some((object, Some(string_or_empty(sp.0)), choices, sp.1)),
                    }
                }
            } else if bytes_is(&kp.0, &lits.choices) {
                if choices.is_some() {
                    None
                } else {
                    let jv = skip_json_ws(v, k + 1);
                    if jv < v.len() && v[jv] == 0x5b {
                        proof {
                            assert(Seq::<OpenAIStreamChunkChoice>::empty().map_values(
                                |c: OpenAIStreamChunkChoice| c@,
                            ) =~= Seq::<ChoiceM>::empty());
                        }
                        match choices_elems(v, jv + 1, Vec::new(), true, lits) {
                            None => None,
                            Some(ap) => Some((object, model, Some(ap.0), ap.1)),
                        }
                    } else {
                        None
                    }
                }
            } else {
                match skip_value(v, k + 1) {
                    None => None,
                    Some(m0) => Some((object, model, choices, m0)),
                }
            };
            match step {
                None => None,
                Some(t) => {
                    let m = skip_json_ws(v, t.3);
                    proof {
                        assert(adv2(k as int + 1, t.3 as int) == t.3 as int);
                    }
                    if m >= v.len() {
                        None
                    } else if v[m] == 0x2c {
                        chunk_members(v, m + 1, t.0, t.1, t.2, false, lits)
                    } else if v[m] == 0x7d {
                        match (t.0, t.1, t.2) {
                            (Some(o), Some(md), Some(cs)) => Some(
                                (OpenAIStreamChunk { object: o, model: md, choices: cs }, m + 1),
                            ),
                            _ => None,
                        }
                    } else {
                        None
                    }
                },
            }
        },
    }
}

/// The chunk encoded by a whole JSON payload, with nothing but
/// whitespace around the document.
#[verifier::opaque]
pub open spec fn spec_parse_chunk(s: Seq<u8>) -> Option<ChunkM> {
    let j = wsa(s, 0);
    if j < s.len() && s[j] == 0x7b {
        match spec_chunk_members(s, j + 1, None, None, None, true) {
            None => None,
            Some(p) => {
                let e = wsa(s, adv2(j + 1, p.1));
                if e >= s.len() {
                    Some(p.0)
                } else {
                    None
                }
            },
        }
    } else {
        None
    }
}

/// Parse a whole JSON payload as a streamed chunk.
pub fn parse_chunk(v: &Vec<u8>, lits: &Lits) -> (r: Option<OpenAIStreamChunk>)
    requires
        lits.wf(),
    ensures
        ({
            let sr = spec_parse_chunk(v@);
            match r {
                Some(c) => sr == Some(c@),
                None => sr is None,
            }
        }),
{
    proof {
        reveal(spec_parse_chunk);
    }
    let j = skip_json_ws(v, 0);
    if !(j < v.len() && v[j] == 0x7b) {
        return None;
    }
    match chunk_members(v, j + 1, None, None, None, true, lits) {
        None => None,
        Some(p) => {
            let e = skip_json_ws(v, p.1);
            proof {
                assert(adv2(j as int + 1, p.1 as int) == p.1 as int);
            }
            if e >= v.len() {
                Some(p.0)
            } else {
                None
            }
        },
    }
}

/// Build a byte vector from the first `n` of fourteen byte arguments.
pub(crate) fn byte_vec14(
    n: usize,
    b0: u8,
    b1: u8,
    b2: u8,
    b3: u8,
    b4: u8,
    b5: u8,
    b6: u8,
    b7: u8,
    b8: u8,
    b9: u8,
    b10: u8,
    b11: u8,
    b12: u8,
    b13: u8,
) -> (r: Vec<u8>)
    requires
        n <= 14,
    ensures
        r@ == seq![b0, b1, b2, b3, b4, b5, b6, b7, b8, b9, b10, b11, b12, b13].take(n as int),
{
    let mut r: Vec<u8> = Vec::new();
    let all: [u8; 14] = [b0, b1, b2, b3, b4, b5, b6, b7, b8, b9, b10, b11, b12, b13];
    let ghost full = seq![b0, b1, b2, b3, b4, b5, b6, b7, b8, b9, b10, b11, b12, b13];
    proof {
        assert(all@ =~= full);
        assert(r@ =~= full.take(0));
    }
    let mut i: usize = 0;
    while i < n
        invariant
            0 <= i <= n <= 14,
            all@ == full,
            r@ == full.take(i as int),
        decreases n - i,
    {
        r.push(all[i]);
        i = i + 1;
        proof {
            assert(r@ =~= full.take(i as int));
        }
    }
    r
}

} // verus!
