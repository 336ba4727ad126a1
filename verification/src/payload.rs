//! The wire payload decoder.
//!
//! A payload is untrusted bytes. It must be UTF-8 text holding one update
//! document: a brace-delimited, comma-separated list of `"key": value`
//! members, with the four keys `experience` (an unsigned decimal number
//! that fits 32 bits), `first_name`, `last_name` and `qualification`
//! (quoted text without `"`, `\` or control characters), each exactly once,
//! in any order, with optional blanks, tabs and line breaks between tokens.
//! [`spec_parse_payload`] is the grammar's definition; [`parse_payload`] is
//! proved to follow it exactly, with no partial result: either every field
//! is extracted or the whole parse fails.

use vstd::prelude::*;
use vstd::utf8::encode_utf8;
use vstd::string::StrSliceExecFns;
use crate::FailureKind;

verus! {

broadcast use vstd::slice::axiom_spec_len;

/// The ephemeral update request decoded from one payload.
///
/// Its fields mirror the payload-driven fields of the record; the record's
/// designated side-effect counter has no counterpart here on purpose.
#[derive(Debug, PartialEq, Eq)]
pub struct CandidateData {
    pub experience: u32,
    pub first_name: String,
    pub last_name: String,
    pub qualification: String,
}

/// The mathematical model of a [`CandidateData`].
#[verifier::ext_equal]
pub struct RequestModel {
    pub experience: u32,
    pub first_name: Seq<char>,
    pub last_name: Seq<char>,
    pub qualification: Seq<char>,
}

impl View for CandidateData {
    type V = RequestModel;

    open spec fn view(&self) -> RequestModel {
        RequestModel {
            experience: self.experience,
            first_name: self.first_name@,
            last_name: self.last_name@,
            qualification: self.qualification@,
        }
    }
}

/// A request is well formed when each text field's UTF-8 encoding fits the
/// record layout's 32-bit length prefix.
pub open spec fn wf_request(u: RequestModel) -> bool {
    &&& encode_utf8(u.first_name).len() <= u32::MAX
    &&& encode_utf8(u.last_name).len() <= u32::MAX
    &&& encode_utf8(u.qualification).len() <= u32::MAX
}

// ----- The grammar, as spec functions over the payload's characters -----

/// Blank characters allowed between tokens.
pub open spec fn is_blank(c: char) -> bool {
    c == ' ' || c == '\t' || c == '\n' || c == '\r'
}

/// Characters allowed inside quoted text: anything except the quote, the
/// backslash and control characters.
pub open spec fn is_text_char(c: char) -> bool {
    c != '"' && c != '\\' && (c as u32) >= 0x20
}

/// Decimal digits.
pub open spec fn is_digit(c: char) -> bool {
    0x30 <= (c as u32) <= 0x39
}

/// The first position at or after `i` holding a non-blank character.
pub open spec fn spec_skip_blanks(cs: Seq<char>, i: int) -> int
    decreases cs.len() - i,
    when 0 <= i <= cs.len()
{
    if i < cs.len() && is_blank(cs[i]) {
        spec_skip_blanks(cs, i + 1)
    } else {
        i
    }
}

/// The first position at or after `i` not holding a text character.
pub open spec fn spec_scan_text(cs: Seq<char>, i: int) -> int
    decreases cs.len() - i,
    when 0 <= i <= cs.len()
{
    if i < cs.len() && is_text_char(cs[i]) {
        spec_scan_text(cs, i + 1)
    } else {
        i
    }
}

/// The first position at or after `i` not holding a digit.
pub open spec fn spec_scan_digits(cs: Seq<char>, i: int) -> int
    decreases cs.len() - i,
    when 0 <= i <= cs.len()
{
    if i < cs.len() && is_digit(cs[i]) {
        spec_scan_digits(cs, i + 1)
    } else {
        i
    }
}

/// The value of the digit run `cs[i..j)`, most significant digit first.
pub open spec fn digits_value(cs: Seq<char>, i: int, j: int) -> int
    decreases j - i,
    when i <= j
{
    if i < j {
        digits_value(cs, i, j - 1) * 10 + ((cs[j - 1] as u32) - 0x30)
    } else {
        0
    }
}

/// A quoted text token at `i`: an opening quote, text characters, a closing
/// quote. Yields the text and the position after the closing quote.
pub open spec fn spec_parse_quoted(cs: Seq<char>, i: int) -> Option<(Seq<char>, int)>
    recommends
        0 <= i <= cs.len(),
{
    if i < cs.len() && cs[i] == '"' {
        let j = spec_scan_text(cs, i + 1);
        if j < cs.len() && cs[j] == '"' {
            Some((cs.subrange(i + 1, j), j + 1))
        } else {
            None
        }
    } else {
        None
    }
}

/// A number token at `i`: a non-empty digit run whose value fits 32 bits.
pub open spec fn spec_parse_number(cs: Seq<char>, i: int) -> Option<(u32, int)>
    recommends
        0 <= i <= cs.len(),
{
    let j = spec_scan_digits(cs, i);
    if j > i && digits_value(cs, i, j) <= u32::MAX {
        Some((digits_value(cs, i, j) as u32, j))
    } else {
        None
    }
}

/// A text value: a quoted token short enough for the record layout's
/// 32-bit length prefix.
pub open spec fn spec_parse_text_value(cs: Seq<char>, i: int) -> Option<(Seq<char>, int)>
    recommends
        0 <= i <= cs.len(),
{
    match spec_parse_quoted(cs, i) {
        None => None,
        Some((t, j)) => if encode_utf8(t).len() <= u32::MAX {
            Some((t, j))
        } else {
            None
        },
    }
}

/// The member keys of the update document.
pub open spec fn key_experience() -> Seq<char> {
    "experience"@
}

pub open spec fn key_first_name() -> Seq<char> {
    "first_name"@
}

pub open spec fn key_last_name() -> Seq<char> {
    "last_name"@
}

pub open spec fn key_qualification() -> Seq<char> {
    "qualification"@
}

/// The fields collected so far while reading members.
#[verifier::ext_equal]
pub struct PartialRequest {
    pub experience: Option<u32>,
    pub first_name: Option<Seq<char>>,
    pub last_name: Option<Seq<char>>,
    pub qualification: Option<Seq<char>>,
}

/// The state before any member has been read.
pub open spec fn empty_partial() -> PartialRequest {
    PartialRequest { experience: None, first_name: None, last_name: None, qualification: None }
}

/// How many fields are still missing.
pub open spec fn unfilled_count(a: PartialRequest) -> nat {
    (if a.experience is None {
        1nat
    } else {
        0nat
    }) + (if a.first_name is None {
        1nat
    } else {
        0nat
    }) + (if a.last_name is None {
        1nat
    } else {
        0nat
    }) + (if a.qualification is None {
        1nat
    } else {
        0nat
    })
}

/// One `"key": value` member at `i` (leading blanks allowed). The key must
/// be one of the four known keys and must not have been seen before; the
/// value's shape is fixed by the key. Yields the updated state and the
/// position after the value.
pub open spec fn spec_parse_member(cs: Seq<char>, i: int, acc: PartialRequest) -> Option<
    (PartialRequest, int),
>
    recommends
        0 <= i <= cs.len(),
{
    match spec_parse_quoted(cs, spec_skip_blanks(cs, i)) {
        None => None,
        Some((key, j)) => {
            let j2 = spec_skip_blanks(cs, j);
            if j2 < cs.len() && cs[j2] == ':' {
                let j3 = spec_skip_blanks(cs, j2 + 1);
                if key == key_experience() {
                    if acc.experience is Some {
                        None
                    } else {
                        match spec_parse_number(cs, j3) {
                            None => None,
                            Some((v, j4)) => Some(
                                (
                                    PartialRequest {
                                        experience: Some(v),
                                        first_name: acc.first_name,
                                        last_name: acc.last_name,
                                        qualification: acc.qualification,
                                    },
                                    j4,
                                ),
                            ),
                        }
                    }
                } else if key == key_first_name() {
                    if acc.first_name is Some {
                        None
                    } else {
                        match spec_parse_text_value(cs, j3) {
                            None => None,
                            Some((t, j4)) => Some(
                                (
                                    PartialRequest {
                                        experience: acc.experience,
                                        first_name: Some(t),
                                        last_name: acc.last_name,
                                        qualification: acc.qualification,
                                    },
                                    j4,
                                ),
                            ),
                        }
                    }
                } else if key == key_last_name() {
                    if acc.last_name is Some {
                        None
                    } else {
                        match spec_parse_text_value(cs, j3) {
                            None => None,
                            Some((t, j4)) => Some(
                                (
                                    PartialRequest {
                                        experience: acc.experience,
                                        first_name: acc.first_name,
                                        last_name: Some(t),
                                        qualification: acc.qualification,
                                    },
                                    j4,
                                ),
                            ),
                        }
                    }
                } else if key == key_qualification() {
                    if acc.qualification is Some {
                        None
                    } else {
                        match spec_parse_text_value(cs, j3) {
                            None => None,
                            Some((t, j4)) => Some(
                                (
                                    PartialRequest {
                                        experience: acc.experience,
                                        first_name: acc.first_name,
                                        last_name: acc.last_name,
                                        qualification: Some(t),
                                    },
                                    j4,
                                ),
                            ),
                        }
                    }
                } else {
                    None
                }
            } else {
                None
            }
        },
    }
}

/// The member list from `i` on: members separated by commas, closed by a
/// brace. Yields the collected state and the position after the brace.
pub open spec fn spec_parse_members(cs: Seq<char>, i: int, acc: PartialRequest) -> Option<
    (PartialRequest, int),
>
    decreases unfilled_count(acc),
{
    match spec_parse_member(cs, i, acc) {
        None => None,
        Some((acc2, j)) => {
            let j2 = spec_skip_blanks(cs, j);
            if j2 < cs.len() && cs[j2] == ',' {
                spec_parse_members(cs, j2 + 1, acc2)
            } else if j2 < cs.len() && cs[j2] == '}' {
                Some((acc2, j2 + 1))
            } else {
                None
            }
        },
    }
}

/// The checks after the closing brace: every field present, nothing but
/// blanks behind.
pub open spec fn finish_payload(cs: Seq<char>, m: Option<(PartialRequest, int)>) -> Option<
    RequestModel,
> {
    match m {
        None => None,
        Some((acc, j)) => {
            if acc.experience is Some && acc.first_name is Some && acc.last_name is Some
                && acc.qualification is Some && spec_skip_blanks(cs, j) == cs.len() {
                Some(
                    RequestModel {
                        experience: acc.experience->0,
                        first_name: acc.first_name->0,
                        last_name: acc.last_name->0,
                        qualification: acc.qualification->0,
                    },
                )
            } else {
                None
            }
        },
    }
}

/// The whole update document: one brace-delimited member list and nothing
/// else. This is the payload format's definition.
pub open spec fn spec_parse_payload(cs: Seq<char>) -> Option<RequestModel> {
    let i = spec_skip_blanks(cs, 0);
    if i < cs.len() && cs[i] == '{' {
        finish_payload(cs, spec_parse_members(cs, i + 1, empty_partial()))
    } else {
        None
    }
}

/// UTF-8 encoding distributes over concatenation of character sequences.
proof fn lemma_encode_utf8_concat(a: Seq<char>, b: Seq<char>)
    ensures
        encode_utf8(a + b) == encode_utf8(a) + encode_utf8(b),
    decreases a.len(),
{
    if a.len() == 0 {
        assert(a + b =~= b);
        assert(encode_utf8(a) + encode_utf8(b) =~= encode_utf8(b));
    } else {
        assert((a + b).drop_first() =~= a.drop_first() + b);
        lemma_encode_utf8_concat(a.drop_first(), b);
        assert((a + b)[0] == a[0]);
        assert(encode_utf8(a + b) =~= encode_utf8(a) + encode_utf8(b));
    }
}

/// A subrange's UTF-8 encoding is no longer than the whole sequence's.
proof fn lemma_encode_utf8_subrange(cs: Seq<char>, x: int, y: int)
    requires
        0 <= x <= y <= cs.len(),
    ensures
        encode_utf8(cs.subrange(x, y)).len() <= encode_utf8(cs).len(),
{
    assert(cs =~= cs.subrange(0, x) + cs.subrange(x, y) + cs.subrange(y, cs.len() as int));
    lemma_encode_utf8_concat(
        cs.subrange(0, x) + cs.subrange(x, y),
        cs.subrange(y, cs.len() as int),
    );
    lemma_encode_utf8_concat(cs.subrange(0, x), cs.subrange(x, y));
}

/// Text fields collected so far all fit the record layout's length prefix.
pub open spec fn partial_wf(a: PartialRequest) -> bool {
    &&& (a.first_name matches Some(t) ==> encode_utf8(t).len() <= u32::MAX)
    &&& (a.last_name matches Some(t) ==> encode_utf8(t).len() <= u32::MAX)
    &&& (a.qualification matches Some(t) ==> encode_utf8(t).len() <= u32::MAX)
}

proof fn lemma_members_wf(cs: Seq<char>, i: int, acc: PartialRequest)
    requires
        partial_wf(acc),
    ensures
        spec_parse_members(cs, i, acc) matches Some(p) ==> partial_wf(p.0),
    decreases unfilled_count(acc),
{
    match spec_parse_member(cs, i, acc) {
        None => {},
        Some((acc2, j)) => {
            assert(partial_wf(acc2));
            let j2 = spec_skip_blanks(cs, j);
            if j2 < cs.len() && cs[j2] == ',' {
                lemma_members_wf(cs, j2 + 1, acc2);
            }
        },
    }
}

/// Every request the grammar accepts is well formed: its text fields fit
/// the record layout's 32-bit length prefix.
pub proof fn lemma_parse_payload_wf(cs: Seq<char>)
    ensures
        spec_parse_payload(cs) matches Some(u) ==> wf_request(u),
{
    let i = spec_skip_blanks(cs, 0);
    if i < cs.len() && cs[i] == '{' {
        lemma_members_wf(cs, i + 1, empty_partial());
    }
}

proof fn lemma_skip_blanks_props(cs: Seq<char>, i: int)
    requires
        0 <= i <= cs.len(),
    ensures
        i <= spec_skip_blanks(cs, i) <= cs.len(),
    decreases cs.len() - i,
{
    if i < cs.len() && is_blank(cs[i]) {
        lemma_skip_blanks_props(cs, i + 1);
    }
}

proof fn lemma_scan_text_props(cs: Seq<char>, i: int)
    requires
        0 <= i <= cs.len(),
    ensures
        i <= spec_scan_text(cs, i) <= cs.len(),
    decreases cs.len() - i,
{
    if i < cs.len() && is_text_char(cs[i]) {
        lemma_scan_text_props(cs, i + 1);
    }
}

proof fn lemma_scan_digits_props(cs: Seq<char>, i: int)
    requires
        0 <= i <= cs.len(),
    ensures
        i <= spec_scan_digits(cs, i) <= cs.len(),
        forall|m: int| i <= m < spec_scan_digits(cs, i) ==> is_digit(cs[m]),
    decreases cs.len() - i,
{
    if i < cs.len() && is_digit(cs[i]) {
        lemma_scan_digits_props(cs, i + 1);
    }
}

proof fn lemma_digits_value_nonneg(cs: Seq<char>, i: int, j: int)
    requires
        0 <= i <= j <= cs.len(),
        forall|m: int| i <= m < j ==> is_digit(cs[m]),
    ensures
        digits_value(cs, i, j) >= 0,
    decreases j - i,
{
    if i < j {
        lemma_digits_value_nonneg(cs, i, j - 1);
    }
}

/// A digit run's value only grows as the run extends to the right.
proof fn lemma_digits_value_monotone(cs: Seq<char>, i: int, k: int, j: int)
    requires
        0 <= i <= k <= j <= cs.len(),
        forall|m: int| i <= m < j ==> is_digit(cs[m]),
    ensures
        digits_value(cs, i, k) <= digits_value(cs, i, j),
    decreases j - k,
{
    if k < j {
        lemma_digits_value_monotone(cs, i, k, j - 1);
        lemma_digits_value_nonneg(cs, i, j - 1);
    }
}

// ----- The executable parser, proved to follow the grammar exactly -----

fn is_blank_char(c: char) -> (r: bool)
    ensures
        r == is_blank(c),
{
    c == ' ' || c == '\t' || c == '\n' || c == '\r'
}

fn is_text_char_exec(c: char) -> (r: bool)
    ensures
        r == is_text_char(c),
{
    c != '"' && c != '\\' && (c as u32) >= 0x20
}

fn is_digit_char(c: char) -> (r: bool)
    ensures
        r == is_digit(c),
{
    let u = c as u32;
    0x30 <= u && u <= 0x39
}

fn skip_blanks(s: &str, i: usize) -> (r: usize)
    requires
        i <= s@.len(),
    ensures
        r as int == spec_skip_blanks(s@, i as int),
        i <= r <= s@.len(),
{
    let len = s.unicode_len();
    let mut j: usize = i;
    while j < len && is_blank_char(s.get_char(j))
        invariant
            i <= j <= len,
            len == s@.len(),
            spec_skip_blanks(s@, i as int) == spec_skip_blanks(s@, j as int),
        decreases len - j,
    {
        j += 1;
    }
    j
}

fn scan_text(s: &str, i: usize) -> (r: usize)
    requires
        i <= s@.len(),
    ensures
        r as int == spec_scan_text(s@, i as int),
        i <= r <= s@.len(),
{
    let len = s.unicode_len();
    let mut j: usize = i;
    while j < len && is_text_char_exec(s.get_char(j))
        invariant
            i <= j <= len,
            len == s@.len(),
            spec_scan_text(s@, i as int) == spec_scan_text(s@, j as int),
        decreases len - j,
    {
        j += 1;
    }
    j
}

fn scan_digits(s: &str, i: usize) -> (r: usize)
    requires
        i <= s@.len(),
    ensures
        r as int == spec_scan_digits(s@, i as int),
        i <= r <= s@.len(),
{
    let len = s.unicode_len();
    let mut j: usize = i;
    while j < len && is_digit_char(s.get_char(j))
        invariant
            i <= j <= len,
            len == s@.len(),
            spec_scan_digits(s@, i as int) == spec_scan_digits(s@, j as int),
        decreases len - j,
    {
        j += 1;
    }
    j
}

fn parse_quoted(s: &str, i: usize) -> (r: Option<(String, usize)>)
    requires
        i <= s@.len(),
    ensures
        match r {
            Some(p) => spec_parse_quoted(s@, i as int) == Some((p.0@, p.1 as int)) && p.1
                <= s@.len(),
            None => spec_parse_quoted(s@, i as int) is None,
        },
{
    let len = s.unicode_len();
    if i < len && s.get_char(i) == '"' {
        let j = scan_text(s, i + 1);
        if j < len && s.get_char(j) == '"' {
            let sub = s.substring_char(i + 1, j);
            Some((sub.to_owned(), j + 1))
        } else {
            None
        }
    } else {
        None
    }
}

fn parse_number(s: &str, i: usize) -> (r: Option<(u32, usize)>)
    requires
        i <= s@.len(),
    ensures
        match r {
            Some(p) => spec_parse_number(s@, i as int) == Some((p.0, p.1 as int)) && p.1
                <= s@.len(),
            None => spec_parse_number(s@, i as int) is None,
        },
{
    proof {
        lemma_scan_digits_props(s@, i as int);
    }
    let j = scan_digits(s, i);
    if j == i {
        return None;
    }
    let mut acc: u64 = 0;
    let mut k: usize = i;
    while k < j
        invariant
            i <= k <= j,
            j <= s@.len(),
            j as int == spec_scan_digits(s@, i as int),
            forall|m: int| i <= m < j ==> is_digit(s@[m]),
            acc as int == digits_value(s@, i as int, k as int),
            acc <= u32::MAX as u64,
        decreases j - k,
    {
        let c = s.get_char(k);
        let d = (c as u32) - 0x30;
        acc = acc * 10 + (d as u64);
        k += 1;
        if acc > u32::MAX as u64 {
            proof {
                lemma_digits_value_monotone(s@, i as int, k as int, j as int);
            }
            return None;
        }
    }
    Some((acc as u32, j))
}

fn parse_text_value(s: &str, i: usize) -> (r: Option<(String, usize)>)
    requires
        i <= s@.len(),
        encode_utf8(s@).len() <= usize::MAX,
    ensures
        match r {
            Some(p) => spec_parse_text_value(s@, i as int) == Some((p.0@, p.1 as int)) && p.1
                <= s@.len() && encode_utf8(p.0@).len() <= u32::MAX,
            None => spec_parse_text_value(s@, i as int) is None,
        },
{
    match parse_quoted(s, i) {
        None => None,
        Some((t, j)) => {
            proof {
                lemma_scan_text_props(s@, i as int + 1);
                lemma_encode_utf8_subrange(s@, i as int + 1, spec_scan_text(s@, i as int + 1));
            }
            if t.as_str().len() <= (u32::MAX as usize) {
                Some((t, j))
            } else {
                None
            }
        },
    }
}

/// The exec-side image of the four member slots.
pub open spec fn cur_partial(
    e: Option<u32>,
    f: Option<String>,
    l: Option<String>,
    q: Option<String>,
) -> PartialRequest {
    PartialRequest {
        experience: e,
        first_name: match f {
            Some(t) => Some(t@),
            None => None,
        },
        last_name: match l {
            Some(t) => Some(t@),
            None => None,
        },
        qualification: match q {
            Some(t) => Some(t@),
            None => None,
        },
    }
}

/// Parses one whole update document out of `s`.
fn parse_document(s: &str) -> (r: Result<CandidateData, FailureKind>)
    requires
        encode_utf8(s@).len() <= usize::MAX,
    ensures
        match spec_parse_payload(s@) {
            Some(u) => r matches Ok(d) && d@ == u && wf_request(d@),
            None => r == Err::<CandidateData, FailureKind>(FailureKind::MalformedPayload),
        },
{
    let len = s.unicode_len();
    let i0 = skip_blanks(s, 0);
    if i0 >= len {
        return Err(FailureKind::MalformedPayload);
    }
    if s.get_char(i0) != '{' {
        return Err(FailureKind::MalformedPayload);
    }
    let mut i: usize = i0 + 1;
    let mut experience: Option<u32> = None;
    let mut first_name: Option<String> = None;
    let mut last_name: Option<String> = None;
    let mut qualification: Option<String> = None;
    let k_exp = "experience".to_owned();
    let k_first = "first_name".to_owned();
    let k_last = "last_name".to_owned();
    let k_qual = "qualification".to_owned();
    loop
        invariant
            i <= s@.len(),
            len == s@.len(),
            encode_utf8(s@).len() <= usize::MAX,
            k_exp@ == key_experience(),
            k_first@ == key_first_name(),
            k_last@ == key_last_name(),
            k_qual@ == key_qualification(),
            spec_parse_payload(s@) == finish_payload(
                s@,
                spec_parse_members(
                    s@,
                    i as int,
                    cur_partial(experience, first_name, last_name, qualification),
                ),
            ),
            first_name matches Some(t) ==> encode_utf8(t@).len() <= u32::MAX,
            last_name matches Some(t) ==> encode_utf8(t@).len() <= u32::MAX,
            qualification matches Some(t) ==> encode_utf8(t@).len() <= u32::MAX,
        decreases unfilled_count(cur_partial(experience, first_name, last_name, qualification)),
    {
        let j0 = skip_blanks(s, i);
        let (key, jk) = match parse_quoted(s, j0) {
            None => {
                return Err(FailureKind::MalformedPayload);
            },
            Some(p) => p,
        };
        let j2 = skip_blanks(s, jk);
        if j2 >= len {
            return Err(FailureKind::MalformedPayload);
        }
        if s.get_char(j2) != ':' {
            return Err(FailureKind::MalformedPayload);
        }
        let j3 = skip_blanks(s, j2 + 1);
        let inext: usize = if key == k_exp {
            if experience.is_some() {
                return Err(FailureKind::MalformedPayload);
            }
            match parse_number(s, j3) {
                None => {
                    return Err(FailureKind::MalformedPayload);
                },
                Some((v, j4)) => {
                    experience = Some(v);
                    j4
                },
            }
        } else if key == k_first {
            if first_name.is_some() {
                return Err(FailureKind::MalformedPayload);
            }
            match parse_text_value(s, j3) {
                None => {
                    return Err(FailureKind::MalformedPayload);
                },
                Some((t, j4)) => {
                    first_name = Some(t);
                    j4
                },
            }
        } else if key == k_last {
            if last_name.is_some() {
                return Err(FailureKind::MalformedPayload);
            }
            match parse_text_value(s, j3) {
                None => {
                    return Err(FailureKind::MalformedPayload);
                },
                Some((t, j4)) => {
                    last_name = Some(t);
                    j4
                },
            }
        } else if key == k_qual {
            if qualification.is_some() {
                return Err(FailureKind::MalformedPayload);
            }
            match parse_text_value(s, j3) {
                None => {
                    return Err(FailureKind::MalformedPayload);
                },
                Some((t, j4)) => {
                    qualification = Some(t);
                    j4
                },
            }
        } else {
            return Err(FailureKind::MalformedPayload);
        };
        let j5 = skip_blanks(s, inext);
        if j5 >= len {
            return Err(FailureKind::MalformedPayload);
        }
        let sep = s.get_char(j5);
        if sep == ',' {
            i = j5 + 1;
        } else if sep == '}' {
            let end = skip_blanks(s, j5 + 1);
            if end == len && experience.is_some() && first_name.is_some() && last_name.is_some()
                && qualification.is_some() {
                let d = CandidateData {
                    experience: experience.unwrap(),
                    first_name: first_name.unwrap(),
                    last_name: last_name.unwrap(),
                    qualification: qualification.unwrap(),
                };
                return Ok(d);
            } else {
                return Err(FailureKind::MalformedPayload);
            }
        } else {
            return Err(FailureKind::MalformedPayload);
        }
    }
}

/// Decodes the payload bytes as UTF-8 text and parses the update document.
///
/// Exactly one of three things happens: the bytes are not UTF-8 and the
/// result is `InvalidEncoding`; the text is not a well-formed document and
/// the result is `MalformedPayload`; or every field is extracted and the
/// result is the full request. There is no partial result.
pub fn parse_payload(payload: &[u8]) -> (r: Result<CandidateData, FailureKind>)
    ensures
        !vstd::utf8::valid_utf8(payload@) ==> r == Err::<CandidateData, FailureKind>(
            FailureKind::InvalidEncoding,
        ),
        vstd::utf8::valid_utf8(payload@) ==> match spec_parse_payload(
            vstd::utf8::decode_utf8(payload@),
        ) {
            Some(u) => r matches Ok(d) && d@ == u,
            None => r == Err::<CandidateData, FailureKind>(FailureKind::MalformedPayload),
        },
        r matches Ok(d) ==> wf_request(d@),
{
    let text = match crate::codec::utf8_to_str(payload) {
        None => {
            return Err(FailureKind::InvalidEncoding);
        },
        Some(t) => t,
    };
    let byte_count = payload.len();
    proof {
        vstd::utf8::encode_utf8_decode_utf8(text@);
        assert(byte_count == payload@.len());
    }
    parse_document(text)
}

} // verus!
