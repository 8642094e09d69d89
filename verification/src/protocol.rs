//! The line grammar of the wire protocol.
//!
//! One received line maps to one `Response` record. The recognized forms, by
//! the first space-separated token of the line (case-sensitive):
//!
//! * `OK` (anything after it is informational) — terminal;
//! * `ERR <code> <message>` with a decimal code — terminal;
//! * `D <payload>` with a percent-escaped payload;
//! * `S <keyword> <rest>`;
//! * `#` followed by free text — a comment;
//! * `INQUIRE <keyword>`.
//!
//! Anything else is a parse error, never a silent success.

use vstd::prelude::*;

use crate::error::Error;
use crate::percent::decode_spec;
use crate::percent::percent_decode;

verus! {

/// The space byte that separates tokens.
pub const SPACE: u8 = 32;

/// The `#` byte that opens a comment line.
pub const HASH: u8 = 35;

/// One parsed record of a response stream.
#[derive(Clone, Debug, PartialEq, Eq)]
pub enum Response {
    Okay,
    Failed { code: u64, message: Vec<u8> },
    Data { payload: Vec<u8> },
    Status { keyword: Vec<u8>, rest: Vec<u8> },
    Comment { text: Vec<u8> },
    Inquire { keyword: Vec<u8> },
}

/// The mathematical model of a record: the same variants over byte sequences.
pub enum ResponseModel {
    Okay,
    Failed { code: u64, message: Seq<u8> },
    Data { payload: Seq<u8> },
    Status { keyword: Seq<u8>, rest: Seq<u8> },
    Comment { text: Seq<u8> },
    Inquire { keyword: Seq<u8> },
}

impl View for Response {
    type V = ResponseModel;

    open spec fn view(&self) -> ResponseModel {
        match self {
            Response::Okay => ResponseModel::Okay,
            Response::Failed { code, message } => ResponseModel::Failed {
                code: *code,
                message: message@,
            },
            Response::Data { payload } => ResponseModel::Data { payload: payload@ },
            Response::Status { keyword, rest } => ResponseModel::Status {
                keyword: keyword@,
                rest: rest@,
            },
            Response::Comment { text } => ResponseModel::Comment { text: text@ },
            Response::Inquire { keyword } => ResponseModel::Inquire { keyword: keyword@ },
        }
    }
}

/// Whether a record closes its response sequence.
pub open spec fn is_terminal(r: ResponseModel) -> bool {
    r is Okay || r is Failed
}

impl Response {
    /// Whether this record closes its response sequence.
    pub fn terminal(&self) -> (b: bool)
        ensures
            b == is_terminal(self@),
    {
        match self {
            Response::Okay => true,
            Response::Failed { .. } => true,
            _ => false,
        }
    }
}

/// The index of the first space byte of a line, or its length if none.
pub open spec fn first_space(s: Seq<u8>) -> int
    decreases s.len(),
{
    if s.len() == 0 {
        0
    } else if s[0] == SPACE {
        0
    } else {
        1 + first_space(s.drop_first())
    }
}

/// What follows the first token: the line after the token's space, or empty
/// when the token runs to the end of the line.
pub open spec fn after_token(s: Seq<u8>) -> Seq<u8> {
    if first_space(s) < s.len() {
        s.skip(first_space(s) + 1)
    } else {
        Seq::empty()
    }
}

/// Whether a byte is a decimal digit.
pub open spec fn is_digit(b: u8) -> bool {
    48 <= b && b <= 57
}

/// Whether every byte of a sequence is a decimal digit.
pub open spec fn all_digits(s: Seq<u8>) -> bool {
    forall|i: int| 0 <= i < s.len() ==> is_digit(#[trigger] s[i])
}

/// The value of a sequence of decimal digit bytes, most significant first.
pub open spec fn digits_val(s: Seq<u8>) -> int
    decreases s.len(),
{
    if s.len() == 0 {
        0
    } else {
        digits_val(s.drop_last()) * 10 + (s.last() - 48)
    }
}

/// The body of an `ERR` line: a non-empty decimal code token that fits a
/// `u64`, then the message (empty when nothing follows the code).
pub open spec fn parse_err(body: Seq<u8>) -> Option<ResponseModel> {
    let k = first_space(body);
    let code_tok = body.take(k);
    if k > 0 && all_digits(code_tok) && digits_val(code_tok) <= u64::MAX {
        Some(
            ResponseModel::Failed {
                code: digits_val(code_tok) as u64,
                message: after_token(body),
            },
        )
    } else {
        None
    }
}

/// The body of an `S` line: a non-empty keyword token, then the rest.
pub open spec fn parse_status(body: Seq<u8>) -> Option<ResponseModel> {
    let k = first_space(body);
    if k > 0 {
        Some(ResponseModel::Status { keyword: body.take(k), rest: after_token(body) })
    } else {
        None
    }
}

/// The body of an `INQUIRE` line: a non-empty keyword token; anything after
/// the keyword is dropped.
pub open spec fn parse_inquire(body: Seq<u8>) -> Option<ResponseModel> {
    let k = first_space(body);
    if k > 0 {
        Some(ResponseModel::Inquire { keyword: body.take(k) })
    } else {
        None
    }
}

/// The record one line parses to, or `None` for a malformed line.
///
/// The byte comparisons follow the first token of the line: `OK` is 79 75,
/// `ERR` is 69 82 82, `D` is 68, `S` is 83, `INQUIRE` is 73 78 81 85 73 82 69,
/// and a comment opens with `#`.
pub open spec fn parse_line_spec(line: Seq<u8>) -> Option<ResponseModel> {
    let e = first_space(line);
    if line.len() > 0 && line[0] == HASH {
        Some(ResponseModel::Comment { text: line.skip(1) })
    } else if e == 2 && line[0] == 79 && line[1] == 75 {
        Some(ResponseModel::Okay)
    } else if e == 3 && line[0] == 69 && line[1] == 82 && line[2] == 82 {
        parse_err(after_token(line))
    } else if e == 1 && line[0] == 68 {
        if e < line.len() {
            match decode_spec(after_token(line)) {
                Some(payload) => Some(ResponseModel::Data { payload }),
                None => None,
            }
        } else {
            None
        }
    } else if e == 1 && line[0] == 83 {
        parse_status(after_token(line))
    } else if e == 7 && line[0] == 73 && line[1] == 78 && line[2] == 81 && line[3] == 85 && line[4]
        == 73 && line[5] == 82 && line[6] == 69 {
        parse_inquire(after_token(line))
    } else {
        None
    }
}

/// A record is terminal only when its line opened with the token `OK` or
/// `ERR`; any other line parses to a non-terminal record or to nothing at
/// all, never to a silent success.
pub proof fn lemma_no_silent_success(line: Seq<u8>)
    ensures
        (parse_line_spec(line) matches Some(r) && is_terminal(r)) ==> line.len() >= 2 && ((line[0]
            == 79 && line[1] == 75) || (line.len() >= 3 && line[0] == 69 && line[1] == 82 && line[2]
            == 82)),
        (parse_line_spec(line) matches Some(r) && r is Okay) ==> line.len() >= 2 && line[0] == 79
            && line[1] == 75,
{
    lemma_first_space_bounds(line);
}

/// The first space of a line lies within the line.
pub proof fn lemma_first_space_bounds(s: Seq<u8>)
    ensures
        0 <= first_space(s) <= s.len(),
    decreases s.len(),
{
    if s.len() == 0 {
    } else if s[0] == SPACE {
    } else {
        lemma_first_space_bounds(s.drop_first());
    }
}

proof fn lemma_first_space_is(s: Seq<u8>, j: int)
    requires
        0 <= j <= s.len(),
        forall|k: int| 0 <= k < j ==> s[k] != SPACE,
        j < s.len() ==> s[j] == SPACE,
    ensures
        first_space(s) == j,
    decreases s.len(),
{
    if j == 0 {
    } else {
        assert(s[0] != SPACE);
        assert forall|k: int| 0 <= k < j - 1 implies s.drop_first()[k] != SPACE by {
            assert(s.drop_first()[k] == s[k + 1]);
        }
        if j - 1 < s.drop_first().len() {
            assert(s.drop_first()[j - 1] == s[j]);
        }
        lemma_first_space_is(s.drop_first(), j - 1);
    }
}

proof fn lemma_digits_val_nonneg(s: Seq<u8>)
    requires
        all_digits(s),
    ensures
        digits_val(s) >= 0,
    decreases s.len(),
{
    if s.len() == 0 {
    } else {
        assert forall|k: int| 0 <= k < s.drop_last().len() implies is_digit(
            #[trigger] s.drop_last()[k],
        ) by {
            assert(s.drop_last()[k] == s[k]);
        }
        lemma_digits_val_nonneg(s.drop_last());
        assert(is_digit(s.last()));
    }
}

proof fn lemma_digits_val_grows(s: Seq<u8>, i: int)
    requires
        0 <= i <= s.len(),
        all_digits(s),
    ensures
        digits_val(s.take(i)) <= digits_val(s),
    decreases s.len() - i,
{
    if i == s.len() {
        assert(s.take(i) =~= s);
    } else {
        lemma_digits_val_grows(s, i + 1);
        assert forall|k: int| 0 <= k < s.take(i).len() implies is_digit(
            #[trigger] s.take(i)[k],
        ) by {
            assert(s.take(i)[k] == s[k]);
        }
        lemma_digits_val_nonneg(s.take(i));
        assert(s.take(i + 1).drop_last() =~= s.take(i));
        assert(s.take(i + 1).last() == s[i]);
        assert(is_digit(s[i]));
    }
}

fn token_end(line: &Vec<u8>, from: usize) -> (e: usize)
    requires
        from <= line.len(),
    ensures
        from <= e <= line.len(),
        e - from == first_space(line@.skip(from as int)),
{
    let ghost suffix = line@.skip(from as int);
    let mut i: usize = from;
    while i < line.len() && line[i] != SPACE
        invariant
            from <= i <= line.len(),
            forall|k: int| from <= k < i ==> line@[k] != SPACE,
        decreases line.len() - i,
    {
        i = i + 1;
    }
    proof {
        assert forall|k: int| 0 <= k < i - from implies suffix[k] != SPACE by {
            assert(suffix[k] == line@[from + k]);
        }
        if i - from < suffix.len() {
            assert(suffix[i - from] == line@[i as int]);
        }
        lemma_first_space_is(suffix, i - from);
    }
    i
}

fn sub_bytes(line: &Vec<u8>, from: usize, to: usize) -> (out: Vec<u8>)
    requires
        from <= to <= line.len(),
    ensures
        out@ == line@.subrange(from as int, to as int),
{
    let s = vstd::slice::slice_subrange(line.as_slice(), from, to);
    vstd::slice::slice_to_vec(s)
}

fn parse_err_body(body: &Vec<u8>) -> (r: Result<Response, Error>)
    ensures
        match r {
            Ok(resp) => parse_err(body@) == Some(resp@),
            Err(e) => e == Error::ProtocolParseError && parse_err(body@) is None,
        },
{
    let k = token_end(body, 0);
    proof {
        assert(body@.skip(0) =~= body@);
    }
    if k == 0 {
        return Err(Error::ProtocolParseError);
    }
    let ghost code_tok = body@.take(k as int);
    let mut val: u64 = 0;
    let mut i: usize = 0;
    proof {
        assert(body@.take(0) =~= Seq::<u8>::empty());
    }
    while i < k
        invariant
            0 < k <= body.len(),
            i <= k,
            k as int == first_space(body@),
            code_tok == body@.take(k as int),
            all_digits(body@.take(i as int)),
            val == digits_val(body@.take(i as int)),
        decreases k - i,
    {
        let b = body[i];
        let ghost prefix = body@.take(i as int);
        let ghost grown = body@.take(i + 1);
        proof {
            assert(grown.drop_last() =~= prefix);
            assert(grown.last() == body@[i as int]);
        }
        if b < 48 || b > 57 {
            proof {
                assert(code_tok[i as int] == body@[i as int]);
                assert(!all_digits(code_tok));
            }
            return Err(Error::ProtocolParseError);
        }
        proof {
            assert forall|x: int| 0 <= x < grown.len() implies is_digit(#[trigger] grown[x]) by {
                if x < i {
                    assert(grown[x] == prefix[x]);
                } else {
                    assert(grown[x] == body@[i as int]);
                }
            }
        }
        let step = match val.checked_mul(10) {
            Some(m) => m.checked_add((b - 48) as u64),
            None => None,
        };
        match step {
            Some(v) => {
                val = v;
            },
            None => {
                proof {
                    assert(digits_val(grown) > u64::MAX);
                    if all_digits(code_tok) {
                        lemma_digits_val_grows(code_tok, i + 1);
                        assert(code_tok.take(i + 1) =~= grown);
                    }
                }
                return Err(Error::ProtocolParseError);
            },
        }
        i = i + 1;
    }
    proof {
        assert(body@.take(i as int) =~= code_tok);
    }
    let message = if k < body.len() {
        let m = sub_bytes(body, k + 1, body.len());
        proof {
            assert(body@.subrange(k + 1, body@.len() as int) =~= body@.skip(k + 1));
        }
        m
    } else {
        Vec::new()
    };
    proof {
        assert(message@ == after_token(body@));
    }
    Ok(Response::Failed { code: val, message })
}

fn parse_status_body(body: &Vec<u8>) -> (r: Result<Response, Error>)
    ensures
        match r {
            Ok(resp) => parse_status(body@) == Some(resp@),
            Err(e) => e == Error::ProtocolParseError && parse_status(body@) is None,
        },
{
    let k = token_end(body, 0);
    proof {
        assert(body@.skip(0) =~= body@);
    }
    if k == 0 {
        return Err(Error::ProtocolParseError);
    }
    let keyword = sub_bytes(body, 0, k);
    proof {
        assert(body@.subrange(0, k as int) =~= body@.take(k as int));
    }
    let tail = if k < body.len() {
        let t = sub_bytes(body, k + 1, body.len());
        proof {
            assert(body@.subrange(k + 1, body@.len() as int) =~= body@.skip(k + 1));
        }
        t
    } else {
        Vec::new()
    };
    proof {
        assert(tail@ == after_token(body@));
    }
    Ok(Response::Status { keyword, rest: tail })
}

fn parse_inquire_body(body: &Vec<u8>) -> (r: Result<Response, Error>)
    ensures
        match r {
            Ok(resp) => parse_inquire(body@) == Some(resp@),
            Err(e) => e == Error::ProtocolParseError && parse_inquire(body@) is None,
        },
{
    let k = token_end(body, 0);
    proof {
        assert(body@.skip(0) =~= body@);
    }
    if k == 0 {
        return Err(Error::ProtocolParseError);
    }
    let keyword = sub_bytes(body, 0, k);
    proof {
        assert(body@.subrange(0, k as int) =~= body@.take(k as int));
    }
    Ok(Response::Inquire { keyword })
}

/// Parses one received line into its record, or reports the malformed line.
pub fn parse_line(line: &Vec<u8>) -> (r: Result<Response, Error>)
    ensures
        match r {
            Ok(resp) => parse_line_spec(line@) == Some(resp@),
            Err(e) => e == Error::ProtocolParseError && parse_line_spec(line@) is None,
        },
{
    if line.len() > 0 && line[0] == HASH {
        let text = sub_bytes(line, 1, line.len());
        proof {
            assert(line@.subrange(1, line@.len() as int) =~= line@.skip(1));
        }
        return Ok(Response::Comment { text });
    }
    let e = token_end(line, 0);
    proof {
        assert(line@.skip(0) =~= line@);
    }
    let after = if e < line.len() {
        let a = sub_bytes(line, e + 1, line.len());
        proof {
            assert(line@.subrange(e + 1, line@.len() as int) =~= line@.skip(e + 1));
        }
        a
    } else {
        Vec::new()
    };
    proof {
        assert(after@ == after_token(line@));
    }
    if e == 2 && line[0] == 79 && line[1] == 75 {
        Ok(Response::Okay)
    } else if e == 3 && line[0] == 69 && line[1] == 82 && line[2] == 82 {
        parse_err_body(&after)
    } else if e == 1 && line[0] == 68 {
        if e < line.len() {
            match percent_decode(&after) {
                Some(payload) => Ok(Response::Data { payload }),
                None => Err(Error::ProtocolParseError),
            }
        } else {
            Err(Error::ProtocolParseError)
        }
    } else if e == 1 && line[0] == 83 {
        parse_status_body(&after)
    } else if e == 7 && line[0] == 73 && line[1] == 78 && line[2] == 81 && line[3] == 85 && line[4]
        == 73 && line[5] == 82 && line[6] == 69 {
        parse_inquire_body(&after)
    } else {
        Err(Error::ProtocolParseError)
    }
}

} // verus!
