//! The half-duplex session discipline of the protocol client.
//!
//! A session sends one command line and then consumes records until the first
//! terminal one; only then may the next command travel. Sending early, or a
//! command that embeds a line terminator, is command misuse and is rejected
//! eagerly. A peer that closes mid-sequence surfaces as an unexpected end of
//! input, never as a sequence that merely looks terminated.

use vstd::prelude::*;

use crate::error::Error;
use crate::percent::CR;
use crate::percent::LF;
use crate::protocol::Response;
use crate::protocol::ResponseModel;
use crate::protocol::is_terminal;
use crate::protocol::parse_line;
use crate::protocol::parse_line_spec;

verus! {

/// Whether a command may travel as one line: no embedded line terminator.
pub open spec fn valid_command(c: Seq<u8>) -> bool {
    forall|i: int| 0 <= i < c.len() ==> #[trigger] c[i] != LF && c[i] != CR
}

/// The two phases of a session: ready for a command, or waiting for the
/// terminal record of the command already sent.
#[derive(Clone, Copy, Debug, PartialEq, Eq, Structural)]
pub enum SessionPhase {
    Idle,
    Awaiting,
}

/// One command/response session over one connection.
///
/// The session does no I/O itself: the caller writes the framed bytes that
/// `send_line` hands out and feeds every received line to `feed_line`.
pub struct AssuanSession {
    pub phase: SessionPhase,
}

impl AssuanSession {
    /// A fresh session, ready for its first command.
    pub fn new() -> (s: Self)
        ensures
            s.phase is Idle,
    {
        AssuanSession { phase: SessionPhase::Idle }
    }

    /// Frames one command for the wire: the command bytes and the line feed.
    ///
    /// Misuse — a prior response sequence still open, or a command holding a
    /// carriage return or line feed — is rejected and changes nothing.
    pub fn send_line(&mut self, command: &Vec<u8>) -> (r: Result<Vec<u8>, Error>)
        ensures
            old(self).phase is Awaiting ==> r == Err::<Vec<u8>, Error>(Error::CommandMisuse)
                && *final(self) == *old(self),
            old(self).phase is Idle && !valid_command(command@) ==> r == Err::<Vec<u8>, Error>(
                Error::CommandMisuse,
            ) && *final(self) == *old(self),
            old(self).phase is Idle && valid_command(command@) ==> (r matches Ok(w) && w@
                == command@ + seq![LF]) && final(self).phase is Awaiting,
    {
        match self.phase {
            SessionPhase::Awaiting => {
                return Err(Error::CommandMisuse);
            },
            SessionPhase::Idle => {},
        }
        let mut i: usize = 0;
        while i < command.len()
            invariant
                i <= command.len(),
                forall|k: int| 0 <= k < i ==> #[trigger] command@[k] != LF && command@[k] != CR,
            decreases command.len() - i,
        {
            let b = command[i];
            if b == LF || b == CR {
                return Err(Error::CommandMisuse);
            }
            i = i + 1;
        }
        let mut wire = vstd::slice::slice_to_vec(command.as_slice());
        wire.push(LF);
        proof {
            assert(wire@ =~= command@ + seq![LF]);
        }
        self.phase = SessionPhase::Awaiting;
        Ok(wire)
    }

    /// Hands one received line to the session and returns its record.
    ///
    /// A malformed line terminates the sequence as a parse error; a terminal
    /// record returns the session to idle. Feeding a line with no command
    /// outstanding is misuse and changes nothing.
    pub fn feed_line(&mut self, line: &Vec<u8>) -> (r: Result<Response, Error>)
        ensures
            old(self).phase is Idle ==> r == Err::<Response, Error>(Error::CommandMisuse)
                && *final(self) == *old(self),
            old(self).phase is Awaiting ==> match r {
                Ok(resp) => parse_line_spec(line@) == Some(resp@) && (final(self).phase is Idle
                    <==> is_terminal(resp@)),
                Err(e) => e == Error::ProtocolParseError && parse_line_spec(line@) is None
                    && final(self).phase is Idle,
            },
    {
        match self.phase {
            SessionPhase::Idle => {
                return Err(Error::CommandMisuse);
            },
            SessionPhase::Awaiting => {},
        }
        match parse_line(line) {
            Ok(resp) => {
                if resp.terminal() {
                    self.phase = SessionPhase::Idle;
                }
                Ok(resp)
            },
            Err(e) => {
                self.phase = SessionPhase::Idle;
                Err(e)
            },
        }
    }

    /// The peer closed the connection: mid-sequence that is an unexpected end
    /// of input; between commands it is a plain end of session.
    pub fn end_of_input(&mut self) -> (r: Option<Error>)
        ensures
            old(self).phase is Awaiting ==> r == Some(Error::UnexpectedEof)
                && final(self).phase is Idle,
            old(self).phase is Idle ==> r is None && *final(self) == *old(self),
    {
        match self.phase {
            SessionPhase::Awaiting => {
                self.phase = SessionPhase::Idle;
                Some(Error::UnexpectedEof)
            },
            SessionPhase::Idle => None,
        }
    }
}

impl DeepView for Response {
    type V = ResponseModel;

    open spec fn deep_view(&self) -> ResponseModel {
        self.view()
    }
}

/// What a whole sequence of received lines collects to: the records up to and
/// including the first terminal one; a parse error on a malformed line; an
/// unexpected end of input when the lines run out before a terminal record.
pub open spec fn collect_spec(lines: Seq<Seq<u8>>) -> Result<Seq<ResponseModel>, Error>
    decreases lines.len(),
{
    if lines.len() == 0 {
        Err(Error::UnexpectedEof)
    } else {
        match parse_line_spec(lines[0]) {
            None => Err(Error::ProtocolParseError),
            Some(r) => if is_terminal(r) {
                Ok(seq![r])
            } else {
                match collect_spec(lines.drop_first()) {
                    Ok(rest) => Ok(seq![r] + rest),
                    Err(e) => Err(e),
                }
            },
        }
    }
}

/// Reads records from received lines until the first terminal record,
/// inclusive; lines after the terminal record are not touched.
pub fn collect_responses(lines: &Vec<Vec<u8>>) -> (r: Result<Vec<Response>, Error>)
    ensures
        match r {
            Ok(v) => collect_spec(lines.deep_view()) == Ok::<Seq<ResponseModel>, Error>(
                v.deep_view(),
            ),
            Err(e) => collect_spec(lines.deep_view()) == Err::<Seq<ResponseModel>, Error>(e),
        },
{
    let ghost all = lines.deep_view();
    let mut out: Vec<Response> = Vec::new();
    let mut i: usize = 0;
    proof {
        assert(all.skip(0) =~= all);
        if let Ok(rest) = collect_spec(all) {
            assert(out.deep_view() + rest =~= rest);
        }
    }
    while i < lines.len()
        invariant
            i <= lines.len(),
            all == lines.deep_view(),
            match collect_spec(all.skip(i as int)) {
                Ok(rest) => collect_spec(all) == Ok::<Seq<ResponseModel>, Error>(
                    out.deep_view() + rest,
                ),
                Err(e) => collect_spec(all) == Err::<Seq<ResponseModel>, Error>(e),
            },
        decreases lines.len() - i,
    {
        let ghost suffix = all.skip(i as int);
        proof {
            assert(suffix[0] == all[i as int]);
            assert(all[i as int] == lines@[i as int]@);
        }
        let resp = match parse_line(&lines[i]) {
            Ok(x) => x,
            Err(e) => {
                return Err(e);
            },
        };
        let t = resp.terminal();
        let ghost before = out.deep_view();
        out.push(resp);
        proof {
            assert(out.deep_view() =~= before.push(resp@));
            assert(suffix.drop_first() =~= all.skip(i + 1));
        }
        if t {
            proof {
                assert(before + seq![resp@] =~= out.deep_view());
            }
            return Ok(out);
        }
        proof {
            if let Ok(rest) = collect_spec(all.skip(i + 1)) {
                assert(before + (seq![resp@] + rest) =~= out.deep_view() + rest);
            }
        }
        i = i + 1;
    }
    proof {
        assert(all.skip(all.len() as int) =~= Seq::<Seq<u8>>::empty());
    }
    Err(Error::UnexpectedEof)
}

/// The one data chunk a record contributes: a `Data` record's payload,
/// nothing from any other record.
pub open spec fn chunk_of(r: ResponseModel) -> Seq<u8> {
    match r {
        ResponseModel::Data { payload } => payload,
        _ => Seq::empty(),
    }
}

/// The assembled payload of a response sequence: its data chunks,
/// concatenated in the order the peer emitted them.
pub open spec fn data_of(rs: Seq<ResponseModel>) -> Seq<u8>
    decreases rs.len(),
{
    if rs.len() == 0 {
        Seq::empty()
    } else {
        chunk_of(rs[0]) + data_of(rs.drop_first())
    }
}

/// Appending one record to a sequence appends its chunk to the payload.
proof fn lemma_data_push(rs: Seq<ResponseModel>, r: ResponseModel)
    ensures
        data_of(rs.push(r)) == data_of(rs) + chunk_of(r),
    decreases rs.len(),
{
    if rs.len() == 0 {
        assert(rs.push(r).drop_first() =~= Seq::<ResponseModel>::empty());
        assert(rs.push(r)[0] == r);
        assert(data_of(Seq::<ResponseModel>::empty()) =~= Seq::<u8>::empty());
        assert(data_of(rs.push(r)) =~= chunk_of(r));
        assert(data_of(rs) + chunk_of(r) =~= chunk_of(r));
    } else {
        lemma_data_push(rs.drop_first(), r);
        assert(rs.push(r).drop_first() =~= rs.drop_first().push(r));
        assert(data_of(rs.push(r)) =~= chunk_of(rs[0]) + data_of(rs.drop_first().push(r)));
        assert(chunk_of(rs[0]) + (data_of(rs.drop_first()) + chunk_of(r)) =~= (chunk_of(rs[0])
            + data_of(rs.drop_first())) + chunk_of(r));
    }
}

/// Reassembles the data of one response sequence: every `Data` chunk,
/// concatenated in order.
pub fn assemble_data(records: &Vec<Response>) -> (out: Vec<u8>)
    ensures
        out@ == data_of(records.deep_view()),
{
    let ghost all = records.deep_view();
    let mut out: Vec<u8> = Vec::new();
    let mut i: usize = 0;
    proof {
        assert(all.take(0) =~= Seq::<ResponseModel>::empty());
    }
    while i < records.len()
        invariant
            i <= records.len(),
            all == records.deep_view(),
            out@ == data_of(all.take(i as int)),
        decreases records.len() - i,
    {
        match &records[i] {
            Response::Data { payload } => {
                let mut chunk = vstd::slice::slice_to_vec(payload.as_slice());
                out.append(&mut chunk);
            },
            _ => {},
        }
        proof {
            lemma_data_push(all.take(i as int), all[i as int]);
            assert(all.take(i + 1) =~= all.take(i as int).push(all[i as int]));
            assert(all[i as int] == records@[i as int].deep_view());
        }
        i = i + 1;
    }
    proof {
        assert(all.take(all.len() as int) =~= all);
    }
    out
}

/// Terminal-record law: a well-formed response stream — a run of parseable
/// non-terminal records followed by one terminal record — collects to exactly
/// the records in order, with the terminal record as the last element and
/// nothing read past it.
pub proof fn lemma_terminal_record(lines: Seq<Seq<u8>>, t: int)
    requires
        0 <= t < lines.len(),
        forall|j: int|
            0 <= j < t ==> ((#[trigger] parse_line_spec(lines[j])) matches Some(r)
                && !is_terminal(r)),
        parse_line_spec(lines[t]) matches Some(r) && is_terminal(r),
    ensures
        collect_spec(lines) matches Ok(rs) && rs.len() == t + 1 && is_terminal(rs.last()) && (
        forall|j: int| 0 <= j < t ==> !is_terminal(#[trigger] rs[j])) && (forall|j: int|
            0 <= j <= t ==> parse_line_spec(lines[j]) == Some(#[trigger] rs[j])),
    decreases t,
{
    if t == 0 {
    } else {
        assert(parse_line_spec(lines[0]) matches Some(r) && !is_terminal(r));
        assert forall|j: int|
            0 <= j < t - 1 implies ((#[trigger] parse_line_spec(lines.drop_first()[j])) matches Some(
            r,
        ) && !is_terminal(r)) by {
            assert(lines.drop_first()[j] == lines[j + 1]);
            assert(parse_line_spec(lines[j + 1]) matches Some(r) && !is_terminal(r));
        }
        assert(lines.drop_first()[t - 1] == lines[t]);
        lemma_terminal_record(lines.drop_first(), t - 1);
        let rest = collect_spec(lines.drop_first())->Ok_0;
        let r0 = parse_line_spec(lines[0])->Some_0;
        let rs = seq![r0] + rest;
        assert(collect_spec(lines) == Ok::<Seq<ResponseModel>, Error>(rs));
        assert(rs.last() == rest.last());
        assert forall|j: int| 0 <= j < t implies !is_terminal(#[trigger] rs[j]) by {
            if j > 0 {
                assert(rs[j] == rest[j - 1]);
            }
        }
        assert forall|j: int| 0 <= j <= t implies parse_line_spec(lines[j]) == Some(
            #[trigger] rs[j],
        ) by {
            if j > 0 {
                assert(rs[j] == rest[j - 1]);
                assert(lines.drop_first()[j - 1] == lines[j]);
            }
        }
    }
}

} // verus!
