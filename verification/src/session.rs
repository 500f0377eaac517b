//! The session state machine: one logical connection advances through
//! `Init`, `HeaderDetected` and `DataStreaming`, consuming one line at a
//! time and emitting typed events. Boot chatter before the header is
//! accumulated and surfaced once, when the header appears; a reset returns
//! to `Init` but keeps the accumulated block for the next connection.

use vstd::prelude::*;
use vstd::string::StringExecFns;
use crate::parser::DataRow;
use crate::parser::DecodeError;
use crate::parser::decode_result;
use crate::parser::is_header_line;
use crate::parser::is_header_of;
use crate::tokenize::views_of;

verus! {

/// Phase of one logical device connection.
#[derive(Debug, Clone, PartialEq, Eq, Structural)]
pub enum ParserState {
    /// Reading the initialization block (device info, firmware, and so on).
    Init,
    /// Header line seen; no data row confirmed yet.
    HeaderDetected,
    /// At least one data row decoded; the stream is live.
    DataStreaming,
}

/// One event handed to the sink.
#[derive(Debug, Clone, PartialEq)]
pub enum Event {
    /// A pre-header line, accumulated into the init block.
    InitLine(String),
    /// The accumulated init block, joined with newlines; at most once per
    /// transition into `HeaderDetected`, and only if non-empty.
    InitBlockReady(String),
    /// The header line, verbatim; repeated mid-stream announcements are
    /// reported without changing phase.
    HeaderDetected(String),
    /// A decoded data row.
    Row(DataRow),
    /// A line that failed to decode; the stream continues.
    ParseWarning(DecodeError),
}

/// The init block joined with a newline between consecutive lines.
pub open spec fn join_lines(ls: Seq<Seq<char>>) -> Seq<char>
    decreases ls.len(),
{
    if ls.len() == 0 {
        Seq::empty()
    } else if ls.len() == 1 {
        ls[0]
    } else {
        join_lines(ls.drop_last()) + seq!['\n'] + ls.last()
    }
}

/// The init-block accumulator: boot-time text emitted before the header,
/// kept in arrival order. It is never cleared by the session itself, so a
/// reconnecting device's next header still surfaces the old boot text.
pub struct InitBlock {
    pub lines: Vec<String>,
}

impl InitBlock {
    /// An empty accumulator.
    pub fn new() -> (b: InitBlock)
        ensures
            b.lines@.len() == 0,
    {
        InitBlock { lines: Vec::new() }
    }

    /// Append one pre-header line.
    pub fn push(&mut self, line: &str)
        ensures
            views_of(final(self).lines@) == views_of(old(self).lines@).push(line@),
    {
        self.lines.push(String::from_str(line));
        proof {
            assert(views_of(self.lines@) =~= views_of(old(self).lines@).push(line@));
        }
    }

    /// The accumulated text, joined with newlines, if there is any.
    pub fn drain_if_nonempty(&self) -> (r: Option<String>)
        ensures
            self.lines@.len() == 0 <==> r is None,
            r matches Some(t) ==> t@ == join_lines(views_of(self.lines@)),
    {
        if self.lines.len() == 0 {
            None
        } else {
            Some(join_init(&self.lines))
        }
    }
}

fn join_init(lines: &Vec<String>) -> (r: String)
    ensures
        r@ == join_lines(views_of(lines@)),
{
    let n = lines.len();
    let mut r = String::new();
    let mut i: usize = 0;
    while i < n
        invariant
            n == lines@.len(),
            i <= n,
            r@ == join_lines(views_of(lines@.take(i as int))),
        decreases n - i,
    {
        if i > 0 {
            r.append("\n");
        }
        r.append(lines[i].as_str());
        proof {
            reveal_strlit("\n");
            assert("\n"@ =~= seq!['\n']);
            let vt = views_of(lines@.take(i + 1));
            assert(vt.drop_last() =~= views_of(lines@.take(i as int)));
            assert(vt.last() == lines@[i as int]@);
            if i == 0 {
                assert(r@ =~= vt[0]);
            }
        }
        i = i + 1;
    }
    proof {
        assert(lines@.take(n as int) =~= lines@);
    }
    r
}

/// One logical connection: the current phase and the accumulated init block.
pub struct Session {
    pub state: ParserState,
    pub init_block: InitBlock,
}

impl Session {
    /// A fresh session: phase `Init`, empty init block.
    pub fn new() -> (s: Session)
        ensures
            s.state is Init,
            s.init_block.lines@.len() == 0,
    {
        Session { state: ParserState::Init, init_block: InitBlock::new() }
    }

    /// Consume one line, in arrival order, and produce the events it causes.
    ///
    /// In `Init`, a header line flushes the init block (if non-empty) and
    /// advances the phase; any other line is accumulated. In
    /// `HeaderDetected`, the first decodable row advances to
    /// `DataStreaming`; a bad line only warns. In `DataStreaming`, a header
    /// line is reported without a phase change, rows keep streaming, and bad
    /// lines only warn. No input is fatal.
    pub fn handle_line(&mut self, line: &str) -> (evs: Vec<Event>)
        ensures
            old(self).state is Init && is_header_of(line@) ==> {
                &&& final(self).state is HeaderDetected
                &&& final(self).init_block.lines@ == old(self).init_block.lines@
                &&& old(self).init_block.lines@.len() == 0 ==> evs@.len() == 1 && (evs@[0] matches
                Event::HeaderDetected(h) && h@ == line@)
                &&& old(self).init_block.lines@.len() > 0 ==> evs@.len() == 2 && (evs@[0] matches
                Event::InitBlockReady(t) && t@ == join_lines(
                    views_of(old(self).init_block.lines@),
                )) && (evs@[1] matches Event::HeaderDetected(h) && h@ == line@)
            },
            old(self).state is Init && !is_header_of(line@) ==> {
                &&& final(self).state is Init
                &&& views_of(final(self).init_block.lines@) == views_of(old(self).init_block.lines@).push(
                    line@,
                )
                &&& evs@.len() == 1 && (evs@[0] matches Event::InitLine(l) && l@ == line@)
            },
            old(self).state is HeaderDetected ==> {
                &&& final(self).init_block.lines@ == old(self).init_block.lines@
                &&& decode_result(line@) matches Ok(rm) ==> final(self).state is DataStreaming
                    && evs@.len() == 1 && (evs@[0] matches Event::Row(row) && row@ == rm)
                &&& decode_result(line@) matches Err(em) ==> final(self).state is HeaderDetected
                    && evs@.len() == 1 && (evs@[0] matches Event::ParseWarning(e) && e@ == em)
            },
            old(self).state is DataStreaming ==> {
                &&& final(self).state is DataStreaming
                &&& final(self).init_block.lines@ == old(self).init_block.lines@
                &&& is_header_of(line@) ==> evs@.len() == 1 && (evs@[0] matches
                Event::HeaderDetected(h) && h@ == line@)
                &&& !is_header_of(line@) ==> {
                    &&& decode_result(line@) matches Ok(rm) ==> evs@.len() == 1 && (evs@[0] matches
                    Event::Row(row) && row@ == rm)
                    &&& decode_result(line@) matches Err(em) ==> evs@.len() == 1 && (
                    evs@[0] matches Event::ParseWarning(e) && e@ == em)
                }
            },
    {
        let mut evs: Vec<Event> = Vec::new();
        if self.state == ParserState::Init {
            if is_header_line(line) {
                match self.init_block.drain_if_nonempty() {
                    Some(t) => {
                        evs.push(Event::InitBlockReady(t));
                    },
                    None => {},
                }
                evs.push(Event::HeaderDetected(String::from_str(line)));
                self.state = ParserState::HeaderDetected;
            } else {
                self.init_block.push(line);
                evs.push(Event::InitLine(String::from_str(line)));
            }
        } else {
            let streaming = self.state == ParserState::DataStreaming;
            if streaming && is_header_line(line) {
                evs.push(Event::HeaderDetected(String::from_str(line)));
            } else {
                match DataRow::parse(line) {
                    Ok(row) => {
                        self.state = ParserState::DataStreaming;
                        evs.push(Event::Row(row));
                    },
                    Err(e) => {
                        evs.push(Event::ParseWarning(e));
                    },
                }
            }
        }
        evs
    }

    /// Tear down the connection: back to `Init`, keeping the init block so
    /// that a reconnecting device's header still flushes the old boot text.
    pub fn reset(&mut self)
        ensures
            final(self).state is Init,
            final(self).init_block == old(self).init_block,
    {
        self.state = ParserState::Init;
    }
}

} // verus!
