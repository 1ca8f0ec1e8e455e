//! The trace of a test run: one row per operation, as the executor writes
//! it in CSV form (`Index,Command,ReturnCode,Errno,Extra`).

use vstd::prelude::*;

use crate::text::{chars_to_string, parse_i32, parse_signed, parse_u32, parse_unsigned, split_by, split_chars, str_eq, to_chars, trim, trimmed, ParseIntError};

verus! {

/// The name of the trace file that the executor writes.
pub const TRACE_FILENAME: &'static str = "trace.csv";

/// The results of executing the operations of a test workload.
#[derive(Debug, PartialEq)]
pub struct Trace {
    pub rows: Vec<TraceRow>,
}

/// The result of one operation.
#[derive(Debug, PartialEq)]
pub struct TraceRow {
    pub index: u32,
    pub command: String,
    pub return_code: i32,
    pub errno: Errno,
    pub extra: String,
}

/// An error number with its name.
#[derive(Debug, PartialEq)]
pub struct Errno {
    pub name: String,
    pub code: i32,
}

/// Why a trace cannot be read.
#[derive(Debug, PartialEq)]
pub enum TraceError {
    Empty,
    InvalidColumnNumber,
    IntParse(ParseIntError),
    InvalidErrno(String),
}

/// How two traces differ.
#[derive(Debug, PartialEq)]
pub enum TraceDiff {
    TraceRowIsDifferent { fst: TraceRow, snd: TraceRow },
    DifferentLength,
}

/// The model of a row: strings as character sequences.
pub struct RowModel {
    pub index: u32,
    pub command: Seq<char>,
    pub return_code: i32,
    pub errno_name: Seq<char>,
    pub errno_code: i32,
    pub extra: Seq<char>,
}

/// The model of a trace error.
pub enum TraceErrorView {
    Empty,
    InvalidColumnNumber,
    IntParse(ParseIntError),
    InvalidErrno(Seq<char>),
}

impl View for TraceRow {
    type V = RowModel;

    open spec fn view(&self) -> RowModel {
        RowModel {
            index: self.index,
            command: self.command@,
            return_code: self.return_code,
            errno_name: self.errno.name@,
            errno_code: self.errno.code,
            extra: self.extra@,
        }
    }
}

impl View for Trace {
    type V = Seq<RowModel>;

    open spec fn view(&self) -> Seq<RowModel> {
        self.rows@.map_values(|r: TraceRow| r@)
    }
}

impl View for TraceError {
    type V = TraceErrorView;

    open spec fn view(&self) -> TraceErrorView {
        match self {
            TraceError::Empty => TraceErrorView::Empty,
            TraceError::InvalidColumnNumber => TraceErrorView::InvalidColumnNumber,
            TraceError::IntParse(e) => TraceErrorView::IntParse(*e),
            TraceError::InvalidErrno(s) => TraceErrorView::InvalidErrno(s@),
        }
    }
}

/// The model of a parse result.
pub open spec fn parsed_view(r: Result<Trace, TraceError>) -> Result<Seq<RowModel>, TraceErrorView> {
    match r {
        Ok(t) => Ok(t@),
        Err(e) => Err(e@),
    }
}

/// Reads one row: five comma-separated columns, each trimmed; the errno
/// column is `Name(code)`.
pub open spec fn parse_row(line: Seq<char>) -> Result<RowModel, TraceErrorView> {
    let cols = split_by(line, seq![',']);
    if cols.len() != 5 {
        Err(TraceErrorView::InvalidColumnNumber)
    } else {
        match parse_unsigned(trim(cols[0]), 10, u32::MAX as nat) {
            Err(k) => Err(TraceErrorView::IntParse(ParseIntError { kind: k })),
            Ok(index) => match parse_signed(trim(cols[2]), i32::MAX as nat, 2147483648) {
                Err(k) => Err(TraceErrorView::IntParse(ParseIntError { kind: k })),
                Ok(return_code) => {
                    let errno = trim(cols[3]);
                    let parts = split_by(errno, seq!['(', ')']);
                    if parts.len() < 2 {
                        Err(TraceErrorView::InvalidErrno(errno))
                    } else {
                        match parse_signed(parts[1], i32::MAX as nat, 2147483648) {
                            Err(k) => Err(TraceErrorView::IntParse(ParseIntError { kind: k })),
                            Ok(code) => Ok(
                                RowModel {
                                    index: index as u32,
                                    command: trim(cols[1]),
                                    return_code: return_code as i32,
                                    errno_name: parts[0],
                                    errno_code: code as i32,
                                    extra: trim(cols[4]),
                                },
                            ),
                        }
                    }
                },
            },
        }
    }
}

/// Reads rows up to the first blank line or the end; the first bad row is the error.
pub open spec fn parse_lines(lines: Seq<Seq<char>>) -> Result<Seq<RowModel>, TraceErrorView>
    decreases lines.len(),
{
    if lines.len() == 0 || trim(lines[0]).len() == 0 {
        Ok(Seq::empty())
    } else {
        match parse_row(lines[0]) {
            Err(e) => Err(e),
            Ok(row) => match parse_lines(lines.drop_first()) {
                Err(e) => Err(e),
                Ok(rows) => Ok(seq![row] + rows),
            },
        }
    }
}

/// What reading a trace gives: the first line is the header; a trace
/// without a line after it is empty.
pub open spec fn parse_trace(text: Seq<char>) -> Result<Seq<RowModel>, TraceErrorView> {
    let lines = split_by(text, seq!['\n']);
    if lines.len() <= 1 {
        Err(TraceErrorView::Empty)
    } else {
        parse_lines(lines.drop_first())
    }
}

/// `rows` followed by what `r` holds, or the error of `r`.
pub open spec fn after_rows(rows: Seq<RowModel>, r: Result<Seq<RowModel>, TraceErrorView>) -> Result<Seq<RowModel>, TraceErrorView> {
    match r {
        Ok(more) => Ok(rows + more),
        Err(e) => Err(e),
    }
}

/// Whether two rows agree on everything but their index.
pub open spec fn rows_agree(a: RowModel, b: RowModel) -> bool {
    &&& a.command == b.command
    &&& a.return_code == b.return_code
    &&& a.errno_name == b.errno_name
    &&& a.errno_code == b.errno_code
    &&& a.extra == b.extra
}

fn parse_row_chars(line: &[char]) -> (r: Result<TraceRow, TraceError>)
    ensures
        match r {
            Ok(row) => parse_row(line@) == Ok::<RowModel, TraceErrorView>(row@),
            Err(e) => parse_row(line@) == Err::<RowModel, TraceErrorView>(e@),
        },
{
    let comma: Vec<char> = vec![','];
    assert(comma@ =~= seq![',']);
    let cols = split_chars(line, comma.as_slice());
    if cols.len() != 5 {
        return Err(TraceError::InvalidColumnNumber);
    }
    let index_text = trimmed(cols[0].as_slice());
    let index = match parse_u32(index_text.as_slice()) {
        Ok(v) => v,
        Err(e) => {
            return Err(TraceError::IntParse(e));
        },
    };
    let command = chars_to_string(trimmed(cols[1].as_slice()).as_slice());
    let rc_text = trimmed(cols[2].as_slice());
    let return_code = match parse_i32(rc_text.as_slice()) {
        Ok(v) => v,
        Err(e) => {
            return Err(TraceError::IntParse(e));
        },
    };
    let errno_text = trimmed(cols[3].as_slice());
    let extra = chars_to_string(trimmed(cols[4].as_slice()).as_slice());
    let brackets: Vec<char> = vec!['(', ')'];
    assert(brackets@ =~= seq!['(', ')']);
    let parts = split_chars(errno_text.as_slice(), brackets.as_slice());
    proof {
        crate::text::lemma_split_by_nonempty(errno_text@, brackets@);
    }
    let name = chars_to_string(parts[0].as_slice());
    if parts.len() < 2 {
        return Err(TraceError::InvalidErrno(chars_to_string(errno_text.as_slice())));
    }
    let code = match parse_i32(parts[1].as_slice()) {
        Ok(v) => v,
        Err(e) => {
            return Err(TraceError::IntParse(e));
        },
    };
    Ok(TraceRow { index, command, return_code, errno: Errno { name, code }, extra })
}

fn is_blank(line: &[char]) -> (r: bool)
    ensures
        r == (trim(line@).len() == 0),
{
    let (lo, hi) = crate::text::trim_bounds(line);
    lo == hi
}

fn row_eq(a: &TraceRow, b: &TraceRow) -> (r: bool)
    ensures
        r == (a@ == b@),
{
    a.index == b.index && rows_agree_exec(a, b)
}

fn rows_agree_exec(a: &TraceRow, b: &TraceRow) -> (r: bool)
    ensures
        r == rows_agree(a@, b@),
{
    str_eq(a.command.as_str(), b.command.as_str()) && a.return_code == b.return_code && str_eq(
        a.errno.name.as_str(),
        b.errno.name.as_str(),
    ) && a.errno.code == b.errno.code && str_eq(a.extra.as_str(), b.extra.as_str())
}

impl TraceRow {
    /// Whether two rows agree on everything but their index.
    pub fn ignore_index_equal(&self, other: &TraceRow) -> (r: bool)
        ensures
            r == rows_agree(self@, other@),
            r == (self@.command == other@.command && self@.return_code == other@.return_code
                && self@.errno_name == other@.errno_name && self@.errno_code == other@.errno_code
                && self@.extra == other@.extra),
    {
        rows_agree_exec(self, other)
    }
}

impl Clone for TraceRow {
    fn clone(&self) -> (r: Self)
        ensures
            r@ == self@,
    {
        TraceRow {
            index: self.index,
            command: self.command.clone(),
            return_code: self.return_code,
            errno: Errno { name: self.errno.name.clone(), code: self.errno.code },
            extra: self.extra.clone(),
        }
    }
}

impl Trace {
    /// Reads a trace in CSV form. The first line is a header; rows are read
    /// up to the first blank line.
    pub fn try_parse(trace: String) -> (r: Result<Trace, TraceError>)
        ensures
            parsed_view(r) == parse_trace(trace@),
    {
        let text = to_chars(trace.as_str());
        let newline: Vec<char> = vec!['\n'];
        assert(newline@ =~= seq!['\n']);
        let lines = split_chars(text.as_slice(), newline.as_slice());
        let ghost all = split_by(trace@, seq!['\n']);
        if lines.len() <= 1 {
            return Err(TraceError::Empty);
        }
        let mut rows: Vec<TraceRow> = Vec::new();
        let ghost body = all.drop_first();
        let mut i: usize = 1;
        assert(body.skip(0) =~= body);
        proof {
            match parse_lines(body) {
                Ok(more) => {
                    assert(Seq::<RowModel>::empty() + more =~= more);
                },
                Err(_) => {},
            }
        }
        assert(rows@.map_values(|x: TraceRow| x@) =~= Seq::<RowModel>::empty());
        while i < lines.len()
            invariant
                1 <= i <= lines@.len(),
                lines@.len() == all.len(),
                all.len() > 1,
                all == split_by(trace@, seq!['\n']),
                forall|k: int| 0 <= k < lines@.len() ==> #[trigger] lines@[k]@ == all[k],
                body == all.drop_first(),
                parse_lines(body) == after_rows(rows@.map_values(|x: TraceRow| x@), parse_lines(body.skip(i - 1))),
            decreases lines@.len() - i,
        {
            let ghost rest = body.skip(i - 1);
            assert(rest[0] == lines@[i as int]@);
            assert(rest.drop_first() =~= body.skip(i as int));
            assert(rest.len() > 0);
            if is_blank(lines[i].as_slice()) {
                assert(parse_lines(rest) == Ok::<Seq<RowModel>, TraceErrorView>(Seq::empty()));
                assert(rows@.map_values(|x: TraceRow| x@) + Seq::<RowModel>::empty() =~= rows@.map_values(|x: TraceRow| x@));
                return Ok(Trace { rows });
            }
            match parse_row_chars(lines[i].as_slice()) {
                Err(e) => {
                    assert(parse_lines(rest) == Err::<Seq<RowModel>, TraceErrorView>(e@));
                    return Err(e);
                },
                Ok(row) => {
                    let ghost before = rows@.map_values(|x: TraceRow| x@);
                    let ghost rv = row@;
                    rows.push(row);
                    assert(rows@.map_values(|x: TraceRow| x@) =~= before.push(rv));
                    proof {
                        match parse_lines(body.skip(i as int)) {
                            Ok(more) => {
                                assert(before.push(rv) + more =~= before + (seq![rv] + more));
                            },
                            Err(_) => {},
                        }
                    }
                },
            }
            i = i + 1;
        }
        assert(body.skip(i - 1) =~= Seq::<Seq<char>>::empty());
        assert(rows@.map_values(|x: TraceRow| x@) + Seq::<RowModel>::empty() =~= rows@.map_values(|x: TraceRow| x@));
        Ok(Trace { rows })
    }

    /// Whether the two traces are equal.
    pub fn same_as(&self, other: &Trace) -> (r: bool)
        ensures
            r == (self@ == other@),
    {
        if self.rows.len() != other.rows.len() {
            assert(self@.len() != other@.len());
            return false;
        }
        let mut i: usize = 0;
        while i < self.rows.len()
            invariant
                i <= self.rows@.len(),
                self.rows@.len() == other.rows@.len(),
                forall|k: int| 0 <= k < i ==> self.rows@[k]@ == other.rows@[k]@,
            decreases self.rows@.len() - i,
        {
            if !row_eq(&self.rows[i], &other.rows[i]) {
                assert(self@[i as int] != other@[i as int]);
                return false;
            }
            i = i + 1;
        }
        assert(self@ =~= other@);
        true
    }

    /// Whether some operation failed (has a non-zero error number).
    pub fn has_errors(&self) -> (r: bool)
        ensures
            r == exists|k: int| 0 <= k < self@.len() && (#[trigger] self@[k]).errno_code != 0,
    {
        let mut i: usize = 0;
        while i < self.rows.len()
            invariant
                i <= self.rows@.len(),
                forall|k: int| 0 <= k < i ==> self@[k].errno_code == 0,
            decreases self.rows@.len() - i,
        {
            if self.rows[i].errno.code != 0 {
                assert(self@[i as int].errno_code != 0);
                return true;
            }
            i = i + 1;
        }
        false
    }
}

} // verus!
