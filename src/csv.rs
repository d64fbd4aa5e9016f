//! Reading a raw result table from CSV text.
//!
//! Lines end with `\n` (a `\r` before it is dropped); the first line is the
//! header, empty lines are skipped, cells are separated by `,` and are not
//! quoted.
use vstd::prelude::*;
use vstd::string::*;

use crate::job_type::JobType;
use crate::reduce::{RawRecord, RawTable};
use crate::text::{
    chars_of, lemma_split_nonempty, parse_decimal, parse_u32, parse_value, same_chars,
    spec_parse_u32, split, split_chars, string_from, views_of,
};
use crate::value::Value;

verus! {

/// The columns a raw result table must have.
#[derive(Debug, Clone, Copy, PartialEq, Eq, Structural)]
pub enum Column {
    Jobname,
    ChannelId,
    BeforeScf,
    FirstScf,
    LastScf,
}

/// A required column is absent from the header.
#[derive(Debug, Clone, Copy, PartialEq, Eq, Structural)]
pub struct SchemaError {
    pub missing: Column,
}

/// The header name of a column.
pub open spec fn column_name(c: Column) -> Seq<char> {
    match c {
        Column::Jobname => "Jobname"@,
        Column::ChannelId => "Channel ID"@,
        Column::BeforeScf => "Before SCF"@,
        Column::FirstScf => "1st SCF"@,
        Column::LastScf => "Last SCF"@,
    }
}

pub open spec fn strip_cr(l: Seq<char>) -> Seq<char> {
    if l.len() > 0 && l.last() == '\r' {
        l.drop_last()
    } else {
        l
    }
}

/// The header cells of a CSV text.
pub open spec fn header_cells(text: Seq<char>) -> Seq<Seq<char>> {
    split(strip_cr(split(text, '\n')[0]), ',')
}

/// The non-empty lines of `lines`, in order.
pub open spec fn non_empty(lines: Seq<Seq<char>>) -> Seq<Seq<char>>
    decreases lines.len(),
{
    if lines.len() == 0 {
        Seq::empty()
    } else {
        let p = non_empty(lines.drop_last());
        if lines.last().len() > 0 {
            p.push(lines.last())
        } else {
            p
        }
    }
}

/// The data lines of a CSV text: the non-empty lines after the header.
pub open spec fn data_lines(text: Seq<char>) -> Seq<Seq<char>> {
    non_empty(split(text, '\n').drop_first().map_values(|l: Seq<char>| strip_cr(l)))
}

/// The first position of `name` in `header`.
pub open spec fn column_index_from(header: Seq<Seq<char>>, name: Seq<char>, i: int) -> Option<int>
    decreases header.len() - i,
{
    if i < 0 || i >= header.len() {
        None
    } else if header[i] == name {
        Some(i)
    } else {
        column_index_from(header, name, i + 1)
    }
}

pub open spec fn column_index(header: Seq<Seq<char>>, c: Column) -> Option<int> {
    column_index_from(header, column_name(c), 0)
}

/// The first required column (in the order of `Column`) absent from
/// `header`.
pub open spec fn first_missing(header: Seq<Seq<char>>) -> Option<Column> {
    if column_index(header, Column::Jobname) is None {
        Some(Column::Jobname)
    } else if column_index(header, Column::ChannelId) is None {
        Some(Column::ChannelId)
    } else if column_index(header, Column::BeforeScf) is None {
        Some(Column::BeforeScf)
    } else if column_index(header, Column::FirstScf) is None {
        Some(Column::FirstScf)
    } else if column_index(header, Column::LastScf) is None {
        Some(Column::LastScf)
    } else {
        None
    }
}

/// The cell at `i`; empty when the line is shorter.
pub open spec fn cell(cells: Seq<Seq<char>>, i: int) -> Seq<char> {
    if 0 <= i < cells.len() {
        cells[i]
    } else {
        Seq::empty()
    }
}

/// `r` is the record read from the cells of one line.
pub open spec fn record_of_cells(r: RawRecord, cells: Seq<Seq<char>>, header: Seq<Seq<char>>) -> bool {
    &&& r.run_id@ == cell(cells, column_index(header, Column::Jobname)->0)
    &&& r.channel == spec_parse_u32(cell(cells, column_index(header, Column::ChannelId)->0))
    &&& r.scf_before == parse_decimal(cell(cells, column_index(header, Column::BeforeScf)->0))
    &&& r.scf_first == parse_decimal(cell(cells, column_index(header, Column::FirstScf)->0))
    &&& r.scf_final == parse_decimal(cell(cells, column_index(header, Column::LastScf)->0))
}

fn strip_cr_exec(l: Vec<char>) -> (r: Vec<char>)
    ensures
        r@ == strip_cr(l@),
{
    let mut l = l;
    if l.len() > 0 && l[l.len() - 1] == '\r' {
        l.pop();
    }
    l
}

fn name_chars(c: Column) -> (r: Vec<char>)
    ensures
        r@ == column_name(c),
{
    match c {
        Column::Jobname => chars_of("Jobname"),
        Column::ChannelId => chars_of("Channel ID"),
        Column::BeforeScf => chars_of("Before SCF"),
        Column::FirstScf => chars_of("1st SCF"),
        Column::LastScf => chars_of("Last SCF"),
    }
}

fn find_column(header: &Vec<Vec<char>>, c: Column) -> (r: Option<usize>)
    ensures
        match r {
            Some(i) => column_index(views_of(header@), c) == Some(i as int),
            None => column_index(views_of(header@), c) is None,
        },
{
    let name = name_chars(c);
    let ghost h = views_of(header@);
    let mut i: usize = 0;
    while i < header.len()
        invariant
            i <= header@.len(),
            h == views_of(header@),
            name@ == column_name(c),
            column_index(h, c) == column_index_from(h, column_name(c), i as int),
        decreases header@.len() - i,
    {
        if same_chars(&header[i], &name) {
            return Some(i);
        }
        i = i + 1;
    }
    None
}

fn cell_at(cells: &Vec<Vec<char>>, i: usize) -> (r: Vec<char>)
    ensures
        r@ == cell(views_of(cells@), i as int),
{
    if i < cells.len() {
        cells[i].clone()
    } else {
        Vec::new()
    }
}

impl<T: JobType> RawTable<T> {
    /// Reads a raw result table from CSV text.  The header must name the
    /// columns `Jobname`, `Channel ID`, `Before SCF`, `1st SCF` and
    /// `Last SCF` (in any order, among others); a cell that cannot be read
    /// as its column's type is missing, never zero.
    pub fn from_csv(text: &str) -> (r: Result<RawTable<T>, SchemaError>)
        ensures
            match first_missing(header_cells(text@)) {
                Some(c) => r == Err::<RawTable<T>, SchemaError>(SchemaError { missing: c }),
                None => r is Ok && r->Ok_0.spec_rows().len() == data_lines(text@).len() && forall|
                    i: int,
                |
                    0 <= i < data_lines(text@).len() ==> record_of_cells(
                        #[trigger] r->Ok_0.spec_rows()[i],
                        split(data_lines(text@)[i], ','),
                        header_cells(text@),
                    ),
            },
    {
        let chars = chars_of(text);
        let lines = split_chars(&chars, '\n');
        proof {
            lemma_split_nonempty(text@, '\n');
        }
        let head_line = strip_cr_exec(lines[0].clone());
        let header = split_chars(&head_line, ',');
        let ghost h = views_of(header@);
        proof {
            assert(h == header_cells(text@));
        }
        let ij = match find_column(&header, Column::Jobname) {
            Some(i) => i,
            None => return Err(SchemaError { missing: Column::Jobname }),
        };
        let ic = match find_column(&header, Column::ChannelId) {
            Some(i) => i,
            None => return Err(SchemaError { missing: Column::ChannelId }),
        };
        let ib = match find_column(&header, Column::BeforeScf) {
            Some(i) => i,
            None => return Err(SchemaError { missing: Column::BeforeScf }),
        };
        let i1 = match find_column(&header, Column::FirstScf) {
            Some(i) => i,
            None => return Err(SchemaError { missing: Column::FirstScf }),
        };
        let il = match find_column(&header, Column::LastScf) {
            Some(i) => i,
            None => return Err(SchemaError { missing: Column::LastScf }),
        };
        let ghost body = split(text@, '\n').drop_first().map_values(|l: Seq<char>| strip_cr(l));
        let mut rows: Vec<RawRecord> = Vec::new();
        let mut k: usize = 1;
        while k < lines.len()
            invariant
                1 <= k <= lines@.len(),
                views_of(lines@) == split(text@, '\n'),
                body == split(text@, '\n').drop_first().map_values(|l: Seq<char>| strip_cr(l)),
                h == header_cells(text@),
                column_index(h, Column::Jobname) == Some(ij as int),
                column_index(h, Column::ChannelId) == Some(ic as int),
                column_index(h, Column::BeforeScf) == Some(ib as int),
                column_index(h, Column::FirstScf) == Some(i1 as int),
                column_index(h, Column::LastScf) == Some(il as int),
                rows@.len() == non_empty(body.subrange(0, k - 1)).len(),
                forall|i: int|
                    0 <= i < rows@.len() ==> record_of_cells(
                        #[trigger] rows@[i],
                        split(non_empty(body.subrange(0, k - 1))[i], ','),
                        h,
                    ),
            decreases lines@.len() - k,
        {
            let line = strip_cr_exec(lines[k].clone());
            proof {
                assert(body[k - 1] == line@);
                assert(body.subrange(0, k as int).drop_last() =~= body.subrange(0, k - 1));
            }
            if line.len() > 0 {
                let cells = split_chars(&line, ',');
                let rec = RawRecord {
                    run_id: string_from(&cell_at(&cells, ij)),
                    channel: parse_u32(&cell_at(&cells, ic)),
                    scf_before: parse_value(&cell_at(&cells, ib)),
                    scf_first: parse_value(&cell_at(&cells, i1)),
                    scf_final: parse_value(&cell_at(&cells, il)),
                };
                rows.push(rec);
            }
            k = k + 1;
        }
        proof {
            assert(body.subrange(0, lines@.len() - 1) =~= body);
        }
        Ok(RawTable::new(rows))
    }
}

} // verus!
