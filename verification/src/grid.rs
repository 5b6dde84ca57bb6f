//! The grid: a decoded spreadsheet table whose first row holds the column
//! headers, and the end-to-end extraction call over it.

use vstd::prelude::*;

use crate::cells::Cell;
use crate::extract::{extract_row, record_model, spec_record, Entry};
use crate::headers::{
    first_missing_from, header_keys, last_match, request_key, resolve, resolves, FieldRequest,
    MissingHeaderError,
};

verus! {

/// The column each request resolves to: the last header column whose
/// comparison key equals the request's. Meaningful only when every request
/// resolves.
pub open spec fn resolved_cols(keys: Seq<Seq<char>>, reqs: Seq<FieldRequest>) -> Seq<int>
    recommends
        resolves(keys, reqs),
{
    Seq::new(
        reqs.len(),
        |k: int|
            match last_match(keys, request_key(reqs[k])) {
                Some(i) => i,
                None => 0,
            },
    )
}

/// The output keys of a request sequence, in request order.
pub open spec fn output_keys(reqs: Seq<FieldRequest>) -> Seq<Seq<char>> {
    reqs.map_values(|q: FieldRequest| q.output_key@)
}

/// A decoded spreadsheet table. Row 0 is the header row; every following row
/// is a data row. Rows may be shorter than the header row: a data row simply
/// does not reach the columns past its end.
pub struct Grid {
    rows: Vec<Vec<Cell>>,
}

impl Grid {
    /// The rows, header row included.
    pub closed spec fn spec_rows(self) -> Seq<Seq<Cell>> {
        self.rows@.map_values(|r: Vec<Cell>| r@)
    }

    /// A grid always holds at least its header row.
    pub open spec fn wf(self) -> bool {
        self.spec_rows().len() >= 1
    }

    /// The header row.
    pub open spec fn spec_header(self) -> Seq<Cell>
        recommends
            self.wf(),
    {
        self.spec_rows()[0]
    }

    /// The data rows: everything after the header row.
    pub open spec fn spec_data(self) -> Seq<Seq<Cell>> {
        self.spec_rows().skip(1)
    }

    /// Builds a grid from decoded rows. A grid must hold a header row, so an
    /// empty row list is rejected; a single row is a valid grid with zero
    /// data rows.
    pub fn new(rows: Vec<Vec<Cell>>) -> (r: Option<Grid>)
        ensures
            match r {
                Some(g) => {
                    &&& rows@.len() >= 1
                    &&& g.wf()
                    &&& g.spec_rows() == rows@.map_values(|v: Vec<Cell>| v@)
                },
                None => rows@.len() == 0,
            },
    {
        if rows.len() == 0 {
            None
        } else {
            Some(Grid { rows })
        }
    }

    /// How many data rows the grid holds.
    pub fn data_len(&self) -> (n: usize)
        requires
            self.wf(),
        ensures
            n == self.spec_data().len(),
    {
        self.rows.len() - 1
    }

    /// The whole extraction call: resolve every request against the header
    /// row, then emit one record per data row in row order. Succeeds if and
    /// only if every requested source header occurs in the header row;
    /// otherwise the first unresolved request is named and no record is
    /// produced.
    pub fn extract(&self, requests: &Vec<FieldRequest>) -> (r: Result<
        Vec<Vec<Entry>>,
        MissingHeaderError,
    >)
        requires
            self.wf(),
        ensures
            match r {
                Ok(recs) => {
                    &&& resolves(header_keys(self.spec_header()), requests@)
                    &&& recs@.len() == self.spec_data().len()
                    &&& forall|rr: int|
                        0 <= rr < recs@.len() ==> record_model((#[trigger] recs@[rr])@)
                            == spec_record(
                            self.spec_data()[rr],
                            output_keys(requests@),
                            resolved_cols(header_keys(self.spec_header()), requests@),
                        )
                },
                Err(e) => {
                    &&& !resolves(header_keys(self.spec_header()), requests@)
                    &&& first_missing_from(
                        header_keys(self.spec_header()),
                        requests@,
                        0,
                    ) matches Some(k) && e.source_header@ == requests@[k].source_header@
                },
            },
    {
        let plan = match resolve(&self.rows[0], requests) {
            Ok(p) => p,
            Err(e) => {
                return Err(e);
            },
        };
        proof {
            assert(plan.spec_keys() =~= output_keys(requests@));
            assert(plan.spec_cols() =~= resolved_cols(header_keys(self.spec_header()), requests@));
        }
        let mut recs: Vec<Vec<Entry>> = Vec::new();
        let h = self.rows.len();
        let mut row: usize = 1;
        while row < h
            invariant
                plan.wf(),
                h == self.rows@.len(),
                1 <= row <= h,
                recs@.len() == row - 1,
                plan.spec_keys() == output_keys(requests@),
                plan.spec_cols() == resolved_cols(header_keys(self.spec_header()), requests@),
                forall|rr: int|
                    0 <= rr < recs@.len() ==> record_model((#[trigger] recs@[rr])@) == spec_record(
                        self.spec_data()[rr],
                        plan.spec_keys(),
                        plan.spec_cols(),
                    ),
            decreases h - row,
        {
            recs.push(extract_row(&self.rows[row], &plan));
            row += 1;
        }
        Ok(recs)
    }
}

} // verus!
