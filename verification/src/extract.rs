//! The aligned row extractor: one left-to-right pass per data row over the
//! position-sorted scan plan, producing one output record per row.

use vstd::prelude::*;

use crate::cells::{coerce, opt_view, spec_coerce, Cell, ScalarModel, Value};
use crate::headers::{ExtractPlan, ScanField};

verus! {

/// One record entry: an output key and the coerced scalar under it.
#[derive(Debug, PartialEq, Eq)]
pub struct Entry {
    pub key: String,
    pub value: Value,
}

impl View for Entry {
    type V = (Seq<char>, ScalarModel);

    open spec fn view(&self) -> (Seq<char>, ScalarModel) {
        (self.key@, self.value@)
    }
}

/// The model of a record: its entries in emission order.
pub open spec fn record_model(rec: Seq<Entry>) -> Seq<(Seq<char>, ScalarModel)> {
    rec.map_values(|e: Entry| e@)
}

/// What a requested column contributes for a given row: the coerced cell at
/// that column, or nothing when the row does not reach the column.
pub open spec fn slot_value(row: Seq<Cell>, col: int) -> Option<ScalarModel> {
    if 0 <= col < row.len() {
        spec_coerce(row[col])
    } else {
        None
    }
}

/// The record emitted for a row, built over the requests from index `k` on,
/// in request order: each request whose resolved column yields a value
/// contributes one entry under its output key; the others are omitted.
pub open spec fn record_from(
    row: Seq<Cell>,
    keys: Seq<Seq<char>>,
    cols: Seq<int>,
    k: int,
) -> Seq<(Seq<char>, ScalarModel)>
    decreases keys.len() - k,
{
    if k < 0 || k >= keys.len() || k >= cols.len() {
        Seq::empty()
    } else {
        let rest = record_from(row, keys, cols, k + 1);
        match slot_value(row, cols[k]) {
            Some(v) => seq![(keys[k], v)] + rest,
            None => rest,
        }
    }
}

/// The record emitted for a row: one entry per request whose resolved column
/// yields a value, in request order.
pub open spec fn spec_record(row: Seq<Cell>, keys: Seq<Seq<char>>, cols: Seq<int>) -> Seq<
    (Seq<char>, ScalarModel),
> {
    record_from(row, keys, cols, 0)
}

/// Whether some scan entry before `j` stores into the record slot of request
/// `k`.
spec fn scanned(scan: Seq<ScanField>, j: int, k: int) -> bool {
    exists|jj: int| 0 <= jj < j && (#[trigger] scan[jj]).slot == k
}

/// Extracts one record from one data row: a single left-to-right pass over
/// the row's cells and the column-sorted scan plan in lockstep, visiting
/// each cell and each planned column once. A row shorter than the header row
/// simply leaves the keys of the columns it does not reach out of the
/// record. Row extraction never fails: empty or unsupported cells degrade to
/// key omission.
pub fn extract_row(row: &Vec<Cell>, plan: &ExtractPlan) -> (rec: Vec<Entry>)
    requires
        plan.wf(),
    ensures
        record_model(rec@) == spec_record(row@, plan.spec_keys(), plan.spec_cols()),
{
    let m = plan.len();
    let mut slots: Vec<Option<Value>> = Vec::new();
    let mut k0: usize = 0;
    while k0 < m
        invariant
            slots@.len() == k0,
            k0 <= m,
            forall|i: int| 0 <= i < k0 ==> (#[trigger] slots@[i]) is None,
        decreases m - k0,
    {
        slots.push(None);
        k0 += 1;
    }

    let rl = row.len();
    let mut pos: usize = 0;
    let mut j: usize = 0;
    while pos < rl && j < plan.scan.len()
        invariant
            plan.wf(),
            m == plan.spec_len(),
            m == plan.cols@.len(),
            slots@.len() == m,
            rl == row@.len(),
            pos <= rl,
            j <= plan.scan@.len(),
            forall|jj: int|
                j <= jj < plan.scan@.len() ==> (#[trigger] plan.scan@[jj]).column >= pos,
            forall|k: int|
                0 <= k < m ==> (if scanned(plan.scan@, j as int, k) {
                    opt_view(slots@[k]) == slot_value(row@, plan.spec_cols()[k])
                } else {
                    (#[trigger] slots@[k]) is None
                }),
        decreases rl - pos + plan.scan@.len() - j,
    {
        let column = plan.scan[j].column;
        if column == pos {
            let slot = plan.scan[j].slot;
            let ghost old_slots = slots@;
            let v = coerce(&row[pos]);
            slots.set(slot, v);
            j += 1;
            proof {
                assert forall|k: int|
                    0 <= k < m implies (if scanned(plan.scan@, j as int, k) {
                    opt_view(slots@[k]) == slot_value(row@, plan.spec_cols()[k])
                } else {
                    (#[trigger] slots@[k]) is None
                }) by {
                    if k == slot {
                        assert(plan.scan@[j - 1].slot == k);
                        assert(scanned(plan.scan@, j as int, k));
                    } else {
                        assert(slots@[k] == old_slots[k]);
                        if scanned(plan.scan@, j as int, k) {
                            let jj = choose|jj: int|
                                0 <= jj < j && (#[trigger] plan.scan@[jj]).slot == k;
                            assert(jj < j - 1);
                            assert(scanned(plan.scan@, j - 1, k));
                        }
                    }
                }
            }
        } else {
            proof {
                assert(plan.scan@[j as int].column >= pos);
                assert forall|jj: int|
                    j <= jj < plan.scan@.len() implies (#[trigger] plan.scan@[jj]).column >= pos
                    + 1 by {
                    assert(plan.scan@[jj].column >= plan.scan@[j as int].column);
                }
            }
            pos += 1;
        }
    }
    proof {
        assert forall|k: int| 0 <= k < m implies opt_view(slots@[k]) == slot_value(
            row@,
            plan.spec_cols()[k],
        ) by {
            if !scanned(plan.scan@, j as int, k) {
                assert(crate::headers::has_slot(plan.scan@, k));
                let jj = choose|jj: int|
                    0 <= jj < plan.scan@.len() && (#[trigger] plan.scan@[jj]).slot == k;
                assert(jj >= j);
                assert(plan.scan@[jj].column >= pos);
                assert(plan.spec_cols()[k] >= rl);
            }
        }
    }

    let mut rec: Vec<Entry> = Vec::new();
    let mut k: usize = 0;
    while k < m
        invariant
            plan.wf(),
            m == plan.spec_len(),
            m == plan.cols@.len(),
            slots@.len() == m,
            k <= m,
            forall|i: int|
                0 <= i < m ==> opt_view(#[trigger] slots@[i]) == slot_value(
                    row@,
                    plan.spec_cols()[i],
                ),
            record_model(rec@) + record_from(row@, plan.spec_keys(), plan.spec_cols(), k as int)
                == spec_record(row@, plan.spec_keys(), plan.spec_cols()),
        decreases m - k,
    {
        let ghost old_rec = rec@;
        match &slots[k] {
            Some(v) => {
                rec.push(Entry { key: plan.keys[k].clone(), value: v.clone() });
                proof {
                    assert(record_model(rec@) =~= record_model(old_rec) + seq![
                        (plan.spec_keys()[k as int], slots@[k as int]->Some_0@),
                    ]);
                    assert(record_model(rec@) + record_from(
                        row@,
                        plan.spec_keys(),
                        plan.spec_cols(),
                        k + 1,
                    ) =~= spec_record(row@, plan.spec_keys(), plan.spec_cols()));
                }
            },
            None => {},
        }
        k += 1;
    }
    proof {
        assert(record_model(rec@) =~= spec_record(row@, plan.spec_keys(), plan.spec_cols()));
    }
    rec
}

proof fn lemma_record_from_present(
    row: Seq<Cell>,
    keys: Seq<Seq<char>>,
    cols: Seq<int>,
    i: int,
    k: int,
)
    requires
        keys.len() == cols.len(),
        0 <= i <= k < keys.len(),
        slot_value(row, cols[k]) is Some,
    ensures
        record_from(row, keys, cols, i).contains((keys[k], slot_value(row, cols[k])->Some_0)),
    decreases k - i,
{
    let entry = (keys[k], slot_value(row, cols[k])->Some_0);
    let rest = record_from(row, keys, cols, i + 1);
    if i == k {
        assert((seq![entry] + rest)[0] == entry);
    } else {
        lemma_record_from_present(row, keys, cols, i + 1, k);
        let idx = choose|idx: int| 0 <= idx < rest.len() && rest[idx] == entry;
        match slot_value(row, cols[i]) {
            Some(v) => {
                assert((seq![(keys[i], v)] + rest)[idx + 1] == entry);
            },
            None => {},
        }
    }
}

proof fn lemma_record_from_sources(row: Seq<Cell>, keys: Seq<Seq<char>>, cols: Seq<int>, i: int)
    requires
        keys.len() == cols.len(),
    ensures
        forall|p: (Seq<char>, ScalarModel)|
            #[trigger] record_from(row, keys, cols, i).contains(p) ==> exists|k2: int|
                i <= k2 < keys.len() && p.0 == keys[k2] && slot_value(row, cols[k2]) == Some(p.1),
    decreases keys.len() - i,
{
    if 0 <= i < keys.len() {
        lemma_record_from_sources(row, keys, cols, i + 1);
        let rest = record_from(row, keys, cols, i + 1);
        assert forall|p: (Seq<char>, ScalarModel)|
            #[trigger] record_from(row, keys, cols, i).contains(p) implies exists|k2: int|
            i <= k2 < keys.len() && p.0 == keys[k2] && slot_value(row, cols[k2]) == Some(
            p.1,
        ) by {
            match slot_value(row, cols[i]) {
                Some(v) => {
                    let whole = seq![(keys[i], v)] + rest;
                    let idx = choose|idx: int| 0 <= idx < whole.len() && whole[idx] == p;
                    if idx == 0 {
                        assert(i <= i < keys.len() && p.0 == keys[i] && slot_value(row, cols[i])
                            == Some(p.1));
                    } else {
                        assert(rest[idx - 1] == p);
                        assert(rest.contains(p));
                    }
                },
                None => {
                    assert(rest.contains(p));
                },
            }
        }
    }
}

/// Every entry of a row's record comes from some request: its key is that
/// request's output key and its value is the coerced cell of that request's
/// resolved column. Together with `lemma_record_key_present` this pins the
/// record to exactly the requests that yielded values.
pub proof fn lemma_record_entries_from_requests(
    row: Seq<Cell>,
    keys: Seq<Seq<char>>,
    cols: Seq<int>,
)
    requires
        keys.len() == cols.len(),
    ensures
        forall|p: (Seq<char>, ScalarModel)|
            #[trigger] spec_record(row, keys, cols).contains(p) ==> exists|k: int|
                0 <= k < keys.len() && p.0 == keys[k] && slot_value(row, cols[k]) == Some(p.1),
{
    lemma_record_from_sources(row, keys, cols, 0);
}

/// A requested column that yields a value appears in the row's record: the
/// record holds the entry `(output key, coerced cell value)` for that
/// request, whatever order the requests stand in and whatever order the
/// columns were visited in.
pub proof fn lemma_record_key_present(row: Seq<Cell>, keys: Seq<Seq<char>>, cols: Seq<int>, k: int)
    requires
        keys.len() == cols.len(),
        0 <= k < keys.len(),
        slot_value(row, cols[k]) is Some,
    ensures
        spec_record(row, keys, cols).contains((keys[k], slot_value(row, cols[k])->Some_0)),
{
    lemma_record_from_present(row, keys, cols, 0, k);
}

/// Omission, not null: when a request's column yields no value (empty text,
/// an empty or unsupported cell, or a column the row does not reach) and no
/// other request shares the request's output key, the record holds no entry
/// under that key at all.
pub proof fn lemma_record_key_absent(row: Seq<Cell>, keys: Seq<Seq<char>>, cols: Seq<int>, k: int)
    requires
        keys.len() == cols.len(),
        0 <= k < keys.len(),
        slot_value(row, cols[k]) is None,
        forall|k2: int| 0 <= k2 < keys.len() && k2 != k ==> keys[k2] != keys[k],
    ensures
        forall|p: (Seq<char>, ScalarModel)|
            #[trigger] spec_record(row, keys, cols).contains(p) ==> p.0 != keys[k],
{
    lemma_record_from_sources(row, keys, cols, 0);
    assert forall|p: (Seq<char>, ScalarModel)|
        #[trigger] spec_record(row, keys, cols).contains(p) implies p.0 != keys[k] by {
        let k2 = choose|k2: int|
            0 <= k2 < keys.len() && p.0 == keys[k2] && slot_value(row, cols[k2]) == Some(p.1);
        if p.0 == keys[k] {
            assert(keys[k2] == keys[k]);
            assert(k2 == k);
        }
    }
}

/// Extracts one record per data row, in row order: the record at index `r`
/// of the result is exactly the record of data row `r`.
pub fn extract_rows(data_rows: &Vec<Vec<Cell>>, plan: &ExtractPlan) -> (recs: Vec<Vec<Entry>>)
    requires
        plan.wf(),
    ensures
        recs@.len() == data_rows@.len(),
        forall|r: int|
            0 <= r < recs@.len() ==> record_model((#[trigger] recs@[r])@) == spec_record(
                data_rows@[r]@,
                plan.spec_keys(),
                plan.spec_cols(),
            ),
{
    let mut recs: Vec<Vec<Entry>> = Vec::new();
    let n = data_rows.len();
    let mut r: usize = 0;
    while r < n
        invariant
            plan.wf(),
            n == data_rows@.len(),
            recs@.len() == r,
            r <= n,
            forall|rr: int|
                0 <= rr < r ==> record_model((#[trigger] recs@[rr])@) == spec_record(
                    data_rows@[rr]@,
                    plan.spec_keys(),
                    plan.spec_cols(),
                ),
        decreases n - r,
    {
        recs.push(extract_row(&data_rows[r], plan));
        r += 1;
    }
    recs
}

} // verus!
