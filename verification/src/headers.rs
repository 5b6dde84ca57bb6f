//! Header resolution: matching requested source headers against the grid's
//! header row and building the position-sorted scan plan.

use vstd::prelude::*;

use crate::cells::{cell_key, spec_cell_key, Cell};
use crate::text::{norm_key, normalize};

verus! {

/// One caller request: extract the column headed `source_header` and emit it
/// under the key `output_key`.
#[derive(Debug, Clone)]
pub struct FieldRequest {
    pub source_header: String,
    pub output_key: String,
}

/// A requested source header was absent from the header row after
/// normalization. Resolution is all-or-nothing: one missing header fails the
/// whole extraction call before any record is produced.
#[derive(Debug, PartialEq, Eq)]
pub struct MissingHeaderError {
    pub source_header: String,
}

/// The comparison keys of a header row, one per cell.
pub open spec fn header_keys(row: Seq<Cell>) -> Seq<Seq<char>> {
    row.map_values(|c: Cell| spec_cell_key(c))
}

/// The comparison key of a request's source header.
pub open spec fn request_key(r: FieldRequest) -> Seq<char> {
    norm_key(r.source_header@)
}

/// The last index below `n` whose key equals `target`, if any. When a header
/// row contains duplicate keys, the later occurrence wins.
pub open spec fn last_match_upto(keys: Seq<Seq<char>>, target: Seq<char>, n: int) -> Option<int>
    decreases n,
{
    if n <= 0 {
        None
    } else if keys[n - 1] == target {
        Some(n - 1)
    } else {
        last_match_upto(keys, target, n - 1)
    }
}

/// The column a key resolves to: the last occurrence of `target` in `keys`.
pub open spec fn last_match(keys: Seq<Seq<char>>, target: Seq<char>) -> Option<int> {
    last_match_upto(keys, target, keys.len() as int)
}

proof fn lemma_last_match_upto_props(keys: Seq<Seq<char>>, target: Seq<char>, n: int)
    requires
        n <= keys.len(),
    ensures
        match last_match_upto(keys, target, n) {
            Some(i) => 0 <= i < n && keys[i] == target && (forall|j: int|
                i < j < n ==> keys[j] != target),
            None => forall|j: int| 0 <= j < n ==> keys[j] != target,
        },
    decreases n,
{
    if n > 0 {
        lemma_last_match_upto_props(keys, target, n - 1);
    }
}

/// Duplicate headers resolve to the last occurrence: when a match exists it
/// is the greatest matching index, and when none exists no index matches.
pub proof fn lemma_last_match_is_last(keys: Seq<Seq<char>>, target: Seq<char>)
    ensures
        match last_match(keys, target) {
            Some(i) => 0 <= i < keys.len() && keys[i] == target && (forall|j: int|
                i < j < keys.len() ==> keys[j] != target),
            None => forall|j: int| 0 <= j < keys.len() ==> keys[j] != target,
        },
{
    lemma_last_match_upto_props(keys, target, keys.len() as int);
}

/// Header matching is insensitive to anything normalization removes: two
/// requests whose source headers normalize alike resolve to the same column
/// of any header row.
pub proof fn lemma_match_depends_on_normalized_text(
    keys: Seq<Seq<char>>,
    a: FieldRequest,
    b: FieldRequest,
)
    requires
        norm_key(a.source_header@) == norm_key(b.source_header@),
    ensures
        last_match(keys, request_key(a)) == last_match(keys, request_key(b)),
{
}

/// Every request finds its source header in the header row.
pub open spec fn resolves(keys: Seq<Seq<char>>, reqs: Seq<FieldRequest>) -> bool {
    forall|k: int|
        0 <= k < reqs.len() ==> (#[trigger] last_match(keys, request_key(reqs[k]))) is Some
}

/// The first request at or after `k` whose source header has no match.
pub open spec fn first_missing_from(keys: Seq<Seq<char>>, reqs: Seq<FieldRequest>, k: int) -> Option<
    int,
>
    decreases reqs.len() - k,
{
    if k < 0 || k >= reqs.len() {
        None
    } else if last_match(keys, request_key(reqs[k])) is None {
        Some(k)
    } else {
        first_missing_from(keys, reqs, k + 1)
    }
}

proof fn lemma_first_missing_skip(keys: Seq<Seq<char>>, reqs: Seq<FieldRequest>, k: int)
    requires
        0 <= k <= reqs.len(),
        forall|kk: int|
            0 <= kk < k ==> (#[trigger] last_match(keys, request_key(reqs[kk]))) is Some,
    ensures
        first_missing_from(keys, reqs, 0) == first_missing_from(keys, reqs, k),
    decreases k,
{
    if k > 0 {
        lemma_first_missing_skip(keys, reqs, k - 1);
    }
}

/// One scan step: visit `column`, and when it yields a value store it in the
/// record slot of the request it came from (`slot` indexes the requests in
/// their original order).
pub struct ScanField {
    pub column: usize,
    pub slot: usize,
}

/// Whether some scan entry stores into the record slot of request `k`.
pub open spec fn has_slot(scan: Seq<ScanField>, k: int) -> bool {
    exists|j: int| 0 <= j < scan.len() && (#[trigger] scan[j]).slot == k
}

/// The resolver's output, consumed read-only by the row extractor: the
/// output keys and resolved columns in request order, plus the scan plan
/// sorted ascending by column so that one left-to-right pass per row visits
/// every requested column.
pub struct ExtractPlan {
    pub(crate) keys: Vec<String>,
    pub(crate) cols: Vec<usize>,
    pub(crate) scan: Vec<ScanField>,
}

impl ExtractPlan {
    /// The output keys, in request order.
    pub open(crate) spec fn spec_keys(self) -> Seq<Seq<char>> {
        self.keys@.map_values(|s: String| s@)
    }

    /// The resolved column of each request, in request order.
    pub open(crate) spec fn spec_cols(self) -> Seq<int> {
        self.cols@.map_values(|c: usize| c as int)
    }

    /// How many fields the plan extracts.
    pub open spec fn spec_len(self) -> nat {
        self.spec_keys().len()
    }

    /// Well-formedness: one key and one column per request, and a scan plan
    /// that is sorted by column, stores only into valid record slots, visits
    /// for each slot exactly the column resolved for it, and covers every
    /// slot.
    pub open(crate) spec fn wf(self) -> bool {
        &&& self.cols@.len() == self.keys@.len()
        &&& forall|j: int|
            0 <= j < self.scan@.len() ==> (#[trigger] self.scan@[j]).slot < self.cols@.len()
                && self.scan@[j].column == self.cols@[self.scan@[j].slot as int]
        &&& forall|j1: int, j2: int|
            0 <= j1 < j2 < self.scan@.len() ==> (#[trigger] self.scan@[j1]).column
                <= (#[trigger] self.scan@[j2]).column
        &&& forall|k: int| 0 <= k < self.cols@.len() ==> has_slot(self.scan@, k)
    }

    /// The number of fields the plan extracts.
    pub fn len(&self) -> (n: usize)
        ensures
            n == self.spec_len(),
    {
        self.keys.len()
    }
}

/// The comparison keys of a sequence of already-normalized key strings.
spec fn keys_model(ks: Seq<String>) -> Seq<Seq<char>> {
    ks.map_values(|s: String| s@)
}

/// Finds the last entry of `hkeys` equal to `target`, if any.
fn find_last(hkeys: &Vec<String>, target: &String) -> (r: Option<usize>)
    ensures
        match r {
            Some(i) => last_match(keys_model(hkeys@), target@) == Some(i as int),
            None => last_match(keys_model(hkeys@), target@) is None,
        },
{
    let mut found: Option<usize> = None;
    let w = hkeys.len();
    for i in 0..w
        invariant
            w == hkeys@.len(),
            match found {
                Some(f) => last_match_upto(keys_model(hkeys@), target@, i as int) == Some(
                    f as int,
                ),
                None => last_match_upto(keys_model(hkeys@), target@, i as int) is None,
            },
    {
        if hkeys[i] == *target {
            found = Some(i);
        }
    }
    found
}

/// Builds the scan plan from the resolved columns: walk the columns left to
/// right and, at each, store every request slot resolved to it, so the plan
/// comes out sorted by column and covers every slot.
fn build_scan(cols: &Vec<usize>, width: usize) -> (scan: Vec<ScanField>)
    requires
        forall|k: int| 0 <= k < cols@.len() ==> (#[trigger] cols@[k]) < width,
    ensures
        forall|j: int|
            0 <= j < scan@.len() ==> (#[trigger] scan@[j]).slot < cols@.len() && scan@[j].column
                == cols@[scan@[j].slot as int],
        forall|j1: int, j2: int|
            0 <= j1 < j2 < scan@.len() ==> (#[trigger] scan@[j1]).column <= (#[trigger] scan@[j2]).column,
        forall|k: int| 0 <= k < cols@.len() ==> has_slot(scan@, k),
{
    let mut scan: Vec<ScanField> = Vec::new();
    let m = cols.len();
    let mut pos: usize = 0;
    while pos < width
        invariant
            m == cols@.len(),
            pos <= width,
            forall|k: int| 0 <= k < m ==> (#[trigger] cols@[k]) < width,
            forall|j: int|
                0 <= j < scan@.len() ==> (#[trigger] scan@[j]).slot < m && scan@[j].column
                    == cols@[scan@[j].slot as int] && scan@[j].column < pos,
            forall|j1: int, j2: int|
                0 <= j1 < j2 < scan@.len() ==> (#[trigger] scan@[j1]).column
                    <= (#[trigger] scan@[j2]).column,
            forall|k: int| 0 <= k < m && (#[trigger] cols@[k]) < pos ==> has_slot(scan@, k),
        decreases width - pos,
    {
        let mut k: usize = 0;
        while k < m
            invariant
                m == cols@.len(),
                k <= m,
                pos < width,
                forall|kk: int| 0 <= kk < m ==> (#[trigger] cols@[kk]) < width,
                forall|j: int|
                    0 <= j < scan@.len() ==> (#[trigger] scan@[j]).slot < m && scan@[j].column
                        == cols@[scan@[j].slot as int] && scan@[j].column <= pos,
                forall|j1: int, j2: int|
                    0 <= j1 < j2 < scan@.len() ==> (#[trigger] scan@[j1]).column
                        <= (#[trigger] scan@[j2]).column,
                forall|kk: int|
                    0 <= kk < m && ((#[trigger] cols@[kk]) < pos || (cols@[kk] == pos && kk < k))
                        ==> has_slot(scan@, kk),
            decreases m - k,
        {
            if cols[k] == pos {
                let ghost old_scan = scan@;
                scan.push(ScanField { column: pos, slot: k });
                proof {
                    assert forall|kk: int|
                        0 <= kk < m && ((#[trigger] cols@[kk]) < pos || (cols@[kk] == pos && kk < k
                            + 1)) implies has_slot(scan@, kk) by {
                        if cols@[kk] == pos && kk == k {
                            assert(scan@[scan@.len() - 1].slot == kk);
                        } else {
                            assert(has_slot(old_scan, kk));
                            let j = choose|j: int|
                                0 <= j < old_scan.len() && (#[trigger] old_scan[j]).slot == kk;
                            assert(scan@[j].slot == kk);
                        }
                    }
                }
            }
            k += 1;
        }
        pos += 1;
    }
    proof {
        assert forall|k: int| 0 <= k < cols@.len() implies has_slot(scan@, k) by {
            assert(cols@[k] < width);
        }
    }
    scan
}

/// Resolves every request against the header row. Succeeds if and only if
/// every requested source header occurs (after normalization) in the header
/// row; one missing header fails the whole call, naming the first request
/// that failed, and no partial plan is returned. On success the plan maps
/// request `k` to the last header column whose key equals the request's and
/// carries request `k`'s output key.
pub fn resolve(header_row: &Vec<Cell>, requests: &Vec<FieldRequest>) -> (r: Result<
    ExtractPlan,
    MissingHeaderError,
>)
    ensures
        match r {
            Ok(plan) => {
                &&& resolves(header_keys(header_row@), requests@)
                &&& plan.wf()
                &&& plan.spec_len() == requests@.len()
                &&& forall|k: int|
                    0 <= k < requests@.len() ==> #[trigger] plan.spec_keys()[k]
                        == requests@[k].output_key@
                &&& forall|k: int|
                    0 <= k < requests@.len() ==> last_match(
                        header_keys(header_row@),
                        request_key(requests@[k]),
                    ) == Some(#[trigger] plan.spec_cols()[k])
            },
            Err(e) => {
                &&& !resolves(header_keys(header_row@), requests@)
                &&& first_missing_from(header_keys(header_row@), requests@, 0) matches Some(k)
                    && e.source_header@ == requests@[k].source_header@
            },
        },
{
    let w = header_row.len();
    let mut hkeys: Vec<String> = Vec::new();
    for i in 0..w
        invariant
            w == header_row@.len(),
            hkeys@.len() == i,
            forall|ii: int| 0 <= ii < i ==> (#[trigger] hkeys@[ii])@ == spec_cell_key(
                header_row@[ii],
            ),
    {
        hkeys.push(cell_key(&header_row[i]));
    }
    proof {
        assert(keys_model(hkeys@) =~= header_keys(header_row@));
    }

    let m = requests.len();
    let mut keys: Vec<String> = Vec::new();
    let mut cols: Vec<usize> = Vec::new();
    for k in 0..m
        invariant
            m == requests@.len(),
            w == header_row@.len(),
            keys_model(hkeys@) == header_keys(header_row@),
            keys@.len() == k,
            cols@.len() == k,
            forall|kk: int| 0 <= kk < k ==> (#[trigger] keys@[kk])@ == requests@[kk].output_key@,
            forall|kk: int|
                0 <= kk < k ==> (#[trigger] last_match(
                    header_keys(header_row@),
                    request_key(requests@[kk]),
                )) == Some(cols@[kk] as int),
    {
        let nk = normalize(requests[k].source_header.as_str());
        match find_last(&hkeys, &nk) {
            Some(i) => {
                cols.push(i);
                keys.push(requests[k].output_key.clone());
            },
            None => {
                proof {
                    lemma_first_missing_skip(header_keys(header_row@), requests@, k as int);
                }
                return Err(MissingHeaderError {
                    source_header: requests[k].source_header.clone(),
                });
            },
        }
    }

    proof {
        assert forall|k: int| 0 <= k < cols@.len() implies (#[trigger] cols@[k]) < w by {
            assert(last_match(header_keys(header_row@), request_key(requests@[k])) == Some(
                cols@[k] as int,
            ));
            lemma_last_match_upto_props(
                header_keys(header_row@),
                request_key(requests@[k]),
                header_keys(header_row@).len() as int,
            );
        }
    }
    let scan = build_scan(&cols, w);
    let plan = ExtractPlan { keys, cols, scan };
    Ok(plan)
}

} // verus!
