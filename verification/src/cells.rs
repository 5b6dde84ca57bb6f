//! The cell model: typed spreadsheet cells, output scalars, and the value
//! coercion rules applied when a cell is copied into an output record.

use vstd::prelude::*;

use crate::text::{int_text, int_to_text, norm_key, normalize, trim_of, trim_text};

verus! {

/// One decoded spreadsheet cell.
///
/// The grid owns its cells; extraction only reads them. The engine holds no
/// floating-point values of its own: a numeric cell (date- and time-backed
/// numeric cells included) arrives from the decoder boundary as the bit
/// pattern of its 64-bit floating-point value, which the engine passes
/// through unmodified, together with its decimal rendering, which the engine
/// reads only when the cell stands in the header row.
#[derive(Debug, Clone, PartialEq, Eq)]
pub enum Cell {
    Text(String),
    Number { bits: u64, text: String },
    Integer(i64),
    Boolean(bool),
    Empty,
    Unsupported,
}

/// One normalized output scalar. `Number` carries floating-point bits,
/// exactly as its `Cell` counterpart does.
#[derive(Debug, PartialEq, Eq)]
pub enum Value {
    Text(String),
    Number(u64),
    Integer(i64),
    Boolean(bool),
}

/// The mathematical model of a `Value`: text becomes a character sequence.
pub enum ScalarModel {
    Text(Seq<char>),
    Number(u64),
    Integer(i64),
    Boolean(bool),
}

impl View for Value {
    type V = ScalarModel;

    open spec fn view(&self) -> ScalarModel {
        match *self {
            Value::Text(s) => ScalarModel::Text(s@),
            Value::Number(bits) => ScalarModel::Number(bits),
            Value::Integer(d) => ScalarModel::Integer(d),
            Value::Boolean(b) => ScalarModel::Boolean(b),
        }
    }
}

impl Clone for Value {
    fn clone(&self) -> (r: Self)
        ensures
            r@ == self@,
    {
        match self {
            Value::Text(s) => Value::Text(s.clone()),
            Value::Number(bits) => Value::Number(*bits),
            Value::Integer(d) => Value::Integer(*d),
            Value::Boolean(b) => Value::Boolean(*b),
        }
    }
}

/// The coercion rule table: what a matched cell contributes to a record.
/// `None` means the key is omitted from the record altogether.
pub open spec fn spec_coerce(c: Cell) -> Option<ScalarModel> {
    match c {
        Cell::Text(s) => if trim_of(s@).len() == 0 {
            None
        } else {
            Some(ScalarModel::Text(trim_of(s@)))
        },
        Cell::Number { bits, .. } => Some(ScalarModel::Number(bits)),
        Cell::Integer(d) => Some(ScalarModel::Integer(d)),
        Cell::Boolean(b) => Some(ScalarModel::Boolean(b)),
        Cell::Empty => None,
        Cell::Unsupported => None,
    }
}

/// The model of an optional output scalar.
pub open spec fn opt_view(r: Option<Value>) -> Option<ScalarModel> {
    match r {
        Some(v) => Some(v@),
        None => None,
    }
}

/// Coerces one cell: text is trimmed and omitted when empty, numbers,
/// integers and booleans pass through unmodified, empty and unsupported
/// cells are omitted.
pub fn coerce(c: &Cell) -> (r: Option<Value>)
    ensures
        opt_view(r) == spec_coerce(*c),
{
    match c {
        Cell::Text(s) => {
            let t = trim_text(s.as_str());
            if t.as_str().is_empty() {
                None
            } else {
                Some(Value::Text(t))
            }
        },
        Cell::Number { bits, .. } => Some(Value::Number(*bits)),
        Cell::Integer(d) => Some(Value::Integer(*d)),
        Cell::Boolean(b) => Some(Value::Boolean(*b)),
        Cell::Empty => None,
        Cell::Unsupported => None,
    }
}

/// The textual rendering of a cell, used only to build header comparison
/// keys: text renders as itself, numbers and integers in decimal, booleans
/// as `true`/`false`, empty and unsupported cells as the empty text.
pub open spec fn spec_render(c: Cell) -> Seq<char> {
    match c {
        Cell::Text(s) => s@,
        Cell::Number { text, .. } => text@,
        Cell::Integer(d) => int_text(d as int),
        Cell::Boolean(b) => if b {
            "true"@
        } else {
            "false"@
        },
        Cell::Empty => Seq::empty(),
        Cell::Unsupported => Seq::empty(),
    }
}

/// Renders a cell to text for header comparison.
pub fn render(c: &Cell) -> (r: String)
    ensures
        r@ == spec_render(*c),
{
    match c {
        Cell::Text(s) => s.clone(),
        Cell::Number { text, .. } => text.clone(),
        Cell::Integer(d) => int_to_text(*d),
        Cell::Boolean(b) => if *b {
            String::from_str("true")
        } else {
            String::from_str("false")
        },
        Cell::Empty => String::new(),
        Cell::Unsupported => String::new(),
    }
}

/// The header comparison key of a cell: its rendering, normalized.
pub open spec fn spec_cell_key(c: Cell) -> Seq<char> {
    norm_key(spec_render(c))
}

/// Computes the header comparison key of a cell.
pub fn cell_key(c: &Cell) -> (r: String)
    ensures
        r@ == spec_cell_key(*c),
{
    let t = render(c);
    normalize(t.as_str())
}

} // verus!
