use sheet_extract::cells::{Cell, Value};
use sheet_extract::extract::{extract_row, extract_rows, Entry};
use sheet_extract::grid::Grid;
use sheet_extract::headers::{resolve, FieldRequest};
use sheet_extract::text::normalize;

fn txt(s: &str) -> Cell {
    Cell::Text(s.to_string())
}

fn num(f: f64) -> Cell {
    Cell::Number { bits: f.to_bits(), text: f.to_string() }
}

fn req(source: &str, key: &str) -> FieldRequest {
    FieldRequest { source_header: source.to_string(), output_key: key.to_string() }
}

fn grid(rows: Vec<Vec<Cell>>) -> Grid {
    Grid::new(rows).expect("a grid needs at least a header row")
}

fn get<'a>(rec: &'a [Entry], key: &str) -> Option<&'a Value> {
    rec.iter().find(|e| e.key == key).map(|e| &e.value)
}

fn keys(rec: &[Entry]) -> Vec<String> {
    rec.iter().map(|e| e.key.clone()).collect()
}

#[test]
fn normalize_uppercases_and_trims() {
    assert_eq!(normalize("  aBc "), "ABC");
    assert_eq!(normalize(""), "");
    assert_eq!(normalize(" \t "), "");
}

#[test]
fn header_match_is_case_and_whitespace_insensitive() {
    let g = grid(vec![vec![txt("  Name ")], vec![txt("v")]]);
    let recs = g.extract(&vec![req("name", "n")]).expect("lowercase request must match");
    assert_eq!(get(&recs[0], "n"), Some(&Value::Text("v".to_string())));

    let recs = g.extract(&vec![req("NAME", "n")]).expect("uppercase request must match");
    assert_eq!(get(&recs[0], "n"), Some(&Value::Text("v".to_string())));

    let g2 = grid(vec![vec![txt("NAME")], vec![txt("w")]]);
    let recs = g2.extract(&vec![req("name", "n")]).expect("case must not matter");
    assert_eq!(get(&recs[0], "n"), Some(&Value::Text("w".to_string())));
}

#[test]
fn header_match_follows_unicode_case_folding() {
    let g = grid(vec![vec![txt("straße")], vec![txt("x")]]);
    let recs = g.extract(&vec![req("STRASSE", "s")]).expect("uppercasing is Unicode-aware");
    assert_eq!(get(&recs[0], "s"), Some(&Value::Text("x".to_string())));
}

#[test]
fn duplicate_headers_resolve_to_last_occurrence() {
    let g = grid(vec![vec![txt("A"), txt("A")], vec![txt("left"), txt("right")]]);
    let recs = g.extract(&vec![req("a", "a")]).expect("header exists");
    assert_eq!(recs.len(), 1);
    assert_eq!(get(&recs[0], "a"), Some(&Value::Text("right".to_string())));
}

#[test]
fn missing_header_fails_whole_call() {
    let g = grid(vec![vec![txt("Name")], vec![txt("Ann")], vec![txt("Bob")]]);
    let err = g
        .extract(&vec![req("Name", "name"), req("Bogus", "x")])
        .expect_err("one missing header must fail the whole call");
    assert_eq!(err.source_header, "Bogus");
}

#[test]
fn missing_header_reports_first_unresolved_request() {
    let g = grid(vec![vec![txt("A")], vec![txt("v")]]);
    let err = g
        .extract(&vec![req("Nope", "n"), req("AlsoNope", "m")])
        .expect_err("no request resolves");
    assert_eq!(err.source_header, "Nope");
}

#[test]
fn empty_text_cell_omits_key() {
    let g = grid(vec![vec![txt("A"), txt("B")], vec![txt(""), txt("v")]]);
    let recs = g.extract(&vec![req("A", "a"), req("B", "b")]).expect("headers exist");
    assert_eq!(recs.len(), 1);
    assert!(get(&recs[0], "a").is_none(), "empty cell must omit the key, not emit null");
    assert_eq!(get(&recs[0], "b"), Some(&Value::Text("v".to_string())));
    assert_eq!(recs[0].len(), 1);
}

#[test]
fn whitespace_only_cell_omits_key() {
    let g = grid(vec![vec![txt("A")], vec![txt("   ")]]);
    let recs = g.extract(&vec![req("A", "a")]).expect("header exists");
    assert!(recs[0].is_empty());
}

#[test]
fn empty_and_unsupported_cells_omit_key() {
    let g = grid(vec![
        vec![txt("A"), txt("B")],
        vec![Cell::Empty, Cell::Unsupported],
    ]);
    let recs = g.extract(&vec![req("A", "a"), req("B", "b")]).expect("headers exist");
    assert!(recs[0].is_empty());
}

#[test]
fn output_preserves_row_order() {
    let g = grid(vec![
        vec![txt("K")],
        vec![txt("r1")],
        vec![txt("r2")],
        vec![txt("r3")],
    ]);
    assert_eq!(g.data_len(), 3);
    let recs = g.extract(&vec![req("K", "k")]).expect("header exists");
    assert_eq!(recs.len(), 3);
    assert_eq!(get(&recs[0], "k"), Some(&Value::Text("r1".to_string())));
    assert_eq!(get(&recs[1], "k"), Some(&Value::Text("r2".to_string())));
    assert_eq!(get(&recs[2], "k"), Some(&Value::Text("r3".to_string())));
}

#[test]
fn request_order_wins_over_column_order() {
    let g = grid(vec![vec![txt("A"), txt("B")], vec![txt("x"), txt("y")]]);
    let recs = g.extract(&vec![req("B", "b"), req("A", "a")]).expect("headers exist");
    assert_eq!(recs.len(), 1);
    assert_eq!(get(&recs[0], "a"), Some(&Value::Text("x".to_string())));
    assert_eq!(get(&recs[0], "b"), Some(&Value::Text("y".to_string())));
    assert_eq!(keys(&recs[0]), vec!["b".to_string(), "a".to_string()]);
}

#[test]
fn end_to_end_record_shape() {
    let g = grid(vec![
        vec![txt("Name"), txt("Age"), txt("Active")],
        vec![txt("Ann"), Cell::Integer(30), Cell::Boolean(true)],
    ]);
    let recs = g
        .extract(&vec![req("name", "n"), req("active", "isActive")])
        .expect("headers exist");
    assert_eq!(recs.len(), 1);
    assert_eq!(
        recs[0],
        vec![
            Entry { key: "n".to_string(), value: Value::Text("Ann".to_string()) },
            Entry { key: "isActive".to_string(), value: Value::Boolean(true) },
        ]
    );
}

#[test]
fn sparse_trailing_row_omits_unreached_columns() {
    let g = grid(vec![vec![txt("A"), txt("B"), txt("C")], vec![txt("x")]]);
    let recs = g.extract(&vec![req("A", "a"), req("C", "c")]).expect("headers exist");
    assert_eq!(recs.len(), 1);
    assert_eq!(get(&recs[0], "a"), Some(&Value::Text("x".to_string())));
    assert!(get(&recs[0], "c").is_none());
    assert_eq!(recs[0].len(), 1);
}

#[test]
fn integer_header_renders_in_decimal() {
    let g = grid(vec![
        vec![Cell::Integer(-7), Cell::Integer(42)],
        vec![txt("neg"), txt("pos")],
    ]);
    let recs = g.extract(&vec![req("-7", "n"), req(" 42 ", "p")]).expect("rendered headers match");
    assert_eq!(get(&recs[0], "n"), Some(&Value::Text("neg".to_string())));
    assert_eq!(get(&recs[0], "p"), Some(&Value::Text("pos".to_string())));
}

#[test]
fn boolean_header_renders_as_true_false() {
    let g = grid(vec![vec![Cell::Boolean(true), Cell::Boolean(false)], vec![txt("t"), txt("f")]]);
    let recs = g.extract(&vec![req("true", "t"), req("FALSE", "f")]).expect("rendered headers match");
    assert_eq!(get(&recs[0], "t"), Some(&Value::Text("t".to_string())));
    assert_eq!(get(&recs[0], "f"), Some(&Value::Text("f".to_string())));
}

#[test]
fn number_header_matches_its_rendering() {
    let g = grid(vec![vec![num(3.5)], vec![txt("v")]]);
    let recs = g.extract(&vec![req("3.5", "x")]).expect("rendered header matches");
    assert_eq!(get(&recs[0], "x"), Some(&Value::Text("v".to_string())));
}

#[test]
fn number_value_passes_bits_through() {
    let g = grid(vec![vec![txt("N")], vec![num(2.5)]]);
    let recs = g.extract(&vec![req("N", "n")]).expect("header exists");
    assert_eq!(get(&recs[0], "n"), Some(&Value::Number(2.5f64.to_bits())));
}

#[test]
fn integer_and_boolean_values_pass_through() {
    let g = grid(vec![
        vec![txt("I"), txt("B")],
        vec![Cell::Integer(-123), Cell::Boolean(false)],
    ]);
    let recs = g.extract(&vec![req("I", "i"), req("B", "b")]).expect("headers exist");
    assert_eq!(get(&recs[0], "i"), Some(&Value::Integer(-123)));
    assert_eq!(get(&recs[0], "b"), Some(&Value::Boolean(false)));
}

#[test]
fn text_values_are_trimmed() {
    let g = grid(vec![vec![txt("A")], vec![txt("  pad  ")]]);
    let recs = g.extract(&vec![req("A", "a")]).expect("header exists");
    assert_eq!(get(&recs[0], "a"), Some(&Value::Text("pad".to_string())));
}

#[test]
fn no_requests_yield_empty_records() {
    let g = grid(vec![vec![txt("A")], vec![txt("x")], vec![txt("y")]]);
    let recs = g.extract(&vec![]).expect("nothing to resolve");
    assert_eq!(recs.len(), 2);
    assert!(recs[0].is_empty());
    assert!(recs[1].is_empty());
}

#[test]
fn header_only_grid_yields_no_records() {
    let g = grid(vec![vec![txt("A")]]);
    assert_eq!(g.data_len(), 0);
    let recs = g.extract(&vec![req("A", "a")]).expect("header exists");
    assert!(recs.is_empty());
}

#[test]
fn grid_requires_a_header_row() {
    assert!(Grid::new(vec![]).is_none());
    assert!(Grid::new(vec![vec![]]).is_some());
}

#[test]
fn resolve_and_extract_rows_compose() {
    let header = vec![txt("A"), txt("B")];
    let plan = match resolve(&header, &vec![req("b", "bee"), req("a", "ay")]) {
        Ok(p) => p,
        Err(e) => panic!("headers exist: missing {}", e.source_header),
    };
    let data = vec![
        vec![txt("1"), txt("2")],
        vec![txt("3"), txt("4")],
    ];
    let recs = extract_rows(&data, &plan);
    assert_eq!(recs.len(), 2);
    assert_eq!(get(&recs[0], "ay"), Some(&Value::Text("1".to_string())));
    assert_eq!(get(&recs[0], "bee"), Some(&Value::Text("2".to_string())));
    assert_eq!(get(&recs[1], "ay"), Some(&Value::Text("3".to_string())));
    assert_eq!(get(&recs[1], "bee"), Some(&Value::Text("4".to_string())));

    let one = extract_row(&data[0], &plan);
    assert_eq!(keys(&one), vec!["bee".to_string(), "ay".to_string()]);
}

#[test]
fn resolve_fails_on_empty_header_row() {
    let header: Vec<Cell> = vec![];
    let err = match resolve(&header, &vec![req("A", "a")]) {
        Ok(_) => panic!("nothing to match"),
        Err(e) => e,
    };
    assert_eq!(err.source_header, "A");
}

#[test]
fn two_requests_for_same_column_both_fill() {
    let g = grid(vec![vec![txt("A")], vec![txt("v")]]);
    let recs = g.extract(&vec![req("A", "first"), req(" a ", "second")]).expect("both resolve");
    assert_eq!(get(&recs[0], "first"), Some(&Value::Text("v".to_string())));
    assert_eq!(get(&recs[0], "second"), Some(&Value::Text("v".to_string())));
    assert_eq!(recs[0].len(), 2);
}
