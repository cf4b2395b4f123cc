use html_bench::runner::Runner;

const DOC: &str = "<html><body>Hello <b>World</b></body></html>";

fn new_runner(doc: &str) -> Runner {
    Runner::new("out".to_string(), doc.to_string())
}

#[test]
fn run_appends_exactly_one_record() {
    let mut r = new_runner(DOC);
    r.run("identity", |s: &str| s.to_string());
    assert_eq!(r.stats.len(), 1);
    assert_eq!(r.stats[0].name, "identity");
    r.run("shrink", |_s: &str| "Hello World".to_string());
    assert_eq!(r.stats.len(), 2);
    assert_eq!(r.stats[1].name, "shrink");
}

#[test]
fn rerunning_a_name_appends_an_independent_record() {
    let mut r = new_runner(DOC);
    r.run("same", |s: &str| s.to_string());
    r.run("same", |s: &str| s.to_string());
    assert_eq!(r.stats.len(), 2);
    assert_eq!(r.stats[0].name, "same");
    assert_eq!(r.stats[1].name, "same");
}

#[test]
fn run_returns_the_strategy_output_for_persisting() {
    let mut r = new_runner("abc");
    let out = r.run("upper", |s: &str| s.to_uppercase());
    assert_eq!(out, "ABC");
    assert_eq!(r.output_path("upper"), "out/upper.txt");
}

#[test]
fn record_holds_deterministic_figures() {
    let mut r = new_runner(DOC);
    r.run("identity", |s: &str| s.to_string());
    let rec = &r.stats[0];
    assert_eq!(rec.output_size, DOC.len());
    assert!(rec.peak_memory >= DOC.len() as u64);
    assert_eq!(rec.leaked_last, 0);
    assert_eq!(rec.leaked_avg, 0);
}

#[test]
fn calculate_statistics_measures_one_trial() {
    let r = new_runner(DOC);
    let trial = r.calculate_statistics(&|s: &str| s.to_string());
    assert_eq!(trial.output_size, DOC.len());
    assert!(trial.peak_memory >= DOC.len() as u64);
    assert_eq!(trial.leaked, 0);
}

#[test]
fn report_rows_sorted_by_name() {
    let mut r = new_runner(DOC);
    r.run("zebra", |s: &str| s.to_string());
    r.run("alpha", |s: &str| s.to_string());
    r.run("middle", |s: &str| s.to_string());
    let rows = r.report_rows();
    assert_eq!(rows.len(), 3);
    assert_eq!(rows[0][0], "alpha");
    assert_eq!(rows[1][0], "middle");
    assert_eq!(rows[2][0], "zebra");
}

#[test]
fn report_rows_idempotent() {
    let mut r = new_runner(DOC);
    r.run("identity", |s: &str| s.to_string());
    r.run("shrink", |_s: &str| "Hello World".to_string());
    let first = r.report_rows();
    let second = r.report_rows();
    assert_eq!(first, second);
}

#[test]
fn end_to_end_report() {
    // The document is 44 bytes; "Hello World" is 11, so the shrinking
    // strategy reduces by 100 - 11/44*100 = 75.00%.
    assert_eq!(DOC.len(), 44);
    let mut r = new_runner(DOC);
    let identity_out = r.run("identity", |s: &str| s.to_string());
    let shrink_out = r.run("shrink", |_s: &str| "Hello World".to_string());
    assert_eq!(identity_out, DOC);
    assert_eq!(shrink_out, "Hello World");
    let rows = r.report_rows();
    assert_eq!(rows.len(), 2);
    let identity_row = &rows[0];
    let shrink_row = &rows[1];
    assert_eq!(identity_row[0], "identity");
    assert_eq!(identity_row[6], "44");
    assert_eq!(identity_row[7], "0.00%");
    assert_eq!(identity_row[8], "out/identity.txt");
    assert_eq!(shrink_row[0], "shrink");
    assert_eq!(shrink_row[6], "11");
    assert_eq!(shrink_row[7], "75.00%");
    assert_eq!(shrink_row[8], "out/shrink.txt");
}

#[test]
fn end_to_end_forty_five_byte_document() {
    // With a 45-byte document the shrink strategy's reduction is
    // 100 - 11/45*100 = 75.555...%, rendered as 75.56%.
    let doc = "<html><body>Hello <b>World</b></body></html>\n".to_string();
    assert_eq!(doc.len(), 45);
    let mut r = Runner::new("out".to_string(), doc.clone());
    r.run("identity", |s: &str| s.to_string());
    r.run("shrink", |_s: &str| "Hello World".to_string());
    let rows = r.report_rows();
    assert_eq!(rows[0][0], "identity");
    assert_eq!(rows[0][7], "0.00%");
    assert_eq!(rows[1][0], "shrink");
    assert_eq!(rows[1][7], "75.56%");
}

#[test]
fn expanding_strategy_gets_negative_reduction() {
    let mut r = new_runner("1234567890");
    r.run("expand", |s: &str| {
        let mut out = s.to_string();
        out.push_str(s);
        out.push_str("12345");
        out
    });
    let rows = r.report_rows();
    assert_eq!(rows[0][6], "25");
    assert_eq!(rows[0][7], "-150.00%");
}

#[test]
fn tiny_expansion_keeps_negative_sign() {
    // An expansion of one byte over a 20001-byte document is less than half
    // a hundredth of a percent: the magnitude rounds to zero but the cell
    // stays negative.
    let doc = "a".repeat(20001);
    let mut r = Runner::new("out".to_string(), doc);
    r.run("expand", |s: &str| {
        let mut out = s.to_string();
        out.push('b');
        out
    });
    let rows = r.report_rows();
    assert_eq!(rows[0][6], "20002");
    assert_eq!(rows[0][7], "-0.00%");
}

#[test]
fn table_holds_header_and_report_rows() {
    let mut r = new_runner(DOC);
    r.run("identity", |s: &str| s.to_string());
    r.run("shrink", |_s: &str| "Hello World".to_string());
    let expected_rows = r.report_rows();
    let table = r.into_table();
    let header: Vec<String> = table
        .header()
        .expect("table has a header")
        .cell_iter()
        .map(|c| c.content())
        .collect();
    assert_eq!(
        header,
        vec![
            "Name",
            "Time (microseconds)",
            "Peak Memory (bytes)",
            "Peak Memory as % of HTML Size",
            "Leaked Memory (bytes)",
            "Avg Leaked Memory (bytes)",
            "Output Size (bytes)",
            "% Reduction",
            "Output File",
        ]
    );
    assert_eq!(table.row_count(), 2);
    for (i, expected) in expected_rows.iter().enumerate() {
        let cells: Vec<String> = table
            .row(i)
            .expect("row exists")
            .cell_iter()
            .map(|c| c.content())
            .collect();
        assert_eq!(&cells, expected);
    }
}

#[test]
fn rendered_table_is_stable() {
    let mut r = new_runner(DOC);
    r.run("identity", |s: &str| s.to_string());
    let table = r.into_table();
    let first = table.to_string();
    let second = table.to_string();
    assert_eq!(first, second);
}
