use keyboard_recorder::clt::QueryArgs;
use keyboard_recorder::commands::query::{column_widths, divider, entry, header, print_records, run};
use keyboard_recorder::db::{open_database, KeyRecord};

fn record(keys: &str, single: bool, press_times: isize) -> KeyRecord {
    KeyRecord { keys: keys.to_string(), single, press_times }
}

#[test]
fn report_of_no_records() {
    assert_eq!(print_records(&Vec::new()), vec!["No key records found.".to_string()]);
}

#[test]
fn report_of_short_records() {
    let records = vec![record("A", true, 5), record("B", false, 5), record("C", true, 3)];
    let lines = print_records(&records);
    assert_eq!(
        lines,
        vec![
            "+------+--------+-------+".to_string(),
            "| Keys |  Type  | Count |".to_string(),
            "+------+--------+-------+".to_string(),
            "| A    | Single |     5 |".to_string(),
            "| B    | Combo  |     5 |".to_string(),
            "| C    | Single |     3 |".to_string(),
            "+------+--------+-------+".to_string(),
        ]
    );
}

#[test]
fn report_of_wide_records() {
    let records = vec![record("A+LControl+LShift", false, 1234567), record("Space", true, 12)];
    let lines = print_records(&records);
    assert_eq!(
        lines,
        vec![
            "+-------------------+--------+---------+".to_string(),
            "|       Keys        |  Type  |  Count  |".to_string(),
            "+-------------------+--------+---------+".to_string(),
            "| A+LControl+LShift | Combo  | 1234567 |".to_string(),
            "| Space             | Single |      12 |".to_string(),
            "+-------------------+--------+---------+".to_string(),
        ]
    );
}

#[test]
fn report_lines_are_those_of_the_formatter() {
    let records = vec![
        record("é+日本", false, -40),
        record("Numpad0", true, 1),
        record("A+B", false, 100000),
    ];
    let kw = records.iter().map(|r| r.keys.len()).max().unwrap().max(4);
    let cw = records.iter().map(|r| r.press_times.to_string().len()).max().unwrap().max(5);
    assert_eq!(column_widths(&records), (kw, cw));
    assert_eq!(
        divider(kw, cw),
        format!("+-{}-+-{}-+-{}-+", "-".repeat(kw), "-".repeat(6), "-".repeat(cw))
    );
    assert_eq!(
        header(kw, cw),
        format!("| {:^kw$} | {:^6} | {:^cw$} |", "Keys", "Type", "Count", kw = kw, cw = cw)
    );
    for r in &records {
        assert_eq!(
            entry(r, kw, cw),
            format!(
                "| {:<kw$} | {:^6} | {:>cw$} |",
                r.keys,
                if r.single { "Single" } else { "Combo" },
                r.press_times,
                kw = kw,
                cw = cw
            )
        );
    }
}

#[test]
fn column_widths_have_floors() {
    assert_eq!(column_widths(&Vec::new()), (4, 5));
    assert_eq!(column_widths(&vec![record("A", true, 1)]), (4, 5));
    assert_eq!(column_widths(&vec![record("ABCDE", true, 123456)]), (5, 6));
}

#[test]
fn query_command_writes_the_report() {
    let path = "/tmp/keyboard_recorder_query_report.db";
    let conn = open_database(path).unwrap();
    conn.execute("DELETE FROM keyboard", ()).unwrap();
    assert_eq!(
        run(QueryArgs::default(), path, true).unwrap(),
        vec!["No key records found.".to_string()]
    );
    for (keys, single, count) in [("C", true, 3i64), ("B+D", false, 5), ("A", true, 5)] {
        conn.execute(
            "INSERT INTO keyboard (keys, single, press_times) VALUES (?1, ?2, ?3)",
            (keys, single, count),
        )
        .unwrap();
    }
    assert_eq!(
        run(QueryArgs::default(), path, true).unwrap(),
        vec![
            "+------+--------+-------+".to_string(),
            "| Keys |  Type  | Count |".to_string(),
            "+------+--------+-------+".to_string(),
            "| A    | Single |     5 |".to_string(),
            "| B+D  | Combo  |     5 |".to_string(),
            "| C    | Single |     3 |".to_string(),
            "+------+--------+-------+".to_string(),
        ]
    );
    let singles = run(QueryArgs { single_only: true, combo_only: false }, path, true).unwrap();
    assert_eq!(singles.len(), 6);
    assert_eq!(singles[3], "| A    | Single |     5 |");
    assert_eq!(singles[4], "| C    | Single |     3 |");
    let combos = run(QueryArgs { single_only: false, combo_only: true }, path, true).unwrap();
    assert_eq!(combos.len(), 5);
    assert_eq!(combos[3], "| B+D  | Combo  |     5 |");
    assert_eq!(
        run(QueryArgs::default(), path, false).unwrap(),
        vec!["No key records found.".to_string()]
    );
}

#[test]
fn filter_of_the_query_arguments() {
    assert_eq!(QueryArgs::default().filter(), None);
    assert_eq!(QueryArgs { single_only: true, combo_only: false }.filter(), Some(true));
    assert_eq!(QueryArgs { single_only: false, combo_only: true }.filter(), Some(false));
    assert_eq!(QueryArgs { single_only: true, combo_only: true }.filter(), Some(true));
}
