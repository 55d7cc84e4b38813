use avis_imgv::db::{is_float_literal, Db, DbUtilities, SqlOperator, SqlOrder};

#[test]
fn float_literals_as_std_reads_them() {
    for s in ["1", "-2.5", "+.5", "1.", "1e5", "2.5E-3", "inf", "-Infinity", "NaN"] {
        assert!(is_float_literal(s), "{s}");
        assert!(s.parse::<f64>().is_ok());
    }
    for s in ["", ".", "e5", "1e", "abc", " 1", "1.2.3", "--1"] {
        assert!(!is_float_literal(s), "{s}");
        assert!(s.parse::<f64>().is_err());
    }
}

#[test]
fn where_clause_numeric_and_text() {
    let w = |v: &str, op: SqlOperator| {
        let (sql, p) = DbUtilities::where_clause_from_str_and_operator(v, &op);
        (sql, p)
    };
    assert_eq!(w("5.6", SqlOperator::Eq), ("+0 = (? + 0)".to_string(), "5.6".to_string()));
    assert_eq!(w("Canon", SqlOperator::Eq), ("= ?".to_string(), "Canon".to_string()));
    assert_eq!(w("Canon", SqlOperator::Like), ("like ?".to_string(), "%Canon%".to_string()));
    assert_eq!(w("100", SqlOperator::EqBiggerThan), ("+0 >= (? + 0)".to_string(), "100".to_string()));
    assert_eq!(w("x", SqlOperator::Different), ("<> ?".to_string(), "x".to_string()));
}

#[test]
fn quoted_list_of_paths() {
    assert_eq!(
        DbUtilities::arr_param_from(&["a".to_string(), "b".to_string()]),
        "\"a\", \"b\""
    );
    assert_eq!(DbUtilities::arr_param_from(&[]), "\"\"");
}

#[test]
fn filter_query_skips_empty_values_and_orders() {
    let tags = vec![
        ("ISO".to_string(), "100".to_string(), SqlOperator::BiggerThan),
        ("Lens".to_string(), "".to_string(), SqlOperator::Eq),
        ("Make".to_string(), "Fuji".to_string(), SqlOperator::Like),
    ];
    let q = Db::filter_query(&tags, "Date/Time Original", &SqlOrder::Desc);
    assert_eq!(
        q.sql,
        "SELECT distinct(path) FROM file WHERE json_extract(metadata, ?) +0 > (? + 0) AND json_extract(metadata, ?) like ? ORDER BY json_extract(metadata, ?) DESC"
    );
    assert_eq!(q.params, vec!["$.ISO", "100", "$.Make", "%Fuji%", "$.Date/Time Original"]);
    let q = Db::filter_query(&tags[..1].to_vec(), "", &SqlOrder::Asc);
    assert_eq!(q.sql, "SELECT distinct(path) FROM file WHERE json_extract(metadata, ?) +0 > (? + 0)");
    assert_eq!(q.params, vec!["$.ISO", "100"]);
}

#[test]
fn existence_queries_in_chunks_of_five_hundred() {
    let paths: Vec<String> = (0..1001).map(|i| format!("img{i}")).collect();
    let qs = Db::existence_queries(&paths);
    assert_eq!(qs.len(), 3);
    assert!(qs[0].sql.starts_with("SELECT path FROM file where path in (?, ?, "));
    assert_eq!(qs[0].params.len(), 500);
    assert_eq!(qs[0].params[1], "img1");
    assert_eq!(qs[2].sql, "SELECT path FROM file where path in (?)");
    assert_eq!(qs[2].params, vec!["img1000"]);
    assert!(Db::existence_queries(&vec![]).is_empty());
}

#[test]
fn parameters_keep_quotes_out_of_the_text() {
    let tags = vec![("Make".to_string(), "O'Brien".to_string(), SqlOperator::Eq)];
    let q = Db::filter_query(&tags, "", &SqlOrder::Asc);
    assert!(!q.sql.contains("O'Brien"));
    assert_eq!(q.params[1], "O'Brien");
}

#[test]
fn operator_and_order_lists() {
    assert_eq!(SqlOperator::list().len(), 7);
    assert_eq!(SqlOperator::list()[0], SqlOperator::Like);
    assert_eq!(SqlOperator::Like.label(), "In");
    assert_eq!(SqlOrder::list(), vec![SqlOrder::Asc, SqlOrder::Desc]);
    assert_eq!(SqlOrder::Desc.get_sql(), "DESC");
    assert_eq!(SqlOrder::Asc.label(), "Ascending");
}
