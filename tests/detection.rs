use pg_no_seqscan::catalog::{Catalog, TableDescriptor, TableKind};
use pg_no_seqscan::config::{DetectionLevelEnum, FilterConfig};
use pg_no_seqscan::hooks::{NoSeqscanHooks, WalkError};
use pg_no_seqscan::plan::{scanned_table, CmdType, Plan, PlanKind, PlannedStmt, QueryDesc};
use pg_no_seqscan::report::report_message;

fn table(oid: u32, name: &str, schema: &str, kind: TableKind) -> TableDescriptor {
    TableDescriptor { oid, name: name.to_string(), schema: schema.to_string(), kind }
}

fn catalog() -> Catalog {
    Catalog {
        tables: vec![
            table(10, "foo", "public", TableKind::Ordinary),
            table(11, "bar", "public", TableKind::Ordinary),
            table(12, "foo_seq", "public", TableKind::Sequence),
            table(13, "measures", "public", TableKind::Ordinary),
            table(14, "measures_2024", "public", TableKind::Partition(13)),
            table(15, "measures_2025", "public", TableKind::Partition(13)),
            table(16, "audit", "private", TableKind::Ordinary),
            table(17, "loop_a", "public", TableKind::Partition(18)),
            table(18, "loop_b", "public", TableKind::Partition(17)),
        ],
    }
}

fn leaf(kind: PlanKind) -> Plan {
    Plan { kind, lefttree: None, righttree: None }
}

fn seq_scan(scanrelid: u32) -> Plan {
    leaf(PlanKind::SeqScan { scanrelid })
}

fn join(left: Plan, right: Plan) -> Plan {
    Plan { kind: PlanKind::Other, lefttree: Some(Box::new(left)), righttree: Some(Box::new(right)) }
}

fn select(text: &str, plan: Plan, rtable: Vec<u32>) -> QueryDesc {
    QueryDesc {
        operation: CmdType::Select,
        source_text: text.to_string(),
        explain_only: false,
        instrument_options: 0,
        plannedstmt: Some(PlannedStmt { plan_tree: Some(plan), subplans: vec![], rtable }),
    }
}

fn hooks(config: FilterConfig) -> NoSeqscanHooks {
    NoSeqscanHooks::new(config)
}

fn run(h: &mut NoSeqscanHooks, q: &QueryDesc) -> Result<Option<DetectionLevelEnum>, WalkError> {
    h.check_query_plan(q, &catalog(), "app", "alice")
}

#[test]
fn single_table_scan_fails_statement_at_error_level() {
    let mut h = hooks(FilterConfig::default());
    let q = select("select * from foo;", seq_scan(1), vec![10]);
    assert_eq!(run(&mut h, &q), Ok(Some(DetectionLevelEnum::Error)));
    assert_eq!(h.tables_in_seqscans, vec!["foo".to_string()]);
    let message = report_message(&h.sorted_tables(), &q.source_text, "Seq Scan on foo");
    assert!(message.contains("foo"));
    assert!(message.contains("select * from foo;"));
}

#[test]
fn join_of_two_tables_reports_both_at_warn_level() {
    let mut h = hooks(FilterConfig::with_level(DetectionLevelEnum::Warn));
    let q = select("select * from foo join bar using (id);", join(seq_scan(1), seq_scan(2)), vec![
        11,
        10,
    ]);
    assert_eq!(run(&mut h, &q), Ok(Some(DetectionLevelEnum::Warn)));
    assert_eq!(h.tables_in_seqscans, vec!["bar".to_string(), "foo".to_string()]);
    assert_eq!(h.sorted_tables(), vec!["bar".to_string(), "foo".to_string()]);
}

#[test]
fn self_join_records_table_once() {
    let mut h = hooks(FilterConfig::default());
    let q = select("select * from foo a join foo b using (id);", join(seq_scan(1), seq_scan(2)), vec![
        10,
        10,
    ]);
    assert_eq!(run(&mut h, &q), Ok(Some(DetectionLevelEnum::Error)));
    assert_eq!(h.tables_in_seqscans, vec!["foo".to_string()]);
}

#[test]
fn detection_off_records_nothing() {
    let mut h = hooks(FilterConfig::with_level(DetectionLevelEnum::Off));
    let q = select("select * from foo;", join(seq_scan(1), seq_scan(2)), vec![10, 11]);
    assert_eq!(run(&mut h, &q), Ok(None));
    assert!(h.tables_in_seqscans.is_empty());
}

#[test]
fn partitions_are_reported_under_their_root() {
    let mut h = hooks(FilterConfig::default());
    let append = leaf(PlanKind::Append { appendplans: vec![seq_scan(1), seq_scan(2)] });
    let q = select("select * from measures;", append, vec![14, 15]);
    assert_eq!(run(&mut h, &q), Ok(Some(DetectionLevelEnum::Error)));
    assert_eq!(h.tables_in_seqscans, vec!["measures".to_string()]);
}

#[test]
fn allow_list_overrides_ignore_list() {
    let config = FilterConfig::from_settings(DetectionLevelEnum::Error, "", "", "foo, bar", "foo", "");
    let mut h = hooks(config);
    let q = select("select * from foo;", seq_scan(1), vec![10]);
    assert_eq!(run(&mut h, &q), Ok(Some(DetectionLevelEnum::Error)));
    assert_eq!(h.tables_in_seqscans, vec!["foo".to_string()]);
}

#[test]
fn allow_list_leaves_out_other_tables() {
    let config = FilterConfig::from_settings(DetectionLevelEnum::Error, "", "", "bar", "", "");
    let mut h = hooks(config);
    let q = select("select * from foo;", seq_scan(1), vec![10]);
    assert_eq!(run(&mut h, &q), Ok(None));
    assert!(h.tables_in_seqscans.is_empty());
}

#[test]
fn ignore_list_without_allow_list() {
    let config = FilterConfig::from_settings(DetectionLevelEnum::Error, "", "", "", " foo ", "");
    let mut h = hooks(config);
    let q = select("select * from foo;", seq_scan(1), vec![10]);
    assert_eq!(run(&mut h, &q), Ok(None));
    assert!(h.tables_in_seqscans.is_empty());
    let q = select("select * from bar;", seq_scan(1), vec![11]);
    assert_eq!(run(&mut h, &q), Ok(Some(DetectionLevelEnum::Error)));
    assert_eq!(h.tables_in_seqscans, vec!["bar".to_string()]);
}

#[test]
fn skip_marker_suppresses_report_but_not_walk() {
    let mut h = hooks(FilterConfig::default());
    let q = select("select * from foo /* pg_no_seqscan_skip */;", seq_scan(1), vec![10]);
    assert_eq!(run(&mut h, &q), Ok(None));
    assert_eq!(h.tables_in_seqscans, vec!["foo".to_string()]);
}

#[test]
fn skip_marker_among_other_words() {
    let mut h = hooks(FilterConfig::default());
    let q = select("/* reason: batch job, pg_no_seqscan_skip please */ select * from foo;", seq_scan(
        1,
    ), vec![10]);
    assert_eq!(run(&mut h, &q), Ok(None));
}

#[test]
fn explain_requests_are_not_walked() {
    let mut h = hooks(FilterConfig::default());
    let mut q = select("explain select * from foo;", seq_scan(1), vec![10]);
    q.explain_only = true;
    assert_eq!(run(&mut h, &q), Ok(None));
    assert!(h.tables_in_seqscans.is_empty());
    q.explain_only = false;
    q.instrument_options = 1;
    assert_eq!(run(&mut h, &q), Ok(None));
    assert!(h.tables_in_seqscans.is_empty());
}

#[test]
fn sequence_scan_is_never_reported() {
    let config = FilterConfig::from_settings(DetectionLevelEnum::Error, "", "", "foo_seq", "", "");
    for mut h in [hooks(FilterConfig::default()), hooks(config)] {
        let q = select("select nextval('foo_seq');", seq_scan(1), vec![12]);
        assert_eq!(run(&mut h, &q), Ok(None));
        assert!(h.tables_in_seqscans.is_empty());
    }
}

#[test]
fn default_settings_check_public_schema_only() {
    let mut h = hooks(FilterConfig::default());
    let q = select("select * from private.audit;", seq_scan(1), vec![16]);
    assert_eq!(run(&mut h, &q), Ok(None));
    let mut h = hooks(FilterConfig::with_level(DetectionLevelEnum::Error));
    assert_eq!(run(&mut h, &q), Ok(Some(DetectionLevelEnum::Error)));
    assert_eq!(h.tables_in_seqscans, vec!["audit".to_string()]);
}

#[test]
fn database_allow_list() {
    let config = FilterConfig::from_settings(DetectionLevelEnum::Error, "other, app", "", "", "", "");
    let mut h = hooks(config);
    let q = select("select * from foo;", seq_scan(1), vec![10]);
    assert_eq!(run(&mut h, &q), Ok(Some(DetectionLevelEnum::Error)));
    let config = FilterConfig::from_settings(DetectionLevelEnum::Error, "other", "", "", "", "");
    let mut h = hooks(config);
    assert_eq!(run(&mut h, &q), Ok(None));
}

#[test]
fn ignored_user_is_not_walked() {
    let config = FilterConfig::from_settings(DetectionLevelEnum::Error, "", "", "", "", "bob,alice");
    let mut h = hooks(config);
    let q = select("select * from foo;", seq_scan(1), vec![10]);
    assert_eq!(run(&mut h, &q), Ok(None));
    assert!(h.tables_in_seqscans.is_empty());
}

#[test]
fn other_statement_kinds_are_not_walked() {
    let mut h = hooks(FilterConfig::default());
    let mut q = select("vacuum foo;", seq_scan(1), vec![10]);
    q.operation = CmdType::Other;
    assert_eq!(run(&mut h, &q), Ok(None));
    q.operation = CmdType::Delete;
    assert_eq!(run(&mut h, &q), Ok(Some(DetectionLevelEnum::Error)));
}

#[test]
fn findings_do_not_carry_over_between_statements() {
    let mut h = hooks(FilterConfig::default());
    let q = select("select * from foo;", seq_scan(1), vec![10]);
    assert_eq!(run(&mut h, &q), Ok(Some(DetectionLevelEnum::Error)));
    let q = select("select 1;", leaf(PlanKind::Other), vec![]);
    assert_eq!(run(&mut h, &q), Ok(None));
    assert!(h.tables_in_seqscans.is_empty());
}

#[test]
fn subquery_and_cte_plans_are_walked() {
    let mut h = hooks(FilterConfig::default());
    let inner = leaf(PlanKind::SubqueryScan { subplan: Box::new(seq_scan(2)) });
    let mut q = select("with m as (select * from bar) select * from (select * from foo) s;", inner, vec![
        11,
        10,
    ]);
    if let Some(ps) = q.plannedstmt.as_mut() {
        ps.subplans.push(seq_scan(1));
    }
    assert_eq!(run(&mut h, &q), Ok(Some(DetectionLevelEnum::Error)));
    assert_eq!(h.tables_in_seqscans, vec!["foo".to_string(), "bar".to_string()]);
}

#[test]
fn missing_range_table_entry_is_an_error() {
    let mut h = hooks(FilterConfig::default());
    let q = select("select * from foo;", seq_scan(3), vec![10]);
    assert_eq!(run(&mut h, &q), Err(WalkError::MissingRangeTableEntry(3)));
    let q = select("select * from foo;", seq_scan(0), vec![10]);
    assert_eq!(run(&mut h, &q), Err(WalkError::MissingRangeTableEntry(0)));
}

#[test]
fn unknown_table_is_an_error() {
    let mut h = hooks(FilterConfig::default());
    let q = select("select * from gone;", seq_scan(1), vec![99]);
    assert_eq!(run(&mut h, &q), Err(WalkError::UnknownTable(99)));
}

#[test]
fn cyclic_partition_chain_is_an_error() {
    let mut h = hooks(FilterConfig::default());
    let q = select("select * from loop_a;", join(seq_scan(2), seq_scan(1)), vec![17, 10]);
    assert_eq!(run(&mut h, &q), Err(WalkError::BrokenPartitionChain(17)));
    assert_eq!(h.tables_in_seqscans, vec!["foo".to_string()]);
}

#[test]
fn report_message_layout() {
    let tables = vec!["bar".to_string(), "foo".to_string()];
    let message = report_message(&tables, "select 1;", "Seq Scan on foo");
    assert_eq!(
        message,
        "A 'Sequential Scan' has been detected. Make sure the query is compatible with the existing indexes.\n  - Tables involved: bar\nfoo\n  - Query: select 1;\n  - Query plan:\n\n  Seq Scan on foo\n"
    );
}

#[test]
fn scanned_table_counts_from_one() {
    let rtable = vec![10, 0, 11];
    assert_eq!(scanned_table(1, &rtable), Some(10));
    assert_eq!(scanned_table(3, &rtable), Some(11));
    assert_eq!(scanned_table(0, &rtable), None);
    assert_eq!(scanned_table(4, &rtable), None);
}

#[test]
fn catalog_lookup_and_root() {
    let c = catalog();
    assert_eq!(c.find(11), Some(1));
    assert_eq!(c.find(99), None);
    assert_eq!(c.root_of(15), Some(3));
    assert_eq!(c.root_of(10), Some(0));
    assert_eq!(c.root_of(17), None);
    assert!(c.tables[2].is_sequence());
    assert!(!c.tables[0].is_sequence());
}

#[test]
fn walk_methods_accumulate_across_calls() {
    let mut h = hooks(FilterConfig::default());
    let c = catalog();
    let rtable = vec![10, 11, 12];
    assert_eq!(h.check_current_node(&seq_scan(3), &rtable, &c, "app"), Ok(()));
    assert!(h.tables_in_seqscans.is_empty());
    assert_eq!(h.check_plan_recursively(&join(seq_scan(1), seq_scan(1)), &rtable, &c, "app"), Ok(()));
    assert_eq!(h.check_plan_list(&vec![seq_scan(2), seq_scan(1)], &rtable, &c, "app"), Ok(()));
    assert_eq!(h.tables_in_seqscans, vec!["foo".to_string(), "bar".to_string()]);
    assert!(h.should_report(false));
    assert!(!h.should_report(true));
    let q = select("select * from bar /* pg_no_seqscan_skip */", seq_scan(2), rtable.clone());
    assert_eq!(h.check_query(&q, &c, "app"), Ok(false));
    let q = select("select * from bar", seq_scan(2), rtable);
    assert_eq!(h.check_query(&q, &c, "app"), Ok(true));
}
