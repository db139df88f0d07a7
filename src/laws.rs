//! Properties of detection that hold for every plan and every setting.

use vstd::prelude::*;
use crate::catalog::{lemma_root_index_bounds, root_index, table_index, TableDescriptor, TableKind};
use crate::config::{table_selected, DetectionLevelEnum, FilterView};
use crate::hooks::{
    add_name, fresh_state, scan_outcome, session_outcome, statement_context, visit_scan,
    statement_walk, visit_scans, ScanContext, WalkError, WalkState,
};
use crate::plan::{statement_scans, PlannedStmt, QueryDesc};

verus! {

/// With detection off, a statement records nothing and reports nothing,
/// whatever its plan.
pub proof fn lemma_off_records_nothing(
    cfg: FilterView,
    q: QueryDesc,
    tables: Seq<TableDescriptor>,
    db: Seq<char>,
    user: Seq<char>,
    skip: bool,
)
    requires
        cfg.level == DetectionLevelEnum::Off,
    ensures
        session_outcome(cfg, q, tables, db, user, skip) == (
            Seq::<Seq<char>>::empty(),
            Ok::<Option<DetectionLevelEnum>, WalkError>(None),
        ),
{
}

/// An explain request, with or without instrumentation, records nothing
/// and reports nothing, whatever its plan.
pub proof fn lemma_explain_records_nothing(
    cfg: FilterView,
    q: QueryDesc,
    tables: Seq<TableDescriptor>,
    db: Seq<char>,
    user: Seq<char>,
    skip: bool,
)
    requires
        q.explain_only || q.instrument_options != 0,
    ensures
        session_outcome(cfg, q, tables, db, user, skip) == (
            Seq::<Seq<char>>::empty(),
            Ok::<Option<DetectionLevelEnum>, WalkError>(None),
        ),
{
}

/// A query text with the skip marker never reports, and the walk still
/// records the same tables as without the marker.
pub proof fn lemma_skip_marker_suppresses_report(
    cfg: FilterView,
    q: QueryDesc,
    tables: Seq<TableDescriptor>,
    db: Seq<char>,
    user: Seq<char>,
)
    ensures
        session_outcome(cfg, q, tables, db, user, true).1 is Ok ==> session_outcome(
            cfg,
            q,
            tables,
            db,
            user,
            true,
        ).1 == Ok::<Option<DetectionLevelEnum>, WalkError>(None),
        session_outcome(cfg, q, tables, db, user, true).0 == session_outcome(
            cfg,
            q,
            tables,
            db,
            user,
            false,
        ).0,
{
}

/// When the table allow list holds `name`, a scan reported under `name`
/// is kept, whatever the ignore list holds.
pub proof fn lemma_allow_list_overrides_ignore_list(cfg: FilterView, name: Seq<char>)
    requires
        cfg.check_tables.contains(name),
    ensures
        table_selected(cfg, name),
{
}

/// With an empty table allow list and the ignore list `[x]`, a scan
/// reported under `x` is dropped and one under any other name is kept.
pub proof fn lemma_ignore_list_without_allow_list(cfg: FilterView, x: Seq<char>, y: Seq<char>)
    requires
        cfg.check_tables.len() == 0,
        cfg.ignore_tables == seq![x],
        y != x,
    ensures
        !table_selected(cfg, x),
        table_selected(cfg, y),
{
    assert(seq![x][0] == x);
    if seq![x].contains(y) {
        let k = choose|k: int| 0 <= k < seq![x].len() && seq![x][k] == y;
        assert(k == 0);
    }
}

/// The table that range table position `scanrelid` resolves to, if any.
pub open spec fn scanned_descriptor(ctx: ScanContext, scanrelid: u32) -> Option<TableDescriptor> {
    if scanrelid == 0 || scanrelid > ctx.rtable.len() {
        None
    } else {
        match table_index(ctx.tables, ctx.rtable[scanrelid - 1]) {
            Some(i) => Some(ctx.tables[i]),
            None => None,
        }
    }
}

/// Whether range table position `scanrelid` resolves to a sequence.
pub open spec fn reads_sequence(ctx: ScanContext, scanrelid: u32) -> bool {
    scanned_descriptor(ctx, scanrelid) matches Some(t) && t.kind == TableKind::Sequence
}

/// A scan of a sequence is never reported, whatever the settings.
pub proof fn lemma_sequence_scan_not_reported(ctx: ScanContext, scanrelid: u32)
    requires
        reads_sequence(ctx, scanrelid),
    ensures
        scan_outcome(ctx, scanrelid) == Ok::<Option<Seq<char>>, WalkError>(None),
{
}

/// A statement whose every scan reads a sequence records nothing and
/// reports nothing, whatever the settings.
pub proof fn lemma_sequence_statement_not_reported(
    cfg: FilterView,
    q: QueryDesc,
    tables: Seq<TableDescriptor>,
    db: Seq<char>,
    user: Seq<char>,
    skip: bool,
)
    requires
        q.plannedstmt matches Some(ps) ==> forall|k: int|
            0 <= k < statement_scans(ps).len() ==> reads_sequence(
                statement_context(cfg, tables, ps, db),
                #[trigger] statement_scans(ps)[k],
            ),
    ensures
        session_outcome(cfg, q, tables, db, user, skip) == (
            Seq::<Seq<char>>::empty(),
            Ok::<Option<DetectionLevelEnum>, WalkError>(None),
        ),
{
    if let Some(ps) = q.plannedstmt {
        let ctx = statement_context(cfg, tables, ps, db);
        lemma_all_skipped_keeps_state(fresh_state(), ctx, statement_scans(ps));
    }
}

proof fn lemma_all_skipped_keeps_state(st: WalkState, ctx: ScanContext, scans: Seq<u32>)
    requires
        forall|k: int|
            0 <= k < scans.len() ==> reads_sequence(ctx, #[trigger] scans[k]),
    ensures
        visit_scans(st, ctx, scans) == st,
    decreases scans.len(),
{
    if scans.len() > 0 {
        let init = scans.drop_last();
        assert forall|k: int| 0 <= k < init.len() implies reads_sequence(
            ctx,
            #[trigger] init[k],
        ) by {
            assert(init[k] == scans[k]);
        }
        lemma_all_skipped_keeps_state(st, ctx, init);
        lemma_sequence_scan_not_reported(ctx, scans[scans.len() - 1]);
    }
}

/// A reported scan is reported under the name of the root of its
/// partition chain, a table that is no partition: a scan of a partition is
/// never reported under the partition's own name.
pub proof fn lemma_partition_reported_as_root(ctx: ScanContext, scanrelid: u32)
    requires
        scan_outcome(ctx, scanrelid) is Ok,
        scan_outcome(ctx, scanrelid)->Ok_0 is Some,
    ensures
        root_index(ctx.tables, ctx.rtable[scanrelid - 1], ctx.tables.len()) matches Some(j) && 0
            <= j < ctx.tables.len() && !(ctx.tables[j].kind is Partition) && scan_outcome(
            ctx,
            scanrelid,
        )->Ok_0->Some_0 == ctx.tables[j].name@,
{
    lemma_root_index_bounds(ctx.tables, ctx.rtable[scanrelid - 1], ctx.tables.len());
}

/// Two scans reported under one name (two partitions of one root, or one
/// table scanned twice) give a single entry.
pub proof fn lemma_same_name_recorded_once(ctx: ScanContext, s1: u32, s2: u32, name: Seq<char>)
    requires
        scan_outcome(ctx, s1) == Ok::<Option<Seq<char>>, WalkError>(Some(name)),
        scan_outcome(ctx, s2) == Ok::<Option<Seq<char>>, WalkError>(Some(name)),
    ensures
        visit_scans(fresh_state(), ctx, seq![s1, s2]) == (WalkState {
            names: seq![name],
            error: None,
        }),
{
    let st = fresh_state();
    assert(seq![s1, s2].drop_last() =~= seq![s1]);
    assert(seq![s1].drop_last() =~= Seq::<u32>::empty());
    assert(visit_scans(st, ctx, Seq::empty()) == st);
    assert(Seq::<Seq<char>>::empty().push(name) =~= seq![name]);
    assert(!Seq::<Seq<char>>::empty().contains(name));
    assert(seq![name][0] == name);
    assert(seq![name].contains(name));
    let st1 = WalkState { names: seq![name], error: None };
    assert(visit_scan(st, ctx, s1) == st1);
    assert(visit_scans(st, ctx, seq![s1]) == st1);
    assert(visit_scan(st1, ctx, s2) == st1);
}

/// Whether some scan of `scans` is reported under `n`.
pub open spec fn reported_by_some_scan(ctx: ScanContext, scans: Seq<u32>, n: Seq<char>) -> bool {
    exists|k: int|
        0 <= k < scans.len() && scan_outcome(ctx, #[trigger] scans[k])
            == Ok::<Option<Seq<char>>, WalkError>(Some(n))
}

/// Each name is recorded at most once; when the walk completes, a name is
/// recorded exactly when it was recorded before or some visited scan is
/// reported under it.
pub proof fn lemma_walk_records_each_name_once(st: WalkState, ctx: ScanContext, scans: Seq<u32>)
    requires
        st.names.no_duplicates(),
    ensures
        visit_scans(st, ctx, scans).names.no_duplicates(),
        visit_scans(st, ctx, scans).error is None ==> forall|n: Seq<char>|
            #[trigger] visit_scans(st, ctx, scans).names.contains(n) <==> (st.names.contains(n)
                || reported_by_some_scan(ctx, scans, n)),
    decreases scans.len(),
{
    if scans.len() > 0 {
        let init = scans.drop_last();
        let last = scans.last();
        lemma_walk_records_each_name_once(st, ctx, init);
        let mid = visit_scans(st, ctx, init);
        let fin = visit_scan(mid, ctx, last);
        assert(fin == visit_scans(st, ctx, scans));
        if mid.error is None {
            if let Ok(Some(n)) = scan_outcome(ctx, last) {
                if !mid.names.contains(n) {
                    assert forall|i: int, j: int|
                        0 <= i < fin.names.len() && 0 <= j < fin.names.len() && i != j implies
                        fin.names[i] != fin.names[j] by {
                        if i == mid.names.len() as int {
                            assert(fin.names[j] == mid.names[j]);
                        } else if j == mid.names.len() as int {
                            assert(fin.names[i] == mid.names[i]);
                        }
                    }
                }
                assert(add_name(mid.names, n) == fin.names);
            }
        }
        if fin.error is None {
            assert(mid.error is None);
            assert forall|n: Seq<char>| #[trigger]
                fin.names.contains(n) <==> (st.names.contains(n) || reported_by_some_scan(
                    ctx,
                    scans,
                    n,
                )) by {
                if reported_by_some_scan(ctx, init, n) {
                    let k = choose|k: int|
                        0 <= k < init.len() && scan_outcome(ctx, #[trigger] init[k])
                            == Ok::<Option<Seq<char>>, WalkError>(Some(n));
                    assert(scans[k] == init[k]);
                }
                if reported_by_some_scan(ctx, scans, n) {
                    let k = choose|k: int|
                        0 <= k < scans.len() && scan_outcome(ctx, #[trigger] scans[k])
                            == Ok::<Option<Seq<char>>, WalkError>(Some(n));
                    if k < init.len() {
                        assert(init[k] == scans[k]);
                    }
                }
                match scan_outcome(ctx, last) {
                    Ok(Some(m)) => {
                        if m == n {
                            assert(fin.names.contains(n)) by {
                                if !mid.names.contains(n) {
                                    assert(fin.names[mid.names.len() as int] == n);
                                }
                            }
                            assert(scans[scans.len() - 1] == last);
                        } else {
                            if fin.names.contains(n) && !mid.names.contains(n) {
                                let i = choose|i: int| 0 <= i < fin.names.len() && fin.names[i] == n;
                                assert(i < mid.names.len());
                            }
                            if mid.names.contains(n) {
                                let i = choose|i: int| 0 <= i < mid.names.len() && mid.names[i] == n;
                                assert(fin.names[i] == n);
                            }
                        }
                    },
                    _ => {},
                }
            }
        }
    }
}

/// Each table appears at most once among a statement's findings, however
/// often the plan scans it; when the walk completes, a name is among them
/// exactly when some scan of the statement is reported under it.
pub proof fn lemma_statement_records_each_table_once(
    cfg: FilterView,
    tables: Seq<TableDescriptor>,
    ps: PlannedStmt,
    db: Seq<char>,
)
    ensures
        statement_walk(cfg, tables, ps, db).names.no_duplicates(),
        statement_walk(cfg, tables, ps, db).error is None ==> forall|n: Seq<char>|
            #[trigger] statement_walk(cfg, tables, ps, db).names.contains(n)
                <==> reported_by_some_scan(
                statement_context(cfg, tables, ps, db),
                statement_scans(ps),
                n,
            ),
{
    lemma_walk_records_each_name_once(
        fresh_state(),
        statement_context(cfg, tables, ps, db),
        statement_scans(ps),
    );
}

} // verus!
