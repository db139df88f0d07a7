//! The plan walker and the per-statement session.

use vstd::prelude::*;
use crate::catalog::{
    lemma_root_index_bounds, lemma_table_index_bounds, root_index, table_index, Catalog,
    TableDescriptor, TableKind,
};
use crate::config::{
    allowed_by, database_checked, schema_checked, table_selected, user_ignored,
    DetectionLevelEnum, FilterConfig, FilterView,
};
use crate::plan::{
    inner_scans, main_scans, own_scans, plan_list_scans, plan_scans, scanned_table,
    statement_scans, subtree_scans, CmdType, Plan, PlanKind, PlannedStmt, QueryDesc,
};
use crate::text::{
    contains_string, is_ignored_query_for_comment, regex_finds, skip_comment_pattern, views_of,
};

verus! {

/// Why a walk stopped: the plan refers to something the catalog cannot
/// resolve.
#[derive(Clone, Copy, PartialEq, Eq, Debug, Structural)]
pub enum WalkError {
    /// A scan names a range table position that does not exist.
    MissingRangeTableEntry(u32),
    /// A scanned table is not in the catalog.
    UnknownTable(u32),
    /// The partition chain of a scanned table is broken or cyclic.
    BrokenPartitionChain(u32),
}

/// What a walk reads: settings, catalog, range table and current database.
pub struct ScanContext {
    pub cfg: FilterView,
    pub tables: Seq<TableDescriptor>,
    pub rtable: Seq<u32>,
    pub db: Seq<char>,
}

/// The outcome of one sequential scan: the name it is reported under, or
/// `None` when it is filtered out, or the resolution error.
pub open spec fn scan_outcome(ctx: ScanContext, scanrelid: u32) -> Result<Option<Seq<char>>, WalkError> {
    if scanrelid == 0 || scanrelid > ctx.rtable.len() {
        Err(WalkError::MissingRangeTableEntry(scanrelid))
    } else {
        let oid = ctx.rtable[scanrelid - 1];
        match table_index(ctx.tables, oid) {
            None => Err(WalkError::UnknownTable(oid)),
            Some(i) => {
                let t = ctx.tables[i];
                if t.kind == TableKind::Sequence || !database_checked(ctx.cfg, ctx.db)
                    || !schema_checked(ctx.cfg, t.schema@) {
                    Ok(None)
                } else {
                    match root_index(ctx.tables, oid, ctx.tables.len()) {
                        None => Err(WalkError::BrokenPartitionChain(oid)),
                        Some(j) => {
                            let name = ctx.tables[j].name@;
                            if table_selected(ctx.cfg, name) {
                                Ok(Some(name))
                            } else {
                                Ok(None)
                            }
                        },
                    }
                }
            },
        }
    }
}

/// The state of a walk: the names found so far, in order of discovery, and
/// the error that stopped it, if any.
pub struct WalkState {
    pub names: Seq<Seq<char>>,
    pub error: Option<WalkError>,
}

/// The state at the start of a walk.
pub open spec fn fresh_state() -> WalkState {
    WalkState { names: Seq::empty(), error: None }
}

/// `names` with `n` added unless already there.
pub open spec fn add_name(names: Seq<Seq<char>>, n: Seq<char>) -> Seq<Seq<char>> {
    if names.contains(n) {
        names
    } else {
        names.push(n)
    }
}

/// The state after visiting one scan; a stopped walk stays as it is.
pub open spec fn visit_scan(st: WalkState, ctx: ScanContext, scanrelid: u32) -> WalkState {
    if st.error is Some {
        st
    } else {
        match scan_outcome(ctx, scanrelid) {
            Err(e) => WalkState { names: st.names, error: Some(e) },
            Ok(None) => st,
            Ok(Some(n)) => WalkState { names: add_name(st.names, n), error: None },
        }
    }
}

/// The state after visiting the scans `scans` in order.
pub open spec fn visit_scans(st: WalkState, ctx: ScanContext, scans: Seq<u32>) -> WalkState
    decreases scans.len(),
{
    if scans.len() == 0 {
        st
    } else {
        visit_scan(visit_scans(st, ctx, scans.drop_last()), ctx, scans.last())
    }
}

pub proof fn lemma_visit_scans_append(st: WalkState, ctx: ScanContext, a: Seq<u32>, b: Seq<u32>)
    ensures
        visit_scans(st, ctx, a + b) == visit_scans(visit_scans(st, ctx, a), ctx, b),
    decreases b.len(),
{
    if b.len() == 0 {
        assert(a + b =~= a);
    } else {
        assert((a + b).drop_last() =~= a + b.drop_last());
        lemma_visit_scans_append(st, ctx, a, b.drop_last());
    }
}

proof fn lemma_visit_scans_four(
    st: WalkState,
    ctx: ScanContext,
    a: Seq<u32>,
    b: Seq<u32>,
    c: Seq<u32>,
    d: Seq<u32>,
)
    ensures
        visit_scans(st, ctx, a + b + c + d) == visit_scans(
            visit_scans(visit_scans(visit_scans(st, ctx, a), ctx, b), ctx, c),
            ctx,
            d,
        ),
{
    lemma_visit_scans_append(st, ctx, a + b + c, d);
    lemma_visit_scans_append(st, ctx, a + b, c);
    lemma_visit_scans_append(st, ctx, a, b);
}

pub proof fn lemma_visit_scans_stopped(st: WalkState, ctx: ScanContext, scans: Seq<u32>)
    requires
        st.error is Some,
    ensures
        visit_scans(st, ctx, scans) == st,
    decreases scans.len(),
{
    if scans.len() > 0 {
        lemma_visit_scans_stopped(st, ctx, scans.drop_last());
    }
}

proof fn lemma_list_scans_split(ps: Seq<Plan>, k: int)
    requires
        0 <= k <= ps.len(),
    ensures
        plan_list_scans(ps) == plan_list_scans(ps.subrange(0, k)) + plan_list_scans(
            ps.subrange(k, ps.len() as int),
        ),
    decreases ps.len() - k,
{
    if k == ps.len() {
        assert(ps.subrange(0, k) =~= ps);
        assert(plan_list_scans(ps.subrange(k, ps.len() as int)) == Seq::<u32>::empty());
        assert(plan_list_scans(ps) + Seq::<u32>::empty() =~= plan_list_scans(ps));
    } else {
        lemma_list_scans_split(ps, k + 1);
        let a = ps.subrange(0, k + 1);
        let b = ps.subrange(k, ps.len() as int);
        assert(a.subrange(0, k) =~= ps.subrange(0, k));
        assert(a[k] == ps[k]);
        lemma_list_scans_prepend(b);
        assert(b.subrange(1, b.len() as int) =~= ps.subrange(k + 1, ps.len() as int));
        assert(b[0] == ps[k]);
        assert(plan_list_scans(ps.subrange(0, k)) + plan_scans(ps[k]) + plan_list_scans(
            ps.subrange(k + 1, ps.len() as int),
        ) =~= plan_list_scans(ps.subrange(0, k)) + (plan_scans(ps[k]) + plan_list_scans(
            ps.subrange(k + 1, ps.len() as int),
        )));
    }
}

proof fn lemma_list_scans_prepend(ps: Seq<Plan>)
    requires
        ps.len() > 0,
    ensures
        plan_list_scans(ps) == plan_scans(ps[0]) + plan_list_scans(ps.subrange(1, ps.len() as int)),
    decreases ps.len(),
{
    let n = ps.len() as int;
    if n == 1 {
        assert(ps.subrange(0, 0) =~= Seq::<Plan>::empty());
        assert(plan_list_scans(ps.subrange(0, 0)) == Seq::<u32>::empty());
        assert(plan_list_scans(ps.subrange(1, 1)) == Seq::<u32>::empty());
        assert(Seq::<u32>::empty() + plan_scans(ps[0]) =~= plan_scans(ps[0]));
        assert(plan_scans(ps[0]) + Seq::<u32>::empty() =~= plan_scans(ps[0]));
    } else {
        let init = ps.subrange(0, n - 1);
        lemma_list_scans_prepend(init);
        let tail = ps.subrange(1, n);
        assert(init.subrange(1, init.len() as int) =~= tail.subrange(0, tail.len() - 1));
        assert(tail[tail.len() - 1] == ps[n - 1]);
        assert(init[0] == ps[0]);
        assert(plan_scans(ps[0]) + plan_list_scans(init.subrange(1, init.len() as int))
            + plan_scans(ps[n - 1]) =~= plan_scans(ps[0]) + (plan_list_scans(
            tail.subrange(0, tail.len() - 1),
        ) + plan_scans(ps[n - 1])));
    }
}

/// The walk state that a names list and a result stand for.
pub open spec fn state_of(names: Seq<Seq<char>>, r: Result<(), WalkError>) -> WalkState {
    WalkState {
        names,
        error: match r {
            Ok(_) => None,
            Err(e) => Some(e),
        },
    }
}

/// Whether the statement kind is one whose plan is walked.
pub open spec fn is_dml(op: CmdType) -> bool {
    match op {
        CmdType::Other => false,
        _ => true,
    }
}

/// Whether the execution only explains the plan, with or without
/// instrumentation.
pub open spec fn explain_context(q: QueryDesc) -> bool {
    q.explain_only || q.instrument_options != 0
}

/// Whether a statement is walked at all.
pub open spec fn armed(cfg: FilterView, q: QueryDesc, user: Seq<char>) -> bool {
    cfg.level != DetectionLevelEnum::Off && !explain_context(q) && is_dml(q.operation)
        && !user_ignored(cfg, user)
}

/// The context in which the scans of a planned statement are judged.
pub open spec fn statement_context(
    cfg: FilterView,
    tables: Seq<TableDescriptor>,
    ps: PlannedStmt,
    db: Seq<char>,
) -> ScanContext {
    ScanContext { cfg, tables, rtable: ps.rtable@, db }
}

/// The walk of a planned statement: its main plan, then its side plans.
pub open spec fn statement_walk(
    cfg: FilterView,
    tables: Seq<TableDescriptor>,
    ps: PlannedStmt,
    db: Seq<char>,
) -> WalkState {
    visit_scans(fresh_state(), statement_context(cfg, tables, ps, db), statement_scans(ps))
}

/// The outcome of a statement: the names recorded, and either the walk's
/// error or the level to report at (`None`: nothing to report). `skip`
/// tells whether the query text carries the skip marker.
pub open spec fn session_outcome(
    cfg: FilterView,
    q: QueryDesc,
    tables: Seq<TableDescriptor>,
    db: Seq<char>,
    user: Seq<char>,
    skip: bool,
) -> (Seq<Seq<char>>, Result<Option<DetectionLevelEnum>, WalkError>) {
    if !armed(cfg, q, user) {
        (Seq::empty(), Ok(None))
    } else {
        match q.plannedstmt {
            None => (Seq::empty(), Ok(None)),
            Some(ps) => {
                let st = statement_walk(cfg, tables, ps, db);
                match st.error {
                    Some(e) => (st.names, Err(e)),
                    None => (
                        st.names,
                        if st.names.len() > 0 && !skip {
                            Ok(Some(cfg.level))
                        } else {
                            Ok(None)
                        },
                    ),
                }
            },
        }
    }
}

/// Adds `name` to `names` unless it is there.
fn insert_name(names: &mut Vec<String>, name: String)
    ensures
        views_of(final(names)@) == add_name(views_of(old(names)@), name@),
{
    if !contains_string(names, name.as_str()) {
        names.push(name);
        assert(views_of(final(names)@) =~= views_of(old(names)@).push(name@));
    }
}

/// The detector: settings and the names of the tables found in full scans
/// by the current statement's walk.
pub struct NoSeqscanHooks {
    pub config: FilterConfig,
    pub tables_in_seqscans: Vec<String>,
}

impl NoSeqscanHooks {
    /// A detector with the given settings and nothing found.
    pub fn new(config: FilterConfig) -> (r: NoSeqscanHooks)
        ensures
            r.config == config,
            r.tables_in_seqscans@.len() == 0,
    {
        NoSeqscanHooks { config, tables_in_seqscans: Vec::new() }
    }

    /// Whether statements of `current_user` are never checked.
    pub fn is_ignored_user(&self, current_user: &str) -> (r: bool)
        ensures
            r == user_ignored(self.config@, current_user@),
    {
        contains_string(&self.config.ignore_users, current_user)
    }

    /// Whether statements run in `database` are checked.
    pub fn is_checked_database(&self, database: &str) -> (r: bool)
        ensures
            r == database_checked(self.config@, database@),
    {
        self.config.check_databases.len() == 0 || contains_string(
            &self.config.check_databases,
            database,
        )
    }

    /// Whether scans of tables in `schema` are checked.
    pub fn is_checked_schema(&self, schema: &str) -> (r: bool)
        ensures
            r == schema_checked(self.config@, schema@),
    {
        self.config.check_schemas.len() == 0 || contains_string(&self.config.check_schemas, schema)
    }

    /// Whether the table allow list is in force.
    pub fn check_tables_options_is_set(&self) -> (r: bool)
        ensures
            r == (self.config@.check_tables.len() > 0),
    {
        self.config.check_tables.len() > 0
    }

    /// Whether the table allow list lets `table_name` through.
    pub fn is_checked_table(&self, table_name: &str) -> (r: bool)
        ensures
            r == allowed_by(self.config@.check_tables, table_name@),
    {
        self.config.check_tables.len() == 0 || contains_string(
            &self.config.check_tables,
            table_name,
        )
    }

    /// Whether the ignore list holds `table_name`.
    pub fn is_ignored_table(&self, table_name: &str) -> (r: bool)
        ensures
            r == self.config@.ignore_tables.contains(table_name@),
    {
        contains_string(&self.config.ignore_tables, table_name)
    }

    /// The context in which this detector judges scans.
    pub open spec fn context(
        &self,
        catalog: &Catalog,
        rtable: &Vec<u32>,
        database: &str,
    ) -> ScanContext {
        ScanContext { cfg: self.config@, tables: catalog.tables@, rtable: rtable@, db: database@ }
    }

    /// Judges one sequential scan, given its range table position, and
    /// records the name it is reported under when it passes the filters.
    pub fn check_scan(
        &mut self,
        scanrelid: u32,
        rtable: &Vec<u32>,
        catalog: &Catalog,
        database: &str,
    ) -> (r: Result<(), WalkError>)
        ensures
            final(self).config == old(self).config,
            state_of(views_of(final(self).tables_in_seqscans@), r) == visit_scan(
                state_of(views_of(old(self).tables_in_seqscans@), Ok(())),
                old(self).context(catalog, rtable, database),
                scanrelid,
            ),
    {
        let oid = match scanned_table(scanrelid, rtable) {
            None => {
                return Err(WalkError::MissingRangeTableEntry(scanrelid));
            },
            Some(oid) => oid,
        };
        let i = match catalog.find(oid) {
            None => {
                return Err(WalkError::UnknownTable(oid));
            },
            Some(i) => i,
        };
        proof {
            lemma_table_index_bounds(catalog.tables@, oid);
        }
        let table = &catalog.tables[i];
        if table.is_sequence() {
            return Ok(());
        }
        if !self.is_checked_database(database) {
            return Ok(());
        }
        if !self.is_checked_schema(table.schema.as_str()) {
            return Ok(());
        }
        let j = match catalog.root_of(oid) {
            None => {
                return Err(WalkError::BrokenPartitionChain(oid));
            },
            Some(j) => j,
        };
        proof {
            lemma_root_index_bounds(catalog.tables@, oid, catalog.tables@.len());
        }
        let name = &catalog.tables[j].name;
        if !self.is_checked_table(name.as_str()) {
            return Ok(());
        }
        if !self.check_tables_options_is_set() && self.is_ignored_table(name.as_str()) {
            return Ok(());
        }
        insert_name(&mut self.tables_in_seqscans, name.clone());
        Ok(())
    }

    /// Judges the node itself (not its children): a sequential scan is
    /// checked, any other node is passed over.
    pub fn check_current_node(
        &mut self,
        node: &Plan,
        rtable: &Vec<u32>,
        catalog: &Catalog,
        database: &str,
    ) -> (r: Result<(), WalkError>)
        ensures
            final(self).config == old(self).config,
            state_of(views_of(final(self).tables_in_seqscans@), r) == visit_scans(
                state_of(views_of(old(self).tables_in_seqscans@), Ok(())),
                old(self).context(catalog, rtable, database),
                own_scans(*node),
            ),
    {
        let ghost st0 = state_of(views_of(self.tables_in_seqscans@), Ok(()));
        let ghost ctx = self.context(catalog, rtable, database);
        assert(visit_scans(st0, ctx, Seq::empty()) == st0);
        match &node.kind {
            PlanKind::SeqScan { scanrelid } => {
                let r = self.check_scan(*scanrelid, rtable, catalog, database);
                assert(seq![*scanrelid].drop_last() =~= Seq::<u32>::empty());
                assert(visit_scans(st0, ctx, seq![*scanrelid]) == visit_scan(st0, ctx, *scanrelid));
                r
            },
            _ => Ok(()),
        }
    }

    /// Walks `plan` depth first: the node itself, then its child list or
    /// inner plan, then its left and right subtrees. Stops at the first
    /// resolution error.
    pub fn check_plan_recursively(
        &mut self,
        plan: &Plan,
        rtable: &Vec<u32>,
        catalog: &Catalog,
        database: &str,
    ) -> (r: Result<(), WalkError>)
        ensures
            final(self).config == old(self).config,
            state_of(views_of(final(self).tables_in_seqscans@), r) == visit_scans(
                state_of(views_of(old(self).tables_in_seqscans@), Ok(())),
                old(self).context(catalog, rtable, database),
                plan_scans(*plan),
            ),
        decreases plan,
    {
        let ghost ctx = self.context(catalog, rtable, database);
        let ghost st0 = state_of(views_of(self.tables_in_seqscans@), Ok(()));
        let ghost own = own_scans(*plan);
        let ghost inner = inner_scans(*plan);
        let ghost left = subtree_scans(plan.lefttree);
        let ghost right = subtree_scans(plan.righttree);
        proof {
            lemma_visit_scans_four(st0, ctx, own, inner, left, right);
            assert(plan_scans(*plan) == own + inner + left + right);
        }
        let r = self.check_current_node(plan, rtable, catalog, database);
        let ghost st1 = visit_scans(st0, ctx, own);
        if r.is_err() {
            proof {
                lemma_visit_scans_stopped(st1, ctx, inner);
                lemma_visit_scans_stopped(st1, ctx, left);
                lemma_visit_scans_stopped(st1, ctx, right);
            }
            return r;
        }
        let r = match &plan.kind {
            PlanKind::Append { appendplans } => self.check_plan_list(
                appendplans,
                rtable,
                catalog,
                database,
            ),
            PlanKind::SubqueryScan { subplan } => self.check_plan_recursively(
                &**subplan,
                rtable,
                catalog,
                database,
            ),
            _ => {
                assert(visit_scans(st1, ctx, inner) == st1);
                Ok(())
            },
        };
        let ghost st2 = visit_scans(st1, ctx, inner);
        if r.is_err() {
            proof {
                lemma_visit_scans_stopped(st2, ctx, left);
                lemma_visit_scans_stopped(st2, ctx, right);
            }
            return r;
        }
        let r = match &plan.lefttree {
            Some(l) => self.check_plan_recursively(&**l, rtable, catalog, database),
            None => {
                assert(visit_scans(st2, ctx, left) == st2);
                Ok(())
            },
        };
        let ghost st3 = visit_scans(st2, ctx, left);
        if r.is_err() {
            proof {
                lemma_visit_scans_stopped(st3, ctx, right);
            }
            return r;
        }
        match &plan.righttree {
            Some(l) => self.check_plan_recursively(&**l, rtable, catalog, database),
            None => {
                assert(visit_scans(st3, ctx, right) == st3);
                Ok(())
            },
        }
    }

    /// Walks each plan of `plans` in list order, as `check_plan_recursively`
    /// does. Stops at the first resolution error.
    pub fn check_plan_list(
        &mut self,
        plans: &Vec<Plan>,
        rtable: &Vec<u32>,
        catalog: &Catalog,
        database: &str,
    ) -> (r: Result<(), WalkError>)
        ensures
            final(self).config == old(self).config,
            state_of(views_of(final(self).tables_in_seqscans@), r) == visit_scans(
                state_of(views_of(old(self).tables_in_seqscans@), Ok(())),
                old(self).context(catalog, rtable, database),
                plan_list_scans(plans@),
            ),
        decreases plans,
    {
        let ghost ctx = self.context(catalog, rtable, database);
        let ghost st0 = state_of(views_of(self.tables_in_seqscans@), Ok(()));
        let mut i: usize = 0;
        assert(plans@.subrange(0, 0) =~= Seq::<Plan>::empty());
        assert(visit_scans(st0, ctx, Seq::empty()) == st0);
        while i < plans.len()
            invariant
                i <= plans@.len(),
                self.config == old(self).config,
                ctx == self.context(catalog, rtable, database),
                st0 == state_of(views_of(old(self).tables_in_seqscans@), Ok(())),
                state_of(views_of(self.tables_in_seqscans@), Ok(())) == visit_scans(
                    st0,
                    ctx,
                    plan_list_scans(plans@.subrange(0, i as int)),
                ),
            decreases plans@.len() - i,
        {
            let ghost before = plan_list_scans(plans@.subrange(0, i as int));
            let ghost stb = visit_scans(st0, ctx, before);
            proof {
                let s = plans@.subrange(0, i as int + 1);
                assert(s.subrange(0, s.len() - 1) =~= plans@.subrange(0, i as int));
                assert(s[s.len() - 1] == plans@[i as int]);
                lemma_visit_scans_append(st0, ctx, before, plan_scans(plans@[i as int]));
            }
            let r = self.check_plan_recursively(&plans[i], rtable, catalog, database);
            if r.is_err() {
                proof {
                    let st = visit_scans(stb, ctx, plan_scans(plans@[i as int]));
                    let rest = plans@.subrange(i as int + 1, plans@.len() as int);
                    let upto = plans@.subrange(0, i as int + 1);
                    lemma_list_scans_split(plans@, i as int + 1);
                    lemma_visit_scans_append(
                        st0,
                        ctx,
                        plan_list_scans(plans@.subrange(0, i as int + 1)),
                        plan_list_scans(rest),
                    );
                    assert(plan_list_scans(upto) == before + plan_scans(plans@[i as int]));
                    assert(visit_scans(st0, ctx, plan_list_scans(upto)) == st);
                    lemma_visit_scans_stopped(st, ctx, plan_list_scans(rest));
                }
                return r;
            }
            i = i + 1;
        }
        assert(plans@.subrange(0, plans@.len() as int) =~= plans@);
        Ok(())
    }

    /// Walks a planned statement: its main plan, then each side plan of its
    /// common table expressions, with the same range table.
    pub fn check_statement(
        &mut self,
        ps: &PlannedStmt,
        catalog: &Catalog,
        database: &str,
    ) -> (r: Result<(), WalkError>)
        ensures
            final(self).config == old(self).config,
            state_of(views_of(final(self).tables_in_seqscans@), r) == visit_scans(
                state_of(views_of(old(self).tables_in_seqscans@), Ok(())),
                old(self).context(catalog, &ps.rtable, database),
                statement_scans(*ps),
            ),
    {
        let ghost ctx = self.context(catalog, &ps.rtable, database);
        let ghost st0 = state_of(views_of(self.tables_in_seqscans@), Ok(()));
        let ghost main = main_scans(ps.plan_tree);
        proof {
            lemma_visit_scans_append(st0, ctx, main, plan_list_scans(ps.subplans@));
        }
        let r = match &ps.plan_tree {
            Some(p) => self.check_plan_recursively(p, &ps.rtable, catalog, database),
            None => {
                assert(visit_scans(st0, ctx, main) == st0);
                Ok(())
            },
        };
        if r.is_err() {
            proof {
                lemma_visit_scans_stopped(
                    visit_scans(st0, ctx, main),
                    ctx,
                    plan_list_scans(ps.subplans@),
                );
            }
            return r;
        }
        self.check_plan_list(&ps.subplans, &ps.rtable, catalog, database)
    }

    /// Whether the findings are to be reported, given whether the query
    /// text carries the skip marker.
    pub fn should_report(&self, skip_marker: bool) -> (r: bool)
        ensures
            r == (self.tables_in_seqscans@.len() > 0 && !skip_marker),
    {
        self.tables_in_seqscans.len() > 0 && !skip_marker
    }

    /// Walks the statement, adding to the findings, and tells whether they
    /// are to be reported: some table was found and the query text carries
    /// no skip marker. The walk happens whether or not the marker is there.
    pub fn check_query(
        &mut self,
        query_desc: &QueryDesc,
        catalog: &Catalog,
        database: &str,
    ) -> (r: Result<bool, WalkError>)
        ensures
            final(self).config == old(self).config,
            match query_desc.plannedstmt {
                None => final(self).tables_in_seqscans@ == old(self).tables_in_seqscans@ && r
                    == Ok::<bool, WalkError>(false),
                Some(ps) => {
                    let st = visit_scans(
                        state_of(views_of(old(self).tables_in_seqscans@), Ok(())),
                        statement_context(old(self).config@, catalog.tables@, ps, database@),
                        statement_scans(ps),
                    );
                    &&& views_of(final(self).tables_in_seqscans@) == st.names
                    &&& r == match st.error {
                        Some(e) => Err(e),
                        None => Ok(
                            st.names.len() > 0 && !regex_finds(
                                skip_comment_pattern(),
                                query_desc.source_text@,
                            ),
                        ),
                    }
                },
            },
    {
        match &query_desc.plannedstmt {
            None => Ok(false),
            Some(ps) => {
                let r = self.check_statement(ps, catalog, database);
                match r {
                    Err(e) => Err(e),
                    Ok(()) => {
                        let skip = if self.tables_in_seqscans.len() > 0 {
                            is_ignored_query_for_comment(query_desc.source_text.as_str())
                        } else {
                            false
                        };
                        Ok(self.should_report(skip))
                    },
                }
            },
        }
    }

    /// Handles a statement about to run. The findings of the previous
    /// statement are dropped first. The plan is walked only when detection
    /// is on, the execution is no explain request (with or without
    /// instrumentation), the statement is a select, insert, update, delete
    /// or merge, and its user is not ignored. Returns the level to report
    /// at, `None` when there is nothing to report, or the walk's error.
    pub fn check_query_plan(
        &mut self,
        query_desc: &QueryDesc,
        catalog: &Catalog,
        database: &str,
        current_user: &str,
    ) -> (r: Result<Option<DetectionLevelEnum>, WalkError>)
        ensures
            final(self).config == old(self).config,
            (views_of(final(self).tables_in_seqscans@), r) == session_outcome(
                old(self).config@,
                *query_desc,
                catalog.tables@,
                database@,
                current_user@,
                regex_finds(skip_comment_pattern(), query_desc.source_text@),
            ),
    {
        self.tables_in_seqscans = Vec::new();
        assert(views_of(self.tables_in_seqscans@) =~= Seq::<Seq<char>>::empty());
        if self.config.level == DetectionLevelEnum::Off || query_desc.explain_only
            || query_desc.instrument_options != 0 {
            return Ok(None);
        }
        match query_desc.operation {
            CmdType::Other => {
                return Ok(None);
            },
            _ => {},
        }
        if self.is_ignored_user(current_user) {
            return Ok(None);
        }
        match self.check_query(query_desc, catalog, database) {
            Err(e) => Err(e),
            Ok(true) => Ok(Some(self.config.level)),
            Ok(false) => Ok(None),
        }
    }
}

} // verus!
