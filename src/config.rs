//! The detection settings: severity and the include/exclude lists.

use vstd::prelude::*;
use crate::text::{list_entries, parse_list, views_of};

verus! {

/// What to do when a sequential scan is found.
#[derive(Clone, Copy, PartialEq, Eq, Debug, Structural)]
pub enum DetectionLevelEnum {
    /// Detection is skipped.
    Off,
    /// A notice is emitted and the statement goes on.
    Warn,
    /// The statement fails.
    Error,
}

/// The detection settings. Each list holds trimmed, non-empty entries.
pub struct FilterConfig {
    pub level: DetectionLevelEnum,
    /// Databases to check; empty means all.
    pub check_databases: Vec<String>,
    /// Schemas to check; empty means all.
    pub check_schemas: Vec<String>,
    /// Tables to check; empty means all. When not empty the ignore list is
    /// not consulted.
    pub check_tables: Vec<String>,
    /// Tables to leave out, consulted only when `check_tables` is empty.
    pub ignore_tables: Vec<String>,
    /// Users whose statements are never checked.
    pub ignore_users: Vec<String>,
}

/// The settings as mathematical values.
pub struct FilterView {
    pub level: DetectionLevelEnum,
    pub check_databases: Seq<Seq<char>>,
    pub check_schemas: Seq<Seq<char>>,
    pub check_tables: Seq<Seq<char>>,
    pub ignore_tables: Seq<Seq<char>>,
    pub ignore_users: Seq<Seq<char>>,
}

impl View for FilterConfig {
    type V = FilterView;

    open spec fn view(&self) -> FilterView {
        FilterView {
            level: self.level,
            check_databases: views_of(self.check_databases@),
            check_schemas: views_of(self.check_schemas@),
            check_tables: views_of(self.check_tables@),
            ignore_tables: views_of(self.ignore_tables@),
            ignore_users: views_of(self.ignore_users@),
        }
    }
}

/// An allow list lets `v` through when it is empty or holds `v`.
pub open spec fn allowed_by(list: Seq<Seq<char>>, v: Seq<char>) -> bool {
    list.len() == 0 || list.contains(v)
}

/// Whether statements run in database `db` are checked.
pub open spec fn database_checked(cfg: FilterView, db: Seq<char>) -> bool {
    allowed_by(cfg.check_databases, db)
}

/// Whether scans of tables in schema `schema` are checked.
pub open spec fn schema_checked(cfg: FilterView, schema: Seq<char>) -> bool {
    allowed_by(cfg.check_schemas, schema)
}

/// Whether a scan reported under `name` is kept: by the table allow list
/// when it is not empty, else by the ignore list.
pub open spec fn table_selected(cfg: FilterView, name: Seq<char>) -> bool {
    if cfg.check_tables.len() > 0 {
        cfg.check_tables.contains(name)
    } else {
        !cfg.ignore_tables.contains(name)
    }
}

/// Whether statements of `user` are never checked.
pub open spec fn user_ignored(cfg: FilterView, user: Seq<char>) -> bool {
    cfg.ignore_users.contains(user)
}

/// The settings with every list empty.
pub open spec fn open_view(level: DetectionLevelEnum) -> FilterView {
    FilterView {
        level,
        check_databases: Seq::empty(),
        check_schemas: Seq::empty(),
        check_tables: Seq::empty(),
        ignore_tables: Seq::empty(),
        ignore_users: Seq::empty(),
    }
}

impl FilterConfig {
    /// Settings from their textual form: each list is comma separated.
    pub fn from_settings(
        level: DetectionLevelEnum,
        check_databases: &str,
        check_schemas: &str,
        check_tables: &str,
        ignore_tables: &str,
        ignore_users: &str,
    ) -> (r: FilterConfig)
        ensures
            r@ == (FilterView {
                level,
                check_databases: list_entries(check_databases@),
                check_schemas: list_entries(check_schemas@),
                check_tables: list_entries(check_tables@),
                ignore_tables: list_entries(ignore_tables@),
                ignore_users: list_entries(ignore_users@),
            }),
    {
        FilterConfig {
            level,
            check_databases: parse_list(check_databases),
            check_schemas: parse_list(check_schemas),
            check_tables: parse_list(check_tables),
            ignore_tables: parse_list(ignore_tables),
            ignore_users: parse_list(ignore_users),
        }
    }

    /// Settings at `level` with every list empty: every table of every
    /// schema and database is checked, for every user.
    pub fn with_level(level: DetectionLevelEnum) -> (r: FilterConfig)
        ensures
            r@ == open_view(level),
    {
        let r = FilterConfig {
            level,
            check_databases: Vec::new(),
            check_schemas: Vec::new(),
            check_tables: Vec::new(),
            ignore_tables: Vec::new(),
            ignore_users: Vec::new(),
        };
        assert(r@.check_databases =~= Seq::<Seq<char>>::empty());
        assert(r@.check_schemas =~= Seq::<Seq<char>>::empty());
        assert(r@.check_tables =~= Seq::<Seq<char>>::empty());
        assert(r@.ignore_tables =~= Seq::<Seq<char>>::empty());
        assert(r@.ignore_users =~= Seq::<Seq<char>>::empty());
        r
    }
}

/// The default settings: level `Error`, only schema `public` checked, all
/// other lists empty.
pub open spec fn default_view() -> FilterView {
    FilterView { check_schemas: seq!["public"@], ..open_view(DetectionLevelEnum::Error) }
}

impl Default for FilterConfig {
    fn default() -> (r: FilterConfig)
        ensures
            r@ == default_view(),
    {
        let mut r = FilterConfig::with_level(DetectionLevelEnum::Error);
        r.check_schemas.push("public".to_owned());
        assert(r@.check_schemas =~= seq!["public"@]);
        r
    }
}

} // verus!
