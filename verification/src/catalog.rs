//! The catalog introspector's decision logic: the queries it issues, the
//! conversion of fetched catalog rows into the object model, and the
//! degrading query protocol for missing trigger-metadata columns.

use vstd::prelude::*;
use crate::text::{
    chars_of, contains_lit, double_char_in, doubled, eq_ci, eq_str_ci, has_substring, parse_i32,
    parse_i64, parse_i32_spec, parse_i64_spec, replace_lit, replace_seq, split_char, split_on,
    string_of, trim_spec, trim_vec, upper_seq, upper_vec,
};
use crate::literal::{escape_single_quotes, spec_escape_literal};
use crate::model::{
    Column, ColumnView, Sequence, SequenceView, Table, TableView, TableDetails, TableDetailsView,
    TriggerDefinition, TriggerDefinitionView, UniqueConstraint, UniqueConstraintView,
    view_opt_string,
};

verus! {

/// Catalog query: tables of a schema with comments and cached row counts.
pub fn tables_query(owner: &str) -> (r: String)
    ensures
        r@ == "SELECT t.TABLE_NAME, c.COMMENTS, NVL(t.NUM_ROWS, 0) AS NUM_ROWS FROM ALL_TABLES t LEFT JOIN ALL_TAB_COMMENTS c ON t.OWNER = c.OWNER AND t.TABLE_NAME = c.TABLE_NAME WHERE t.OWNER = '"@ + spec_escape_literal(owner@) + "' ORDER BY t.TABLE_NAME"@,
{
    let mut q = String::from_str("SELECT t.TABLE_NAME, c.COMMENTS, NVL(t.NUM_ROWS, 0) AS NUM_ROWS FROM ALL_TABLES t LEFT JOIN ALL_TAB_COMMENTS c ON t.OWNER = c.OWNER AND t.TABLE_NAME = c.TABLE_NAME WHERE t.OWNER = '");
    let e_owner = escape_single_quotes(owner);
    q.append(e_owner.as_str());
    q.append("' ORDER BY t.TABLE_NAME");
    q
}

/// Catalog query: the comment of one table.
pub fn table_comment_query(schema: &str, table: &str) -> (r: String)
    ensures
        r@ == "SELECT COMMENTS FROM ALL_TAB_COMMENTS WHERE OWNER = '"@ + spec_escape_literal(schema@) + "' AND TABLE_NAME = '"@ + spec_escape_literal(table@) + "'"@,
{
    let mut q = String::from_str("SELECT COMMENTS FROM ALL_TAB_COMMENTS WHERE OWNER = '");
    let e_schema = escape_single_quotes(schema);
    q.append(e_schema.as_str());
    q.append("' AND TABLE_NAME = '");
    let e_table = escape_single_quotes(table);
    q.append(e_table.as_str());
    q.append("'");
    q
}

/// Catalog query: the columns of one table, identity detection included.
pub fn columns_query(schema: &str, table: &str) -> (r: String)
    ensures
        r@ == "SELECT c.COLUMN_NAME, c.DATA_TYPE, CASE WHEN c.DATA_TYPE IN ('CHAR','NCHAR','VARCHAR','VARCHAR2','NVARCHAR','NVARCHAR2') AND c.CHAR_USED = 'C' THEN c.CHAR_LENGTH ELSE c.DATA_LENGTH END AS LENGTH, c.DATA_PRECISION, c.DATA_SCALE, c.CHAR_USED, c.NULLABLE, c.DATA_DEFAULT, CASE WHEN sc.INFO2 & 1 = 1 THEN 'YES' ELSE 'NO' END AS IDENTITY_COLUMN, cc.COMMENTS FROM ALL_TAB_COLUMNS c LEFT JOIN ALL_COL_COMMENTS cc ON cc.OWNER = c.OWNER AND cc.TABLE_NAME = c.TABLE_NAME AND cc.COLUMN_NAME = c.COLUMN_NAME LEFT JOIN SYS.SYSOBJECTS sch ON sch.NAME = c.OWNER AND sch.TYPE$ = 'SCH' LEFT JOIN SYS.SYSOBJECTS so ON so.NAME = c.TABLE_NAME AND so.SCHID = sch.ID AND so.TYPE$ = 'SCHOBJ' LEFT JOIN SYS.SYSCOLUMNS sc ON sc.ID = so.ID AND sc.NAME = c.COLUMN_NAME WHERE c.OWNER = '"@ + spec_escape_literal(schema@) + "' AND c.TABLE_NAME = '"@ + spec_escape_literal(table@) + "' ORDER BY c.COLUMN_ID"@,
{
    let mut q = String::from_str("SELECT c.COLUMN_NAME, c.DATA_TYPE, CASE WHEN c.DATA_TYPE IN ('CHAR','NCHAR','VARCHAR','VARCHAR2','NVARCHAR','NVARCHAR2') AND c.CHAR_USED = 'C' THEN c.CHAR_LENGTH ELSE c.DATA_LENGTH END AS LENGTH, c.DATA_PRECISION, c.DATA_SCALE, c.CHAR_USED, c.NULLABLE, c.DATA_DEFAULT, CASE WHEN sc.INFO2 & 1 = 1 THEN 'YES' ELSE 'NO' END AS IDENTITY_COLUMN, cc.COMMENTS FROM ALL_TAB_COLUMNS c LEFT JOIN ALL_COL_COMMENTS cc ON cc.OWNER = c.OWNER AND cc.TABLE_NAME = c.TABLE_NAME AND cc.COLUMN_NAME = c.COLUMN_NAME LEFT JOIN SYS.SYSOBJECTS sch ON sch.NAME = c.OWNER AND sch.TYPE$ = 'SCH' LEFT JOIN SYS.SYSOBJECTS so ON so.NAME = c.TABLE_NAME AND so.SCHID = sch.ID AND so.TYPE$ = 'SCHOBJ' LEFT JOIN SYS.SYSCOLUMNS sc ON sc.ID = so.ID AND sc.NAME = c.COLUMN_NAME WHERE c.OWNER = '");
    let e_schema = escape_single_quotes(schema);
    q.append(e_schema.as_str());
    q.append("' AND c.TABLE_NAME = '");
    let e_table = escape_single_quotes(table);
    q.append(e_table.as_str());
    q.append("' ORDER BY c.COLUMN_ID");
    q
}

/// Catalog query: the identity seed and increment of one table.
pub fn identity_query(schema: &str, table: &str) -> (r: String)
    ensures
        r@ == "SELECT IDENT_SEED('"@ + spec_escape_literal(schema@) + "."@ + spec_escape_literal(table@) + "'), IDENT_INCR('"@ + spec_escape_literal(schema@) + "."@ + spec_escape_literal(table@) + "') FROM DUAL"@,
{
    let mut q = String::from_str("SELECT IDENT_SEED('");
    let e_schema = escape_single_quotes(schema);
    q.append(e_schema.as_str());
    q.append(".");
    let e_table = escape_single_quotes(table);
    q.append(e_table.as_str());
    q.append("'), IDENT_INCR('");
    let e_schema = escape_single_quotes(schema);
    q.append(e_schema.as_str());
    q.append(".");
    let e_table = escape_single_quotes(table);
    q.append(e_table.as_str());
    q.append("') FROM DUAL");
    q
}

/// Live row-count query for one table.
pub fn row_count_query(schema: &str, table: &str) -> (r: String)
    ensures
        r@ == "SELECT COUNT(*) AS CNT FROM \""@ + doubled(schema@, '\"') + "\".\""@ + doubled(table@, '\"') + "\""@,
{
    let mut q = String::from_str("SELECT COUNT(*) AS CNT FROM \"");
    let v_schema = chars_of(schema);
    let d_schema = double_char_in(&v_schema, '"');
    let s_schema = string_of(&d_schema);
    q.append(s_schema.as_str());
    q.append("\".\"");
    let v_table = chars_of(table);
    let d_table = double_char_in(&v_table, '"');
    let s_table = string_of(&d_table);
    q.append(s_table.as_str());
    q.append("\"");
    q
}

/// Catalog query: the primary-key columns of one table, in order.
pub fn primary_keys_query(schema: &str, table: &str) -> (r: String)
    ensures
        r@ == "SELECT acc.COLUMN_NAME FROM ALL_CONSTRAINTS ac JOIN ALL_CONS_COLUMNS acc ON ac.OWNER = acc.OWNER AND ac.CONSTRAINT_NAME = acc.CONSTRAINT_NAME WHERE ac.CONSTRAINT_TYPE = 'P' AND ac.OWNER = '"@ + spec_escape_literal(schema@) + "' AND ac.TABLE_NAME = '"@ + spec_escape_literal(table@) + "' ORDER BY acc.POSITION"@,
{
    let mut q = String::from_str("SELECT acc.COLUMN_NAME FROM ALL_CONSTRAINTS ac JOIN ALL_CONS_COLUMNS acc ON ac.OWNER = acc.OWNER AND ac.CONSTRAINT_NAME = acc.CONSTRAINT_NAME WHERE ac.CONSTRAINT_TYPE = 'P' AND ac.OWNER = '");
    let e_schema = escape_single_quotes(schema);
    q.append(e_schema.as_str());
    q.append("' AND ac.TABLE_NAME = '");
    let e_table = escape_single_quotes(table);
    q.append(e_table.as_str());
    q.append("' ORDER BY acc.POSITION");
    q
}

/// Catalog query: unique constraints with their columns, in order.
pub fn unique_constraints_query(schema: &str, table: &str) -> (r: String)
    ensures
        r@ == "SELECT ac.CONSTRAINT_NAME, acc.COLUMN_NAME FROM ALL_CONSTRAINTS ac JOIN ALL_CONS_COLUMNS acc ON ac.OWNER = acc.OWNER AND ac.CONSTRAINT_NAME = acc.CONSTRAINT_NAME WHERE ac.CONSTRAINT_TYPE = 'U' AND ac.OWNER = '"@ + spec_escape_literal(schema@) + "' AND ac.TABLE_NAME = '"@ + spec_escape_literal(table@) + "' ORDER BY ac.CONSTRAINT_NAME, acc.POSITION"@,
{
    let mut q = String::from_str("SELECT ac.CONSTRAINT_NAME, acc.COLUMN_NAME FROM ALL_CONSTRAINTS ac JOIN ALL_CONS_COLUMNS acc ON ac.OWNER = acc.OWNER AND ac.CONSTRAINT_NAME = acc.CONSTRAINT_NAME WHERE ac.CONSTRAINT_TYPE = 'U' AND ac.OWNER = '");
    let e_schema = escape_single_quotes(schema);
    q.append(e_schema.as_str());
    q.append("' AND ac.TABLE_NAME = '");
    let e_table = escape_single_quotes(table);
    q.append(e_table.as_str());
    q.append("' ORDER BY ac.CONSTRAINT_NAME, acc.POSITION");
    q
}

/// Catalog query: check constraints with their conditions.
pub fn check_constraints_query(schema: &str, table: &str) -> (r: String)
    ensures
        r@ == "SELECT ac.CONSTRAINT_NAME, ac.SEARCH_CONDITION FROM ALL_CONSTRAINTS ac WHERE ac.CONSTRAINT_TYPE = 'C' AND ac.OWNER = '"@ + spec_escape_literal(schema@) + "' AND ac.TABLE_NAME = '"@ + spec_escape_literal(table@) + "' ORDER BY ac.CONSTRAINT_NAME"@,
{
    let mut q = String::from_str("SELECT ac.CONSTRAINT_NAME, ac.SEARCH_CONDITION FROM ALL_CONSTRAINTS ac WHERE ac.CONSTRAINT_TYPE = 'C' AND ac.OWNER = '");
    let e_schema = escape_single_quotes(schema);
    q.append(e_schema.as_str());
    q.append("' AND ac.TABLE_NAME = '");
    let e_table = escape_single_quotes(table);
    q.append(e_table.as_str());
    q.append("' ORDER BY ac.CONSTRAINT_NAME");
    q
}

/// Catalog query: the columns of one constraint, in order.
pub fn constraint_columns_query(schema: &str, constraint_name: &str) -> (r: String)
    ensures
        r@ == "SELECT acc.COLUMN_NAME FROM ALL_CONS_COLUMNS acc WHERE acc.OWNER = '"@ + spec_escape_literal(schema@) + "' AND acc.CONSTRAINT_NAME = '"@ + spec_escape_literal(constraint_name@) + "' ORDER BY acc.POSITION"@,
{
    let mut q = String::from_str("SELECT acc.COLUMN_NAME FROM ALL_CONS_COLUMNS acc WHERE acc.OWNER = '");
    let e_schema = escape_single_quotes(schema);
    q.append(e_schema.as_str());
    q.append("' AND acc.CONSTRAINT_NAME = '");
    let e_constraint_name = escape_single_quotes(constraint_name);
    q.append(e_constraint_name.as_str());
    q.append("' ORDER BY acc.POSITION");
    q
}

/// Catalog query: the owner and table of a referenced constraint.
pub fn referenced_constraint_query(referenced_constraint: &str) -> (r: String)
    ensures
        r@ == "SELECT ac.OWNER, ac.TABLE_NAME FROM ALL_CONSTRAINTS ac WHERE ac.CONSTRAINT_NAME = '"@ + spec_escape_literal(referenced_constraint@) + "'"@,
{
    let mut q = String::from_str("SELECT ac.OWNER, ac.TABLE_NAME FROM ALL_CONSTRAINTS ac WHERE ac.CONSTRAINT_NAME = '");
    let e_referenced_constraint = escape_single_quotes(referenced_constraint);
    q.append(e_referenced_constraint.as_str());
    q.append("'");
    q
}

/// Catalog query: every sequence of a schema with its properties.
pub fn sequences_query(schema: &str) -> (r: String)
    ensures
        r@ == "SELECT SEQUENCE_NAME, MIN_VALUE, MAX_VALUE, INCREMENT_BY, CACHE_SIZE, CYCLE_FLAG, ORDER_FLAG, LAST_NUMBER FROM ALL_SEQUENCES WHERE SEQUENCE_OWNER = '"@ + spec_escape_literal(schema@) + "' ORDER BY SEQUENCE_NAME"@,
{
    let mut q = String::from_str("SELECT SEQUENCE_NAME, MIN_VALUE, MAX_VALUE, INCREMENT_BY, CACHE_SIZE, CYCLE_FLAG, ORDER_FLAG, LAST_NUMBER FROM ALL_SEQUENCES WHERE SEQUENCE_OWNER = '");
    let e_schema = escape_single_quotes(schema);
    q.append(e_schema.as_str());
    q.append("' ORDER BY SEQUENCE_NAME");
    q
}

/// Catalog query: index names and uniqueness for one table.
pub fn indexes_query(schema: &str, table: &str) -> (r: String)
    ensures
        r@ == "SELECT ai.INDEX_NAME, ai.UNIQUENESS FROM ALL_INDEXES ai WHERE ai.TABLE_OWNER = '"@ + spec_escape_literal(schema@) + "' AND ai.TABLE_NAME = '"@ + spec_escape_literal(table@) + "' ORDER BY ai.INDEX_NAME"@,
{
    let mut q = String::from_str("SELECT ai.INDEX_NAME, ai.UNIQUENESS FROM ALL_INDEXES ai WHERE ai.TABLE_OWNER = '");
    let e_schema = escape_single_quotes(schema);
    q.append(e_schema.as_str());
    q.append("' AND ai.TABLE_NAME = '");
    let e_table = escape_single_quotes(table);
    q.append(e_table.as_str());
    q.append("' ORDER BY ai.INDEX_NAME");
    q
}

/// Catalog query: index-to-column mappings for one table, ordered by position.
pub fn index_columns_query(schema: &str, table: &str) -> (r: String)
    ensures
        r@ == "SELECT ic.INDEX_NAME, ic.COLUMN_NAME FROM ALL_IND_COLUMNS ic WHERE ic.INDEX_OWNER = '"@ + spec_escape_literal(schema@) + "' AND ic.TABLE_NAME = '"@ + spec_escape_literal(table@) + "' ORDER BY ic.INDEX_NAME, ic.COLUMN_POSITION"@,
{
    let mut q = String::from_str("SELECT ic.INDEX_NAME, ic.COLUMN_NAME FROM ALL_IND_COLUMNS ic WHERE ic.INDEX_OWNER = '");
    let e_schema = escape_single_quotes(schema);
    q.append(e_schema.as_str());
    q.append("' AND ic.TABLE_NAME = '");
    let e_table = escape_single_quotes(table);
    q.append(e_table.as_str());
    q.append("' ORDER BY ic.INDEX_NAME, ic.COLUMN_POSITION");
    q
}

} // verus!

verus! {

/// The full-metadata trigger query level.
pub const TRIGGER_LEVEL_FULL: u8 = 0;

/// The level that omits the trigger type and description columns.
pub const TRIGGER_LEVEL_NO_TYPE: u8 = 1;

/// The level that additionally omits the when-clause column.
pub const TRIGGER_LEVEL_NO_WHEN: u8 = 2;

pub open spec fn spec_triggers_query(schema: Seq<char>, table: Seq<char>, level: u8) -> Seq<char> {
    (if level == 0 {
        "SELECT TRIGGER_NAME, TRIGGER_TYPE, TRIGGERING_EVENT, TABLE_NAME, WHEN_CLAUSE, TRIGGER_BODY, DESCRIPTION FROM ALL_TRIGGERS WHERE TABLE_OWNER = '"@
    } else if level == 1 {
        "SELECT TRIGGER_NAME, NULL AS TRIGGER_TYPE, TRIGGERING_EVENT, TABLE_NAME, WHEN_CLAUSE, TRIGGER_BODY, NULL AS DESCRIPTION FROM ALL_TRIGGERS WHERE TABLE_OWNER = '"@
    } else {
        "SELECT TRIGGER_NAME, NULL AS TRIGGER_TYPE, TRIGGERING_EVENT, TABLE_NAME, NULL AS WHEN_CLAUSE, TRIGGER_BODY, NULL AS DESCRIPTION FROM ALL_TRIGGERS WHERE TABLE_OWNER = '"@
    }) + spec_escape_literal(schema) + "' AND TABLE_NAME = '"@ + spec_escape_literal(table)
        + "' ORDER BY TRIGGER_NAME"@
}

/// Catalog query: the triggers of one table, at the given degradation
/// level of the three-level protocol.
pub fn triggers_query(schema: &str, table: &str, level: u8) -> (r: String)
    ensures
        r@ == spec_triggers_query(schema@, table@, level),
{
    let mut q = if level == 0 {
        String::from_str(
            "SELECT TRIGGER_NAME, TRIGGER_TYPE, TRIGGERING_EVENT, TABLE_NAME, WHEN_CLAUSE, TRIGGER_BODY, DESCRIPTION FROM ALL_TRIGGERS WHERE TABLE_OWNER = '",
        )
    } else if level == 1 {
        String::from_str(
            "SELECT TRIGGER_NAME, NULL AS TRIGGER_TYPE, TRIGGERING_EVENT, TABLE_NAME, WHEN_CLAUSE, TRIGGER_BODY, NULL AS DESCRIPTION FROM ALL_TRIGGERS WHERE TABLE_OWNER = '",
        )
    } else {
        String::from_str(
            "SELECT TRIGGER_NAME, NULL AS TRIGGER_TYPE, TRIGGERING_EVENT, TABLE_NAME, NULL AS WHEN_CLAUSE, TRIGGER_BODY, NULL AS DESCRIPTION FROM ALL_TRIGGERS WHERE TABLE_OWNER = '",
        )
    };
    let es = escape_single_quotes(schema);
    q.append(es.as_str());
    q.append("' AND TABLE_NAME = '");
    let et = escape_single_quotes(table);
    q.append(et.as_str());
    q.append("' ORDER BY TRIGGER_NAME");
    q
}

/// A message mentions a known trigger-metadata column or the missing-column
/// SQL state.
pub open spec fn spec_msg_mentions_missing(m: Seq<char>) -> bool {
    let u = upper_seq(m);
    has_substring(u, "TRIGGER_TYPE"@) || has_substring(u, "WHEN_CLAUSE"@) || has_substring(
        u,
        "TRIGGER_BODY"@,
    ) || has_substring(u, "DESCRIPTION"@) || has_substring(u, "42S22"@)
}

/// Whether any message of an error's context chain points at missing
/// trigger metadata.
pub open spec fn spec_trigger_metadata_missing(msgs: Seq<Seq<char>>) -> bool {
    exists|i: int| 0 <= i < msgs.len() && spec_msg_mentions_missing(#[trigger] msgs[i])
}

/// Detects a recoverable missing-trigger-metadata error from the messages
/// of an error's context chain.
pub fn is_trigger_metadata_missing(messages: &Vec<String>) -> (r: bool)
    ensures
        r == spec_trigger_metadata_missing(messages.deep_view()),
{
    let ghost dv = messages.deep_view();
    let mut i: usize = 0;
    while i < messages.len()
        invariant
            dv == messages.deep_view(),
            dv.len() == messages@.len(),
            i <= messages@.len(),
            forall|j: int| 0 <= j < i ==> !spec_msg_mentions_missing(#[trigger] dv[j]),
        decreases messages@.len() - i,
    {
        proof {
            assert(dv[i as int] == messages@[i as int]@);
        }
        let v = chars_of(messages[i].as_str());
        let u = upper_vec(&v);
        if contains_lit(&u, "TRIGGER_TYPE") || contains_lit(&u, "WHEN_CLAUSE") || contains_lit(
            &u,
            "TRIGGER_BODY",
        ) || contains_lit(&u, "DESCRIPTION") || contains_lit(&u, "42S22") {
            proof {
                assert(spec_msg_mentions_missing(dv[i as int]));
            }
            return true;
        }
        i = i + 1;
    }
    false
}

/// The column a message names, in the protocol's priority order.
pub open spec fn spec_msg_missing_column(m: Seq<char>) -> Option<Seq<char>> {
    let u = upper_seq(m);
    if has_substring(u, "TRIGGER_TYPE"@) {
        Some("TRIGGER_TYPE"@)
    } else if has_substring(u, "WHEN_CLAUSE"@) {
        Some("WHEN_CLAUSE"@)
    } else if has_substring(u, "DESCRIPTION"@) {
        Some("DESCRIPTION"@)
    } else if has_substring(u, "TRIGGER_BODY"@) {
        Some("TRIGGER_BODY"@)
    } else {
        None
    }
}

/// The first message of the chain that names a trigger-metadata column.
pub open spec fn spec_trigger_missing_column(msgs: Seq<Seq<char>>, i: int) -> Option<Seq<char>>
    decreases msgs.len() - i,
{
    if i < 0 || i >= msgs.len() {
        None
    } else {
        match spec_msg_missing_column(msgs[i]) {
            Some(c) => Some(c),
            None => spec_trigger_missing_column(msgs, i + 1),
        }
    }
}

/// Names the missing trigger-metadata column from an error's messages.
pub fn trigger_missing_column(messages: &Vec<String>) -> (r: Option<String>)
    ensures
        match r {
            Some(c) => spec_trigger_missing_column(messages.deep_view(), 0) == Some(c@),
            None => spec_trigger_missing_column(messages.deep_view(), 0) is None,
        },
{
    let ghost dv = messages.deep_view();
    let mut i: usize = 0;
    while i < messages.len()
        invariant
            dv == messages.deep_view(),
            dv.len() == messages@.len(),
            i <= messages@.len(),
            spec_trigger_missing_column(dv, 0) == spec_trigger_missing_column(dv, i as int),
        decreases messages@.len() - i,
    {
        proof {
            assert(dv[i as int] == messages@[i as int]@);
        }
        let v = chars_of(messages[i].as_str());
        let u = upper_vec(&v);
        if contains_lit(&u, "TRIGGER_TYPE") {
            return Some(String::from_str("TRIGGER_TYPE"));
        }
        if contains_lit(&u, "WHEN_CLAUSE") {
            return Some(String::from_str("WHEN_CLAUSE"));
        }
        if contains_lit(&u, "DESCRIPTION") {
            return Some(String::from_str("DESCRIPTION"));
        }
        if contains_lit(&u, "TRIGGER_BODY") {
            return Some(String::from_str("TRIGGER_BODY"));
        }
        i = i + 1;
    }
    None
}

/// The next level of the degrading trigger query after an error at
/// `current_level`, or nothing when the failure is not recoverable.
pub open spec fn spec_trigger_fallback_level(current_level: u8, msgs: Seq<Seq<char>>) -> Option<
    u8,
> {
    let missing = spec_trigger_missing_column(msgs, 0);
    if current_level == 0 && missing == Some("TRIGGER_TYPE"@) {
        Some(1u8)
    } else if current_level == 0 && missing == Some("DESCRIPTION"@) {
        Some(1u8)
    } else if current_level == 0 && missing == Some("WHEN_CLAUSE"@) {
        Some(2u8)
    } else if current_level == 1 && missing == Some("WHEN_CLAUSE"@) {
        Some(2u8)
    } else if current_level == 1 && missing == Some("TRIGGER_TYPE"@) {
        Some(1u8)
    } else if current_level == 1 && missing == Some("DESCRIPTION"@) {
        Some(1u8)
    } else if current_level == 2 {
        None
    } else if missing == Some("TRIGGER_BODY"@) {
        None
    } else if spec_trigger_metadata_missing(msgs) {
        if current_level == 0 {
            Some(1u8)
        } else if current_level == 1 {
            Some(2u8)
        } else {
            None
        }
    } else {
        None
    }
}

/// Picks the next trigger query level after a failure: transitions only
/// move forward, and a failure at the last level is not retried.
pub fn trigger_fallback_level(current_level: u8, messages: &Vec<String>) -> (r: Option<u8>)
    ensures
        r == spec_trigger_fallback_level(current_level, messages.deep_view()),
{
    let missing = trigger_missing_column(messages);
    match &missing {
        Some(col) => {
            let cv = chars_of(col.as_str());
            if current_level == 0 && crate::text::eq_str(&cv, "TRIGGER_TYPE") {
                return Some(1);
            }
            if current_level == 0 && crate::text::eq_str(&cv, "DESCRIPTION") {
                return Some(1);
            }
            if current_level == 0 && crate::text::eq_str(&cv, "WHEN_CLAUSE") {
                return Some(2);
            }
            if current_level == 1 && crate::text::eq_str(&cv, "WHEN_CLAUSE") {
                return Some(2);
            }
            if current_level == 1 && crate::text::eq_str(&cv, "TRIGGER_TYPE") {
                return Some(1);
            }
            if current_level == 1 && crate::text::eq_str(&cv, "DESCRIPTION") {
                return Some(1);
            }
            if current_level == 2 {
                return None;
            }
            if crate::text::eq_str(&cv, "TRIGGER_BODY") {
                return None;
            }
        },
        None => {
            if current_level == 2 {
                return None;
            }
        },
    }
    if is_trigger_metadata_missing(messages) {
        if current_level == 0 {
            return Some(1);
        }
        if current_level == 1 {
            return Some(2);
        }
        return None;
    }
    None
}

/// The fallback never moves backward: whatever the error says, the chosen
/// next level is at least the current one.
pub proof fn lemma_trigger_fallback_monotonic(current_level: u8, msgs: Seq<Seq<char>>)
    ensures
        match spec_trigger_fallback_level(current_level, msgs) {
            Some(next) => next >= current_level,
            None => true,
        },
{
}

/// The per-introspector cache of the trigger query level: it only ever
/// moves forward through the protocol's levels.
pub struct TriggerLevelCache {
    level: u8,
}

impl TriggerLevelCache {
    pub closed spec fn view(&self) -> u8 {
        self.level
    }

    /// A fresh cache starts at the full-metadata level.
    pub fn new() -> (r: TriggerLevelCache)
        ensures
            r@ == TRIGGER_LEVEL_FULL,
    {
        TriggerLevelCache { level: TRIGGER_LEVEL_FULL }
    }

    /// The level subsequent fetches should start from.
    pub fn current(&self) -> (r: u8)
        ensures
            r == self@,
    {
        self.level
    }

    /// Compare-and-set: the transition wins only when the cache still holds
    /// the level the caller read; a loser leaves the cache unchanged and
    /// re-reads. Forward-only transitions keep the cache monotonic.
    pub fn try_advance(&mut self, expected: u8, next: u8) -> (r: bool)
        requires
            next >= expected,
        ensures
            r == (old(self)@ == expected),
            r ==> final(self)@ == next,
            !r ==> final(self)@ == old(self)@,
            final(self)@ >= old(self)@ || old(self)@ != expected,
    {
        if self.level == expected {
            self.level = next;
            true
        } else {
            false
        }
    }
}

} // verus!

verus! {

/// A catalog flag that is set when it reads `Y`, case-insensitively.
pub open spec fn spec_flag_y(flag: Option<Seq<char>>) -> bool {
    match flag {
        Some(f) => eq_ci(f, "Y"@),
        None => false,
    }
}

/// The identity marker accepts `YES` or `Y`.
pub open spec fn spec_flag_yes(flag: Option<Seq<char>>) -> bool {
    match flag {
        Some(f) => eq_ci(f, "YES"@) || eq_ci(f, "Y"@),
        None => false,
    }
}

pub open spec fn spec_parse_opt_i32(t: Option<Seq<char>>) -> Option<i32> {
    match t {
        Some(s) => parse_i32_spec(s),
        None => None,
    }
}

pub open spec fn spec_parse_opt_i64(t: Option<Seq<char>>) -> Option<i64> {
    match t {
        Some(s) => parse_i64_spec(s),
        None => None,
    }
}

fn parse_opt_i32(t: &Option<String>) -> (r: Option<i32>)
    ensures
        r == spec_parse_opt_i32(view_opt_string(*t)),
{
    match t {
        Some(s) => parse_i32(s.as_str()),
        None => None,
    }
}

fn parse_opt_i64(t: &Option<String>) -> (r: Option<i64>)
    ensures
        r == spec_parse_opt_i64(view_opt_string(*t)),
{
    match t {
        Some(s) => parse_i64(s.as_str()),
        None => None,
    }
}

fn opt_flag_y(flag: &Option<String>) -> (r: bool)
    ensures
        r == spec_flag_y(view_opt_string(*flag)),
{
    match flag {
        Some(f) => {
            let v = chars_of(f.as_str());
            eq_str_ci(&v, "Y")
        },
        None => false,
    }
}

fn opt_flag_yes(flag: &Option<String>) -> (r: bool)
    ensures
        r == spec_flag_yes(view_opt_string(*flag)),
{
    match flag {
        Some(f) => {
            let v = chars_of(f.as_str());
            eq_str_ci(&v, "YES") || eq_str_ci(&v, "Y")
        },
        None => false,
    }
}

/// Builds one column of the model from its catalog row, parsing the
/// numeric fields and classifying the nullable and identity flags; the
/// identity seed and increment are filled in later.
pub fn column_from_row(
    name: String,
    data_type: String,
    length: Option<String>,
    precision: Option<String>,
    scale: Option<String>,
    char_used: Option<String>,
    nullable_flag: Option<String>,
    default_value: Option<String>,
    identity_flag: Option<String>,
    comment: Option<String>,
) -> (r: Column)
    ensures
        r@.name == name@,
        r@.data_type == data_type@,
        r@.length == spec_parse_opt_i32(view_opt_string(length)),
        r@.precision == spec_parse_opt_i32(view_opt_string(precision)),
        r@.scale == spec_parse_opt_i32(view_opt_string(scale)),
        r@.char_semantics == view_opt_string(char_used),
        r@.nullable == spec_flag_y(view_opt_string(nullable_flag)),
        r@.comment == view_opt_string(comment),
        r@.default_value == view_opt_string(default_value),
        r@.identity == spec_flag_yes(view_opt_string(identity_flag)),
        r@.identity_start is None,
        r@.identity_increment is None,
{
    let length_v = parse_opt_i32(&length);
    let precision_v = parse_opt_i32(&precision);
    let scale_v = parse_opt_i32(&scale);
    let nullable = opt_flag_y(&nullable_flag);
    let identity = opt_flag_yes(&identity_flag);
    Column {
        name,
        data_type,
        length: length_v,
        precision: precision_v,
        scale: scale_v,
        char_semantics: char_used,
        nullable,
        comment,
        default_value,
        identity,
        identity_start: None,
        identity_increment: None,
    }
}

/// The position of the first identity column, if any.
pub open spec fn spec_first_identity(cols: Seq<ColumnView>) -> Option<int> {
    if exists|i: int| 0 <= i < cols.len() && (#[trigger] cols[i]).identity {
        Some(
            choose|i: int|
                0 <= i < cols.len() && (#[trigger] cols[i]).identity && (forall|j: int|
                    0 <= j < i ==> !(#[trigger] cols[j]).identity),
        )
    } else {
        None
    }
}

/// Fills the seed and increment into the first identity column; a table
/// has at most one, so only the first is ever populated.
pub fn apply_identity_info(columns: &mut Vec<Column>, seed: i64, incr: i64)
    ensures
        final(columns)@.len() == old(columns)@.len(),
        forall|j: int|
            0 <= j < final(columns)@.len() && !(#[trigger] old(columns).deep_view()[j]).identity
                ==> final(columns).deep_view()[j] == old(columns).deep_view()[j],
        forall|j: int|
            0 <= j < final(columns)@.len() && (#[trigger] old(columns).deep_view()[j]).identity
                && (exists|k: int|
                0 <= k < j && (#[trigger] old(columns).deep_view()[k]).identity) ==> final(columns).deep_view()[j] == old(columns).deep_view()[j],
        forall|j: int|
            0 <= j < final(columns)@.len() && (#[trigger] old(columns).deep_view()[j]).identity
                && (forall|k: int| 0 <= k < j ==> !(#[trigger] old(columns).deep_view()[k]).identity)
                ==> final(columns).deep_view()[j] == (ColumnView {
                identity_start: Some(seed),
                identity_increment: Some(incr),
                ..old(columns).deep_view()[j]
            }),
{
    let ghost odv = old(columns).deep_view();
    let mut i: usize = 0;
    while i < columns.len()
        invariant
            columns@ == old(columns)@,
            odv == old(columns).deep_view(),
            i <= columns@.len(),
            forall|j: int| 0 <= j < i ==> !(#[trigger] odv[j]).identity,
        decreases columns@.len() - i,
    {
        proof {
            assert(columns.deep_view()[i as int] == columns@[i as int]@);
        }
        if columns[i].identity {
            let old_col = &columns[i];
            let updated = Column {
                name: old_col.name.clone(),
                data_type: old_col.data_type.clone(),
                length: old_col.length,
                precision: old_col.precision,
                scale: old_col.scale,
                char_semantics: match &old_col.char_semantics {
                    Some(s) => Some(s.clone()),
                    None => None,
                },
                nullable: old_col.nullable,
                comment: match &old_col.comment {
                    Some(s) => Some(s.clone()),
                    None => None,
                },
                default_value: match &old_col.default_value {
                    Some(s) => Some(s.clone()),
                    None => None,
                },
                identity: old_col.identity,
                identity_start: Some(seed),
                identity_increment: Some(incr),
            };
            columns.set(i, updated);
            proof {
                assert forall|j: int|
                    0 <= j < columns@.len() && j != i implies #[trigger] columns.deep_view()[j]
                    == odv[j] by {
                    assert(columns@[j] == old(columns)@[j]);
                    assert(odv[j] == old(columns)@[j]@);
                }
                assert(columns.deep_view()[i as int] == (ColumnView {
                    identity_start: Some(seed),
                    identity_increment: Some(incr),
                    ..odv[i as int]
                }));
            }
            return ;
        }
        i = i + 1;
    }
}

/// Builds one listed table from its catalog row; the cached row count is
/// kept only when it parses.
pub fn table_from_row(name: String, comment: Option<String>, row_count: Option<String>) -> (r:
    Table)
    ensures
        r@.name == name@,
        r@.comment == view_opt_string(comment),
        r@.row_count == spec_parse_opt_i64(view_opt_string(row_count)),
{
    let rc = parse_opt_i64(&row_count);
    Table { name, comment, row_count: rc }
}

/// A listed table needs a live COUNT(*) fallback when the cached row count
/// is absent or zero.
pub fn needs_live_count(t: &Table) -> (r: bool)
    ensures
        r == (t@.row_count is None || t@.row_count == Some(0i64)),
{
    match &t.row_count {
        Some(c) => *c == 0,
        None => true,
    }
}

/// Builds one sequence from its catalog row: numeric fields parsed, the
/// increment defaulting to 1, flags classified, and the captured last
/// number kept as the start value.
pub fn sequence_from_row(
    name: String,
    min_value: Option<String>,
    max_value: Option<String>,
    increment_by: Option<String>,
    cache_size: Option<String>,
    cycle_flag: Option<String>,
    order_flag: Option<String>,
    last_number: Option<String>,
) -> (r: Sequence)
    ensures
        r@.name == name@,
        r@.min_value == spec_parse_opt_i64(view_opt_string(min_value)),
        r@.max_value == spec_parse_opt_i64(view_opt_string(max_value)),
        r@.increment_by == (match spec_parse_opt_i64(view_opt_string(increment_by)) {
            Some(v) => v,
            None => 1i64,
        }),
        r@.cache_size == spec_parse_opt_i64(view_opt_string(cache_size)),
        r@.cycle == spec_flag_y(view_opt_string(cycle_flag)),
        r@.order == spec_flag_y(view_opt_string(order_flag)),
        r@.start_with == spec_parse_opt_i64(view_opt_string(last_number)),
{
    let inc = match parse_opt_i64(&increment_by) {
        Some(v) => v,
        None => 1,
    };
    Sequence {
        name,
        min_value: parse_opt_i64(&min_value),
        max_value: parse_opt_i64(&max_value),
        increment_by: inc,
        cache_size: parse_opt_i64(&cache_size),
        cycle: opt_flag_y(&cycle_flag),
        order: opt_flag_y(&order_flag),
        start_with: parse_opt_i64(&last_number),
    }
}

/// The qualified `OWNER.TABLE` name of a referenced table.
pub fn referenced_table_name(owner: &str, table: &str) -> (r: String)
    ensures
        r@ == owner@ + "."@ + table@,
{
    let mut s = String::new();
    s.append(owner);
    s.append(".");
    s.append(table);
    proof {
        assert(s@ =~= owner@ + "."@ + table@);
    }
    s
}

/// A foreign-key fetch error that means the catalog lacks the update-rule
/// column, so the fallback query without it should be tried.
pub open spec fn spec_update_rule_missing(m: Seq<char>) -> bool {
    has_substring(upper_seq(m), "UPDATE_RULE"@) || has_substring(upper_seq(m), "-2207"@)
}

/// Detects the missing update-rule column from an error message.
pub fn is_update_rule_missing(message: &str) -> (r: bool)
    ensures
        r == spec_update_rule_missing(message@),
{
    let v = chars_of(message);
    let u = upper_vec(&v);
    contains_lit(&u, "UPDATE_RULE") || contains_lit(&u, "-2207")
}

/// Assembles the aggregate table model, failing exactly when the column
/// query returned no rows: the table does not exist in the schema.
pub fn assemble_table_details(
    owner: &str,
    table: String,
    comment: Option<String>,
    columns: Vec<Column>,
    primary_keys: Vec<String>,
    indexes: Vec<crate::model::Index>,
    unique_constraints: Vec<UniqueConstraint>,
    foreign_keys: Vec<crate::model::ForeignKey>,
    check_constraints: Vec<crate::model::CheckConstraint>,
    triggers: Vec<TriggerDefinition>,
) -> (r: Result<TableDetails, String>)
    ensures
        r is Ok <==> columns@.len() > 0,
        r matches Ok(t) ==> t@ == (TableDetailsView {
            name: table@,
            comment: view_opt_string(comment),
            columns: columns.deep_view(),
            primary_keys: primary_keys.deep_view(),
            indexes: indexes.deep_view(),
            unique_constraints: unique_constraints.deep_view(),
            foreign_keys: foreign_keys.deep_view(),
            check_constraints: check_constraints.deep_view(),
            triggers: triggers.deep_view(),
        }),
        r matches Err(m) ==> m@ == "Table '"@ + table@ + "' does not exist in schema '"@ + owner@
            + "'"@,
{
    if columns.len() == 0 {
        let mut m = String::from_str("Table '");
        m.append(table.as_str());
        m.append("' does not exist in schema '");
        m.append(owner);
        m.append("'");
        return Err(m);
    }
    Ok(
        TableDetails {
            name: table,
            comment,
            columns,
            primary_keys,
            indexes,
            unique_constraints,
            foreign_keys,
            check_constraints,
            triggers,
        },
    )
}

} // verus!

verus! {

/// The trimmed, non-empty event names of a triggering-event string after
/// splitting at `OR` and comma separators.
pub open spec fn spec_trim_nonempty(parts: Seq<Seq<char>>) -> Seq<Seq<char>>
    decreases parts.len(),
{
    if parts.len() == 0 {
        Seq::empty()
    } else {
        spec_trim_nonempty(parts.drop_last()) + (if trim_spec(parts.last()).len() > 0 {
            seq![trim_spec(parts.last())]
        } else {
            Seq::empty()
        })
    }
}

/// The normalized event list: `OR`-separated lists are folded to commas,
/// split, trimmed and cleared of empties, with INSERT as the default.
pub open spec fn spec_events(ev: Seq<char>) -> Seq<Seq<char>> {
    let kept = spec_trim_nonempty(split_on(replace_seq(ev, " OR "@, ","@), ','));
    if kept.len() == 0 {
        seq!["INSERT"@]
    } else {
        kept
    }
}

/// The timing classified from the trigger type text: INSTEAD OF wins over
/// AFTER, and BEFORE is the default.
pub open spec fn spec_timing(type_upper: Seq<char>) -> Seq<char> {
    if has_substring(type_upper, "INSTEAD"@) {
        "INSTEAD OF"@
    } else if has_substring(type_upper, "AFTER"@) {
        "AFTER"@
    } else {
        "BEFORE"@
    }
}

pub open spec fn spec_opt_or(o: Option<Seq<char>>, dflt: Seq<char>) -> Seq<char> {
    match o {
        Some(v) => v,
        None => dflt,
    }
}

/// The normalized body: any when-clause text is prepended as an explicit
/// `WHEN (...)` line.
pub open spec fn spec_trigger_body(when_clause: Seq<char>, body: Seq<char>) -> Seq<char> {
    if trim_spec(when_clause).len() > 0 {
        "WHEN ("@ + trim_spec(when_clause) + ")\n"@ + trim_spec(body)
    } else {
        trim_spec(body)
    }
}

/// Normalizes one trigger catalog row: missing fields default, the event
/// list is split, timing and the row-level flag are classified from the
/// type and description text, and the when clause is folded into the body.
pub fn trigger_from_row(
    table: &str,
    name: String,
    trigger_type: Option<String>,
    triggering_event: Option<String>,
    table_name: Option<String>,
    when_clause: Option<String>,
    body: Option<String>,
    description: Option<String>,
) -> (r: TriggerDefinition)
    ensures
        r@.name == name@,
        r@.table_name == spec_opt_or(view_opt_string(table_name), table@),
        r@.timing == spec_timing(
            upper_seq(spec_opt_or(view_opt_string(trigger_type), "BEFORE"@)),
        ),
        r@.events == spec_events(spec_opt_or(view_opt_string(triggering_event), "INSERT"@)),
        r@.each_row == (has_substring(
            upper_seq(spec_opt_or(view_opt_string(description), Seq::empty())),
            "EACH ROW"@,
        ) || has_substring(
            upper_seq(spec_opt_or(view_opt_string(trigger_type), "BEFORE"@)),
            "EACH ROW"@,
        )),
        r@.body == spec_trigger_body(
            spec_opt_or(view_opt_string(when_clause), Seq::empty()),
            spec_opt_or(view_opt_string(body), Seq::empty()),
        ),
{
    let ttype = match trigger_type {
        Some(t) => t,
        None => String::from_str("BEFORE"),
    };
    let tevent = match triggering_event {
        Some(t) => t,
        None => String::from_str("INSERT"),
    };
    let tname = match table_name {
        Some(t) => t,
        None => String::from_str(table),
    };
    let wc = match when_clause {
        Some(t) => t,
        None => String::new(),
    };
    let bd = match body {
        Some(t) => t,
        None => String::new(),
    };
    let desc = match description {
        Some(t) => t,
        None => String::new(),
    };
    let ev = chars_of(tevent.as_str());
    let normalized = replace_lit(&ev, " OR ", ",");
    let parts = split_char(&normalized, ',');
    let ghost parts_g = split_on(replace_seq(tevent@, " OR "@, ","@), ',');
    let mut events: Vec<String> = Vec::new();
    let mut i: usize = 0;
    while i < parts.len()
        invariant
            parts.deep_view() == parts_g,
            parts_g.len() == parts@.len(),
            i <= parts@.len(),
            events.deep_view() == spec_trim_nonempty(parts_g.take(i as int)),
        decreases parts@.len() - i,
    {
        proof {
            assert(parts_g.take(i + 1).drop_last() =~= parts_g.take(i as int));
            assert(parts_g.take(i + 1).last() == parts_g[i as int]);
            assert(parts@[i as int].deep_view() =~= parts@[i as int]@);
        }
        let trimmed = trim_vec(&parts[i]);
        let ghost old_ev = events.deep_view();
        if trimmed.len() > 0 {
            events.push(string_of(&trimmed));
            proof {
                assert(events.deep_view() =~~= old_ev + seq![trim_spec(parts_g[i as int])]);
            }
        } else {
            proof {
                assert(old_ev + Seq::<Seq<char>>::empty() =~= old_ev);
            }
        }
        i = i + 1;
    }
    proof {
        assert(parts_g.take(parts_g.len() as int) =~= parts_g);
    }
    if events.len() == 0 {
        events.push(String::from_str("INSERT"));
        proof {
            assert(events.deep_view() =~~= seq!["INSERT"@]);
        }
    }
    let tv = chars_of(ttype.as_str());
    let tu = upper_vec(&tv);
    let timing = if contains_lit(&tu, "INSTEAD") {
        String::from_str("INSTEAD OF")
    } else if contains_lit(&tu, "AFTER") {
        String::from_str("AFTER")
    } else {
        String::from_str("BEFORE")
    };
    let dv = chars_of(desc.as_str());
    let du = upper_vec(&dv);
    let each_row = contains_lit(&du, "EACH ROW") || contains_lit(&tu, "EACH ROW");
    let wv = chars_of(wc.as_str());
    let wt = trim_vec(&wv);
    let bv = chars_of(bd.as_str());
    let bt = trim_vec(&bv);
    let bt_s = string_of(&bt);
    let trigger_body = if wt.len() > 0 {
        let mut s = String::from_str("WHEN (");
        let wts = string_of(&wt);
        s.append(wts.as_str());
        s.append(")\n");
        s.append(bt_s.as_str());
        s
    } else {
        bt_s
    };
    TriggerDefinition {
        name,
        table_name: tname,
        timing,
        events,
        each_row,
        body: trigger_body,
    }
}

/// Groups consecutive unique-constraint rows (ordered by constraint name
/// and position) into constraints with their ordered column lists.
pub open spec fn spec_group_ucs(
    names: Seq<Seq<char>>,
    cols: Seq<Seq<char>>,
    k: int,
) -> Seq<UniqueConstraintView>
    decreases k,
{
    if k <= 0 {
        Seq::empty()
    } else {
        let prev = spec_group_ucs(names, cols, k - 1);
        if prev.len() > 0 && prev.last().name == names[k - 1] {
            prev.update(
                prev.len() - 1,
                UniqueConstraintView {
                    name: prev.last().name,
                    columns: prev.last().columns.push(cols[k - 1]),
                },
            )
        } else {
            prev.push(UniqueConstraintView { name: names[k - 1], columns: seq![cols[k - 1]] })
        }
    }
}

/// Groups the fetched unique-constraint rows.
pub fn group_unique_rows(names: &Vec<String>, cols: &Vec<String>) -> (r: Vec<UniqueConstraint>)
    requires
        names@.len() == cols@.len(),
    ensures
        r.deep_view() == spec_group_ucs(names.deep_view(), cols.deep_view(), names@.len() as int),
{
    let ghost nv = names.deep_view();
    let ghost cv = cols.deep_view();
    let mut r: Vec<UniqueConstraint> = Vec::new();
    let mut i: usize = 0;
    while i < names.len()
        invariant
            nv == names.deep_view(),
            cv == cols.deep_view(),
            nv.len() == names@.len(),
            cv.len() == names@.len(),
            i <= names@.len(),
            r.deep_view() == spec_group_ucs(nv, cv, i as int),
        decreases names@.len() - i,
    {
        proof {
            assert(nv[i as int] == names@[i as int]@);
            assert(cv[i as int] == cols@[i as int]@);
        }
        let ghost old_r = r.deep_view();
        let mut same = false;
        if r.len() > 0 {
            let last = &r[r.len() - 1];
            if last.name == names[i] {
                same = true;
            }
            proof {
                assert(old_r.last() == r@[r@.len() - 1]@);
            }
        }
        if same {
            let popped = r.pop().unwrap();
            proof {
                assert(popped@ == old_r.last());
            }
            let mut updated_cols = popped.columns;
            updated_cols.push(cols[i].clone());
            r.push(UniqueConstraint { name: popped.name, columns: updated_cols });
            proof {
                assert(forall|j: int|
                    0 <= j < r@.len() ==> #[trigger] r.deep_view()[j] == r@[j]@);
                assert(r@[r@.len() - 1]@ =~~= UniqueConstraintView {
                    name: old_r.last().name,
                    columns: old_r.last().columns.push(cv[i as int]),
                });
                assert(r.deep_view() =~~= old_r.update(
                    old_r.len() - 1,
                    UniqueConstraintView {
                        name: old_r.last().name,
                        columns: old_r.last().columns.push(cv[i as int]),
                    },
                ));
            }
        } else {
            r.push(
                UniqueConstraint { name: names[i].clone(), columns: vec![cols[i].clone()] },
            );
            proof {
                assert(forall|j: int|
                    0 <= j < r@.len() ==> #[trigger] r.deep_view()[j] == r@[j]@);
                assert(r@[r@.len() - 1]@ =~~= UniqueConstraintView {
                    name: nv[i as int],
                    columns: seq![cv[i as int]],
                });
                assert(r.deep_view() =~~= old_r.push(
                    UniqueConstraintView { name: nv[i as int], columns: seq![cv[i as int]] },
                ));
            }
        }
        i = i + 1;
    }
    r
}

} // verus!

verus! {

/// The uniqueness flag of an index row: `UNIQUE` or `Y`.
pub open spec fn spec_uniqueness(flag: Option<Seq<char>>) -> bool {
    match flag {
        Some(f) => eq_ci(f, "UNIQUE"@) || eq_ci(f, "Y"@),
        None => false,
    }
}

/// The column names mapped to one index, in position order.
pub open spec fn spec_cols_for(
    col_index_names: Seq<Seq<char>>,
    col_names: Seq<Seq<char>>,
    name: Seq<char>,
) -> Seq<Seq<char>>
    decreases col_index_names.len(),
{
    if col_index_names.len() == 0 {
        Seq::empty()
    } else {
        spec_cols_for(col_index_names.drop_last(), col_names.drop_last(), name) + (
        if col_index_names.last() == name {
            seq![col_names.last()]
        } else {
            Seq::empty()
        })
    }
}

/// The assembled indexes over the first `k` index rows: catalog order is
/// preserved, repeated names are taken once, and indexes with no resolved
/// columns are dropped.
pub open spec fn spec_assemble_indexes(
    names: Seq<Seq<char>>,
    flags: Seq<Option<Seq<char>>>,
    col_index_names: Seq<Seq<char>>,
    col_names: Seq<Seq<char>>,
    k: int,
) -> Seq<crate::model::IndexView>
    decreases k,
{
    if k <= 0 {
        Seq::empty()
    } else {
        let prev = spec_assemble_indexes(names, flags, col_index_names, col_names, k - 1);
        let n = names[k - 1];
        if exists|j: int| 0 <= j < k - 1 && names[j] == n {
            prev
        } else {
            let cols = spec_cols_for(col_index_names, col_names, n);
            if cols.len() > 0 {
                prev.push(
                    crate::model::IndexView {
                        name: n,
                        columns: cols,
                        unique: spec_uniqueness(flags[k - 1]),
                    },
                )
            } else {
                prev
            }
        }
    }
}

/// Collects the columns mapped to one index name.
fn cols_for(col_index_names: &Vec<String>, col_names: &Vec<String>, name: &String) -> (r: Vec<
    String,
>)
    requires
        col_index_names@.len() == col_names@.len(),
    ensures
        r.deep_view() == spec_cols_for(
            col_index_names.deep_view(),
            col_names.deep_view(),
            name@,
        ),
{
    let ghost inv = col_index_names.deep_view();
    let ghost cnv = col_names.deep_view();
    let mut r: Vec<String> = Vec::new();
    let mut i: usize = 0;
    while i < col_index_names.len()
        invariant
            inv == col_index_names.deep_view(),
            cnv == col_names.deep_view(),
            inv.len() == col_index_names@.len(),
            cnv.len() == col_index_names@.len(),
            col_index_names@.len() == col_names@.len(),
            i <= col_index_names@.len(),
            r.deep_view() == spec_cols_for(inv.take(i as int), cnv.take(i as int), name@),
        decreases col_index_names@.len() - i,
    {
        proof {
            assert(inv.take(i + 1).drop_last() =~= inv.take(i as int));
            assert(cnv.take(i + 1).drop_last() =~= cnv.take(i as int));
            assert(inv.take(i + 1).last() == inv[i as int]);
            assert(cnv.take(i + 1).last() == cnv[i as int]);
            assert(inv[i as int] == col_index_names@[i as int]@);
            assert(cnv[i as int] == col_names@[i as int]@);
        }
        let ghost old_r = r.deep_view();
        if col_index_names[i] == *name {
            r.push(col_names[i].clone());
            proof {
                assert(r.deep_view() =~~= old_r + seq![cnv[i as int]]);
            }
        } else {
            proof {
                assert(old_r + Seq::<Seq<char>>::empty() =~= old_r);
            }
        }
        i = i + 1;
    }
    proof {
        assert(inv.take(inv.len() as int) =~= inv);
        assert(cnv.take(cnv.len() as int) =~= cnv);
    }
    r
}

/// Assembles the fetched index rows and index-column rows into the model:
/// two-pass, order preserving, dropping indexes with no resolved columns.
pub fn assemble_indexes(
    names: &Vec<String>,
    flags: &Vec<Option<String>>,
    col_index_names: &Vec<String>,
    col_names: &Vec<String>,
) -> (r: Vec<crate::model::Index>)
    requires
        names@.len() == flags@.len(),
        col_index_names@.len() == col_names@.len(),
    ensures
        r.deep_view() == spec_assemble_indexes(
            names.deep_view(),
            flags.deep_view(),
            col_index_names.deep_view(),
            col_names.deep_view(),
            names@.len() as int,
        ),
{
    let ghost nv = names.deep_view();
    let ghost fv = flags.deep_view();
    let ghost inv = col_index_names.deep_view();
    let ghost cnv = col_names.deep_view();
    let mut r: Vec<crate::model::Index> = Vec::new();
    let mut i: usize = 0;
    while i < names.len()
        invariant
            nv == names.deep_view(),
            fv == flags.deep_view(),
            inv == col_index_names.deep_view(),
            cnv == col_names.deep_view(),
            nv.len() == names@.len(),
            fv.len() == names@.len(),
            names@.len() == flags@.len(),
            col_index_names@.len() == col_names@.len(),
            i <= names@.len(),
            r.deep_view() == spec_assemble_indexes(nv, fv, inv, cnv, i as int),
        decreases names@.len() - i,
    {
        proof {
            assert(nv[i as int] == names@[i as int]@);
            assert(fv[i as int] == flags@[i as int].deep_view());
        }
        let mut dup = false;
        let mut j: usize = 0;
        while j < i && !dup
            invariant
                nv == names.deep_view(),
                nv.len() == names@.len(),
                j <= i < names@.len(),
                dup ==> exists|m: int| 0 <= m < i && nv[m] == nv[i as int],
                !dup ==> forall|m: int| 0 <= m < j ==> nv[m] != nv[i as int],
            decreases i - j + (if dup {
                0int
            } else {
                1int
            }),
        {
            proof {
                assert(nv[j as int] == names@[j as int]@);
                assert(nv[i as int] == names@[i as int]@);
            }
            if names[j] == names[i] {
                dup = true;
            } else {
                j = j + 1;
            }
        }
        let ghost old_r = r.deep_view();
        if !dup {
            let cols = cols_for(col_index_names, col_names, &names[i]);
            if cols.len() > 0 {
                let uniqueness = match &flags[i] {
                    Some(f) => {
                        let fvv = chars_of(f.as_str());
                        eq_str_ci(&fvv, "UNIQUE") || eq_str_ci(&fvv, "Y")
                    },
                    None => false,
                };
                proof {
                    assert(uniqueness == spec_uniqueness(fv[i as int]));
                }
                r.push(
                    crate::model::Index {
                        name: names[i].clone(),
                        columns: cols,
                        unique: uniqueness,
                    },
                );
                proof {
                    assert(forall|m: int|
                        0 <= m < r@.len() ==> #[trigger] r.deep_view()[m] == r@[m]@);
                    assert(r@[r@.len() - 1]@ =~~= crate::model::IndexView {
                        name: nv[i as int],
                        columns: spec_cols_for(inv, cnv, nv[i as int]),
                        unique: spec_uniqueness(fv[i as int]),
                    });
                    assert(r.deep_view() =~~= old_r.push(
                        crate::model::IndexView {
                            name: nv[i as int],
                            columns: spec_cols_for(inv, cnv, nv[i as int]),
                            unique: spec_uniqueness(fv[i as int]),
                        },
                    ));
                }
            }
        }
        i = i + 1;
    }
    r
}

} // verus!

verus! {

pub open spec fn spec_fk_query(schema: Seq<char>, table: Seq<char>, with_update_rule: bool) -> Seq<
    char,
> {
    (if with_update_rule {
        "SELECT ac.CONSTRAINT_NAME, ac.R_CONSTRAINT_NAME, ac.DELETE_RULE, ac.UPDATE_RULE FROM ALL_CONSTRAINTS ac WHERE ac.CONSTRAINT_TYPE = 'R' AND ac.OWNER = '"@
    } else {
        "SELECT ac.CONSTRAINT_NAME, ac.R_CONSTRAINT_NAME, ac.DELETE_RULE, NULL AS UPDATE_RULE FROM ALL_CONSTRAINTS ac WHERE ac.CONSTRAINT_TYPE = 'R' AND ac.OWNER = '"@
    }) + spec_escape_literal(schema) + "' AND ac.TABLE_NAME = '"@ + spec_escape_literal(table)
        + "' ORDER BY ac.CONSTRAINT_NAME"@
}

/// Catalog query: the foreign keys of one table, with a fallback shape for
/// catalogs that lack the update-rule column.
pub fn fk_query(schema: &str, table: &str, with_update_rule: bool) -> (r: String)
    ensures
        r@ == spec_fk_query(schema@, table@, with_update_rule),
{
    let mut q = if with_update_rule {
        String::from_str(
            "SELECT ac.CONSTRAINT_NAME, ac.R_CONSTRAINT_NAME, ac.DELETE_RULE, ac.UPDATE_RULE FROM ALL_CONSTRAINTS ac WHERE ac.CONSTRAINT_TYPE = 'R' AND ac.OWNER = '",
        )
    } else {
        String::from_str(
            "SELECT ac.CONSTRAINT_NAME, ac.R_CONSTRAINT_NAME, ac.DELETE_RULE, NULL AS UPDATE_RULE FROM ALL_CONSTRAINTS ac WHERE ac.CONSTRAINT_TYPE = 'R' AND ac.OWNER = '",
        )
    };
    let es = escape_single_quotes(schema);
    q.append(es.as_str());
    q.append("' AND ac.TABLE_NAME = '");
    let et = escape_single_quotes(table);
    q.append(et.as_str());
    q.append("' ORDER BY ac.CONSTRAINT_NAME");
    q
}

} // verus!
