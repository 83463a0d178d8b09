//! The normalized object model reconstructed from catalog metadata, the
//! request/response shapes of the surrounding API, and their ghost views.

use vstd::prelude::*;
use crate::text::{dec_int, trim_spec};

verus! {

/// One table column as reported by the catalog.
#[derive(Debug, Clone, PartialEq, Eq)]
pub struct Column {
    pub name: String,
    pub data_type: String,
    pub length: Option<i32>,
    pub precision: Option<i32>,
    pub scale: Option<i32>,
    pub char_semantics: Option<String>,
    pub nullable: bool,
    pub comment: Option<String>,
    pub default_value: Option<String>,
    pub identity: bool,
    pub identity_start: Option<i64>,
    pub identity_increment: Option<i64>,
}

#[verifier::ext_equal]
pub struct ColumnView {
    pub name: Seq<char>,
    pub data_type: Seq<char>,
    pub length: Option<i32>,
    pub precision: Option<i32>,
    pub scale: Option<i32>,
    pub char_semantics: Option<Seq<char>>,
    pub nullable: bool,
    pub comment: Option<Seq<char>>,
    pub default_value: Option<Seq<char>>,
    pub identity: bool,
    pub identity_start: Option<i64>,
    pub identity_increment: Option<i64>,
}

pub open spec fn view_opt_string(s: Option<String>) -> Option<Seq<char>> {
    match s {
        Some(v) => Some(v@),
        None => None,
    }
}

impl View for Column {
    type V = ColumnView;

    open spec fn view(&self) -> ColumnView {
        ColumnView {
            name: self.name@,
            data_type: self.data_type@,
            length: self.length,
            precision: self.precision,
            scale: self.scale,
            char_semantics: view_opt_string(self.char_semantics),
            nullable: self.nullable,
            comment: view_opt_string(self.comment),
            default_value: view_opt_string(self.default_value),
            identity: self.identity,
            identity_start: self.identity_start,
            identity_increment: self.identity_increment,
        }
    }
}

impl DeepView for Column {
    type V = ColumnView;

    open spec fn deep_view(&self) -> ColumnView {
        self.view()
    }
}

/// A catalog index: name, ordered column list and uniqueness flag.
#[derive(Debug, Clone, PartialEq, Eq)]
pub struct Index {
    pub name: String,
    pub columns: Vec<String>,
    pub unique: bool,
}

#[verifier::ext_equal]
pub struct IndexView {
    pub name: Seq<char>,
    pub columns: Seq<Seq<char>>,
    pub unique: bool,
}

impl View for Index {
    type V = IndexView;

    open spec fn view(&self) -> IndexView {
        IndexView { name: self.name@, columns: self.columns.deep_view(), unique: self.unique }
    }
}

impl DeepView for Index {
    type V = IndexView;

    open spec fn deep_view(&self) -> IndexView {
        self.view()
    }
}

#[derive(Debug, Clone, PartialEq, Eq)]
pub struct UniqueConstraint {
    pub name: String,
    pub columns: Vec<String>,
}

#[verifier::ext_equal]
pub struct UniqueConstraintView {
    pub name: Seq<char>,
    pub columns: Seq<Seq<char>>,
}

impl View for UniqueConstraint {
    type V = UniqueConstraintView;

    open spec fn view(&self) -> UniqueConstraintView {
        UniqueConstraintView { name: self.name@, columns: self.columns.deep_view() }
    }
}

impl DeepView for UniqueConstraint {
    type V = UniqueConstraintView;

    open spec fn deep_view(&self) -> UniqueConstraintView {
        self.view()
    }
}

#[derive(Debug, Clone, PartialEq, Eq)]
pub struct CheckConstraint {
    pub name: String,
    pub condition: String,
}

#[verifier::ext_equal]
pub struct CheckConstraintView {
    pub name: Seq<char>,
    pub condition: Seq<char>,
}

impl View for CheckConstraint {
    type V = CheckConstraintView;

    open spec fn view(&self) -> CheckConstraintView {
        CheckConstraintView { name: self.name@, condition: self.condition@ }
    }
}

impl DeepView for CheckConstraint {
    type V = CheckConstraintView;

    open spec fn deep_view(&self) -> CheckConstraintView {
        self.view()
    }
}

#[derive(Debug, Clone, PartialEq, Eq)]
pub struct ForeignKey {
    pub name: String,
    pub columns: Vec<String>,
    pub referenced_table: String,
    pub referenced_columns: Vec<String>,
    pub delete_rule: Option<String>,
    pub update_rule: Option<String>,
}

#[verifier::ext_equal]
pub struct ForeignKeyView {
    pub name: Seq<char>,
    pub columns: Seq<Seq<char>>,
    pub referenced_table: Seq<char>,
    pub referenced_columns: Seq<Seq<char>>,
    pub delete_rule: Option<Seq<char>>,
    pub update_rule: Option<Seq<char>>,
}

impl View for ForeignKey {
    type V = ForeignKeyView;

    open spec fn view(&self) -> ForeignKeyView {
        ForeignKeyView {
            name: self.name@,
            columns: self.columns.deep_view(),
            referenced_table: self.referenced_table@,
            referenced_columns: self.referenced_columns.deep_view(),
            delete_rule: view_opt_string(self.delete_rule),
            update_rule: view_opt_string(self.update_rule),
        }
    }
}

impl DeepView for ForeignKey {
    type V = ForeignKeyView;

    open spec fn deep_view(&self) -> ForeignKeyView {
        self.view()
    }
}

/// A sequence object with its numeric properties.
#[derive(Debug, Clone, PartialEq, Eq)]
pub struct Sequence {
    pub name: String,
    pub min_value: Option<i64>,
    pub max_value: Option<i64>,
    pub increment_by: i64,
    pub cache_size: Option<i64>,
    pub cycle: bool,
    pub order: bool,
    pub start_with: Option<i64>,
}

#[verifier::ext_equal]
pub struct SequenceView {
    pub name: Seq<char>,
    pub min_value: Option<i64>,
    pub max_value: Option<i64>,
    pub increment_by: i64,
    pub cache_size: Option<i64>,
    pub cycle: bool,
    pub order: bool,
    pub start_with: Option<i64>,
}

impl View for Sequence {
    type V = SequenceView;

    open spec fn view(&self) -> SequenceView {
        SequenceView {
            name: self.name@,
            min_value: self.min_value,
            max_value: self.max_value,
            increment_by: self.increment_by,
            cache_size: self.cache_size,
            cycle: self.cycle,
            order: self.order,
            start_with: self.start_with,
        }
    }
}

impl DeepView for Sequence {
    type V = SequenceView;

    open spec fn deep_view(&self) -> SequenceView {
        self.view()
    }
}

/// One trigger: name, owning table, timing, events, row-level flag and its
/// raw procedural body.
#[derive(Debug, Clone, PartialEq, Eq)]
pub struct TriggerDefinition {
    pub name: String,
    pub table_name: String,
    pub timing: String,
    pub events: Vec<String>,
    pub each_row: bool,
    pub body: String,
}

#[verifier::ext_equal]
pub struct TriggerDefinitionView {
    pub name: Seq<char>,
    pub table_name: Seq<char>,
    pub timing: Seq<char>,
    pub events: Seq<Seq<char>>,
    pub each_row: bool,
    pub body: Seq<char>,
}

impl View for TriggerDefinition {
    type V = TriggerDefinitionView;

    open spec fn view(&self) -> TriggerDefinitionView {
        TriggerDefinitionView {
            name: self.name@,
            table_name: self.table_name@,
            timing: self.timing@,
            events: self.events.deep_view(),
            each_row: self.each_row,
            body: self.body@,
        }
    }
}

impl DeepView for TriggerDefinition {
    type V = TriggerDefinitionView;

    open spec fn deep_view(&self) -> TriggerDefinitionView {
        self.view()
    }
}

/// A table listed by the catalog, with its comment and best-effort row count.
#[derive(Debug, Clone, PartialEq, Eq)]
pub struct Table {
    pub name: String,
    pub comment: Option<String>,
    pub row_count: Option<i64>,
}

#[verifier::ext_equal]
pub struct TableView {
    pub name: Seq<char>,
    pub comment: Option<Seq<char>>,
    pub row_count: Option<i64>,
}

impl View for Table {
    type V = TableView;

    open spec fn view(&self) -> TableView {
        TableView {
            name: self.name@,
            comment: view_opt_string(self.comment),
            row_count: self.row_count,
        }
    }
}

impl DeepView for Table {
    type V = TableView;

    open spec fn deep_view(&self) -> TableView {
        self.view()
    }
}

/// Aggregate root for one table: everything the generators need.
#[derive(Debug, Clone, PartialEq, Eq)]
pub struct TableDetails {
    pub name: String,
    pub comment: Option<String>,
    pub columns: Vec<Column>,
    pub primary_keys: Vec<String>,
    pub indexes: Vec<Index>,
    pub unique_constraints: Vec<UniqueConstraint>,
    pub foreign_keys: Vec<ForeignKey>,
    pub check_constraints: Vec<CheckConstraint>,
    pub triggers: Vec<TriggerDefinition>,
}

#[verifier::ext_equal]
pub struct TableDetailsView {
    pub name: Seq<char>,
    pub comment: Option<Seq<char>>,
    pub columns: Seq<ColumnView>,
    pub primary_keys: Seq<Seq<char>>,
    pub indexes: Seq<IndexView>,
    pub unique_constraints: Seq<UniqueConstraintView>,
    pub foreign_keys: Seq<ForeignKeyView>,
    pub check_constraints: Seq<CheckConstraintView>,
    pub triggers: Seq<TriggerDefinitionView>,
}

impl View for TableDetails {
    type V = TableDetailsView;

    open spec fn view(&self) -> TableDetailsView {
        TableDetailsView {
            name: self.name@,
            comment: view_opt_string(self.comment),
            columns: self.columns.deep_view(),
            primary_keys: self.primary_keys.deep_view(),
            indexes: self.indexes.deep_view(),
            unique_constraints: self.unique_constraints.deep_view(),
            foreign_keys: self.foreign_keys.deep_view(),
            check_constraints: self.check_constraints.deep_view(),
            triggers: self.triggers.deep_view(),
        }
    }
}

impl DeepView for TableDetails {
    type V = TableDetailsView;

    open spec fn deep_view(&self) -> TableDetailsView {
        self.view()
    }
}

/// Where a stored connection configuration came from.
#[derive(Debug, Clone, PartialEq, Eq)]
pub enum ConfigSource {
    Env,
    Sqlite,
}

/// Connection parameters for the source database.
#[derive(Debug, Clone, PartialEq, Eq)]
pub struct ConnectionConfig {
    pub host: String,
    pub port: u16,
    pub username: String,
    pub password: String,
    pub schema: String,
    pub export_schema: Option<String>,
}

impl ConnectionConfig {
    /// Builds the ODBC connection string expected by the native driver, with
    /// the driver value supplied by the caller (locating a driver on the
    /// machine is the shell's concern, not this library's).
    pub fn connection_string(&self, driver: &str) -> (r: String)
        ensures
            r@ == "DRIVER="@ + driver@ + ";SERVER="@ + self.host@ + ";PORT="@ + dec_int(
                self.port as int,
            ) + ";UID="@ + self.username@ + ";PWD="@ + self.password@,
    {
        let mut r = String::new();
        r.append("DRIVER=");
        r.append(driver);
        r.append(";SERVER=");
        r.append(self.host.as_str());
        r.append(";PORT=");
        let port = crate::text::usize_to_string(self.port as usize);
        r.append(port.as_str());
        r.append(";UID=");
        r.append(self.username.as_str());
        r.append(";PWD=");
        r.append(self.password.as_str());
        r
    }

    /// Surfaces misconfiguration before any query: the host and username must
    /// be non-blank, the port non-zero and the password non-empty.
    pub fn validate(&self) -> (r: Result<(), String>)
        ensures
            r is Ok <==> trim_spec(self.host@).len() > 0 && self.port > 0 && trim_spec(
                self.username@,
            ).len() > 0 && self.password@.len() > 0,
            r matches Err(m) ==> m@ == if trim_spec(self.host@).len() == 0 {
                "DM8 host is required"@
            } else if self.port == 0 {
                "DM8 port must be greater than zero"@
            } else if trim_spec(self.username@).len() == 0 {
                "DM8 username is required"@
            } else {
                "DM8 password is required"@
            },
    {
        let host = crate::text::chars_of(self.host.as_str());
        let host_trimmed = crate::text::trim_vec(&host);
        if host_trimmed.len() == 0 {
            return Err(String::from_str("DM8 host is required"));
        }
        if self.port == 0 {
            return Err(String::from_str("DM8 port must be greater than zero"));
        }
        let user = crate::text::chars_of(self.username.as_str());
        let user_trimmed = crate::text::trim_vec(&user);
        if user_trimmed.len() == 0 {
            return Err(String::from_str("DM8 username is required"));
        }
        if self.password.as_str().unicode_len() == 0 {
            return Err(String::from_str("DM8 password is required"));
        }
        Ok(())
    }
}

/// A saved connection with its provenance.
#[derive(Debug, Clone, PartialEq, Eq)]
pub struct StoredConnection {
    pub config: ConnectionConfig,
    pub source: ConfigSource,
    pub updated_at: Option<String>,
}

#[derive(Debug, Clone, PartialEq, Eq)]
pub struct StoredConnectionResponse {
    pub config: ConnectionConfig,
    pub source: ConfigSource,
    pub updated_at: Option<String>,
}

#[derive(Debug, Clone, PartialEq, Eq)]
pub struct TestConnectionRequest {
    pub host: String,
    pub port: u16,
    pub username: String,
    pub password: String,
    pub schema: String,
}

#[derive(Debug, Clone, PartialEq, Eq)]
pub struct TestConnectionResponse {
    pub success: bool,
    pub message: String,
}

#[derive(Debug, Clone, PartialEq, Eq)]
pub struct SchemaQuery {
    pub host: String,
    pub port: u16,
    pub username: String,
    pub password: String,
    pub schema: String,
}

/// An export request as the API layer hands it to the engine.
#[derive(Debug, Clone, PartialEq, Eq)]
pub struct ExportRequest {
    pub config: ConnectionConfig,
    pub export_schema: Option<String>,
    pub export_compat: Option<String>,
    pub tables: Vec<String>,
    pub include_ddl: bool,
    pub include_data: bool,
    pub batch_size: Option<usize>,
    pub drop_existing: bool,
    pub include_row_counts: bool,
}

#[derive(Debug, Clone, PartialEq, Eq)]
pub struct ExportResponse {
    pub success: bool,
    pub message: String,
    pub file_path: Option<String>,
}

/// Uniform API envelope: either data or an error message.
#[derive(Debug, Clone, PartialEq, Eq)]
pub struct ApiResponse<T> {
    pub success: bool,
    pub data: Option<T>,
    pub error: Option<String>,
}

impl<T> ApiResponse<T> {
    pub fn success(data: T) -> (r: ApiResponse<T>)
        ensures
            r.success == true,
            r.data == Some(data),
            r.error is None,
    {
        ApiResponse { success: true, data: Some(data), error: None }
    }

    pub fn error(message: String) -> (r: ApiResponse<T>)
        ensures
            r.success == false,
            r.data is None,
            r.error matches Some(m) && m@ == message@,
    {
        ApiResponse { success: false, data: None, error: Some(message) }
    }
}

/// The serde default used for `drop_existing`.
pub fn default_true() -> (r: bool)
    ensures
        r == true,
{
    true
}

/// The serde default used for `include_row_counts`.
pub fn default_false() -> (r: bool)
    ensures
        r == false,
{
    false
}

/// How a native driver library was located.
#[derive(Debug, Clone, PartialEq, Eq)]
pub enum DriverSource {
    Bundled,
    Env,
    System,
}

/// A driver library that was found on the machine, as plain paths.
#[derive(Debug, Clone, PartialEq, Eq)]
pub struct ResolvedDriver {
    pub driver_path: String,
    pub search_dir: String,
    pub source: DriverSource,
}

} // verus!
