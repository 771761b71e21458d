//! Sync data exchange rules: what a local change exports as, and how a
//! remote change is applied (allowlisted tables, safe and known columns,
//! last-writer-wins on `updated_at`).

use vstd::prelude::*;
use crate::codec::{base64_encode, base64_spec};
use crate::numtext::{decimal, i64_text, int_text, u64_text};
use crate::peers_parser::strings_contain;
use crate::peers_types::{str_below, strings_view};
use crate::sync_cursor::opt_string_view;
use crate::text::{
    chars_of, extend_chars, extend_str, is_ascii_alnum, join, replace_char, seq_lt, str_eq,
    string_of,
};
use crate::types::{is_sync_table, sync_table_names};

verus! {

// ------------------------------------------------------------ change records

/// A value of a replicated row field, as JSON carries it.
#[derive(Debug, Clone, PartialEq)]
pub enum FieldValue {
    Null,
    Text(String),
    /// The JSON text of any other value (number, boolean, array, object).
    Json(String),
}

pub enum FieldInfo {
    Null,
    Text(Seq<char>),
    Json(Seq<char>),
}

impl View for FieldValue {
    type V = FieldInfo;

    open spec fn view(&self) -> FieldInfo {
        match self {
            FieldValue::Null => FieldInfo::Null,
            FieldValue::Text(s) => FieldInfo::Text(s@),
            FieldValue::Json(s) => FieldInfo::Json(s@),
        }
    }
}

/// The primary key of a replicated row.
#[derive(Debug, Clone, PartialEq)]
pub enum RowKey {
    Int(i64),
    Text(String),
    /// A key that is neither an integer nor a string.
    Other,
}

/// A single row change to be replicated between peers. `data` holds the
/// fields of a JSON object, and is `None` when the payload is not one.
#[derive(Debug, Clone)]
pub struct SyncChange {
    pub table_name: String,
    pub pk: RowKey,
    pub data: Option<Vec<(String, FieldValue)>>,
}

pub type FieldEntries = Seq<(Seq<char>, FieldInfo)>;

pub open spec fn fields_view(v: Seq<(String, FieldValue)>) -> FieldEntries {
    v.map_values(|e: (String, FieldValue)| (e.0@, e.1@))
}

pub struct ChangeInfo {
    pub table: Seq<char>,
    pub data: Option<FieldEntries>,
}

pub open spec fn change_view(c: SyncChange) -> ChangeInfo {
    ChangeInfo {
        table: c.table_name@,
        data: match c.data {
            Some(v) => Some(fields_view(v@)),
            None => None,
        },
    }
}

/// The value of field `k`, the first one found.
pub open spec fn obj_get(obj: FieldEntries, k: Seq<char>) -> Option<FieldInfo>
    decreases obj.len(),
{
    if obj.len() == 0 {
        None
    } else if obj[0].0 == k {
        Some(obj[0].1)
    } else {
        obj_get(obj.drop_first(), k)
    }
}

fn field_lookup<'a>(obj: &'a Vec<(String, FieldValue)>, key: &str) -> (r: Option<&'a FieldValue>)
    ensures
        match r {
            Some(v) => obj_get(fields_view(obj@), key@) == Some(v@),
            None => obj_get(fields_view(obj@), key@) is None,
        },
{
    let ghost f = fields_view(obj@);
    let mut i: usize = 0;
    assert(f.skip(0) == f);
    while i < obj.len()
        invariant
            i <= obj@.len(),
            f == fields_view(obj@),
            obj_get(f, key@) == obj_get(f.skip(i as int), key@),
        decreases obj.len() - i,
    {
        assert(f.skip(i as int).drop_first() == f.skip(i + 1));
        assert(f.skip(i as int)[0] == f[i as int]);
        assert(f[i as int] == (obj@[i as int].0@, obj@[i as int].1@));
        if str_eq(obj[i].0.as_str(), key) {
            return Some(&obj[i].1);
        }
        i = i + 1;
    }
    None
}

/// The text a field value is stored as: strings as themselves, null as
/// empty, anything else as its JSON text.
pub open spec fn sql_text(v: FieldInfo) -> Seq<char> {
    match v {
        FieldInfo::Null => Seq::empty(),
        FieldInfo::Text(s) => s,
        FieldInfo::Json(t) => t,
    }
}

pub fn json_to_sql_string(v: &FieldValue) -> (s: String)
    ensures
        s@ == sql_text(v@),
{
    match v {
        FieldValue::Text(s) => s.clone(),
        FieldValue::Null => String::new(),
        FieldValue::Json(t) => t.clone(),
    }
}

/// `updated_at` of a change, when it is a string.
pub open spec fn change_updated_at(c: ChangeInfo) -> Option<Seq<char>> {
    match c.data {
        Some(obj) => match obj_get(obj, "updated_at"@) {
            Some(FieldInfo::Text(s)) => Some(s),
            _ => None,
        },
        None => None,
    }
}

pub fn updated_at_of(c: &SyncChange) -> (r: Option<String>)
    ensures
        opt_string_view(r) == change_updated_at(change_view(*c)),
{
    match &c.data {
        Some(obj) => match field_lookup(obj, "updated_at") {
            Some(FieldValue::Text(s)) => Some(s.clone()),
            _ => None,
        },
        None => None,
    }
}

// ------------------------------------------------------------ names

pub open spec fn ident_char(c: char) -> bool {
    is_ascii_alnum(c) || c == '_'
}

/// Only ASCII letters, digits and `_` (possibly empty).
pub open spec fn all_ident_chars(s: Seq<char>) -> bool {
    forall|i: int| 0 <= i < s.len() ==> ident_char(#[trigger] s[i])
}

fn all_ident(s: &str) -> (b: bool)
    ensures
        b == all_ident_chars(s@),
{
    let c = chars_of(s);
    let mut i: usize = 0;
    while i < c.len()
        invariant
            i <= c@.len(),
            c@ == s@,
            forall|k: int| 0 <= k < i ==> ident_char(#[trigger] c@[k]),
        decreases c.len() - i,
    {
        let ch = c[i];
        if !(('0' <= ch && ch <= '9') || ('a' <= ch && ch <= 'z') || ('A' <= ch && ch <= 'Z')
            || ch == '_') {
            assert(!ident_char(c@[i as int]));
            return false;
        }
        i = i + 1;
    }
    true
}

/// Whether a table name can be exported: ASCII letters, digits and `_`.
pub fn is_valid_table_name(table: &str) -> (b: bool)
    ensures
        b == all_ident_chars(table@),
{
    all_ident(table)
}

/// Validate that a name (table or column) contains only safe identifier
/// characters and is not empty.
pub fn is_safe_identifier(name: &str) -> (b: bool)
    ensures
        b == (name@.len() > 0 && all_ident_chars(name@)),
{
    !name.is_empty() && all_ident(name)
}

/// A timestamp with `T` replaced by a space, so ISO and SQL forms compare.
pub fn normalize_timestamp(ts: &str) -> (r: String)
    ensures
        r@ == replace_char(ts@, 'T', ' '),
{
    let c = chars_of(ts);
    let mut out: Vec<char> = Vec::new();
    let mut i: usize = 0;
    while i < c.len()
        invariant
            i <= c@.len(),
            c@ == ts@,
            out@ == replace_char(c@.take(i as int), 'T', ' '),
        decreases c.len() - i,
    {
        out.push(if c[i] == 'T' { ' ' } else { c[i] });
        assert(replace_char(c@.take(i + 1), 'T', ' ') =~= replace_char(c@.take(i as int), 'T', ' ').push(
            if c@[i as int] == 'T' { ' ' } else { c@[i as int] },
        ));
        i = i + 1;
    }
    assert(c@.take(c@.len() as int) == c@);
    string_of(&out)
}

// ------------------------------------------------------------ export

/// The timestamp column of a table: `updated_at`, else `created_at`.
pub open spec fn timestamp_column_spec(cols: Seq<Seq<char>>) -> Option<Seq<char>> {
    if cols.contains("updated_at"@) {
        Some("updated_at"@)
    } else if cols.contains("created_at"@) {
        Some("created_at"@)
    } else {
        None
    }
}

/// Detect which timestamp column a table has.
pub fn timestamp_column(cols: &Vec<String>) -> (r: Option<String>)
    ensures
        opt_string_view(r) == timestamp_column_spec(strings_view(cols@)),
{
    if strings_contain(cols, &chars_of("updated_at")) {
        Some("updated_at".to_owned())
    } else if strings_contain(cols, &chars_of("created_at")) {
        Some("created_at".to_owned())
    } else {
        None
    }
}

/// The export query: rows after the cursor by the timestamp column when
/// there is both a cursor and a timestamp column, else all rows; by id.
pub open spec fn export_sql_spec(table: Seq<char>, since_given: bool, ts_col: Option<Seq<char>>) -> Seq<char> {
    if since_given && ts_col is Some {
        "SELECT id, * FROM \""@ + table + "\" WHERE REPLACE(\""@ + ts_col->Some_0 + "\",'T',' ') > ?1 ORDER BY id"@
    } else {
        "SELECT id, * FROM \""@ + table + "\" ORDER BY id"@
    }
}

/// The parameters bound to the export query: the cursor, normalized,
/// whenever one is given (a query without a timestamp column then has more
/// parameters than placeholders, and SQLite refuses it).
pub fn export_params(since: Option<&str>) -> (r: Vec<String>)
    ensures
        match since {
            Some(ts) => r@.len() == 1 && r@[0]@ == replace_char(ts@, 'T', ' '),
            None => r@.len() == 0,
        },
{
    match since {
        Some(ts) => {
            let mut v: Vec<String> = Vec::new();
            v.push(normalize_timestamp(ts));
            v
        },
        None => Vec::new(),
    }
}

pub fn export_sql(table: &str, since_given: bool, ts_col: Option<&str>) -> (s: String)
    ensures
        s@ == export_sql_spec(table@, since_given, crate::sync_cursor::opt_str_view(ts_col)),
{
    let mut out: Vec<char> = Vec::new();
    extend_str(&mut out, "SELECT id, * FROM \"");
    extend_str(&mut out, table);
    match ts_col {
        Some(col) if since_given => {
            extend_str(&mut out, "\" WHERE REPLACE(\"");
            extend_str(&mut out, col);
            extend_str(&mut out, "\",'T',' ') > ?1 ORDER BY id");
        },
        _ => {
            extend_str(&mut out, "\" ORDER BY id");
        },
    }
    string_of(&out)
}

/// A value read from a local row.
#[derive(Debug, Clone)]
pub enum Cell {
    Null,
    Integer(i64),
    Text(String),
    Blob(Vec<u8>),
}

/// How a local value travels: integers as their decimal JSON text, blobs as
/// standard base64 text.
pub fn cell_to_field(c: &Cell) -> (f: FieldValue)
    ensures
        match c {
            Cell::Null => f@ == FieldInfo::Null,
            Cell::Integer(i) => f@ == FieldInfo::Json(int_text(*i as int)),
            Cell::Text(s) => f@ == FieldInfo::Text(s@),
            Cell::Blob(b) => f@ == FieldInfo::Text(base64_spec(b@)),
        },
{
    match c {
        Cell::Null => FieldValue::Null,
        Cell::Integer(i) => FieldValue::Json(i64_text(*i)),
        Cell::Text(s) => FieldValue::Text(s.clone()),
        Cell::Blob(b) => FieldValue::Text(base64_encode(b.as_slice())),
    }
}

// ------------------------------------------------------------ apply

/// Why a change is not written.
#[derive(Debug, Clone, Copy, PartialEq, Eq, Structural)]
pub enum SkipReason {
    /// The table is not on the sync allowlist.
    NotSyncTable,
    /// The payload is not a JSON object.
    NotObject,
    /// The table does not exist locally.
    NoLocalTable,
    /// No field names a local column.
    NoColumns,
    /// A column name is not a safe identifier.
    UnsafeColumns,
}

/// The write a change turns into.
#[derive(Debug)]
pub struct WritePlan {
    pub sql: String,
    pub params: Vec<String>,
    /// The change's `updated_at`, for the last-writer-wins check.
    pub remote_updated_at: Option<String>,
}

/// The fields naming local columns, in payload order.
pub open spec fn kept_columns(obj: FieldEntries, local: Seq<Seq<char>>) -> Seq<Seq<char>>
    decreases obj.len(),
{
    if obj.len() == 0 {
        Seq::empty()
    } else {
        let r = kept_columns(obj.drop_last(), local);
        if local.contains(obj.last().0) {
            r.push(obj.last().0)
        } else {
            r
        }
    }
}

pub open spec fn quoted(c: Seq<char>) -> Seq<char> {
    "\""@ + c + "\""@
}

pub open spec fn placeholder(i: nat) -> Seq<char> {
    "?"@ + decimal(i + 1)
}

/// `INSERT OR REPLACE INTO "table" ("c1", ...) VALUES (?1, ...)`.
pub open spec fn insert_sql(table: Seq<char>, cols: Seq<Seq<char>>) -> Seq<char> {
    "INSERT OR REPLACE INTO \""@ + table + "\" ("@ + join(
        cols.map_values(|c: Seq<char>| quoted(c)),
        ", "@,
    ) + ") VALUES ("@ + join(Seq::new(cols.len(), |i: int| placeholder(i as nat)), ", "@) + ")"@
}

pub enum PlanInfo {
    Skip(SkipReason),
    Write { sql: Seq<char>, params: Seq<Seq<char>>, remote_updated_at: Option<Seq<char>> },
}

/// What applying a change amounts to, given the local table's columns.
pub open spec fn plan_spec(c: ChangeInfo, local_cols: Seq<Seq<char>>) -> PlanInfo {
    if !sync_table_names().contains(c.table) {
        PlanInfo::Skip(SkipReason::NotSyncTable)
    } else {
        match c.data {
            None => PlanInfo::Skip(SkipReason::NotObject),
            Some(obj) => if local_cols.len() == 0 {
                PlanInfo::Skip(SkipReason::NoLocalTable)
            } else {
                let cols = kept_columns(obj, local_cols);
                if cols.len() == 0 {
                    PlanInfo::Skip(SkipReason::NoColumns)
                } else if exists|i: int|
                    0 <= i < cols.len() && !(cols[i].len() > 0 && all_ident_chars(#[trigger] cols[i])) {
                    PlanInfo::Skip(SkipReason::UnsafeColumns)
                } else {
                    PlanInfo::Write {
                        sql: insert_sql(c.table, cols),
                        params: cols.map_values(|k: Seq<char>| sql_text(obj_get(obj, k)->Some_0)),
                        remote_updated_at: change_updated_at(c),
                    }
                }
            },
        }
    }
}

pub open spec fn plan_view(r: Result<WritePlan, SkipReason>) -> PlanInfo {
    match r {
        Ok(w) => PlanInfo::Write {
            sql: w.sql@,
            params: strings_view(w.params@),
            remote_updated_at: opt_string_view(w.remote_updated_at),
        },
        Err(s) => PlanInfo::Skip(s),
    }
}

fn kept_columns_exec(obj: &Vec<(String, FieldValue)>, local_cols: &Vec<String>) -> (r: Vec<String>)
    ensures
        strings_view(r@) == kept_columns(fields_view(obj@), strings_view(local_cols@)),
{
    let ghost f = fields_view(obj@);
    let mut out: Vec<String> = Vec::new();
    let mut i: usize = 0;
    assert(f.take(0) =~= Seq::<(Seq<char>, FieldInfo)>::empty());
    assert(strings_view(out@) =~= Seq::<Seq<char>>::empty());
    while i < obj.len()
        invariant
            i <= obj@.len(),
            f == fields_view(obj@),
            strings_view(out@) == kept_columns(f.take(i as int), strings_view(local_cols@)),
        decreases obj.len() - i,
    {
        assert(f.take(i + 1).drop_last() == f.take(i as int));
        assert(f.take(i + 1).last() == (obj@[i as int].0@, obj@[i as int].1@));
        if strings_contain(local_cols, &chars_of(obj[i].0.as_str())) {
            let ghost o = out@;
            out.push(obj[i].0.clone());
            assert(strings_view(out@) =~= strings_view(o).push(obj@[i as int].0@));
        }
        i = i + 1;
    }
    assert(f.take(obj@.len() as int) == f);
    out
}

fn build_insert_sql(table: &str, cols: &Vec<String>) -> (s: String)
    ensures
        s@ == insert_sql(table@, strings_view(cols@)),
{
    let ghost cv = strings_view(cols@);
    let ghost qs = cv.map_values(|c: Seq<char>| quoted(c));
    let ghost ps = Seq::new(cv.len(), |i: int| placeholder(i as nat));
    let mut q: Vec<char> = Vec::new();
    let mut p: Vec<char> = Vec::new();
    let mut i: usize = 0;
    assert(qs.take(0) =~= Seq::<Seq<char>>::empty());
    assert(ps.take(0) =~= Seq::<Seq<char>>::empty());
    while i < cols.len()
        invariant
            i <= cols@.len(),
            cv == strings_view(cols@),
            qs == cv.map_values(|c: Seq<char>| quoted(c)),
            ps == Seq::new(cv.len(), |i: int| placeholder(i as nat)),
            q@ == join(qs.take(i as int), ", "@),
            p@ == join(ps.take(i as int), ", "@),
        decreases cols.len() - i,
    {
        assert(qs.take(i + 1).drop_last() == qs.take(i as int));
        assert(ps.take(i + 1).drop_last() == ps.take(i as int));
        if i > 0 {
            extend_str(&mut q, ", ");
            extend_str(&mut p, ", ");
        } else {
            assert(q@ == Seq::<char>::empty());
            assert(p@ == Seq::<char>::empty());
        }
        extend_str(&mut q, "\"");
        extend_str(&mut q, cols[i].as_str());
        extend_str(&mut q, "\"");
        extend_str(&mut p, "?");
        let n = u64_text((i + 1) as u64);
        extend_str(&mut p, n.as_str());
        assert(qs.take(i + 1).last() == quoted(cv[i as int]));
        assert(ps.take(i + 1).last() == placeholder(i as nat));
        i = i + 1;
    }
    assert(qs.take(cols@.len() as int) == qs);
    assert(ps.take(cols@.len() as int) == ps);
    let mut out: Vec<char> = Vec::new();
    extend_str(&mut out, "INSERT OR REPLACE INTO \"");
    extend_str(&mut out, table);
    extend_str(&mut out, "\" (");
    extend_chars(&mut out, &q);
    extend_str(&mut out, ") VALUES (");
    extend_chars(&mut out, &p);
    extend_str(&mut out, ")");
    string_of(&out)
}

/// Turns a remote change into the write it amounts to, or the reason it is
/// skipped, given the local table's columns (empty when the table is not
/// there). The last-writer-wins check is [`lww_allows`].
#[verifier::loop_isolation(false)]
pub fn plan_change(change: &SyncChange, local_cols: &Vec<String>) -> (r: Result<WritePlan, SkipReason>)
    ensures
        plan_view(r) == plan_spec(change_view(*change), strings_view(local_cols@)),
{
    if !is_sync_table(change.table_name.as_str()) {
        return Err(SkipReason::NotSyncTable);
    }
    let obj = match &change.data {
        Some(o) => o,
        None => return Err(SkipReason::NotObject),
    };
    if local_cols.len() == 0 {
        return Err(SkipReason::NoLocalTable);
    }
    let cols = kept_columns_exec(obj, local_cols);
    let ghost cv = strings_view(cols@);
    if cols.len() == 0 {
        return Err(SkipReason::NoColumns);
    }
    let mut i: usize = 0;
    while i < cols.len()
        invariant
            i <= cols@.len(),
            cv == strings_view(cols@),
            cv == kept_columns(fields_view(obj@), strings_view(local_cols@)),
            forall|k: int| 0 <= k < i ==> #[trigger] cv[k].len() > 0 && all_ident_chars(cv[k]),
        decreases cols.len() - i,
    {
        if !is_safe_identifier(cols[i].as_str()) {
            assert(!(cv[i as int].len() > 0 && all_ident_chars(cv[i as int])));
            assert(exists|k: int|
                0 <= k < cv.len() && !(cv[k].len() > 0 && all_ident_chars(#[trigger] cv[k])));
            return Err(SkipReason::UnsafeColumns);
        }
        i = i + 1;
    }
    let sql = build_insert_sql(change.table_name.as_str(), &cols);
    let ghost f = fields_view(obj@);
    let mut params: Vec<String> = Vec::new();
    let mut j: usize = 0;
    proof {
        lemma_kept_in_obj(f, strings_view(local_cols@));
    }
    while j < cols.len()
        invariant
            j <= cols@.len(),
            cv == strings_view(cols@),
            f == fields_view(obj@),
            cv == kept_columns(f, strings_view(local_cols@)),
            forall|k: int| 0 <= k < cv.len() ==> obj_get(f, #[trigger] cv[k]) is Some,
            strings_view(params@) == cv.take(j as int).map_values(|k: Seq<char>| sql_text(obj_get(f, k)->Some_0)),
        decreases cols.len() - j,
    {
        let v = field_lookup(obj, cols[j].as_str());
        assert(obj_get(f, cv[j as int]) is Some);
        let t = json_to_sql_string(v.unwrap());
        let ghost o = params@;
        params.push(t);
        assert(strings_view(params@) =~= strings_view(o).push(t@));
        assert(cv.take(j + 1).map_values(|k: Seq<char>| sql_text(obj_get(f, k)->Some_0)) =~= cv.take(j as int).map_values(|k: Seq<char>| sql_text(obj_get(f, k)->Some_0)).push(sql_text(obj_get(f, cv[j as int])->Some_0)));
        j = j + 1;
    }
    assert(cv.take(cols@.len() as int) == cv);
    Ok(WritePlan { sql, params, remote_updated_at: updated_at_of(change) })
}

/// Every kept column is a field of the payload.
proof fn lemma_kept_in_obj(obj: FieldEntries, local: Seq<Seq<char>>)
    ensures
        forall|k: int| 0 <= k < kept_columns(obj, local).len() ==> obj_get(obj, #[trigger] kept_columns(obj, local)[k]) is Some,
    decreases obj.len(),
{
    if obj.len() > 0 {
        lemma_kept_in_obj(obj.drop_last(), local);
        let r = kept_columns(obj.drop_last(), local);
        assert forall|k: int| 0 <= k < kept_columns(obj, local).len() implies obj_get(obj, #[trigger] kept_columns(obj, local)[k]) is Some by {
            let key = kept_columns(obj, local)[k];
            if k < r.len() {
                assert(key == r[k]);
                lemma_get_prefix(obj, key);
            } else {
                assert(key == obj.last().0);
                lemma_get_last(obj);
            }
        }
    }
}

proof fn lemma_get_prefix(obj: FieldEntries, key: Seq<char>)
    requires
        obj.len() > 0,
        obj_get(obj.drop_last(), key) is Some,
    ensures
        obj_get(obj, key) is Some,
    decreases obj.len(),
{
    if obj[0].0 != key {
        assert(obj.drop_last().drop_first() == obj.drop_first().drop_last());
        lemma_get_prefix(obj.drop_first(), key);
    }
}

proof fn lemma_get_last(obj: FieldEntries)
    requires
        obj.len() > 0,
    ensures
        obj_get(obj, obj.last().0) is Some,
    decreases obj.len(),
{
    if obj[0].0 != obj.last().0 {
        lemma_get_last(obj.drop_first());
    }
}

proof fn lemma_kept_are_local(obj: FieldEntries, local: Seq<Seq<char>>)
    ensures
        forall|i: int| 0 <= i < kept_columns(obj, local).len() ==> local.contains(#[trigger] kept_columns(obj, local)[i]),
    decreases obj.len(),
{
    if obj.len() > 0 {
        lemma_kept_are_local(obj.drop_last(), local);
        let r = kept_columns(obj.drop_last(), local);
        assert forall|i: int| 0 <= i < kept_columns(obj, local).len() implies local.contains(#[trigger] kept_columns(obj, local)[i]) by {
            if i < r.len() {
                assert(kept_columns(obj, local)[i] == r[i]);
            }
        }
    }
}

/// A remote change is only ever written to an allow-listed table, into
/// columns the local table has, each a safe identifier, with one value per
/// column: whatever the change holds, nothing else reaches the SQL text.
pub proof fn lemma_plan_is_safe(c: ChangeInfo, local: Seq<Seq<char>>)
    ensures
        plan_spec(c, local) matches PlanInfo::Write { sql, params, .. } ==> {
            let cols = kept_columns(c.data->Some_0, local);
            &&& sync_table_names().contains(c.table)
            &&& sql == insert_sql(c.table, cols)
            &&& params.len() == cols.len()
            &&& forall|i: int| 0 <= i < cols.len() ==> local.contains(#[trigger] cols[i]) && cols[i].len() > 0
                && all_ident_chars(cols[i])
        },
{
    if let PlanInfo::Write { sql, params, .. } = plan_spec(c, local) {
        lemma_kept_are_local(c.data->Some_0, local);
    }
}

/// Last writer wins: a remote row overwrites the local one unless both
/// carry an `updated_at` and the remote one (normalized) is not newer.
pub open spec fn lww_allows_spec(remote: Option<Seq<char>>, local: Option<Seq<char>>) -> bool {
    match (remote, local) {
        (Some(r), Some(l)) => seq_lt(replace_char(l, 'T', ' '), replace_char(r, 'T', ' ')),
        _ => true,
    }
}

pub fn lww_allows(remote: Option<&str>, local: Option<&str>) -> (b: bool)
    ensures
        b == lww_allows_spec(crate::sync_cursor::opt_str_view(remote), crate::sync_cursor::opt_str_view(local)),
{
    match (remote, local) {
        (Some(r), Some(l)) => {
            let rn = normalize_timestamp(r);
            let ln = normalize_timestamp(l);
            str_below(ln.as_str(), &chars_of(rn.as_str()))
        },
        _ => true,
    }
}

/// Last writer wins from both sides: of two versions of a row whose
/// (normalized) timestamps differ, exactly one side takes the other's; with
/// equal timestamps neither side overwrites.
pub proof fn lemma_lww_one_winner(a: Seq<char>, b: Seq<char>)
    ensures
        replace_char(a, 'T', ' ') != replace_char(b, 'T', ' ') ==> lww_allows_spec(Some(a), Some(b))
            != lww_allows_spec(Some(b), Some(a)),
        replace_char(a, 'T', ' ') == replace_char(b, 'T', ' ') ==> !lww_allows_spec(Some(a), Some(b))
            && !lww_allows_spec(Some(b), Some(a)),
{
    let na = replace_char(a, 'T', ' ');
    let nb = replace_char(b, 'T', ' ');
    crate::text::lemma_lt_total(na, nb);
    if crate::text::seq_lt(na, nb) {
        crate::text::lemma_lt_asymmetric(na, nb);
    }
    if crate::text::seq_lt(nb, na) {
        crate::text::lemma_lt_asymmetric(nb, na);
    }
    crate::text::lemma_lt_irreflexive(na);
}

/// Outcome counts of applying a batch of remote changes.
#[derive(Debug, Clone, PartialEq)]
pub struct ApplyReport {
    pub applied: usize,
    pub rejected: usize,
    /// The largest normalized `updated_at` among applied rows.
    pub applied_max_updated_at: Option<String>,
}

/// The larger of a running maximum and a new timestamp, normalized.
pub open spec fn max_ts(cur: Option<Seq<char>>, ts: Option<Seq<char>>) -> Option<Seq<char>> {
    match ts {
        None => cur,
        Some(t) => {
            let n = replace_char(t, 'T', ' ');
            match cur {
                Some(c) => if seq_lt(c, n) { Some(n) } else { Some(c) },
                None => Some(n),
            }
        },
    }
}

fn max_ts_exec(cur: Option<String>, ts: Option<&str>) -> (r: Option<String>)
    ensures
        opt_string_view(r) == max_ts(opt_string_view(cur), crate::sync_cursor::opt_str_view(ts)),
{
    match ts {
        None => cur,
        Some(t) => {
            let n = normalize_timestamp(t);
            match cur {
                Some(c) => if str_below(c.as_str(), &chars_of(n.as_str())) {
                    Some(n)
                } else {
                    Some(c)
                },
                None => Some(n),
            }
        },
    }
}

impl ApplyReport {
    pub fn new() -> (r: Self)
        ensures
            r.applied == 0 && r.rejected == 0 && r.applied_max_updated_at is None,
    {
        ApplyReport { applied: 0, rejected: 0, applied_max_updated_at: None }
    }

    /// Counts an applied row with its `updated_at`.
    pub fn record_applied(&mut self, updated_at: Option<&str>)
        requires
            old(self).applied < usize::MAX,
        ensures
            final(self).applied == old(self).applied + 1,
            final(self).rejected == old(self).rejected,
            opt_string_view(final(self).applied_max_updated_at) == max_ts(
                opt_string_view(old(self).applied_max_updated_at),
                crate::sync_cursor::opt_str_view(updated_at),
            ),
    {
        self.applied = self.applied + 1;
        let cur = self.applied_max_updated_at.take();
        self.applied_max_updated_at = max_ts_exec(cur, updated_at);
    }

    /// Counts a rejected row.
    pub fn record_rejected(&mut self)
        requires
            old(self).rejected < usize::MAX,
        ensures
            final(self).rejected == old(self).rejected + 1,
            final(self).applied == old(self).applied,
            final(self).applied_max_updated_at == old(self).applied_max_updated_at,
    {
        self.rejected = self.rejected + 1;
    }
}

/// What to do next with a remote row while applying a batch.
#[derive(Debug, Clone, Copy, PartialEq, Eq, Structural)]
pub enum RowAction {
    /// The row is finished with: rejected, or older than the local one.
    Done,
    /// Read the local row's `updated_at` for the last-writer-wins check.
    LookUpLocal,
    /// Run the plan's statement.
    Execute,
}

impl ApplyReport {
    /// The row has been planned: a refused plan counts as rejected; a plan
    /// with an `updated_at` is checked against the local row first; any other
    /// plan is executed.
    pub fn on_planned(&mut self, plan: &Result<WritePlan, SkipReason>) -> (a: RowAction)
        requires
            old(self).rejected < usize::MAX,
        ensures
            match plan {
                Err(_) => a == RowAction::Done && final(self).rejected == old(self).rejected + 1
                    && final(self).applied == old(self).applied
                    && final(self).applied_max_updated_at == old(self).applied_max_updated_at,
                Ok(p) => *final(self) == *old(self) && a == (if p.remote_updated_at is Some {
                    RowAction::LookUpLocal
                } else {
                    RowAction::Execute
                }),
            },
    {
        match plan {
            Err(_) => {
                self.record_rejected();
                RowAction::Done
            },
            Ok(p) => if p.remote_updated_at.is_some() {
                RowAction::LookUpLocal
            } else {
                RowAction::Execute
            },
        }
    }

    /// The local row's `updated_at` is known: the remote row is executed only
    /// when last writer wins lets it through; a row it holds back is counted
    /// neither as applied nor as rejected.
    pub fn on_local_updated_at(&self, remote: Option<&str>, local: Option<&str>) -> (a: RowAction)
        ensures
            a == (if lww_allows_spec(
                crate::sync_cursor::opt_str_view(remote),
                crate::sync_cursor::opt_str_view(local),
            ) {
                RowAction::Execute
            } else {
                RowAction::Done
            }),
    {
        if lww_allows(remote, local) {
            RowAction::Execute
        } else {
            RowAction::Done
        }
    }

    /// The plan's statement has run: a write that succeeded counts as applied
    /// (and its `updated_at` joins the maximum), one that failed as rejected.
    pub fn on_executed(&mut self, plan: &WritePlan, succeeded: bool)
        requires
            succeeded ==> old(self).applied < usize::MAX,
            !succeeded ==> old(self).rejected < usize::MAX,
        ensures
            succeeded ==> final(self).applied == old(self).applied + 1
                && final(self).rejected == old(self).rejected
                && opt_string_view(final(self).applied_max_updated_at) == max_ts(
                    opt_string_view(old(self).applied_max_updated_at),
                    opt_string_view(plan.remote_updated_at),
                ),
            !succeeded ==> final(self).rejected == old(self).rejected + 1
                && final(self).applied == old(self).applied
                && final(self).applied_max_updated_at == old(self).applied_max_updated_at,
    {
        if succeeded {
            match &plan.remote_updated_at {
                Some(t) => self.record_applied(Some(t.as_str())),
                None => self.record_applied(None),
            }
        } else {
            self.record_rejected();
        }
    }
}

/// The largest normalized `updated_at` of the first `n` changes.
pub open spec fn max_updated_spec(cs: Seq<ChangeInfo>) -> Option<Seq<char>>
    decreases cs.len(),
{
    if cs.len() == 0 {
        None
    } else {
        max_ts(max_updated_spec(cs.drop_last()), change_updated_at(cs.last()))
    }
}

pub open spec fn changes_view(v: Seq<SyncChange>) -> Seq<ChangeInfo> {
    v.map_values(|c: SyncChange| change_view(c))
}

/// The largest `updated_at` (normalized) among the changes, if any has one.
pub fn max_updated_at(changes: &Vec<SyncChange>) -> (r: Option<String>)
    ensures
        opt_string_view(r) == max_updated_spec(changes_view(changes@)),
{
    let ghost cv = changes_view(changes@);
    let mut cur: Option<String> = None;
    let mut i: usize = 0;
    assert(cv.take(0) =~= Seq::<ChangeInfo>::empty());
    while i < changes.len()
        invariant
            i <= changes@.len(),
            cv == changes_view(changes@),
            opt_string_view(cur) == max_updated_spec(cv.take(i as int)),
        decreases changes.len() - i,
    {
        assert(cv.take(i + 1).drop_last() == cv.take(i as int));
        assert(cv.take(i + 1).last() == change_view(changes@[i as int]));
        let u = updated_at_of(&changes[i]);
        cur = match u {
            Some(s) => max_ts_exec(cur, Some(s.as_str())),
            None => max_ts_exec(cur, None),
        };
        i = i + 1;
    }
    assert(cv.take(changes@.len() as int) == cv);
    cur
}

} // verus!
