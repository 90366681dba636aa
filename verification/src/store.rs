//! The store adapter: parameterized statements against a relational `days`
//! table of (id, date) rows, behind trusted declarations.
//!
//! The model of the table is `stored_days`: the table's rows in rowid
//! order, each as an (id, value) pair whose value is
//! `canonical_date_value` of the row's `date` text — the day number the
//! text spells when it is canonical `YYYY-MM-DD` ISO-8601 (the only form
//! this library writes), and 0 for any other text or for a `date` stored
//! as a non-text value. That single reading keeps every contract below
//! true at once: SQL compares and orders the raw text, so only canonical
//! rows ever equal a canonical parameter, and reads hand the raw text out
//! for the library's own strict parser to judge.
//!
//! The model presupposes the declared schema — `id` an auto-incrementing
//! integer primary key, `date` non-null — which `DayRepository::new`
//! ensures for a fresh store and a pre-existing `days` table of another
//! shape may break. It also treats the `Connection` value as the sole
//! handle on the database, per the design's single-writer assumption:
//! the repository owns its connection, and a second connection opened on
//! the same file is outside the model.

use vstd::prelude::*;

use crate::date::canonical_date_value;
use crate::date::MAX_DAY_NUMBER;

verus! {

#[verifier::external_type_specification]
#[verifier::external_body]
/// A live connection handle to the relational store.
pub struct ExConnection(rusqlite::Connection);

#[verifier::external_type_specification]
#[verifier::external_body]
/// A failure reported by the store itself.
pub struct ExStoreFailure(rusqlite::Error);

/// The rows of the `days` table reached through a connection, in rowid
/// order: (id, day-number value of the stored date text), the value 0
/// standing for text that spells no canonical date.
pub uninterp spec fn stored_days(c: rusqlite::Connection) -> Seq<(u64, int)>;

/// Whether the `days` table exists behind the connection. Creating the
/// schema establishes it; no statement this library issues ever drops it.
pub uninterp spec fn days_table_present(c: rusqlite::Connection) -> bool;

/// The model rows a raw (id, date-text) result set stands for.
pub open spec fn decoded_rows(v: Seq<(u64, String)>) -> Seq<(u64, int)> {
    v.map(|i: int, p: (u64, String)| (p.0, canonical_date_value(p.1@)))
}

/// Whether `id` is larger than the id of every row, as the store's
/// auto-incrementing primary key guarantees of a newly assigned id.
pub open spec fn fresh_id(rows: Seq<(u64, int)>, id: u64) -> bool {
    forall|i: int| 0 <= i < rows.len() ==> #[trigger] rows[i].0 < id
}

/// Whether no row carries the given day number.
pub open spec fn date_absent(rows: Seq<(u64, int)>, num: int) -> bool {
    forall|i: int| 0 <= i < rows.len() ==> #[trigger] rows[i].1 != num
}

/// Whether no row carries the given id.
pub open spec fn id_absent(rows: Seq<(u64, int)>, id: u64) -> bool {
    forall|i: int| 0 <= i < rows.len() ==> #[trigger] rows[i].0 != id
}

/// Relies on rusqlite's `Connection::execute` running `CREATE TABLE IF NOT
/// EXISTS`: on success the `days` table exists — created when absent, and
/// otherwise left untouched together with its rows; a table already
/// present survives even a failure.
#[verifier::external_body]
pub(crate) fn create_days_table(conn: &mut rusqlite::Connection) -> (r: Result<
    (),
    rusqlite::Error,
>)
    ensures
        stored_days(*final(conn)) == stored_days(*old(conn)),
        r is Ok ==> days_table_present(*final(conn)),
        days_table_present(*old(conn)) ==> days_table_present(*final(conn)),
{
    let outcome = conn.execute(
        "CREATE TABLE IF NOT EXISTS days (id INTEGER PRIMARY KEY AUTOINCREMENT, date DATE NOT NULL)",
        (),
    );
    match outcome {
        Ok(_) => Ok(()),
        Err(e) => Err(e),
    }
}

/// Relies on rusqlite's `Connection::query_row` with `SELECT id FROM days
/// WHERE date = ?1`, the parameter bound as chrono's canonical `YYYY-MM-DD`
/// text for the given day number: SQL equality on the raw text matches
/// exactly the rows whose model value is that number, and
/// `QueryReturnedNoRows` means no such row exists.
#[verifier::external_body]
pub(crate) fn select_day_by_date(conn: &mut rusqlite::Connection, num: i64) -> (r: Result<
    Option<u64>,
    rusqlite::Error,
>)
    requires
        1 <= num <= MAX_DAY_NUMBER,
    ensures
        stored_days(*final(conn)) == stored_days(*old(conn)),
        days_table_present(*final(conn)) == days_table_present(*old(conn)),
        r matches Ok(Some(id)) ==> stored_days(*old(conn)).contains((id, num as int)),
        r matches Ok(None) ==> date_absent(stored_days(*old(conn)), num as int),
{
    let date = chrono::NaiveDate::from_num_days_from_ce_opt(num as i32).unwrap();
    let sql = "SELECT id FROM days WHERE date = ?1";
    match conn.query_row(sql, (date,), |row| row.get::<_, i64>(0)) {
        Ok(id) => match u64::try_from(id) {
            Ok(u) => Ok(Some(u)),
            Err(_) => Err(rusqlite::Error::IntegralValueOutOfRange(0, id)),
        },
        Err(rusqlite::Error::QueryReturnedNoRows) => Ok(None),
        Err(e) => Err(e),
    }
}

/// Relies on rusqlite's `Connection::query_row` with `SELECT id, date FROM
/// days WHERE id = ?1`: it hands back the matching row's raw date text for
/// the caller to parse, or reports `QueryReturnedNoRows` when the table
/// holds no such id.
#[verifier::external_body]
pub(crate) fn select_day_by_id(conn: &mut rusqlite::Connection, id: u64) -> (r: Result<
    Option<(u64, String)>,
    rusqlite::Error,
>)
    ensures
        stored_days(*final(conn)) == stored_days(*old(conn)),
        days_table_present(*final(conn)) == days_table_present(*old(conn)),
        r matches Ok(Some(p)) ==> stored_days(*old(conn)).contains(
            (p.0, canonical_date_value(p.1@)),
        ) && p.0 == id,
        r matches Ok(None) ==> id_absent(stored_days(*old(conn)), id),
{
    // Row ids are signed 64-bit integers, so no row carries a larger id.
    let Ok(bound) = i64::try_from(id) else { return Ok(None) };
    let sql = "SELECT id, date FROM days WHERE id = ?1";
    let outcome = conn.query_row(sql, (bound,), |row| {
        Ok((row.get::<_, i64>(0)?, row.get::<_, String>(1)?))
    });
    match outcome {
        Ok((rid, text)) => match u64::try_from(rid) {
            Ok(u) => Ok(Some((u, text))),
            Err(_) => Err(rusqlite::Error::IntegralValueOutOfRange(0, rid)),
        },
        Err(rusqlite::Error::QueryReturnedNoRows) => Ok(None),
        Err(e) => Err(e),
    }
}

/// Relies on rusqlite's `Connection::execute` with `INSERT INTO days (date)
/// VALUES (?1)` against the table's auto-incrementing integer primary key,
/// the parameter bound as chrono's canonical `YYYY-MM-DD` text for the
/// given day number: on success exactly one row of that value is appended,
/// and its store-assigned id is larger than the id of every row already
/// present.
#[verifier::external_body]
pub(crate) fn insert_day(conn: &mut rusqlite::Connection, num: i64) -> (r: Result<
    (),
    rusqlite::Error,
>)
    requires
        1 <= num <= MAX_DAY_NUMBER,
    ensures
        days_table_present(*final(conn)) == days_table_present(*old(conn)),
        r is Ok ==> exists|id: u64|
            stored_days(*final(conn)) == stored_days(*old(conn)).push((id, num as int))
                && #[trigger] fresh_id(stored_days(*old(conn)), id),
        r is Err ==> stored_days(*final(conn)) == stored_days(*old(conn)),
{
    let date = chrono::NaiveDate::from_num_days_from_ce_opt(num as i32).unwrap();
    let outcome = conn.execute("INSERT INTO days (date) VALUES (?1)", (date,));
    match outcome {
        Ok(_) => Ok(()),
        Err(e) => Err(e),
    }
}

/// Relies on rusqlite's `Statement::query_map` with `SELECT id, date FROM
/// days ORDER BY date DESC LIMIT ?1`: each table row is handed back at
/// most once, with its raw date text, cut to the limit. SQL orders the
/// raw text descending by byte comparison, and canonical `YYYY-MM-DD`
/// texts — fixed-width, zero-padded decimal fields from most to least
/// significant — compare by bytes exactly as their day numbers compare;
/// so among rows that spell canonical dates, the returned ones are sorted
/// by value descending and every row left out has a value no greater than
/// any handed back.
#[verifier::external_body]
pub(crate) fn select_days_desc(conn: &mut rusqlite::Connection, count: u64) -> (r: Result<
    Vec<(u64, String)>,
    rusqlite::Error,
>)
    ensures
        stored_days(*final(conn)) == stored_days(*old(conn)),
        days_table_present(*final(conn)) == days_table_present(*old(conn)),
        r matches Ok(v) ==> ({
            let rows = stored_days(*old(conn));
            let sel = decoded_rows(v@);
            &&& sel.len() == vstd::math::min(count as int, rows.len() as int)
            &&& forall|i: int| 0 <= i < sel.len() ==> rows.contains(#[trigger] sel[i])
            &&& forall|i: int, j: int|
                0 <= i < j < sel.len() && 1 <= sel[i].1 && 1 <= sel[j].1 ==> sel[i].1 >= sel[j].1
            &&& forall|i: int, j: int|
                0 <= i < sel.len() && 0 <= j < sel.len() && i != j ==> sel[i].0 != sel[j].0
            &&& forall|k: int, i: int|
                0 <= k < rows.len() && 0 <= i < sel.len() && !sel.contains(#[trigger] rows[k]) && 1
                    <= rows[k].1 && 1 <= (#[trigger] sel[i]).1 ==> rows[k].1 <= sel[i].1
        }),
{
    // A limit beyond the signed 64-bit range cuts nothing from a table
    // whose row count a signed 64-bit rowid bounds.
    let limit = i64::try_from(count).unwrap_or(i64::MAX);
    let mut statement = conn.prepare("SELECT id, date FROM days ORDER BY date DESC LIMIT ?1")?;
    let mapped = statement.query_map((limit,), |row| {
        Ok((row.get::<_, i64>(0)?, row.get::<_, String>(1)?))
    })?;
    let mut out: Vec<(u64, String)> = Vec::new();
    for item in mapped {
        let (id, text) = item?;
        out.push((u64::try_from(id).map_err(|_| rusqlite::Error::IntegralValueOutOfRange(0, id))?, text));
    }
    Ok(out)
}

/// Relies on chrono's `Local::now` for the wall clock's current local
/// calendar date, read out as its day count with
/// `Datelike::num_days_from_ce` (day 1 is January 1 of year 1). The result
/// depends on the clock, so nothing is promised of it. Chrono itself
/// aborts on a system clock set before the Unix epoch; the design assumes
/// a valid local clock.
#[verifier::external_body]
pub(crate) fn current_local_day_number() -> i64 {
    let today = chrono::Local::now().date_naive();
    chrono::Datelike::num_days_from_ce(&today) as i64
}

} // verus!
