//! The day repository: get-or-create resolution of dates to `Day` records,
//! reference resolution, and calendar-aligned week queries.
//!
//! The repository's view `self@` is the sequence of (id, day-number) rows
//! of the backing `days` table, in rowid order.

use vstd::prelude::*;
use vstd::string::StrSliceExecFns;

use crate::date::canonical_date_value;
use crate::date::digit_value;
use crate::date::is_canonical_date_text;
use crate::date::lemma_date_determined_by_number;
use crate::date::lemma_week_monday_bounds;
use crate::date::lemma_weekday_within_week;
use crate::date::week_monday_of;
use crate::date::weekday_index;
use crate::date::Date;
use crate::date::MAX_DAY_NUMBER;
use crate::dto::Day;
use crate::dto::DayReference;
use crate::error::DayError;
use crate::store::create_days_table;
use crate::store::date_absent;
use crate::store::days_table_present;
use crate::store::decoded_rows;
use crate::store::fresh_id;
use crate::store::id_absent;
use crate::store::insert_day;
use crate::store::select_day_by_date;
use crate::store::select_day_by_id;
use crate::store::select_days_desc;
use crate::store::stored_days;
use crate::store::current_local_day_number;

verus! {

/// No two rows carry the same id.
pub open spec fn ids_unique(rows: Seq<(u64, int)>) -> bool {
    forall|i: int, j: int|
        #![trigger rows[i].0, rows[j].0]
        0 <= i < j < rows.len() ==> rows[i].0 != rows[j].0
}

/// No two rows carry the same date: the store's "at most one row per
/// calendar date" invariant.
pub open spec fn dates_unique(rows: Seq<(u64, int)>) -> bool {
    forall|i: int, j: int|
        #![trigger rows[i].1, rows[j].1]
        0 <= i < j < rows.len() ==> rows[i].1 != rows[j].1
}

/// Well-formed table contents: ids and dates are unique across rows.
pub open spec fn rows_wf(rows: Seq<(u64, int)>) -> bool {
    ids_unique(rows) && dates_unique(rows)
}

/// The model rows a sequence of days stands for.
pub open spec fn days_as_rows(v: Seq<Day>) -> Seq<(u64, int)> {
    v.map(|i: int, d: Day| (d.id, d.date@))
}

/// What a week query may leave behind beyond the old rows: at most `n`
/// appended rows, each dated within the `n`-day window starting at
/// `monday` and absent from the table beforehand.
pub open spec fn appended_within_window(
    old_rows: Seq<(u64, int)>,
    new_rows: Seq<(u64, int)>,
    monday: int,
    n: int,
) -> bool {
    &&& old_rows.len() <= new_rows.len() <= old_rows.len() + n
    &&& forall|k: int|
        old_rows.len() <= k < new_rows.len() ==> monday <= (#[trigger] new_rows[k]).1 < monday + n
            && date_absent(old_rows, new_rows[k].1)
}

/// The text of the date-keyed lookup statement, as store failures carry it.
pub open spec fn select_by_date_statement() -> Seq<char> {
    "SELECT id FROM days WHERE date = ?1"@
}

/// The text of the id-keyed lookup statement.
pub open spec fn select_by_id_statement() -> Seq<char> {
    "SELECT id, date FROM days WHERE id = ?1"@
}

/// The text of the insert statement.
pub open spec fn insert_statement() -> Seq<char> {
    "INSERT INTO days (date) VALUES (?1)"@
}

/// The text of the schema-creation statement.
pub open spec fn create_table_statement() -> Seq<char> {
    "CREATE TABLE IF NOT EXISTS days (id INTEGER PRIMARY KEY AUTOINCREMENT, date DATE NOT NULL)"@
}

/// The text of the date-descending listing statement.
pub open spec fn list_statement() -> Seq<char> {
    "SELECT id, date FROM days ORDER BY date DESC LIMIT ?1"@
}

/// What get-or-create leaves behind: the returned day carries the asked
/// date and stands in the table; the table is unchanged when the date was
/// already present, and has exactly the one freshly appended row otherwise.
pub open spec fn get_or_create_post(
    old_rows: Seq<(u64, int)>,
    new_rows: Seq<(u64, int)>,
    date: Date,
    day: Day,
) -> bool {
    &&& day.date == date
    &&& new_rows.contains((day.id, date@))
    &&& if date_absent(old_rows, date@) {
        new_rows == old_rows.push((day.id, date@)) && fresh_id(old_rows, day.id)
    } else {
        new_rows == old_rows && old_rows.contains((day.id, date@))
    }
}

/// What a lookup by id leaves behind, given the table's rows.
pub open spec fn lookup_by_id_post(rows: Seq<(u64, int)>, id: u64, r: Result<Day, DayError>) -> bool {
    &&& r matches Ok(day) ==> day.id == id && rows.contains((id, day.date@)) && day.date.wf()
    &&& r matches Err(e) ==> (e is NotFound || e is StoreError || e is DecodeError)
    &&& r matches Err(DayError::NotFound) ==> id_absent(rows, id)
    &&& r matches Err(DayError::DecodeError) ==> exists|k: int|
        0 <= k < rows.len() && #[trigger] rows[k].0 == id && !(1 <= rows[k].1 <= MAX_DAY_NUMBER)
    &&& r matches Err(DayError::StoreError { statement }) ==> statement@ == select_by_id_statement()
}

/// What a week query of `n` days from the given Monday leaves behind: day
/// `i` of the result carries the `i`-th date of the window and stands in
/// the table.
pub open spec fn week_days_post(new_rows: Seq<(u64, int)>, monday: int, v: Seq<Day>, n: int) -> bool {
    &&& v.len() == n
    &&& forall|i: int| 0 <= i < n ==> (#[trigger] v[i].date)@ == monday + i && v[i].date.wf()
    &&& forall|i: int| 0 <= i < n ==> new_rows.contains(((#[trigger] v[i]).id, monday + i))
}

/// What a partial-week query up to `date` leaves behind: the days of the
/// Monday-aligned week of `date`, cut after `date` itself.
pub open spec fn partial_week_post(new_rows: Seq<(u64, int)>, date: Date, v: Seq<Day>) -> bool {
    week_days_post(new_rows, week_monday_of(date@), v, weekday_index(date@) + 1)
}

/// The repository over a single store connection. Its mathematical view
/// `self@` is the contents of the `days` table.
///
/// The repository owns its connection outright: the design's shared
/// handle is expressed by the application sharing the repository itself,
/// so that every change to the table passes through these contracts.
pub struct DayRepository {
    connection: rusqlite::Connection,
}

impl View for DayRepository {
    type V = Seq<(u64, int)>;

    closed spec fn view(&self) -> Seq<(u64, int)> {
        stored_days(self.connection)
    }
}

impl DayRepository {
    /// Whether the backing `days` table exists. Construction establishes
    /// it, and no operation of the repository ever drops it.
    pub closed spec fn table_present(self) -> bool {
        days_table_present(self.connection)
    }

    /// Takes the store connection and makes sure the `days` table exists.
    /// The table's rows are untouched.
    pub fn new(connection: rusqlite::Connection) -> (r: Result<DayRepository, DayError>)
        ensures
            r matches Ok(repo) ==> repo@ == stored_days(connection) && repo.table_present(),
            r matches Err(e) ==> e matches DayError::StoreError { .. },
            r matches Err(DayError::StoreError { statement }) ==> statement@
                == create_table_statement(),
    {
        let mut conn = connection;
        match create_days_table(&mut conn) {
            Ok(()) => Ok(DayRepository { connection: conn }),
            Err(_) => Err(store_error(
                "CREATE TABLE IF NOT EXISTS days (id INTEGER PRIMARY KEY AUTOINCREMENT, date DATE NOT NULL)",
            )),
        }
    }

    /// The get-or-create primitive: looks the date up, returns the found
    /// row, or inserts the date and returns the re-read row. Any store
    /// failure is propagated with the offending statement attached.
    pub fn from_date(&mut self, date: Date) -> (r: Result<Day, DayError>)
        requires
            rows_wf(old(self)@),
            date.wf(),
        ensures
            rows_wf(final(self)@),
            old(self).table_present() ==> final(self).table_present(),
            old(self)@.is_prefix_of(final(self)@),
            r matches Ok(day) ==> get_or_create_post(old(self)@, final(self)@, date, day),
            r matches Err(e) ==> e matches DayError::StoreError { .. },
            r matches Err(DayError::StoreError { statement }) ==> statement@
                == select_by_date_statement() || statement@ == insert_statement(),
            r is Err ==> final(self)@ == old(self)@ || (date_absent(old(self)@, date@)
                && exists|id: u64|
                #![auto]
                final(self)@ == old(self)@.push((id, date@)) && fresh_id(old(self)@, id)),
    {
        match self.from_date_or_none(date) {
            Err(e) => {
                proof {
                    lemma_prefix_reflexive(self@);
                }
                Err(e)
            },
            Ok(Some(day)) => {
                proof {
                    lemma_prefix_reflexive(self@);
                    let k = choose|i: int|
                        0 <= i < old(self)@.len() && old(self)@[i] == (day.id, date@);
                    assert(old(self)@[k].1 == date@);
                }
                Ok(day)
            },
            Ok(None) => {
                match self.insert_from_date(date) {
                    Err(e) => {
                        proof {
                            lemma_prefix_reflexive(self@);
                        }
                        Err(e)
                    },
                    Ok(()) => {
                        proof {
                            lemma_push_keeps_uniqueness(old(self)@, self@, date@);
                            lemma_prefix_of_push(old(self)@, self@, date@);
                        }
                        let ghost rows1 = self@;
                        match self.from_date_or_none(date) {
                            Err(e) => Err(e),
                            Ok(Some(day)) => {
                                proof {
                                    let id0 = choose|id: u64|
                                        #![auto]
                                        rows1 == old(self)@.push((id, date@)) && fresh_id(
                                            old(self)@,
                                            id,
                                        );
                                    let k = choose|i: int|
                                        0 <= i < rows1.len() && rows1[i] == (day.id, date@);
                                    if k < old(self)@.len() {
                                        assert(old(self)@[k] == rows1[k]);
                                        assert(old(self)@[k].1 == date@);
                                        assert(false);
                                    }
                                    assert(day.id == id0);
                                }
                                Ok(day)
                            },
                            Ok(None) => {
                                // Unreachable: the row inserted a moment ago
                                // must answer the re-read.
                                proof {
                                    let id0 = choose|id: u64|
                                        #![auto]
                                        rows1 == old(self)@.push((id, date@)) && fresh_id(
                                            old(self)@,
                                            id,
                                        );
                                    assert(rows1[rows1.len() - 1] == (id0, date@));
                                    assert(rows1[rows1.len() - 1].1 == date@);
                                    assert(false);
                                }
                                Err(DayError::DecodeError)
                            },
                        }
                    },
                }
            },
        }
    }

    /// Looks the date up without creating anything: the found row as a
    /// `Day`, or `None` when the table has no row for the date.
    fn from_date_or_none(&mut self, date: Date) -> (r: Result<Option<Day>, DayError>)
        requires
            date.wf(),
        ensures
            final(self)@ == old(self)@,
            old(self).table_present() ==> final(self).table_present(),
            r matches Ok(Some(day)) ==> day.date == date && old(self)@.contains((day.id, date@)),
            r matches Ok(None) ==> date_absent(old(self)@, date@),
            r matches Err(e) ==> e matches DayError::StoreError { .. },
            r matches Err(DayError::StoreError { statement }) ==> statement@
                == select_by_date_statement(),
    {
        let num = date.day_number();
        match select_day_by_date(&mut self.connection, num as i64) {
            Err(_) => Err(store_error("SELECT id FROM days WHERE date = ?1")),
            Ok(None) => Ok(None),
            Ok(Some(id)) => Ok(Some(Day::new(id, date))),
        }
    }

    /// Inserts a row for the date; the store assigns the row a fresh id
    /// larger than every id already present.
    fn insert_from_date(&mut self, date: Date) -> (r: Result<(), DayError>)
        requires
            date.wf(),
        ensures
            old(self).table_present() ==> final(self).table_present(),
            r is Ok ==> exists|id: u64|
                #![auto]
                final(self)@ == old(self)@.push((id, date@)) && fresh_id(old(self)@, id),
            r is Err ==> final(self)@ == old(self)@,
            r matches Err(e) ==> e matches DayError::StoreError { .. },
            r matches Err(DayError::StoreError { statement }) ==> statement@ == insert_statement(),
    {
        let num = date.day_number();
        match insert_day(&mut self.connection, num as i64) {
            Err(_) => Err(store_error("INSERT INTO days (date) VALUES (?1)")),
            Ok(()) => {
                proof {
                    let rows0 = old(self)@;
                    let rows1 = self@;
                    let id = choose|id: u64|
                        rows1 == rows0.push((id, (num as i64) as int)) && #[trigger] fresh_id(
                            rows0,
                            id,
                        );
                    assert(rows1 == rows0.push((id, date@)) && fresh_id(rows0, id));
                }
                Ok(())
            },
        }
    }

    /// Lookup by identifier: the row's `Day`, or `NotFound` when no row
    /// carries the id. The table is never changed.
    pub fn day(&mut self, id: u64) -> (r: Result<Day, DayError>)
        ensures
            final(self)@ == old(self)@,
            old(self).table_present() ==> final(self).table_present(),
            lookup_by_id_post(old(self)@, id, r),
            id_absent(old(self)@, id) ==> (r matches Err(e) && (e is NotFound || e is StoreError)),
    {
        match select_day_by_id(&mut self.connection, id) {
            Err(_) => Err(store_error("SELECT id, date FROM days WHERE id = ?1")),
            Ok(None) => Err(DayError::NotFound),
            Ok(Some(p)) => {
                let r = day_from_row(p.0, p.1.as_str());
                proof {
                    let k0 = choose|k: int|
                        0 <= k < old(self)@.len() && old(self)@[k] == (
                            id,
                            canonical_date_value(p.1@),
                        );
                    assert(old(self)@[k0].0 == id);
                    if r is Err {
                        let rows = old(self)@;
                        assert(rows.contains((id, 0int)));
                        let k = choose|k: int| 0 <= k < rows.len() && rows[k] == (id, 0int);
                        assert(rows[k].0 == id);
                        assert(!(1 <= rows[k].1 <= MAX_DAY_NUMBER));
                    }
                }
                r
            },
        }
    }

    /// Resolves the Day for the current local calendar date, derived from
    /// wall-clock time at call time, not cached.
    pub fn today(&mut self) -> (r: Result<Day, DayError>)
        requires
            rows_wf(old(self)@),
        ensures
            rows_wf(final(self)@),
            old(self).table_present() ==> final(self).table_present(),
            old(self)@.is_prefix_of(final(self)@),
            r matches Ok(day) ==> day.date.wf() && get_or_create_post(
                old(self)@,
                final(self)@,
                day.date,
                day,
            ),
            r matches Err(e) ==> (e is StoreError || e is DateArithmeticError),
            r matches Err(DayError::DateArithmeticError) ==> final(self)@ == old(self)@,
            r matches Err(DayError::StoreError { statement }) ==> statement@
                == select_by_date_statement() || statement@ == insert_statement(),
    {
        let num = current_local_day_number();
        if num < 1 || num > MAX_DAY_NUMBER as i64 {
            proof {
                lemma_prefix_reflexive(self@);
            }
            return Err(DayError::DateArithmeticError);
        }
        match Date::from_day_number(num as u64) {
            Some(date) => self.from_date(date),
            None => {
                proof {
                    lemma_prefix_reflexive(self@);
                    assert(false);
                }
                Err(DayError::DateArithmeticError)
            },
        }
    }

    /// Resolves the Day for local-today minus one calendar day; fails with
    /// `DateArithmeticError` only when the subtraction leaves the calendar.
    pub fn yesterday(&mut self) -> (r: Result<Day, DayError>)
        requires
            rows_wf(old(self)@),
        ensures
            rows_wf(final(self)@),
            old(self).table_present() ==> final(self).table_present(),
            old(self)@.is_prefix_of(final(self)@),
            r matches Ok(day) ==> day.date.wf() && get_or_create_post(
                old(self)@,
                final(self)@,
                day.date,
                day,
            ),
            r matches Err(e) ==> (e is StoreError || e is DateArithmeticError),
            r matches Err(DayError::DateArithmeticError) ==> final(self)@ == old(self)@,
            r matches Err(DayError::StoreError { statement }) ==> statement@
                == select_by_date_statement() || statement@ == insert_statement(),
    {
        let num = current_local_day_number();
        if num < 1 || num > MAX_DAY_NUMBER as i64 {
            proof {
                lemma_prefix_reflexive(self@);
            }
            return Err(DayError::DateArithmeticError);
        }
        match Date::from_day_number(num as u64) {
            Some(date) => {
                match date.pred() {
                    Some(previous) => self.from_date(previous),
                    None => {
                        proof {
                            lemma_prefix_reflexive(self@);
                        }
                        Err(DayError::DateArithmeticError)
                    },
                }
            },
            None => {
                proof {
                    lemma_prefix_reflexive(self@);
                    assert(false);
                }
                Err(DayError::DateArithmeticError)
            },
        }
    }

    /// Resolves, in chronological order, every date of the Monday-aligned
    /// week containing `date`: exactly 7 days, Monday first, created where
    /// missing — even for dates after `date`.
    pub fn complete_week(&mut self, date: Date) -> (r: Result<Vec<Day>, DayError>)
        requires
            rows_wf(old(self)@),
            date.wf(),
            week_monday_of(date@) + 6 <= MAX_DAY_NUMBER,
        ensures
            rows_wf(final(self)@),
            old(self).table_present() ==> final(self).table_present(),
            old(self)@.is_prefix_of(final(self)@),
            appended_within_window(old(self)@, final(self)@, week_monday_of(date@), 7),
            r matches Ok(v) ==> week_days_post(final(self)@, week_monday_of(date@), v@, 7),
            r matches Err(e) ==> e matches DayError::StoreError { .. },
            r matches Err(DayError::StoreError { statement }) ==> statement@
                == select_by_date_statement() || statement@ == insert_statement(),
    {
        proof {
            lemma_week_monday_bounds(date@);
        }
        let monday = date.week_monday();
        self.resolve_week_days(monday, 7)
    }

    /// Resolves the dates of the Monday-aligned week containing `date` that
    /// lie on or before `date`, in chronological order: between 1 and 7
    /// days, Monday first.
    pub fn week_till_date(&mut self, date: Date) -> (r: Result<Vec<Day>, DayError>)
        requires
            rows_wf(old(self)@),
            date.wf(),
        ensures
            rows_wf(final(self)@),
            old(self).table_present() ==> final(self).table_present(),
            old(self)@.is_prefix_of(final(self)@),
            appended_within_window(
                old(self)@,
                final(self)@,
                week_monday_of(date@),
                weekday_index(date@) + 1,
            ),
            forall|k: int|
                old(self)@.len() <= k < final(self)@.len() ==> (#[trigger] final(self)@[k]).1
                    <= date@,
            r matches Ok(v) ==> partial_week_post(final(self)@, date, v@) && (forall|i: int|
                0 <= i < v@.len() ==> (#[trigger] v@[i].date)@ <= date@),
            r matches Err(e) ==> e matches DayError::StoreError { .. },
            r matches Err(DayError::StoreError { statement }) ==> statement@
                == select_by_date_statement() || statement@ == insert_statement(),
    {
        proof {
            lemma_week_monday_bounds(date@);
        }
        let monday = date.week_monday();
        let weekday = date.weekday_from_monday();
        let r = self.resolve_week_days(monday, weekday + 1);
        proof {
            lemma_week_monday_bounds(date@);
            assert forall|k: int|
                old(self)@.len() <= k < self@.len() implies (#[trigger] self@[k]).1 <= date@ by {}
        }
        match r {
            Ok(v) => Ok(v),
            Err(e) => Err(e),
        }
    }

    /// Resolves the dates of the current week up to and including the
    /// current local calendar date, in chronological order.
    pub fn week_till_today(&mut self) -> (r: Result<Vec<Day>, DayError>)
        requires
            rows_wf(old(self)@),
        ensures
            rows_wf(final(self)@),
            old(self).table_present() ==> final(self).table_present(),
            old(self)@.is_prefix_of(final(self)@),
            r matches Ok(v) ==> exists|t: Date|
                #![auto]
                t.wf() && partial_week_post(final(self)@, t, v@) && appended_within_window(
                    old(self)@,
                    final(self)@,
                    week_monday_of(t@),
                    weekday_index(t@) + 1,
                ),
            r matches Err(e) ==> (e is StoreError || e is DateArithmeticError),
            r matches Err(DayError::DateArithmeticError) ==> final(self)@ == old(self)@,
            r matches Err(DayError::StoreError { statement }) ==> statement@
                == select_by_date_statement() || statement@ == insert_statement(),
    {
        let num = current_local_day_number();
        if num < 1 || num > MAX_DAY_NUMBER as i64 {
            proof {
                lemma_prefix_reflexive(self@);
            }
            return Err(DayError::DateArithmeticError);
        }
        match Date::from_day_number(num as u64) {
            Some(date) => {
                match self.week_till_date(date) {
                    Ok(v) => Ok(v),
                    Err(e) => Err(e),
                }
            },
            None => {
                proof {
                    lemma_prefix_reflexive(self@);
                    assert(false);
                }
                Err(DayError::DateArithmeticError)
            },
        }
    }

    /// Resolves `count` consecutive dates starting at the given Monday-week
    /// day, creating the missing ones, in chronological order.
    #[verifier::loop_isolation(false)]
    fn resolve_week_days(&mut self, monday: Date, count: u64) -> (r: Result<Vec<Day>, DayError>)
        requires
            rows_wf(old(self)@),
            monday.wf(),
            1 <= count <= 7,
            monday@ + count - 1 <= MAX_DAY_NUMBER,
        ensures
            rows_wf(final(self)@),
            old(self).table_present() ==> final(self).table_present(),
            old(self)@.is_prefix_of(final(self)@),
            appended_within_window(old(self)@, final(self)@, monday@, count as int),
            r matches Ok(v) ==> week_days_post(final(self)@, monday@, v@, count as int),
            r matches Err(e) ==> e matches DayError::StoreError { .. },
            r matches Err(DayError::StoreError { statement }) ==> statement@
                == select_by_date_statement() || statement@ == insert_statement(),
    {
        let mut days: Vec<Day> = Vec::new();
        let mut i: u64 = 0;
        proof {
            lemma_prefix_reflexive(self@);
            assert(appended_within_window(old(self)@, self@, monday@, 0));
        }
        while i < count
            invariant
                i <= count,
                days@.len() == i,
                rows_wf(self@),
                old(self).table_present() ==> self.table_present(),
                old(self)@.is_prefix_of(self@),
                appended_within_window(old(self)@, self@, monday@, i as int),
                forall|j: int|
                    0 <= j < i ==> (#[trigger] days@[j].date)@ == monday@ + j
                        && days@[j].date.wf(),
                forall|j: int| 0 <= j < i ==> self@.contains(((#[trigger] days@[j]).id, monday@ + j)),
            decreases count - i,
        {
            let d = match Date::from_day_number(monday.day_number() + i) {
                Some(d) => d,
                None => {
                    proof {
                        assert(false);
                    }
                    return Err(DayError::DateArithmeticError);
                },
            };
            let ghost prev = self@;
            match self.from_date(d) {
                Err(e) => {
                    proof {
                        lemma_prefix_transitive(old(self)@, prev, self@);
                        lemma_append_step(
                            old(self)@,
                            prev,
                            self@,
                            monday@,
                            i as int,
                            count as int,
                            d@,
                        );
                        lemma_append_weaken(old(self)@, self@, monday@, i as int + 1, count as int);
                    }
                    return Err(e);
                },
                Ok(day) => {
                    proof {
                        lemma_prefix_transitive(old(self)@, prev, self@);
                        if date_absent(prev, d@) {
                            assert(self@ == prev.push((day.id, d@)));
                            assert(exists|id: u64| #![auto] self@ == prev.push((id, d@)));
                        }
                        lemma_append_step(
                            old(self)@,
                            prev,
                            self@,
                            monday@,
                            i as int,
                            count as int,
                            d@,
                        );
                        assert forall|j: int| 0 <= j < days@.len() implies self@.contains(
                            ((#[trigger] days@[j]).id, monday@ + j),
                        ) by {
                            lemma_prefix_preserves_contains(
                                prev,
                                self@,
                                (days@[j].id, monday@ + j),
                            );
                        }
                    }
                    days.push(day);
                },
            }
            i = i + 1;
        }
        Ok(days)
    }

    /// Returns up to `count` days ordered by date descending, most recent
    /// first; fewer when the store holds fewer rows; never creates rows.
    #[verifier::loop_isolation(false)]
    pub fn list_passed_days(&mut self, count: usize) -> (r: Result<Vec<Day>, DayError>)
        requires
            rows_wf(old(self)@),
        ensures
            final(self)@ == old(self)@,
            old(self).table_present() ==> final(self).table_present(),
            r matches Ok(v) ==> ({
                let rows = old(self)@;
                &&& v@.len() == vstd::math::min(count as int, rows.len() as int)
                &&& forall|i: int|
                    0 <= i < v@.len() ==> rows.contains(((#[trigger] v@[i]).id, v@[i].date@))
                        && v@[i].date.wf()
                &&& forall|i: int, j: int|
                    #![trigger v@[i], v@[j]]
                    0 <= i < j < v@.len() ==> v@[i].date@ > v@[j].date@
                &&& forall|k: int, i: int|
                    0 <= k < rows.len() && 0 <= i < v@.len() && !days_as_rows(v@).contains(
                        #[trigger] rows[k],
                    ) && 1 <= rows[k].1 ==> rows[k].1 <= (#[trigger] v@[i]).date@
            }),
            r matches Err(e) ==> (e is StoreError || e is DecodeError),
            r matches Err(DayError::DecodeError) ==> exists|k: int|
                0 <= k < old(self)@.len() && !(1 <= #[trigger] old(self)@[k].1 <= MAX_DAY_NUMBER),
            r matches Err(DayError::StoreError { statement }) ==> statement@ == list_statement(),
    {
        let raw = match select_days_desc(&mut self.connection, count as u64) {
            Err(_) => {
                return Err(
                    store_error("SELECT id, date FROM days ORDER BY date DESC LIMIT ?1"),
                );
            },
            Ok(raw) => raw,
        };
        let ghost rows = old(self)@;
        let ghost sel = decoded_rows(raw@);
        let mut days: Vec<Day> = Vec::new();
        let mut idx: usize = 0;
        while idx < raw.len()
            invariant
                idx <= raw.len(),
                days@.len() == idx,
                forall|j: int|
                    0 <= j < idx ==> (#[trigger] days@[j]).id == raw@[j].0 && days@[j].date@
                        == canonical_date_value(raw@[j].1@) && days@[j].date.wf(),
            decreases raw.len() - idx,
        {
            let p = &raw[idx];
            match day_from_row(p.0, p.1.as_str()) {
                Ok(day) => days.push(day),
                Err(_) => {
                    proof {
                        assert(rows.contains(sel[idx as int]));
                        let k = choose|k: int| 0 <= k < rows.len() && rows[k] == sel[idx as int];
                        assert(rows[k].1 == canonical_date_value(raw@[idx as int].1@));
                        assert(!(1 <= rows[k].1 <= MAX_DAY_NUMBER));
                    }
                    return Err(DayError::DecodeError);
                },
            }
            idx = idx + 1;
        }
        proof {
            assert forall|t: int| 0 <= t < days@.len() implies days_as_rows(days@)[t]
                == sel[t] by {}
            assert(days_as_rows(days@) =~= sel);
            assert forall|i: int| 0 <= i < days@.len() implies rows.contains(
                ((#[trigger] days@[i]).id, days@[i].date@),
            ) && days@[i].date.wf() by {
                assert(rows.contains(sel[i]));
                assert(sel[i] == (days@[i].id, days@[i].date@));
            }
            assert forall|i: int, j: int|
                #![trigger days@[i], days@[j]]
                0 <= i < j < days@.len() implies days@[i].date@ > days@[j].date@ by {
                assert(1 <= sel[i].1 && 1 <= sel[j].1);
                assert(sel[i].1 >= sel[j].1);
                assert(sel[i].0 != sel[j].0);
                if days@[i].date@ == days@[j].date@ {
                    let k1 = choose|k: int| 0 <= k < rows.len() && rows[k] == sel[i];
                    let k2 = choose|k: int| 0 <= k < rows.len() && rows[k] == sel[j];
                    assert(rows.contains(sel[i]) && rows.contains(sel[j]));
                    assert(rows[k1].1 == sel[i].1 && rows[k1].0 == sel[i].0);
                    assert(rows[k2].1 == sel[j].1 && rows[k2].0 == sel[j].0);
                    assert(k1 != k2);
                    assert(false);
                }
            }
            assert forall|k: int, i: int|
                0 <= k < rows.len() && 0 <= i < days@.len() && !days_as_rows(days@).contains(
                    #[trigger] rows[k],
                ) && 1 <= rows[k].1 implies rows[k].1 <= (#[trigger] days@[i]).date@ by {
                assert(!sel.contains(rows[k]));
                assert(1 <= sel[i].1);
                assert(rows[k].1 <= sel[i].1);
            }
        }
        Ok(days)
    }

    /// Resolves a reference: by identifier through `day`, by value by
    /// returning the carried day unchanged, with no store access.
    pub fn resolve(&mut self, reference: DayReference) -> (r: Result<Day, DayError>)
        ensures
            final(self)@ == old(self)@,
            old(self).table_present() ==> final(self).table_present(),
            reference matches DayReference::Value(d) ==> r == Ok::<Day, DayError>(d),
            reference matches DayReference::Id(id) ==> lookup_by_id_post(old(self)@, id, r),
    {
        match reference {
            DayReference::Id(id) => self.day(id),
            DayReference::Value(day) => Ok(day),
        }
    }
}

/// Decodes a result row's `id` and `date` fields into a `Day`: the store
/// adapter's row-to-entity translation. The date text must be the
/// canonical `YYYY-MM-DD` form this library writes; any other text — a
/// lenient variant, an unpadded field, a year outside the supported
/// calendar — fails with `DecodeError`.
pub fn day_from_row(id: u64, date_text: &str) -> (r: Result<Day, DayError>)
    ensures
        (r is Ok) <==> canonical_date_value(date_text@) != 0,
        r matches Ok(day) ==> day.id == id && day.date@ == canonical_date_value(date_text@)
            && day.date.wf(),
        r matches Err(e) ==> e is DecodeError,
{
    if date_text.unicode_len() != 10 {
        return Err(DayError::DecodeError);
    }
    if !(date_text.get_char(4) == '-') || !(date_text.get_char(7) == '-') {
        return Err(DayError::DecodeError);
    }
    let y0 = digit(date_text.get_char(0))?;
    let y1 = digit(date_text.get_char(1))?;
    let y2 = digit(date_text.get_char(2))?;
    let y3 = digit(date_text.get_char(3))?;
    let m0 = digit(date_text.get_char(5))?;
    let m1 = digit(date_text.get_char(6))?;
    let d0 = digit(date_text.get_char(8))?;
    let d1 = digit(date_text.get_char(9))?;
    let year = 1000 * y0 + 100 * y1 + 10 * y2 + y3;
    let month = 10 * m0 + m1;
    let day = 10 * d0 + d1;
    match Date::from_ymd(year, month, day) {
        Some(date) => {
            proof {
                assert(is_canonical_date_text(date_text@));
            }
            Ok(Day::new(id, date))
        },
        None => {
            proof {
                assert(!is_canonical_date_text(date_text@));
            }
            Err(DayError::DecodeError)
        },
    }
}

/// The value of a decimal digit character; `DecodeError` for any other.
fn digit(c: char) -> (r: Result<u64, DayError>)
    ensures
        (r is Ok) <==> digit_value(c) >= 0,
        r matches Ok(v) ==> v == digit_value(c),
        r matches Err(e) ==> e is DecodeError,
{
    match c {
        '0' => Ok(0),
        '1' => Ok(1),
        '2' => Ok(2),
        '3' => Ok(3),
        '4' => Ok(4),
        '5' => Ok(5),
        '6' => Ok(6),
        '7' => Ok(7),
        '8' => Ok(8),
        '9' => Ok(9),
        _ => Err(DayError::DecodeError),
    }
}

/// A complete week is calendar-aligned: seven entities on consecutive
/// dates, the first the Monday on or before the asked date, the last the
/// following Sunday.
pub proof fn lemma_complete_week_alignment(
    rows: Seq<(u64, int)>,
    date: Date,
    v: Seq<Day>,
)
    requires
        date.wf(),
        week_days_post(rows, week_monday_of(date@), v, 7),
    ensures
        v.len() == 7,
        v[0].date@ == week_monday_of(date@),
        weekday_index(v[0].date@) == 0,
        v[0].date@ <= date@ < v[0].date@ + 7,
        forall|i: int| 1 <= i < 7 ==> (#[trigger] v[i].date)@ == v[i - 1].date@ + 1,
        weekday_index(v[6].date@) == 6,
{
    lemma_week_monday_bounds(date@);
    lemma_weekday_within_week(week_monday_of(date@), 6);
}

/// Builds the store failure that carries the given statement text.
fn store_error(text: &str) -> (r: DayError)
    ensures
        r matches DayError::StoreError { statement } && statement@ == text@,
{
    DayError::StoreError { statement: text.to_owned() }
}

/// A sequence is a prefix of itself.
proof fn lemma_prefix_reflexive(s: Seq<(u64, int)>)
    ensures
        s.is_prefix_of(s),
{
    assert(s =~= s.subrange(0, s.len() as int));
}

/// Whatever single row may have been pushed, the old rows stay a prefix.
proof fn lemma_prefix_of_push(old_rows: Seq<(u64, int)>, new_rows: Seq<(u64, int)>, num: int)
    requires
        new_rows == old_rows || exists|id: u64| #![auto] new_rows == old_rows.push((id, num)),
    ensures
        old_rows.is_prefix_of(new_rows),
{
    if new_rows == old_rows {
        lemma_prefix_reflexive(old_rows);
    } else {
        let id = choose|id: u64| #![auto] new_rows == old_rows.push((id, num));
        assert(old_rows =~= new_rows.subrange(0, old_rows.len() as int));
    }
}

/// A prefix of a prefix is a prefix.
proof fn lemma_prefix_transitive(a: Seq<(u64, int)>, b: Seq<(u64, int)>, c: Seq<(u64, int)>)
    requires
        a.is_prefix_of(b),
        b.is_prefix_of(c),
    ensures
        a.is_prefix_of(c),
{
    assert forall|k: int| 0 <= k < a.len() implies a[k] == c[k] by {
        assert(a[k] == b[k]);
        assert(b[k] == c[k]);
    }
    assert(a =~= c.subrange(0, a.len() as int));
}

/// Rows present in a sequence stay present in every extension of it.
proof fn lemma_prefix_preserves_contains(a: Seq<(u64, int)>, b: Seq<(u64, int)>, x: (u64, int))
    requires
        a.is_prefix_of(b),
        a.contains(x),
    ensures
        b.contains(x),
{
    let k = choose|k: int| 0 <= k < a.len() && a[k] == x;
    assert(b[k] == a[k]);
}

/// Get-or-create is idempotent: resolving one date twice yields the same
/// day both times, the second resolution changes nothing, and afterwards
/// at most one row carries the date.
pub proof fn lemma_from_date_idempotent(
    rows0: Seq<(u64, int)>,
    rows1: Seq<(u64, int)>,
    rows2: Seq<(u64, int)>,
    date: Date,
    d1: Day,
    d2: Day,
)
    requires
        dates_unique(rows0),
        date.wf(),
        get_or_create_post(rows0, rows1, date, d1),
        get_or_create_post(rows1, rows2, date, d2),
    ensures
        d2 == d1,
        rows2 == rows1,
        rows2.contains((d1.id, date@)),
        forall|i: int, j: int|
            #![trigger rows2[i].1, rows2[j].1]
            0 <= i < rows2.len() && 0 <= j < rows2.len() && rows2[i].1 == date@ && rows2[j].1
                == date@ ==> i == j,
{
    // The first resolution leaves the date's row in place and keeps dates
    // unique, so the second resolution finds exactly that row.
    if date_absent(rows0, date@) {
        assert forall|i: int, j: int|
            #![trigger rows1[i].1, rows1[j].1]
            0 <= i < j < rows1.len() implies rows1[i].1 != rows1[j].1 by {
            if j < rows0.len() {
                assert(rows1[i] == rows0[i] && rows1[j] == rows0[j]);
            } else {
                assert(rows1[j] == (d1.id, date@));
                assert(rows1[i] == rows0[i]);
            }
        }
    }
    assert(dates_unique(rows1));
    let k1 = choose|k: int| 0 <= k < rows1.len() && rows1[k] == (d1.id, date@);
    assert(rows1[k1].1 == date@);
    assert(!date_absent(rows1, date@));
    assert(rows2 == rows1);
    let k2 = choose|k: int| 0 <= k < rows1.len() && rows1[k] == (d2.id, date@);
    assert(rows1[k2].1 == date@);
    assert(k1 == k2);
    assert(d1.id == d2.id);
    assert(d1 == d2);
    assert forall|i: int, j: int|
        #![trigger rows2[i].1, rows2[j].1]
        0 <= i < rows2.len() && 0 <= j < rows2.len() && rows2[i].1 == date@ && rows2[j].1 == date@
        implies i == j by {
        if i < j {
            assert(rows2[i].1 != rows2[j].1);
        } else if j < i {
            assert(rows2[j].1 != rows2[i].1);
        }
    }
}

/// Resolving a by-id reference to a persisted day yields that very day:
/// a lookup of `d.id` against rows holding `d` cannot answer `NotFound` or
/// `DecodeError`, and a successful answer equals `d`. (Resolving a
/// by-value reference returns the carried day unchanged by the ensures of
/// `resolve` itself.)
pub proof fn lemma_resolve_by_id_roundtrip(
    rows: Seq<(u64, int)>,
    d: Day,
    r: Result<Day, DayError>,
)
    requires
        ids_unique(rows),
        d.date.wf(),
        rows.contains((d.id, d.date@)),
        lookup_by_id_post(rows, d.id, r),
    ensures
        r matches Ok(day) ==> day == d,
        !(r matches Err(DayError::NotFound)),
        !(r matches Err(DayError::DecodeError)),
{
    let k = choose|k: int| 0 <= k < rows.len() && rows[k] == (d.id, d.date@);
    assert(rows[k].0 == d.id);
    if r matches Err(DayError::DecodeError) {
        let k2 = choose|k2: int|
            0 <= k2 < rows.len() && #[trigger] rows[k2].0 == d.id && !(1 <= rows[k2].1
                <= MAX_DAY_NUMBER);
        assert(k == k2);
        assert(false);
    }
    match r {
        Ok(day) => {
            let k3 = choose|k3: int| 0 <= k3 < rows.len() && rows[k3] == (d.id, day.date@);
            assert(rows[k3].0 == d.id);
            assert(k == k3);
            assert(day.date@ == d.date@);
            lemma_date_determined_by_number(day.date, d.date);
        },
        Err(_) => {},
    }
}

/// The partial week up to `date` is a prefix, in date order, of the
/// complete week of `date`: it holds exactly the entities dated on or
/// before `date`, and its length is the weekday index of `date` plus one.
pub proof fn lemma_partial_week_is_prefix(
    rows: Seq<(u64, int)>,
    date: Date,
    full: Seq<Day>,
    part: Seq<Day>,
)
    requires
        rows_wf(rows),
        date.wf(),
        week_days_post(rows, week_monday_of(date@), full, 7),
        partial_week_post(rows, date, part),
    ensures
        part == full.subrange(0, weekday_index(date@) + 1),
        part.len() == weekday_index(date@) + 1,
        forall|i: int| 0 <= i < part.len() ==> (#[trigger] part[i].date)@ <= date@,
        forall|i: int| part.len() <= i < 7 ==> (#[trigger] full[i].date)@ > date@,
{
    lemma_week_monday_bounds(date@);
    let monday = week_monday_of(date@);
    let n = weekday_index(date@) + 1;
    assert forall|i: int| 0 <= i < n implies part[i] == full[i] by {
        let k1 = choose|k: int| 0 <= k < rows.len() && rows[k] == (part[i].id, monday + i);
        let k2 = choose|k: int| 0 <= k < rows.len() && rows[k] == (full[i].id, monday + i);
        assert(rows[k1].1 == monday + i);
        assert(rows[k2].1 == monday + i);
        assert(k1 == k2);
        assert(part[i].id == full[i].id);
        lemma_date_determined_by_number(part[i].date, full[i].date);
    }
    assert(part =~= full.subrange(0, n));
}

/// Appending a fresh id with an absent date keeps ids and dates unique.
proof fn lemma_push_keeps_uniqueness(old_rows: Seq<(u64, int)>, new_rows: Seq<(u64, int)>, num: int)
    requires
        rows_wf(old_rows),
        date_absent(old_rows, num),
        exists|id: u64| #![auto] new_rows == old_rows.push((id, num)) && fresh_id(old_rows, id),
    ensures
        rows_wf(new_rows),
{
    let id = choose|id: u64| #![auto] new_rows == old_rows.push((id, num)) && fresh_id(old_rows, id);
    assert forall|i: int, j: int| 0 <= i < j < new_rows.len() implies new_rows[i].0 != new_rows[j].0
        && new_rows[i].1 != new_rows[j].1 by {
        if j < old_rows.len() {
            assert(new_rows[i] == old_rows[i] && new_rows[j] == old_rows[j]);
        } else {
            assert(new_rows[j] == (id, num));
            assert(new_rows[i] == old_rows[i]);
        }
    }
}

/// One get-or-create step keeps the appended rows within the window: it
/// appends nothing, or one row dated `monday + i` that was absent.
proof fn lemma_append_step(
    old_rows: Seq<(u64, int)>,
    cur: Seq<(u64, int)>,
    new: Seq<(u64, int)>,
    monday: int,
    i: int,
    n: int,
    date_num: int,
)
    requires
        0 <= i < n,
        date_num == monday + i,
        old_rows.is_prefix_of(cur),
        appended_within_window(old_rows, cur, monday, i),
        new == cur || (date_absent(cur, date_num) && exists|id: u64|
            #![auto]
            new == cur.push((id, date_num))),
    ensures
        appended_within_window(old_rows, new, monday, i + 1),
{
    if new == cur {
        assert forall|k: int|
            old_rows.len() <= k < new.len() implies monday <= (#[trigger] new[k]).1 < monday + (i
                + 1) && date_absent(old_rows, new[k].1) by {
            assert(cur[k] == new[k]);
        }
    } else {
        let id = choose|id: u64| #![auto] new == cur.push((id, date_num));
        assert forall|k: int|
            old_rows.len() <= k < new.len() implies monday <= (#[trigger] new[k]).1 < monday + (i
                + 1) && date_absent(old_rows, new[k].1) by {
            if k < cur.len() {
                assert(new[k] == cur[k]);
            } else {
                assert(new[k] == (id, date_num));
                assert forall|t: int|
                    0 <= t < old_rows.len() implies (#[trigger] old_rows[t]).1 != date_num by {
                    assert(old_rows[t] == cur[t]);
                }
            }
        }
    }
}

/// A window bound relaxes to any wider window.
proof fn lemma_append_weaken(
    old_rows: Seq<(u64, int)>,
    new_rows: Seq<(u64, int)>,
    monday: int,
    m: int,
    n: int,
)
    requires
        appended_within_window(old_rows, new_rows, monday, m),
        0 <= m <= n,
    ensures
        appended_within_window(old_rows, new_rows, monday, n),
{
    assert forall|k: int|
        old_rows.len() <= k < new_rows.len() implies monday <= (#[trigger] new_rows[k]).1 < monday
            + n && date_absent(old_rows, new_rows[k].1) by {}
}

/// Resolving a week whose dates all stand in the table inserts nothing:
/// the appended-rows bound together with the week's own membership facts
/// forces the table to stay exactly as it was.
pub proof fn lemma_complete_week_idempotent(
    rows1: Seq<(u64, int)>,
    rows2: Seq<(u64, int)>,
    monday: int,
    week: Seq<Day>,
)
    requires
        week_days_post(rows1, monday, week, 7),
        rows1.is_prefix_of(rows2),
        appended_within_window(rows1, rows2, monday, 7),
    ensures
        rows2 == rows1,
{
    if rows2.len() > rows1.len() {
        let k = rows1.len() as int;
        let j = rows2[k].1 - monday;
        assert(rows1.contains((week[j].id, monday + j)));
        let t = choose|t: int| 0 <= t < rows1.len() && rows1[t] == (week[j].id, monday + j);
        assert(rows1[t].1 == monday + j);
        assert(false);
    }
    assert forall|t: int| 0 <= t < rows2.len() implies rows1[t] == rows2[t] by {}
    assert(rows1 =~= rows2);
}

} // verus!
