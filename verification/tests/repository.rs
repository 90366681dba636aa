use daystore::Date;
use daystore::Day;
use daystore::DayError;
use daystore::DayReference;
use daystore::DayRepository;
use rusqlite::Connection;

fn fresh_repository() -> DayRepository {
    let connection = Connection::open_in_memory().unwrap();
    DayRepository::new(connection).unwrap()
}

fn date(y: u64, m: u64, d: u64) -> Date {
    Date::from_ymd(y, m, d).unwrap()
}

#[test]
fn from_date_is_idempotent() {
    let mut repo = fresh_repository();
    let thursday = date(2024, 3, 14);
    let first = repo.from_date(thursday).unwrap();
    let second = repo.from_date(thursday).unwrap();
    assert_eq!(first.id, second.id);
    assert_eq!(first, second);
    assert_eq!(first.date, thursday);
    // Only one row for that date exists afterward.
    let all = repo.list_passed_days(10).unwrap();
    assert_eq!(all.len(), 1);
    assert_eq!(all[0], first);
}

#[test]
fn resolve_by_value_returns_day_unchanged() {
    let mut repo = fresh_repository();
    let day = Day::new(42, date(2024, 3, 14));
    let resolved = repo.resolve(DayReference::by_value(day)).unwrap();
    assert_eq!(resolved, day);
}

#[test]
fn resolve_by_id_finds_persisted_day() {
    let mut repo = fresh_repository();
    let day = repo.from_date(date(2024, 3, 14)).unwrap();
    let resolved = repo.resolve(DayReference::by_id(day.id)).unwrap();
    assert_eq!(resolved, day);
}

#[test]
fn day_with_unknown_id_is_not_found() {
    let mut repo = fresh_repository();
    let outcome = repo.day(9999);
    assert!(matches!(outcome, Err(DayError::NotFound)));
}

#[test]
fn complete_week_on_empty_store_creates_seven_days() {
    let mut repo = fresh_repository();
    let thursday = date(2024, 3, 14);
    let week = repo.complete_week(thursday).unwrap();
    assert_eq!(week.len(), 7);
    // Monday March 11 through Sunday March 17, in order.
    for (i, day) in week.iter().enumerate() {
        assert_eq!(day.date, date(2024, 3, 11 + i as u64));
    }
    // Ids are store-assigned and pairwise distinct.
    for i in 0..7 {
        for j in 0..i {
            assert_ne!(week[i].id, week[j].id);
        }
    }
    // The same get-or-create path returns the existing Thursday row.
    let again = repo.from_date(thursday).unwrap();
    assert_eq!(again, week[3]);
    // The store holds exactly the seven rows, three of them future-dated.
    assert_eq!(repo.list_passed_days(100).unwrap().len(), 7);
}

#[test]
fn week_till_date_stops_at_the_reference_date() {
    let mut repo = fresh_repository();
    let thursday = date(2024, 3, 14);
    let week = repo.week_till_date(thursday).unwrap();
    assert_eq!(week.len(), 4);
    for (i, day) in week.iter().enumerate() {
        assert_eq!(day.date, date(2024, 3, 11 + i as u64));
    }
    // Resolving the reference date again yields the entity already made.
    let again = repo.from_date(thursday).unwrap();
    assert_eq!(again, week[3]);
    // The store holds exactly four rows: no duplicate for the Thursday.
    assert_eq!(repo.list_passed_days(10).unwrap().len(), 4);
}

#[test]
fn week_till_date_is_prefix_of_complete_week() {
    let mut repo = fresh_repository();
    let thursday = date(2024, 3, 14);
    let full = repo.complete_week(thursday).unwrap();
    let part = repo.week_till_date(thursday).unwrap();
    assert_eq!(part.len(), 4);
    assert_eq!(&full[..4], &part[..]);
    for day in &part {
        assert!(day.date.day_number() <= thursday.day_number());
    }
    for day in &full[4..] {
        assert!(day.date.day_number() > thursday.day_number());
    }
}

#[test]
fn week_till_date_on_monday_and_sunday() {
    let mut repo = fresh_repository();
    let monday = date(2024, 3, 11);
    assert_eq!(repo.week_till_date(monday).unwrap().len(), 1);
    let mut repo = fresh_repository();
    let sunday = date(2024, 3, 17);
    let week = repo.week_till_date(sunday).unwrap();
    assert_eq!(week.len(), 7);
    assert_eq!(week[0].date, date(2024, 3, 11));
    assert_eq!(week[6].date, sunday);
}

#[test]
fn list_passed_days_sorts_descending_and_bounds() {
    let mut repo = fresh_repository();
    repo.from_date(date(2024, 3, 14)).unwrap();
    repo.from_date(date(2024, 3, 10)).unwrap();
    repo.from_date(date(2024, 3, 12)).unwrap();
    let two = repo.list_passed_days(2).unwrap();
    assert_eq!(two.len(), 2);
    assert_eq!(two[0].date, date(2024, 3, 14));
    assert_eq!(two[1].date, date(2024, 3, 12));
    let all = repo.list_passed_days(10).unwrap();
    assert_eq!(all.len(), 3);
    assert_eq!(all[0].date, date(2024, 3, 14));
    assert_eq!(all[1].date, date(2024, 3, 12));
    assert_eq!(all[2].date, date(2024, 3, 10));
    let none = repo.list_passed_days(0).unwrap();
    assert!(none.is_empty());
}

#[test]
fn decode_error_on_out_of_range_stored_date() {
    let connection = Connection::open_in_memory().unwrap();
    connection
        .execute(
            "CREATE TABLE days (id INTEGER PRIMARY KEY AUTOINCREMENT, date DATE NOT NULL)",
            (),
        )
        .unwrap();
    // Year 0 lies before the supported calendar range.
    connection
        .execute("INSERT INTO days (date) VALUES ('0000-03-14')", ())
        .unwrap();
    let mut repo = DayRepository::new(connection).unwrap();
    let outcome = repo.day(1);
    assert!(matches!(outcome, Err(DayError::DecodeError)));
    let listed = repo.list_passed_days(10);
    assert!(matches!(listed, Err(DayError::DecodeError)));
}

#[test]
fn decode_error_on_malformed_stored_date() {
    let connection = Connection::open_in_memory().unwrap();
    connection
        .execute(
            "CREATE TABLE days (id INTEGER PRIMARY KEY AUTOINCREMENT, date DATE NOT NULL)",
            (),
        )
        .unwrap();
    connection
        .execute("INSERT INTO days (date) VALUES ('not a date')", ())
        .unwrap();
    let mut repo = DayRepository::new(connection).unwrap();
    let outcome = repo.day(1);
    assert!(matches!(outcome, Err(DayError::DecodeError)));
}

#[test]
fn decode_error_on_non_canonical_date_text() {
    let connection = Connection::open_in_memory().unwrap();
    connection
        .execute(
            "CREATE TABLE days (id INTEGER PRIMARY KEY AUTOINCREMENT, date DATE NOT NULL)",
            (),
        )
        .unwrap();
    // A lenient variant of a real date: unpadded month and day.
    connection
        .execute("INSERT INTO days (date) VALUES ('2024-3-14')", ())
        .unwrap();
    let mut repo = DayRepository::new(connection).unwrap();
    let outcome = repo.day(1);
    assert!(matches!(outcome, Err(DayError::DecodeError)));
    // A canonical row alongside it is still found by date.
    let day = repo.from_date(Date::from_ymd(2024, 3, 14).unwrap()).unwrap();
    assert_ne!(day.id, 1);
}

#[test]
fn store_error_on_non_text_stored_date() {
    let connection = Connection::open_in_memory().unwrap();
    connection
        .execute(
            "CREATE TABLE days (id INTEGER PRIMARY KEY AUTOINCREMENT, date DATE NOT NULL)",
            (),
        )
        .unwrap();
    connection
        .execute("INSERT INTO days (date) VALUES (x'00ff')", ())
        .unwrap();
    let mut repo = DayRepository::new(connection).unwrap();
    let outcome = repo.day(1);
    match outcome {
        Err(DayError::StoreError { statement }) => {
            assert_eq!(statement, "SELECT id, date FROM days WHERE id = ?1");
        },
        other => panic!("expected a store failure, got {:?}", other),
    }
}

#[test]
fn clock_based_operations_agree_with_the_store() {
    let mut repo = fresh_repository();
    let today = repo.today().unwrap();
    let again = repo.today().unwrap();
    assert_eq!(today, again);
    let week = repo.week_till_today().unwrap();
    assert!(1 <= week.len() && week.len() <= 7);
    assert_eq!(*week.last().unwrap(), today);
    let yesterday = repo.yesterday().unwrap();
    assert!(yesterday.date.day_number() < today.date.day_number());
}
