use ipwatch::db::migrations::{
    apply, current_version, pending, target_version, version_statement, Attempt, MigrationStep,
};
use ipwatch::db::{
    latest_event, ChangeReason, DbError, EventRow, IpEvent, INSERT_EVENT, RECENT_EVENTS,
};
use rusqlite::Connection;

// A database driven by the library's statements, rows and migrations.

fn stored_version(conn: &Connection) -> u32 {
    let version: i64 = conn.query_row("PRAGMA user_version", [], |row| row.get(0)).unwrap();
    current_version(version)
}

fn attempt(conn: &mut Connection, sql: &str, statement: &str) -> Attempt {
    let tx = conn.transaction().unwrap();
    for batch in [sql, statement] {
        if let Err(err) = tx.execute_batch(batch) {
            return Attempt::Failed(err.to_string());
        }
    }
    tx.commit().unwrap();
    Attempt::Committed
}

fn migrate(conn: &mut Connection) -> Result<(), DbError> {
    let stored: i64 = conn.query_row("PRAGMA user_version", [], |row| row.get(0)).unwrap();
    let mut step = apply(Ok(stored));
    loop {
        match step {
            MigrationStep::Done(result) => return result,
            MigrationStep::Attempt { run, statement } => {
                let outcome = attempt(conn, run.current.sql, &statement);
                step = run.step(outcome);
            }
        }
    }
}

fn db() -> Connection {
    let mut conn = Connection::open_in_memory().expect("in-memory db opens");
    migrate(&mut conn).unwrap();
    conn
}

fn insert_event(conn: &Connection, event: &IpEvent) -> i64 {
    let row = event.to_row();
    conn.execute(
        INSERT_EVENT,
        (row.ts, row.external_ip, row.country, row.country_code, row.isp, row.change_reason),
    )
    .unwrap();
    conn.last_insert_rowid()
}

fn recent_events(conn: &Connection, limit: u32) -> Vec<IpEvent> {
    let mut stmt = conn.prepare(RECENT_EVENTS).unwrap();
    let rows = stmt
        .query_map([limit], |row| {
            Ok(EventRow {
                id: row.get(0)?,
                ts: row.get(1)?,
                external_ip: row.get(2)?,
                country: row.get(3)?,
                country_code: row.get(4)?,
                isp: row.get(5)?,
                change_reason: row.get(6)?,
            })
        })
        .unwrap();
    ipwatch::db::recent_events(rows.map(|row| row.unwrap()).collect())
}

fn latest(conn: &Connection) -> Option<IpEvent> {
    latest_event(recent_events(conn, 1))
}

fn event(ts: i64, ip: &str, reason: ChangeReason) -> IpEvent {
    IpEvent {
        id: None,
        ts,
        external_ip: ip.to_string(),
        country: Some("United States".into()),
        country_code: Some("US".into()),
        isp: Some("Example ISP".into()),
        change_reason: reason,
    }
}

#[test]
fn applies_from_empty_and_is_idempotent() {
    let mut conn = Connection::open_in_memory().unwrap();

    migrate(&mut conn).unwrap();
    assert_eq!(stored_version(&conn), target_version());

    // Re-running must not error or re-execute (CREATE TABLE would fail).
    migrate(&mut conn).unwrap();
    assert_eq!(stored_version(&conn), target_version());
}

#[test]
fn creates_ip_events_table() {
    let mut conn = Connection::open_in_memory().unwrap();
    migrate(&mut conn).unwrap();

    let count: i64 = conn
        .query_row(
            "SELECT count(*) FROM sqlite_master WHERE type='table' AND name='ip_events'",
            [],
            |r| r.get(0),
        )
        .unwrap();
    assert_eq!(count, 1);
}

#[test]
fn round_trips_an_event() {
    let db = db();
    let original = event(1_700_000_000, "203.0.113.7", ChangeReason::Initial);

    let id = insert_event(&db, &original);
    let stored = latest(&db).expect("one row");

    assert_eq!(stored.id, Some(id));
    assert_eq!(stored.ts, original.ts);
    assert_eq!(stored.external_ip, original.external_ip);
    assert_eq!(stored.country, original.country);
    assert_eq!(stored.country_code, original.country_code);
    assert_eq!(stored.isp, original.isp);
    assert_eq!(stored.change_reason, ChangeReason::Initial);
}

#[test]
fn recent_events_returns_newest_first() {
    let db = db();
    insert_event(&db, &event(100, "198.51.100.1", ChangeReason::Initial));
    insert_event(&db, &event(300, "198.51.100.3", ChangeReason::CountryChanged));
    insert_event(&db, &event(200, "198.51.100.2", ChangeReason::IpChanged));

    let rows = recent_events(&db, 10);
    let timestamps: Vec<i64> = rows.iter().map(|e| e.ts).collect();

    assert_eq!(timestamps, vec![300, 200, 100]);
}

#[test]
fn recent_events_honours_the_limit() {
    let db = db();
    for i in 0..5 {
        insert_event(&db, &event(i, "203.0.113.7", ChangeReason::IpChanged));
    }

    assert_eq!(recent_events(&db, 2).len(), 2);
}

#[test]
fn latest_event_is_none_on_an_empty_database() {
    assert!(latest(&db()).is_none());
}

#[test]
fn nullable_geo_fields_survive_the_round_trip() {
    // The free API tiers omit fields unpredictably, so NULLs are routine.
    let db = db();
    let sparse = IpEvent {
        id: None,
        ts: 42,
        external_ip: "203.0.113.7".into(),
        country: None,
        country_code: None,
        isp: None,
        change_reason: ChangeReason::Offline,
    };

    insert_event(&db, &sparse);
    let stored = latest(&db).unwrap();

    assert_eq!(stored.country, None);
    assert_eq!(stored.country_code, None);
    assert_eq!(stored.isp, None);
    assert_eq!(stored.change_reason, ChangeReason::Offline);
}

#[test]
fn every_change_reason_survives_the_string_round_trip() {
    for reason in [
        ChangeReason::Initial,
        ChangeReason::IpChanged,
        ChangeReason::CountryChanged,
        ChangeReason::IspChanged,
        ChangeReason::Offline,
    ] {
        assert_eq!(ChangeReason::from_str(reason.as_str()), Some(reason));
    }
}

#[test]
fn serde_matches_as_str() {
    for (reason, expected) in [
        (ChangeReason::Initial, "initial"),
        (ChangeReason::IpChanged, "ip_changed"),
        (ChangeReason::CountryChanged, "country_changed"),
        (ChangeReason::IspChanged, "isp_changed"),
        (ChangeReason::Offline, "offline"),
    ] {
        assert_eq!(reason.as_str(), expected);
    }
}

#[test]
fn reopening_an_existing_database_is_safe() {
    // A shared in-memory database outlives the connection that filled it.
    let uri = "file:ipwatch_reopen?mode=memory&cache=shared";
    let mut first = Connection::open(uri).unwrap();
    migrate(&mut first).unwrap();
    insert_event(&first, &event(1, "203.0.113.7", ChangeReason::Initial));

    let mut reopened = Connection::open(uri).unwrap();
    migrate(&mut reopened).unwrap();
    assert_eq!(recent_events(&reopened, 10).len(), 1);
}

#[test]
fn rows_of_one_second_come_back_newest_first() {
    let db = db();
    insert_event(&db, &event(7, "198.51.100.1", ChangeReason::Initial));
    insert_event(&db, &event(7, "198.51.100.2", ChangeReason::IpChanged));
    assert_eq!(latest(&db).unwrap().external_ip, "198.51.100.2");
}

#[test]
fn the_latest_event_is_the_one_inserted_last() {
    let db = db();
    insert_event(&db, &event(9, "198.51.100.1", ChangeReason::Initial));
    let last = IpEvent { id: Some(77), ..event(9, "198.51.100.2", ChangeReason::IspChanged) };
    let id = insert_event(&db, &last);
    // The id that the event came with is ignored.
    assert_eq!(latest(&db), Some(IpEvent { id: Some(id), ..last }));
}

#[test]
fn an_unknown_reason_reads_as_initial() {
    assert_eq!(ChangeReason::from_str("Initial"), None);
    assert_eq!(ChangeReason::from_str(""), None);
    let row = EventRow {
        id: 3,
        ts: 4,
        external_ip: "203.0.113.7".to_string(),
        country: None,
        country_code: None,
        isp: None,
        change_reason: "teleported".to_string(),
    };
    let read = IpEvent::from_row(row);
    assert_eq!(read.change_reason, ChangeReason::Initial);
    assert_eq!(read.id, Some(3));
}

#[test]
fn the_schema_version_is_read_and_written_as_a_number() {
    assert_eq!(target_version(), 1);
    assert_eq!(version_statement(17), "PRAGMA user_version = 17");
    assert_eq!(current_version(0), 0);
    assert_eq!(current_version((1i64 << 32) + 5), 5);
    assert_eq!(pending(0).len(), 1);
    assert!(pending(1).is_empty());
    assert!(pending(9).is_empty());
}

#[test]
fn a_failed_migration_leaves_the_database_as_it_was() {
    // A table of that name is in the way, so the script cannot run.
    let mut conn = Connection::open_in_memory().unwrap();
    conn.execute_batch("CREATE TABLE ip_events (kept TEXT); INSERT INTO ip_events VALUES ('x')")
        .unwrap();

    match migrate(&mut conn) {
        Err(DbError::Migration { version, detail }) => {
            assert_eq!(version, 1);
            assert!(detail.contains("already exists"), "{detail}");
        }
        other => panic!("expected a failed migration, got {other:?}"),
    }
    assert_eq!(stored_version(&conn), 0);
    let kept: String = conn.query_row("SELECT kept FROM ip_events", [], |r| r.get(0)).unwrap();
    assert_eq!(kept, "x");
}

#[test]
fn a_database_that_is_ahead_is_left_alone() {
    let mut conn = Connection::open_in_memory().unwrap();
    conn.execute_batch("PRAGMA user_version = 7").unwrap();
    assert_eq!(migrate(&mut conn), Ok(()));
    assert_eq!(stored_version(&conn), 7);
}

#[test]
fn migrating_keeps_stored_rows() {
    let mut db = db();
    insert_event(&db, &event(5, "203.0.113.7", ChangeReason::Initial));
    assert_eq!(migrate(&mut db), Ok(()));
    assert_eq!(recent_events(&db, 10).len(), 1);
}

#[test]
fn failed_attempts_are_told_apart() {
    assert_eq!(
        apply(Err("locked".to_string())),
        MigrationStep::Done(Err(DbError::Sqlite("locked".to_string())))
    );
    assert_eq!(apply(Ok(1)), MigrationStep::Done(Ok(())));
    for (outcome, expected) in [
        (Attempt::NotCommitted("busy".to_string()), Err(DbError::Sqlite("busy".to_string()))),
        (
            Attempt::Failed("syntax".to_string()),
            Err(DbError::Migration { version: 1, detail: "syntax".to_string() }),
        ),
        (Attempt::Committed, Ok(())),
    ] {
        match apply(Ok(0)) {
            MigrationStep::Attempt { run, statement } => {
                assert_eq!(run.current.version, 1);
                assert_eq!(statement, "PRAGMA user_version = 1");
                assert_eq!(run.step(outcome), MigrationStep::Done(expected));
            }
            other => panic!("expected an attempt, got {other:?}"),
        }
    }
}

#[test]
fn database_errors_name_their_cause() {
    assert_eq!(DbError::Sqlite("locked".to_string()).message(), "sqlite error: locked");
    let err = DbError::Migration { version: 12, detail: "no such table".to_string() };
    assert_eq!(err.message(), "migration 12 failed: no such table");
}
