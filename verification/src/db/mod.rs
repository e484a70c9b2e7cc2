//! The IP change log: why a reading was recorded, what a row of the log
//! holds, and how rows and events convert into one another.
use vstd::prelude::*;

use crate::text;
use crate::text::{decimal_text, same_text};

pub mod migrations;

verus! {

/// Why a snapshot was recorded. `Initial` is the first observation of a
/// session; `Country`/`Isp` changes are the VPN-drop signals.
#[derive(Clone, Copy, Debug, PartialEq, Eq, Structural)]
pub enum ChangeReason {
    Initial,
    IpChanged,
    CountryChanged,
    IspChanged,
    Offline,
}

/// The stored form of a reason.
pub open spec fn reason_text(reason: ChangeReason) -> Seq<char> {
    match reason {
        ChangeReason::Initial => "initial"@,
        ChangeReason::IpChanged => "ip_changed"@,
        ChangeReason::CountryChanged => "country_changed"@,
        ChangeReason::IspChanged => "isp_changed"@,
        ChangeReason::Offline => "offline"@,
    }
}

/// The reason that a stored text stands for, if it stands for one.
pub open spec fn reason_of(s: Seq<char>) -> Option<ChangeReason> {
    if s == "initial"@ {
        Some(ChangeReason::Initial)
    } else if s == "ip_changed"@ {
        Some(ChangeReason::IpChanged)
    } else if s == "country_changed"@ {
        Some(ChangeReason::CountryChanged)
    } else if s == "isp_changed"@ {
        Some(ChangeReason::IspChanged)
    } else if s == "offline"@ {
        Some(ChangeReason::Offline)
    } else {
        None
    }
}

/// Every reason survives being stored and read back.
pub proof fn lemma_reason_round_trip(reason: ChangeReason)
    ensures
        reason_of(reason_text(reason)) == Some(reason),
{
    reveal_strlit("initial");
    reveal_strlit("ip_changed");
    reveal_strlit("country_changed");
    reveal_strlit("isp_changed");
    reveal_strlit("offline");
    assert("ip_changed"@.len() == 10 && "isp_changed"@.len() == 11 && "country_changed"@.len()
        == 15);
    assert("initial"@[0] == 'i' && "offline"@[0] == 'o');
    assert("initial"@.len() == 7 && "offline"@.len() == 7);
}

/// Only the stored form of a reason reads back as that reason.
pub proof fn lemma_reason_of_is_exact(s: Seq<char>, reason: ChangeReason)
    requires
        reason_of(s) == Some(reason),
    ensures
        s == reason_text(reason),
{
}

impl ChangeReason {
    /// The form in which the reason is stored and sent to the frontend.
    pub fn as_str(self) -> (r: &'static str)
        ensures
            r@ == reason_text(self),
            self == ChangeReason::Initial ==> r@ == "initial"@,
            self == ChangeReason::IpChanged ==> r@ == "ip_changed"@,
            self == ChangeReason::CountryChanged ==> r@ == "country_changed"@,
            self == ChangeReason::IspChanged ==> r@ == "isp_changed"@,
            self == ChangeReason::Offline ==> r@ == "offline"@,
    {
        match self {
            ChangeReason::Initial => "initial",
            ChangeReason::IpChanged => "ip_changed",
            ChangeReason::CountryChanged => "country_changed",
            ChangeReason::IspChanged => "isp_changed",
            ChangeReason::Offline => "offline",
        }
    }

    /// Reads a stored reason back; `None` for any other text.
    pub fn from_str(s: &str) -> (r: Option<Self>)
        ensures
            r == reason_of(s@),
            r matches Some(reason) ==> s@ == reason_text(reason),
            r is None ==> s@ != "initial"@ && s@ != "ip_changed"@ && s@ != "country_changed"@ && s@
                != "isp_changed"@ && s@ != "offline"@,
    {
        if same_text(s, "initial") {
            Some(ChangeReason::Initial)
        } else if same_text(s, "ip_changed") {
            Some(ChangeReason::IpChanged)
        } else if same_text(s, "country_changed") {
            Some(ChangeReason::CountryChanged)
        } else if same_text(s, "isp_changed") {
            Some(ChangeReason::IspChanged)
        } else if same_text(s, "offline") {
            Some(ChangeReason::Offline)
        } else {
            None
        }
    }
}

/// One entry of the change log. `id` is `None` before insertion.
#[derive(Debug, PartialEq)]
pub struct IpEvent {
    pub id: Option<i64>,
    /// Unix seconds.
    pub ts: i64,
    pub external_ip: String,
    pub country: Option<String>,
    pub country_code: Option<String>,
    pub isp: Option<String>,
    pub change_reason: ChangeReason,
}

impl Clone for IpEvent {
    fn clone(&self) -> (r: Self)
        ensures
            r == *self,
    {
        IpEvent {
            id: self.id,
            ts: self.ts,
            external_ip: self.external_ip.clone(),
            country: self.country.clone(),
            country_code: self.country_code.clone(),
            isp: self.isp.clone(),
            change_reason: self.change_reason,
        }
    }
}

/// Inserts a row; the parameters are the fields of `NewRow` in order.
pub const INSERT_EVENT: &'static str =
    "INSERT INTO ip_events (ts, external_ip, country, country_code, isp, change_reason)
     VALUES (?1, ?2, ?3, ?4, ?5, ?6)";

/// Reads the most recent rows first; the parameter limits their number, the
/// columns are the fields of `EventRow` in order.
pub const RECENT_EVENTS: &'static str =
    "SELECT id, ts, external_ip, country, country_code, isp, change_reason
     FROM ip_events ORDER BY ts DESC, id DESC LIMIT ?1";

/// The columns bound when an event is inserted; the table assigns the id.
#[derive(Debug, PartialEq)]
pub struct NewRow {
    pub ts: i64,
    pub external_ip: String,
    pub country: Option<String>,
    pub country_code: Option<String>,
    pub isp: Option<String>,
    pub change_reason: &'static str,
}

/// A row as it is read from the table.
#[derive(Debug, PartialEq)]
pub struct EventRow {
    pub id: i64,
    pub ts: i64,
    pub external_ip: String,
    pub country: Option<String>,
    pub country_code: Option<String>,
    pub isp: Option<String>,
    pub change_reason: String,
}

/// Whether `row` is what the table holds under `id` once `new` was inserted.
pub open spec fn stored_as(new: NewRow, id: i64, row: EventRow) -> bool {
    &&& row.id == id
    &&& row.ts == new.ts
    &&& row.external_ip@ == new.external_ip@
    &&& text::opt_text(row.country) == text::opt_text(new.country)
    &&& text::opt_text(row.country_code) == text::opt_text(new.country_code)
    &&& text::opt_text(row.isp) == text::opt_text(new.isp)
    &&& row.change_reason@ == new.change_reason@
}

/// Whether `event` is the event that `row` records. A reason this version
/// does not know reads as `Initial`.
pub open spec fn event_of_row(row: EventRow, event: IpEvent) -> bool {
    &&& event.id == Some(row.id)
    &&& event.ts == row.ts
    &&& event.external_ip == row.external_ip
    &&& event.country == row.country
    &&& event.country_code == row.country_code
    &&& event.isp == row.isp
    &&& event.change_reason == (match reason_of(row.change_reason@) {
        Some(reason) => reason,
        None => ChangeReason::Initial,
    })
}

/// Whether `new` holds the columns of `event`.
pub open spec fn row_of_event(event: IpEvent, new: NewRow) -> bool {
    &&& new.ts == event.ts
    &&& new.external_ip == event.external_ip
    &&& new.country == event.country
    &&& new.country_code == event.country_code
    &&& new.isp == event.isp
    &&& new.change_reason@ == reason_text(event.change_reason)
}

/// Whether two events say the same, their ids aside.
pub open spec fn same_event(a: IpEvent, b: IpEvent) -> bool {
    &&& a.ts == b.ts
    &&& a.external_ip@ == b.external_ip@
    &&& text::opt_text(a.country) == text::opt_text(b.country)
    &&& text::opt_text(a.country_code) == text::opt_text(b.country_code)
    &&& text::opt_text(a.isp) == text::opt_text(b.isp)
    &&& a.change_reason == b.change_reason
}

/// An event that was inserted and read back is the event that was inserted,
/// under the id that the table gave it.
pub proof fn lemma_event_round_trip(event: IpEvent, new: NewRow, id: i64, row: EventRow, read: IpEvent)
    requires
        row_of_event(event, new),
        stored_as(new, id, row),
        event_of_row(row, read),
    ensures
        read.id == Some(id),
        same_event(read, event),
{
    lemma_reason_round_trip(event.change_reason);
}

/// Every fact of an event is bound to its own column, and read from it.
pub proof fn lemma_columns(event: IpEvent, new: NewRow, row: EventRow, read: IpEvent)
    requires
        row_of_event(event, new),
        event_of_row(row, read),
    ensures
        new.ts == event.ts,
        new.external_ip@ == event.external_ip@,
        new.country == event.country,
        new.country_code == event.country_code,
        new.isp == event.isp,
        read.id == Some(row.id),
        read.ts == row.ts,
        read.external_ip@ == row.external_ip@,
        read.country == row.country,
        read.country_code == row.country_code,
        read.isp == row.isp,
        row.change_reason@ == reason_text(read.change_reason) || (read.change_reason
            == ChangeReason::Initial && reason_of(row.change_reason@) is None),
{
}

/// What was stored is what was bound, column by column.
pub proof fn lemma_stored_columns(new: NewRow, id: i64, row: EventRow)
    requires
        stored_as(new, id, row),
    ensures
        row.id == id,
        row.ts == new.ts,
        row.external_ip@ == new.external_ip@,
        text::opt_text(row.country) == text::opt_text(new.country),
        text::opt_text(row.country_code) == text::opt_text(new.country_code),
        text::opt_text(row.isp) == text::opt_text(new.isp),
        row.change_reason@ == new.change_reason@,
{
}

impl IpEvent {
    /// The columns to insert for this event.
    pub fn to_row(&self) -> (r: NewRow)
        ensures
            row_of_event(*self, r),
            r.ts == self.ts,
            r.external_ip == self.external_ip,
            r.country == self.country,
            r.country_code == self.country_code,
            r.isp == self.isp,
            reason_of(r.change_reason@) == Some(self.change_reason),
    {
        proof {
            lemma_reason_round_trip(self.change_reason);
        }
        NewRow {
            ts: self.ts,
            external_ip: self.external_ip.clone(),
            country: self.country.clone(),
            country_code: self.country_code.clone(),
            isp: self.isp.clone(),
            change_reason: self.change_reason.as_str(),
        }
    }

    /// The event that a row records.
    pub fn from_row(row: EventRow) -> (r: IpEvent)
        ensures
            event_of_row(row, r),
            r.id == Some(row.id),
            r.ts == row.ts,
            r.external_ip == row.external_ip,
            r.country == row.country,
            r.country_code == row.country_code,
            r.isp == row.isp,
    {
        let change_reason = match ChangeReason::from_str(row.change_reason.as_str()) {
            Some(reason) => reason,
            None => ChangeReason::Initial,
        };
        IpEvent {
            id: Some(row.id),
            ts: row.ts,
            external_ip: row.external_ip,
            country: row.country,
            country_code: row.country_code,
            isp: row.isp,
            change_reason,
        }
    }
}

/// The events that rows record, in order.
pub fn recent_events(rows: Vec<EventRow>) -> (r: Vec<IpEvent>)
    ensures
        events_of_rows(rows@, r@),
        r@.len() == rows@.len(),
        forall|i: int|
            0 <= i < rows@.len() ==> (#[trigger] r@[i]).id == Some(rows@[i].id) && r@[i].ts
                == rows@[i].ts && r@[i].external_ip@ == rows@[i].external_ip@,
{
    let mut rows = rows;
    let ghost all = rows@;
    let mut events: Vec<IpEvent> = Vec::new();
    while rows.len() > 0
        invariant
            events@.len() + rows@.len() == all.len(),
            rows@ == all.skip(events@.len() as int),
            forall|i: int| 0 <= i < events@.len() ==> event_of_row(all[i], #[trigger] events@[i]),
        decreases rows@.len(),
    {
        assert(rows@[0] == all[events@.len() as int]);
        let event = IpEvent::from_row(rows.remove(0));
        events.push(event);
        assert(rows@ =~= all.skip(events@.len() as int));
    }
    events
}

/// The newest of events that are listed newest first.
pub fn latest_event(events: Vec<IpEvent>) -> (r: Option<IpEvent>)
    ensures
        r == (if events@.len() > 0 {
            Some(events@[0])
        } else {
            None::<IpEvent>
        }),
{
    if events.len() > 0 {
        Some(events[0].clone())
    } else {
        None
    }
}

/// Whether `events` are what `rows` record, in order.
pub open spec fn events_of_rows(rows: Seq<EventRow>, events: Seq<IpEvent>) -> bool {
    &&& events.len() == rows.len()
    &&& forall|i: int| 0 <= i < rows.len() ==> event_of_row(rows[i], #[trigger] events[i])
}

/// Whether row `a` comes before row `b` in the listing: by time, and within
/// one second by id.
pub open spec fn newer(a: EventRow, b: EventRow) -> bool {
    a.ts > b.ts || (a.ts == b.ts && a.id > b.id)
}

/// What `RECENT_EVENTS` means: whether `listed` holds the newest rows of
/// `table`, `limit` of them or as many as there are, newest first.
pub open spec fn lists_recent(table: Seq<EventRow>, limit: nat, listed: Seq<EventRow>) -> bool {
    &&& listed.len() == (if limit < table.len() {
        limit
    } else {
        table.len()
    })
    &&& forall|i: int| 0 <= i < listed.len() ==> table.contains(#[trigger] listed[i])
    &&& forall|i: int, j: int|
        0 <= i < j < listed.len() ==> newer(#[trigger] listed[i], #[trigger] listed[j])
    &&& forall|i: int, row: EventRow|
        0 <= i < listed.len() && #[trigger] table.contains(row) && !listed.contains(row) ==> newer(
            #[trigger] listed[i],
            row,
        )
}

/// History comes newest first and is never longer than was asked for.
pub proof fn lemma_history_is_newest_first(
    table: Seq<EventRow>,
    limit: nat,
    listed: Seq<EventRow>,
    events: Seq<IpEvent>,
)
    requires
        lists_recent(table, limit, listed),
        events_of_rows(listed, events),
    ensures
        events.len() <= limit,
        events.len() <= table.len(),
        forall|i: int, j: int|
            0 <= i < j < events.len() ==> (#[trigger] events[i]).ts >= (#[trigger] events[j]).ts,
{
    assert forall|i: int, j: int| 0 <= i < j < events.len() implies (#[trigger] events[i]).ts >= (
    #[trigger] events[j]).ts by {
        assert(newer(listed[i], listed[j]));
    }
}

/// What was inserted last, and is not older than anything before it, is the
/// latest event: all its fields come back as given, unknown ones as unknown,
/// under the id that the table gave it. The table gives ids in ascending
/// order.
pub proof fn lemma_latest_is_last_inserted(
    before: Seq<EventRow>,
    event: IpEvent,
    new: NewRow,
    id: i64,
    row: EventRow,
    listed: Seq<EventRow>,
    events: Seq<IpEvent>,
)
    requires
        row_of_event(event, new),
        stored_as(new, id, row),
        forall|k: int|
            0 <= k < before.len() ==> (#[trigger] before[k]).id < id && before[k].ts <= event.ts,
        lists_recent(before.push(row), 1, listed),
        events_of_rows(listed, events),
    ensures
        events.len() == 1,
        events[0].id == Some(id),
        same_event(events[0], event),
{
    let table = before.push(row);
    assert(table[before.len() as int] == row);
    assert(table.contains(row));
    assert(table.contains(listed[0]));
    if listed[0] != row {
        assert(!listed.contains(row));
        let k = choose|k: int| 0 <= k < table.len() && table[k] == listed[0];
        assert(before[k] == listed[0]);
        assert(newer(listed[0], row));
    }
    lemma_event_round_trip(event, new, id, listed[0], events[0]);
}

/// An empty table has no latest event.
pub proof fn lemma_empty_table_has_no_latest(
    limit: nat,
    listed: Seq<EventRow>,
    events: Seq<IpEvent>,
)
    requires
        lists_recent(seq![], limit, listed),
        events_of_rows(listed, events),
    ensures
        events.len() == 0,
{
}

/// Why the change log could not be read or written.
#[derive(Debug, PartialEq)]
pub enum DbError {
    Sqlite(String),
    Migration { version: u32, detail: String },
}

pub open spec fn db_error_text(err: DbError) -> Seq<char> {
    match err {
        DbError::Sqlite(detail) => "sqlite error: "@ + detail@,
        DbError::Migration { version, detail } => "migration "@ + text::decimal(version as nat)
            + " failed: "@ + detail@,
    }
}

impl DbError {
    /// The message shown for this error.
    pub fn message(&self) -> (r: String)
        ensures
            r@ == db_error_text(*self),
            *self matches DbError::Sqlite(detail) ==> r@ == "sqlite error: "@ + detail@,
            *self matches DbError::Migration { version, detail } ==> r@ == "migration "@
                + text::decimal(version as nat) + " failed: "@ + detail@,
    {
        match self {
            DbError::Sqlite(detail) => "sqlite error: ".to_string().concat(detail.as_str()),
            DbError::Migration { version, detail } => "migration ".to_string().concat(
                decimal_text(*version as u64).as_str(),
            ).concat(" failed: ").concat(detail.as_str()),
        }
    }
}

} // verus!
