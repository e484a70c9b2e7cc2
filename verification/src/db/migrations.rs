//! Numbered schema migrations, tracked with `PRAGMA user_version`.
//!
//! Append new migrations at the end of `migrations`; never edit one that has
//! shipped.
use vstd::prelude::*;

use super::DbError;
use crate::text;
use crate::text::decimal_text;

verus! {

/// A schema change and the version that the schema has once it was made.
#[derive(Clone, Copy, Debug, PartialEq, Eq)]
pub struct Migration {
    pub version: u32,
    pub sql: &'static str,
}

/// The script that creates the change log.
pub const CREATE_IP_EVENTS: &'static str =
    "
    CREATE TABLE ip_events (
        id            INTEGER PRIMARY KEY AUTOINCREMENT,
        ts            INTEGER NOT NULL,
        external_ip   TEXT    NOT NULL,
        country       TEXT,
        country_code  TEXT,
        isp           TEXT,
        change_reason TEXT    NOT NULL
    );
    CREATE INDEX idx_ip_events_ts ON ip_events(ts DESC);
    ";

/// The shipped migrations, in ascending order of version.
pub open spec fn shipped() -> Seq<Migration> {
    seq![Migration { version: 1, sql: CREATE_IP_EVENTS }]
}

fn migrations() -> (r: Vec<Migration>)
    ensures
        r@ == shipped(),
{
    vec![Migration { version: 1, sql: CREATE_IP_EVENTS }]
}

/// The version that a list of migrations leads to; 0 for the empty list.
pub open spec fn last_version(list: Seq<Migration>) -> u32 {
    if list.len() == 0 {
        0
    } else {
        list.last().version
    }
}

/// The schema version this build expects.
pub fn target_version() -> (r: u32)
    ensures
        r == last_version(shipped()),
        forall|i: int| 0 <= i < shipped().len() ==> (#[trigger] shipped()[i]).version <= r,
        exists|i: int| 0 <= i < shipped().len() && (#[trigger] shipped()[i]).version == r,
{
    proof {
        lemma_versions_ascend();
        let last = shipped().len() - 1;
        assert(shipped()[last].version == last_version(shipped()));
    }
    let list = migrations();
    if list.len() == 0 {
        0
    } else {
        list[list.len() - 1].version
    }
}

/// The schema version that a stored `user_version` stands for: its low 32
/// bits.
pub fn current_version(user_version: i64) -> (r: u32)
    ensures
        r == user_version as u32,
{
    #[verifier::truncate] (user_version as u32)
}

/// The migrations above version `from`, in ascending order.
pub open spec fn above(list: Seq<Migration>, from: u32) -> Seq<Migration> {
    list.filter(|m: Migration| m.version > from)
}

/// The migrations that a database at version `from` still needs, in the order
/// in which they are applied.
pub fn pending(from: u32) -> (r: Vec<Migration>)
    ensures
        r@ == above(shipped(), from),
        forall|i: int|
            0 <= i < r@.len() ==> (#[trigger] r@[i]).version > from && shipped().contains(r@[i]),
        forall|k: int|
            0 <= k < shipped().len() && (#[trigger] shipped()[k]).version > from ==> r@.contains(
                shipped()[k],
            ),
        forall|i: int, j: int|
            0 <= i < j < r@.len() ==> (#[trigger] r@[i]).version < (#[trigger] r@[j]).version,
{
    let list = migrations();
    let mut out: Vec<Migration> = Vec::new();
    let ghost newer = |m: Migration| m.version > from;
    assert(list@.take(0).filter(newer) =~= seq![]) by {
        reveal(Seq::filter);
    }
    for i in 0..list.len()
        invariant
            newer == (|m: Migration| m.version > from),
            out@ == list@.take(i as int).filter(newer),
    {
        proof {
            reveal(Seq::filter);
            assert(list@.take(i + 1).drop_last() == list@.take(i as int));
        }
        if list[i].version > from {
            out.push(list[i]);
        }
    }
    assert(list@.take(list@.len() as int) == list@);
    proof {
        lemma_pending_is_what_is_missing(from);
    }
    out
}

/// The statement that records `version` as the schema version. `PRAGMA` takes
/// no bound parameters, so the number is part of the text.
pub fn version_statement(version: u32) -> (r: String)
    ensures
        r@ == "PRAGMA user_version = "@ + text::decimal(version as nat),
{
    "PRAGMA user_version = ".to_string().concat(decimal_text(version as u64).as_str())
}

/// How an attempt at one migration ended. Each is made in a transaction of its
/// own: the script, the statement that records the version, and the commit.
#[derive(Debug, PartialEq)]
pub enum Attempt {
    /// The transaction could not be begun or committed.
    NotCommitted(String),
    /// The script or the statement failed.
    Failed(String),
    Committed,
}

/// A migration under way, and the ones that come after it.
#[derive(Debug, PartialEq)]
pub struct MigrationRun {
    pub current: Migration,
    pub rest: Vec<Migration>,
}

/// What to do next to bring a database up to date.
#[derive(Debug, PartialEq)]
pub enum MigrationStep {
    /// Attempt `run.current`, with `statement` to record its version, and hand
    /// the outcome to `run.step`.
    Attempt { run: MigrationRun, statement: String },
    Done(Result<(), DbError>),
}

/// Whether `step` goes on with the migrations in `list`.
pub open spec fn goes_on(step: MigrationStep, list: Seq<Migration>) -> bool {
    if list.len() == 0 {
        step == MigrationStep::Done(Ok(()))
    } else {
        step matches MigrationStep::Attempt { run, statement } && run.current == list[0]
            && run.rest@ == list.skip(1) && statement@ == "PRAGMA user_version = "@
            + text::decimal(list[0].version as nat)
    }
}

/// The error that a failed attempt is answered with.
pub open spec fn attempt_error(migration: Migration, attempt: Attempt) -> Option<DbError> {
    match attempt {
        Attempt::NotCommitted(detail) => Some(DbError::Sqlite(detail)),
        Attempt::Failed(detail) => Some(
            DbError::Migration { version: migration.version, detail },
        ),
        Attempt::Committed => None,
    }
}

fn proceed(list: Vec<Migration>) -> (r: MigrationStep)
    ensures
        goes_on(r, list@),
{
    let mut rest = list;
    if rest.len() == 0 {
        return MigrationStep::Done(Ok(()));
    }
    let current = rest.remove(0);
    assert(rest@ =~= list@.skip(1));
    let statement = version_statement(current.version);
    MigrationStep::Attempt { run: MigrationRun { current, rest }, statement }
}

/// Begins to bring a database up to `target_version()`. `user_version` is what
/// the database stores, or why it could not be read. Nothing is left to do
/// when it is already current.
pub fn apply(user_version: Result<i64, String>) -> (r: MigrationStep)
    ensures
        match user_version {
            Ok(stored) => goes_on(r, above(shipped(), stored as u32)),
            Err(detail) => r == MigrationStep::Done(Err(DbError::Sqlite(detail))),
        },
        user_version matches Ok(stored) ==> (r == MigrationStep::Done(Ok(())) <==> forall|k: int|
            0 <= k < shipped().len() ==> (#[trigger] shipped()[k]).version <= stored as u32),
        user_version matches Ok(stored) ==> r matches MigrationStep::Attempt { run, statement }
            ==> run.current.version > stored as u32 && statement@ == "PRAGMA user_version = "@
            + text::decimal(run.current.version as nat),
{
    proof {
        if let Ok(stored) = user_version {
            let list = above(shipped(), stored as u32);
            lemma_pending_is_what_is_missing(stored as u32);
            if list.len() > 0 {
                assert(list[0].version > stored as u32);
                assert(shipped().contains(list[0]));
            }
        }
    }
    match user_version {
        Ok(stored) => proceed(pending(current_version(stored))),
        Err(detail) => MigrationStep::Done(Err(DbError::Sqlite(detail))),
    }
}

impl MigrationRun {
    /// Takes the outcome of the attempt. The first that fails ends the run.
    pub fn step(self, attempt: Attempt) -> (r: MigrationStep)
        ensures
            match attempt_error(self.current, attempt) {
                Some(err) => r == MigrationStep::Done(Err(err)),
                None => goes_on(r, self.rest@),
            },
            attempt matches Attempt::Failed(detail) ==> r == MigrationStep::Done(
                Err(DbError::Migration { version: self.current.version, detail }),
            ),
            attempt matches Attempt::NotCommitted(detail) ==> r == MigrationStep::Done(
                Err(DbError::Sqlite(detail)),
            ),
            attempt is Committed && self.rest@.len() == 0 ==> r == MigrationStep::Done(Ok(())),
            attempt is Committed && self.rest@.len() > 0 ==> (r matches MigrationStep::Attempt {
                run,
                statement,
            } && run.current == self.rest@[0] && run.rest@ == self.rest@.skip(1)),
    {
        match attempt {
            Attempt::NotCommitted(detail) => MigrationStep::Done(Err(DbError::Sqlite(detail))),
            Attempt::Failed(detail) => MigrationStep::Done(
                Err(DbError::Migration { version: self.current.version, detail }),
            ),
            Attempt::Committed => proceed(self.rest),
        }
    }
}

// ---------------------------------------------------------------------------
// Laws
// ---------------------------------------------------------------------------

/// The version a database is at once the migrations in `list` were applied to
/// it one after the other, each of them recording its own version.
pub open spec fn version_after(from: u32, list: Seq<Migration>) -> u32
    decreases list.len(),
{
    if list.len() == 0 {
        from
    } else {
        version_after(list[0].version, list.skip(1))
    }
}

proof fn lemma_above_shipped(from: u32)
    ensures
        above(shipped(), from) == (if from < 1 {
            shipped()
        } else {
            seq![]
        }),
{
    reveal(Seq::filter);
    let list = shipped();
    let newer = |m: Migration| m.version > from;
    assert(list.drop_last() =~= seq![]);
    assert(list.drop_last().filter(newer) =~= seq![]);
    assert(list.filter(newer) =~= (if from < 1 {
        shipped()
    } else {
        seq![]
    }));
}

/// Migrating brings a database that is behind to the target version, and
/// leaves one that is current, or ahead, where it is.
pub proof fn lemma_migrating_reaches_target(from: u32)
    ensures
        version_after(from, above(shipped(), from)) == (if from < last_version(shipped()) {
            last_version(shipped())
        } else {
            from
        }),
{
    lemma_above_shipped(from);
    let list = above(shipped(), from);
    if from < 1 {
        assert(list.skip(1) =~= seq![]);
        assert(version_after(list[0].version, list.skip(1)) == 1);
    }
}

/// A database that was migrated needs no further migration.
pub proof fn lemma_migrating_is_idempotent(from: u32)
    ensures
        above(shipped(), version_after(from, above(shipped(), from))) == Seq::<Migration>::empty(),
{
    lemma_migrating_reaches_target(from);
    lemma_above_shipped(version_after(from, above(shipped(), from)));
}

/// A database: its schema version, and whatever else it holds.
pub struct Stored<S> {
    pub version: u32,
    pub content: S,
}

/// A database and how bringing it up to date ended; `None` while attempts are
/// outstanding.
pub struct Migrated<S> {
    pub stored: Stored<S>,
    pub answer: Option<Result<(), DbError>>,
}

/// What becomes of a database when the migrations in `list` are attempted one
/// after the other and end as `attempts` tells. `script` is what a script does
/// to the content. A transaction that was not committed leaves everything as
/// it was; one that was committed leaves its script and its version behind.
pub open spec fn migrated<S>(
    stored: Stored<S>,
    list: Seq<Migration>,
    attempts: Seq<Attempt>,
    script: spec_fn(S, Migration) -> S,
) -> Migrated<S>
    decreases list.len(),
{
    if list.len() == 0 {
        Migrated { stored, answer: Some(Ok(())) }
    } else if attempts.len() == 0 {
        Migrated { stored, answer: None }
    } else {
        match attempt_error(list[0], attempts[0]) {
            Some(err) => Migrated { stored, answer: Some(Err(err)) },
            None => migrated(
                Stored { version: list[0].version, content: script(stored.content, list[0]) },
                list.skip(1),
                attempts.skip(1),
                script,
            ),
        }
    }
}

/// The content once the scripts in `list` ran over it one after the other.
pub open spec fn scripted<S>(
    content: S,
    list: Seq<Migration>,
    script: spec_fn(S, Migration) -> S,
) -> S
    decreases list.len(),
{
    if list.len() == 0 {
        content
    } else {
        scripted(script(content, list[0]), list.skip(1), script)
    }
}

proof fn lemma_committed<S>(
    stored: Stored<S>,
    list: Seq<Migration>,
    attempts: Seq<Attempt>,
    script: spec_fn(S, Migration) -> S,
)
    ensures
        migrated(stored, list, attempts, script).answer == Some(Ok::<(), DbError>(())) ==> migrated(
            stored,
            list,
            attempts,
            script,
        ).stored == (Stored {
            version: version_after(stored.version, list),
            content: scripted(stored.content, list, script),
        }),
    decreases list.len(),
{
    if list.len() > 0 && attempts.len() > 0 && attempt_error(list[0], attempts[0]) is None {
        lemma_committed(
            Stored { version: list[0].version, content: script(stored.content, list[0]) },
            list.skip(1),
            attempts.skip(1),
            script,
        );
    }
}

/// Bringing a database up to date: where it succeeds, the version is the
/// target, or what it was if that is higher, and every script that was missing
/// has run once; a database that is current or ahead succeeds with nothing
/// touched; and where it fails, version and content are as they were, never
/// half-migrated.
pub proof fn lemma_migrating_is_all_or_nothing<S>(
    stored: Stored<S>,
    attempts: Seq<Attempt>,
    script: spec_fn(S, Migration) -> S,
)
    ensures
        ({
            let list = above(shipped(), stored.version);
            let target = last_version(shipped());
            let after = migrated(stored, list, attempts, script);
            &&& after.answer == Some(Ok::<(), DbError>(())) ==> after.stored.version == (
            if stored.version < target {
                target
            } else {
                stored.version
            }) && after.stored.content == scripted(stored.content, list, script)
            &&& stored.version >= target ==> after.answer == Some(Ok::<(), DbError>(()))
                && after.stored == stored
            &&& after.answer matches Some(Err(_)) ==> after.stored == stored
        }),
{
    let list = above(shipped(), stored.version);
    lemma_above_shipped(stored.version);
    lemma_migrating_reaches_target(stored.version);
    lemma_committed(stored, list, attempts, script);
    reveal_with_fuel(migrated, 2);
    if list.len() > 0 {
        assert(list.skip(1) =~= seq![]);
    }
}

/// Bringing a database up to date a second time does nothing: it succeeds
/// without an attempt and leaves everything as it is.
pub proof fn lemma_migrating_twice<S>(
    stored: Stored<S>,
    attempts: Seq<Attempt>,
    again: Seq<Attempt>,
    script: spec_fn(S, Migration) -> S,
)
    requires
        migrated(stored, above(shipped(), stored.version), attempts, script).answer == Some(
            Ok::<(), DbError>(()),
        ),
    ensures
        ({
            let after = migrated(stored, above(shipped(), stored.version), attempts, script).stored;
            migrated(after, above(shipped(), after.version), again, script) == (Migrated {
                stored: after,
                answer: Some(Ok::<(), DbError>(())),
            })
        }),
{
    let after = migrated(stored, above(shipped(), stored.version), attempts, script).stored;
    lemma_migrating_is_all_or_nothing(stored, attempts, script);
    lemma_migrating_is_all_or_nothing(after, again, script);
}

/// Rows already stored are kept, however the attempts end, as long as no
/// shipped script alters them; creating a table or an index does not.
pub proof fn lemma_migrating_keeps_rows<S, R>(
    stored: Stored<S>,
    attempts: Seq<Attempt>,
    script: spec_fn(S, Migration) -> S,
    rows: spec_fn(S) -> R,
)
    requires
        forall|content: S, migration: Migration|
            shipped().contains(migration) ==> rows(#[trigger] script(content, migration)) == rows(
                content,
            ),
    ensures
        rows(
            migrated(stored, above(shipped(), stored.version), attempts, script).stored.content,
        ) == rows(stored.content),
{
    let list = above(shipped(), stored.version);
    lemma_above_shipped(stored.version);
    reveal_with_fuel(migrated, 2);
    if list.len() > 0 {
        assert(list.skip(1) =~= seq![]);
        assert(shipped()[0] == list[0]);
        assert(shipped().contains(list[0]));
    }
}

/// The shipped versions ascend from 1, so the last of them is the highest.
pub proof fn lemma_versions_ascend()
    ensures
        shipped().len() > 0,
        shipped()[0].version == 1,
        forall|i: int, j: int|
            0 <= i < j < shipped().len() ==> (#[trigger] shipped()[i]).version < (
            #[trigger] shipped()[j]).version,
        forall|i: int|
            0 <= i < shipped().len() ==> 0 < (#[trigger] shipped()[i]).version <= last_version(
                shipped(),
            ),
{
}

/// A database needs exactly the migrations above its version, each of them
/// once and in ascending order.
pub proof fn lemma_pending_is_what_is_missing(from: u32)
    ensures
        forall|i: int|
            0 <= i < above(shipped(), from).len() ==> (#[trigger] above(
                shipped(),
                from,
            )[i]).version > from && shipped().contains(above(shipped(), from)[i]),
        forall|k: int|
            0 <= k < shipped().len() && (#[trigger] shipped()[k]).version > from ==> above(
                shipped(),
                from,
            ).contains(shipped()[k]),
        forall|i: int, j: int|
            0 <= i < j < above(shipped(), from).len() ==> (#[trigger] above(
                shipped(),
                from,
            )[i]).version < (#[trigger] above(shipped(), from)[j]).version,
{
    lemma_above_shipped(from);
    let list = above(shipped(), from);
    assert forall|i: int| 0 <= i < list.len() implies (#[trigger] list[i]).version > from
        && shipped().contains(list[i]) by {
        assert(list[i] == shipped()[i]);
    }
    assert forall|k: int|
        0 <= k < shipped().len() && (#[trigger] shipped()[k]).version > from implies list.contains(
        shipped()[k],
    ) by {
        assert(list[k] == shipped()[k]);
    }
}

/// Each way for an attempt to end has its own answer, and only a commit goes
/// on: a failed script is reported with the version it was to lead to.
pub proof fn lemma_attempt_answers(migration: Migration, detail: String)
    ensures
        attempt_error(migration, Attempt::Committed) is None,
        attempt_error(migration, Attempt::Failed(detail)) == Some(
            DbError::Migration { version: migration.version, detail },
        ),
        attempt_error(migration, Attempt::NotCommitted(detail)) == Some(DbError::Sqlite(detail)),
{
}

} // verus!
