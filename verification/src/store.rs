//! The durable hit-count table: one row per slug, behind a sqlite
//! connection. Writes are idempotent upserts; a failed individual
//! upsert is skipped, never fatal; the schema is created if absent,
//! so opening is safe on every startup.

use vstd::prelude::*;

use crate::counter::{records_map, records_unique, restore_map, HitRecord};

verus! {

#[verifier::external_type_specification]
#[verifier::external_body]
pub struct ExConnection(rusqlite::Connection);

#[verifier::external_type_specification]
#[verifier::external_body]
pub struct ExSqlError(rusqlite::Error);

/// The contents of the `page_hits` table as seen through a
/// connection: slug to stored count. A database without the table
/// reads as the empty mapping. The model takes this process's
/// connection to be the table's only writer.
pub uninterp spec fn table_of(c: rusqlite::Connection) -> Map<Seq<char>, int>;

/// Relies on `rusqlite::Connection::execute` running a single
/// `CREATE TABLE IF NOT EXISTS` statement: it never drops a row — it
/// leaves an existing `page_hits` table as it stands, and an absent
/// table (the empty mapping) it creates empty; DDL is atomic, so a
/// failed statement changes nothing either.
#[verifier::external_body]
fn create_table(c: &mut rusqlite::Connection) -> (r: Result<(), rusqlite::Error>)
    ensures
        table_of(*final(c)) == table_of(*old(c)),
{
    match c.execute(
        "CREATE TABLE IF NOT EXISTS page_hits (post TEXT PRIMARY KEY, hits INTEGER)",
        (),
    ) {
        Ok(_) => Ok(()),
        Err(e) => Err(e),
    }
}

/// Relies on `rusqlite::Connection::execute` running a single upsert
/// keyed on the primary-key column: on success the slug's row holds
/// exactly the given count and no other row moves; sqlite runs the
/// one statement atomically, so on failure nothing changes.
#[verifier::external_body]
fn upsert_row(c: &mut rusqlite::Connection, slug: &str, hits: i64) -> (r: Result<
    (),
    rusqlite::Error,
>)
    ensures
        r is Ok ==> table_of(*final(c)) == table_of(*old(c)).insert(slug@, hits as int),
        r is Err ==> table_of(*final(c)) == table_of(*old(c)),
{
    match c.execute(
        "INSERT INTO page_hits (post, hits) VALUES (?1, ?2) ON CONFLICT(post) DO UPDATE SET hits = ?3",
        (slug, hits, hits),
    ) {
        Ok(_) => Ok(()),
        Err(e) => Err(e),
    }
}

/// Relies on `rusqlite::Connection::prepare` and
/// `Statement::query_map` over `select post, hits from page_hits`:
/// every table row exactly once, in no promised order.
#[verifier::external_body]
fn scan_rows(c: &rusqlite::Connection) -> (r: Result<Vec<HitRecord>, rusqlite::Error>)
    ensures
        r matches Ok(v) ==> records_unique(v@) && (forall|i: int|
            0 <= i < v@.len() ==> table_of(*c).dom().contains(v@[i].slug@)
                && table_of(*c)[v@[i].slug@] == v@[i].hits as int) && (forall|k: Seq<char>|
            table_of(*c).dom().contains(k) ==> exists|i: int|
                0 <= i < v@.len() && v@[i].slug@ == k),
{
    let mut stmt = c.prepare("select post, hits from page_hits")?;
    let rows = stmt.query_map([], |row| Ok(HitRecord { slug: row.get(0)?, hits: row.get(1)? }))?;
    let mut out = Vec::new();
    for row in rows {
        out.push(row?);
    }
    Ok(out)
}

/// Why a store operation failed. A read failure at startup is fatal;
/// a write failure during a flush is logged and skipped per record.
#[derive(Clone, Copy, PartialEq, Eq, Structural, Debug)]
pub enum StoreError {
    Read,
    Write,
}

proof fn lemma_records_map_full(s: Seq<HitRecord>, m: Map<Seq<char>, int>)
    requires
        records_unique(s),
        forall|i: int|
            0 <= i < s.len() ==> m.dom().contains(s[i].slug@) && m[s[i].slug@] == s[i].hits as int,
        forall|k: Seq<char>|
            m.dom().contains(k) ==> exists|i: int| 0 <= i < s.len() && s[i].slug@ == k,
    ensures
        records_map(s) == m,
    decreases s.len(),
{
    if s.len() == 0 {
        assert(records_map(s) =~= m);
    } else {
        let last = s.last();
        let m2 = m.remove(last.slug@);
        let t = s.drop_last();
        assert forall|k: Seq<char>| m2.dom().contains(k) implies exists|i: int|
            0 <= i < t.len() && t[i].slug@ == k by {
            let i = choose|i: int| 0 <= i < s.len() && s[i].slug@ == k;
            assert(i < s.len() - 1);
            assert(t[i] == s[i]);
            assert(0 <= i < t.len() && t[i].slug@ == k);
        }
        assert forall|i: int| 0 <= i < t.len() implies m2.dom().contains(t[i].slug@)
            && m2[t[i].slug@] == t[i].hits as int by {
            assert(t[i] == s[i]);
            assert(s[i].slug@ != last.slug@);
        }
        lemma_records_map_full(t, m2);
        assert(records_map(s) =~= m);
    }
}

/// The durable key/count table.
pub struct PersistenceStore {
    conn: rusqlite::Connection,
}

impl PersistenceStore {
    /// The mapping the table holds.
    pub closed spec fn table(self) -> Map<Seq<char>, int> {
        table_of(self.conn)
    }

    /// Take over a connection, creating the backing schema if it is
    /// absent (idempotent, safe on every startup: every row already
    /// persisted is preserved). A schema that cannot be created is a
    /// configuration error, surfaced as the read error.
    pub fn new(conn: rusqlite::Connection) -> (r: Result<PersistenceStore, StoreError>)
        ensures
            r matches Ok(s) ==> s.table() == table_of(conn),
            r is Err ==> r == Err::<PersistenceStore, StoreError>(StoreError::Read),
    {
        let mut conn = conn;
        match create_table(&mut conn) {
            Ok(_) => Ok(PersistenceStore { conn }),
            Err(_) => Err(StoreError::Read),
        }
    }

    /// Write one slug's count: idempotent, last writer wins. On
    /// failure the table is unchanged and the write error comes back.
    pub fn upsert(&mut self, slug: &str, hits: i64) -> (r: Result<(), StoreError>)
        ensures
            r is Ok ==> final(self).table() == old(self).table().insert(slug@, hits as int),
            r is Err ==> final(self).table() == old(self).table() && r == Err::<
                (),
                StoreError,
            >(StoreError::Write),
    {
        match upsert_row(&mut self.conn, slug, hits) {
            Ok(_) => Ok(()),
            Err(_) => Err(StoreError::Write),
        }
    }

    /// Every row of the table, each slug exactly once, in no promised
    /// order. A table that cannot be read fails with the read error,
    /// fatal at startup.
    pub fn scan_all(&self) -> (r: Result<Vec<HitRecord>, StoreError>)
        ensures
            r matches Ok(v) ==> records_unique(v@) && records_map(v@) == self.table(),
            r is Err ==> r == Err::<Vec<HitRecord>, StoreError>(StoreError::Read),
    {
        match scan_rows(&self.conn) {
            Ok(v) => {
                proof {
                    lemma_records_map_full(v@, self.table());
                }
                Ok(v)
            },
            Err(_) => Err(StoreError::Read),
        }
    }

    /// Copy a snapshot into the table, row by row. A failed row is
    /// skipped and counted, never fatal: one bad record must not block
    /// the rest — each of the other rows is still written, which the
    /// success-mask clause states. With no failures the table
    /// afterwards holds every snapshot row; rows the snapshot does not
    /// name are never touched either way.
    pub fn flush(&mut self, rows: &Vec<HitRecord>) -> (failed: usize)
        ensures
            failed == 0 ==> final(self).table() == restore_map(old(self).table(), rows@),
            forall|k: Seq<char>|
                !rows_have(rows@, k) ==> untouched(old(self).table(), final(self).table(), k),
            exists|ok: Seq<bool>|
                ok.len() == rows@.len() && failures(ok) == failed as int && final(self).table()
                    == apply_rows(old(self).table(), rows@, ok),
    {
        let n = rows.len();
        let mut failed: usize = 0;
        let mut i: usize = 0;
        let ghost mut mask: Seq<bool> = Seq::empty();
        proof {
            assert(rows@.take(0) =~= Seq::<HitRecord>::empty());
        }
        while i < n
            invariant
                i <= n == rows@.len(),
                failed <= i,
                mask.len() == i,
                failures(mask) == failed as int,
                self.table() == apply_rows(old(self).table(), rows@.take(i as int), mask),
                failed == 0 ==> self.table() == restore_map(
                    old(self).table(),
                    rows@.take(i as int),
                ),
                forall|k: Seq<char>|
                    !rows_have(rows@.take(i as int), k) ==> untouched(
                        old(self).table(),
                        self.table(),
                        k,
                    ),
            decreases n - i,
        {
            proof {
                assert(rows@.take(i + 1).drop_last() =~= rows@.take(i as int));
                assert(rows@.take(i + 1).last() == rows@[i as int]);
            }
            let r = self.upsert(rows[i].slug.as_str(), rows[i].hits);
            proof {
                assert forall|k: Seq<char>| !rows_have(rows@.take(i + 1), k) implies untouched(
                    old(self).table(),
                    self.table(),
                    k,
                ) by {
                    assert(!rows_have(rows@.take(i as int), k));
                    assert(rows@[i as int].slug@ != k);
                }
            }
            if r.is_err() {
                failed = failed + 1;
                proof {
                    let m2 = mask.push(false);
                    assert(m2.drop_last() =~= mask);
                    mask = m2;
                }
            } else {
                proof {
                    let m2 = mask.push(true);
                    assert(m2.drop_last() =~= mask);
                    mask = m2;
                }
            }
            i += 1;
        }
        proof {
            assert(rows@.take(n as int) =~= rows@);
            assert(mask.len() == rows@.len() && failures(mask) == failed as int && self.table()
                == apply_rows(old(self).table(), rows@, mask));
        }
        failed
    }
}

/// Rows applied to a mapping in order, with the rows the mask marks
/// failed skipped.
pub open spec fn apply_rows(m: Map<Seq<char>, int>, rows: Seq<HitRecord>, ok: Seq<bool>) -> Map<
    Seq<char>,
    int,
>
    decreases rows.len(),
{
    if rows.len() == 0 {
        m
    } else {
        let prev = apply_rows(m, rows.drop_last(), ok.drop_last());
        if ok.len() == rows.len() && ok.last() {
            prev.insert(rows.last().slug@, rows.last().hits as int)
        } else {
            prev
        }
    }
}

/// How many entries of a success mask mark a failure.
pub open spec fn failures(ok: Seq<bool>) -> int
    decreases ok.len(),
{
    if ok.len() == 0 {
        0
    } else {
        failures(ok.drop_last()) + if ok.last() {
            0int
        } else {
            1int
        }
    }
}

/// Some row of the sequence names this slug.
pub open spec fn rows_have(rows: Seq<HitRecord>, k: Seq<char>) -> bool {
    exists|i: int| 0 <= i < rows.len() && rows[i].slug@ == k
}

/// The slug `k` is present in the new table exactly as in the old
/// one: same membership, same count.
pub open spec fn untouched(old_m: Map<Seq<char>, int>, new_m: Map<Seq<char>, int>, k: Seq<char>) -> bool {
    &&& new_m.dom().contains(k) <==> old_m.dom().contains(k)
    &&& old_m.dom().contains(k) ==> new_m[k] == old_m[k]
}

/// Writing the same slug and count twice leaves exactly what writing
/// it once leaves: one row for the slug, holding that count.
pub proof fn lemma_upsert_idempotent(m: Map<Seq<char>, int>, slug: Seq<char>, n: int)
    ensures
        m.insert(slug, n).insert(slug, n) == m.insert(slug, n),
{
    assert(m.insert(slug, n).insert(slug, n) =~= m.insert(slug, n));
}

} // verus!
