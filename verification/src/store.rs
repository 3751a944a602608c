//! The list store: every list lives in the embedded relational database as
//! (key, value, position) rows. The database connection is opaque; what the
//! rows of a key are is given by the name `list_rows`, and each primitive
//! states its effect on that model.

use vstd::prelude::*;

use crate::model::{
    has_position, insert_sorted, left_margin_ok, lemma_drop_first_wf, lemma_drop_last_wf,
    lemma_insert_sorted_props, lemma_push_left_all_snoc, lemma_push_left_one_margin,
    lemma_push_left_one_wf, lemma_push_right_all_snoc, lemma_push_right_one_margin,
    lemma_push_right_one_wf, push_left_all, push_left_one, push_right_all, push_right_one,
    right_margin_ok, row_values, rows_sorted, rows_wf, trim_keep, update_at_pos,
};

verus! {

#[verifier::external_type_specification]
#[verifier::external_body]
pub struct ExConnection(rusqlite::Connection);

/// The rows the store holds for `key`, in ascending position order: each
/// row is its position and its value. A key with no rows maps to the empty
/// sequence, also when the table itself is missing.
pub uninterp spec fn list_rows(conn: rusqlite::Connection, key: Seq<u8>) -> Seq<(int, Seq<u8>)>;

/// The value of the 'version' row of the control table, None when the row
/// (or the table) is missing.
pub uninterp spec fn version_row(conn: rusqlite::Connection) -> Option<Seq<char>>;

/// Which end of a list an operation works on; Left is the head (smallest
/// position), Right is the tail.
pub enum Direction {
    Left,
    Right,
}

pub struct ListStore {
    pub conn: rusqlite::Connection,
}

impl ListStore {
    pub open spec fn rows(&self, key: Seq<u8>) -> Seq<(int, Seq<u8>)> {
        list_rows(self.conn, key)
    }

    pub open spec fn version(&self) -> Option<Seq<char>> {
        version_row(self.conn)
    }

    /// Every key's rows are strictly ascending in position and every
    /// position fits the signed 64-bit position column.
    pub open spec fn wf(&self) -> bool {
        forall|k: Seq<u8>| rows_wf(#[trigger] list_rows(self.conn, k))
    }

    /// The store after a call agrees with the store before it on every key
    /// but `key`, and on the version row.
    pub open spec fn same_except(&self, pre: Self, key: Seq<u8>) -> bool {
        &&& version_row(self.conn) == version_row(pre.conn)
        &&& forall|k: Seq<u8>|
            k != key ==> #[trigger] list_rows(self.conn, k) == list_rows(pre.conn, k)
    }

    /// The store after a call agrees with the store before it on every key
    /// but `k1` and `k2`, and on the version row.
    pub open spec fn same_except2(&self, pre: Self, k1: Seq<u8>, k2: Seq<u8>) -> bool {
        &&& version_row(self.conn) == version_row(pre.conn)
        &&& forall|k: Seq<u8>|
            k != k1 && k != k2 ==> #[trigger] list_rows(self.conn, k) == list_rows(pre.conn, k)
    }

    /// The store after a call agrees with the store before it on every key
    /// and on the version row.
    pub open spec fn same_rows(&self, pre: Self) -> bool {
        &&& version_row(self.conn) == version_row(pre.conn)
        &&& forall|k: Seq<u8>| #[trigger] list_rows(self.conn, k) == list_rows(pre.conn, k)
    }

    /// Relies on rusqlite::Connection::open_in_memory and execute_batch: a
    /// fresh empty database, in which the tables are then created, holds no
    /// rows at all.
    #[verifier::external_body]
    fn open_memory_raw() -> (r: Option<ListStore>)
        ensures
            r matches Some(s) ==> {
                &&& forall|k: Seq<u8>| #[trigger] list_rows(s.conn, k) == Seq::<(int, Seq<u8>)>::empty()
                &&& version_row(s.conn) is None
            },
    {
        let conn = rusqlite::Connection::open_in_memory().ok()?;
        conn.execute_batch(
            "CREATE TABLE blueis (id integer primary key autoincrement, key string, value blob);
             CREATE UNIQUE INDEX blueis_key_index ON blueis(key);
             CREATE TABLE list_items (id integer primary key autoincrement, key blob, value blob, position integer);
             CREATE INDEX list_items_key ON list_items(key, position);",
        ).ok()?;
        Some(ListStore { conn })
    }

    /// Relies on rusqlite::Connection::open. An existing database written
    /// by this store keeps each key's positions distinct (every push takes
    /// a position strictly beyond the current extremum), so its rows model
    /// is well formed.
    #[verifier::external_body]
    fn open_path_raw(path: &str) -> (r: Option<ListStore>)
        ensures
            r matches Some(s) ==> s.wf(),
    {
        let conn = rusqlite::Connection::open(path).ok()?;
        Some(ListStore { conn })
    }

    /// Opens a fresh in-memory store with its schema in place.
    pub fn open_in_memory() -> (r: Option<ListStore>)
        ensures
            r matches Some(s) ==> {
                &&& s.wf()
                &&& forall|k: Seq<u8>| #[trigger] s.rows(k) == Seq::<(int, Seq<u8>)>::empty()
                &&& s.version() is None
            },
    {
        ListStore::open_memory_raw()
    }

    /// Opens (or creates) the store at a database file path; the schema is
    /// not touched, see `set_up_tables`.
    pub fn open(path: &str) -> (r: Option<ListStore>)
        ensures
            r matches Some(s) ==> s.wf(),
    {
        ListStore::open_path_raw(path)
    }

    /// Relies on rusqlite::Connection::execute_batch: creating the two
    /// tables and their indexes (tolerating ones already present) neither
    /// adds nor removes any row.
    #[verifier::external_body]
    fn create_schema(&mut self)
        ensures
            final(self).same_rows(*old(self)),
    {
        self.conn.execute_batch(
            "CREATE TABLE IF NOT EXISTS blueis (id integer primary key autoincrement, key string, value blob);
             CREATE UNIQUE INDEX IF NOT EXISTS blueis_key_index ON blueis(key);
             CREATE TABLE IF NOT EXISTS list_items (id integer primary key autoincrement, key blob, value blob, position integer);
             CREATE INDEX IF NOT EXISTS list_items_key ON list_items(key, position);",
        ).unwrap();
    }

    /// Relies on rusqlite::Connection::query_row on a `SELECT value FROM
    /// blueis WHERE key = 'version'` statement: it returns the version
    /// row's value, or no row when it is absent.
    #[verifier::external_body]
    fn read_version(&self) -> (r: Option<String>)
        ensures
            r matches Some(v) ==> version_row(self.conn) == Some(v@),
            r is None ==> version_row(self.conn) is None,
    {
        let q: Result<String, rusqlite::Error> = self.conn.query_row(
            "SELECT value FROM blueis WHERE key = 'version'",
            (),
            |row| row.get(0),
        );
        match q {
            Ok(v) => Some(v),
            Err(rusqlite::Error::QueryReturnedNoRows) => None,
            Err(e) => Err(e).unwrap(),
        }
    }

    /// Relies on rusqlite::Connection::execute on an `INSERT INTO blueis`
    /// statement: it adds the version row with value '1' and touches no
    /// list row.
    #[verifier::external_body]
    fn write_version(&mut self)
        requires
            version_row(old(self).conn) is None,
        ensures
            version_row(final(self).conn) == Some("1"@),
            forall|k: Seq<u8>| #[trigger] list_rows(final(self).conn, k) == list_rows(
                old(self).conn,
                k,
            ),
    {
        self.conn.execute("INSERT INTO blueis (key, value) VALUES ('version', '1')", ()).unwrap();
    }

    /// Puts the schema in place and checks the on-disk version marker:
    /// absent, it is written as "1"; present with any other value, the
    /// store is unusable and an error is returned.
    pub fn set_up_tables(&mut self) -> (r: Result<(), ()>)
        ensures
            forall|k: Seq<u8>| #[trigger] final(self).rows(k) == old(self).rows(k),
            r is Ok ==> final(self).version() == Some("1"@),
            r is Err ==> {
                &&& final(self).version() matches Some(v) && v != "1"@
                &&& final(self).version() == old(self).version()
            },
            old(self).version() matches Some(v) ==> (r is Ok <==> v == "1"@),
            old(self).version() is None ==> r is Ok,
    {
        self.create_schema();
        match self.read_version() {
            None => {
                self.write_version();
                Ok(())
            },
            Some(v) => {
                let expected = String::from_str("1");
                if v == expected {
                    Ok(())
                } else {
                    Err(())
                }
            },
        }
    }

    /// Relies on rusqlite::Connection::query_row on a `SELECT COUNT(*)`
    /// statement: it returns the number of rows for the key, which fits a
    /// signed 64-bit integer.
    #[verifier::external_body]
    pub(crate) fn count(&self, key: &[u8]) -> (r: i64)
        ensures
            r as int == list_rows(self.conn, key@).len(),
    {
        self.conn.query_row(
            "SELECT COUNT(*) FROM list_items WHERE key = ?1",
            (key,),
            |row| row.get(0),
        ).unwrap()
    }

    /// Relies on rusqlite::Connection::query_row on a `SELECT MIN(position),
    /// MAX(position)` statement: with at least one row it returns the
    /// smallest and largest position, with none both aggregates are NULL.
    #[verifier::external_body]
    pub(crate) fn boundaries(&self, key: &[u8]) -> (r: Option<(i64, i64)>)
        requires
            rows_sorted(list_rows(self.conn, key@)),
        ensures
            list_rows(self.conn, key@).len() == 0 <==> r is None,
            r matches Some(b) ==> {
                &&& list_rows(self.conn, key@).len() > 0
                &&& b.0 as int == list_rows(self.conn, key@)[0].0
                &&& b.1 as int == list_rows(self.conn, key@).last().0
            },
    {
        let q: Result<(Option<i64>, Option<i64>), rusqlite::Error> = self.conn.query_row(
            "SELECT MIN(position), MAX(position) FROM list_items WHERE key = ?1",
            (key,),
            |row| Ok((row.get(0)?, row.get(1)?)),
        );
        match q.unwrap() {
            (Some(lo), Some(hi)) => Some((lo, hi)),
            _ => None,
        }
    }

    /// Relies on rusqlite::Connection::execute on an `INSERT ... SELECT ?1,
    /// ?2, coalesce(MIN(position), 0) - 1` statement: it adds one row for
    /// the key, placed before the current head (at -1 on an empty key).
    #[verifier::external_body]
    fn push_min_one(&mut self, key: &[u8], value: &[u8])
        requires
            left_margin_ok(list_rows(old(self).conn, key@), 1),
        ensures
            list_rows(final(self).conn, key@) == push_left_one(
                list_rows(old(self).conn, key@),
                value@,
            ),
            final(self).same_except(*old(self), key@),
    {
        self.conn.execute(
            "INSERT INTO list_items (key, value, position) SELECT ?1, ?2, coalesce(MIN(position), 0) - 1 FROM list_items WHERE key = ?1",
            (key, value),
        ).unwrap();
    }

    /// Relies on rusqlite::Connection::execute on an `INSERT ... SELECT ?1,
    /// ?2, coalesce(MAX(position), 0) + 1` statement: it adds one row for
    /// the key, placed after the current tail (at 1 on an empty key).
    #[verifier::external_body]
    fn push_max_one(&mut self, key: &[u8], value: &[u8])
        requires
            right_margin_ok(list_rows(old(self).conn, key@), 1),
        ensures
            list_rows(final(self).conn, key@) == push_right_one(
                list_rows(old(self).conn, key@),
                value@,
            ),
            final(self).same_except(*old(self), key@),
    {
        self.conn.execute(
            "INSERT INTO list_items (key, value, position) SELECT ?1, ?2, coalesce(MAX(position), 0) + 1 FROM list_items WHERE key = ?1",
            (key, value),
        ).unwrap();
    }

    /// Relies on rusqlite::Connection::query_row on a `SELECT id, value ...
    /// ORDER BY position ASC LIMIT 1` statement and execute on a `DELETE ...
    /// WHERE id = ?1` statement: together they remove and return the row
    /// with the smallest position, or nothing when the key is empty.
    #[verifier::external_body]
    fn pop_min(&mut self, key: &[u8]) -> (r: Option<Vec<u8>>)
        requires
            rows_sorted(list_rows(old(self).conn, key@)),
        ensures
            list_rows(old(self).conn, key@).len() == 0 ==> r is None && final(self).same_rows(
                *old(self),
            ),
            list_rows(old(self).conn, key@).len() > 0 ==> {
                &&& r matches Some(v) && v@ == list_rows(old(self).conn, key@)[0].1
                &&& list_rows(final(self).conn, key@) == list_rows(
                    old(self).conn,
                    key@,
                ).drop_first()
                &&& final(self).same_except(*old(self), key@)
            },
    {
        let q: Result<(i64, Vec<u8>), rusqlite::Error> = self.conn.query_row(
            "SELECT id, value FROM list_items WHERE key = ?1 ORDER BY position ASC LIMIT 1",
            (key,),
            |row| Ok((row.get(0)?, row.get(1)?)),
        );
        match q {
            Ok((id, value)) => {
                self.conn.execute("DELETE FROM list_items WHERE id = ?1", (id,)).unwrap();
                Some(value)
            },
            Err(rusqlite::Error::QueryReturnedNoRows) => None,
            Err(e) => Err(e).unwrap(),
        }
    }

    /// Relies on rusqlite::Connection::query_row on a `SELECT id, value ...
    /// ORDER BY position DESC LIMIT 1` statement and execute on a `DELETE
    /// ... WHERE id = ?1` statement: together they remove and return the
    /// row with the largest position, or nothing when the key is empty.
    #[verifier::external_body]
    fn pop_max(&mut self, key: &[u8]) -> (r: Option<Vec<u8>>)
        requires
            rows_sorted(list_rows(old(self).conn, key@)),
        ensures
            list_rows(old(self).conn, key@).len() == 0 ==> r is None && final(self).same_rows(
                *old(self),
            ),
            list_rows(old(self).conn, key@).len() > 0 ==> {
                &&& r matches Some(v) && v@ == list_rows(old(self).conn, key@).last().1
                &&& list_rows(final(self).conn, key@) == list_rows(old(self).conn, key@).drop_last()
                &&& final(self).same_except(*old(self), key@)
            },
    {
        let q: Result<(i64, Vec<u8>), rusqlite::Error> = self.conn.query_row(
            "SELECT id, value FROM list_items WHERE key = ?1 ORDER BY position DESC LIMIT 1",
            (key,),
            |row| Ok((row.get(0)?, row.get(1)?)),
        );
        match q {
            Ok((id, value)) => {
                self.conn.execute("DELETE FROM list_items WHERE id = ?1", (id,)).unwrap();
                Some(value)
            },
            Err(rusqlite::Error::QueryReturnedNoRows) => None,
            Err(e) => Err(e).unwrap(),
        }
    }

    /// Relies on rusqlite prepare/query_map on a `SELECT value ... ORDER BY
    /// position` statement: it returns every value for the key in position
    /// order.
    #[verifier::external_body]
    pub(crate) fn range_all(&self, key: &[u8]) -> (r: Vec<Vec<u8>>)
        requires
            rows_sorted(list_rows(self.conn, key@)),
        ensures
            r.deep_view() == row_values(list_rows(self.conn, key@)),
    {
        let mut stmt = self.conn.prepare(
            "SELECT value FROM list_items WHERE key = ?1 ORDER BY position",
        ).unwrap();
        let rows = stmt.query_map((key,), |row| row.get::<_, Vec<u8>>(0)).unwrap();
        rows.collect::<Result<Vec<Vec<u8>>, _>>().unwrap()
    }

    /// Relies on rusqlite prepare/query_map on a `SELECT value ... ORDER BY
    /// position LIMIT ?2` statement: it returns the first `limit` values in
    /// position order (all of them when fewer exist).
    #[verifier::external_body]
    pub(crate) fn range_head(&self, key: &[u8], limit: i64) -> (r: Vec<Vec<u8>>)
        requires
            rows_sorted(list_rows(self.conn, key@)),
            0 <= limit,
        ensures
            r.deep_view() == row_values(list_rows(self.conn, key@)).take(
                if limit as int <= list_rows(self.conn, key@).len() {
                    limit as int
                } else {
                    list_rows(self.conn, key@).len() as int
                },
            ),
    {
        let mut stmt = self.conn.prepare(
            "SELECT value FROM list_items WHERE key = ?1 ORDER BY position LIMIT ?2",
        ).unwrap();
        let rows = stmt.query_map((key, limit), |row| row.get::<_, Vec<u8>>(0)).unwrap();
        rows.collect::<Result<Vec<Vec<u8>>, _>>().unwrap()
    }

    /// Relies on rusqlite prepare/query_map on a `SELECT value ... WHERE
    /// position BETWEEN ?2 AND ?3 ORDER BY position` statement: it returns,
    /// in position order, the values whose position lies in [lo, hi].
    #[verifier::external_body]
    pub(crate) fn range_between(&self, key: &[u8], lo: i64, hi: i64) -> (r: Vec<Vec<u8>>)
        requires
            rows_sorted(list_rows(self.conn, key@)),
        ensures
            r.deep_view() == row_values(trim_keep(list_rows(self.conn, key@), lo as int, hi as int)),
    {
        let mut stmt = self.conn.prepare(
            "SELECT value FROM list_items WHERE key = ?1 AND position BETWEEN ?2 AND ?3 ORDER BY position",
        ).unwrap();
        let rows = stmt.query_map((key, lo, hi), |row| row.get::<_, Vec<u8>>(0)).unwrap();
        rows.collect::<Result<Vec<Vec<u8>>, _>>().unwrap()
    }

    /// Relies on rusqlite::Connection::query_row on a `SELECT value ...
    /// WHERE position = ?2 LIMIT 1` statement: it returns the value at that
    /// position, or no row when the position is unused.
    #[verifier::external_body]
    pub(crate) fn lookup_at(&self, key: &[u8], pos: i64) -> (r: Option<Vec<u8>>)
        requires
            rows_sorted(list_rows(self.conn, key@)),
        ensures
            r matches Some(v) ==> crate::model::lookup_at_pos(list_rows(self.conn, key@), pos as int)
                == Some(v@),
            r is None ==> crate::model::lookup_at_pos(list_rows(self.conn, key@), pos as int)
                is None,
    {
        let q: Result<Vec<u8>, rusqlite::Error> = self.conn.query_row(
            "SELECT value FROM list_items WHERE key = ?1 AND position = ?2 LIMIT 1",
            (key, pos),
            |row| row.get(0),
        );
        match q {
            Ok(v) => Some(v),
            Err(rusqlite::Error::QueryReturnedNoRows) => None,
            Err(e) => Err(e).unwrap(),
        }
    }

    /// Relies on rusqlite::Connection::execute on an `UPDATE list_items SET
    /// value = ?1 WHERE key = ?2 AND position = ?3` statement: the value at
    /// that position is replaced, rows at other positions are untouched.
    #[verifier::external_body]
    pub(crate) fn update_at(&mut self, key: &[u8], pos: i64, value: &[u8])
        ensures
            list_rows(final(self).conn, key@) == update_at_pos(
                list_rows(old(self).conn, key@),
                pos as int,
                value@,
            ),
            final(self).same_except(*old(self), key@),
    {
        self.conn.execute(
            "UPDATE list_items SET value = ?1 WHERE key = ?2 AND position = ?3",
            (value, key, pos),
        ).unwrap();
    }

    /// Relies on rusqlite::Connection::execute on a `DELETE ... WHERE key =
    /// ?1 AND (position < ?2 OR position > ?3)` statement: exactly the rows
    /// whose position lies outside [lo, hi] are removed.
    #[verifier::external_body]
    pub(crate) fn delete_outside(&mut self, key: &[u8], lo: i64, hi: i64)
        ensures
            list_rows(final(self).conn, key@) == trim_keep(
                list_rows(old(self).conn, key@),
                lo as int,
                hi as int,
            ),
            final(self).same_except(*old(self), key@),
    {
        self.conn.execute(
            "DELETE FROM list_items WHERE key = ?1 AND (position < ?2 OR position > ?3)",
            (key, lo, hi),
        ).unwrap();
    }

    /// Relies on rusqlite::Connection::execute on an `INSERT INTO
    /// list_items (key, value, position) VALUES (?1, ?2, ?3)` statement: it
    /// adds one row at the given position, which joins the key's rows at
    /// its place in position order.
    #[verifier::external_body]
    fn insert_row(&mut self, key: &[u8], value: &[u8], position: i64)
        requires
            rows_sorted(list_rows(old(self).conn, key@)),
            !has_position(list_rows(old(self).conn, key@), position as int),
        ensures
            list_rows(final(self).conn, key@) == insert_sorted(
                list_rows(old(self).conn, key@),
                position as int,
                value@,
            ),
            final(self).same_except(*old(self), key@),
    {
        self.conn.execute(
            "INSERT INTO list_items (key, value, position) VALUES (?1, ?2, ?3)",
            (key, value, position),
        ).unwrap();
    }

    /// Adds one row at an explicit position, as direct seeding of a list.
    pub fn seed(&mut self, key: &[u8], value: &[u8], position: i64) -> (r: bool)
        requires
            old(self).wf(),
        ensures
            final(self).wf(),
            r == !has_position(old(self).rows(key@), position as int),
            r ==> final(self).rows(key@) == insert_sorted(
                old(self).rows(key@),
                position as int,
                value@,
            ) && final(self).same_except(*old(self), key@),
            !r ==> final(self).same_rows(*old(self)),
    {
        let occupied = self.lookup_at(key, position);
        proof {
            crate::model::lemma_lookup_at_pos_props(self.rows(key@), position as int);
        }
        match occupied {
            Some(_) => false,
            None => {
                proof {
                    lemma_insert_sorted_props(self.rows(key@), position as int, value@);
                }
                self.insert_row(key, value, position);
                true
            },
        }
    }

    /// Pops the head (Left) or tail (Right) value of a key, if any.
    pub fn pop(&mut self, key: &[u8], direction: &Direction) -> (r: Option<Vec<u8>>)
        requires
            old(self).wf(),
        ensures
            final(self).wf(),
            old(self).rows(key@).len() == 0 ==> r is None && final(self).same_rows(*old(self)),
            old(self).rows(key@).len() > 0 ==> {
                &&& final(self).same_except(*old(self), key@)
                &&& (direction matches Direction::Left ==> {
                    &&& r matches Some(v) && v@ == old(self).rows(key@)[0].1
                    &&& final(self).rows(key@) == old(self).rows(key@).drop_first()
                })
                &&& (direction matches Direction::Right ==> {
                    &&& r matches Some(v) && v@ == old(self).rows(key@).last().1
                    &&& final(self).rows(key@) == old(self).rows(key@).drop_last()
                })
            },
    {
        proof {
            if self.rows(key@).len() > 0 {
                lemma_drop_first_wf(self.rows(key@));
                lemma_drop_last_wf(self.rows(key@));
            }
        }
        match direction {
            Direction::Left => self.pop_min(key),
            Direction::Right => self.pop_max(key),
        }
    }

    /// Pushes `values[from..]`, first value first, onto the given end of a
    /// key's list.
    pub fn push(&mut self, key: &[u8], direction: &Direction, values: &Vec<Vec<u8>>, from: usize)
        requires
            old(self).wf(),
            from <= values.len(),
            direction matches Direction::Left ==> left_margin_ok(
                old(self).rows(key@),
                values.len() - from,
            ),
            direction matches Direction::Right ==> right_margin_ok(
                old(self).rows(key@),
                values.len() - from,
            ),
        ensures
            final(self).wf(),
            final(self).same_except(*old(self), key@),
            direction matches Direction::Left ==> final(self).rows(key@) == push_left_all(
                old(self).rows(key@),
                values.deep_view().skip(from as int),
            ),
            direction matches Direction::Right ==> final(self).rows(key@) == push_right_all(
                old(self).rows(key@),
                values.deep_view().skip(from as int),
            ),
    {
        let ghost orig = *self;
        let ghost vals = values.deep_view().skip(from as int);
        let is_left = match direction {
            Direction::Left => true,
            Direction::Right => false,
        };
        let mut i: usize = from;
        while i < values.len()
            invariant
                from <= i <= values.len(),
                vals == values.deep_view().skip(from as int),
                values.deep_view().len() == values.len(),
                orig.wf(),
                self.wf(),
                self.same_except(orig, key@),
                is_left <==> direction matches Direction::Left,
                is_left ==> self.rows(key@) == push_left_all(
                    orig.rows(key@),
                    vals.take(i - from),
                ) && left_margin_ok(self.rows(key@), values.len() - i),
                !is_left ==> self.rows(key@) == push_right_all(
                    orig.rows(key@),
                    vals.take(i - from),
                ) && right_margin_ok(self.rows(key@), values.len() - i),
            decreases values.len() - i,
        {
            let ghost pre = *self;
            proof {
                assert(vals.take(i + 1 - from) =~= vals.take(i - from).push(
                    values.deep_view()[i as int],
                ));
                assert(values.deep_view()[i as int] == values[i as int].deep_view());
                assert(values[i as int].deep_view() =~= values[i as int]@);
                if is_left {
                    lemma_push_left_all_snoc(orig.rows(key@), vals.take(i - from), vals[i - from]);
                    lemma_push_left_one_wf(pre.rows(key@), vals[i - from]);
                    lemma_push_left_one_margin(
                        pre.rows(key@),
                        vals[i - from],
                        values.len() - i - 1,
                    );
                } else {
                    lemma_push_right_all_snoc(orig.rows(key@), vals.take(i - from), vals[i - from]);
                    lemma_push_right_one_wf(pre.rows(key@), vals[i - from]);
                    lemma_push_right_one_margin(
                        pre.rows(key@),
                        vals[i - from],
                        values.len() - i - 1,
                    );
                }
            }
            if is_left {
                self.push_min_one(key, values[i].as_slice());
            } else {
                self.push_max_one(key, values[i].as_slice());
            }
            i = i + 1;
        }
        proof {
            assert(vals.take(i - from) =~= vals);
        }
    }
}

} // verus!
