//! The append-only store of saved records, one SQLite table.
//!
//! The store remembers, as a ghost log, the newest record that the file held
//! when it was opened and every record that it has appended and seen
//! confirmed. What a query returns is checked against that log and
//! against the shape of the table before it is handed out.
use crate::sqlite::{
    error_text, execute_batch, execute_with_text, last_insert_rowid, open_connection,
    query_id_text_rows,
};
use vstd::prelude::*;

verus! {

const CREATE_TABLE_SQL: &'static str = "CREATE TABLE IF NOT EXISTS dogs (
    id INTEGER PRIMARY KEY,
    url TEXT NOT NULL
);";

const INSERT_SQL: &'static str = "INSERT INTO dogs (url) VALUES (?1)";

const NEWEST_SQL: &'static str = "SELECT id, url FROM dogs ORDER BY id DESC LIMIT ?1";

/// A saved favourite: the identifier that the store assigned, and the image
/// address.
#[derive(Debug, Clone, PartialEq, Eq)]
pub struct Record {
    pub id: usize,
    pub url: String,
}

#[derive(Debug, Clone, PartialEq, Eq)]
pub enum StoreError {
    /// The backing file could not be opened, read or written, or it holds
    /// rows that a well-formed table cannot hold.
    Io(String),
    /// An empty address was offered for saving.
    EmptyUrl,
}

/// A record as a pair of mathematical values.
pub type Entry = (int, Seq<char>);

pub open spec fn record_model(rs: Seq<Record>) -> Seq<Entry> {
    rs.map_values(|r: Record| (r.id as int, r.url@))
}

pub open spec fn row_model(rows: Seq<(i64, String)>) -> Seq<Entry> {
    rows.map_values(|p: (i64, String)| (p.0 as int, p.1@))
}

pub open spec fn record_opt_model(o: Option<Record>) -> Option<Entry> {
    match o {
        Some(r) => Some((r.id as int, r.url@)),
        None => None,
    }
}

/// Identifiers strictly decrease along the sequence.
pub open spec fn ids_descending(rs: Seq<Entry>) -> bool {
    forall|i: int, j: int| 0 <= i < j < rs.len() ==> #[trigger] rs[i].0 > #[trigger] rs[j].0
}

/// Identifiers strictly increase along the sequence.
pub open spec fn ids_ascending(rs: Seq<Entry>) -> bool {
    forall|i: int, j: int| 0 <= i < j < rs.len() ==> #[trigger] rs[i].0 < #[trigger] rs[j].0
}

/// Every identifier is positive and fits a `usize`; every address is non-empty.
pub open spec fn entries_well_formed(rs: Seq<Entry>) -> bool {
    forall|i: int|
        0 <= i < rs.len() ==> 1 <= #[trigger] rs[i].0 <= usize::MAX && rs[i].1.len() > 0
}

/// Rows read newest first agree with the newest record known to be stored:
/// nothing deletes, so a read of at least one row starts at that record or at
/// a later one, a row with its identifier carries its address,
/// and a read that stops short of its limit, or reaches back to that
/// identifier, holds the record.
pub open spec fn agrees_with_newest(rs: Seq<Entry>, limit: int, newest: Option<Entry>) -> bool {
    match newest {
        None => true,
        Some(n) => {
            &&& limit >= 1 ==> rs.len() >= 1 && rs[0].0 >= n.0
            &&& forall|i: int| 0 <= i < rs.len() && #[trigger] rs[i].0 == n.0 ==> rs[i].1 == n.1
            &&& (rs.len() < limit || (rs.len() > 0 && rs.last().0 <= n.0)) ==> exists|i: int|
                0 <= i < rs.len() && #[trigger] rs[i] == n
        },
    }
}

/// The row limit that a query is sent for a read of at most `limit` records.
pub open spec fn query_limit_of(limit: usize) -> int {
    if limit as int <= i64::MAX as int {
        limit as int
    } else {
        i64::MAX as int
    }
}

/// The row limit to send with a read of at most `limit` records: no table
/// can hold more than `i64::MAX` rows.
pub fn query_limit(limit: usize) -> (b: i64)
    ensures
        b as int == query_limit_of(limit),
{
    if (limit as u64) > (i64::MAX as u64) {
        i64::MAX
    } else {
        limit as i64
    }
}

/// What a read of at most `limit` rows may hand out.
pub open spec fn acceptable_rows(rs: Seq<Entry>, limit: int, newest: Option<Entry>) -> bool {
    &&& rs.len() <= limit
    &&& ids_descending(rs)
    &&& entries_well_formed(rs)
    &&& agrees_with_newest(rs, limit, newest)
}

fn io_error(text: &str) -> (e: StoreError)
    ensures
        e is Io,
{
    StoreError::Io(text.to_owned())
}

/// Turns the rows that a newest-first query returned into records, or
/// reports them as malformed.
pub fn records_from_rows(rows: Vec<(i64, String)>, limit: usize, newest: &Option<Record>) -> (r:
    Result<Vec<Record>, StoreError>)
    ensures
        r is Ok <==> acceptable_rows(row_model(rows@), limit as int, record_opt_model(*newest)),
        r matches Ok(v) ==> record_model(v@) == row_model(rows@),
        r matches Err(e) ==> e is Io,
{
    let ghost model = row_model(rows@);
    let n = rows.len();
    if n > limit {
        return Err(io_error("the query returned more rows than its limit"));
    }
    if let Some(l) = newest {
        if limit >= 1 && (n == 0 || (rows[0].0 as i128) < (l.id as i128)) {
            proof {
                if n > 0 {
                    assert(model[0].0 == rows@[0].0);
                }
            }
            return Err(io_error("the newest saved record is missing"));
        }
    }
    let mut out: Vec<Record> = Vec::new();
    let mut found = false;
    let ghost mut found_at: int = 0;
    let mut i: usize = 0;
    while i < n
        invariant
            newest matches Some(l) ==> (found ==> 0 <= found_at < i && model[found_at] == (
                l.id as int,
                l.url@,
            )),
            newest matches Some(l) ==> (!found ==> forall|k: int|
                0 <= k < i ==> #[trigger] model[k].0 != l.id),
            n == rows.len(),
            n <= limit,
            model == row_model(rows@),
            0 <= i <= n,
            out@.len() == i,
            forall|k: int| 0 <= k < i ==> (#[trigger] out@[k]).id as int == rows@[k].0 && out@[k].url@ == rows@[k].1@,
            forall|k: int| 0 <= k < i ==> 1 <= #[trigger] model[k].0 <= usize::MAX && model[k].1.len() > 0,
            forall|a: int, b: int| 0 <= a < b < i ==> #[trigger] model[a].0 > #[trigger] model[b].0,
            newest matches Some(l) ==> forall|k: int|
                0 <= k < i && #[trigger] model[k].0 == l.id ==> model[k].1 == l.url@,
            newest matches Some(l) ==> (limit >= 1 ==> n >= 1 && model[0].0 >= l.id),
        decreases n - i,
    {
        let row = &rows[i];
        assert(model[i as int] == (row.0 as int, row.1@));
        if row.0 < 1 || (row.0 as u64) > (usize::MAX as u64) {
            assert(!(1 <= model[i as int].0 <= usize::MAX));
            return Err(io_error("a row holds an identifier out of range"));
        }
        if row.1.as_str().is_empty() {
            assert(model[i as int].1.len() == 0);
            return Err(io_error("a row holds an empty address"));
        }
        if i > 0 && rows[i - 1].0 <= row.0 {
            assert(model[i - 1].0 == rows@[i - 1].0);
            return Err(io_error("the rows are not in descending identifier order"));
        }
        if let Some(l) = newest {
            if (row.0 as i128) == (l.id as i128) {
                if row.1 != l.url {
                    return Err(io_error("a row contradicts the newest saved record"));
                }
                found = true;
                proof {
                    found_at = i as int;
                }
            }
        }
        proof {
            if i > 0 {
                assert(model[i - 1].0 == rows@[i - 1].0);
            }
        }
        out.push(Record { id: row.0 as usize, url: row.1.clone() });
        i = i + 1;
    }
    if let Some(l) = newest {
        if !found && (n < limit || (n > 0 && (rows[n - 1].0 as i128) <= (l.id as i128))) {
            proof {
                if n > 0 {
                    assert(model.last() == model[n - 1]);
                }
                assert forall|k: int| 0 <= k < model.len() implies #[trigger] model[k] != (
                    l.id as int,
                    l.url@,
                ) by {
                    assert(model[k].0 != l.id);
                }
            }
            return Err(io_error("the newest saved record is missing"));
        }
    }
    proof {
        if n > 0 {
            assert(model.last() == model[n - 1]);
        }
    }
    assert(record_model(out@) =~= model);
    Ok(out)
}

/// Decides, from the number of rows that an insert changed and the rowid
/// that the connection reports for it, which identifier the new record has;
/// `newest` is the newest record known to be stored before.
pub fn assigned_id(changed: usize, rowid: i64, newest: &Option<Record>) -> (r: Result<
    usize,
    StoreError,
>)
    ensures
        r is Ok <==> changed == 1 && 1 <= rowid <= usize::MAX && match newest {
            Some(l) => l.id < rowid,
            None => true,
        },
        r matches Ok(id) ==> id == rowid,
        r matches Err(e) ==> e is Io,
{
    if changed != 1 {
        return Err(io_error("the insert did not add exactly one row"));
    }
    if rowid < 1 || (rowid as u64) > (usize::MAX as u64) {
        return Err(io_error("the store assigned an identifier out of range"));
    }
    let id = rowid as usize;
    if let Some(l) = newest {
        if id <= l.id {
            return Err(io_error("the store assigned a non-increasing identifier"));
        }
    }
    Ok(id)
}

/// Picks the newest record out of the rows that a newest-first query for at
/// most one row returned, or reports them as malformed.
pub fn newest_from_rows(rows: Vec<(i64, String)>) -> (r: Result<Option<Record>, StoreError>)
    ensures
        r is Ok <==> acceptable_rows(row_model(rows@), 1, None),
        r matches Ok(o) ==> record_opt_model(o) == if rows@.len() == 0 {
            None::<Entry>
        } else {
            Some(row_model(rows@)[0])
        },
        r matches Ok(Some(rec)) ==> 1 <= rec.id && rec.url@.len() > 0,
        r matches Err(e) ==> e is Io,
{
    let ghost model = row_model(rows@);
    match records_from_rows(rows, 1, &None) {
        Ok(mut v) => {
            assert(v@.len() > 0 ==> record_model(v@)[0] == (v@[0].id as int, v@[0].url@));
            let o = v.pop();
            proof {
                if v@.len() == 0 && o is Some {
                    assert(model[0].0 >= 1);
                }
            }
            Ok(o)
        },
        Err(e) => Err(e),
    }
}

/// A connection to the backing file, with the log of records known to be
/// stored.
pub struct Store {
    conn: rusqlite::Connection,
    newest: Option<Record>,
    log: Ghost<Seq<Entry>>,
}

impl Store {
    /// The records known to be stored, oldest first: the newest record that
    /// the file held when it was opened, if any, then each record appended
    /// through this store.
    pub closed spec fn history(&self) -> Seq<Entry> {
        self.log@
    }

    /// The newest record known to be stored, if any.
    pub open spec fn newest_appended(&self) -> Option<Entry> {
        if self.history().len() == 0 {
            None
        } else {
            Some(self.history().last())
        }
    }

    pub closed spec fn wf(&self) -> bool {
        &&& ids_ascending(self.log@)
        &&& entries_well_formed(self.log@)
        &&& record_opt_model(self.newest) == self.newest_appended()
    }

    /// Opens (creating if absent) the database at `path` and makes sure the
    /// table exists.
    pub fn open(path: &str) -> (r: Result<Store, StoreError>)
        ensures
            r matches Ok(s) ==> s.wf() && s.history().len() <= 1,
            r matches Err(e) ==> e is Io,
    {
        let conn = match open_connection(path) {
            Ok(c) => c,
            Err(e) => return Err(StoreError::Io(error_text(&e))),
        };
        let mut store = Store { conn, newest: None, log: Ghost(Seq::empty()) };
        match store.ensure_schema() {
            Ok(()) => {},
            Err(e) => return Err(e),
        }
        let read = match query_id_text_rows(&store.conn, NEWEST_SQL, query_limit(1)) {
            Ok(rows) => newest_from_rows(rows),
            Err(e) => return Err(StoreError::Io(error_text(&e))),
        };
        match read {
            Ok(Some(rec)) => {
                let ghost entries = seq![(rec.id as int, rec.url@)];
                store.newest = Some(rec);
                store.log = Ghost(entries);
                Ok(store)
            },
            Ok(None) => Ok(store),
            Err(e) => Err(e),
        }
    }

    /// Creates the table if it does not exist yet; on a file that already
    /// holds it, this changes nothing.
    pub fn ensure_schema(&self) -> (r: Result<(), StoreError>)
        ensures
            r matches Err(e) ==> e is Io,
    {
        match execute_batch(&self.conn, CREATE_TABLE_SQL) {
            Ok(()) => Ok(()),
            Err(e) => Err(StoreError::Io(error_text(&e))),
        }
    }

    /// Appends a record holding `url` and returns the identifier that the
    /// store assigned to it.
    pub fn append(&mut self, url: &str) -> (r: Result<usize, StoreError>)
        requires
            old(self).wf(),
        ensures
            final(self).wf(),
            r matches Err(StoreError::EmptyUrl) <==> url@.len() == 0,
            r matches Ok(id) ==> final(self).history() == old(self).history().push((id as int, url@)),
            r matches Ok(id) ==> old(self).history().len() > 0 ==> old(self).history().last().0 < id,
            r is Err ==> final(self).history() == old(self).history(),
    {
        if url.is_empty() {
            return Err(StoreError::EmptyUrl);
        }
        let changed = match execute_with_text(&self.conn, INSERT_SQL, url) {
            Ok(changed) => changed,
            Err(e) => return Err(StoreError::Io(error_text(&e))),
        };
        let id = match assigned_id(changed, last_insert_rowid(&self.conn), &self.newest) {
            Ok(id) => id,
            Err(e) => return Err(e),
        };
        let ghost before = self.log@;
        self.newest = Some(Record { id, url: url.to_owned() });
        self.log = Ghost(before.push((id as int, url@)));
        proof {
            let after = self.log@;
            assert(after.last() == (id as int, url@));
            assert forall|a: int, b: int| 0 <= a < b < after.len() implies #[trigger] after[a].0
                < #[trigger] after[b].0 by {
                assert(after[a] == before[a]);
                if b < before.len() {
                    assert(after[b] == before[b]);
                } else {
                    if a < before.len() - 1 {
                        assert(before[a].0 < before[before.len() - 1].0);
                    }
                }
            }
            assert forall|k: int| 0 <= k < after.len() implies 1 <= #[trigger] after[k].0
                <= usize::MAX && after[k].1.len() > 0 by {
                if k < before.len() {
                    assert(after[k] == before[k]);
                }
            }
        }
        Ok(id)
    }

    /// Reads at most `limit` records, newest first.
    pub fn recent(&self, limit: usize) -> (r: Result<Vec<Record>, StoreError>)
        requires
            self.wf(),
        ensures
            r matches Ok(v) ==> record_model(v@).len() <= limit,
            r matches Ok(v) ==> ids_descending(record_model(v@)),
            r matches Ok(v) ==> acceptable_rows(
                record_model(v@),
                limit as int,
                self.newest_appended(),
            ),
            r matches Err(e) ==> e is Io,
    {
        match query_id_text_rows(&self.conn, NEWEST_SQL, query_limit(limit)) {
            Ok(rows) => records_from_rows(rows, limit, &self.newest),
            Err(e) => Err(StoreError::Io(error_text(&e))),
        }
    }
}

/// The identifiers that successful appends return are unique and strictly
/// increase in the order in which the appends succeeded.
pub proof fn lemma_appended_ids_increase(s: &Store)
    requires
        s.wf(),
    ensures
        ids_ascending(s.history()),
        forall|i: int, j: int|
            0 <= i < s.history().len() && 0 <= j < s.history().len() && i != j
                ==> #[trigger] s.history()[i].0 != #[trigger] s.history()[j].0,
{
    assert forall|i: int, j: int|
        0 <= i < s.history().len() && 0 <= j < s.history().len() && i != j
            implies #[trigger] s.history()[i].0 != #[trigger] s.history()[j].0 by {
        if i < j {
            assert(s.history()[i].0 < s.history()[j].0);
        } else {
            assert(s.history()[j].0 < s.history()[i].0);
        }
    }
}

/// After an append of `url` that returned `id`, a later read of at least one
/// record that succeeds is not empty, starts at that record or at a later
/// one, and any record it holds with identifier `id` has address `url`; a
/// read that stops short of `limit`, or reaches back to `id`, holds the
/// record.
pub proof fn lemma_appended_record_read_back(
    s: &Store,
    id: int,
    url: Seq<char>,
    limit: int,
    read: Seq<Entry>,
)
    requires
        s.wf(),
        s.history().len() > 0,
        s.history().last() == (id, url),
        limit >= 1,
        acceptable_rows(read, limit, s.newest_appended()),
    ensures
        read.len() >= 1,
        read[0].0 >= id,
        forall|i: int| 0 <= i < read.len() && #[trigger] read[i].0 == id ==> read[i].1 == url,
        read.len() < limit || read.last().0 <= id ==> exists|i: int|
            0 <= i < read.len() && #[trigger] read[i] == (id, url),
{
}

} // verus!
