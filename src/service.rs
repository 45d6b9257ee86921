//! The two operations offered to the interface: save an image address, and
//! list the newest saved ones.
use crate::store::{
    acceptable_rows, ids_descending, record_model, Entry, Record, Store, StoreError,
};
use vstd::prelude::*;

verus! {

/// The file that backs the store.
pub const DATABASE_PATH: &'static str = "hotdog.db";

/// How many records a listing holds at most.
pub const LIST_LIMIT: usize = 10;

#[derive(Debug, Clone, PartialEq, Eq)]
pub enum ServiceError {
    /// The store failed or refused the request.
    Backend(StoreError),
}

pub open spec fn pair_model(v: Seq<(usize, String)>) -> Seq<Entry> {
    v.map_values(|p: (usize, String)| (p.0 as int, p.1@))
}

/// Saves `image` as a new record. Saving the same address twice makes two
/// records.
pub fn save_dog(store: &mut Store, image: String) -> (r: Result<(), ServiceError>)
    requires
        old(store).wf(),
    ensures
        final(store).wf(),
        r matches Err(ServiceError::Backend(StoreError::EmptyUrl)) <==> image@.len() == 0,
        r is Ok ==> final(store).history().len() == old(store).history().len() + 1
            && final(store).history().drop_last() == old(store).history()
            && final(store).history().last().1 == image@,
        r is Err ==> final(store).history() == old(store).history(),
{
    match store.append(image.as_str()) {
        Ok(id) => {
            assert(final(store).history().drop_last() =~= old(store).history());
            Ok(())
        },
        Err(e) => Err(ServiceError::Backend(e)),
    }
}

/// Each record as its identifier and address, in the same order.
pub fn pairs_from_records(records: &Vec<Record>) -> (v: Vec<(usize, String)>)
    ensures
        pair_model(v@) == record_model(records@),
{
    let mut out: Vec<(usize, String)> = Vec::new();
    let mut i: usize = 0;
    while i < records.len()
        invariant
            0 <= i <= records.len(),
            out@.len() == i,
            forall|k: int|
                0 <= k < i ==> (#[trigger] out@[k]).0 == records@[k].id && out@[k].1@
                    == records@[k].url@,
        decreases records.len() - i,
    {
        let rec: &Record = &records[i];
        out.push((rec.id, rec.url.clone()));
        i = i + 1;
    }
    assert(pair_model(out@) =~= record_model(records@));
    out
}

/// The newest saved records, at most `LIST_LIMIT` of them, newest first, as
/// identifier and address.
pub fn list_dogs(store: &Store) -> (r: Result<Vec<(usize, String)>, ServiceError>)
    requires
        store.wf(),
    ensures
        r matches Ok(v) ==> pair_model(v@).len() <= LIST_LIMIT,
        r matches Ok(v) ==> ids_descending(pair_model(v@)),
        r matches Ok(v) ==> acceptable_rows(
            pair_model(v@),
            LIST_LIMIT as int,
            store.newest_appended(),
        ),
        r matches Err(ServiceError::Backend(e)) ==> e is Io,
{
    let records = match store.recent(LIST_LIMIT) {
        Ok(v) => v,
        Err(e) => return Err(ServiceError::Backend(e)),
    };
    Ok(pairs_from_records(&records))
}

} // verus!
