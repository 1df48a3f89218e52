//! The product store: rows of byte fields, loaded from and saved to the
//! CSV surface through the `csv` crate. The row-level rules — a record is
//! four comma-separated fields, adding upserts by id, deleting removes by
//! name — are verified here; only the CSV encoding and decoding themselves
//! are trusted calls.

use vstd::prelude::*;
use vstd::string::StringSliceAdditionalSpecFns;
use crate::text::{bytes_eq, comma_fields, copy_bytes, split_commas};

verus! {

/// The rows that csv's reader yields for these bytes: every well-formed
/// record after the header row, each as its list of fields.
pub uninterp spec fn csv_rows_of(data: Seq<u8>) -> Seq<Seq<Seq<u8>>>;

/// The bytes csv's writer produces for these rows, one record per row.
pub uninterp spec fn csv_encoding_of(rows: Seq<Seq<Seq<u8>>>) -> Seq<u8>;

/// Relies on csv::ReaderBuilder::from_reader and Reader::byte_records
/// (csv 1.4): with the default header handling the first record is treated
/// as a header and skipped, and each remaining record is yielded as its raw
/// byte fields; what comes back depends on the input bytes alone.
#[verifier::external_body]
fn csv_parse(data: &[u8]) -> (r: Vec<Vec<Vec<u8>>>)
    ensures
        r.deep_view() == csv_rows_of(data@),
{
    let mut rdr = csv::ReaderBuilder::new().flexible(true).from_reader(data);
    rdr.byte_records()
        .filter_map(|rec| rec.ok())
        .map(|rec| rec.iter().map(|f| f.to_vec()).collect())
        .collect()
}

/// Relies on csv::WriterBuilder::from_writer, Writer::write_record and
/// Writer::into_inner (csv 1.4): each row is written as one
/// comma-separated, newline-terminated record; the bytes produced depend on
/// the rows alone.
#[verifier::external_body]
fn csv_encode(rows: &Vec<Vec<Vec<u8>>>) -> (r: Vec<u8>)
    ensures
        r@ == csv_encoding_of(rows.deep_view()),
{
    let mut wtr = csv::WriterBuilder::new().flexible(true).from_writer(Vec::new());
    for row in rows.iter() {
        let _ = wtr.write_record(row);
    }
    wtr.into_inner().unwrap_or_default()
}

/// What the store can refuse.
#[derive(Clone, Copy, PartialEq, Eq, Structural, Debug)]
pub enum StoreError {
    /// The record does not have the expected comma-separated shape.
    InvalidRecord,
    /// No record carries the name asked for.
    NotFound,
}

/// The row's first field is this id.
pub open spec fn row_has_id(row: Seq<Seq<u8>>, id: Seq<u8>) -> bool {
    row.len() > 0 && row[0] == id
}

/// The row's second field is this name.
pub open spec fn row_has_name(row: Seq<Seq<u8>>, name: Seq<u8>) -> bool {
    row.len() > 1 && row[1] == name
}

/// The index of the first row whose id is `id`, or -1.
pub open spec fn find_by_id(rows: Seq<Seq<Seq<u8>>>, id: Seq<u8>) -> int
    decreases rows.len(),
{
    if rows.len() == 0 {
        -1
    } else if row_has_id(rows[0], id) {
        0
    } else {
        let r = find_by_id(rows.drop_first(), id);
        if r < 0 {
            -1
        } else {
            r + 1
        }
    }
}

/// `find_by_id` answers an index into the rows, and one that matches.
pub proof fn lemma_find_by_id_bounds(rows: Seq<Seq<Seq<u8>>>, id: Seq<u8>)
    ensures
        -1 <= find_by_id(rows, id) < rows.len(),
        find_by_id(rows, id) >= 0 ==> row_has_id(rows[find_by_id(rows, id)], id),
    decreases rows.len(),
{
    if rows.len() > 0 && !row_has_id(rows[0], id) {
        lemma_find_by_id_bounds(rows.drop_first(), id);
    }
}

/// A scan that saw no match up to `i`, and a match at `i` if `i` is in
/// range, pins `find_by_id` down.
proof fn lemma_find_by_id_at(rows: Seq<Seq<Seq<u8>>>, id: Seq<u8>, i: int)
    requires
        0 <= i <= rows.len(),
        forall|j: int| 0 <= j < i ==> !row_has_id(#[trigger] rows[j], id),
        i < rows.len() ==> row_has_id(rows[i], id),
    ensures
        find_by_id(rows, id) == if i == rows.len() {
            -1int
        } else {
            i
        },
    decreases i,
{
    if i == 0 {
    } else {
        assert(!row_has_id(rows[0], id));
        assert(forall|j: int|
            0 <= j < i - 1 ==> !row_has_id(#[trigger] rows.drop_first()[j], id));
        lemma_find_by_id_at(rows.drop_first(), id, i - 1);
    }
}

/// Adding a record: replace the first row with the same id, else append.
pub open spec fn upsert(rows: Seq<Seq<Seq<u8>>>, row: Seq<Seq<u8>>) -> Seq<Seq<Seq<u8>>> {
    let i = find_by_id(rows, row[0]);
    if i < 0 {
        rows.push(row)
    } else {
        rows.update(i, row)
    }
}

/// Law: re-adding an id updates the matching row in place — the store does
/// not grow, the first row with that id becomes the new record, and every
/// other row is untouched.
pub proof fn lemma_add_updates_in_place(rows: Seq<Seq<Seq<u8>>>, row: Seq<Seq<u8>>)
    requires
        row.len() > 0,
        find_by_id(rows, row[0]) >= 0,
    ensures
        upsert(rows, row).len() == rows.len(),
        upsert(rows, row)[find_by_id(rows, row[0])] == row,
        forall|k: int|
            0 <= k < rows.len() && k != find_by_id(rows, row[0]) ==> upsert(rows, row)[k]
                == rows[k],
{
    lemma_find_by_id_bounds(rows, row[0]);
}

/// The rows that survive deleting `name`.
pub open spec fn without_name(rows: Seq<Seq<Seq<u8>>>, name: Seq<u8>) -> Seq<Seq<Seq<u8>>> {
    rows.filter(|r: Seq<Seq<u8>>| !row_has_name(r, name))
}

/// The persisted product records, one row of byte fields per record.
pub struct ProductStore {
    /// The data rows, header not included.
    pub rows: Vec<Vec<Vec<u8>>>,
}

impl View for ProductStore {
    type V = Seq<Seq<Seq<u8>>>;

    open spec fn view(&self) -> Seq<Seq<Seq<u8>>> {
        self.rows.deep_view()
    }
}

/// The header row of the store's file surface.
pub open spec fn header_fields() -> Seq<Seq<u8>> {
    seq![
        "id".spec_bytes(),
        "name".spec_bytes(),
        "price".spec_bytes(),
        "quantity".spec_bytes(),
    ]
}

proof fn lemma_bytes_deep_view(v: Vec<u8>)
    ensures
        v.deep_view() == v@,
{
    assert(v.deep_view() =~= v@);
}

/// A fresh row with the same fields.
fn clone_row(row: &Vec<Vec<u8>>) -> (r: Vec<Vec<u8>>)
    ensures
        r.deep_view() == row.deep_view(),
{
    let mut out: Vec<Vec<u8>> = Vec::new();
    proof {
        assert(out.deep_view() =~= row.deep_view().take(0));
    }
    let mut k: usize = 0;
    while k < row.len()
        invariant
            0 <= k <= row@.len(),
            out.deep_view() == row.deep_view().take(k as int),
        decreases row@.len() - k,
    {
        let ghost prev = out.deep_view();
        let f = copy_bytes(row[k].as_slice());
        let ghost fv = f@;
        out.push(f);
        proof {
            lemma_bytes_deep_view(row@[k as int]);
            assert(out.deep_view() =~= prev.push(fv));
            assert(row.deep_view().take(k as int + 1) =~= prev.push(fv));
        }
        k += 1;
    }
    proof {
        assert(row.deep_view().take(row@.len() as int) =~= row.deep_view());
    }
    out
}

/// The store the CSV bytes describe.
pub fn load_products(data: &[u8]) -> (s: ProductStore)
    ensures
        s@ == csv_rows_of(data@),
{
    ProductStore { rows: csv_parse(data) }
}

/// The index of the first row whose first field equals `id`.
fn find_row_by_id(rows: &Vec<Vec<Vec<u8>>>, id: &Vec<u8>) -> (r: Option<usize>)
    ensures
        match r {
            Some(i) => i < rows@.len() && find_by_id(rows.deep_view(), id@) == i,
            None => find_by_id(rows.deep_view(), id@) == -1,
        },
{
    let ghost dv = rows.deep_view();
    let mut i: usize = 0;
    while i < rows.len()
        invariant
            0 <= i <= rows@.len(),
            dv == rows.deep_view(),
            dv.len() == rows@.len(),
            forall|j: int| 0 <= j < i ==> !row_has_id(#[trigger] dv[j], id@),
        decreases rows@.len() - i,
    {
        let row = &rows[i];
        proof {
            assert(dv[i as int] == rows@[i as int].deep_view());
            lemma_bytes_deep_view(rows@[i as int]@[0]);
        }
        if row.len() > 0 && bytes_eq(row[0].as_slice(), id.as_slice()) {
            proof {
                assert(row_has_id(dv[i as int], id@));
                lemma_find_by_id_at(dv, id@, i as int);
            }
            return Some(i);
        }
        proof {
            assert(!row_has_id(dv[i as int], id@));
        }
        i += 1;
    }
    proof {
        lemma_find_by_id_at(dv, id@, dv.len() as int);
    }
    None
}

/// Adds the record in `body` — four comma-separated fields, id first. The
/// first row with the same id is replaced; otherwise the record is
/// appended. A body with any other number of fields is refused and the
/// store left unchanged.
pub fn add_product(store: &mut ProductStore, body: &[u8]) -> (r: Result<(), StoreError>)
    ensures
        ({
            let fs = comma_fields(body@);
            match r {
                Ok(_) => fs.len() == 4 && final(store)@ == upsert(old(store)@, fs),
                Err(e) => fs.len() != 4 && e == StoreError::InvalidRecord && *final(store)
                    == *old(store),
            }
        }),
{
    let fields = split_commas(body);
    if fields.len() != 4 {
        return Err(StoreError::InvalidRecord);
    }
    let ghost fs = comma_fields(body@);
    let ghost dv = store.rows.deep_view();
    proof {
        lemma_bytes_deep_view(fields@[0]);
        assert(fields@[0]@ == fs[0]);
    }
    match find_row_by_id(&store.rows, &fields[0]) {
        Some(i) => {
            let ghost fdv = fields.deep_view();
            store.rows[i] = fields;
            proof {
                assert(store.rows.deep_view() =~= dv.update(i as int, fdv));
            }
            Ok(())
        },
        None => {
            let ghost fdv = fields.deep_view();
            store.rows.push(fields);
            proof {
                assert(store.rows.deep_view() =~= dv.push(fdv));
            }
            Ok(())
        },
    }
}

/// Deletes every record whose name — the second comma-separated field of
/// `body` names it — matches. A body with fewer than two fields is refused;
/// when nothing matches the store is unchanged and the delete fails.
pub fn delete_product(store: &mut ProductStore, body: &[u8]) -> (r: Result<(), StoreError>)
    ensures
        ({
            let fs = comma_fields(body@);
            match r {
                Ok(_) => fs.len() >= 2 && without_name(old(store)@, fs[1]).len() != old(
                    store,
                )@.len() && final(store)@ == without_name(old(store)@, fs[1]),
                Err(e) => *final(store) == *old(store) && ((fs.len() < 2 && e
                    == StoreError::InvalidRecord) || (fs.len() >= 2 && e == StoreError::NotFound
                    && without_name(old(store)@, fs[1]).len() == old(store)@.len())),
            }
        }),
{
    let fields = split_commas(body);
    if fields.len() < 2 {
        return Err(StoreError::InvalidRecord);
    }
    let name = &fields[1];
    let ghost nm = comma_fields(body@)[1];
    proof {
        lemma_bytes_deep_view(fields@[1]);
        assert(name@ == nm);
    }
    let ghost dv = store.rows.deep_view();
    let ghost pred = |r: Seq<Seq<u8>>| !row_has_name(r, nm);
    let mut kept: Vec<Vec<Vec<u8>>> = Vec::new();
    proof {
        reveal_with_fuel(Seq::<Seq<Seq<u8>>>::filter, 2);
        assert(kept.deep_view() =~= dv.take(0).filter(pred));
    }
    let mut i: usize = 0;
    while i < store.rows.len()
        invariant
            0 <= i <= store.rows@.len(),
            dv == store.rows.deep_view(),
            dv.len() == store.rows@.len(),
            name@ == nm,
            pred == (|r: Seq<Seq<u8>>| !row_has_name(r, nm)),
            kept.deep_view() == dv.take(i as int).filter(pred),
        decreases store.rows@.len() - i,
    {
        let row = &store.rows[i];
        proof {
            assert(dv[i as int] == store.rows@[i as int].deep_view());
            lemma_bytes_deep_view(store.rows@[i as int]@[1]);
            assert(dv.take(i as int + 1).drop_last() =~= dv.take(i as int));
            assert(dv.take(i as int + 1).last() == dv[i as int]);
        }
        let matches = row.len() > 1 && bytes_eq(row[1].as_slice(), name.as_slice());
        proof {
            assert(matches == row_has_name(dv[i as int], nm));
            assert(pred(dv[i as int]) == !matches);
        }
        if !matches {
            let ghost prev = kept.deep_view();
            let copy = clone_row(row);
            let ghost cv = copy.deep_view();
            kept.push(copy);
            proof {
                reveal_with_fuel(Seq::<Seq<Seq<u8>>>::filter, 2);
                assert(cv == dv[i as int]);
                assert(kept.deep_view() =~= prev.push(cv));
                assert(dv.take(i as int + 1).filter(pred) == dv.take(i as int).filter(
                    pred,
                ).push(dv[i as int]));
            }
        } else {
            proof {
                reveal_with_fuel(Seq::<Seq<Seq<u8>>>::filter, 2);
                assert(dv.take(i as int + 1).filter(pred) == dv.take(i as int).filter(pred));
            }
        }
        i += 1;
    }
    proof {
        assert(dv.take(dv.len() as int) =~= dv);
    }
    if kept.len() == store.rows.len() {
        proof {
            assert(without_name(dv, nm).len() == dv.len());
        }
        return Err(StoreError::NotFound);
    }
    store.rows = kept;
    Ok(())
}

/// The full listing, serialized in the same record format as storage.
pub fn read_products(store: &ProductStore) -> (r: Vec<u8>)
    ensures
        r@ == csv_encoding_of(store@),
{
    csv_encode(&store.rows)
}

/// The store's whole file surface: the header row, then every record.
pub fn store_file_bytes(store: &ProductStore) -> (r: Vec<u8>)
    ensures
        r@ == csv_encoding_of(seq![header_fields()] + store@),
{
    let mut all: Vec<Vec<Vec<u8>>> = Vec::new();
    let mut hdr: Vec<Vec<u8>> = Vec::new();
    hdr.push(copy_bytes("id".as_bytes()));
    hdr.push(copy_bytes("name".as_bytes()));
    hdr.push(copy_bytes("price".as_bytes()));
    hdr.push(copy_bytes("quantity".as_bytes()));
    proof {
        assert(hdr.deep_view() =~~= header_fields());
    }
    all.push(hdr);
    proof {
        assert(all.deep_view() =~= seq![header_fields()] + store@.take(0));
    }
    let mut k: usize = 0;
    while k < store.rows.len()
        invariant
            0 <= k <= store.rows@.len(),
            store@ == store.rows.deep_view(),
            store@.len() == store.rows@.len(),
            all.deep_view() == seq![header_fields()] + store@.take(k as int),
        decreases store.rows@.len() - k,
    {
        let ghost prev = all.deep_view();
        let copy = clone_row(&store.rows[k]);
        let ghost cv = copy.deep_view();
        all.push(copy);
        proof {
            assert(all.deep_view() =~= prev.push(cv));
            assert(seq![header_fields()] + store@.take(k as int + 1) =~= prev.push(
                store@[k as int],
            ));
        }
        k += 1;
    }
    proof {
        assert(store@.take(store@.len() as int) =~= store@);
    }
    csv_encode(&all)
}

} // verus!
