use ruueb::store::{
    add_product, delete_product, load_products, read_products, store_file_bytes, StoreError,
};

const DATA: &[u8] = b"id,name,price,quantity\n1,Apple,2.50,10\n2,Pear,1.25,4\n";

#[test]
fn load_skips_the_header_row() {
    let store = load_products(DATA);
    assert_eq!(store.rows.len(), 2);
    assert_eq!(store.rows[0][1], b"Apple".to_vec());
}

#[test]
fn listing_serializes_the_records() {
    let store = load_products(DATA);
    assert_eq!(
        read_products(&store),
        b"1,Apple,2.50,10\n2,Pear,1.25,4\n".to_vec()
    );
}

#[test]
fn add_then_list_shows_the_record() {
    let mut store = load_products(DATA);
    assert!(add_product(&mut store, b"7,Widget,9.99,3").is_ok());
    let listing = read_products(&store);
    assert_eq!(
        listing,
        b"1,Apple,2.50,10\n2,Pear,1.25,4\n7,Widget,9.99,3\n".to_vec()
    );
}

#[test]
fn re_adding_an_id_updates_without_duplicating() {
    let mut store = load_products(DATA);
    assert!(add_product(&mut store, b"7,Widget,9.99,3").is_ok());
    assert!(add_product(&mut store, b"7,Gadget,1.00,5").is_ok());
    assert_eq!(store.rows.len(), 3);
    let listing = read_products(&store);
    assert_eq!(
        listing,
        b"1,Apple,2.50,10\n2,Pear,1.25,4\n7,Gadget,1.00,5\n".to_vec()
    );
}

#[test]
fn add_refuses_a_malformed_record() {
    let mut store = load_products(DATA);
    assert_eq!(
        add_product(&mut store, b"1,2,3"),
        Err(StoreError::InvalidRecord)
    );
    assert_eq!(
        add_product(&mut store, b"1,2,3,4,5"),
        Err(StoreError::InvalidRecord)
    );
    assert_eq!(store.rows.len(), 2);
}

#[test]
fn delete_removes_by_name() {
    let mut store = load_products(DATA);
    assert!(delete_product(&mut store, b"_,Apple").is_ok());
    assert_eq!(read_products(&store), b"2,Pear,1.25,4\n".to_vec());
}

#[test]
fn delete_of_a_missing_name_fails_and_changes_nothing() {
    let mut store = load_products(DATA);
    assert_eq!(
        delete_product(&mut store, b"_,Nope"),
        Err(StoreError::NotFound)
    );
    assert_eq!(read_products(&store), b"1,Apple,2.50,10\n2,Pear,1.25,4\n".to_vec());
}

#[test]
fn delete_refuses_a_body_without_a_name_field() {
    let mut store = load_products(DATA);
    assert_eq!(
        delete_product(&mut store, b"nocomma"),
        Err(StoreError::InvalidRecord)
    );
    assert_eq!(store.rows.len(), 2);
}

#[test]
fn file_surface_keeps_the_header_row() {
    let store = load_products(DATA);
    assert_eq!(store_file_bytes(&store), DATA.to_vec());
}

#[test]
fn empty_input_yields_an_empty_store() {
    let store = load_products(b"");
    assert_eq!(store.rows.len(), 0);
    assert_eq!(read_products(&store), Vec::<u8>::new());
}
