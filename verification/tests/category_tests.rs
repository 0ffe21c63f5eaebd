use media_catalog::store::MediaStore;
use media_catalog::category::{Service, AddCategoryRequest, UpdateCategoryRequest, CategoryResponse, Category};
use media_catalog::common::{ServiceError, IngestError, Role, check_role};
use media_catalog::fields::FieldMap;
use media_catalog::value::{FieldValue, infer_value};

#[test]
fn add_and_list_categories() {
    let mut store = MediaStore::new("proj".to_string());
    Service::add_category(&mut store, AddCategoryRequest { name: "Action".to_string() })
        .expect("first add");
    Service::add_category(&mut store, AddCategoryRequest { name: "Drama".to_string() })
        .expect("second add");
    let listed = Service::get_categories(&store);
    assert_eq!(listed.total, 2);
    assert_eq!(listed.data[0], CategoryResponse { id: Some(1), name: "Action".to_string() });
    assert_eq!(listed.data[1], CategoryResponse { id: Some(2), name: "Drama".to_string() });
}

#[test]
fn update_category_renames_or_reports_missing() {
    let mut store = MediaStore::new("proj".to_string());
    Service::add_category(&mut store, AddCategoryRequest { name: "Old".to_string() })
        .expect("add");
    let resp = Service::update_category(&mut store, UpdateCategoryRequest {
        id: 1,
        name: "New".to_string(),
    }).expect("update succeeds");
    assert_eq!(resp.name, "New");
    let missing = Service::update_category(&mut store, UpdateCategoryRequest {
        id: 5,
        name: "X".to_string(),
    });
    assert_eq!(missing.err(), Some(ServiceError::NotFound));
}

#[test]
fn delete_category_twice_reports_not_found_second_time() {
    let mut store = MediaStore::new("proj".to_string());
    Service::add_category(&mut store, AddCategoryRequest { name: "C".to_string() })
        .expect("add");
    Service::delete_category(&mut store, 1).expect("first delete");
    let again = Service::delete_category(&mut store, 1);
    assert_eq!(again.err(), Some(ServiceError::NotFound));
}

#[test]
fn category_binding_rejects_blank_names() {
    let mut m = FieldMap::new();
    m.insert("name".to_string(), infer_value("  "));
    let r = AddCategoryRequest::from_payload_data(&m);
    assert_eq!(r.err(), Some(IngestError::Bind));
    // blankness follows Unicode white space, not just ASCII
    let mut nb = FieldMap::new();
    nb.insert("name".to_string(), infer_value("\u{00A0}\u{2003}"));
    let r_nb = AddCategoryRequest::from_payload_data(&nb);
    assert_eq!(r_nb.err(), Some(IngestError::Bind));
    let mut m2 = FieldMap::new();
    m2.insert("name".to_string(), infer_value("Romance"));
    let ok = AddCategoryRequest::from_payload_data(&m2).expect("binds");
    assert_eq!(ok.name, "Romance");
    let empty = FieldMap::new();
    let r2 = AddCategoryRequest::from_payload_data(&empty);
    assert_eq!(r2.err(), Some(IngestError::Bind));
}

#[test]
fn update_category_binding_needs_id_and_name() {
    let mut m = FieldMap::new();
    m.insert("id".to_string(), infer_value("4"));
    m.insert("name".to_string(), infer_value("Kids"));
    let ok = UpdateCategoryRequest::from_payload_data(&m).expect("binds");
    assert_eq!(ok.id, 4);
    assert_eq!(ok.name, "Kids");
    let mut m2 = FieldMap::new();
    m2.insert("id".to_string(), FieldValue::Str("not a number".to_string()));
    m2.insert("name".to_string(), infer_value("Kids"));
    let r = UpdateCategoryRequest::from_payload_data(&m2);
    assert_eq!(r.err(), Some(IngestError::Bind));
}

#[test]
fn roles_come_from_the_role_string() {
    assert_eq!(check_role("admin"), Role::Admin);
    assert_eq!(check_role("user"), Role::User);
    assert_eq!(check_role("guest"), Role::Unknown);
    assert_eq!(check_role(""), Role::Unknown);
}

#[test]
fn clone_row_copies_every_field() {
    let c = Category { id: Some(9), name: "N".to_string() };
    let d = c.clone_row();
    assert_eq!(d.id, Some(9));
    assert_eq!(d.name, "N");
}
