//! Categories: the vertical with rows only, no files.

use vstd::prelude::*;
use crate::common::{RepoError, ServiceError, IngestError};
use crate::fields::FieldMap;
use crate::value::ValueModel;
use crate::paths::{is_blank, str_is_blank};
use crate::store::{MediaStore, category_id_index_of, lemma_category_id_index_of, lemma_category_id_first};

verus! {

/// A category row.
#[derive(Debug, Clone)]
pub struct Category {
    pub id: Option<i32>,
    pub name: String,
}

impl Category {
    /// A field-for-field copy of the row.
    pub fn clone_row(&self) -> (r: Category)
        ensures
            r == *self,
    {
        Category { id: self.id, name: self.name.clone() }
    }
}

/// The outward projection of a category row.
#[derive(Debug, Clone, PartialEq, Eq)]
pub struct CategoryResponse {
    pub id: Option<i32>,
    pub name: String,
}

impl CategoryResponse {
    /// Project one row.
    pub fn from_category(category: Category) -> (r: Self)
        ensures
            r.id == category.id,
            r.name == category.name,
    {
        CategoryResponse { id: category.id, name: category.name }
    }

    /// Project many rows, in order.
    pub fn from_categories(categories: Vec<Category>) -> (r: Vec<Self>)
        ensures
            r@.len() == categories@.len(),
            forall|i: int| 0 <= i < r@.len()
                ==> #[trigger] r@[i].id == categories@[i].id
                    && r@[i].name == categories@[i].name,
    {
        let mut r: Vec<CategoryResponse> = Vec::new();
        let mut i: usize = 0;
        while i < categories.len()
            invariant
                i <= categories@.len(),
                r@.len() == i,
                forall|j: int| 0 <= j < i
                    ==> #[trigger] r@[j].id == categories@[j].id
                        && r@[j].name == categories@[j].name,
            decreases categories@.len() - i,
        {
            r.push(CategoryResponse {
                id: categories[i].id,
                name: categories[i].name.clone(),
            });
            i += 1;
        }
        r
    }
}

/// The request to add a category.
#[derive(Debug, Clone)]
pub struct AddCategoryRequest {
    pub name: String,
}

/// When the add-category binding succeeds: a string field `name` that is
/// not blank.
pub open spec fn add_category_binds(m: Map<Seq<char>, ValueModel>) -> bool {
    &&& m.dom().contains("name"@)
    &&& m["name"@] is Str
    &&& !is_blank(m["name"@]->Str_0)
}

impl AddCategoryRequest {
    /// Bind the merged field map; a missing or blank name is rejected.
    pub fn from_payload_data(payload_data: &FieldMap) -> (r: Result<Self, IngestError>)
        requires
            payload_data.inv(),
        ensures
            r is Ok <==> add_category_binds(payload_data@),
            r matches Ok(req) ==> payload_data@["name"@] == ValueModel::Str(req.name@),
            r matches Err(e) ==> e == IngestError::Bind,
    {
        match payload_data.get_string("name") {
            Some(name) => {
                if str_is_blank(name.as_str()) {
                    Err(IngestError::Bind)
                } else {
                    Ok(AddCategoryRequest { name })
                }
            },
            None => Err(IngestError::Bind),
        }
    }
}

/// The request to rename a category.
#[derive(Debug, Clone)]
pub struct UpdateCategoryRequest {
    pub id: i32,
    pub name: String,
}

/// When the update-category binding succeeds: an in-range integer `id`
/// and a string `name`.
pub open spec fn update_category_binds(m: Map<Seq<char>, ValueModel>) -> bool {
    &&& m.dom().contains("id"@)
    &&& m["id"@] matches ValueModel::Int(v) && i32::MIN <= v <= i32::MAX
    &&& m.dom().contains("name"@)
    &&& m["name"@] is Str
}

impl UpdateCategoryRequest {
    /// Bind the merged field map; a missing id or name is rejected.
    pub fn from_payload_data(payload_data: &FieldMap) -> (r: Result<Self, IngestError>)
        requires
            payload_data.inv(),
        ensures
            r is Ok <==> update_category_binds(payload_data@),
            r matches Ok(req) ==> payload_data@["id"@] == ValueModel::Int(req.id as i64)
                && payload_data@["name"@] == ValueModel::Str(req.name@),
            r matches Err(e) ==> e == IngestError::Bind,
    {
        let id = payload_data.get_i32("id");
        let name = payload_data.get_string("name");
        match (id, name) {
            (Some(id), Some(name)) => Ok(UpdateCategoryRequest { id, name }),
            _ => Err(IngestError::Bind),
        }
    }
}

/// The row operations on the category table.
pub struct Repository;

impl Repository {
    /// Insert a category row, the store assigning its id.
    pub fn create_category(store: &mut MediaStore, category: Category) -> (r: Result<
        usize,
        RepoError,
    >)
        requires
            old(store).inv(),
        ensures
            final(store).inv(),
            final(store).fs == old(store).fs,
            final(store).albums@ == old(store).albums@,
            final(store).episodes@ == old(store).episodes@,
            final(store).contents@ == old(store).contents@,
            r is Ok <==> old(store).next_category_id < i32::MAX,
            r matches Ok(n) ==> n == 1
                && final(store).categories@ == old(store).categories@.push(Category {
                    id: Some(old(store).next_category_id),
                    name: category.name,
                })
                && final(store).next_category_id == old(store).next_category_id + 1,
            r is Err ==> final(store).categories@ == old(store).categories@
                && (r matches Err(e) && e == RepoError::Conflict),
    {
        if store.next_category_id == i32::MAX {
            return Err(RepoError::Conflict);
        }
        let id = store.next_category_id;
        store.next_category_id = id + 1;
        store.categories.push(Category { id: Some(id), name: category.name });
        Ok(1)
    }

    /// All category rows, in insertion order.
    pub fn get_categories(store: &MediaStore) -> (r: Vec<Category>)
        ensures
            r@.len() == store.categories@.len(),
            forall|i: int| 0 <= i < r@.len() ==> #[trigger] r@[i] == store.categories@[i],
    {
        let mut r: Vec<Category> = Vec::new();
        let mut i: usize = 0;
        while i < store.categories.len()
            invariant
                i <= store.categories@.len(),
                r@.len() == i,
                forall|j: int| 0 <= j < i ==> #[trigger] r@[j] == store.categories@[j],
            decreases store.categories@.len() - i,
        {
            r.push(store.categories[i].clone_row());
            i += 1;
        }
        r
    }

    /// Rename the category whose id matches; `NotFound` when none does.
    pub fn update_category(store: &mut MediaStore, update: Category) -> (r: Result<
        CategoryResponse,
        RepoError,
    >)
        requires
            old(store).inv(),
            update.id is Some,
        ensures
            final(store).inv(),
            final(store).fs == old(store).fs,
            final(store).albums@ == old(store).albums@,
            final(store).episodes@ == old(store).episodes@,
            final(store).contents@ == old(store).contents@,
            r is Ok <==> category_id_index_of(old(store).categories@, update.id->0 as int) != -1,
            r matches Ok(resp) ==> {
                let idx = category_id_index_of(old(store).categories@, update.id->0 as int);
                &&& final(store).categories@ == old(store).categories@.update(idx, Category {
                    id: update.id,
                    name: resp.name,
                })
                &&& resp.id == update.id
                &&& resp.name == update.name
            },
            r is Err ==> final(store).categories@ == old(store).categories@
                && (r matches Err(e) && e == RepoError::NotFound),
    {
        let id = match update.id {
            Some(v) => v,
            None => {
                return Err(RepoError::NotFound);
            },
        };
        proof {
            lemma_category_id_index_of(store.categories@, id as int);
        }
        let mut i: usize = 0;
        while i < store.categories.len()
            invariant
                old(store).inv(),
                i <= store.categories@.len(),
                store == old(store),
                update.id == Some(id),
                forall|j: int| 0 <= j < i
                    ==> !(#[trigger] store.categories@[j].id matches Some(v) && v == id),
            decreases store.categories@.len() - i,
        {
            let found = match store.categories[i].id {
                Some(v) => v == id,
                None => false,
            };
            if found {
                proof {
                    lemma_category_id_first(store.categories@, i as int, id as int);
                }
                let row = Category { id: Some(id), name: update.name.clone() };
                store.categories.set(i, row);
                return Ok(CategoryResponse { id: Some(id), name: update.name });
            }
            i += 1;
        }
        proof {
            lemma_category_id_index_of(store.categories@, id as int);
        }
        Err(RepoError::NotFound)
    }

    /// Delete the category whose id matches; the count of removed rows.
    pub fn delete_category(store: &mut MediaStore, category_id: i32) -> (r: Result<
        usize,
        RepoError,
    >)
        requires
            old(store).inv(),
        ensures
            final(store).inv(),
            final(store).fs == old(store).fs,
            final(store).albums@ == old(store).albums@,
            final(store).episodes@ == old(store).episodes@,
            final(store).contents@ == old(store).contents@,
            r is Ok,
            r matches Ok(n) ==> {
                let idx = category_id_index_of(old(store).categories@, category_id as int);
                if idx == -1 {
                    n == 0 && final(store).categories@ == old(store).categories@
                } else {
                    n == 1 && final(store).categories@ == old(store).categories@.remove(idx)
                }
            },
    {
        proof {
            lemma_category_id_index_of(store.categories@, category_id as int);
        }
        let mut i: usize = 0;
        while i < store.categories.len()
            invariant
                old(store).inv(),
                i <= store.categories@.len(),
                store == old(store),
                forall|j: int| 0 <= j < i
                    ==> !(#[trigger] store.categories@[j].id matches Some(v)
                        && v == category_id),
            decreases store.categories@.len() - i,
        {
            let found = match store.categories[i].id {
                Some(v) => v == category_id,
                None => false,
            };
            if found {
                proof {
                    lemma_category_id_first(store.categories@, i as int, category_id as int);
                }
                store.categories.remove(i);
                return Ok(1);
            }
            i += 1;
        }
        Ok(0)
    }
}

/// The category service.
pub struct Service;

impl Service {
    /// Add a category.
    pub fn add_category(store: &mut MediaStore, req: AddCategoryRequest) -> (r: Result<
        (),
        ServiceError,
    >)
        requires
            old(store).inv(),
        ensures
            final(store).inv(),
            final(store).fs == old(store).fs,
            final(store).albums@ == old(store).albums@,
            r is Ok <==> old(store).next_category_id < i32::MAX,
            r is Ok ==> final(store).categories@ == old(store).categories@.push(Category {
                id: Some(old(store).next_category_id),
                name: req.name,
            }),
            r is Err ==> final(store).categories@ == old(store).categories@
                && (r matches Err(e) && e == ServiceError::Persistence),
    {
        match Repository::create_category(store, Category { id: None, name: req.name }) {
            Ok(_) => Ok(()),
            Err(_) => Err(ServiceError::Persistence),
        }
    }

    /// All categories, projected, with their count.
    pub fn get_categories(store: &MediaStore) -> (r: crate::common::ResponseData<
        CategoryResponse,
    >)
        requires
            store.categories@.len() <= i64::MAX,
        ensures
            r.data@.len() == store.categories@.len(),
            r.total == store.categories@.len(),
            forall|i: int| 0 <= i < r.data@.len()
                ==> #[trigger] r.data@[i].id == store.categories@[i].id
                    && r.data@[i].name == store.categories@[i].name,
    {
        let rows = Repository::get_categories(store);
        let total = rows.len() as i64;
        let data = CategoryResponse::from_categories(rows);
        crate::common::ResponseData { data, total }
    }

    /// Rename a category.
    pub fn update_category(store: &mut MediaStore, update_category: UpdateCategoryRequest)
        -> (r: Result<CategoryResponse, ServiceError>)
        requires
            old(store).inv(),
        ensures
            final(store).inv(),
            final(store).fs == old(store).fs,
            final(store).albums@ == old(store).albums@,
            r is Ok <==> category_id_index_of(old(store).categories@,
                update_category.id as int) != -1,
            r matches Ok(resp) ==> {
                let idx = category_id_index_of(old(store).categories@, update_category.id as int);
                &&& final(store).categories@ == old(store).categories@.update(idx, Category {
                    id: Some(update_category.id),
                    name: resp.name,
                })
                &&& resp.name == update_category.name
            },
            r is Err ==> final(store).categories@ == old(store).categories@
                && (r matches Err(e) && e == ServiceError::NotFound),
    {
        match Repository::update_category(store, Category {
            id: Some(update_category.id),
            name: update_category.name,
        }) {
            Ok(resp) => Ok(resp),
            Err(_) => Err(ServiceError::NotFound),
        }
    }

    /// Delete a category; deleting an absent id reports "not found", so a
    /// second delete of the same id is answered consistently, never an
    /// error of another kind.
    pub fn delete_category(store: &mut MediaStore, category_id: i32) -> (r: Result<
        (),
        ServiceError,
    >)
        requires
            old(store).inv(),
        ensures
            final(store).inv(),
            final(store).fs == old(store).fs,
            final(store).albums@ == old(store).albums@,
            r is Ok <==> category_id_index_of(old(store).categories@, category_id as int) != -1,
            r is Ok ==> final(store).categories@ == old(store).categories@.remove(
                category_id_index_of(old(store).categories@, category_id as int)),
            r is Err ==> final(store).categories@ == old(store).categories@
                && (r matches Err(e) && e == ServiceError::NotFound),
            // afterwards no category carries the id, so a second delete
            // reports it missing
            category_id_index_of(final(store).categories@, category_id as int) == -1,
    {
        let r = Repository::delete_category(store, category_id);
        proof {
            let pre = old(store).categories@;
            let ci = category_id_index_of(pre, category_id as int);
            lemma_category_id_index_of(pre, category_id as int);
            lemma_category_id_index_of(store.categories@, category_id as int);
            if ci != -1 && category_id_index_of(store.categories@, category_id as int) != -1 {
                let w = category_id_index_of(store.categories@, category_id as int);
                assert(store.categories@ == pre.remove(ci));
                assert(forall|a: int| 0 <= a < pre.len() - 1
                    ==> pre.remove(ci)[a] == (if a < ci {
                        pre[a]
                    } else {
                        pre[a + 1]
                    }));
                if w < ci {
                    assert(pre[w].id matches Some(v) && v == category_id);
                    assert(pre[ci].id matches Some(v) && v == category_id);
                } else {
                    assert(pre[w + 1].id matches Some(v) && v == category_id);
                    assert(pre[ci].id matches Some(v) && v == category_id);
                }
                assert(false);
            }
        }
        match r {
            Ok(n) => {
                if n > 0 {
                    Ok(())
                } else {
                    Err(ServiceError::NotFound)
                }
            },
            Err(_) => Err(ServiceError::NotFound),
        }
    }
}

} // verus!
