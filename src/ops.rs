//! The operation table: host operations registered by name, numbered in
//! registration order, and the routing of a call from script to one of them.
//!
//! Id 0 is the catalog: a call to it returns every name with its id, so that
//! script can call operations by name.
use crate::error::CoreError;
use indexmap::IndexSet;
use vstd::prelude::*;

verus! {

#[verifier::external_type_specification]
#[verifier::external_body]
#[verifier::reject_recursive_types(T)]
#[verifier::reject_recursive_types(S)]
pub struct ExIndexSet<T, S>(IndexSet<T, S>);

/// The items of an insertion-ordered set of names, by index.
pub uninterp spec fn names_in_order(s: IndexSet<String>) -> Seq<Seq<char>>;

/// Relies on `IndexSet::new`: the set starts empty.
#[verifier::external_body]
fn names_new() -> (r: IndexSet<String>)
    ensures
        names_in_order(r) == Seq::<Seq<char>>::empty(),
{
    IndexSet::new()
}

/// Relies on `IndexSet::insert_full`: an item already present keeps its index
/// and leaves the set as it was (`false`); a new one is appended at the end
/// (`true`).
#[verifier::external_body]
fn names_insert_full(set: &mut IndexSet<String>, name: String) -> (r: (usize, bool))
    ensures
        names_in_order(*old(set)).contains(name@) ==> {
            &&& !r.1
            &&& r.0 < names_in_order(*old(set)).len()
            &&& names_in_order(*old(set))[r.0 as int] == name@
            &&& names_in_order(*final(set)) == names_in_order(*old(set))
        },
        !names_in_order(*old(set)).contains(name@) ==> {
            &&& r.1
            &&& r.0 == names_in_order(*old(set)).len()
            &&& names_in_order(*final(set)) == names_in_order(*old(set)).push(name@)
        },
{
    set.insert_full(name)
}

/// Relies on `IndexSet::get_index_of`: the index of an item, if present.
#[verifier::external_body]
fn names_index_of(set: &IndexSet<String>, name: &str) -> (r: Option<usize>)
    ensures
        match r {
            Some(i) => i < names_in_order(*set).len() && names_in_order(*set)[i as int] == name@,
            None => !names_in_order(*set).contains(name@),
        },
{
    set.get_index_of(name)
}

/// Relies on `IndexSet::get_index`: the item at an index below the length.
#[verifier::external_body]
fn names_get_index(set: &IndexSet<String>, index: usize) -> (r: Option<&String>)
    ensures
        index < names_in_order(*set).len() ==> r is Some && r.unwrap()@ == names_in_order(*set)[index as int],
        index >= names_in_order(*set).len() ==> r is None,
{
    set.get_index(index)
}

/// Relies on `IndexSet::len`: the number of items.
#[verifier::external_body]
fn names_len(set: &IndexSet<String>) -> (r: usize)
    ensures
        r == names_in_order(*set).len(),
{
    set.len()
}

/// Index of an operation in its table.
pub type OpId = usize;

/// Name under which the catalog operation, id 0, is listed.
pub const CATALOG_OP_NAME: &'static str = "ops";

/// The catalog that a table with `names` returns: each name with its id.
pub open spec fn catalog_of(names: Seq<Seq<char>>) -> Seq<(Seq<char>, OpId)> {
    names.map(|i: int, n: Seq<char>| (n, i as OpId))
}

/// Where a call from script goes.
pub enum Route {
    /// Id 0: the catalog of every operation, by id.
    Catalog(Vec<(String, OpId)>),
    /// The operation with this id.
    Handler(OpId),
}

/// Registered operations, by name and id.
pub struct OpTable {
    names: IndexSet<String>,
}

impl OpTable {
    /// The registered names; the name at index `i` is that of operation `i`.
    pub closed spec fn op_names(&self) -> Seq<Seq<char>> {
        names_in_order(self.names)
    }

    /// The catalog comes first and no name is registered twice.
    pub closed spec fn wf(&self) -> bool {
        &&& self.op_names().len() >= 1
        &&& self.op_names()[0] == CATALOG_OP_NAME@
        &&& forall|i: int, j: int|
            0 <= i < j < self.op_names().len() ==> self.op_names()[i] != self.op_names()[j]
    }

    /// A table that holds the catalog operation alone.
    pub fn new() -> (r: Self)
        ensures
            r.wf(),
            r.op_names() == seq![CATALOG_OP_NAME@],
    {
        let mut names = names_new();
        let _ = names_insert_full(&mut names, CATALOG_OP_NAME.to_owned());
        let r = OpTable { names };
        proof {
            assert(r.op_names() =~= seq![CATALOG_OP_NAME@]);
        }
        r
    }

    /// Number of operations, the catalog included.
    pub fn len(&self) -> (n: usize)
        ensures
            n == self.op_names().len(),
    {
        names_len(&self.names)
    }

    /// The id of the operation registered as `name`.
    pub fn id_of(&self, name: &str) -> (r: Option<OpId>)
        ensures
            match r {
                Some(i) => i < self.op_names().len() && self.op_names()[i as int] == name@,
                None => !self.op_names().contains(name@),
            },
    {
        names_index_of(&self.names, name)
    }

    /// Registers `name` and returns its id, the next in registration order.
    pub fn register_op(&mut self, name: &str) -> (id: OpId)
        requires
            old(self).wf(),
            !old(self).op_names().contains(name@),
        ensures
            final(self).wf(),
            id == old(self).op_names().len(),
            final(self).op_names() == old(self).op_names().push(name@),
    {
        let (id, _) = names_insert_full(&mut self.names, name.to_owned());
        proof {
            let names = final(self).op_names();
            assert forall|i: int, j: int| 0 <= i < j < names.len() implies names[i] != names[j] by {
                if j == old(self).op_names().len() {
                    assert(old(self).op_names()[i] == names[i]);
                }
            }
        }
        id
    }

    /// Registers each of `names` in turn; they take the next ids in order.
    pub fn register_all(&mut self, names: &[&str])
        requires
            old(self).wf(),
            forall|i: int| 0 <= i < names@.len() ==> !old(self).op_names().contains(#[trigger] names@[i]@),
            forall|i: int, j: int| 0 <= i < j < names@.len() ==> names@[i]@ != names@[j]@,
        ensures
            final(self).wf(),
            final(self).op_names() == old(self).op_names() + names@.map_values(|n: &str| n@),
    {
        let ghost added = names@.map_values(|n: &str| n@);
        let mut i: usize = 0;
        while i < names.len()
            invariant
                self.wf(),
                i <= names@.len(),
                added == names@.map_values(|n: &str| n@),
                forall|k: int| 0 <= k < names@.len() ==> !old(self).op_names().contains(#[trigger] names@[k]@),
                forall|a: int, b: int| 0 <= a < b < names@.len() ==> names@[a]@ != names@[b]@,
                self.op_names() == old(self).op_names() + added.subrange(0, i as int),
            decreases names@.len() - i,
        {
            let name = names[i];
            proof {
                if self.op_names().contains(name@) {
                    let k = choose|k: int| 0 <= k < self.op_names().len() && #[trigger] self.op_names()[k] == name@;
                    if k < old(self).op_names().len() {
                        assert(old(self).op_names()[k] == name@);
                    } else {
                        let m = k - old(self).op_names().len();
                        assert(added[m] == names@[m]@);
                    }
                }
            }
            let _ = self.register_op(name);
            proof {
                assert(added.subrange(0, i + 1) =~= added.subrange(0, i as int).push(name@));
            }
            i = i + 1;
        }
        proof {
            assert(added.subrange(0, i as int) =~= added);
        }
    }

    /// Every registered name with its id, in id order.
    pub fn catalog(&self) -> (r: Vec<(String, OpId)>)
        ensures
            r@.map_values(|e: (String, OpId)| (e.0@, e.1)) == catalog_of(self.op_names()),
    {
        let n = names_len(&self.names);
        let mut r: Vec<(String, OpId)> = Vec::new();
        let mut i: usize = 0;
        while i < n
            invariant
                n == self.op_names().len(),
                i <= n,
                r@.map_values(|e: (String, OpId)| (e.0@, e.1)) == catalog_of(self.op_names()).subrange(0, i as int),
            decreases n - i,
        {
            let name = names_get_index(&self.names, i).unwrap();
            let ghost before = r@.map_values(|e: (String, OpId)| (e.0@, e.1));
            r.push((name.clone(), i));
            proof {
                assert(r@.map_values(|e: (String, OpId)| (e.0@, e.1)) =~= before.push((name@, i)));
                assert(catalog_of(self.op_names()).subrange(0, i + 1) =~= before.push((name@, i)));
            }
            i = i + 1;
        }
        proof {
            assert(catalog_of(self.op_names()).subrange(0, n as int) =~= catalog_of(self.op_names()));
        }
        r
    }

    /// Routes a call from script with op id `op_id`: id 0 to the catalog, the
    /// id of a registered operation to that operation, and any other value,
    /// negative or too large, to an unknown-op error. The table is left as it is.
    pub fn route_op(&self, op_id: i64) -> (r: Result<Route, CoreError>)
        requires
            self.wf(),
        ensures
            op_id == 0 ==> (r matches Ok(Route::Catalog(c)) && c@.map_values(
                |e: (String, OpId)| (e.0@, e.1),
            ) == catalog_of(self.op_names())),
            0 < op_id < self.op_names().len() ==> (r matches Ok(Route::Handler(id)) && id == op_id),
            (op_id < 0 || op_id >= self.op_names().len()) ==> (r matches Err(
                CoreError::UnknownOp { id },
            ) && id == op_id),
    {
        let n = names_len(&self.names);
        if op_id < 0 || op_id as u64 >= n as u64 {
            Err(CoreError::UnknownOp { id: op_id })
        } else if op_id == 0 {
            Ok(Route::Catalog(self.catalog()))
        } else {
            Ok(Route::Handler(op_id as usize))
        }
    }
}

/// States of a table under a run of registrations: `tables[k + 1]` is
/// `tables[k]` after registering `names[k]`, which returned `ids[k]`.
pub open spec fn registration_run(names: Seq<Seq<char>>, tables: Seq<OpTable>, ids: Seq<OpId>) -> bool {
    &&& tables.len() == names.len() + 1
    &&& ids.len() == names.len()
    &&& forall|k: int|
        0 <= k < names.len() ==> #[trigger] ids[k] == tables[k].op_names().len()
            && tables[k + 1].op_names() == tables[k].op_names().push(names[k])
}

proof fn lemma_run_prefix(names: Seq<Seq<char>>, tables: Seq<OpTable>, ids: Seq<OpId>, k: int)
    requires
        registration_run(names, tables, ids),
        tables[0].op_names() == seq![CATALOG_OP_NAME@],
        0 <= k <= names.len(),
    ensures
        tables[k].op_names() == seq![CATALOG_OP_NAME@] + names.subrange(0, k),
    decreases k,
{
    if k == 0 {
        assert(seq![CATALOG_OP_NAME@] + names.subrange(0, 0) =~= seq![CATALOG_OP_NAME@]);
    } else {
        lemma_run_prefix(names, tables, ids, k - 1);
        assert(ids[k - 1] == tables[k - 1].op_names().len());
        assert(seq![CATALOG_OP_NAME@] + names.subrange(0, k) =~= (seq![CATALOG_OP_NAME@] + names.subrange(
            0,
            k - 1,
        )).push(names[k - 1]));
    }
}

/// Registering names one after another into a fresh table numbers them 1, 2,
/// ... in call order, and the catalog then lists the catalog operation under
/// id 0 and every registered name under its id.
pub proof fn lemma_registration_numbers_in_order(names: Seq<Seq<char>>, tables: Seq<OpTable>, ids: Seq<OpId>)
    requires
        registration_run(names, tables, ids),
        tables[0].op_names() == seq![CATALOG_OP_NAME@],
    ensures
        forall|k: int| 0 <= k < names.len() ==> #[trigger] ids[k] == k + 1,
        tables.last().op_names() == seq![CATALOG_OP_NAME@] + names,
        catalog_of(tables.last().op_names())[0] == (CATALOG_OP_NAME@, 0usize),
        forall|k: int|
            0 <= k < names.len() ==> #[trigger] catalog_of(tables.last().op_names())[k + 1] == (
                names[k],
                (k + 1) as OpId,
            ),
{
    assert forall|k: int| 0 <= k < names.len() implies #[trigger] ids[k] == k + 1 by {
        lemma_run_prefix(names, tables, ids, k);
    }
    lemma_run_prefix(names, tables, ids, names.len() as int);
    assert(names.subrange(0, names.len() as int) =~= names);
}

} // verus!
