//! A catalogue of tables. A table is found by its name without regard to
//! ASCII case; it keeps the spelling it was created with.
use vstd::prelude::*;

use crate::error::{DbError, DbErrorView};
use crate::schema::{ColumnView, Schema};
use crate::table::{Table, TableView};
use crate::text::{Order, compare_text, same_name, lemma_text_order_equal, lemma_text_order_refl, lemma_text_le_trans, lemma_text_order_swap, lower_seq, text_le, text_order, text_to_string, to_ascii_lowercase};

verus! {

broadcast use vstd::seq_lib::group_to_multiset_ensures;

/// The model of a database: the lower-cased names under which the tables are
/// kept, and the tables, position by position.
pub struct DatabaseView {
    pub keys: Seq<Seq<char>>,
    pub tables: Seq<TableView>,
}

impl DatabaseView {
    /// A table is kept under `name`, ignoring ASCII case.
    pub open spec fn has(self, name: Seq<char>) -> bool {
        self.keys.contains(lower_seq(name))
    }

    /// The position of the table kept under `name`, ignoring ASCII case.
    pub open spec fn position(self, name: Seq<char>) -> int {
        self.keys.index_of(lower_seq(name))
    }

    /// The table kept under `name`, ignoring ASCII case.
    pub open spec fn lookup(self, name: Seq<char>) -> Option<TableView> {
        if self.has(name) {
            Some(self.tables[self.position(name)])
        } else {
            None
        }
    }

    /// Each table is kept under its own name, lower-cased.
    pub open spec fn keys_match_names(self) -> bool {
        forall|i: int| 0 <= i < self.keys.len() ==> #[trigger] self.keys[i] == lower_seq(self.tables[i].name)
    }

    /// One key per table, and no key twice.
    pub open spec fn keys_ok(self) -> bool {
        self.keys.len() == self.tables.len() && self.keys.no_duplicates()
    }

    /// The database with an empty table named `name` added last.
    pub open spec fn with_table(self, name: Seq<char>, schema: Seq<ColumnView>) -> DatabaseView {
        DatabaseView {
            keys: self.keys.push(lower_seq(name)),
            tables: self.tables.push(TableView { name, schema, slots: Seq::empty() }),
        }
    }

    /// The database without the table at position `i`.
    pub open spec fn without(self, i: int) -> DatabaseView {
        DatabaseView { keys: self.keys.remove(i), tables: self.tables.remove(i) }
    }

    /// The tables' names, as they were spelled.
    pub open spec fn names(self) -> Seq<Seq<char>> {
        self.tables.map_values(|t: TableView| t.name)
    }
}

/// The names are in text order.
pub open spec fn sorted_texts(s: Seq<Seq<char>>) -> bool {
    forall|i: int, j: int| 0 <= i < j < s.len() ==> text_le(#[trigger] s[i], #[trigger] s[j])
}

/// Table names are matched without regard to ASCII case: two names that
/// agree ignoring case find the same table.
pub proof fn lemma_lookup_ignores_case(db: DatabaseView, a: Seq<char>, b: Seq<char>)
    requires
        same_name(a, b),
    ensures
        db.has(a) == db.has(b),
        db.lookup(a) == db.lookup(b),
{
}

/// After a table is created under `name`, every name that agrees with it
/// ignoring ASCII case finds the new, empty table with the given name and
/// schema, and every other name finds what it found before.
pub proof fn lemma_create_then_lookup(
    db: DatabaseView,
    name: Seq<char>,
    schema: Seq<ColumnView>,
    other: Seq<char>,
)
    requires
        db.keys_ok(),
        !db.has(name),
    ensures
        db.with_table(name, schema).keys_ok(),
        db.with_table(name, schema).tables.len() == db.tables.len() + 1,
        same_name(other, name) ==> db.with_table(name, schema).lookup(other) == Some(
            TableView { name, schema, slots: Seq::empty() },
        ),
        !same_name(other, name) ==> db.with_table(name, schema).lookup(other) == db.lookup(other),
{
    let after = db.with_table(name, schema);
    let k = lower_seq(name);
    let n = db.keys.len() as int;
    assert(after.keys[n] == k);
    assert forall|a: int, b: int| 0 <= a < after.keys.len() && 0 <= b < after.keys.len() && a != b implies after.keys[a] != after.keys[b] by {
        if a == n {
            assert(after.keys[b] == db.keys[b]);
        } else if b == n {
            assert(after.keys[a] == db.keys[a]);
        } else {
            assert(after.keys[a] == db.keys[a]);
            assert(after.keys[b] == db.keys[b]);
        }
    }
    let ko = lower_seq(other);
    if same_name(other, name) {
        let j = after.keys.index_of(ko);
        assert(after.keys.contains(ko));
        assert(after.keys[j] == ko);
        assert(j == n);
    } else {
        if db.keys.contains(ko) {
            let i = db.keys.index_of(ko);
            assert(after.keys[i] == ko);
            assert(after.keys.contains(ko));
            let j = after.keys.index_of(ko);
            assert(j == i);
        } else {
            assert forall|j: int| 0 <= j < after.keys.len() implies after.keys[j] != ko by {
                if j < n {
                    assert(after.keys[j] == db.keys[j]);
                }
            }
        }
    }
}

/// After the table kept under `name` is dropped, no name that agrees with
/// it ignoring ASCII case finds a table, and every other name finds what it
/// found before.
pub proof fn lemma_drop_then_lookup(db: DatabaseView, name: Seq<char>, other: Seq<char>)
    requires
        db.keys_ok(),
        db.has(name),
    ensures
        db.without(db.position(name)).keys_ok(),
        db.without(db.position(name)).tables.len() + 1 == db.tables.len(),
        same_name(other, name) ==> !db.without(db.position(name)).has(other),
        !same_name(other, name) ==> db.without(db.position(name)).lookup(other) == db.lookup(other),
{
    let p = db.position(name);
    let after = db.without(p);
    let k = lower_seq(name);
    assert(db.keys[p] == k);
    assert forall|a: int, b: int| 0 <= a < after.keys.len() && 0 <= b < after.keys.len() && a != b implies after.keys[a] != after.keys[b] by {
        let a0 = if a < p { a } else { a + 1 };
        let b0 = if b < p { b } else { b + 1 };
        assert(after.keys[a] == db.keys[a0]);
        assert(after.keys[b] == db.keys[b0]);
    }
    let ko = lower_seq(other);
    if same_name(other, name) {
        assert forall|j: int| 0 <= j < after.keys.len() implies after.keys[j] != ko by {
            let j0 = if j < p { j } else { j + 1 };
            assert(after.keys[j] == db.keys[j0]);
        }
    } else {
        if db.keys.contains(ko) {
            let i = db.keys.index_of(ko);
            assert(i != p);
            let i1 = if i < p { i } else { i - 1 };
            assert(after.keys[i1] == ko);
            assert(after.keys.contains(ko));
            let j = after.keys.index_of(ko);
            let j0 = if j < p { j } else { j + 1 };
            assert(after.keys[j] == db.keys[j0]);
            assert(j0 == i);
            assert(after.tables[j] == db.tables[i]);
        } else {
            assert forall|j: int| 0 <= j < after.keys.len() implies after.keys[j] != ko by {
                let j0 = if j < p { j } else { j + 1 };
                assert(after.keys[j] == db.keys[j0]);
            }
        }
    }
}

/// Texts that are each no later than the other in text order are the same.
pub proof fn lemma_text_le_antisymmetric(a: Seq<char>, b: Seq<char>)
    requires
        text_le(a, b),
        text_le(b, a),
    ensures
        a == b,
{
    lemma_text_order_swap(a, b);
    lemma_text_order_equal(a, b);
}

/// Two lists of texts in text order that hold the same texts (as a multiset)
/// are the same list.
pub proof fn lemma_sorted_unique(a: Seq<Seq<char>>, b: Seq<Seq<char>>)
    requires
        sorted_texts(a),
        sorted_texts(b),
        a.to_multiset() == b.to_multiset(),
    ensures
        a == b,
    decreases a.len(),
{
    broadcast use vstd::multiset::group_multiset_axioms;

    vstd::seq_lib::to_multiset_len(a);
    vstd::seq_lib::to_multiset_len(b);
    if a.len() == 0 {
        assert(b.to_multiset().len() == 0);
        assert(b.len() == 0);
        assert(a =~= b);
    } else {
        assert(b.len() == a.len());
        let x = a[0];
        let y = b[0];
        assert(a.contains(x));
        assert(b.to_multiset().contains(x));
        assert(b.contains(x));
        let j = choose|j: int| 0 <= j < b.len() && b[j] == x;
        if j > 0 {
            assert(text_le(b[0], b[j]));
        } else {
            lemma_text_order_refl(y);
        }
        assert(b.contains(y));
        assert(a.to_multiset().contains(y));
        assert(a.contains(y));
        let i = choose|i: int| 0 <= i < a.len() && a[i] == y;
        if i > 0 {
            assert(text_le(a[0], a[i]));
        } else {
            lemma_text_order_refl(x);
        }
        lemma_text_le_antisymmetric(x, y);
        assert(a.remove(0) =~= a.drop_first());
        assert(b.remove(0) =~= b.drop_first());
        assert(a.drop_first().to_multiset() == b.drop_first().to_multiset());
        assert(sorted_texts(a.drop_first())) by {
            assert forall|p: int, q: int| 0 <= p < q < a.drop_first().len() implies text_le(
                #[trigger] a.drop_first()[p],
                #[trigger] a.drop_first()[q],
            ) by {
                assert(a.drop_first()[p] == a[p + 1]);
                assert(a.drop_first()[q] == a[q + 1]);
            }
        }
        assert(sorted_texts(b.drop_first())) by {
            assert forall|p: int, q: int| 0 <= p < q < b.drop_first().len() implies text_le(
                #[trigger] b.drop_first()[p],
                #[trigger] b.drop_first()[q],
            ) by {
                assert(b.drop_first()[p] == b[p + 1]);
                assert(b.drop_first()[q] == b[q + 1]);
            }
        }
        lemma_sorted_unique(a.drop_first(), b.drop_first());
        assert(a =~= b) by {
            assert forall|k: int| 0 <= k < a.len() implies a[k] == b[k] by {
                if k > 0 {
                    assert(a[k] == a.drop_first()[k - 1]);
                    assert(b[k] == b.drop_first()[k - 1]);
                }
            }
        }
    }
}

/// The list `table_names` gives is fixed by the tables' names: any two lists
/// in text order holding exactly those names are equal.
pub proof fn lemma_table_names_determined(db: DatabaseView, a: Seq<Seq<char>>, b: Seq<Seq<char>>)
    requires
        sorted_texts(a),
        sorted_texts(b),
        a.to_multiset() == db.names().to_multiset(),
        b.to_multiset() == db.names().to_multiset(),
    ensures
        a == b,
{
    lemma_sorted_unique(a, b);
}

/// Creating a table and then dropping it under any spelling of its name
/// that agrees ignoring ASCII case hands back the new, empty table and
/// leaves the database as it was.
pub proof fn lemma_create_then_drop(
    db: DatabaseView,
    name: Seq<char>,
    schema: Seq<ColumnView>,
    other: Seq<char>,
)
    requires
        db.keys_ok(),
        !db.has(name),
        same_name(other, name),
    ensures
        db.with_table(name, schema).has(other),
        db.with_table(name, schema).position(other) == db.tables.len(),
        db.with_table(name, schema).tables[db.with_table(name, schema).position(other)] == (
        TableView { name, schema, slots: Seq::empty() }),
        db.with_table(name, schema).without(db.with_table(name, schema).position(other)) == db,
{
    lemma_create_then_lookup(db, name, schema, other);
    let after = db.with_table(name, schema);
    let n = db.keys.len() as int;
    assert(after.keys[n] == lower_seq(other));
    assert(after.keys.contains(lower_seq(other)));
    let j = after.position(other);
    assert(after.keys[j] == lower_seq(other));
    assert(j == n);
    assert(after.without(n).keys =~= db.keys);
    assert(after.without(n).tables =~= db.tables);
}

/// The models of a sequence of tables.
pub open spec fn table_views(ts: Seq<Table>) -> Seq<TableView> {
    ts.map_values(|t: Table| t@)
}

fn text_lt(a: &str, b: &str) -> (r: bool)
    ensures
        r == (text_order(a@, b@) == Order::Less),
{
    match compare_text(a, b) {
        Order::Less => true,
        _ => false,
    }
}

/// A collection of uniquely named tables.
#[derive(Debug)]
pub struct Database {
    keys: Vec<String>,
    tables: Vec<Table>,
}

impl View for Database {
    type V = DatabaseView;

    closed spec fn view(&self) -> DatabaseView {
        DatabaseView {
            keys: self.keys@.map_values(|k: String| k@),
            tables: table_views(self.tables@),
        }
    }
}

impl Clone for Database {
    /// A copy with the same keys and tables; a copy of a well-formed
    /// database is well formed.
    fn clone(&self) -> (r: Database)
        ensures
            r@ == self@,
            self.wf() ==> r.wf(),
    {
        let mut tables: Vec<Table> = Vec::new();
        let mut i: usize = 0;
        while i < self.tables.len()
            invariant
                0 <= i <= self.tables@.len(),
                tables@.len() == i,
                forall|k: int| 0 <= k < i ==> #[trigger] tables@[k]@ == self.tables@[k]@,
                forall|k: int| 0 <= k < i ==> (self.tables@[k].wf() ==> #[trigger] tables@[k].wf()),
            decreases self.tables@.len() - i,
        {
            tables.push(self.tables[i].clone());
            i += 1;
        }
        let mut keys: Vec<String> = Vec::new();
        let mut j: usize = 0;
        while j < self.keys.len()
            invariant
                0 <= j <= self.keys@.len(),
                keys@.len() == j,
                forall|k: int| 0 <= k < j ==> #[trigger] keys@[k]@ == self.keys@[k]@,
            decreases self.keys@.len() - j,
        {
            keys.push(self.keys[j].clone());
            j += 1;
        }
        let r = Database { keys, tables };
        assert(r@.keys =~= self@.keys);
        assert(r@.tables =~= self@.tables);
        r
    }
}

impl Default for Database {
    fn default() -> (r: Database)
        ensures
            r.wf(),
            r@.keys.len() == 0,
            r@.tables.len() == 0,
    {
        Database::new()
    }
}

impl Database {
    /// The bookkeeping is consistent: one key per table, the keys are
    /// lower-cased and distinct, and every table is well formed.
    pub closed spec fn wf(&self) -> bool {
        &&& self.keys@.len() == self.tables@.len()
        &&& self@.keys.no_duplicates()
        &&& forall|i: int| 0 <= i < self@.keys.len() ==> lower_seq(#[trigger] self@.keys[i]) == self@.keys[i]
        &&& self@.keys_match_names()
        &&& forall|i: int| 0 <= i < self.tables@.len() ==> (#[trigger] self.tables@[i]).wf()
    }

    /// In a well-formed database there is one key per table, the keys are
    /// distinct and already lower-cased, and each key is its table's name
    /// lower-cased.
    pub proof fn lemma_keys(&self)
        requires
            self.wf(),
        ensures
            self@.keys.len() == self@.tables.len(),
            self@.keys.no_duplicates(),
            forall|i: int| 0 <= i < self@.keys.len() ==> lower_seq(#[trigger] self@.keys[i]) == self@.keys[i],
            self@.keys_match_names(),
    {
    }

    /// An empty database.
    pub fn new() -> (r: Database)
        ensures
            r.wf(),
            r@.keys.len() == 0,
            r@.tables.len() == 0,
    {
        let r = Database { keys: Vec::new(), tables: Vec::new() };
        assert(r@.keys =~= Seq::empty());
        r
    }

    fn normalize(name: &str) -> (r: String)
        ensures
            r@ == lower_seq(name@),
    {
        to_ascii_lowercase(name)
    }

    /// The position of the table kept under `name`, if any.
    fn find(&self, name: &str) -> (r: Option<usize>)
        requires
            self.wf(),
        ensures
            r is Some <==> self@.has(name@),
            r matches Some(i) ==> i == self@.position(name@) && i < self@.tables.len(),
    {
        let key = Database::normalize(name);
        let mut i: usize = 0;
        while i < self.keys.len()
            invariant
                self.wf(),
                0 <= i <= self@.keys.len(),
                key@ == lower_seq(name@),
                forall|k: int| 0 <= k < i ==> self@.keys[k] != key@,
            decreases self@.keys.len() - i,
        {
            if self.keys[i] == key {
                assert(self@.keys[i as int] == key@);
                assert(self@.has(name@));
                let ghost j = self@.position(name@);
                assert(self@.keys[j] == key@);
                assert(j == i) by {
                    if j != i {
                        assert(self@.keys.no_duplicates());
                    }
                }
                return Some(i);
            }
            i += 1;
        }
        None
    }

    /// Creates an empty table under `name`; refused when a table is already
    /// kept under that name ignoring ASCII case.
    pub fn create_table(&mut self, name: &str, schema: Schema) -> (r: Result<(), DbError>)
        requires
            old(self).wf(),
        ensures
            final(self).wf(),
            r is Err <==> old(self)@.has(name@),
            r matches Err(e) ==> e@ == (DbErrorView::TableAlreadyExists { name: name@ })
                && final(self)@ == old(self)@,
            r is Ok ==> final(self)@ == old(self)@.with_table(name@, schema@),
    {
        if self.find(name).is_some() {
            return Err(DbError::TableAlreadyExists { name: text_to_string(name) });
        }
        let key = Database::normalize(name);
        let ghost old_keys = self@.keys;
        let table = Table::new(name, schema);
        self.keys.push(key);
        self.tables.push(table);
        proof {
            assert(self@.keys =~= old_keys.push(lower_seq(name@)));
            assert(!old_keys.contains(lower_seq(name@)));
            assert(self@.keys.no_duplicates()) by {
                assert forall|a: int, b: int| 0 <= a < self@.keys.len() && 0 <= b < self@.keys.len() && a != b implies self@.keys[a] != self@.keys[b] by {
                    if b == old_keys.len() {
                        assert(old_keys[a] == self@.keys[a]);
                    } else if a == old_keys.len() {
                        assert(old_keys[b] == self@.keys[b]);
                    }
                }
            }
            lemma_lower_idempotent(name@);
            assert(self@.tables =~= old(self)@.tables.push(
                TableView { name: name@, schema: schema@, slots: Seq::empty() },
            ));
            assert forall|k: int| 0 <= k < self@.keys.len() implies #[trigger] self@.keys[k] == lower_seq(
                self@.tables[k].name,
            ) by {
                if k < old_keys.len() {
                    assert(self@.keys[k] == old(self)@.keys[k]);
                    assert(self@.tables[k] == old(self)@.tables[k]);
                }
            }
        }
        Ok(())
    }

    /// Removes the table kept under `name` (ignoring ASCII case) and hands it
    /// back; `NoSuchTable` when there is none.
    pub fn drop_table(&mut self, name: &str) -> (r: Result<Table, DbError>)
        requires
            old(self).wf(),
        ensures
            final(self).wf(),
            r is Err <==> !old(self)@.has(name@),
            r matches Err(e) ==> e@ == (DbErrorView::NoSuchTable { name: name@ })
                && final(self)@ == old(self)@,
            r matches Ok(t) ==> {
                let i = old(self)@.position(name@);
                &&& t.wf()
                &&& t@ == old(self)@.tables[i]
                &&& final(self)@ == old(self)@.without(i)
            },
    {
        match self.find(name) {
            None => Err(DbError::NoSuchTable { name: text_to_string(name) }),
            Some(i) => {
                let ghost old_keys = self@.keys;
                let ghost old_tables = self.tables@;
                self.keys.remove(i);
                let t = self.tables.remove(i);
                proof {
                    assert(self@.keys =~= old_keys.remove(i as int));
                    assert(self@.tables =~= old(self)@.tables.remove(i as int));
                    assert(old_tables[i as int].wf());
                    assert forall|k: int| 0 <= k < self.tables@.len() implies (#[trigger] self.tables@[k]).wf() by {
                        if k < i {
                            assert(self.tables@[k] == old_tables[k]);
                        } else {
                            assert(self.tables@[k] == old_tables[k + 1]);
                        }
                    }
                    assert forall|k: int| 0 <= k < self@.keys.len() implies lower_seq(#[trigger] self@.keys[k]) == self@.keys[k] by {
                        if k < i {
                            assert(self@.keys[k] == old_keys[k]);
                        } else {
                            assert(self@.keys[k] == old_keys[k + 1]);
                        }
                    }
                    assert forall|k: int| 0 <= k < self@.keys.len() implies #[trigger] self@.keys[k] == lower_seq(
                        self@.tables[k].name,
                    ) by {
                        let k0 = if k < i { k } else { k + 1 };
                        assert(self@.keys[k] == old_keys[k0]);
                        assert(self@.tables[k] == old(self)@.tables[k0]);
                    }
                    assert(self@.keys.no_duplicates()) by {
                        assert forall|a: int, b: int| 0 <= a < self@.keys.len() && 0 <= b < self@.keys.len() && a != b implies self@.keys[a] != self@.keys[b] by {
                            let a0 = if a < i { a } else { a + 1 };
                            let b0 = if b < i { b } else { b + 1 };
                            assert(self@.keys[a] == old_keys[a0]);
                            assert(self@.keys[b] == old_keys[b0]);
                        }
                    }
                }
                Ok(t)
            },
        }
    }

    /// Whether a table is kept under `name`, ignoring ASCII case.
    pub fn contains_table(&self, name: &str) -> (r: bool)
        requires
            self.wf(),
        ensures
            r == self@.has(name@),
    {
        self.find(name).is_some()
    }

    /// The number of tables.
    pub fn len(&self) -> (r: usize)
        requires
            self.wf(),
        ensures
            r == self@.tables.len(),
    {
        self.tables.len()
    }

    /// Whether there are no tables.
    pub fn is_empty(&self) -> (r: bool)
        requires
            self.wf(),
        ensures
            r == (self@.tables.len() == 0),
    {
        self.tables.len() == 0
    }

    /// The tables' names as they were spelled, in text order.
    /// No two of them agree ignoring ASCII case.
    pub fn table_names(&self) -> (r: Vec<&str>)
        requires
            self.wf(),
        ensures
            r@.len() == self@.tables.len(),
            r@.map_values(|s: &str| s@).to_multiset() == self@.names().to_multiset(),
            sorted_texts(r@.map_values(|s: &str| s@)),
            forall|a: int, b: int|
                0 <= a < b < r@.len() ==> !same_name(#[trigger] r@[a]@, #[trigger] r@[b]@),
    {
        let mut names: Vec<&str> = Vec::new();
        let ghost mut from: Seq<int> = Seq::empty();
        let mut i: usize = 0;
        while i < self.tables.len()
            invariant
                self.wf(),
                0 <= i <= self.tables@.len(),
                names@.map_values(|s: &str| s@).to_multiset() == self@.names().take(i as int).to_multiset(),
                sorted_texts(names@.map_values(|s: &str| s@)),
                names@.len() == i,
                from.len() == i,
                from.no_duplicates(),
                forall|k: int| 0 <= k < i ==> 0 <= #[trigger] from[k] < i,
                forall|k: int| 0 <= k < i ==> #[trigger] names@[k]@ == self@.tables[from[k]].name,
            decreases self.tables@.len() - i,
        {
            let n = self.tables[i].name();
            let ghost before = names@.map_values(|s: &str| s@);
            let mut p: usize = 0;
            while p < names.len() && !text_lt(n, names[p])
                invariant
                    0 <= p <= names@.len(),
                    before == names@.map_values(|s: &str| s@),
                    forall|k: int| 0 <= k < p ==> text_le(#[trigger] before[k], n@),
                decreases names@.len() - p,
            {
                proof {
                    lemma_text_order_swap(n@, before[p as int]);
                }
                p += 1;
            }
            assert(p < names@.len() ==> text_order(n@, before[p as int]) == Order::Less);
            let ghost before_names = names@;
            names.insert(p, n);
            proof {
                let old_from = from;
                from = from.insert(p as int, i as int);
                assert forall|k: int| 0 <= k < i + 1 implies #[trigger] names@[k]@ == self@.tables[from[k]].name by {
                    if k < p {
                        assert(names@[k] == before_names[k]);
                    } else if k > p {
                        assert(names@[k] == before_names[k - 1]);
                        assert(from[k] == old_from[k - 1]);
                    }
                }
                assert forall|k: int| 0 <= k < i + 1 implies 0 <= #[trigger] from[k] < i + 1 by {
                    if k > p {
                        assert(from[k] == old_from[k - 1]);
                    }
                }
                assert forall|a: int, b: int| 0 <= a < from.len() && 0 <= b < from.len() && a != b implies from[a] != from[b] by {
                    if a != p && b != p {
                        let a0 = if a < p { a } else { a - 1 };
                        let b0 = if b < p { b } else { b - 1 };
                        assert(from[a] == old_from[a0]);
                        assert(from[b] == old_from[b0]);
                    } else if a == p {
                        let b0 = if b < p { b } else { b - 1 };
                        assert(from[b] == old_from[b0]);
                    } else {
                        let a0 = if a < p { a } else { a - 1 };
                        assert(from[a] == old_from[a0]);
                    }
                }
                let after = names@.map_values(|s: &str| s@);
                assert(after =~= before.insert(p as int, n@));
                assert(self@.names().take(i + 1) =~= self@.names().take(i as int).push(n@));
                assert(sorted_texts(after)) by {
                    assert forall|a: int, b: int| 0 <= a < b < after.len() implies text_le(#[trigger] after[a], #[trigger] after[b]) by {
                        if b < p {
                        } else if b == p {
                        } else if a < p {
                            assert(after[b] == before[b - 1]);
                        } else if a == p {
                            assert(after[b] == before[b - 1]);
                            lemma_text_order_swap(n@, before[p as int]);
                            if b - 1 > p {
                                lemma_text_le_trans(n@, before[p as int], before[b - 1]);
                            }
                        } else {
                            assert(after[a] == before[a - 1]);
                            assert(after[b] == before[b - 1]);
                        }
                    }
                }
            }
            i += 1;
        }
        assert(self@.names().take(i as int) =~= self@.names());
        assert forall|a: int, b: int| 0 <= a < b < names@.len() implies !same_name(
            #[trigger] names@[a]@,
            #[trigger] names@[b]@,
        ) by {
            let x = from[a];
            let y = from[b];
            assert(self@.keys[x] == lower_seq(self@.tables[x].name));
            assert(self@.keys[y] == lower_seq(self@.tables[y].name));
            assert(x != y);
        }
        names
    }

    /// The table kept under `name` (ignoring ASCII case), or `NoSuchTable`.
    pub fn get(&self, name: &str) -> (r: Result<&Table, DbError>)
        requires
            self.wf(),
        ensures
            r is Ok <==> self@.has(name@),
            r matches Ok(t) ==> t.wf() && Some(t@) == self@.lookup(name@) && same_name(t@.name, name@),
            r matches Err(e) ==> e@ == (DbErrorView::NoSuchTable { name: name@ }),
    {
        match self.find(name) {
            Some(i) => Ok(&self.tables[i]),
            None => Err(DbError::NoSuchTable { name: text_to_string(name) }),
        }
    }

    /// The table kept under `name` (ignoring ASCII case), for changing it,
    /// or `NoSuchTable`. The database stays well formed as long as the table
    /// does.
    pub fn get_mut(&mut self, name: &str) -> (r: Result<&mut Table, DbError>)
        requires
            old(self).wf(),
        ensures
            r is Ok <==> old(self)@.has(name@),
            match r {
                Ok(t) => {
                    let i = old(self)@.position(name@);
                    &&& t.wf()
                    &&& t@ == old(self)@.tables[i]
                    &&& final(self)@ == (DatabaseView {
                        keys: old(self)@.keys,
                        tables: old(self)@.tables.update(i, final(t)@),
                    })
                    &&& same_name(t@.name, name@)
                    &&& final(t).wf() && same_name(final(t)@.name, t@.name) ==> final(self).wf()
                },
                Err(e) => {
                    &&& e@ == (DbErrorView::NoSuchTable { name: name@ })
                    &&& final(self)@ == old(self)@
                    &&& final(self).wf()
                },
            },
    {
        match self.find(name) {
            Some(i) => Ok(self.table_at_mut(i)),
            None => Err(DbError::NoSuchTable { name: text_to_string(name) }),
        }
    }

    fn table_at_mut(&mut self, i: usize) -> (r: &mut Table)
        requires
            old(self).wf(),
            i < old(self)@.tables.len(),
        ensures
            r.wf(),
            r@ == old(self)@.tables[i as int],
            final(self)@ == (DatabaseView {
                keys: old(self)@.keys,
                tables: old(self)@.tables.update(i as int, final(r)@),
            }),
            final(r).wf() && same_name(final(r)@.name, r@.name) ==> final(self).wf(),
    {
        proof {
            assert forall|t: Table| #[trigger] table_views(self.tables@.update(i as int, t))
                =~= self@.tables.update(i as int, t@) by {}
        }
        &mut self.tables[i]
    }

    /// The table kept under `name` (ignoring ASCII case), if any.
    pub fn try_get(&self, name: &str) -> (r: Option<&Table>)
        requires
            self.wf(),
        ensures
            r is Some <==> self@.has(name@),
            r matches Some(t) ==> t.wf() && Some(t@) == self@.lookup(name@) && same_name(t@.name, name@),
    {
        match self.find(name) {
            Some(i) => Some(&self.tables[i]),
            None => None,
        }
    }

    /// The table kept under `name` (ignoring ASCII case), if any, for
    /// changing it. The database stays well formed as long as the table does.
    pub fn try_get_mut(&mut self, name: &str) -> (r: Option<&mut Table>)
        requires
            old(self).wf(),
        ensures
            r is Some <==> old(self)@.has(name@),
            match r {
                Some(t) => {
                    let i = old(self)@.position(name@);
                    &&& t.wf()
                    &&& t@ == old(self)@.tables[i]
                    &&& final(self)@ == (DatabaseView {
                        keys: old(self)@.keys,
                        tables: old(self)@.tables.update(i, final(t)@),
                    })
                    &&& same_name(t@.name, name@)
                    &&& final(t).wf() && same_name(final(t)@.name, t@.name) ==> final(self).wf()
                },
                None => final(self)@ == old(self)@ && final(self).wf(),
            },
    {
        match self.find(name) {
            Some(i) => Some(self.table_at_mut(i)),
            None => None,
        }
    }

    /// The tables, in the order they are kept.
    pub fn iter(&self) -> (r: Vec<&Table>)
        ensures
            r@.map_values(|t: &Table| t@) == self@.tables,
    {
        let mut r: Vec<&Table> = Vec::new();
        let mut i: usize = 0;
        while i < self.tables.len()
            invariant
                0 <= i <= self.tables@.len(),
                r@.map_values(|t: &Table| t@) == self@.tables.take(i as int),
            decreases self.tables@.len() - i,
        {
            let ghost before = r@;
            r.push(&self.tables[i]);
            assert(r@.map_values(|t: &Table| t@) =~= before.map_values(|t: &Table| t@).push(
                self@.tables[i as int],
            ));
            i += 1;
            assert(r@.map_values(|t: &Table| t@) =~= self@.tables.take(i as int));
        }
        assert(self@.tables.take(i as int) =~= self@.tables);
        r
    }
}

/// Lower-casing twice changes nothing more.
pub proof fn lemma_lower_idempotent(s: Seq<char>)
    ensures
        lower_seq(lower_seq(s)) == lower_seq(s),
{
    assert(lower_seq(lower_seq(s)) =~= lower_seq(s));
}

} // verus!
