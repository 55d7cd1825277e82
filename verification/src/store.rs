//! In-memory model of the store's metadata catalog: which tables exist, with
//! which engine and which columns.  Introspection ("does table T have column
//! C?") is a pure read of this catalog; the two idempotent DDL primitives
//! ("create table if absent", "add column if absent") are the only mutations.

use vstd::prelude::*;

verus! {

/// Mathematical picture of one table of the catalog.
pub ghost struct TableView {
    pub name: Seq<char>,
    pub engine: Seq<char>,
    pub columns: Seq<Seq<char>>,
}

/// One table of the catalog: its name, its engine, and its column names.
pub struct Table {
    pub name: String,
    pub engine: String,
    pub columns: Vec<String>,
}

impl View for Table {
    type V = TableView;

    open spec fn view(&self) -> TableView {
        TableView { name: self.name@, engine: self.engine@, columns: self.columns.deep_view() }
    }
}

/// Does a table named `name` exist in the catalog?
pub open spec fn table_exists(sv: Seq<TableView>, name: Seq<char>) -> bool {
    exists|i: int| 0 <= i < sv.len() && sv[i].name == name
}

/// The index of the table named `name`; meaningful only when such a table
/// exists and the catalog is well formed.
pub open spec fn table_at(sv: Seq<TableView>, name: Seq<char>) -> int {
    choose|i: int| 0 <= i < sv.len() && sv[i].name == name
}

/// Does table `table` exist and carry a column named `column`?
pub open spec fn column_exists(sv: Seq<TableView>, table: Seq<char>, column: Seq<char>) -> bool {
    exists|i: int| 0 <= i < sv.len() && sv[i].name == table && sv[i].columns.contains(column)
}

/// Does table `table` exist with engine `engine`?
pub open spec fn table_has_engine(sv: Seq<TableView>, table: Seq<char>, engine: Seq<char>) -> bool {
    exists|i: int| 0 <= i < sv.len() && sv[i].name == table && sv[i].engine == engine
}

/// A well-formed catalog names no table twice.
pub open spec fn catalog_wf(sv: Seq<TableView>) -> bool {
    forall|i: int, j: int| 0 <= i < j < sv.len() ==> sv[i].name != sv[j].name
}

/// `t` with one more column.
pub open spec fn with_column(t: TableView, column: Seq<char>) -> TableView {
    TableView { name: t.name, engine: t.engine, columns: t.columns.push(column) }
}

/// The catalog after "create table if absent": unchanged when the table is
/// already there, otherwise extended by the requested table.
pub open spec fn spec_create_table(
    sv: Seq<TableView>,
    name: Seq<char>,
    engine: Seq<char>,
    columns: Seq<Seq<char>>,
) -> Seq<TableView> {
    if table_exists(sv, name) {
        sv
    } else {
        sv.push(TableView { name, engine, columns })
    }
}

/// The catalog after "add column if absent" on an existing table: unchanged
/// when the column is already there, otherwise the table gains the column.
/// When the table itself is missing the operation fails and the catalog is
/// unchanged.
pub open spec fn spec_add_column(
    sv: Seq<TableView>,
    table: Seq<char>,
    column: Seq<char>,
) -> Seq<TableView> {
    if !table_exists(sv, table) {
        sv
    } else if column_exists(sv, table, column) {
        sv
    } else {
        let i = table_at(sv, table);
        sv.update(i, with_column(sv[i], column))
    }
}

/// On a store that does not hold the table yet — the fresh-provision case —
/// "create table if absent" really creates it, in its final shape: with the
/// declared engine and every declared column, no incremental alter needed.
pub proof fn lemma_create_builds_final_shape(
    sv: Seq<TableView>,
    name: Seq<char>,
    engine: Seq<char>,
    columns: Seq<Seq<char>>,
    c: Seq<char>,
)
    requires
        !table_exists(sv, name),
        columns.contains(c),
    ensures
        table_exists(spec_create_table(sv, name, engine, columns), name),
        table_has_engine(spec_create_table(sv, name, engine, columns), name, engine),
        column_exists(spec_create_table(sv, name, engine, columns), name, c),
{
    let sv2 = spec_create_table(sv, name, engine, columns);
    assert(sv2[sv.len() as int].name == name);
    assert(sv2[sv.len() as int].engine == engine);
    assert(sv2[sv.len() as int].columns.contains(c));
}

/// The live metadata catalog of the store, as the orchestrator sees it.
pub struct Store {
    tables: Vec<Table>,
}

impl View for Store {
    type V = Seq<TableView>;

    closed spec fn view(&self) -> Seq<TableView> {
        Seq::new(self.tables@.len(), |i: int| self.tables@[i]@)
    }
}

impl Store {
    /// The catalog invariant: no table is named twice.
    pub open spec fn wf(&self) -> bool {
        catalog_wf(self@)
    }

    /// A freshly provisioned store: no tables at all.
    pub fn new() -> (s: Store)
        ensures
            s@ == Seq::<TableView>::empty(),
            s.wf(),
    {
        let s = Store { tables: Vec::new() };
        proof {
            assert(s@ =~= Seq::<TableView>::empty());
        }
        s
    }

    /// Index of the table named `name`, if any.
    fn find_table(&self, name: &String) -> (r: Option<usize>)
        ensures
            match r {
                Some(i) => 0 <= i < self@.len() && self@[i as int].name == name@,
                None => !table_exists(self@, name@),
            },
    {
        let n = self.tables.len();
        let mut i: usize = 0;
        while i < n
            invariant
                n == self.tables@.len(),
                i <= n,
                self@.len() == self.tables@.len(),
                forall|j: int| 0 <= j < i ==> self@[j].name != name@,
            decreases n - i,
        {
            if self.tables[i].name == *name {
                return Some(i);
            }
            i += 1;
        }
        None
    }

    /// Introspection: does a table named `name` exist?
    pub fn table_exists(&self, name: &String) -> (r: bool)
        ensures
            r == table_exists(self@, name@),
    {
        self.find_table(name).is_some()
    }

    /// Introspection: does table `table` exist and carry column `column`?
    /// A missing table answers "no", never an error.
    pub fn column_exists(&self, table: &String, column: &String) -> (r: bool)
        requires
            self.wf(),
        ensures
            r == column_exists(self@, table@, column@),
    {
        match self.find_table(table) {
            None => false,
            Some(i) => {
                let r = string_vec_contains(&self.tables[i].columns, column);
                proof {
                    assert(self@[i as int].columns == self.tables@[i as int].columns.deep_view());
                    if r {
                        assert(column_exists(self@, table@, column@));
                    } else {
                        assert(forall|k: int|
                            0 <= k < self@.len() && self@[k].name == table@ ==> k == i as int);
                    }
                }
                r
            },
        }
    }

    /// Introspection: does table `table` exist with engine `engine`?
    /// A missing table answers "no", never an error.
    pub fn table_has_engine(&self, table: &String, engine: &String) -> (r: bool)
        requires
            self.wf(),
        ensures
            r == table_has_engine(self@, table@, engine@),
    {
        match self.find_table(table) {
            None => false,
            Some(i) => {
                let r = self.tables[i].engine == *engine;
                proof {
                    if r {
                        assert(table_has_engine(self@, table@, engine@));
                    } else {
                        assert(forall|k: int|
                            0 <= k < self@.len() && self@[k].name == table@ ==> k == i as int);
                    }
                }
                r
            },
        }
    }

    /// DDL primitive: create table `name` with engine `engine` and columns
    /// `columns`, unless a table of that name already exists.
    pub fn create_table_if_absent(&mut self, name: &String, engine: &String, columns: &Vec<String>)
        requires
            old(self).wf(),
        ensures
            final(self).wf(),
            final(self)@ == spec_create_table(old(self)@, name@, engine@, columns.deep_view()),
    {
        match self.find_table(name) {
            Some(_) => {},
            None => {
                let t = Table {
                    name: name.clone(),
                    engine: engine.clone(),
                    columns: clone_string_vec(columns),
                };
                proof {
                    assert(t@ == (TableView {
                        name: name@,
                        engine: engine@,
                        columns: columns.deep_view(),
                    }));
                }
                self.tables.push(t);
                proof {
                    assert(self@ =~= old(self)@.push(t@));
                }
            },
        }
    }

    /// DDL primitive: add column `column` to table `table`, unless the column
    /// is already there.  Returns whether the table exists; when it does not,
    /// nothing is changed (altering a missing table is the one DDL failure
    /// the model knows).
    pub fn add_column_if_absent(&mut self, table: &String, column: &String) -> (r: bool)
        requires
            old(self).wf(),
        ensures
            final(self).wf(),
            r == table_exists(old(self)@, table@),
            final(self)@ == spec_add_column(old(self)@, table@, column@),
    {
        match self.find_table(table) {
            None => false,
            Some(i) => {
                proof {
                    assert(forall|k: int|
                        0 <= k < self@.len() && self@[k].name == table@ ==> k == i as int);
                    assert(table_at(self@, table@) == i as int);
                }
                if string_vec_contains(&self.tables[i].columns, column) {
                    proof {
                        assert(self@[i as int].columns
                            == self.tables@[i as int].columns.deep_view());
                        assert(column_exists(self@, table@, column@));
                    }
                    true
                } else {
                    let mut new_table = Table {
                        name: self.tables[i].name.clone(),
                        engine: self.tables[i].engine.clone(),
                        columns: clone_string_vec(&self.tables[i].columns),
                    };
                    new_table.columns.push(column.clone());
                    proof {
                        assert(new_table@.columns
                            =~= old(self)@[i as int].columns.push(column@));
                        assert(new_table@ == with_column(old(self)@[i as int], column@));
                        assert(!column_exists(old(self)@, table@, column@));
                    }
                    self.tables[i] = new_table;
                    proof {
                        assert(self@ =~= old(self)@.update(
                            i as int,
                            with_column(old(self)@[i as int], column@),
                        ));
                        assert(forall|p: int, q: int|
                            0 <= p < q < self@.len() ==> self@[p].name != self@[q].name) by {
                            assert(forall|p: int| 0 <= p < self@.len()
                                ==> self@[p].name == old(self)@[p].name);
                        }
                    }
                    true
                }
            },
        }
    }

    /// How many tables the catalog holds.
    pub fn table_count(&self) -> (n: usize)
        ensures
            n == self@.len(),
    {
        self.tables.len()
    }

    /// How many columns table `table` has, or `None` when no such table
    /// exists.
    pub fn column_count(&self, table: &String) -> (r: Option<usize>)
        requires
            self.wf(),
        ensures
            match r {
                Some(c) => table_exists(self@, table@) && c == self@[table_at(
                    self@,
                    table@,
                )].columns.len(),
                None => !table_exists(self@, table@),
            },
    {
        match self.find_table(table) {
            None => None,
            Some(i) => {
                proof {
                    assert(forall|k: int|
                        0 <= k < self@.len() && self@[k].name == table@ ==> k == i as int);
                    assert(table_at(self@, table@) == i as int);
                }
                Some(self.tables[i].columns.len())
            },
        }
    }
}

/// Does `v` hold a string equal to `x`?
fn string_vec_contains(v: &Vec<String>, x: &String) -> (r: bool)
    ensures
        r == v.deep_view().contains(x@),
{
    let n = v.len();
    let mut i: usize = 0;
    while i < n
        invariant
            n == v@.len(),
            i <= n,
            forall|j: int| 0 <= j < i ==> v.deep_view()[j] != x@,
        decreases n - i,
    {
        if v[i] == *x {
            proof {
                assert(v.deep_view()[i as int] == x@);
            }
            return true;
        }
        i += 1;
    }
    proof {
        assert(!v.deep_view().contains(x@));
    }
    false
}

/// An element-for-element copy of a vector of strings.
fn clone_string_vec(v: &Vec<String>) -> (r: Vec<String>)
    ensures
        r.deep_view() == v.deep_view(),
{
    let n = v.len();
    let mut r: Vec<String> = Vec::new();
    let mut i: usize = 0;
    while i < n
        invariant
            n == v@.len(),
            i <= n,
            r@.len() == i,
            forall|j: int| 0 <= j < i ==> r@[j] == v@[j],
        decreases n - i,
    {
        r.push(v[i].clone());
        i += 1;
    }
    proof {
        assert(r.deep_view() =~= v.deep_view());
    }
    r
}

} // verus!
