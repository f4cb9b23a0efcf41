//! Values and rows.
use vstd::prelude::*;

verus! {

/// A value of a column. A real number is the bit pattern of a double-precision number.
#[derive(Debug)]
pub enum Value {
    Null,
    Integer(i64),
    Real(u64),
    Text(String),
    Blob(Vec<u8>),
}

/// The entry at `i` is for `name`.
spec fn is_at(entries: Seq<(String, Value)>, name: Seq<char>, i: int) -> bool {
    0 <= i < entries.len() && entries[i].0@ == name
}

/// What the entries assign to each name.
pub closed spec fn assigned(entries: Seq<(String, Value)>) -> Map<Seq<char>, Value> {
    Map::new(
        |name: Seq<char>| exists|i: int| is_at(entries, name, i),
        |name: Seq<char>| entries[choose|i: int| is_at(entries, name, i)].1,
    )
}

/// No two entries are for one name.
pub open spec fn names_differ(entries: Seq<(String, Value)>) -> bool {
    forall|i: int, j: int|
        0 <= i < j < entries.len() ==> (#[trigger] entries[i]).0@ != (#[trigger] entries[j]).0@
}

/// A row as an object: a value for each column name.
#[derive(Debug)]
pub struct RowObject {
    entries: Vec<(String, Value)>,
}

impl View for RowObject {
    type V = Map<Seq<char>, Value>;

    closed spec fn view(&self) -> Map<Seq<char>, Value> {
        assigned(self.entries@)
    }
}

impl RowObject {
    #[verifier::type_invariant]
    closed spec fn inv(&self) -> bool {
        names_differ(self.entries@)
    }

    /// No columns.
    pub fn new() -> (r: Self)
        ensures
            r@ == Map::<Seq<char>, Value>::empty(),
    {
        let r = RowObject { entries: Vec::new() };
        assert(r@ =~= Map::<Seq<char>, Value>::empty());
        r
    }

    /// The row with `value` for `name`, in place of what it had.
    pub fn with(self, name: String, value: Value) -> (r: Self)
        ensures
            r@ == self@.insert(name@, value),
    {
        proof {
            use_type_invariant(&self);
        }
        let ghost before = self.entries@;
        let ghost key = name@;
        let mut entries: Vec<(String, Value)> = self.entries;
        let mut i: usize = 0;
        while i < entries.len()
            invariant
                entries@ == before,
                names_differ(before),
                assigned(before) == self@,
                key == name@,
                i <= entries@.len(),
                forall|k: int| 0 <= k < i ==> (#[trigger] before[k]).0@ != key,
            decreases entries@.len() - i,
        {
            if entries[i].0 == name {
                entries[i] = (name, value);
                proof {
                    assigned_update(before, entries@, i as int);
                }
                return RowObject { entries };
            }
            i += 1;
        }
        entries.push((name, value));
        proof {
            assert(entries@.drop_last() =~= before);
            assigned_push(before, entries@);
        }
        RowObject { entries }
    }

    /// The names and their values, each name once, in no particular order.
    pub fn entries(&self) -> (r: &Vec<(String, Value)>)
        ensures
            names_differ(r@),
            assigned(r@) == self@,
    {
        proof {
            use_type_invariant(self);
        }
        &self.entries
    }

    /// The value for `name`.
    pub fn get(&self, name: &String) -> (r: Option<&Value>)
        ensures
            match r {
                Some(value) => self@.contains_key(name@) && self@[name@] == *value,
                None => !self@.contains_key(name@),
            },
    {
        proof {
            use_type_invariant(self);
        }
        let mut i: usize = 0;
        while i < self.entries.len()
            invariant
                names_differ(self.entries@),
                i <= self.entries@.len(),
                forall|k: int| 0 <= k < i ==> (#[trigger] self.entries@[k]).0@ != name@,
            decreases self.entries@.len() - i,
        {
            if self.entries[i].0 == *name {
                proof {
                    assigned_at(self.entries@, i as int);
                }
                return Some(&self.entries[i].1);
            }
            i += 1;
        }
        None
    }
}

/// An entry is what its name is assigned.
pub proof fn assigned_at(entries: Seq<(String, Value)>, i: int)
    requires
        names_differ(entries),
        0 <= i < entries.len(),
    ensures
        assigned(entries).contains_key(entries[i].0@),
        assigned(entries)[entries[i].0@] == entries[i].1,
{
    let name = entries[i].0@;
    assert(is_at(entries, name, i));
    let j = choose|j: int| is_at(entries, name, j);
    if i < j {
        assert(entries[i].0@ != entries[j].0@);
    }
    if j < i {
        assert(entries[j].0@ != entries[i].0@);
    }
}

proof fn assigned_update(before: Seq<(String, Value)>, after: Seq<(String, Value)>, i: int)
    requires
        names_differ(before),
        0 <= i < before.len(),
        after == before.update(i, after[i]),
        after[i].0@ == before[i].0@,
    ensures
        names_differ(after),
        assigned(after) == assigned(before).insert(after[i].0@, after[i].1),
{
    let (a, b) = (assigned(after), assigned(before));
    let key = after[i].0@;
    assert forall|j: int, k: int| 0 <= j < k < after.len() implies (#[trigger] after[j]).0@ != (
    #[trigger] after[k]).0@ by {
        assert(after[j].0@ == before[j].0@);
        assert(after[k].0@ == before[k].0@);
    }
    assert forall|name: Seq<char>| a.contains_key(name) == b.insert(key, after[i].1).contains_key(
        name,
    ) by {
        if a.contains_key(name) {
            let j = choose|j: int| is_at(after, name, j);
            assert(is_at(before, name, j));
        }
        if b.contains_key(name) {
            let j = choose|j: int| is_at(before, name, j);
            assert(is_at(after, name, j));
        }
        if name == key {
            assert(is_at(after, name, i));
        }
    }
    assert forall|name: Seq<char>| a.contains_key(name) implies #[trigger] a[name] == b.insert(
        key,
        after[i].1,
    )[name] by {
        let j = choose|j: int| is_at(after, name, j);
        assigned_at(after, j);
        assigned_at(before, j);
        assigned_at(after, i);
        if name != key {
            assert(j != i);
        }
    }
    assert(a =~= b.insert(key, after[i].1));
}

proof fn assigned_push(before: Seq<(String, Value)>, after: Seq<(String, Value)>)
    requires
        names_differ(before),
        after.len() == before.len() + 1,
        after.drop_last() == before,
        forall|k: int| 0 <= k < before.len() ==> (#[trigger] before[k]).0@ != after.last().0@,
    ensures
        names_differ(after),
        assigned(after) == assigned(before).insert(after.last().0@, after.last().1),
{
    let (a, b) = (assigned(after), assigned(before));
    let n = before.len() as int;
    let key = after.last().0@;
    assert forall|j: int| 0 <= j < n implies #[trigger] after[j] == before[j] by {
        assert(after.drop_last()[j] == after[j]);
    }
    assert(names_differ(after));
    assert forall|name: Seq<char>| a.contains_key(name) == b.insert(
        key,
        after.last().1,
    ).contains_key(name) by {
        if a.contains_key(name) {
            let j = choose|j: int| is_at(after, name, j);
            if j < n {
                assert(is_at(before, name, j));
            }
        }
        if b.contains_key(name) {
            let j = choose|j: int| is_at(before, name, j);
            assert(is_at(after, name, j));
        }
        if name == key {
            assert(is_at(after, name, n));
        }
    }
    assert forall|name: Seq<char>| a.contains_key(name) implies #[trigger] a[name] == b.insert(
        key,
        after.last().1,
    )[name] by {
        let j = choose|j: int| is_at(after, name, j);
        assigned_at(after, j);
        if j < n {
            assigned_at(before, j);
            assert(before[j].0@ != key);
        }
    }
    assert(a =~= b.insert(key, after.last().1));
}

/// The object of a row: each column's value under its name. Of columns with one name, the last
/// one's value stays.
pub open spec fn object(names: Seq<String>, values: Seq<Value>) -> Map<Seq<char>, Value>
    decreases names.len(),
{
    if names.len() == 0 {
        Map::empty()
    } else {
        object(names.drop_last(), values.drop_last()).insert(names.last()@, values.last())
    }
}

/// Builds the object of a row.
pub fn row_object(names: &Vec<String>, values: Vec<Value>) -> (r: RowObject)
    requires
        names@.len() == values@.len(),
    ensures
        r@ == object(names@, values@),
{
    let ghost all = values@;
    let mut row: RowObject = RowObject::new();
    let mut rest: Vec<Value> = values;
    let mut i: usize = 0;
    assert(object(names@.take(0), all.take(0)) =~= Map::<Seq<char>, Value>::empty());
    while i < names.len()
        invariant
            names@.len() == all.len(),
            i <= names@.len(),
            rest@ == all.skip(i as int),
            row@ == object(names@.take(i as int), all.take(i as int)),
        decreases names@.len() - i,
    {
        let value: Value = rest.remove(0);
        assert(value == all[i as int]);
        assert(names@.take(i + 1).drop_last() =~= names@.take(i as int));
        assert(all.take(i + 1).drop_last() =~= all.take(i as int));
        row = row.with(names[i].clone(), value);
        i += 1;
        assert(rest@ =~= all.skip(i as int));
    }
    assert(names@.take(i as int) =~= names@);
    assert(all.take(i as int) =~= all);
    row
}

/// The objects of rows.
pub open spec fn contents(rows: Seq<RowObject>) -> Seq<Map<Seq<char>, Value>> {
    rows.map_values(|r: RowObject| r@)
}

/// Adds the object of a row to those before it.
pub fn with_row(rows: Vec<RowObject>, names: &Vec<String>, values: Vec<Value>) -> (r: Vec<
    RowObject,
>)
    requires
        names@.len() == values@.len(),
    ensures
        contents(r@) == contents(rows@).push(object(names@, values@)),
{
    let mut all: Vec<RowObject> = rows;
    all.push(row_object(names, values));
    assert(contents(all@) =~= contents(rows@).push(object(names@, values@)));
    all
}

/// An object has exactly the names of its columns.
pub proof fn object_has_every_column(names: Seq<String>, values: Seq<Value>, name: Seq<char>)
    requires
        names.len() == values.len(),
    ensures
        object(names, values).contains_key(name) <==> exists|i: int|
            0 <= i < names.len() && (#[trigger] names[i])@ == name,
    decreases names.len(),
{
    if names.len() > 0 {
        let (n, v) = (names.drop_last(), values.drop_last());
        object_has_every_column(n, v, name);
        if object(names, values).contains_key(name) && name != names.last()@ {
            let i = choose|i: int| 0 <= i < n.len() && (#[trigger] n[i])@ == name;
            assert(names[i]@ == name);
        }
        if names.last()@ == name {
            assert(names[names.len() - 1]@ == name);
        }
        assert forall|i: int| 0 <= i < names.len() && (#[trigger] names[i])@ == name implies object(
            names,
            values,
        ).contains_key(name) by {
            if i < n.len() {
                assert(n[i]@ == name);
            }
        }
    }
}

/// A column whose name no later column has keeps its value.
pub proof fn last_column_wins(names: Seq<String>, values: Seq<Value>, i: int)
    requires
        names.len() == values.len(),
        0 <= i < names.len(),
        forall|j: int| i < j < names.len() ==> (#[trigger] names[j])@ != names[i]@,
    ensures
        object(names, values)[names[i]@] == values[i],
    decreases names.len(),
{
    if i < names.len() - 1 {
        let n = names.drop_last();
        assert(names[names.len() - 1]@ != names[i]@);
        assert forall|j: int| i < j < n.len() implies (#[trigger] n[j])@ != n[i]@ by {
            assert(names[j]@ != names[i]@);
        }
        last_column_wins(n, values.drop_last(), i);
    }
}

/// A name that is assigned something has an entry.
pub proof fn assigned_names_have_entries(entries: Seq<(String, Value)>, name: Seq<char>)
    requires
        assigned(entries).contains_key(name),
    ensures
        exists|i: int| 0 <= i < entries.len() && (#[trigger] entries[i]).0@ == name,
{
    let i = choose|i: int| is_at(entries, name, i);
    assert(entries[i].0@ == name);
}

} // verus!
