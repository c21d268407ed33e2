//! Payloads: the metadata stored beside a vector.

use vstd::prelude::*;

verus! {

/// One value of a payload, as the store holds it.
#[derive(Debug, PartialEq)]
pub enum PayloadValue {
    /// No value.
    Null,
    /// A truth value.
    Bool(bool),
    /// A signed integer.
    Integer(i64),
    /// A double-precision number, carried as its IEEE 754 bit pattern.
    Double(u64),
    /// A text.
    Text(String),
    /// A list of values.
    List(Vec<PayloadValue>),
    /// A nested mapping, as its entries.
    Struct(Vec<(String, PayloadValue)>),
}

/// What a payload value says, with texts as character sequences.
pub enum ValueModel {
    Null,
    Bool(bool),
    Integer(i64),
    Double(u64),
    Text(Seq<char>),
    List(Seq<ValueModel>),
    Struct(Seq<(Seq<char>, ValueModel)>),
}

impl View for PayloadValue {
    type V = ValueModel;

    open spec fn view(&self) -> ValueModel
        decreases self,
    {
        match self {
            PayloadValue::Null => ValueModel::Null,
            PayloadValue::Bool(b) => ValueModel::Bool(*b),
            PayloadValue::Integer(n) => ValueModel::Integer(*n),
            PayloadValue::Double(bits) => ValueModel::Double(*bits),
            PayloadValue::Text(text) => ValueModel::Text(text@),
            PayloadValue::List(items) => ValueModel::List(
                Seq::new(
                    items.len() as nat,
                    |i: int|
                        if 0 <= i < items.len() {
                            items[i].view()
                        } else {
                            ValueModel::Null
                        },
                ),
            ),
            PayloadValue::Struct(entries) => ValueModel::Struct(
                Seq::new(
                    entries.len() as nat,
                    |i: int|
                        if 0 <= i < entries.len() {
                            (entries[i].0@, entries[i].1.view())
                        } else {
                            (Seq::empty(), ValueModel::Null)
                        },
                ),
            ),
        }
    }
}

impl PayloadValue {
    /// The text of a text value.
    pub open spec fn text(self) -> Option<Seq<char>> {
        match self@ {
            ValueModel::Text(text) => Some(text),
            _ => None,
        }
    }

    /// The text, if this value is one.
    pub fn as_str(&self) -> (text: Option<&str>)
        ensures
            match text {
                Some(t) => self.text() == Some(t@),
                None => self.text().is_none(),
            },
    {
        match self {
            PayloadValue::Text(text) => Some(text.as_str()),
            _ => None,
        }
    }
}

/// The mapping that a list of entries stands for: a later entry replaces an
/// earlier one of the same name.
pub open spec fn entries_model(entries: Seq<(String, PayloadValue)>) -> Map<Seq<char>, ValueModel>
    decreases entries.len(),
{
    if entries.len() == 0 {
        Map::empty()
    } else {
        entries_model(entries.drop_last()).insert(entries.last().0@, entries.last().1@)
    }
}

/// No two entries carry the same name.
pub open spec fn distinct_names(entries: Seq<(String, PayloadValue)>) -> bool {
    forall|i: int, j: int|
        0 <= i < j < entries.len() ==> (#[trigger] entries[i]).0@ != (#[trigger] entries[j]).0@
}

/// A name is mapped exactly if some entry carries it.
proof fn lemma_entries_model_domain(entries: Seq<(String, PayloadValue)>, name: Seq<char>)
    ensures
        entries_model(entries).contains_key(name) <==> exists|i: int|
            0 <= i < entries.len() && (#[trigger] entries[i]).0@ == name,
    decreases entries.len(),
{
    if entries.len() > 0 {
        let earlier = entries.drop_last();
        lemma_entries_model_domain(earlier, name);
        if entries_model(entries).contains_key(name) {
            if entries.last().0@ == name {
                assert(entries[entries.len() - 1].0@ == name);
            } else {
                let i = choose|i: int| 0 <= i < earlier.len() && (#[trigger] earlier[i]).0@ == name;
                assert(entries[i].0@ == name);
            }
        }
        if exists|i: int| 0 <= i < entries.len() && (#[trigger] entries[i]).0@ == name {
            let i = choose|i: int| 0 <= i < entries.len() && (#[trigger] entries[i]).0@ == name;
            if i < entries.len() - 1 {
                assert(earlier[i].0@ == name);
            }
        }
    }
}

/// With distinct names, each entry's name is mapped to that entry's value.
proof fn lemma_entries_model_value(entries: Seq<(String, PayloadValue)>, i: int)
    requires
        distinct_names(entries),
        0 <= i < entries.len(),
    ensures
        entries_model(entries).contains_key(entries[i].0@),
        entries_model(entries)[entries[i].0@] == entries[i].1@,
    decreases entries.len(),
{
    let earlier = entries.drop_last();
    if i < entries.len() - 1 {
        assert(distinct_names(earlier)) by {
            assert forall|a: int, b: int| 0 <= a < b < earlier.len() implies (
            #[trigger] earlier[a]).0@ != (#[trigger] earlier[b]).0@ by {
                assert(entries[a].0@ != entries[b].0@);
            }
        }
        lemma_entries_model_value(earlier, i);
        assert(earlier[i] == entries[i]);
        assert(entries[i].0@ != entries[entries.len() - 1].0@);
    }
}

/// Replacing the value of one entry replaces the value under its name.
proof fn lemma_entries_model_update(
    entries: Seq<(String, PayloadValue)>,
    i: int,
    entry: (String, PayloadValue),
)
    requires
        distinct_names(entries),
        0 <= i < entries.len(),
        entry.0@ == entries[i].0@,
    ensures
        distinct_names(entries.update(i, entry)),
        entries_model(entries.update(i, entry)) == entries_model(entries).insert(
            entry.0@,
            entry.1@,
        ),
    decreases entries.len(),
{
    let after = entries.update(i, entry);
    assert(distinct_names(after)) by {
        assert forall|a: int, b: int| 0 <= a < b < after.len() implies (#[trigger] after[a]).0@ != (
        #[trigger] after[b]).0@ by {
            assert(entries[a].0@ != entries[b].0@);
        }
    }
    let earlier = entries.drop_last();
    if i == entries.len() - 1 {
        assert(after.drop_last() =~= earlier);
        assert(entries_model(after) =~= entries_model(entries).insert(entry.0@, entry.1@));
    } else {
        assert(distinct_names(earlier)) by {
            assert forall|a: int, b: int| 0 <= a < b < earlier.len() implies (
            #[trigger] earlier[a]).0@ != (#[trigger] earlier[b]).0@ by {
                assert(entries[a].0@ != entries[b].0@);
            }
        }
        lemma_entries_model_update(earlier, i, entry);
        assert(after.drop_last() =~= earlier.update(i, entry));
        assert(after.last() == entries.last());
        assert(entries[i].0@ != entries[entries.len() - 1].0@);
        assert(entries_model(after) =~= entries_model(entries).insert(entry.0@, entry.1@));
    }
}

/// A flat mapping from field names to values.
#[derive(Debug)]
pub struct Payload {
    entries: Vec<(String, PayloadValue)>,
}

impl View for Payload {
    type V = Map<Seq<char>, ValueModel>;

    closed spec fn view(&self) -> Map<Seq<char>, ValueModel> {
        entries_model(self.entries@)
    }
}

impl Payload {
    #[verifier::type_invariant]
    spec fn names_are_distinct(self) -> bool {
        distinct_names(self.entries@)
    }

    /// The payload without fields.
    pub fn new() -> (payload: Payload)
        ensures
            payload@ == Map::<Seq<char>, ValueModel>::empty(),
    {
        Payload { entries: Vec::new() }
    }

    /// The place of the entry named `name`, if there is one.
    fn position(&self, name: &String) -> (found: Option<usize>)
        ensures
            match found {
                Some(i) => i < self.entries.len() && self.entries[i as int].0@ == name@,
                None => forall|i: int| 0 <= i < self.entries.len() ==> self.entries[i].0@ != name@,
            },
    {
        let mut i: usize = 0;
        while i < self.entries.len()
            invariant
                i <= self.entries.len(),
                forall|j: int| 0 <= j < i ==> self.entries[j].0@ != name@,
            decreases self.entries.len() - i,
        {
            if self.entries[i].0 == *name {
                return Some(i);
            }
            i = i + 1;
        }
        None
    }

    /// Sets the field `key` to `value`, replacing what it held.
    pub fn insert(&mut self, key: String, value: PayloadValue)
        ensures
            final(self)@ == old(self)@.insert(key@, value@),
    {
        proof {
            use_type_invariant(&*self);
        }
        let found = self.position(&key);
        let ghost before = self.entries@;
        let mut entries: Vec<(String, PayloadValue)> = Vec::new();
        std::mem::swap(&mut self.entries, &mut entries);
        match found {
            Some(i) => {
                proof {
                    lemma_entries_model_update(before, i as int, (key, value));
                }
                entries.set(i, (key, value));
            },
            None => {
                assert(before.push((key, value)).drop_last() =~= before);
                entries.push((key, value));
            },
        }
        self.entries = entries;
    }

    /// The value of the field `key`, if the payload has that field.
    pub fn get(&self, key: &str) -> (value: Option<&PayloadValue>)
        ensures
            match value {
                Some(v) => self@.contains_key(key@) && self@[key@] == v@,
                None => !self@.contains_key(key@),
            },
    {
        proof {
            use_type_invariant(self);
            lemma_entries_model_domain(self.entries@, key@);
        }
        let name: String = key.to_owned();
        match self.position(&name) {
            Some(i) => {
                proof {
                    lemma_entries_model_value(self.entries@, i as int);
                }
                Some(&self.entries[i].1)
            },
            None => None,
        }
    }

    /// The fields, one entry each.
    pub fn entries(&self) -> (entries: &Vec<(String, PayloadValue)>)
        ensures
            distinct_names(entries@),
            entries_model(entries@) == self@,
    {
        proof {
            use_type_invariant(self);
        }
        &self.entries
    }
}

} // verus!
