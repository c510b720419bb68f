//! Header fields: a finite map from names to values that remembers the order
//! in which the names first came.

use crate::text::same;
use vstd::prelude::*;
use vstd::string::*;

verus! {

/// A header list as a sequence of (name, value) pairs.
pub type Fields = Seq<(Seq<char>, Seq<char>)>;

/// No name stands twice in `fields`.
pub open spec fn distinct_names(fields: Fields) -> bool {
    forall|i: int, j: int| 0 <= i < j < fields.len() ==> fields[i].0 != fields[j].0
}

/// The position of `name` in `fields`, if it is there.
pub open spec fn position(fields: Fields, name: Seq<char>) -> Option<int>
    decreases fields.len(),
{
    if fields.len() == 0 {
        None
    } else if fields.last().0 == name {
        Some(fields.len() - 1)
    } else {
        position(fields.drop_last(), name)
    }
}

/// The value that `fields` holds for `name`.
pub open spec fn lookup(fields: Fields, name: Seq<char>) -> Option<Seq<char>> {
    match position(fields, name) {
        Some(i) => Some(fields[i].1),
        None => None,
    }
}

/// `fields` after `name` was given the value `value`: a name that is there
/// keeps its place and takes the new value, a new one goes to the end.
pub open spec fn put(fields: Fields, name: Seq<char>, value: Seq<char>) -> Fields {
    match position(fields, name) {
        Some(i) => fields.update(i, (name, value)),
        None => fields.push((name, value)),
    }
}

/// What `position` reports is a place where the name stands, and where it
/// reports nothing the name stands nowhere.
pub proof fn lemma_position(fields: Fields, name: Seq<char>)
    ensures
        match position(fields, name) {
            Some(i) => 0 <= i < fields.len() && fields[i].0 == name,
            None => forall|j: int| 0 <= j < fields.len() ==> fields[j].0 != name,
        },
    decreases fields.len(),
{
    if fields.len() > 0 && fields.last().0 != name {
        let front = fields.drop_last();
        lemma_position(front, name);
        assert forall|j: int| 0 <= j < front.len() implies front[j] == fields[j] by {}
    }
}

/// In a list without repeated names, the place of a name is the place that
/// `position` reports.
pub proof fn lemma_position_at(fields: Fields, i: int)
    requires
        distinct_names(fields),
        0 <= i < fields.len(),
    ensures
        position(fields, fields[i].0) == Some(i),
    decreases fields.len(),
{
    if i < fields.len() - 1 {
        let front = fields.drop_last();
        assert(fields.last().0 != fields[i].0);
        assert(front[i] == fields[i]);
        lemma_position_at(front, i);
    }
}

/// Giving a name a value leaves no name twice.
pub proof fn lemma_put_distinct(fields: Fields, name: Seq<char>, value: Seq<char>)
    requires
        distinct_names(fields),
    ensures
        distinct_names(put(fields, name, value)),
{
    lemma_position(fields, name);
}

/// A header list is a map: a name holds the value it was last given, and
/// giving one name a value changes the value of no other.
pub proof fn lemma_lookup_put(
    fields: Fields,
    name: Seq<char>,
    value: Seq<char>,
    other: Seq<char>,
)
    requires
        distinct_names(fields),
    ensures
        lookup(put(fields, name, value), name) == Some(value),
        other != name ==> lookup(put(fields, name, value), other) == lookup(fields, other),
{
    let after = put(fields, name, value);
    lemma_position(fields, name);
    lemma_put_distinct(fields, name, value);
    match position(fields, name) {
        Some(i) => {
            lemma_position_at(after, i);
        },
        None => {
            lemma_position_at(after, fields.len() as int);
        },
    }
    if other != name {
        lemma_position(fields, other);
        lemma_position(after, other);
        match position(fields, other) {
            Some(j) => {
                assert(after[j] == fields[j]);
                lemma_position_at(after, j);
            },
            None => {
                if position(after, other) is Some {
                    let j = position(after, other)->0;
                    assert(after[j].0 == other);
                    if j < fields.len() {
                        assert(fields[j].0 == other);
                    }
                }
            },
        }
    }
}

/// Header fields, each name at most once, in the order in which the names
/// were first inserted.
pub struct Headers {
    entries: Vec<(String, String)>,
}

/// The names and values of stored entries, as sequences of characters.
spec fn fields_of(entries: Seq<(String, String)>) -> Fields {
    Seq::new(entries.len(), |i: int| (entries[i].0@, entries[i].1@))
}

impl View for Headers {
    type V = Fields;

    closed spec fn view(&self) -> Fields {
        fields_of(self.entries@)
    }
}

impl Headers {
    #[verifier::type_invariant]
    spec fn names_are_distinct(&self) -> bool {
        distinct_names(self@)
    }

    /// The empty header list.
    pub fn new() -> (h: Headers)
        ensures
            h@ == Fields::empty(),
    {
        let h = Headers { entries: Vec::new() };
        assert(h@ =~= Fields::empty());
        h
    }

    /// The number of fields. No name stands twice among them.
    pub fn len(&self) -> (n: usize)
        ensures
            n == self@.len(),
            distinct_names(self@),
    {
        proof {
            use_type_invariant(self);
        }
        self.entries.len()
    }

    /// The name of the field at position `i`.
    pub fn name_at(&self, i: usize) -> (name: &str)
        requires
            i < self@.len(),
        ensures
            name@ == self@[i as int].0,
    {
        self.entries[i].0.as_str()
    }

    /// The value of the field at position `i`.
    pub fn value_at(&self, i: usize) -> (value: &str)
        requires
            i < self@.len(),
        ensures
            value@ == self@[i as int].1,
    {
        self.entries[i].1.as_str()
    }

    /// The position at which `name` stands.
    fn find(&self, name: &str) -> (r: Option<usize>)
        ensures
            match r {
                Some(i) => i < self@.len() && position(self@, name@) == Some(i as int),
                None => position(self@, name@) is None,
            },
    {
        proof {
            use_type_invariant(self);
            lemma_position(self@, name@);
        }
        let n: usize = self.entries.len();
        let mut i: usize = 0;
        while i < n
            invariant
                n == self@.len(),
                n == self.entries@.len(),
                i <= n,
                distinct_names(self@),
                forall|j: int| 0 <= j < i ==> self@[j].0 != name@,
            decreases n - i,
        {
            if same(self.entries[i].0.as_str(), name) {
                proof {
                    lemma_position_at(self@, i as int);
                }
                return Some(i);
            }
            i += 1;
        }
        None
    }

    /// The value held for `name`, if there is one.
    pub fn get(&self, name: &str) -> (r: Option<&str>)
        ensures
            match lookup(self@, name@) {
                Some(v) => r is Some && r->0@ == v,
                None => r is None,
            },
    {
        proof {
            lemma_position(self@, name@);
        }
        match self.find(name) {
            Some(i) => {
                let value: &str = self.value_at(i);
                Some(value)
            },
            None => None,
        }
    }

    /// Gives `name` the value `value`. A name that is there keeps its place.
    pub fn insert(&mut self, name: String, value: String)
        ensures
            final(self)@ == put(old(self)@, name@, value@),
            distinct_names(final(self)@),
    {
        proof {
            use_type_invariant(&*self);
            lemma_position(self@, name@);
        }
        let ghost before = self@;
        let found: Option<usize> = self.find(name.as_str());
        let mut taken = Headers { entries: Vec::new() };
        assert(taken@ =~= Fields::empty());
        std::mem::swap(self, &mut taken);
        let mut entries: Vec<(String, String)> = taken.entries;
        match found {
            Some(i) => {
                entries.set(i, (name, value));
            },
            None => {
                entries.push((name, value));
            },
        }
        proof {
            assert(fields_of(entries@) =~= put(before, name@, value@));
            lemma_put_distinct(before, name@, value@);
        }
        *self = Headers { entries };
    }
}

} // verus!
