//! The vault tree: groups that hold entries and subgroups, and entries that
//! hold named fields.

use vstd::prelude::*;

use crate::text::same_text;
use vstd::string::*;

verus! {

/// The value of an entry's field.
pub enum FieldValue {
    /// Text stored in the clear.
    Unprotected(String),
    /// Text stored in protected memory.
    Protected(String),
}

/// A named field of an entry.
pub struct Field {
    pub name: String,
    pub value: FieldValue,
}

/// An entry: a list of named fields.
pub struct Entry {
    pub fields: Vec<Field>,
}

/// A group: the entries directly under it and its subgroups.
pub struct Group {
    pub entries: Vec<Entry>,
    pub groups: Vec<Group>,
}

/// Every entry of `g`: first those directly under it, then those of each
/// subgroup in turn, depth first.
pub open spec fn all_entries(g: Group) -> Seq<Entry>
    decreases g,
{
    g.entries@ + all_entries_of(g.groups@)
}

/// The entries of each group of `gs`, one group after the other.
pub open spec fn all_entries_of(gs: Seq<Group>) -> Seq<Entry>
    decreases gs,
{
    if gs.len() == 0 {
        Seq::empty()
    } else {
        all_entries_of(gs.drop_last()) + all_entries(gs.last())
    }
}

proof fn lemma_all_entries_of_contains(gs: Seq<Group>, e: Entry)
    ensures
        all_entries_of(gs).contains(e) <==> exists|i: int|
            0 <= i < gs.len() && #[trigger] all_entries(gs[i]).contains(e),
    decreases gs.len(),
{
    if gs.len() > 0 {
        lemma_all_entries_of_contains(gs.drop_last(), e);
        let a = all_entries_of(gs.drop_last());
        let b = all_entries(gs.last());
        if (a + b).contains(e) {
            let j = choose|j: int| 0 <= j < (a + b).len() && (a + b)[j] == e;
            if j < a.len() {
                assert(a[j] == e);
                let i = choose|i: int|
                    0 <= i < gs.drop_last().len() && #[trigger] all_entries(gs.drop_last()[i]).contains(
                        e,
                    );
                assert(gs.drop_last()[i] == gs[i]);
            } else {
                assert(b[j - a.len()] == e);
                assert(all_entries(gs[gs.len() - 1]).contains(e));
            }
        }
        if exists|i: int| 0 <= i < gs.len() && #[trigger] all_entries(gs[i]).contains(e) {
            let i = choose|i: int| 0 <= i < gs.len() && #[trigger] all_entries(gs[i]).contains(e);
            if i < gs.len() - 1 {
                assert(gs.drop_last()[i] == gs[i]);
                assert(a.contains(e));
                let j = choose|j: int| 0 <= j < a.len() && a[j] == e;
                assert((a + b)[j] == e);
            } else {
                let j = choose|j: int| 0 <= j < b.len() && b[j] == e;
                assert((a + b)[a.len() + j] == e);
            }
        }
    }
}

/// An entry is found in a group exactly when it stands directly under the
/// group or is found in one of its subgroups, however deep.
pub proof fn lemma_all_entries_contains(g: Group, e: Entry)
    ensures
        all_entries(g).contains(e) <==> (g.entries@.contains(e) || exists|i: int|
            0 <= i < g.groups@.len() && #[trigger] all_entries(g.groups@[i]).contains(e)),
{
    lemma_all_entries_of_contains(g.groups@, e);
    let a = g.entries@;
    let b = all_entries_of(g.groups@);
    if (a + b).contains(e) {
        let j = choose|j: int| 0 <= j < (a + b).len() && (a + b)[j] == e;
        if j < a.len() {
            assert(a[j] == e);
        } else {
            assert(b[j - a.len()] == e);
        }
    }
    if a.contains(e) {
        let j = choose|j: int| 0 <= j < a.len() && a[j] == e;
        assert((a + b)[j] == e);
    }
    if b.contains(e) {
        let j = choose|j: int| 0 <= j < b.len() && b[j] == e;
        assert((a + b)[a.len() + j] == e);
    }
}

/// The text of a value, protected or not.
pub open spec fn exposed(v: FieldValue) -> Seq<char> {
    match v {
        FieldValue::Unprotected(s) => s@,
        FieldValue::Protected(s) => s@,
    }
}

/// A value's text is the string it holds, protected or not.
pub proof fn lemma_exposed_is_text(v: FieldValue)
    ensures
        match v {
            FieldValue::Unprotected(s) => exposed(v) == s@,
            FieldValue::Protected(s) => exposed(v) == s@,
        },
{
}

/// The text of the first field of `fields` named `key`, if there is one.
pub open spec fn lookup(fields: Seq<Field>, key: Seq<char>) -> Option<Seq<char>>
    decreases fields.len(),
{
    if fields.len() == 0 {
        None
    } else if fields[0].name@ == key {
        Some(exposed(fields[0].value))
    } else {
        lookup(fields.drop_first(), key)
    }
}

/// The title of an entry: the text of its `Title` field.
pub open spec fn title_of(e: Entry) -> Option<Seq<char>> {
    lookup(e.fields@, "Title"@)
}

impl FieldValue {
    /// The text of the value, protected or not.
    pub fn as_str(&self) -> (res: &str)
        ensures
            res@ == exposed(*self),
    {
        match self {
            FieldValue::Unprotected(s) => s.as_str(),
            FieldValue::Protected(s) => s.as_str(),
        }
    }
}

/// Whether the names of the fields are pairwise distinct, as the keys of a
/// map are; the fields of an entry read from a database always are.
pub open spec fn distinct_names(fields: Seq<Field>) -> bool {
    forall|i: int, j: int|
        0 <= i < fields.len() && 0 <= j < fields.len() && i != j ==> fields[i].name@
            != fields[j].name@
}

/// When field names are distinct, looking up a name gives the text of the
/// one field of that name, and nothing when no field has it.
pub proof fn lemma_lookup_unique(fields: Seq<Field>, key: Seq<char>)
    requires
        distinct_names(fields),
    ensures
        forall|i: int|
            0 <= i < fields.len() && fields[i].name@ == key ==> lookup(fields, key) == Some(
                exposed(#[trigger] fields[i].value),
            ),
        lookup(fields, key) is None <==> forall|i: int|
            0 <= i < fields.len() ==> #[trigger] fields[i].name@ != key,
    decreases fields.len(),
{
    if fields.len() > 0 {
        let rest = fields.drop_first();
        assert forall|i: int, j: int|
            0 <= i < rest.len() && 0 <= j < rest.len() && i != j implies rest[i].name@
            != rest[j].name@ by {
            assert(rest[i] == fields[i + 1]);
            assert(rest[j] == fields[j + 1]);
        }
        lemma_lookup_unique(rest, key);
        assert forall|i: int|
            0 <= i < fields.len() && fields[i].name@ == key implies lookup(fields, key) == Some(
            exposed(#[trigger] fields[i].value),
        ) by {
            if i > 0 {
                assert(fields[0].name@ != fields[i].name@);
                assert(rest[i - 1] == fields[i]);
            }
        }
        if lookup(fields, key) is None {
            assert forall|i: int| 0 <= i < fields.len() implies #[trigger] fields[i].name@ != key by {
                if i > 0 {
                    assert(rest[i - 1] == fields[i]);
                }
            }
        }
        if forall|i: int| 0 <= i < fields.len() ==> #[trigger] fields[i].name@ != key {
            assert(fields[0].name@ != key);
            assert forall|i: int| 0 <= i < rest.len() implies #[trigger] rest[i].name@ != key by {
                assert(rest[i] == fields[i + 1]);
            }
        }
    }
}

/// The title of an entry whose field names are distinct is the text of its
/// field named exactly `Title`, and it has none when no field has that name.
pub proof fn lemma_title_is_title_field(e: Entry)
    requires
        distinct_names(e.fields@),
    ensures
        forall|i: int|
            0 <= i < e.fields@.len() && e.fields@[i].name@ == seq!['T', 'i', 't', 'l', 'e']
                ==> title_of(e) == Some(exposed(#[trigger] e.fields@[i].value)),
        title_of(e) is None <==> forall|i: int|
            0 <= i < e.fields@.len() ==> #[trigger] e.fields@[i].name@ != seq!['T', 'i', 't', 'l', 'e'],
{
    reveal_strlit("Title");
    assert("Title"@ =~= seq!['T', 'i', 't', 'l', 'e']);
    lemma_lookup_unique(e.fields@, "Title"@);
}

impl Entry {
    /// Get a field by name, taking care of unprotecting Protected values
    /// automatically.
    pub fn get(&self, key: &str) -> (res: Option<&str>)
        ensures
            match res {
                Some(v) => lookup(self.fields@, key@) == Some(v@),
                None => lookup(self.fields@, key@) is None,
            },
    {
        let mut i: usize = 0;
        proof {
            assert(self.fields@.skip(0) == self.fields@);
        }
        while i < self.fields.len()
            invariant
                i <= self.fields@.len(),
                lookup(self.fields@, key@) == lookup(self.fields@.skip(i as int), key@),
            decreases self.fields@.len() - i,
        {
            let f = &self.fields[i];
            proof {
                assert(self.fields@.skip(i as int)[0] == self.fields@[i as int]);
                assert(self.fields@.skip(i as int).drop_first() == self.fields@.skip(i + 1));
            }
            if same_text(f.name.as_str(), key) {
                return Some(f.value.as_str());
            }
            i = i + 1;
        }
        None
    }

    /// Convenience method for getting the value of the 'Title' field.
    pub fn get_title(&self) -> (res: Option<&str>)
        ensures
            match res {
                Some(v) => title_of(*self) == Some(v@),
                None => title_of(*self) is None,
            },
    {
        self.get("Title")
    }
}

/// The entries that a sequence of references points to.
pub open spec fn derefs(s: Seq<&Entry>) -> Seq<Entry> {
    s.map_values(|e: &Entry| *e)
}

/// Recursive helper to flatten all entries into one list.
pub fn collect_all_entries(group: &Group) -> (res: Vec<&Entry>)
    ensures
        derefs(res@) == all_entries(*group),
    decreases group,
{
    let mut entries: Vec<&Entry> = Vec::new();
    let mut i: usize = 0;
    while i < group.entries.len()
        invariant
            i <= group.entries@.len(),
            derefs(entries@) == group.entries@.take(i as int),
        decreases group.entries@.len() - i,
    {
        entries.push(&group.entries[i]);
        proof {
            assert(group.entries@.take(i + 1) == group.entries@.take(i as int).push(
                group.entries@[i as int],
            ));
            assert(derefs(entries@) =~= group.entries@.take(i + 1));
        }
        i = i + 1;
    }
    proof {
        assert(group.entries@.take(group.entries@.len() as int) == group.entries@);
    }
    let mut j: usize = 0;
    while j < group.groups.len()
        invariant
            j <= group.groups@.len(),
            derefs(entries@) == group.entries@ + all_entries_of(group.groups@.take(j as int)),
        decreases group.groups@.len() - j,
    {
        let sub = &group.groups[j];
        let mut sub_entries = collect_all_entries(sub);
        let ghost before = entries@;
        entries.append(&mut sub_entries);
        proof {
            let t = group.groups@.take(j + 1);
            assert(t.drop_last() == group.groups@.take(j as int));
            assert(t.last() == group.groups@[j as int]);
            assert(derefs(entries@) =~= derefs(before) + all_entries(group.groups@[j as int]));
        }
        j = j + 1;
    }
    proof {
        assert(group.groups@.take(group.groups@.len() as int) == group.groups@);
    }
    entries
}

} // verus!
