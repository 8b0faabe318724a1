//! Finding the requested entry in a vault tree and choosing what to export
//! from it.

use vstd::prelude::*;

use crate::text::{
    eq_ignore_ascii_case, eq_ignoring_ascii_case, lemma_eq_ignoring_ascii_case_char_by_char,
    same_char_ignoring_ascii_case, same_text,
};
use crate::vault::{distinct_names, lemma_lookup_unique, all_entries, collect_all_entries, derefs, exposed, lookup, title_of, Entry, Field, Group};
use vstd::string::*;

verus! {

/// One exported field: its name and its text.
pub struct ExportItem {
    pub name: String,
    pub value: String,
}

impl View for ExportItem {
    type V = (Seq<char>, Seq<char>);

    open spec fn view(&self) -> (Seq<char>, Seq<char>) {
        (self.name@, self.value@)
    }
}

/// The (name, text) pairs of a sequence of export items.
pub open spec fn items_view(s: Seq<ExportItem>) -> Seq<(Seq<char>, Seq<char>)> {
    s.map_values(|x: ExportItem| x@)
}

/// The texts of a sequence of strings.
pub open spec fn strings_view(s: Seq<String>) -> Seq<Seq<char>> {
    s.map_values(|x: String| x@)
}

/// Whether `n` names one of the standard fields (Title, UserName, Password,
/// URL, Notes, UUID, TOTP, Tags, Uuid), ignoring ASCII case.
pub open spec fn is_default_field_name(n: Seq<char>) -> bool {
    ||| eq_ignoring_ascii_case(n, "Title"@)
    ||| eq_ignoring_ascii_case(n, "UserName"@)
    ||| eq_ignoring_ascii_case(n, "Password"@)
    ||| eq_ignoring_ascii_case(n, "URL"@)
    ||| eq_ignoring_ascii_case(n, "Notes"@)
    ||| eq_ignoring_ascii_case(n, "UUID"@)
    ||| eq_ignoring_ascii_case(n, "TOTP"@)
    ||| eq_ignoring_ascii_case(n, "Tags"@)
    ||| eq_ignoring_ascii_case(n, "Uuid"@)
}

/// Whether `name` names one of the standard fields, ignoring ASCII case.
pub fn is_default_field(name: &str) -> (res: bool)
    ensures
        res == is_default_field_name(name@),
{
    eq_ignore_ascii_case(name, "Title") || eq_ignore_ascii_case(name, "UserName")
        || eq_ignore_ascii_case(name, "Password") || eq_ignore_ascii_case(name, "URL")
        || eq_ignore_ascii_case(name, "Notes") || eq_ignore_ascii_case(name, "UUID")
        || eq_ignore_ascii_case(name, "TOTP") || eq_ignore_ascii_case(name, "Tags")
        || eq_ignore_ascii_case(name, "Uuid")
}

/// Whether `n` has the length of `d` and matches it position by position up
/// to the case of ASCII letters.
pub open spec fn matches_ignoring_ascii_case(n: Seq<char>, d: Seq<char>) -> bool {
    n.len() == d.len() && forall|i: int|
        0 <= i < n.len() ==> same_char_ignoring_ascii_case(#[trigger] n[i], d[i])
}

/// A name is standard exactly when, as a whole, it matches one of Title,
/// UserName, Password, URL, Notes, UUID, TOTP, Tags or Uuid up to the case of
/// ASCII letters; so a standard name has 3, 4, 5 or 8 characters and a longer
/// name, such as one that merely ends with a standard name, never is.
pub proof fn lemma_default_names_are_whole_names(n: Seq<char>)
    ensures
        is_default_field_name(n) <==> {
            ||| matches_ignoring_ascii_case(n, "Title"@)
            ||| matches_ignoring_ascii_case(n, "UserName"@)
            ||| matches_ignoring_ascii_case(n, "Password"@)
            ||| matches_ignoring_ascii_case(n, "URL"@)
            ||| matches_ignoring_ascii_case(n, "Notes"@)
            ||| matches_ignoring_ascii_case(n, "UUID"@)
            ||| matches_ignoring_ascii_case(n, "TOTP"@)
            ||| matches_ignoring_ascii_case(n, "Tags"@)
            ||| matches_ignoring_ascii_case(n, "Uuid"@)
        },
        is_default_field_name(n) ==> n.len() == 3 || n.len() == 4 || n.len() == 5 || n.len()
            == 8,
{
    reveal_strlit("Title");
    reveal_strlit("UserName");
    reveal_strlit("Password");
    reveal_strlit("URL");
    reveal_strlit("Notes");
    reveal_strlit("UUID");
    reveal_strlit("TOTP");
    reveal_strlit("Tags");
    reveal_strlit("Uuid");
    lemma_eq_ignoring_ascii_case_char_by_char(n, "Title"@);
    lemma_eq_ignoring_ascii_case_char_by_char(n, "UserName"@);
    lemma_eq_ignoring_ascii_case_char_by_char(n, "Password"@);
    lemma_eq_ignoring_ascii_case_char_by_char(n, "URL"@);
    lemma_eq_ignoring_ascii_case_char_by_char(n, "Notes"@);
    lemma_eq_ignoring_ascii_case_char_by_char(n, "UUID"@);
    lemma_eq_ignoring_ascii_case_char_by_char(n, "TOTP"@);
    lemma_eq_ignoring_ascii_case_char_by_char(n, "Tags"@);
    lemma_eq_ignoring_ascii_case_char_by_char(n, "Uuid"@);
}

/// Whether field `f` is exported when no single field is asked for.
pub open spec fn is_exported(f: Field, exclude_defaults: bool) -> bool {
    !exclude_defaults || !is_default_field_name(f.name@)
}

/// The (name, text) pair of a field; protected text is exported as it is.
pub open spec fn as_item(f: Field) -> (Seq<char>, Seq<char>) {
    (f.name@, exposed(f.value))
}

/// The fields exported when no single field is asked for, in order.
pub open spec fn exported_fields(fields: Seq<Field>, exclude_defaults: bool) -> Seq<
    (Seq<char>, Seq<char>),
> {
    fields.filter(export_filter(exclude_defaults)).map_values(|f: Field| as_item(f))
}

/// `is_exported` as a predicate on fields.
pub open spec fn export_filter(exclude_defaults: bool) -> spec_fn(Field) -> bool {
    |f: Field| is_exported(f, exclude_defaults)
}

/// Every field of the entry, except the standard ones when
/// `exclude_defaults` is set, as (name, text) pairs in order.
pub fn select_fields(entry: &Entry, exclude_defaults: bool) -> (res: Vec<ExportItem>)
    ensures
        items_view(res@) == exported_fields(entry.fields@, exclude_defaults),
{
    let mut res: Vec<ExportItem> = Vec::new();
    let mut i: usize = 0;
    while i < entry.fields.len()
        invariant
            i <= entry.fields@.len(),
            items_view(res@) == exported_fields(entry.fields@.take(i as int), exclude_defaults),
        decreases entry.fields@.len() - i,
    {
        let f = &entry.fields[i];
        let ghost before = res@;
        let ghost t = entry.fields@.take(i + 1);
        proof {
            assert(t.drop_last() == entry.fields@.take(i as int));
            assert(t.last() == entry.fields@[i as int]);
        }
        if !exclude_defaults || !is_default_field(f.name.as_str()) {
            res.push(ExportItem { name: f.name.clone(), value: String::from_str(f.value.as_str()) });
            proof {
                assert(items_view(res@) =~= items_view(before).push(as_item(*f)));
            }
        }
        proof {
            reveal(Seq::filter);
            let p = export_filter(exclude_defaults);
            assert(t.filter(p) == if p(t.last()) {
                t.drop_last().filter(p).push(t.last())
            } else {
                t.drop_last().filter(p)
            });
            assert(items_view(res@) =~= exported_fields(t, exclude_defaults));
        }
        i = i + 1;
    }
    proof {
        assert(entry.fields@.take(entry.fields@.len() as int) == entry.fields@);
    }
    res
}

/// With the standard fields excluded, no exported name is a standard field
/// name, and every field whose name is not one is exported.
pub proof fn lemma_excluded_fields(fields: Seq<Field>)
    ensures
        forall|i: int|
            0 <= i < exported_fields(fields, true).len() ==> !is_default_field_name(
                #[trigger] exported_fields(fields, true)[i].0,
            ),
        forall|i: int|
            0 <= i < fields.len() && !is_default_field_name(fields[i].name@) ==> exported_fields(
                fields,
                true,
            ).contains(#[trigger] as_item(fields[i])),
{
    let p = export_filter(true);
    let kept = fields.filter(p);
    assert forall|i: int|
        0 <= i < exported_fields(fields, true).len() implies !is_default_field_name(
        #[trigger] exported_fields(fields, true)[i].0,
    ) by {
        fields.lemma_filter_pred(p, i);
        assert(exported_fields(fields, true)[i] == as_item(kept[i]));
    }
    assert forall|i: int|
        0 <= i < fields.len() && !is_default_field_name(fields[i].name@) implies exported_fields(
        fields,
        true,
    ).contains(#[trigger] as_item(fields[i])) by {
        fields.lemma_filter_contains(p, i);
        let j = choose|j: int| 0 <= j < kept.len() && kept[j] == fields[i];
        assert(exported_fields(fields, true)[j] == as_item(fields[i]));
    }
}

proof fn lemma_keep_all(fields: Seq<Field>)
    ensures
        fields.filter(export_filter(false)) == fields,
    decreases fields.len(),
{
    reveal(Seq::filter);
    if fields.len() > 0 {
        lemma_keep_all(fields.drop_last());
        assert(fields.drop_last().push(fields.last()) =~= fields);
    }
}

/// Without exclusion every field is exported, in order.
pub proof fn lemma_all_fields_exported(fields: Seq<Field>)
    ensures
        exported_fields(fields, false) == fields.map_values(|f: Field| as_item(f)),
{
    lemma_keep_all(fields);
}

/// Whether the title of `e` is `name`.
pub open spec fn has_title(e: Entry, name: Seq<char>) -> bool {
    title_of(e) == Some(name)
}

/// The entries of `s` whose title is `name`, in order.
pub open spec fn entries_titled(s: Seq<Entry>, name: Seq<char>) -> Seq<Entry> {
    s.filter(title_filter(name))
}

/// `has_title` as a predicate on entries.
pub open spec fn title_filter(name: Seq<char>) -> spec_fn(Entry) -> bool {
    |e: Entry| has_title(e, name)
}

/// The entries selected for a name are exactly those whose title is that
/// name, character for character, in their original order: each selected
/// entry has that title, and every entry with that title is selected.
pub proof fn lemma_matches_have_exact_title(s: Seq<Entry>, name: Seq<char>)
    ensures
        entries_titled(s, name) == s.filter(|e: Entry| title_of(e) == Some(name)),
        forall|i: int|
            0 <= i < entries_titled(s, name).len() ==> title_of(#[trigger] entries_titled(s, name)[i])
                == Some(name),
        forall|i: int|
            0 <= i < s.len() && title_of(s[i]) == Some(name) ==> entries_titled(s, name).contains(
                #[trigger] s[i],
            ),
{
    let p = |e: Entry| title_of(e) == Some(name);
    assert(title_filter(name) =~= p);
    assert forall|i: int|
        0 <= i < entries_titled(s, name).len() implies title_of(
        #[trigger] entries_titled(s, name)[i],
    ) == Some(name) by {
        s.lemma_filter_pred(p, i);
    }
    assert forall|i: int|
        0 <= i < s.len() && title_of(s[i]) == Some(name) implies entries_titled(s, name).contains(
        #[trigger] s[i],
    ) by {
        s.lemma_filter_contains(p, i);
    }
}

/// The entries whose title is `name`, in the order given.
pub fn find_matches<'a>(entries: &Vec<&'a Entry>, name: &str) -> (res: Vec<&'a Entry>)
    ensures
        derefs(res@) == entries_titled(derefs(entries@), name@),
{
    let mut res: Vec<&'a Entry> = Vec::new();
    let mut i: usize = 0;
    while i < entries.len()
        invariant
            i <= entries@.len(),
            derefs(res@) == entries_titled(derefs(entries@.take(i as int)), name@),
        decreases entries@.len() - i,
    {
        let e = entries[i];
        let ghost before = res@;
        let ghost t = derefs(entries@.take(i + 1));
        proof {
            assert(t.drop_last() =~= derefs(entries@.take(i as int)));
            assert(t.last() == *entries@[i as int]);
        }
        let found = match e.get_title() {
            Some(title) => same_text(title, name),
            None => false,
        };
        if found {
            res.push(e);
            proof {
                assert(derefs(res@) =~= derefs(before).push(*e));
            }
        }
        proof {
            reveal(Seq::filter);
            let p = title_filter(name@);
            assert(t.filter(p) == if p(t.last()) {
                t.drop_last().filter(p).push(t.last())
            } else {
                t.drop_last().filter(p)
            });
            assert(derefs(res@) =~= entries_titled(t, name@));
        }
        i = i + 1;
    }
    proof {
        assert(entries@.take(entries@.len() as int) == entries@);
    }
    res
}

/// How an entry is listed: its title, or `(No Title)` when it has none.
pub open spec fn listed_title(e: Entry) -> Seq<char> {
    match title_of(e) {
        Some(t) => t,
        None => "(No Title)"@,
    }
}

/// The listing of the first `limit` entries of `s` (all of them when there
/// are fewer).
pub open spec fn listing(s: Seq<Entry>, limit: nat) -> Seq<Seq<char>> {
    let n = if s.len() < limit {
        s.len()
    } else {
        limit
    };
    s.take(n as int).map_values(|e: Entry| listed_title(e))
}

/// The titles of the first `limit` entries, `(No Title)` standing for a
/// missing one.
pub fn available_titles(entries: &Vec<&Entry>, limit: usize) -> (res: Vec<String>)
    ensures
        strings_view(res@) == listing(derefs(entries@), limit as nat),
{
    let n = if entries.len() < limit {
        entries.len()
    } else {
        limit
    };
    let mut res: Vec<String> = Vec::new();
    let mut i: usize = 0;
    while i < n
        invariant
            n <= entries@.len(),
            n == (if entries@.len() < limit { entries@.len() } else { limit as nat }),
            i <= n,
            strings_view(res@) == derefs(entries@).take(i as int).map_values(
                |e: Entry| listed_title(e),
            ),
        decreases n - i,
    {
        let e = entries[i];
        let ghost before = res@;
        let s = match e.get_title() {
            Some(t) => String::from_str(t),
            None => String::from_str("(No Title)"),
        };
        res.push(s);
        proof {
            assert(derefs(entries@).take(i + 1) =~= derefs(entries@).take(i as int).push(
                *entries@[i as int],
            ));
            assert(strings_view(res@) =~= strings_view(before).push(listed_title(*e)));
        }
        i = i + 1;
    }
    res
}


/// How many entries are listed when the requested one is not found.
pub const LISTING_LIMIT: usize = 25;

/// What the user asked for: the title of the entry, optionally one field of
/// it, and whether the standard fields are left out of a full export.
pub struct Request {
    pub entry: String,
    pub field: Option<String>,
    pub exclude_defaults: bool,
}

/// Why nothing can be exported.
pub enum ExtractError {
    /// No entry has the requested title; `available` lists the first
    /// entries of the vault.
    EntryNotFound { available: Vec<String> },
    /// The entry has no field of the requested name.
    FieldNotFound,
}

/// What is exported, and whether more than one entry had the requested
/// title (the first of them is the one exported).
pub struct Extraction {
    pub items: Vec<ExportItem>,
    pub has_duplicates: bool,
}

/// The (name, text) pairs exported from entry `e` for `req`, or `None` when
/// the single field asked for is missing.
pub open spec fn expected_items(e: Entry, req: Request) -> Option<Seq<(Seq<char>, Seq<char>)>> {
    match req.field {
        Some(f) => match lookup(e.fields@, f@) {
            Some(v) => Some(seq![(f@, v)]),
            None => None,
        },
        None => Some(exported_fields(e.fields@, req.exclude_defaults)),
    }
}

/// When a single field is asked for and the entry has a field of that name
/// with text `v` (whatever `v` is, the empty text included), that one pair is
/// exported; nothing is exported exactly when the entry has no field of that
/// name. Without a single field, the selected fields are exported.
pub proof fn lemma_requested_field(e: Entry, req: Request)
    requires
        distinct_names(e.fields@),
    ensures
        req.field matches Some(f) ==> (forall|i: int|
            0 <= i < e.fields@.len() && e.fields@[i].name@ == f@ ==> expected_items(e, req)
                == Some(seq![(f@, exposed(#[trigger] e.fields@[i].value))])),
        req.field matches Some(f) ==> (expected_items(e, req) is None <==> forall|i: int|
            0 <= i < e.fields@.len() ==> #[trigger] e.fields@[i].name@ != f@),
        req.field is None ==> expected_items(e, req) == Some(
            exported_fields(e.fields@, req.exclude_defaults),
        ),
{
    if let Some(f) = req.field {
        lemma_lookup_unique(e.fields@, f@);
    }
}

/// Looks up the entry that `request` names in the tree under `root` and
/// chooses what to export from it.
pub fn extract(root: &Group, request: &Request) -> (res: Result<Extraction, ExtractError>)
    ensures
        ({
            let all = all_entries(*root);
            let found = entries_titled(all, request.entry@);
            &&& (found.len() == 0 <==> res matches Err(ExtractError::EntryNotFound { .. }))
            &&& (res matches Err(ExtractError::EntryNotFound { available }) ==> strings_view(
                available@,
            ) == listing(all, LISTING_LIMIT as nat))
            &&& (found.len() > 0 ==> (expected_items(found[0], *request) is None <==> res matches Err(
                ExtractError::FieldNotFound,
            )))
            &&& (res matches Ok(x) ==> found.len() > 0 && expected_items(found[0], *request) == Some(
                items_view(x.items@),
            ) && x.has_duplicates == (found.len() > 1))
        }),
{
    let all = collect_all_entries(root);
    let found = find_matches(&all, request.entry.as_str());
    if found.len() == 0 {
        let available = available_titles(&all, LISTING_LIMIT);
        return Err(ExtractError::EntryNotFound { available });
    }
    let entry = found[0];
    let has_duplicates = found.len() > 1;
    proof {
        assert(derefs(found@)[0] == *entry);
    }
    match &request.field {
        Some(name) => {
            match entry.get(name.as_str()) {
                Some(v) => {
                    let mut items: Vec<ExportItem> = Vec::new();
                    items.push(ExportItem { name: name.clone(), value: String::from_str(v) });
                    proof {
                        assert(items_view(items@) =~= seq![(name@, v@)]);
                    }
                    Ok(Extraction { items, has_duplicates })
                },
                None => Err(ExtractError::FieldNotFound),
            }
        },
        None => {
            let items = select_fields(entry, request.exclude_defaults);
            Ok(Extraction { items, has_duplicates })
        },
    }
}


/// How a run ends; each outcome has its exit code.
pub enum Status {
    Success,
    DatabaseNotFound,
    EntryNotFound,
    DuplicateEntries,
    FieldNotFound,
}

/// The exit code of each outcome.
pub open spec fn status_code(s: Status) -> i32 {
    match s {
        Status::Success => 0,
        Status::DatabaseNotFound => 51,
        Status::EntryNotFound => 61,
        Status::DuplicateEntries => 62,
        Status::FieldNotFound => 71,
    }
}

impl Status {
    /// The exit code of this outcome.
    pub fn code(&self) -> (res: i32)
        ensures
            res == status_code(*self),
    {
        match self {
            Status::Success => 0,
            Status::DatabaseNotFound => 51,
            Status::EntryNotFound => 61,
            Status::DuplicateEntries => 62,
            Status::FieldNotFound => 71,
        }
    }
}

/// The outcome of a run that stopped because nothing could be exported.
pub fn failure_status(err: &ExtractError) -> (res: Status)
    ensures
        match err {
            ExtractError::EntryNotFound { .. } => res == Status::EntryNotFound,
            ExtractError::FieldNotFound => res == Status::FieldNotFound,
        },
{
    match err {
        ExtractError::EntryNotFound { .. } => Status::EntryNotFound,
        ExtractError::FieldNotFound => Status::FieldNotFound,
    }
}

/// The outcome of a run that exported `x`: duplicates of the requested
/// title are reported once the export is done.
pub fn completion_status(x: &Extraction) -> (res: Status)
    ensures
        res == (if x.has_duplicates {
            Status::DuplicateEntries
        } else {
            Status::Success
        }),
{
    if x.has_duplicates {
        Status::DuplicateEntries
    } else {
        Status::Success
    }
}

} // verus!
