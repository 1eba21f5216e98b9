//! Decoding stored activity records (the notes stream) field by field, with
//! the error message of the first field that has the wrong shape.
//!
//! A record arrives as its fields; each value carries the text the database
//! client shows for it, which error messages quote. A record id given as text
//! is handed on as text, for the database client to parse.

use vstd::prelude::*;

use crate::text::owned;

verus! {

broadcast use vstd::string::group_string_axioms;

/// A record id as the database gives it.
#[derive(Debug, Clone, PartialEq, Eq)]
pub struct RecordId {
    pub table: String,
    pub key: String,
}

/// The value of one field, as far as decoding reads it.
#[derive(Debug)]
pub enum FieldValue {
    /// A string.
    Text(String),
    /// `NONE` or `NULL`.
    Null,
    /// A record id.
    Record(RecordId),
    /// An array, item by item.
    List(Vec<ListItem>),
    /// Any other value.
    Other,
}

/// One item of an array field.
#[derive(Debug)]
pub enum ListItem {
    Text(String),
    Null,
    /// Any other value, with the text the database client shows for it.
    Other(String),
}

/// One field of a record: its name, its value, and the text the database
/// client shows for the value.
#[derive(Debug)]
pub struct Field {
    pub name: String,
    pub value: FieldValue,
    pub shown: String,
}

/// A stored value that should be an activity record.
#[derive(Debug)]
pub enum StoredValue {
    /// An object with these fields (a later field of a name replaces an earlier one).
    Object(Vec<Field>),
    /// Anything else, with the text the database client shows for it.
    NotAnObject(String),
}

/// The id of a decoded activity.
#[derive(Debug, Clone, PartialEq, Eq)]
pub enum ActivityId {
    /// The record has no id.
    Absent,
    /// A record id.
    Record(RecordId),
    /// A record id written as text, still to be parsed by the database client.
    Text(String),
}

/// A decoded activity.
#[derive(Debug, Clone, PartialEq, Eq)]
pub struct DecodedActivity {
    pub id: ActivityId,
    pub content: String,
    pub tags: Vec<String>,
    pub source: Option<String>,
    pub created_at: String,
}

// ---------------------------------------------------------------------------
// Views
// ---------------------------------------------------------------------------

pub enum ListItemView {
    Text(Seq<char>),
    Null,
    Other(Seq<char>),
}

pub enum FieldValueView {
    Text(Seq<char>),
    Null,
    Record(Seq<char>, Seq<char>),
    List(Seq<ListItemView>),
    Other,
}

pub open spec fn list_item_view(i: ListItem) -> ListItemView {
    match i {
        ListItem::Text(s) => ListItemView::Text(s@),
        ListItem::Null => ListItemView::Null,
        ListItem::Other(s) => ListItemView::Other(s@),
    }
}

pub open spec fn field_value_view(v: FieldValue) -> FieldValueView {
    match v {
        FieldValue::Text(s) => FieldValueView::Text(s@),
        FieldValue::Null => FieldValueView::Null,
        FieldValue::Record(r) => FieldValueView::Record(r.table@, r.key@),
        FieldValue::List(items) => FieldValueView::List(
            items@.map_values(|i: ListItem| list_item_view(i)),
        ),
        FieldValue::Other => FieldValueView::Other,
    }
}

/// A field as (name, value, shown text).
pub open spec fn field_view(f: Field) -> (Seq<char>, FieldValueView, Seq<char>) {
    (f.name@, field_value_view(f.value), f.shown@)
}

pub open spec fn fields_view(fields: Seq<Field>) -> Seq<(Seq<char>, FieldValueView, Seq<char>)> {
    fields.map_values(|f: Field| field_view(f))
}

pub enum ActivityIdView {
    Absent,
    Record(Seq<char>, Seq<char>),
    Text(Seq<char>),
}

pub struct ActivityView {
    pub id: ActivityIdView,
    pub content: Seq<char>,
    pub tags: Seq<Seq<char>>,
    pub source: Option<Seq<char>>,
    pub created_at: Seq<char>,
}

pub open spec fn id_view(id: ActivityId) -> ActivityIdView {
    match id {
        ActivityId::Absent => ActivityIdView::Absent,
        ActivityId::Record(r) => ActivityIdView::Record(r.table@, r.key@),
        ActivityId::Text(s) => ActivityIdView::Text(s@),
    }
}

pub open spec fn activity_view(a: DecodedActivity) -> ActivityView {
    ActivityView {
        id: id_view(a.id),
        content: a.content@,
        tags: crate::api::strings_view(a.tags@),
        source: a.source.deep_view(),
        created_at: a.created_at@,
    }
}

// ---------------------------------------------------------------------------
// Decoding
// ---------------------------------------------------------------------------

/// The value and shown text of field `name`: that of its last occurrence.
pub open spec fn field_named(fields: Seq<(Seq<char>, FieldValueView, Seq<char>)>, name: Seq<char>) -> Option<
    (FieldValueView, Seq<char>),
>
    decreases fields.len(),
{
    if fields.len() == 0 {
        None
    } else if fields.last().0 == name {
        Some((fields.last().1, fields.last().2))
    } else {
        field_named(fields.drop_last(), name)
    }
}

/// `prefix'name' but found shown`.
pub open spec fn shape_error(prefix: Seq<char>, name: Seq<char>, shown: Seq<char>) -> Seq<char> {
    prefix + name + "' but found "@ + shown
}

/// A string field: present as a string, absent, or of the wrong shape.
pub open spec fn string_field(f: Option<(FieldValueView, Seq<char>)>, name: Seq<char>, prefix: Seq<char>) -> Result<
    Option<Seq<char>>,
    Seq<char>,
> {
    match f {
        None => Ok(None),
        Some((v, shown)) => match v {
            FieldValueView::Text(s) => Ok(Some(s)),
            FieldValueView::Null => Ok(None),
            _ => Err(shape_error(prefix, name, shown)),
        },
    }
}

/// The items of an array field: strings as they are, nulls as empty strings;
/// the first item of another shape is an error.
pub open spec fn list_strings(items: Seq<ListItemView>, name: Seq<char>) -> Result<Seq<Seq<char>>, Seq<char>>
    decreases items.len(),
{
    if items.len() == 0 {
        Ok(Seq::empty())
    } else {
        match list_strings(items.drop_last(), name) {
            Err(e) => Err(e),
            Ok(done) => match items.last() {
                ListItemView::Text(s) => Ok(done.push(s)),
                ListItemView::Null => Ok(done.push(Seq::empty())),
                ListItemView::Other(shown) => Err(
                    shape_error("Expected string inside array field '"@, name, shown),
                ),
            },
        }
    }
}

/// A field holding an array of strings (empty when absent or null).
pub open spec fn list_field(f: Option<(FieldValueView, Seq<char>)>, name: Seq<char>) -> Result<
    Seq<Seq<char>>,
    Seq<char>,
> {
    match f {
        None => Ok(Seq::empty()),
        Some((v, shown)) => match v {
            FieldValueView::List(items) => list_strings(items, name),
            FieldValueView::Null => Ok(Seq::empty()),
            _ => Err(shape_error("Expected array for field '"@, name, shown)),
        },
    }
}

/// A field holding a record id.
pub open spec fn id_field(f: Option<(FieldValueView, Seq<char>)>, name: Seq<char>) -> Result<
    ActivityIdView,
    Seq<char>,
> {
    match f {
        None => Ok(ActivityIdView::Absent),
        Some((v, shown)) => match v {
            FieldValueView::Null => Ok(ActivityIdView::Absent),
            FieldValueView::Record(table, key) => Ok(ActivityIdView::Record(table, key)),
            FieldValueView::Text(s) => Ok(ActivityIdView::Text(s)),
            _ => Err(shape_error("Expected thing for field '"@, name, shown)),
        },
    }
}

pub open spec fn or_empty(s: Option<Seq<char>>) -> Seq<char> {
    match s {
        Some(v) => v,
        None => Seq::empty(),
    }
}

/// The activity of a record's fields: content, tags, source, creation time and
/// id, decoded in that order; the first field of the wrong shape is the error.
pub open spec fn activity_of(fields: Seq<(Seq<char>, FieldValueView, Seq<char>)>) -> Result<
    ActivityView,
    Seq<char>,
> {
    let string_prefix = "Expected string for field '"@;
    match string_field(field_named(fields, "content"@), "content"@, string_prefix) {
        Err(e) => Err(e),
        Ok(content) => match list_field(field_named(fields, "tags"@), "tags"@) {
            Err(e) => Err(e),
            Ok(tags) => match string_field(
                field_named(fields, "source"@),
                "source"@,
                "Expected string or null for field '"@,
            ) {
                Err(e) => Err(e),
                Ok(source) => match string_field(
                    field_named(fields, "created_at"@),
                    "created_at"@,
                    string_prefix,
                ) {
                    Err(e) => Err(e),
                    Ok(created_at) => match id_field(field_named(fields, "id"@), "id"@) {
                        Err(e) => Err(e),
                        Ok(id) => Ok(
                            ActivityView {
                                id,
                                content: or_empty(content),
                                tags,
                                source,
                                created_at: or_empty(created_at),
                            },
                        ),
                    },
                },
            },
        },
    }
}

/// The text that a field holds, if it holds text.
pub open spec fn text_in(f: Option<(FieldValueView, Seq<char>)>) -> Option<Seq<char>> {
    match f {
        Some((FieldValueView::Text(s), _)) => Some(s),
        _ => None,
    }
}

/// The string an array item stands for: its text, or the empty string.
pub open spec fn item_text(item: ListItemView) -> Seq<char> {
    match item {
        ListItemView::Text(s) => s,
        _ => Seq::empty(),
    }
}

/// A field is found by its name, and where the name occurs more than once the
/// last occurrence counts.
pub proof fn law_field_named_is_the_last_of_that_name(
    fields: Seq<(Seq<char>, FieldValueView, Seq<char>)>,
    name: Seq<char>,
)
    ensures
        field_named(fields, name) matches Some((v, shown)) ==> exists|i: int|
            0 <= i < fields.len() && #[trigger] fields[i] == (name, v, shown) && forall|j: int|
                i < j < fields.len() ==> fields[j].0 != name,
        field_named(fields, name) is None ==> forall|i: int| 0 <= i < fields.len() ==> #[trigger] fields[i].0 != name,
    decreases fields.len(),
{
    if fields.len() > 0 {
        let prev = fields.drop_last();
        law_field_named_is_the_last_of_that_name(prev, name);
        if fields.last().0 == name {
            assert(fields[fields.len() - 1] == (name, fields.last().1, fields.last().2));
        } else {
            match field_named(prev, name) {
                Some((v, shown)) => {
                    let i = choose|i: int|
                        0 <= i < prev.len() && #[trigger] prev[i] == (name, v, shown) && forall|j: int|
                            i < j < prev.len() ==> prev[j].0 != name;
                    assert(fields[i] == prev[i]);
                    assert forall|j: int| i < j < fields.len() implies fields[j].0 != name by {
                        if j < prev.len() {
                            assert(fields[j] == prev[j]);
                        }
                    }
                },
                None => {
                    assert forall|i: int| 0 <= i < fields.len() implies #[trigger] fields[i].0 != name by {
                        if i < prev.len() {
                            assert(fields[i] == prev[i]);
                        }
                    }
                },
            }
        }
    }
}

proof fn lemma_list_strings_items(items: Seq<ListItemView>, name: Seq<char>)
    ensures
        list_strings(items, name) matches Ok(done) ==> done.len() == items.len() && forall|i: int|
            0 <= i < items.len() ==> #[trigger] done[i] == item_text(items[i]),
    decreases items.len(),
{
    if items.len() > 0 {
        lemma_list_strings_items(items.drop_last(), name);
        match list_strings(items, name) {
            Ok(done) => {
                let prev = list_strings(items.drop_last(), name)->Ok_0;
                assert forall|i: int| 0 <= i < items.len() implies #[trigger] done[i] == item_text(items[i]) by {
                    if i < items.len() - 1 {
                        assert(done[i] == prev[i]);
                        assert(items[i] == items.drop_last()[i]);
                    }
                }
            },
            Err(_) => {},
        }
    }
}

/// Each part of a decoded activity comes from the field of its own name: the
/// content and creation time are that field's text (empty when absent or null),
/// the source is its text (none when absent or null), the tags are the array's
/// items in order (a null item read as the empty string), and the id is the
/// record id or text the field holds.
pub proof fn law_decoded_fields_come_from_their_names(fields: Seq<(Seq<char>, FieldValueView, Seq<char>)>)
    ensures
        activity_of(fields) matches Ok(a) ==> {
            &&& a.content == or_empty(text_in(field_named(fields, "content"@)))
            &&& a.source == text_in(field_named(fields, "source"@))
            &&& a.created_at == or_empty(text_in(field_named(fields, "created_at"@)))
            &&& a.id == match field_named(fields, "id"@) {
                Some((FieldValueView::Record(table, key), _)) => ActivityIdView::Record(table, key),
                Some((FieldValueView::Text(s), _)) => ActivityIdView::Text(s),
                _ => ActivityIdView::Absent,
            }
            &&& match field_named(fields, "tags"@) {
                Some((FieldValueView::List(items), _)) => a.tags.len() == items.len() && forall|i: int|
                    0 <= i < items.len() ==> #[trigger] a.tags[i] == item_text(items[i]),
                _ => a.tags.len() == 0,
            }
        },
{
    match field_named(fields, "tags"@) {
        Some((FieldValueView::List(items), _)) => {
            lemma_list_strings_items(items, "tags"@);
        },
        _ => {},
    }
}

/// The value and shown text of field `name`.
fn find_field(fields: &Vec<Field>, name: &str) -> (r: Option<usize>)
    ensures
        match r {
            Some(k) => k < fields.len() && field_named(fields_view(fields@), name@) == Some(
                (field_value_view(fields@[k as int].value), fields@[k as int].shown@),
            ),
            None => field_named(fields_view(fields@), name@) is None,
        },
{
    let ghost fv = fields_view(fields@);
    let mut k: usize = fields.len();
    assert(fv.take(k as int) =~= fv);
    while k > 0
        invariant
            k <= fields.len(),
            fv == fields_view(fields@),
            field_named(fv, name@) == field_named(fv.take(k as int), name@),
        decreases k,
    {
        assert(fv.take(k as int).drop_last() =~= fv.take(k - 1));
        assert(fv.take(k as int).last() == field_view(fields@[k - 1]));
        if crate::text::str_eq(fields[k - 1].name.as_str(), name) {
            return Some(k - 1);
        }
        k = k - 1;
    }
    assert(fv.take(0) =~= Seq::<(Seq<char>, FieldValueView, Seq<char>)>::empty());
    None
}

/// `prefix'name' but found shown`, as a message.
fn shape_message(prefix: &str, name: &str, shown: &str) -> (m: String)
    ensures
        m@ == shape_error(prefix@, name@, shown@),
{
    let mut m = owned(prefix);
    m.push_str(name);
    m.push_str("' but found ");
    m.push_str(shown);
    m
}

/// Reads a string field; `prefix` starts the message for a field of another
/// shape.
fn take_string(fields: &Vec<Field>, name: &str, prefix: &str) -> (r: Result<Option<String>, String>)
    ensures
        match r {
            Ok(v) => string_field(field_named(fields_view(fields@), name@), name@, prefix@) == Ok::<
                Option<Seq<char>>,
                Seq<char>,
            >(v.deep_view()),
            Err(e) => string_field(field_named(fields_view(fields@), name@), name@, prefix@)
                == Err::<Option<Seq<char>>, Seq<char>>(e@),
        },
{
    match find_field(fields, name) {
        None => Ok(None),
        Some(k) => match &fields[k].value {
            FieldValue::Text(s) => Ok(Some(s.clone())),
            FieldValue::Null => Ok(None),
            _ => Err(shape_message(prefix, name, fields[k].shown.as_str())),
        },
    }
}

/// Reads an array-of-strings field.
fn take_string_vec(fields: &Vec<Field>, name: &str) -> (r: Result<Vec<String>, String>)
    ensures
        match r {
            Ok(v) => list_field(field_named(fields_view(fields@), name@), name@) == Ok::<
                Seq<Seq<char>>,
                Seq<char>,
            >(crate::api::strings_view(v@)),
            Err(e) => list_field(field_named(fields_view(fields@), name@), name@) == Err::<
                Seq<Seq<char>>,
                Seq<char>,
            >(e@),
        },
{
    let k = match find_field(fields, name) {
        None => {
            let v: Vec<String> = Vec::new();
            assert(crate::api::strings_view(v@) =~= Seq::<Seq<char>>::empty());
            return Ok(v);
        },
        Some(k) => k,
    };
    match &fields[k].value {
        FieldValue::List(items) => {
            let ghost iv = items@.map_values(|i: ListItem| list_item_view(i));
            let mut out: Vec<String> = Vec::new();
            let mut j: usize = 0;
            assert(crate::api::strings_view(out@) =~= Seq::<Seq<char>>::empty());
            assert(iv.take(0) =~= Seq::<ListItemView>::empty());
            assert(field_value_view(fields@[k as int].value) == FieldValueView::List(iv));
            while j < items.len()
                invariant
                    j <= items.len(),
                    k < fields.len(),
                    field_named(fields_view(fields@), name@) == Some(
                        (field_value_view(fields@[k as int].value), fields@[k as int].shown@),
                    ),
                    field_value_view(fields@[k as int].value) == FieldValueView::List(iv),
                    iv == items@.map_values(|i: ListItem| list_item_view(i)),
                    list_strings(iv.take(j as int), name@) == Ok::<Seq<Seq<char>>, Seq<char>>(
                        crate::api::strings_view(out@),
                    ),
                decreases items.len() - j,
            {
                assert(iv.take(j + 1).drop_last() =~= iv.take(j as int));
                assert(iv.take(j + 1).last() == list_item_view(items@[j as int]));
                let ghost before = out@;
                match &items[j] {
                    ListItem::Text(s) => {
                        out.push(s.clone());
                    },
                    ListItem::Null => {
                        out.push(String::new());
                    },
                    ListItem::Other(shown) => {
                        proof {
                            assert(list_item_view(items@[j as int]) == ListItemView::Other(shown@));
                            assert(list_strings(iv.take(j + 1), name@) == Err::<Seq<Seq<char>>, Seq<char>>(
                                shape_error("Expected string inside array field '"@, name@, shown@),
                            ));
                            lemma_list_error_stays(iv, (j + 1) as nat, name@);
                        }
                        return Err(
                            shape_message("Expected string inside array field '", name, shown.as_str()),
                        );
                    },
                }
                assert(crate::api::strings_view(out@) =~= crate::api::strings_view(before).push(
                    out@.last()@,
                ));
                j = j + 1;
            }
            assert(iv.take(j as int) =~= iv);
            Ok(out)
        },
        FieldValue::Null => {
            let v: Vec<String> = Vec::new();
            assert(crate::api::strings_view(v@) =~= Seq::<Seq<char>>::empty());
            Ok(v)
        },
        _ => Err(shape_message("Expected array for field '", name, fields[k].shown.as_str())),
    }
}

proof fn lemma_list_error_stays(items: Seq<ListItemView>, n: nat, name: Seq<char>)
    requires
        n <= items.len(),
        list_strings(items.take(n as int), name) is Err,
    ensures
        list_strings(items, name) == list_strings(items.take(n as int), name),
    decreases items.len() - n,
{
    if n < items.len() {
        assert(items.take(n + 1 as int).drop_last() =~= items.take(n as int));
        lemma_list_error_stays(items, n + 1, name);
    } else {
        assert(items.take(n as int) =~= items);
    }
}

/// Reads the id field.
fn take_record_id(fields: &Vec<Field>, name: &str) -> (r: Result<ActivityId, String>)
    ensures
        match r {
            Ok(id) => id_field(field_named(fields_view(fields@), name@), name@) == Ok::<
                ActivityIdView,
                Seq<char>,
            >(id_view(id)),
            Err(e) => id_field(field_named(fields_view(fields@), name@), name@) == Err::<
                ActivityIdView,
                Seq<char>,
            >(e@),
        },
{
    match find_field(fields, name) {
        None => Ok(ActivityId::Absent),
        Some(k) => match &fields[k].value {
            FieldValue::Null => Ok(ActivityId::Absent),
            FieldValue::Record(r) => Ok(
                ActivityId::Record(RecordId { table: r.table.clone(), key: r.key.clone() }),
            ),
            FieldValue::Text(s) => Ok(ActivityId::Text(s.clone())),
            _ => Err(shape_message("Expected thing for field '", name, fields[k].shown.as_str())),
        },
    }
}

/// Builds an activity from a record's fields.
pub fn build_activity_from_map(fields: &Vec<Field>) -> (r: Result<DecodedActivity, String>)
    ensures
        match r {
            Ok(a) => activity_of(fields_view(fields@)) == Ok::<ActivityView, Seq<char>>(activity_view(a)),
            Err(e) => activity_of(fields_view(fields@)) == Err::<ActivityView, Seq<char>>(e@),
        },
{
    let content = take_string(fields, "content", "Expected string for field '")?;
    let tags = take_string_vec(fields, "tags")?;
    let source = take_string(fields, "source", "Expected string or null for field '")?;
    let created_at = take_string(fields, "created_at", "Expected string for field '")?;
    let id = take_record_id(fields, "id")?;
    Ok(
        DecodedActivity {
            id,
            content: match content {
                Some(c) => c,
                None => String::new(),
            },
            tags,
            source,
            created_at: match created_at {
                Some(c) => c,
                None => String::new(),
            },
        },
    )
}

pub enum StoredValueView {
    Object(Seq<(Seq<char>, FieldValueView, Seq<char>)>),
    NotAnObject(Seq<char>),
}

pub open spec fn stored_view(v: StoredValue) -> StoredValueView {
    match v {
        StoredValue::Object(fields) => StoredValueView::Object(fields_view(fields@)),
        StoredValue::NotAnObject(shown) => StoredValueView::NotAnObject(shown@),
    }
}

/// The activity of a stored value, or why it is none.
pub open spec fn stored_activity(v: StoredValueView) -> Result<ActivityView, Seq<char>> {
    match v {
        StoredValueView::Object(fields) => activity_of(fields),
        StoredValueView::NotAnObject(shown) => Err(
            "Expected activity object but received value: "@ + shown,
        ),
    }
}

/// Converts a stored value into an activity.
pub fn value_to_activity(value: &StoredValue) -> (r: Result<DecodedActivity, String>)
    ensures
        match r {
            Ok(a) => stored_activity(stored_view(*value)) == Ok::<ActivityView, Seq<char>>(
                activity_view(a),
            ),
            Err(e) => stored_activity(stored_view(*value)) == Err::<ActivityView, Seq<char>>(e@),
        },
{
    match value {
        StoredValue::Object(fields) => build_activity_from_map(fields),
        StoredValue::NotAnObject(shown) => {
            let mut m = owned("Expected activity object but received value: ");
            m.push_str(shown.as_str());
            Err(m)
        },
    }
}

/// The activities of the first `n` stored values, or the error of the first
/// one that is not an activity.
pub open spec fn stored_activities(values: Seq<StoredValueView>, n: nat) -> Result<
    Seq<ActivityView>,
    Seq<char>,
>
    decreases n,
{
    if n == 0 {
        Ok(Seq::empty())
    } else {
        match stored_activities(values, (n - 1) as nat) {
            Err(e) => Err(e),
            Ok(done) => match stored_activity(values[n - 1]) {
                Ok(a) => Ok(done.push(a)),
                Err(e) => Err("Deserialization error: "@ + e),
            },
        }
    }
}

pub open spec fn stored_views(values: Seq<StoredValue>) -> Seq<StoredValueView> {
    values.map_values(|v: StoredValue| stored_view(v))
}

pub open spec fn activities_view(v: Seq<DecodedActivity>) -> Seq<ActivityView> {
    v.map_values(|a: DecodedActivity| activity_view(a))
}

proof fn lemma_stored_error_stays(values: Seq<StoredValueView>, n: nat, m: nat)
    requires
        n <= m,
        stored_activities(values, n) is Err,
    ensures
        stored_activities(values, m) == stored_activities(values, n),
    decreases m - n,
{
    if n < m {
        lemma_stored_error_stays(values, n, (m - 1) as nat);
    }
}

/// Converts stored values into activities; the first value that is not an
/// activity makes the whole list an error.
pub fn deserialize_activity_values(values: &Vec<StoredValue>) -> (r: Result<Vec<DecodedActivity>, String>)
    ensures
        match r {
            Ok(v) => stored_activities(stored_views(values@), values@.len()) == Ok::<
                Seq<ActivityView>,
                Seq<char>,
            >(activities_view(v@)),
            Err(e) => stored_activities(stored_views(values@), values@.len()) == Err::<
                Seq<ActivityView>,
                Seq<char>,
            >(e@),
        },
{
    let ghost sv = stored_views(values@);
    let mut out: Vec<DecodedActivity> = Vec::new();
    let mut i: usize = 0;
    assert(activities_view(out@) =~= Seq::<ActivityView>::empty());
    while i < values.len()
        invariant
            i <= values.len(),
            sv == stored_views(values@),
            stored_activities(sv, i as nat) == Ok::<Seq<ActivityView>, Seq<char>>(
                activities_view(out@),
            ),
        decreases values.len() - i,
    {
        assert(sv[i as int] == stored_view(values@[i as int]));
        match value_to_activity(&values[i]) {
            Ok(a) => {
                let ghost before = out@;
                out.push(a);
                assert(activities_view(out@) =~= activities_view(before).push(
                    activity_view(out@.last()),
                ));
            },
            Err(e) => {
                let mut m = owned("Deserialization error: ");
                m.push_str(e.as_str());
                proof {
                    lemma_stored_error_stays(sv, (i + 1) as nat, values@.len());
                }
                return Err(m);
            },
        }
        i = i + 1;
    }
    Ok(out)
}

/// The query creating an activity whose content is the JSON `content_json`:
/// under the given record id when there is one, else under a new id.
pub open spec fn create_query(record: Option<Seq<char>>, content_json: Seq<char>) -> Seq<char> {
    match record {
        Some(r) => "CREATE "@ + r + " CONTENT "@ + content_json + " RETURN *;"@,
        None => "CREATE activity CONTENT "@ + content_json + " RETURN *;"@,
    }
}

/// Builds the query creating an activity from its JSON content and, when it
/// has one, its record id written as a query literal.
pub fn build_activity_create_query(record: Option<&str>, content_json: &str) -> (q: String)
    ensures
        q@ == create_query(record.deep_view(), content_json@),
{
    let mut q = String::new();
    match record {
        Some(r) => {
            q.push_str("CREATE ");
            q.push_str(r);
            q.push_str(" CONTENT ");
        },
        None => {
            q.push_str("CREATE activity CONTENT ");
        },
    }
    q.push_str(content_json);
    q.push_str(" RETURN *;");
    q
}

} // verus!
