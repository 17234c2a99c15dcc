//! The materializer: projects validated messages into one current-state row
//! for each record of each schema.
use vstd::prelude::*;
use crate::bytes::{bytes_eq, copy_bytes};

verus! {

/// What a message does to its record.
#[derive(Debug, Clone, Copy, PartialEq, Eq, Structural)]
pub enum MessageAction {
    Create,
    Update,
    Delete,
}

/// A typed field value.
#[derive(Debug)]
pub enum FieldValue {
    Text(String),
    Integer(i64),
    Boolean(bool),
    Relation(Vec<u8>),
}

/// The kind of a field value.
#[derive(Debug, Clone, Copy, PartialEq, Eq, Structural)]
pub enum FieldKind {
    Text,
    Integer,
    Boolean,
    Relation,
}

/// A field that a schema requires: its name and the kind of its value.
#[derive(Debug)]
pub struct FieldSpec {
    pub name: String,
    pub kind: FieldKind,
}

pub open spec fn kind_of(v: FieldValue) -> FieldKind {
    match v {
        FieldValue::Text(_) => FieldKind::Text,
        FieldValue::Integer(_) => FieldKind::Integer,
        FieldValue::Boolean(_) => FieldKind::Boolean,
        FieldValue::Relation(_) => FieldKind::Relation,
    }
}

/// Whether `fields` holds a field of the name and kind that `spec` asks for.
pub open spec fn has_field(fields: Seq<Field>, spec: FieldSpec) -> bool {
    exists|i: int| 0 <= i < fields.len() && #[trigger] fields[i].name@ == spec.name@ && kind_of(fields[i].value) == spec.kind
}

/// Whether `fields` holds every required field with its kind.
pub open spec fn fields_valid(required: Seq<FieldSpec>, fields: Seq<Field>) -> bool {
    forall|j: int| 0 <= j < required.len() ==> has_field(fields, #[trigger] required[j])
}

/// A named field of a message or a row.
#[derive(Debug)]
pub struct Field {
    pub name: String,
    pub value: FieldValue,
}

/// A decoded message: its action, the schema hash, the id of the record it
/// targets (absent for a create) and its fields.
pub struct Message {
    pub action: MessageAction,
    pub schema: Vec<u8>,
    pub id: Option<Vec<u8>>,
    pub fields: Vec<Field>,
}

/// The current state of one record of one schema. A deleted row is kept as
/// a tombstone with the sequence number of the delete.
pub struct Row {
    pub schema: Vec<u8>,
    pub id: Vec<u8>,
    pub author: Vec<u8>,
    pub fields: Vec<Field>,
    pub seq_num: u64,
    pub deleted: bool,
}

/// Why an event was not applied.
#[derive(Debug, Clone, Copy, PartialEq, Eq, Structural)]
pub enum MaterializeError {
    /// A create carries a target id, or an update or delete lacks one.
    InvalidMessage,
    /// A create or update carries no fields, lacks a field that the schema
    /// requires, or carries it with a value of another kind.
    SchemaValidationFailure,
    /// An update or delete targets a record that has no row.
    RowMissing,
}

impl Row {
    pub open spec fn is_key(&self, schema: Seq<u8>, id: Seq<u8>) -> bool {
        self.schema@ == schema && self.id@ == id
    }
}

/// The projection: the fields that every create and update must carry, and
/// at most one row for each schema and id.
pub struct Materializer {
    pub required: Vec<FieldSpec>,
    pub rows: Vec<Row>,
}

pub open spec fn opt_id(o: Option<Vec<u8>>) -> Option<Seq<u8>> {
    match o {
        Some(v) => Some(v@),
        None => None,
    }
}

/// The id of the record that an event targets: the hash of the entry for a
/// create, the message's target id otherwise.
pub open spec fn target_of(entry_hash: Seq<u8>, message: Message) -> Result<Seq<u8>, MaterializeError> {
    match (message.action, opt_id(message.id)) {
        (MessageAction::Create, None) => Ok(entry_hash),
        (MessageAction::Create, Some(_)) => Err(MaterializeError::InvalidMessage),
        (_, Some(id)) => Ok(id),
        (_, None) => Err(MaterializeError::InvalidMessage),
    }
}

/// The kind of a field value.
pub fn field_kind(v: &FieldValue) -> (r: FieldKind)
    ensures
        r == kind_of(*v),
{
    match v {
        FieldValue::Text(_) => FieldKind::Text,
        FieldValue::Integer(_) => FieldKind::Integer,
        FieldValue::Boolean(_) => FieldKind::Boolean,
        FieldValue::Relation(_) => FieldKind::Relation,
    }
}

/// Whether `fields` holds a field of the name and kind that `spec` asks for.
pub fn find_field(fields: &Vec<Field>, spec: &FieldSpec) -> (r: bool)
    ensures
        r == has_field(fields@, *spec),
{
    let mut i: usize = 0;
    while i < fields.len()
        invariant
            0 <= i <= fields@.len(),
            forall|k: int| 0 <= k < i ==> !(#[trigger] fields@[k].name@ == spec.name@ && kind_of(fields@[k].value) == spec.kind),
        decreases fields@.len() - i,
    {
        if fields[i].name == spec.name && field_kind(&fields[i].value) == spec.kind {
            return true;
        }
        i = i + 1;
    }
    false
}

/// Whether `fields` holds every field of `required` with its kind.
pub fn check_fields(required: &Vec<FieldSpec>, fields: &Vec<Field>) -> (r: bool)
    ensures
        r == fields_valid(required@, fields@),
{
    let mut j: usize = 0;
    while j < required.len()
        invariant
            0 <= j <= required@.len(),
            forall|k: int| 0 <= k < j ==> has_field(fields@, #[trigger] required@[k]),
        decreases required@.len() - j,
    {
        if !find_field(fields, &required[j]) {
            return false;
        }
        j = j + 1;
    }
    true
}

/// The fields of a record with a text `message` and a text `date`.
pub fn message_and_date() -> (r: Vec<FieldSpec>)
    ensures
        r@.len() == 2,
        r@[0].name@ == "message"@ && r@[0].kind == FieldKind::Text,
        r@[1].name@ == "date"@ && r@[1].kind == FieldKind::Text,
{
    vec![
        FieldSpec { name: "message".to_owned(), kind: FieldKind::Text },
        FieldSpec { name: "date".to_owned(), kind: FieldKind::Text },
    ]
}

/// How one row changes under one event. A missing row is created from a
/// create. An existing row changes only under an event with a higher
/// sequence number and while it is not deleted: an update replaces its
/// fields, a delete marks it deleted; either advances its sequence number.
pub open spec fn row_after(
    before: Option<Row>,
    after: Option<Row>,
    author: Seq<u8>,
    seq_num: u64,
    message: Message,
) -> bool {
    match before {
        None => after matches Some(r) && r.author@ == author && r.fields == message.fields && r.seq_num
            == seq_num && !r.deleted,
        Some(o) => if seq_num <= o.seq_num || o.deleted || message.action == MessageAction::Create {
            after == before
        } else {
            after matches Some(r) && r.schema@ == o.schema@ && r.id@ == o.id@ && r.author@ == o.author@
                && r.seq_num == seq_num && if message.action == MessageAction::Update {
                r.fields == message.fields && !r.deleted
            } else {
                r.fields == o.fields && r.deleted
            }
        },
    }
}

impl Materializer {
    pub open spec fn wf(&self) -> bool {
        forall|i: int, j: int|
            0 <= i < j < self.rows@.len() ==> !#[trigger] self.rows@[i].is_key(
                self.rows@[j].schema@,
                #[trigger] self.rows@[j].id@,
            )
    }

    pub open spec fn has_row(&self, schema: Seq<u8>, id: Seq<u8>) -> bool {
        exists|i: int| 0 <= i < self.rows@.len() && #[trigger] self.rows@[i].is_key(schema, id)
    }

    /// The row of a record, tombstone or not.
    pub open spec fn row_at(&self, schema: Seq<u8>, id: Seq<u8>) -> Option<Row> {
        if self.has_row(schema, id) {
            let i = choose|i: int| 0 <= i < self.rows@.len() && #[trigger] self.rows@[i].is_key(schema, id);
            Some(self.rows@[i])
        } else {
            None
        }
    }

    /// Whether an event is applied, and to which record; the first failing
    /// check otherwise.
    pub open spec fn materialize_check(&self, entry_hash: Seq<u8>, message: Message) -> Result<
        Seq<u8>,
        MaterializeError,
    > {
        match target_of(entry_hash, message) {
            Err(e) => Err(e),
            Ok(id) => if message.action != MessageAction::Delete && (message.fields@.len() == 0
                || !fields_valid(self.required@, message.fields@)) {
                Err(MaterializeError::SchemaValidationFailure)
            } else if message.action != MessageAction::Create && !self.has_row(message.schema@, id) {
                Err(MaterializeError::RowMissing)
            } else {
                Ok(id)
            },
        }
    }

    /// Applies the event that `entry_hash`, at `seq_num` of `author`'s log,
    /// carries with `message`. The targeted row changes as `row_after`
    /// says; every other row stays as it was. A refused event changes
    /// nothing.
    pub fn materialize(&mut self, entry_hash: &Vec<u8>, seq_num: u64, author: &Vec<u8>, message: Message) -> (r:
        Result<(), MaterializeError>)
        requires
            old(self).wf(),
        ensures
            final(self).wf(),
            old(self).materialize_check(entry_hash@, message) matches Err(e) ==> r == Err::<(), MaterializeError>(e),
            old(self).materialize_check(entry_hash@, message) is Ok ==> r is Ok,
            applied(*old(self), *final(self), entry_hash@, seq_num, author@, message),
    {
        let ghost msg = message;
        let id: Vec<u8> = match message.action {
            MessageAction::Create => match &message.id {
                Some(_) => {
                    return Err(MaterializeError::InvalidMessage);
                },
                None => copy_bytes(entry_hash),
            },
            _ => match &message.id {
                Some(i) => copy_bytes(i),
                None => {
                    return Err(MaterializeError::InvalidMessage);
                },
            },
        };
        assert(target_of(entry_hash@, msg) == Ok::<Seq<u8>, MaterializeError>(id@));
        if message.action != MessageAction::Delete && (message.fields.len() == 0 || !check_fields(
            &self.required,
            &message.fields,
        )) {
            return Err(MaterializeError::SchemaValidationFailure);
        }
        let ghost before = *self;
        match self.position(&message.schema, &id) {
            None => {
                if message.action != MessageAction::Create {
                    return Err(MaterializeError::RowMissing);
                }
                let row = Row {
                    schema: message.schema,
                    id,
                    author: copy_bytes(author),
                    fields: message.fields,
                    seq_num,
                    deleted: false,
                };
                self.rows.push(row);
                proof {
                    lemma_push_row(before, *self, msg.schema@, id@);
                }
                Ok(())
            },
            Some(i) => {
                if seq_num <= self.rows[i].seq_num || self.rows[i].deleted || message.action
                    == MessageAction::Create {
                    return Ok(());
                }
                let old_row = &self.rows[i];
                let row = if message.action == MessageAction::Update {
                    Row {
                        schema: copy_bytes(&old_row.schema),
                        id: copy_bytes(&old_row.id),
                        author: copy_bytes(&old_row.author),
                        fields: message.fields,
                        seq_num,
                        deleted: false,
                    }
                } else {
                    let mut fields: Vec<Field> = Vec::new();
                    let slot = &mut self.rows[i];
                    std::mem::swap(&mut fields, &mut slot.fields);
                    Row {
                        schema: copy_bytes(&slot.schema),
                        id: copy_bytes(&slot.id),
                        author: copy_bytes(&slot.author),
                        fields,
                        seq_num,
                        deleted: true,
                    }
                };
                self.rows.set(i, row);
                proof {
                    assert(self.rows@ =~= before.rows@.update(i as int, self.rows@[i as int]));
                    lemma_replace_row(before, *self, i as int, msg.schema@, id@);
                }
                Ok(())
            },
        }
    }

    /// An empty projection whose creates and updates must carry the fields
    /// of `required`.
    pub fn new(required: Vec<FieldSpec>) -> (r: Self)
        ensures
            r.wf(),
            r.required == required,
            r.rows@.len() == 0,
    {
        Materializer { required, rows: Vec::new() }
    }

    /// The index of the row of `id` under `schema`.
    fn position(&self, schema: &Vec<u8>, id: &Vec<u8>) -> (r: Option<usize>)
        requires
            self.wf(),
        ensures
            match r {
                Some(i) => i < self.rows@.len() && self.rows@[i as int].is_key(schema@, id@)
                    && self.row_at(schema@, id@) == Some(self.rows@[i as int]),
                None => !self.has_row(schema@, id@),
            },
    {
        let mut i: usize = 0;
        while i < self.rows.len()
            invariant
                self.wf(),
                0 <= i <= self.rows@.len(),
                forall|j: int| 0 <= j < i ==> !#[trigger] self.rows@[j].is_key(schema@, id@),
            decreases self.rows@.len() - i,
        {
            if bytes_eq(&self.rows[i].schema, schema) && bytes_eq(&self.rows[i].id, id) {
                proof {
                    let ii = i as int;
                    assert(self.rows@[ii].is_key(schema@, id@));
                    let k = choose|k: int| 0 <= k < self.rows@.len() && #[trigger] self.rows@[k].is_key(schema@, id@);
                    if k < ii {
                        assert(!self.rows@[k].is_key(self.rows@[ii].schema@, self.rows@[ii].id@));
                    } else if k > ii {
                        assert(!self.rows@[ii].is_key(self.rows@[k].schema@, self.rows@[k].id@));
                    }
                }
                return Some(i);
            }
            i = i + 1;
        }
        None
    }

    /// The row of `id` under `schema` as a default read shows it: absent
    /// when the record was deleted.
    pub fn read(&self, schema: &Vec<u8>, id: &Vec<u8>) -> (r: Option<&Row>)
        requires
            self.wf(),
        ensures
            match self.row_at(schema@, id@) {
                Some(row) => if row.deleted { r is None } else { r == Some(&row) },
                None => r is None,
            },
    {
        match self.position(schema, id) {
            Some(i) => {
                if self.rows[i].deleted {
                    None
                } else {
                    Some(&self.rows[i])
                }
            },
            None => None,
        }
    }
}

/// Appending a row for a key that had none gives that key this row and
/// leaves every other key as it was.
proof fn lemma_push_row(before: Materializer, after: Materializer, schema: Seq<u8>, id: Seq<u8>)
    requires
        before.wf(),
        !before.has_row(schema, id),
        after.rows@ == before.rows@.push(after.rows@.last()),
        after.rows@.last().is_key(schema, id),
    ensures
        after.wf(),
        after.row_at(schema, id) == Some(after.rows@.last()),
        forall|s: Seq<u8>, k: Seq<u8>| !(s == schema && k == id) ==> #[trigger] after.row_at(s, k) == before.row_at(s, k),
{
    let n = before.rows@.len() as int;
    assert forall|i: int, j: int|
        0 <= i < j < after.rows@.len() implies !#[trigger] after.rows@[i].is_key(
            after.rows@[j].schema@,
            #[trigger] after.rows@[j].id@,
        ) by {
        if j == n {
            assert(!before.rows@[i].is_key(schema, id));
        } else {
            assert(after.rows@[i] == before.rows@[i] && after.rows@[j] == before.rows@[j]);
        }
    }
    assert(after.rows@[n].is_key(schema, id));
    let c = choose|c: int| 0 <= c < after.rows@.len() && #[trigger] after.rows@[c].is_key(schema, id);
    if c < n {
        assert(before.rows@[c].is_key(schema, id));
    }
    assert forall|s: Seq<u8>, k: Seq<u8>| !(s == schema && k == id) implies #[trigger] after.row_at(s, k)
        == before.row_at(s, k) by {
        if after.has_row(s, k) {
            let a = choose|a: int| 0 <= a < after.rows@.len() && #[trigger] after.rows@[a].is_key(s, k);
            assert(a != n);
            assert(before.rows@[a].is_key(s, k));
            let b = choose|b: int| 0 <= b < before.rows@.len() && #[trigger] before.rows@[b].is_key(s, k);
            if a < b {
                assert(!before.rows@[a].is_key(before.rows@[b].schema@, before.rows@[b].id@));
            } else if b < a {
                assert(!before.rows@[b].is_key(before.rows@[a].schema@, before.rows@[a].id@));
            }
        } else {
            assert forall|b: int| 0 <= b < before.rows@.len() implies !#[trigger] before.rows@[b].is_key(s, k) by {
                assert(after.rows@[b] == before.rows@[b]);
            }
        }
    }
}

/// Replacing the row at `i` by one with the same key gives that key the new
/// row and leaves every other key as it was.
proof fn lemma_replace_row(before: Materializer, after: Materializer, i: int, schema: Seq<u8>, id: Seq<u8>)
    requires
        before.wf(),
        0 <= i < before.rows@.len(),
        before.rows@[i].is_key(schema, id),
        after.rows@ == before.rows@.update(i, after.rows@[i]),
        after.rows@[i].is_key(schema, id),
    ensures
        after.wf(),
        after.row_at(schema, id) == Some(after.rows@[i]),
        forall|s: Seq<u8>, k: Seq<u8>| !(s == schema && k == id) ==> #[trigger] after.row_at(s, k) == before.row_at(s, k),
{
    assert forall|a: int, b: int|
        0 <= a < b < after.rows@.len() implies !#[trigger] after.rows@[a].is_key(
            after.rows@[b].schema@,
            #[trigger] after.rows@[b].id@,
        ) by {
        if a == i {
            assert(!before.rows@[i].is_key(before.rows@[b].schema@, before.rows@[b].id@));
        } else if b == i {
            assert(!before.rows@[a].is_key(before.rows@[i].schema@, before.rows@[i].id@));
        }
    }
    let c = choose|c: int| 0 <= c < after.rows@.len() && #[trigger] after.rows@[c].is_key(schema, id);
    if c < i {
        assert(!after.rows@[c].is_key(after.rows@[i].schema@, after.rows@[i].id@));
    } else if c > i {
        assert(!after.rows@[i].is_key(after.rows@[c].schema@, after.rows@[c].id@));
    }
    assert forall|s: Seq<u8>, k: Seq<u8>| !(s == schema && k == id) implies #[trigger] after.row_at(s, k)
        == before.row_at(s, k) by {
        if after.has_row(s, k) {
            let a = choose|a: int| 0 <= a < after.rows@.len() && #[trigger] after.rows@[a].is_key(s, k);
            assert(a != i);
            assert(before.rows@[a].is_key(s, k));
            let b = choose|b: int| 0 <= b < before.rows@.len() && #[trigger] before.rows@[b].is_key(s, k);
            if a < b {
                assert(!before.rows@[a].is_key(before.rows@[b].schema@, before.rows@[b].id@));
            } else if b < a {
                assert(!before.rows@[b].is_key(before.rows@[a].schema@, before.rows@[a].id@));
            }
        } else {
            assert forall|b: int| 0 <= b < before.rows@.len() implies !#[trigger] before.rows@[b].is_key(s, k) by {
                if b != i {
                    assert(after.rows@[b] == before.rows@[b]);
                } else {
                    assert(!after.rows@[i].is_key(s, k));
                }
            }
        }
    }
}

/// What `materialize` ensures of an applied event, as a relation between the
/// projection before and after it.
pub open spec fn applied(
    before: Materializer,
    after: Materializer,
    entry_hash: Seq<u8>,
    seq_num: u64,
    author: Seq<u8>,
    message: Message,
) -> bool {
    match before.materialize_check(entry_hash, message) {
        Err(_) => after == before,
        Ok(id) => after.required == before.required && row_after(before.row_at(message.schema@, id), after.row_at(message.schema@, id), author, seq_num, message)
            && forall|s: Seq<u8>, k: Seq<u8>|
            !(s == message.schema@ && k == id) ==> #[trigger] after.row_at(s, k) == before.row_at(s, k),
    }
}

/// A create for a new record followed by an update of it with a higher
/// sequence number leaves exactly one row for the record, holding the
/// update's fields and sequence number.
pub proof fn lemma_create_then_update(
    m0: Materializer,
    m1: Materializer,
    m2: Materializer,
    entry_hash: Seq<u8>,
    create_seq: u64,
    update_hash: Seq<u8>,
    update_seq: u64,
    author: Seq<u8>,
    create: Message,
    update: Message,
)
    requires
        m0.wf(),
        m1.wf(),
        m2.wf(),
        create.action == MessageAction::Create,
        create.id is None,
        create.fields@.len() > 0,
        fields_valid(m0.required@, create.fields@),
        !m0.has_row(create.schema@, entry_hash),
        update.action == MessageAction::Update,
        opt_id(update.id) == Some(entry_hash),
        update.schema@ == create.schema@,
        update.fields@.len() > 0,
        fields_valid(m0.required@, update.fields@),
        create_seq < update_seq,
        applied(m0, m1, entry_hash, create_seq, author, create),
        applied(m1, m2, update_hash, update_seq, author, update),
    ensures
        m2.row_at(create.schema@, entry_hash) matches Some(r) && r.fields == update.fields && r.seq_num == update_seq
            && !r.deleted,
        forall|i: int, j: int|
            0 <= i < m2.rows@.len() && 0 <= j < m2.rows@.len() && #[trigger] m2.rows@[i].is_key(create.schema@, entry_hash)
                && #[trigger] m2.rows@[j].is_key(create.schema@, entry_hash) ==> i == j,
{
    assert(m0.materialize_check(entry_hash, create) == Ok::<Seq<u8>, MaterializeError>(entry_hash));
    let r1 = m1.row_at(create.schema@, entry_hash)->Some_0;
    assert(m1.has_row(create.schema@, entry_hash));
    assert(m1.materialize_check(update_hash, update) == Ok::<Seq<u8>, MaterializeError>(entry_hash));
    assert forall|i: int, j: int|
        0 <= i < m2.rows@.len() && 0 <= j < m2.rows@.len() && #[trigger] m2.rows@[i].is_key(create.schema@, entry_hash)
            && #[trigger] m2.rows@[j].is_key(create.schema@, entry_hash) implies i == j by {
        if i < j {
            assert(!m2.rows@[i].is_key(m2.rows@[j].schema@, m2.rows@[j].id@));
        } else if j < i {
            assert(!m2.rows@[j].is_key(m2.rows@[i].schema@, m2.rows@[i].id@));
        }
    }
}

/// Applying again an update whose sequence number the row already holds
/// changes no row.
pub proof fn lemma_reapplied_update_is_noop(
    m1: Materializer,
    m2: Materializer,
    update_hash: Seq<u8>,
    seq_num: u64,
    author: Seq<u8>,
    update: Message,
)
    requires
        m1.wf(),
        update.action == MessageAction::Update,
        update.id is Some,
        m1.row_at(update.schema@, opt_id(update.id)->Some_0) matches Some(r) && r.seq_num == seq_num,
        applied(m1, m2, update_hash, seq_num, author, update),
    ensures
        forall|s: Seq<u8>, k: Seq<u8>| #[trigger] m2.row_at(s, k) == m1.row_at(s, k),
{
    lemma_stale_update_is_noop(m1, m2, update_hash, seq_num, author, update);
}

/// An update with a sequence number no higher than the row's changes no
/// row.
pub proof fn lemma_stale_update_is_noop(
    m1: Materializer,
    m2: Materializer,
    update_hash: Seq<u8>,
    seq_num: u64,
    author: Seq<u8>,
    update: Message,
)
    requires
        m1.wf(),
        update.action == MessageAction::Update,
        update.id is Some,
        m1.row_at(update.schema@, opt_id(update.id)->Some_0) matches Some(r) && seq_num <= r.seq_num,
        applied(m1, m2, update_hash, seq_num, author, update),
    ensures
        forall|s: Seq<u8>, k: Seq<u8>| #[trigger] m2.row_at(s, k) == m1.row_at(s, k),
{
    let id = opt_id(update.id)->Some_0;
    assert(m1.has_row(update.schema@, id));
    match m1.materialize_check(update_hash, update) {
        Err(_) => {},
        Ok(i) => {
            assert(i == id);
        },
    }
}

} // verus!
