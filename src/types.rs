use vstd::prelude::*;
use crate::decimal::Decimal;

verus! {

/// Selects one input or output of a node.
pub type PortHandle = u16;

/// The port used by operators that have a single input or output.
pub const DEFAULT_PORT_HANDLE: u16 = 0xffff;

/// Names a node of the graph: an optional namespace and an identifier.
#[derive(Debug, Clone, PartialEq, Eq, Hash)]
pub struct NodeHandle {
    pub ns: Option<u16>,
    pub id: String,
}

impl View for NodeHandle {
    type V = (Option<u16>, Seq<char>);

    open spec fn view(&self) -> (Option<u16>, Seq<char>) {
        (self.ns, self.id@)
    }
}

impl NodeHandle {
    pub fn new(ns: Option<u16>, id: String) -> (r: NodeHandle)
        ensures
            r@ == (ns, id@),
    {
        NodeHandle { ns, id }
    }

    /// Equality over the namespace and the identifier.
    pub fn same(&self, other: &NodeHandle) -> (r: bool)
        ensures
            r == (self@ == other@),
    {
        let ns_eq = match (self.ns, other.ns) {
            (None, None) => true,
            (Some(a), Some(b)) => a == b,
            _ => false,
        };
        ns_eq && self.id == other.id
    }

    pub fn duplicate(&self) -> (r: NodeHandle)
        ensures
            r == *self,
    {
        NodeHandle { ns: self.ns, id: self.id.clone() }
    }
}

/// One side of one edge: a node and one of its ports.
#[derive(Debug, Clone, PartialEq, Eq)]
pub struct Endpoint {
    pub node: NodeHandle,
    pub port: PortHandle,
}

impl View for Endpoint {
    type V = ((Option<u16>, Seq<char>), u16);

    open spec fn view(&self) -> ((Option<u16>, Seq<char>), u16) {
        (self.node@, self.port)
    }
}

impl Endpoint {
    pub fn new(node: NodeHandle, port: PortHandle) -> (r: Endpoint)
        ensures
            r@ == (node@, port),
    {
        Endpoint { node, port }
    }
}

/// Whether the channel fabric keeps history of an output for lookups downstream.
#[derive(Debug, Clone, Copy, PartialEq, Eq, Structural)]
pub enum OutputPortType {
    Stateless,
    StatefulWithPrimaryKeyLookup,
    Stateful,
}

/// An output port of a node and its kind.
#[derive(Debug, Clone, Copy, PartialEq, Eq, Structural)]
pub struct OutputPortDef {
    pub handle: PortHandle,
    pub typ: OutputPortType,
}

impl OutputPortDef {
    pub fn new(handle: PortHandle, typ: OutputPortType) -> (r: OutputPortDef)
        ensures
            r.handle == handle,
            r.typ == typ,
    {
        OutputPortDef { handle, typ }
    }
}

/// The type of a column.
#[derive(Debug, Clone, Copy, PartialEq, Eq, Structural, Hash)]
pub enum FieldType {
    UInt,
    Int,
    Float,
    Decimal,
    Boolean,
    String,
    Text,
    Binary,
    Timestamp,
    Date,
    Json,
    Null,
}

/// One value of a record. A float is held as its IEEE-754 bits, a timestamp
/// as milliseconds since the Unix epoch, a date as days since the Unix epoch.
#[derive(Debug, Clone, PartialEq, Eq, Hash)]
pub enum Field {
    UInt(u64),
    Int(i64),
    Float(u64),
    Boolean(bool),
    String(String),
    Text(String),
    Binary(Vec<u8>),
    Decimal(Decimal),
    Timestamp(i64),
    Date(i64),
    /// A JSON document, as its text.
    Json(String),
    Null,
}

/// The bits that stand for the float with bits `b` as a value: both zeros
/// are one value, and so are all NaNs.
pub open spec fn canonical_float(b: u64) -> u64 {
    if (b & 0x7ff0_0000_0000_0000u64) == 0x7ff0_0000_0000_0000u64 && (b & 0x000f_ffff_ffff_ffffu64) != 0 {
        0x7ff8_0000_0000_0000u64
    } else if b == 0x8000_0000_0000_0000u64 {
        0
    } else {
        b
    }
}

/// What a field holds, as a mathematical value.
pub enum FieldValue {
    UInt(u64),
    Int(i64),
    Float(u64),
    Boolean(bool),
    String(Seq<char>),
    Text(Seq<char>),
    Binary(Seq<u8>),
    /// A decimal's value as its key (see `decimal_key`).
    Decimal(int),
    Timestamp(i64),
    Date(i64),
    Json(Seq<char>),
    Null,
}

impl View for Field {
    type V = FieldValue;

    open spec fn view(&self) -> FieldValue {
        match self {
            Field::UInt(v) => FieldValue::UInt(*v),
            Field::Int(v) => FieldValue::Int(*v),
            Field::Float(v) => FieldValue::Float(canonical_float(*v)),
            Field::Boolean(v) => FieldValue::Boolean(*v),
            Field::String(v) => FieldValue::String(v@),
            Field::Text(v) => FieldValue::Text(v@),
            Field::Binary(v) => FieldValue::Binary(v@),
            Field::Decimal(d) => FieldValue::Decimal(d.key()),
            Field::Timestamp(v) => FieldValue::Timestamp(*v),
            Field::Date(v) => FieldValue::Date(*v),
            Field::Json(v) => FieldValue::Json(v@),
            Field::Null => FieldValue::Null,
        }
    }
}

impl Field {
    pub fn duplicate(&self) -> (r: Field)
        ensures
            r@ == self@,
    {
        match self {
            Field::UInt(v) => Field::UInt(*v),
            Field::Int(v) => Field::Int(*v),
            Field::Float(v) => Field::Float(*v),
            Field::Boolean(v) => Field::Boolean(*v),
            Field::String(v) => Field::String(v.clone()),
            Field::Text(v) => Field::Text(v.clone()),
            Field::Binary(v) => {
                let c = v.clone();
                assert(c@ =~= v@);
                Field::Binary(c)
            },
            Field::Decimal(d) => Field::Decimal(*d),
            Field::Timestamp(v) => Field::Timestamp(*v),
            Field::Date(v) => Field::Date(*v),
            Field::Json(v) => Field::Json(v.clone()),
            Field::Null => Field::Null,
        }
    }
}

/// How long a record is retained: a reference time and a span, in milliseconds.
#[derive(Debug, Clone, Copy, PartialEq, Eq, Structural, Hash)]
pub struct Lifetime {
    pub reference: i64,
    pub duration: i64,
}

/// Names a schema and its version.
#[derive(Debug, Clone, Copy, PartialEq, Eq, Structural, Hash)]
pub struct SchemaIdentifier {
    pub id: u32,
    pub version: u16,
}

/// A row: its values, an optional schema reference and version, and an
/// optional retention hint.
#[derive(Debug, Clone, PartialEq, Eq, Hash)]
pub struct Record {
    pub schema_id: Option<SchemaIdentifier>,
    pub values: Vec<Field>,
    pub version: Option<u32>,
    pub lifetime: Option<Lifetime>,
}

pub open spec fn field_values(values: Seq<Field>) -> Seq<FieldValue> {
    values.map_values(|f: Field| f@)
}

impl Record {
    pub fn new(schema_id: Option<SchemaIdentifier>, values: Vec<Field>, version: Option<u32>) -> (r: Record)
        ensures
            r.schema_id == schema_id,
            r.values == values,
            r.version == version,
            r.lifetime.is_none(),
    {
        Record { schema_id, values, version, lifetime: None }
    }

    pub fn set_lifetime(&mut self, lifetime: Option<Lifetime>)
        ensures
            final(self).lifetime == lifetime,
            final(self).values == old(self).values,
            final(self).schema_id == old(self).schema_id,
            final(self).version == old(self).version,
    {
        self.lifetime = lifetime;
    }

    /// A copy whose values hold the same as this record's.
    pub fn duplicate(&self) -> (r: Record)
        ensures
            field_values(r.values@) == field_values(self.values@),
            r.schema_id == self.schema_id,
            r.version == self.version,
            r.lifetime == self.lifetime,
    {
        let mut values: Vec<Field> = Vec::new();
        let mut i: usize = 0;
        while i < self.values.len()
            invariant
                i <= self.values@.len(),
                values@.len() == i,
                forall|j: int| 0 <= j < i ==> (#[trigger] values@[j])@ == self.values@[j]@,
            decreases self.values@.len() - i,
        {
            values.push(self.values[i].duplicate());
            i = i + 1;
        }
        assert(field_values(values@) =~= field_values(self.values@));
        Record { schema_id: self.schema_id, values, version: self.version, lifetime: self.lifetime }
    }
}

/// A change to one row: the payload of ordinary dataflow messages.
#[derive(Debug, Clone, PartialEq, Eq, Hash)]
pub enum Operation {
    Insert { new: Record },
    Delete { old: Record },
    Update { old: Record, new: Record },
}

/// Where a column comes from.
#[derive(Debug, Clone, PartialEq, Eq, Hash)]
pub enum SourceDefinition {
    Table { connection: String, name: String },
    Alias { name: String },
    Dynamic,
}

impl SourceDefinition {
    pub fn duplicate(&self) -> (r: SourceDefinition)
        ensures
            r == *self,
    {
        match self {
            SourceDefinition::Table { connection, name } => SourceDefinition::Table { connection: connection.clone(), name: name.clone() },
            SourceDefinition::Alias { name } => SourceDefinition::Alias { name: name.clone() },
            SourceDefinition::Dynamic => SourceDefinition::Dynamic,
        }
    }
}

/// One column of a schema.
#[derive(Debug, Clone, PartialEq, Eq, Hash)]
pub struct FieldDefinition {
    pub name: String,
    pub typ: FieldType,
    pub nullable: bool,
    pub source: SourceDefinition,
}

impl FieldDefinition {
    pub fn new(name: String, typ: FieldType, nullable: bool, source: SourceDefinition) -> (r: FieldDefinition)
        ensures
            r == (FieldDefinition { name, typ, nullable, source }),
    {
        FieldDefinition { name, typ, nullable, source }
    }

    pub fn duplicate(&self) -> (r: FieldDefinition)
        ensures
            r == *self,
    {
        FieldDefinition { name: self.name.clone(), typ: self.typ, nullable: self.nullable, source: self.source.duplicate() }
    }
}

/// Ordered column definitions, the positions of the primary key, and the
/// schema's identifier, if it has one.
#[derive(Debug, Clone, PartialEq, Eq, Hash)]
pub struct Schema {
    pub identifier: Option<SchemaIdentifier>,
    pub fields: Vec<FieldDefinition>,
    pub primary_index: Vec<usize>,
}

impl Schema {
    pub fn empty() -> (r: Schema)
        ensures
            r.fields@.len() == 0,
            r.primary_index@.len() == 0,
            r.identifier is None,
    {
        Schema { identifier: None, fields: Vec::new(), primary_index: Vec::new() }
    }

    /// A copy with the same columns and key.
    pub fn duplicate(&self) -> (r: Schema)
        ensures
            r.fields@ == self.fields@,
            r.primary_index@ == self.primary_index@,
            r.identifier == self.identifier,
    {
        let mut fields: Vec<FieldDefinition> = Vec::new();
        let mut i: usize = 0;
        while i < self.fields.len()
            invariant
                i <= self.fields@.len(),
                fields@ == self.fields@.subrange(0, i as int),
            decreases self.fields@.len() - i,
        {
            fields.push(self.fields[i].duplicate());
            i = i + 1;
        }
        assert(self.fields@.subrange(0, self.fields@.len() as int) =~= self.fields@);
        let primary_index = self.primary_index.clone();
        assert(primary_index@ =~= self.primary_index@);
        Schema { identifier: self.identifier, fields, primary_index }
    }

    /// Appends a column; when `is_primary` its position joins the primary key.
    pub fn field(&mut self, f: FieldDefinition, is_primary: bool) -> (r: &mut Schema)
        ensures
            r.fields@ == old(self).fields@.push(f),
            r.primary_index@ == if is_primary {
                old(self).primary_index@.push(old(self).fields@.len() as usize)
            } else {
                old(self).primary_index@
            },
            r.identifier == old(self).identifier,
            *final(self) == *final(r),
    {
        let pos = self.fields.len();
        self.fields.push(f);
        if is_primary {
            self.primary_index.push(pos);
        }
        self
    }
}

/// What a source emits, besides the identifier of the message.
#[derive(Debug, Clone, PartialEq, Eq)]
pub enum IngestionMessageKind {
    OperationEvent(Operation),
    SnapshottingDone { connection_name: String },
}

/// A message of a source: its identifier `(txid, seq_in_tx)` and its kind.
#[derive(Debug, Clone, PartialEq, Eq)]
pub struct IngestionMessage {
    pub txid: u64,
    pub seq_in_tx: u64,
    pub kind: IngestionMessageKind,
}

impl IngestionMessage {
    pub fn new_op(txid: u64, seq_in_tx: u64, op: Operation) -> (r: IngestionMessage)
        ensures
            r == (IngestionMessage { txid, seq_in_tx, kind: IngestionMessageKind::OperationEvent(op) }),
    {
        IngestionMessage { txid, seq_in_tx, kind: IngestionMessageKind::OperationEvent(op) }
    }
}

} // verus!
