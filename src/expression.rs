use vstd::prelude::*;
use crate::types::{Field, FieldType, FieldValue, Record, Schema, SourceDefinition};

verus! {

/// Why an expression or an aggregate could not be typed or evaluated.
#[derive(Debug, Clone, PartialEq, Eq)]
pub enum PipelineError {
    /// The function, named here, was given too few arguments.
    NotEnoughArguments(String),
    /// The function got an argument of a type it does not take: the function,
    /// the type given, the types it takes, and the position of the argument.
    InvalidFunctionArgumentType(String, FieldType, Vec<FieldType>, usize),
    /// A column reference beyond the record or the schema.
    InvalidColumnIndex(usize),
    /// An aggregate result that cannot be expressed in the return type.
    InvalidReturnValue(FieldType),
    /// An aggregate asked to produce a return type it does not support, or
    /// used before its return type was set.
    UnsupportedReturnType(Option<FieldType>),
}

/// The type of an expression's result, whether it may be null, where it comes
/// from, and whether it is part of the primary key.
#[derive(Debug, Clone, PartialEq, Eq)]
pub struct ExpressionType {
    pub return_type: FieldType,
    pub nullable: bool,
    pub source: SourceDefinition,
    pub is_primary_key: bool,
}

impl ExpressionType {
    pub fn new(return_type: FieldType, nullable: bool, source: SourceDefinition, is_primary_key: bool) -> (r: ExpressionType)
        ensures
            r == (ExpressionType { return_type, nullable, source, is_primary_key }),
    {
        ExpressionType { return_type, nullable, source, is_primary_key }
    }
}

/// A projection expression: a column of the input record, or a constant.
#[derive(Debug, Clone, PartialEq, Eq)]
pub enum Expression {
    Column { index: usize },
    Literal(Field),
}

/// The type of a value.
pub open spec fn type_of_value(v: FieldValue) -> FieldType {
    match v {
        FieldValue::UInt(_) => FieldType::UInt,
        FieldValue::Int(_) => FieldType::Int,
        FieldValue::Float(_) => FieldType::Float,
        FieldValue::Boolean(_) => FieldType::Boolean,
        FieldValue::String(_) => FieldType::String,
        FieldValue::Text(_) => FieldType::Text,
        FieldValue::Binary(_) => FieldType::Binary,
        FieldValue::Decimal(_) => FieldType::Decimal,
        FieldValue::Timestamp(_) => FieldType::Timestamp,
        FieldValue::Date(_) => FieldType::Date,
        FieldValue::Json(_) => FieldType::Json,
        FieldValue::Null => FieldType::Null,
    }
}

fn value_type(f: &Field) -> (r: FieldType)
    ensures
        r == type_of_value(f@),
{
    match f {
        Field::UInt(_) => FieldType::UInt,
        Field::Int(_) => FieldType::Int,
        Field::Float(_) => FieldType::Float,
        Field::Boolean(_) => FieldType::Boolean,
        Field::String(_) => FieldType::String,
        Field::Text(_) => FieldType::Text,
        Field::Binary(_) => FieldType::Binary,
        Field::Decimal(_) => FieldType::Decimal,
        Field::Timestamp(_) => FieldType::Timestamp,
        Field::Date(_) => FieldType::Date,
        Field::Json(_) => FieldType::Json,
        Field::Null => FieldType::Null,
    }
}

impl Expression {
    /// The type of the expression over records of `schema`: a column has the
    /// type, nullability and origin of its definition and is a key when its
    /// position is in the primary index; a constant has the type of its value,
    /// is not nullable and comes from no table.
    pub open spec fn spec_type(&self, schema: Schema) -> Result<ExpressionType, PipelineError> {
        match self {
            Expression::Column { index } => if *index < schema.fields@.len() {
                let fd = schema.fields@[*index as int];
                Ok(ExpressionType {
                    return_type: fd.typ,
                    nullable: fd.nullable,
                    source: fd.source,
                    is_primary_key: schema.primary_index@.contains(*index),
                })
            } else {
                Err(PipelineError::InvalidColumnIndex(*index))
            },
            Expression::Literal(f) => Ok(ExpressionType {
                return_type: type_of_value(f@),
                nullable: false,
                source: SourceDefinition::Dynamic,
                is_primary_key: false,
            }),
        }
    }

    pub fn get_type(&self, schema: &Schema) -> (r: Result<ExpressionType, PipelineError>)
        ensures
            r == self.spec_type(*schema),
    {
        match self {
            Expression::Column { index } => {
                if *index < schema.fields.len() {
                    let fd = &schema.fields[*index];
                    let mut key = false;
                    let mut j: usize = 0;
                    while j < schema.primary_index.len()
                        invariant
                            j <= schema.primary_index@.len(),
                            key == (exists|k: int| 0 <= k < j && schema.primary_index@[k] == *index),
                        decreases schema.primary_index@.len() - j,
                    {
                        if schema.primary_index[j] == *index {
                            key = true;
                        }
                        j = j + 1;
                    }
                    Ok(ExpressionType::new(fd.typ, fd.nullable, fd.source.duplicate(), key))
                } else {
                    Err(PipelineError::InvalidColumnIndex(*index))
                }
            },
            Expression::Literal(f) => Ok(ExpressionType::new(value_type(f), false, SourceDefinition::Dynamic, false)),
        }
    }

    /// The value of the expression on `record`.
    pub open spec fn spec_evaluate(&self, record: Record) -> Result<FieldValue, PipelineError> {
        match self {
            Expression::Column { index } => if *index < record.values@.len() {
                Ok(record.values@[*index as int]@)
            } else {
                Err(PipelineError::InvalidColumnIndex(*index))
            },
            Expression::Literal(f) => Ok(f@),
        }
    }

    pub fn evaluate(&self, record: &Record) -> (r: Result<Field, PipelineError>)
        ensures
            match r {
                Ok(f) => self.spec_evaluate(*record) == Ok::<FieldValue, PipelineError>(f@),
                Err(e) => self.spec_evaluate(*record) == Err::<FieldValue, PipelineError>(e),
            },
    {
        match self {
            Expression::Column { index } => {
                if *index < record.values.len() {
                    Ok(record.values[*index].duplicate())
                } else {
                    Err(PipelineError::InvalidColumnIndex(*index))
                }
            },
            Expression::Literal(f) => Ok(f.duplicate()),
        }
    }
}

} // verus!
