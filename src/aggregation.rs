use vstd::prelude::*;
use crate::expression::{Expression, ExpressionType, PipelineError};
use crate::ordering::{field_eq, field_less, field_lt, lemma_field_trans};
use crate::decimal::{decimal_key, Decimal};
use crate::types::{Field, FieldType, FieldValue, Schema, SourceDefinition};

verus! {

/// The name under which MAX reports its errors.
pub open spec fn max_name() -> Seq<char> {
    seq!['M', 'A', 'X']
}

fn max_name_string() -> (r: String)
    ensures
        r@ == max_name(),
{
    let r = String::from_str("MAX");
    proof {
        reveal_strlit("MAX");
    }
    assert(r@ =~= max_name());
    r
}

/// The argument types MAX takes, in the order its errors list them.
pub open spec fn max_argument_types() -> Seq<FieldType> {
    seq![FieldType::Decimal, FieldType::UInt, FieldType::Int, FieldType::Float, FieldType::Timestamp, FieldType::Date]
}

pub open spec fn max_accepts(t: FieldType) -> bool {
    max_argument_types().contains(t)
}

/// Types the first argument of MAX over records of `schema`. MAX returns the
/// type of its argument, may be null, and comes from no table; it takes
/// decimals, integers, floats, timestamps and dates only.
pub fn validate_max(args: &Vec<Expression>, schema: &Schema) -> (r: Result<ExpressionType, PipelineError>)
    ensures
        args@.len() == 0 ==> (r matches Err(PipelineError::NotEnoughArguments(name)) && name@ == max_name()),
        args@.len() > 0 ==> match args@[0].spec_type(*schema) {
            Err(e) => r == Err::<ExpressionType, PipelineError>(e),
            Ok(t) => if max_accepts(t.return_type) {
                r == Ok::<ExpressionType, PipelineError>(ExpressionType {
                    return_type: t.return_type,
                    nullable: true,
                    source: SourceDefinition::Dynamic,
                    is_primary_key: false,
                })
            } else {
                (r matches Err(PipelineError::InvalidFunctionArgumentType(name, given, accepted, position))
                    && name@ == max_name() && given == t.return_type && accepted@ == max_argument_types()
                    && position == 0)
            },
        },
{
    if args.len() == 0 {
        return Err(PipelineError::NotEnoughArguments(max_name_string()));
    }
    let arg = args[0].get_type(schema)?;
    let ret_type = match arg.return_type {
        FieldType::Decimal => FieldType::Decimal,
        FieldType::Int => FieldType::Int,
        FieldType::UInt => FieldType::UInt,
        FieldType::Float => FieldType::Float,
        FieldType::Timestamp => FieldType::Timestamp,
        FieldType::Date => FieldType::Date,
        r => {
            let accepted = vec![
                FieldType::Decimal,
                FieldType::UInt,
                FieldType::Int,
                FieldType::Float,
                FieldType::Timestamp,
                FieldType::Date,
            ];
            assert(accepted@ =~= max_argument_types());
            proof {
                assert(!max_accepts(r)) by {
                    if max_argument_types().contains(r) {
                        let k = choose|k: int| 0 <= k < 6 && max_argument_types()[k] == r;
                    }
                }
            }
            return Err(PipelineError::InvalidFunctionArgumentType(max_name_string(), r, accepted, 0));
        },
    };
    assert(max_argument_types().contains(ret_type)) by {
        if ret_type == FieldType::Decimal { assert(max_argument_types()[0] == ret_type); }
        if ret_type == FieldType::UInt { assert(max_argument_types()[1] == ret_type); }
        if ret_type == FieldType::Int { assert(max_argument_types()[2] == ret_type); }
        if ret_type == FieldType::Float { assert(max_argument_types()[3] == ret_type); }
        if ret_type == FieldType::Timestamp { assert(max_argument_types()[4] == ret_type); }
        if ret_type == FieldType::Date { assert(max_argument_types()[5] == ret_type); }
    }
    Ok(ExpressionType::new(ret_type, true, SourceDefinition::Dynamic, false))
}

/// How many times `w` is held, given the entries of a counting state.
pub open spec fn count_in(entries: Seq<(FieldValue, u64)>, w: FieldValue) -> u64 {
    if exists|i: int| 0 <= i < entries.len() && entries[i].0 == w {
        entries[choose|i: int| 0 <= i < entries.len() && entries[i].0 == w].1
    } else {
        0
    }
}

/// The count of `w` after the values `vals` were added one by one; nulls are
/// not counted, and a count stops at the largest `u64`.
pub open spec fn after_insert(c: u64, vals: Seq<FieldValue>, w: FieldValue) -> u64
    decreases vals.len(),
{
    if vals.len() == 0 {
        c
    } else {
        let prev = after_insert(c, vals.drop_last(), w);
        if vals.last() == w && w != FieldValue::Null && prev < u64::MAX {
            (prev + 1) as u64
        } else {
            prev
        }
    }
}

/// The count of `w` after the values `vals` were removed one by one; a value
/// that is not held stays absent.
pub open spec fn after_delete(c: u64, vals: Seq<FieldValue>, w: FieldValue) -> u64
    decreases vals.len(),
{
    if vals.len() == 0 {
        c
    } else {
        let prev = after_delete(c, vals.drop_last(), w);
        if vals.last() == w && w != FieldValue::Null && prev > 0 {
            (prev - 1) as u64
        } else {
            prev
        }
    }
}

pub open spec fn values_of(fields: Seq<Field>) -> Seq<FieldValue> {
    fields.map_values(|f: Field| f@)
}

/// The largest held value, converted to the return type: an unsigned or
/// signed integer converts between the two when it fits, and to a decimal;
/// a float, a decimal, a timestamp or a date stays as it is; other return
/// types are not supported.
pub open spec fn convert_max(v: FieldValue, rt: Option<FieldType>) -> Result<FieldValue, PipelineError> {
    match rt {
        None => Err(PipelineError::UnsupportedReturnType(None)),
        Some(FieldType::UInt) => match v {
            FieldValue::UInt(u) => Ok(FieldValue::UInt(u)),
            FieldValue::Int(i) => if i >= 0 { Ok(FieldValue::UInt(i as u64)) } else { Err(PipelineError::InvalidReturnValue(FieldType::UInt)) },
            _ => Err(PipelineError::InvalidReturnValue(FieldType::UInt)),
        },
        Some(FieldType::Int) => match v {
            FieldValue::Int(i) => Ok(FieldValue::Int(i)),
            FieldValue::UInt(u) => if u <= i64::MAX { Ok(FieldValue::Int(u as i64)) } else { Err(PipelineError::InvalidReturnValue(FieldType::Int)) },
            _ => Err(PipelineError::InvalidReturnValue(FieldType::Int)),
        },
        Some(FieldType::Float) => match v {
            FieldValue::Float(f) => Ok(FieldValue::Float(f)),
            _ => Err(PipelineError::InvalidReturnValue(FieldType::Float)),
        },
        Some(FieldType::Decimal) => match v {
            FieldValue::Decimal(k) => Ok(FieldValue::Decimal(k)),
            FieldValue::Int(i) => Ok(FieldValue::Decimal(decimal_key(i as i128, 0))),
            FieldValue::UInt(u) => Ok(FieldValue::Decimal(decimal_key(u as i128, 0))),
            _ => Err(PipelineError::InvalidReturnValue(FieldType::Decimal)),
        },
        Some(FieldType::Timestamp) => match v {
            FieldValue::Timestamp(t) => Ok(FieldValue::Timestamp(t)),
            _ => Err(PipelineError::InvalidReturnValue(FieldType::Timestamp)),
        },
        Some(FieldType::Date) => match v {
            FieldValue::Date(d) => Ok(FieldValue::Date(d)),
            _ => Err(PipelineError::InvalidReturnValue(FieldType::Date)),
        },
        Some(t) => Err(PipelineError::UnsupportedReturnType(Some(t))),
    }
}

pub open spec fn result_view(r: Result<Field, PipelineError>) -> Result<FieldValue, PipelineError> {
    match r {
        Ok(f) => Ok(f@),
        Err(e) => Err(e),
    }
}

/// The running maximum of a column: how many times each non-null value is
/// currently held, and the type the maximum is reported in.
#[derive(Debug)]
pub struct MaxAggregator {
    current_state: Vec<(Field, u64)>,
    return_type: Option<FieldType>,
}

impl MaxAggregator {
    /// The held values and their counts.
    pub closed spec fn entries(&self) -> Seq<(FieldValue, u64)> {
        self.current_state@.map_values(|e: (Field, u64)| (e.0@, e.1))
    }

    pub closed spec fn spec_return_type(&self) -> Option<FieldType> {
        self.return_type
    }

    /// Each held value appears once, is not null, and is held at least once.
    pub open spec fn wf(&self) -> bool {
        let e = self.entries();
        &&& forall|i: int, j: int| 0 <= i < e.len() && 0 <= j < e.len() && i != j ==> #[trigger] e[i].0 != #[trigger] e[j].0
        &&& forall|i: int| 0 <= i < e.len() ==> (#[trigger] e[i]).0 != FieldValue::Null && e[i].1 >= 1
    }

    /// The result that the state owes: null when nothing is held, else the
    /// conversion of a held value that no held value exceeds.
    pub open spec fn max_result(&self, r: Result<FieldValue, PipelineError>) -> bool {
        let e = self.entries();
        if e.len() == 0 {
            r == Ok::<FieldValue, PipelineError>(FieldValue::Null)
        } else {
            exists|i: int| 0 <= i < e.len()
                && (forall|j: int| 0 <= j < e.len() ==> !field_lt(#[trigger] e[i].0, e[j].0))
                && r == convert_max(e[i].0, self.spec_return_type())
        }
    }

    pub fn new() -> (r: MaxAggregator)
        ensures
            r.wf(),
            r.entries().len() == 0,
            r.spec_return_type() is None,
    {
        let r = MaxAggregator { current_state: Vec::new(), return_type: None };
        assert(r.entries() =~= Seq::<(FieldValue, u64)>::empty());
        r
    }

    /// Sets the type in which the maximum is reported.
    pub fn init(&mut self, return_type: FieldType)
        ensures
            final(self).entries() == old(self).entries(),
            final(self).spec_return_type() == Some(return_type),
    {
        self.return_type = Some(return_type);
    }

    fn find(&self, v: &Field) -> (r: Option<usize>)
        requires
            self.wf(),
        ensures
            match r {
                Some(i) => i < self.entries().len() && self.entries()[i as int].0 == v@,
                None => forall|i: int| 0 <= i < self.entries().len() ==> (#[trigger] self.entries()[i]).0 != v@,
            },
    {
        let mut i: usize = 0;
        while i < self.current_state.len()
            invariant
                i <= self.current_state@.len(),
                forall|j: int| 0 <= j < i ==> (#[trigger] self.entries()[j]).0 != v@,
            decreases self.current_state@.len() - i,
        {
            if field_eq(&self.current_state[i].0, v) {
                return Some(i);
            }
            i = i + 1;
        }
        None
    }

    proof fn lemma_count_at(&self, i: int)
        requires
            self.wf(),
            0 <= i < self.entries().len(),
        ensures
            count_in(self.entries(), self.entries()[i].0) == self.entries()[i].1,
    {
        let e = self.entries();
        let k = choose|k: int| 0 <= k < e.len() && e[k].0 == e[i].0;
        if k != i {
            assert(e[k].0 != e[i].0);
        }
    }

    /// Adds (or, when `decr`, removes) one occurrence of `v`.
    fn update_one(&mut self, v: &Field, decr: bool)
        requires
            old(self).wf(),
        ensures
            final(self).wf(),
            final(self).spec_return_type() == old(self).spec_return_type(),
            forall|w: FieldValue| #[trigger] count_in(final(self).entries(), w) == if w != v@ || w == FieldValue::Null {
                count_in(old(self).entries(), w)
            } else if decr {
                if count_in(old(self).entries(), w) > 0 { (count_in(old(self).entries(), w) - 1) as u64 } else { 0 }
            } else {
                if count_in(old(self).entries(), w) < u64::MAX { (count_in(old(self).entries(), w) + 1) as u64 } else { u64::MAX }
            },
    {
        let ghost e0 = self.entries();
        if let Field::Null = v {
            return;
        }
        assert(v@ != FieldValue::Null);
        match self.find(v) {
            Some(i) => {
                let c = self.current_state[i].1;
                proof { self.lemma_count_at(i as int); }
                if decr {
                    if c <= 1 {
                        self.current_state.remove(i);
                        let ghost e1 = self.entries();
                        assert(e1 =~= e0.remove(i as int));
                        assert forall|w: FieldValue| #[trigger] count_in(e1, w) == if w != v@ { count_in(e0, w) } else { 0 } by {
                            if w != v@ {
                                if exists|k: int| 0 <= k < e0.len() && e0[k].0 == w {
                                    let k = choose|k: int| 0 <= k < e0.len() && e0[k].0 == w;
                                    assert(k != i);
                                    let k1 = if k < i { k } else { k - 1 };
                                    assert(e1[k1].0 == w);
                                    self.lemma_count_at(k1);
                                    assert(count_in(e0, w) == e0[k].1) by {
                                        let kk = choose|kk: int| 0 <= kk < e0.len() && e0[kk].0 == w;
                                        if kk != k { assert(e0[kk].0 != e0[k].0); }
                                    }
                                } else {
                                    assert forall|k: int| 0 <= k < e1.len() implies e1[k].0 != w by {
                                        let k0 = if k < i { k } else { k + 1 };
                                        assert(e1[k] == e0[k0]);
                                    }
                                }
                            } else {
                                assert forall|k: int| 0 <= k < e1.len() implies e1[k].0 != w by {
                                    let k0 = if k < i { k } else { k + 1 };
                                    assert(e1[k] == e0[k0]);
                                    assert(k0 != i);
                                }
                            }
                        }
                    } else {
                        let entry = (self.current_state[i].0.duplicate(), c - 1);
                        self.current_state.set(i, entry);
                        assert(self.entries() =~= e0.update(i as int, (v@, (c - 1) as u64)));
                        proof { self.after_set(e0, i as int, v@); }
                    }
                } else if c < u64::MAX {
                    let entry = (self.current_state[i].0.duplicate(), c + 1);
                    self.current_state.set(i, entry);
                    assert(self.entries() =~= e0.update(i as int, (v@, (c + 1) as u64)));
                    proof { self.after_set(e0, i as int, v@); }
                }
            },
            None => {
                assert(count_in(e0, v@) == 0);
                if !decr {
                    self.current_state.push((v.duplicate(), 1));
                    let ghost e1 = self.entries();
                    assert(e1 =~= e0.push((v@, 1u64)));
                    assert forall|w: FieldValue| #[trigger] count_in(e1, w) == if w != v@ { count_in(e0, w) } else { 1 } by {
                        self.lemma_count_at(e0.len() as int);
                        if w != v@ {
                            if exists|k: int| 0 <= k < e0.len() && e0[k].0 == w {
                                let k = choose|k: int| 0 <= k < e0.len() && e0[k].0 == w;
                                assert(e1[k] == e0[k]);
                                self.lemma_count_at(k);
                                assert(count_in(e0, w) == e0[k].1) by {
                                    let kk = choose|kk: int| 0 <= kk < e0.len() && e0[kk].0 == w;
                                    if kk != k { assert(e0[kk].0 != e0[k].0); }
                                }
                            } else {
                                assert forall|k: int| 0 <= k < e1.len() implies e1[k].0 != w by {
                                    if k < e0.len() { assert(e1[k] == e0[k]); }
                                }
                            }
                        }
                    }
                }
            },
        }
    }

    proof fn after_set(&self, e0: Seq<(FieldValue, u64)>, i: int, v: FieldValue)
        requires
            self.wf(),
            e0.len() == self.entries().len(),
            0 <= i < e0.len(),
            e0[i].0 == v,
            self.entries() == e0.update(i, self.entries()[i]),
            self.entries()[i].0 == v,
            forall|a: int, b: int| 0 <= a < e0.len() && 0 <= b < e0.len() && a != b ==> #[trigger] e0[a].0 != #[trigger] e0[b].0,
        ensures
            forall|w: FieldValue| #[trigger] count_in(self.entries(), w) == if w != v { count_in(e0, w) } else { self.entries()[i].1 },
    {
        let e1 = self.entries();
        assert forall|w: FieldValue| #[trigger] count_in(e1, w) == if w != v { count_in(e0, w) } else { e1[i].1 } by {
            if w == v {
                self.lemma_count_at(i);
            } else if exists|k: int| 0 <= k < e0.len() && e0[k].0 == w {
                let k = choose|k: int| 0 <= k < e0.len() && e0[k].0 == w;
                assert(k != i);
                assert(e1[k] == e0[k]);
                self.lemma_count_at(k);
                let kk = choose|kk: int| 0 <= kk < e0.len() && e0[kk].0 == w;
                if kk != k { assert(e0[kk].0 != e0[k].0); }
            } else {
                assert forall|k: int| 0 <= k < e1.len() implies e1[k].0 != w by {
                    if k != i { assert(e1[k] == e0[k]); }
                }
            }
        }
    }

    fn update_all(&mut self, fields: &[Field], decr: bool)
        requires
            old(self).wf(),
        ensures
            final(self).wf(),
            final(self).spec_return_type() == old(self).spec_return_type(),
            forall|w: FieldValue| #[trigger] count_in(final(self).entries(), w) == if decr {
                after_delete(count_in(old(self).entries(), w), values_of(fields@), w)
            } else {
                after_insert(count_in(old(self).entries(), w), values_of(fields@), w)
            },
    {
        let mut k: usize = 0;
        while k < fields.len()
            invariant
                self.wf(),
                self.spec_return_type() == old(self).spec_return_type(),
                k <= fields@.len(),
                forall|w: FieldValue| #[trigger] count_in(self.entries(), w) == if decr {
                    after_delete(count_in(old(self).entries(), w), values_of(fields@.subrange(0, k as int)), w)
                } else {
                    after_insert(count_in(old(self).entries(), w), values_of(fields@.subrange(0, k as int)), w)
                },
            decreases fields@.len() - k,
        {
            self.update_one(&fields[k], decr);
            proof {
                let prefix = values_of(fields@.subrange(0, k + 1));
                assert(prefix.drop_last() =~= values_of(fields@.subrange(0, k as int)));
                assert(prefix.last() == fields@[k as int]@);
            }
            k = k + 1;
        }
        assert(fields@.subrange(0, fields@.len() as int) =~= fields@);
    }

    fn get_max(&self) -> (r: Result<Field, PipelineError>)
        requires
            self.wf(),
        ensures
            self.max_result(result_view(r)),
    {
        if self.current_state.len() == 0 {
            return Ok(Field::Null);
        }
        let mut best: usize = 0;
        let mut i: usize = 1;
        proof {
            lemma_irreflexive(self.entries()[0].0);
        }
        while i < self.current_state.len()
            invariant
                self.wf(),
                1 <= i <= self.entries().len(),
                best < i,
                forall|j: int| 0 <= j < i ==> !field_lt(self.entries()[best as int].0, #[trigger] self.entries()[j].0),
            decreases self.entries().len() - i,
        {
            if field_less(&self.current_state[best].0, &self.current_state[i].0) {
                proof {
                    let e = self.entries();
                    assert forall|j: int| 0 <= j < i + 1 implies !field_lt(e[i as int].0, #[trigger] e[j].0) by {
                        if j < i && field_lt(e[i as int].0, e[j].0) {
                            lemma_field_trans(e[best as int].0, e[i as int].0, e[j].0);
                        }
                        if j == i {
                            lemma_irreflexive(e[j].0);
                        }
                    }
                }
                best = i;
            }
            i = i + 1;
        }
        let val = &self.current_state[best].0;
        let r = match self.return_type {
            None => Err(PipelineError::UnsupportedReturnType(None)),
            Some(FieldType::UInt) => match val {
                Field::UInt(u) => Ok(Field::UInt(*u)),
                Field::Int(x) => if *x >= 0 { Ok(Field::UInt(*x as u64)) } else { Err(PipelineError::InvalidReturnValue(FieldType::UInt)) },
                _ => Err(PipelineError::InvalidReturnValue(FieldType::UInt)),
            },
            Some(FieldType::Int) => match val {
                Field::Int(x) => Ok(Field::Int(*x)),
                Field::UInt(u) => if *u <= i64::MAX as u64 { Ok(Field::Int(*u as i64)) } else { Err(PipelineError::InvalidReturnValue(FieldType::Int)) },
                _ => Err(PipelineError::InvalidReturnValue(FieldType::Int)),
            },
            Some(FieldType::Float) => match val {
                Field::Float(f) => Ok(Field::Float(*f)),
                _ => Err(PipelineError::InvalidReturnValue(FieldType::Float)),
            },
            Some(FieldType::Decimal) => match val {
                Field::Decimal(d) => Ok(Field::Decimal(*d)),
                Field::Int(x) => whole_decimal(*x as i128),
                Field::UInt(u) => whole_decimal(*u as i128),
                _ => Err(PipelineError::InvalidReturnValue(FieldType::Decimal)),
            },
            Some(FieldType::Timestamp) => match val {
                Field::Timestamp(t) => Ok(Field::Timestamp(*t)),
                _ => Err(PipelineError::InvalidReturnValue(FieldType::Timestamp)),
            },
            Some(FieldType::Date) => match val {
                Field::Date(d) => Ok(Field::Date(*d)),
                _ => Err(PipelineError::InvalidReturnValue(FieldType::Date)),
            },
            Some(t) => Err(PipelineError::UnsupportedReturnType(Some(t))),
        };
        assert(self.entries()[best as int].0 == val@);
        r
    }

    /// Counts each non-null value of `new` once more, then reports the maximum.
    pub fn insert(&mut self, new: &[Field]) -> (r: Result<Field, PipelineError>)
        requires
            old(self).wf(),
        ensures
            final(self).wf(),
            final(self).spec_return_type() == old(self).spec_return_type(),
            forall|w: FieldValue| #[trigger] count_in(final(self).entries(), w)
                == after_insert(count_in(old(self).entries(), w), values_of(new@), w),
            final(self).max_result(result_view(r)),
    {
        self.update_all(new, false);
        self.get_max()
    }

    /// Counts each non-null value of `removed` once less, then reports the maximum.
    pub fn delete(&mut self, removed: &[Field]) -> (r: Result<Field, PipelineError>)
        requires
            old(self).wf(),
        ensures
            final(self).wf(),
            final(self).spec_return_type() == old(self).spec_return_type(),
            forall|w: FieldValue| #[trigger] count_in(final(self).entries(), w)
                == after_delete(count_in(old(self).entries(), w), values_of(removed@), w),
            final(self).max_result(result_view(r)),
    {
        self.update_all(removed, true);
        self.get_max()
    }

    /// Removes `removed`, then adds `added`; stops after the removal when its
    /// maximum cannot be reported, leaving the counts as the removal left them.
    pub fn update(&mut self, removed: &[Field], added: &[Field]) -> (r: Result<Field, PipelineError>)
        requires
            old(self).wf(),
        ensures
            final(self).wf(),
            final(self).spec_return_type() == old(self).spec_return_type(),
            final(self).max_result(result_view(r)),
            r is Ok ==> forall|w: FieldValue| #[trigger] count_in(final(self).entries(), w)
                == after_insert(after_delete(count_in(old(self).entries(), w), values_of(removed@), w), values_of(added@), w),
            r is Err ==> (forall|w: FieldValue| #[trigger] count_in(final(self).entries(), w)
                    == after_delete(count_in(old(self).entries(), w), values_of(removed@), w))
                || (forall|w: FieldValue| #[trigger] count_in(final(self).entries(), w)
                    == after_insert(after_delete(count_in(old(self).entries(), w), values_of(removed@), w), values_of(added@), w)),
    {
        let ghost start = self.entries();
        self.delete(removed)?;
        let ghost mid = self.entries();
        let r = self.insert(added);
        assert forall|w: FieldValue| #[trigger] count_in(self.entries(), w)
            == after_insert(after_delete(count_in(start, w), values_of(removed@), w), values_of(added@), w) by {
            assert(count_in(mid, w) == after_delete(count_in(start, w), values_of(removed@), w));
        }
        r
    }
}

/// The decimal with value `m`.
fn whole_decimal(m: i128) -> (r: Result<Field, PipelineError>)
    ensures
        result_view(r) == Ok::<FieldValue, PipelineError>(FieldValue::Decimal(decimal_key(m, 0))),
{
    match Decimal::new(m, 0) {
        Some(d) => Ok(Field::Decimal(d)),
        None => Err(PipelineError::InvalidReturnValue(FieldType::Decimal)),
    }
}

proof fn lemma_irreflexive(a: FieldValue)
    ensures
        !field_lt(a, a),
{
    match a {
        FieldValue::String(x) => lemma_lex_irreflexive(crate::ordering::char_codes(x)),
        FieldValue::Text(x) => lemma_lex_irreflexive(crate::ordering::char_codes(x)),
        FieldValue::Binary(x) => lemma_lex_irreflexive(crate::ordering::byte_codes(x)),
        FieldValue::Json(x) => lemma_lex_irreflexive(crate::ordering::char_codes(x)),
        _ => {},
    }
}

proof fn lemma_lex_irreflexive(a: Seq<u32>)
    ensures
        !crate::ordering::lex_lt(a, a),
    decreases a.len(),
{
    if a.len() > 0 {
        lemma_lex_irreflexive(a.drop_first());
    }
}

} // verus!
