use vstd::prelude::*;
use vstd::string::StringExecFns;
use crate::epoch::Epoch;
use crate::executor::Processor;
use crate::expression::{Expression, PipelineError};
use crate::types::{field_values, FieldValue, Operation, PortHandle, Record, Schema, DEFAULT_PORT_HANDLE};

verus! {

/// The values of `exprs` on `record`, in order, or the error of the first
/// expression that cannot be evaluated.
pub open spec fn project_spec(exprs: Seq<Expression>, record: Record) -> Result<Seq<FieldValue>, PipelineError>
    decreases exprs.len(),
{
    if exprs.len() == 0 {
        Ok(Seq::empty())
    } else {
        match project_spec(exprs.drop_last(), record) {
            Err(e) => Err(e),
            Ok(vs) => match exprs.last().spec_evaluate(record) {
                Err(e) => Err(e),
                Ok(v) => Ok(vs.push(v)),
            },
        }
    }
}

/// The record that projecting `record` gives, when it succeeds: the values
/// of the expressions, the lifetime of the input, no schema or version.
pub open spec fn is_projection(out: Record, exprs: Seq<Expression>, record: Record) -> bool {
    &&& project_spec(exprs, record) == Ok::<Seq<FieldValue>, PipelineError>(field_values(out.values@))
    &&& out.lifetime == record.lifetime
    &&& out.schema_id is None
    &&& out.version is None
}

/// Evaluates a list of expressions on each record that passes.
#[derive(Debug)]
pub struct ProjectionProcessor {
    expressions: Vec<Expression>,
    input_schema: Schema,
}

impl ProjectionProcessor {
    pub closed spec fn spec_expressions(&self) -> Seq<Expression> {
        self.expressions@
    }

    pub closed spec fn spec_input_schema(&self) -> Schema {
        self.input_schema
    }

    pub fn new(input_schema: Schema, expressions: Vec<Expression>) -> (r: ProjectionProcessor)
        ensures
            r.spec_expressions() == expressions@,
            r.spec_input_schema() == input_schema,
    {
        ProjectionProcessor { input_schema, expressions }
    }

    fn project(&self, record: &Record) -> (r: Result<Record, PipelineError>)
        ensures
            match r {
                Ok(out) => is_projection(out, self.expressions@, *record),
                Err(e) => project_spec(self.expressions@, *record) == Err::<Seq<FieldValue>, PipelineError>(e),
            },
    {
        let mut values: Vec<crate::types::Field> = Vec::new();
        let mut i: usize = 0;
        assert(field_values(values@) =~= Seq::<FieldValue>::empty());
        assert(self.expressions@.subrange(0, 0) =~= Seq::<Expression>::empty());
        while i < self.expressions.len()
            invariant
                i <= self.expressions@.len(),
                project_spec(self.expressions@.subrange(0, i as int), *record)
                    == Ok::<Seq<FieldValue>, PipelineError>(field_values(values@)),
            decreases self.expressions@.len() - i,
        {
            let ghost prefix = self.expressions@.subrange(0, i + 1);
            assert(prefix.drop_last() =~= self.expressions@.subrange(0, i as int));
            assert(prefix.last() == self.expressions@[i as int]);
            match self.expressions[i].evaluate(record) {
                Err(e) => {
                    proof {
                        lemma_project_prefix_err(self.expressions@, *record, i + 1, e);
                    }
                    return Err(e);
                },
                Ok(f) => {
                    let ghost before = values@;
                    let ghost fv = f@;
                    values.push(f);
                    assert(field_values(values@) =~= field_values(before).push(fv));
                },
            }
            i = i + 1;
        }
        assert(self.expressions@.subrange(0, self.expressions@.len() as int) =~= self.expressions@);
        let mut out = Record::new(None, values, None);
        out.set_lifetime(record.lifetime);
        Ok(out)
    }

    /// The deletion of the projected record.
    pub fn delete(&mut self, record: &Record) -> (r: Result<Operation, PipelineError>)
        ensures
            *final(self) == *old(self),
            match r {
                Ok(op) => op matches Operation::Delete { old: o } && is_projection(o, old(self).spec_expressions(), *record),
                Err(e) => project_spec(old(self).spec_expressions(), *record) == Err::<Seq<FieldValue>, PipelineError>(e),
            },
    {
        let out = self.project(record)?;
        Ok(Operation::Delete { old: out })
    }

    /// The insertion of the projected record.
    pub fn insert(&mut self, record: &Record) -> (r: Result<Operation, PipelineError>)
        ensures
            *final(self) == *old(self),
            match r {
                Ok(op) => op matches Operation::Insert { new } && is_projection(new, old(self).spec_expressions(), *record),
                Err(e) => project_spec(old(self).spec_expressions(), *record) == Err::<Seq<FieldValue>, PipelineError>(e),
            },
    {
        let out = self.project(record)?;
        Ok(Operation::Insert { new: out })
    }

    /// The update from the projected old record to the projected new one.
    /// Each expression is evaluated on the old record, then on the new one,
    /// before the next expression; the first evaluation that fails decides
    /// the error.
    pub fn update(&self, before: &Record, after: &Record) -> (r: Result<Operation, PipelineError>)
        ensures
            match r {
                Ok(op) => op matches Operation::Update { old: o, new: n }
                    && is_pair_projection(o, n, self.spec_expressions(), *before, *after),
                Err(e) => project_pair(self.spec_expressions(), *before, *after)
                    == Err::<(Seq<FieldValue>, Seq<FieldValue>), PipelineError>(e),
            },
    {
        let mut ov: Vec<crate::types::Field> = Vec::new();
        let mut nv: Vec<crate::types::Field> = Vec::new();
        let mut i: usize = 0;
        assert(field_values(ov@) =~= Seq::<FieldValue>::empty());
        assert(self.expressions@.subrange(0, 0) =~= Seq::<Expression>::empty());
        while i < self.expressions.len()
            invariant
                i <= self.expressions@.len(),
                project_pair(self.expressions@.subrange(0, i as int), *before, *after)
                    == Ok::<(Seq<FieldValue>, Seq<FieldValue>), PipelineError>((field_values(ov@), field_values(nv@))),
            decreases self.expressions@.len() - i,
        {
            let ghost prefix = self.expressions@.subrange(0, i + 1);
            assert(prefix.drop_last() =~= self.expressions@.subrange(0, i as int));
            assert(prefix.last() == self.expressions@[i as int]);
            let x = match self.expressions[i].evaluate(before) {
                Ok(x) => x,
                Err(e) => {
                    proof {
                        lemma_pair_prefix_err(self.expressions@, *before, *after, i + 1, e);
                    }
                    return Err(e);
                },
            };
            let y = match self.expressions[i].evaluate(after) {
                Ok(y) => y,
                Err(e) => {
                    proof {
                        lemma_pair_prefix_err(self.expressions@, *before, *after, i + 1, e);
                    }
                    return Err(e);
                },
            };
            let ghost (ob, nb, xv, yv) = (ov@, nv@, x@, y@);
            ov.push(x);
            nv.push(y);
            assert(field_values(ov@) =~= field_values(ob).push(xv));
            assert(field_values(nv@) =~= field_values(nb).push(yv));
            i = i + 1;
        }
        assert(self.expressions@.subrange(0, self.expressions@.len() as int) =~= self.expressions@);
        let mut o = Record::new(None, ov, None);
        o.set_lifetime(before.lifetime);
        let mut n = Record::new(None, nv, None);
        n.set_lifetime(after.lifetime);
        Ok(Operation::Update { old: o, new: n })
    }

    /// Projects one operation: the record, or both records of an update.
    fn project_op(&self, op: Operation) -> (r: Result<Operation, PipelineError>)
        ensures
            match r {
                Ok(out) => projects_to(self.spec_expressions(), op, out),
                Err(e) => op_error(self.spec_expressions(), op) == Some(e),
            },
    {
        match op {
            Operation::Delete { old } => {
                let out = self.project(&old)?;
                Ok(Operation::Delete { old: out })
            },
            Operation::Insert { new } => {
                let out = self.project(&new)?;
                Ok(Operation::Insert { new: out })
            },
            Operation::Update { old, new } => self.update(&old, &new),
        }
    }
}

/// The values of `exprs` on two records, each expression evaluated on `a`
/// and then on `b` before the next; the error of the first evaluation that
/// fails in that order.
pub open spec fn project_pair(exprs: Seq<Expression>, a: Record, b: Record) -> Result<(Seq<FieldValue>, Seq<FieldValue>), PipelineError>
    decreases exprs.len(),
{
    if exprs.len() == 0 {
        Ok((Seq::empty(), Seq::empty()))
    } else {
        match project_pair(exprs.drop_last(), a, b) {
            Err(e) => Err(e),
            Ok((xs, ys)) => match exprs.last().spec_evaluate(a) {
                Err(e) => Err(e),
                Ok(x) => match exprs.last().spec_evaluate(b) {
                    Err(e) => Err(e),
                    Ok(y) => Ok((xs.push(x), ys.push(y))),
                },
            },
        }
    }
}

/// The two records that projecting an update yields, when it succeeds.
pub open spec fn is_pair_projection(o: Record, n: Record, exprs: Seq<Expression>, a: Record, b: Record) -> bool {
    &&& project_pair(exprs, a, b) == Ok::<(Seq<FieldValue>, Seq<FieldValue>), PipelineError>((field_values(o.values@), field_values(n.values@)))
    &&& o.lifetime == a.lifetime && n.lifetime == b.lifetime
    &&& o.schema_id is None && o.version is None
    &&& n.schema_id is None && n.version is None
}

/// `out` is the projection of `op`: the same kind of change, on the projected
/// record or records.
pub open spec fn projects_to(exprs: Seq<Expression>, op: Operation, out: Operation) -> bool {
    match op {
        Operation::Insert { new } => out matches Operation::Insert { new: o } && is_projection(o, exprs, new),
        Operation::Delete { old } => out matches Operation::Delete { old: o } && is_projection(o, exprs, old),
        Operation::Update { old, new } => out matches Operation::Update { old: o, new: n }
            && is_pair_projection(o, n, exprs, old, new),
    }
}

/// The error that projecting `op` meets, if any.
pub open spec fn op_error(exprs: Seq<Expression>, op: Operation) -> Option<PipelineError> {
    match op {
        Operation::Insert { new } => match project_spec(exprs, new) { Err(e) => Some(e), Ok(_) => None },
        Operation::Delete { old } => match project_spec(exprs, old) { Err(e) => Some(e), Ok(_) => None },
        Operation::Update { old, new } => match project_pair(exprs, old, new) { Err(e) => Some(e), Ok(_) => None },
    }
}

proof fn lemma_pair_prefix_err(exprs: Seq<Expression>, a: Record, b: Record, k: int, e: PipelineError)
    requires
        0 < k <= exprs.len(),
        project_pair(exprs.subrange(0, k), a, b) == Err::<(Seq<FieldValue>, Seq<FieldValue>), PipelineError>(e),
    ensures
        project_pair(exprs, a, b) == Err::<(Seq<FieldValue>, Seq<FieldValue>), PipelineError>(e),
    decreases exprs.len() - k,
{
    if k < exprs.len() {
        let next = exprs.subrange(0, k + 1);
        assert(next.drop_last() =~= exprs.subrange(0, k));
        lemma_pair_prefix_err(exprs, a, b, k + 1, e);
    } else {
        assert(exprs.subrange(0, k) =~= exprs);
    }
}

proof fn lemma_project_prefix_err(exprs: Seq<Expression>, record: Record, k: int, e: PipelineError)
    requires
        0 < k <= exprs.len(),
        project_spec(exprs.subrange(0, k), record) == Err::<Seq<FieldValue>, PipelineError>(e),
    ensures
        project_spec(exprs, record) == Err::<Seq<FieldValue>, PipelineError>(e),
    decreases exprs.len() - k,
{
    if k < exprs.len() {
        let next = exprs.subrange(0, k + 1);
        assert(next.drop_last() =~= exprs.subrange(0, k));
        lemma_project_prefix_err(exprs, record, k + 1, e);
    } else {
        assert(exprs.subrange(0, k) =~= exprs);
    }
}

/// The decimal digits of `n`, most significant first.
pub open spec fn decimal_digits(n: nat) -> Seq<char>
    decreases n,
{
    let d = seq!['0', '1', '2', '3', '4', '5', '6', '7', '8', '9'][(n % 10) as int];
    if n < 10 { seq![d] } else { decimal_digits(n / 10).push(d) }
}

/// Appends `n` in decimal to `text`.
fn append_decimal(text: &mut String, n: usize)
    ensures
        final(text)@ == old(text)@ + decimal_digits(n as nat),
    decreases n,
{
    let digits = ["0", "1", "2", "3", "4", "5", "6", "7", "8", "9"];
    if n >= 10 {
        append_decimal(text, n / 10);
    }
    let d = digits[n % 10];
    proof {
        reveal_strlit("0");
        reveal_strlit("1");
        reveal_strlit("2");
        reveal_strlit("3");
        reveal_strlit("4");
        reveal_strlit("5");
        reveal_strlit("6");
        reveal_strlit("7");
        reveal_strlit("8");
        reveal_strlit("9");
    }
    let ghost before = text@;
    text.append(d);
    assert(d@ =~= seq![seq!['0', '1', '2', '3', '4', '5', '6', '7', '8', '9'][(n % 10) as int]]);
    assert(text@ =~= old(text)@ + decimal_digits(n as nat));
}

impl PipelineError {
    /// A short description of the error.
    pub fn describe(&self) -> (r: String) {
        match self {
            PipelineError::NotEnoughArguments(_) => String::from_str("not enough arguments"),
            PipelineError::InvalidFunctionArgumentType(_, _, _, _) => String::from_str("invalid function argument type"),
            PipelineError::InvalidColumnIndex(i) => {
                let mut text = String::from_str("invalid column index ");
                append_decimal(&mut text, *i);
                text
            },
            PipelineError::InvalidReturnValue(_) => String::from_str("invalid return value"),
            PipelineError::UnsupportedReturnType(_) => String::from_str("unsupported return type"),
        }
    }
}

impl Processor for ProjectionProcessor {
    /// Projects `op` and forwards the result on the default port. When an
    /// expression cannot be evaluated nothing is forwarded and the error is
    /// returned.
    fn process(&mut self, from_port: PortHandle, op: Operation, fw: &mut Vec<(PortHandle, Operation)>) -> (r: Result<(), String>)
        ensures
            *final(self) == *old(self),
            (r is Ok) == (op_error(old(self).spec_expressions(), op) is None),
            r is Ok ==> final(fw)@.len() == old(fw)@.len() + 1
                && final(fw)@.drop_last() == old(fw)@
                && final(fw)@.last().0 == DEFAULT_PORT_HANDLE
                && projects_to(old(self).spec_expressions(), op, final(fw)@.last().1),
            r is Err ==> final(fw)@ == old(fw)@,
    {
        match self.project_op(op) {
            Ok(out) => {
                fw.push((DEFAULT_PORT_HANDLE, out));
                Ok(())
            },
            Err(e) => Err(e.describe()),
        }
    }

    /// Nothing is buffered, so there is nothing to flush.
    fn commit(&mut self, epoch: &Epoch) -> (r: Result<(), String>)
        ensures
            r is Ok,
            *final(self) == *old(self),
    {
        Ok(())
    }
}

} // verus!
