use vstd::prelude::*;
use vstd::arithmetic::div_mod::lemma_mod_multiples_vanish;
use crate::types::{field_values, Field, FieldDefinition, FieldType, FieldValue, Record, Schema, SourceDefinition};

verus! {

/// Why a record could not be assigned to windows.
#[derive(Debug, Clone, Copy, PartialEq, Eq, Structural)]
pub enum WindowError {
    /// The window column is beyond the record.
    InvalidColumn,
    /// The window column does not hold a timestamp.
    NotATimestamp,
    /// A window size or hop is not positive.
    InvalidInterval,
    /// A window bound falls outside the range of timestamps.
    OutOfRange,
}

/// Assigns each record to the time windows its timestamp column falls in.
/// Sizes are in milliseconds. A tumbling window cuts time into consecutive
/// windows of one size; a hopping window of size `interval` starts every
/// `hop_size`.
#[derive(Debug, Clone, Copy, PartialEq, Eq, Structural)]
pub enum WindowType {
    Tumble { column_index: usize, interval: i64 },
    Hop { column_index: usize, hop_size: i64, interval: i64 },
}

/// The start of the window of size `h` that holds `t`: the largest multiple
/// of `h` not above `t`.
pub open spec fn floor_to(t: int, h: int) -> int {
    t - t % h
}

/// The start of the first hopping window that holds `t`.
pub open spec fn hop_first(t: int, hop: int, interval: int) -> int {
    floor_to(t, hop) - interval + hop
}

/// The number of hopping windows that hold `t`: those starting from
/// `hop_first` in steps of `hop`, up to `t`.
pub open spec fn hop_count(t: int, hop: int, interval: int) -> int {
    let b = hop_first(t, hop, interval);
    if b > t { 0 } else { (t - b) / hop + 1 }
}

pub open spec fn fits_i64(x: int) -> bool {
    i64::MIN <= x <= i64::MAX
}

/// The `k`-th window from `b` has bounds in the range of timestamps.
pub open spec fn window_fits(b: int, hop: int, interval: int, k: int) -> bool {
    fits_i64(b + k * hop) && fits_i64(b + k * hop + interval)
}

/// Every hopping window that holds `t` has bounds in the range of timestamps.
pub open spec fn hop_fits(t: int, hop: int, interval: int) -> bool {
    forall|k: int| 0 <= k < hop_count(t, hop, interval)
        ==> #[trigger] window_fits(hop_first(t, hop, interval), hop, interval, k)
}

/// `out` is `record` with the window bounds `start` and `end` appended.
pub open spec fn is_window_record(out: Record, record: Record, start: int, end: int) -> bool {
    &&& field_values(out.values@) == field_values(record.values@).push(FieldValue::Timestamp(start as i64))
        .push(FieldValue::Timestamp(end as i64))
    &&& out.schema_id == record.schema_id
    &&& out.version == record.version
    &&& out.lifetime == record.lifetime
}

/// The timestamp in column `column` of `record`.
pub open spec fn timestamp_at(record: Record, column: usize) -> Result<i64, WindowError> {
    if column >= record.values@.len() {
        Err(WindowError::InvalidColumn)
    } else {
        match record.values@[column as int]@ {
            FieldValue::Timestamp(t) => Ok(t),
            _ => Err(WindowError::NotATimestamp),
        }
    }
}

fn read_timestamp(record: &Record, column: usize) -> (r: Result<i64, WindowError>)
    ensures
        r == timestamp_at(*record, column),
{
    if column >= record.values.len() {
        return Err(WindowError::InvalidColumn);
    }
    match &record.values[column] {
        Field::Timestamp(t) => Ok(*t),
        _ => Err(WindowError::NotATimestamp),
    }
}

/// The largest multiple of `h` not above `t`.
fn floor_multiple(t: i64, h: i64) -> (r: i128)
    requires
        h > 0,
    ensures
        r == floor_to(t as int, h as int),
{
    let hh = h as u128;
    let k: u128 = 0x8000_0000_0000_0000u128 / hh + 1;
    assert(k * hh <= 0x8000_0000_0000_0000u128 + hh) by (nonlinear_arith)
        requires
            k == 0x8000_0000_0000_0000u128 / hh + 1,
            hh > 0,
    {
    }
    assert(k * hh > 0x8000_0000_0000_0000u128) by (nonlinear_arith)
        requires
            k == 0x8000_0000_0000_0000u128 / hh + 1,
            hh > 0,
    {
    }
    let kh: u128 = k * hh;
    let v: u128 = ((t as i128) + (kh as i128)) as u128;
    let rem = v % hh;
    proof {
        lemma_mod_multiples_vanish(k as int, t as int, h as int);
        assert((h as int) * (k as int) == kh as int) by (nonlinear_arith)
            requires
                kh == k * hh,
                hh == h,
        {
        }
    }
    (t as i128) - (rem as i128)
}

/// Appends the bounds of one window to a copy of `record`.
fn window_record(record: &Record, start: i64, end: i64) -> (r: Record)
    ensures
        is_window_record(r, *record, start as int, end as int),
{
    let mut out = record.duplicate();
    let ghost before = out.values@;
    out.values.push(Field::Timestamp(start));
    out.values.push(Field::Timestamp(end));
    assert(field_values(out.values@) =~= field_values(before).push(FieldValue::Timestamp(start)).push(FieldValue::Timestamp(end)));
    out
}

impl WindowType {
    /// The windows that `record` falls in, each as a copy of the record with
    /// the window's start and end appended.
    pub fn execute(&self, record: &Record) -> (r: Result<Vec<Record>, WindowError>)
        ensures
            match *self {
                WindowType::Tumble { column_index, interval } => match timestamp_at(*record, column_index) {
                    Err(e) => r == Err::<Vec<Record>, WindowError>(e),
                    Ok(t) => if interval <= 0 {
                        r == Err::<Vec<Record>, WindowError>(WindowError::InvalidInterval)
                    } else {
                        let start = floor_to(t as int, interval as int);
                        if fits_i64(start) && fits_i64(start + interval) {
                            r matches Ok(v) && v@.len() == 1
                                && is_window_record(v@[0], *record, start, start + interval)
                        } else {
                            r == Err::<Vec<Record>, WindowError>(WindowError::OutOfRange)
                        }
                    },
                },
                WindowType::Hop { column_index, hop_size, interval } => match timestamp_at(*record, column_index) {
                    Err(e) => r == Err::<Vec<Record>, WindowError>(e),
                    Ok(t) => if hop_size <= 0 || interval <= 0 {
                        r == Err::<Vec<Record>, WindowError>(WindowError::InvalidInterval)
                    } else {
                        let b = hop_first(t as int, hop_size as int, interval as int);
                        let n = hop_count(t as int, hop_size as int, interval as int);
                        if hop_fits(t as int, hop_size as int, interval as int) {
                            r matches Ok(v) && v@.len() == n && forall|k: int| 0 <= k < n
                                ==> is_window_record(#[trigger] v@[k], *record, b + k * hop_size, b + k * hop_size + interval)
                        } else {
                            r == Err::<Vec<Record>, WindowError>(WindowError::OutOfRange)
                        }
                    },
                },
            },
    {
        match *self {
            WindowType::Tumble { column_index, interval } => {
                let t = read_timestamp(record, column_index)?;
                if interval <= 0 {
                    return Err(WindowError::InvalidInterval);
                }
                let start = floor_multiple(t, interval);
                let end = start + interval as i128;
                if end > i64::MAX as i128 || start < i64::MIN as i128 {
                    return Err(WindowError::OutOfRange);
                }
                let mut out: Vec<Record> = Vec::new();
                out.push(window_record(record, start as i64, end as i64));
                Ok(out)
            },
            WindowType::Hop { column_index, hop_size, interval } => {
                let t = read_timestamp(record, column_index)?;
                if hop_size <= 0 || interval <= 0 {
                    return Err(WindowError::InvalidInterval);
                }
                let b = floor_multiple(t, hop_size) - interval as i128 + hop_size as i128;
                let ghost n = hop_count(t as int, hop_size as int, interval as int);
                let mut current = b;
                let mut out: Vec<Record> = Vec::new();
                let ghost mut k: int = 0;
                proof {
                    if b <= t {
                        assert((t - b) / (hop_size as int) >= 0) by (nonlinear_arith)
                            requires t - b >= 0, hop_size > 0;
                    }
                }
                while current <= t as i128
                    invariant
                        *self == (WindowType::Hop { column_index, hop_size, interval }),
                        timestamp_at(*record, column_index) == Ok::<i64, WindowError>(t),
                        hop_size > 0,
                        interval > 0,
                        b == hop_first(t as int, hop_size as int, interval as int),
                        n == hop_count(t as int, hop_size as int, interval as int),
                        current == b + k * hop_size,
                        current <= t + hop_size,
                        b >= t - interval - hop_size,
                        0 <= k <= n,
                        out@.len() == k,
                        forall|j: int| 0 <= j < k ==> #[trigger] window_fits(b as int, hop_size as int, interval as int, j),
                        forall|j: int| 0 <= j < k ==> is_window_record(#[trigger] out@[j], *record, b + j * hop_size, b + j * hop_size + interval),
                        current <= t ==> k < n,
                        current > t ==> k == n,
                    decreases (t as int) + (hop_size as int) - (current as int),
                {
                    let end = current + interval as i128;
                    if current < i64::MIN as i128 || end > i64::MAX as i128 {
                        assert(k < n);
                        let ghost hf = hop_first(t as int, hop_size as int, interval as int);
                        let ghost h = hop_size as int;
                        let ghost iv = interval as int;
                        assert(hf == b as int);
                        assert(!window_fits(hf, h, iv, k));
                        assert(!hop_fits(t as int, hop_size as int, interval as int));
                        return Err(WindowError::OutOfRange);
                    }
                    assert(window_fits(b as int, hop_size as int, interval as int, k));
                    out.push(window_record(record, current as i64, end as i64));
                    proof {
                        lemma_hop_step(t as int, b as int, hop_size as int, k as int, n);
                    }
                    current = current + hop_size as i128;
                    proof {
                        assert((k + 1) * hop_size == k * hop_size + hop_size) by (nonlinear_arith);
                        k = k + 1;
                    }
                }
                assert(hop_fits(t as int, hop_size as int, interval as int));
                Ok(out)
            },
        }
    }

    /// The schema of the windowed records: the input columns, then
    /// `window_start` (part of the primary key) and `window_end`.
    pub fn get_output_schema(&self, schema: &Schema) -> (r: Result<Schema, WindowError>)
        ensures
            r matches Ok(out)
                && out.fields@.len() == schema.fields@.len() + 2
                && out.fields@.subrange(0, schema.fields@.len() as int) == schema.fields@
                && out.fields@[schema.fields@.len() as int].name@ == window_start_name()
                && out.fields@[schema.fields@.len() as int].typ == FieldType::Timestamp
                && !out.fields@[schema.fields@.len() as int].nullable
                && out.fields@[schema.fields@.len() as int].source == SourceDefinition::Dynamic
                && out.fields@[schema.fields@.len() + 1int].name@ == window_end_name()
                && out.fields@[schema.fields@.len() + 1int].typ == FieldType::Timestamp
                && !out.fields@[schema.fields@.len() + 1int].nullable
                && out.fields@[schema.fields@.len() + 1int].source == SourceDefinition::Dynamic
                && out.primary_index@ == schema.primary_index@.push(schema.fields@.len() as usize)
                && out.identifier == schema.identifier,
    {
        let mut out = schema.duplicate();
        let start_name = String::from_str("window_start");
        let end_name = String::from_str("window_end");
        proof {
            reveal_strlit("window_start");
            reveal_strlit("window_end");
        }
        assert(start_name@ =~= window_start_name());
        assert(end_name@ =~= window_end_name());
        out.field(FieldDefinition::new(start_name, FieldType::Timestamp, false, SourceDefinition::Dynamic), true);
        out.field(FieldDefinition::new(end_name, FieldType::Timestamp, false, SourceDefinition::Dynamic), false);
        assert(out.fields@.subrange(0, schema.fields@.len() as int) =~= schema.fields@);
        Ok(out)
    }
}

pub open spec fn window_start_name() -> Seq<char> {
    seq!['w', 'i', 'n', 'd', 'o', 'w', '_', 's', 't', 'a', 'r', 't']
}

pub open spec fn window_end_name() -> Seq<char> {
    seq!['w', 'i', 'n', 'd', 'o', 'w', '_', 'e', 'n', 'd']
}

proof fn lemma_hop_step(t: int, b: int, hop: int, k: int, n: int)
    requires
        hop > 0,
        b + k * hop <= t,
        k >= 0,
        n == if b > t { 0 } else { (t - b) / hop + 1 },
    ensures
        k < n,
        b + (k + 1) * hop <= t ==> k + 1 < n,
        b + (k + 1) * hop > t ==> k + 1 == n,
{
    assert(b <= t) by (nonlinear_arith) requires b + k * hop <= t, k >= 0, hop > 0;
    assert(k <= (t - b) / hop) by (nonlinear_arith) requires b + k * hop <= t, k >= 0, hop > 0;
    if b + (k + 1) * hop > t {
        assert((t - b) / hop < k + 1) by (nonlinear_arith) requires b + (k + 1) * hop > t, hop > 0, t - b >= 0;
    } else {
        assert(k + 1 <= (t - b) / hop) by (nonlinear_arith) requires b + (k + 1) * hop <= t, k >= 0, hop > 0;
    }
}

} // verus!
