//! The column builder: turns one parsed JSON payload (an object, or an array
//! of objects) into a typed columnar batch, or a typed failure. The pivot
//! appends each field's value to the column named after the field, creating
//! the column on first sight; a column's type is fixed by its first value.

use vstd::prelude::*;
use crate::json::{jval_of, parsed_json, JVal, JsonValue};

verus! {

/// One column's values, homogeneously typed. Floating-point values are
/// carried as IEEE 754 bit patterns; timestamps as epoch seconds, each
/// denoting the absolute UTC instant that many seconds after the epoch.
pub enum ColumnData {
    Ints(Vec<i64>),
    Floats(Vec<u64>),
    Texts(Vec<String>),
    Stamps(Vec<i64>),
}

/// The model of a column's values.
pub enum ColModel {
    Ints(Seq<i64>),
    Floats(Seq<u64>),
    Texts(Seq<Seq<char>>),
    Stamps(Seq<i64>),
}

impl View for ColumnData {
    type V = ColModel;

    open spec fn view(&self) -> ColModel {
        match self {
            ColumnData::Ints(v) => ColModel::Ints(v@),
            ColumnData::Floats(v) => ColModel::Floats(v@),
            ColumnData::Texts(v) => ColModel::Texts(v@.map_values(|s: String| s@)),
            ColumnData::Stamps(v) => ColModel::Stamps(v@),
        }
    }
}

/// The model of a finished batch: named, typed columns in order of first
/// sight.
pub type BatchModel = Seq<(Seq<char>, ColModel)>;

/// A columnar batch: one entry per field name seen in the payload, each
/// holding one value per contributing input row.
pub struct ColumnarBatch {
    pub columns: Vec<(String, ColumnData)>,
}

/// The model of a sequence of named executable columns.
pub open spec fn batch_cols_model(s: Seq<(String, ColumnData)>) -> BatchModel {
    s.map_values(|c: (String, ColumnData)| (c.0@, c.1@))
}

impl View for ColumnarBatch {
    type V = BatchModel;

    open spec fn view(&self) -> BatchModel {
        batch_cols_model(self.columns@)
    }
}

/// Why no batch was produced. `TypeMismatch` names the column and the index,
/// among that column's values, of the first value whose type differs from
/// the column's inferred one; the whole payload is rejected then (the
/// explicit policy here, so that no column-length invariant can be broken).
#[derive(Debug)]
pub enum BuildError {
    /// The bytes are not one well-formed JSON document.
    MalformedPayload,
    /// Some row is not a JSON object; the whole payload is rejected.
    MalformedRow,
    /// The payload holds no field at all: nothing to write.
    EmptyPayload,
    /// The rows do not share one field set, so columns would end up with
    /// unequal lengths; the whole payload is rejected (the explicit policy
    /// here, rather than padding short columns).
    RaggedRows,
    TypeMismatch { column: String, row: usize },
}

/// The model of a failure.
pub enum ErrModel {
    MalformedPayload,
    MalformedRow,
    EmptyPayload,
    RaggedRows,
    TypeMismatch(Seq<char>, int),
}

impl View for BuildError {
    type V = ErrModel;

    open spec fn view(&self) -> ErrModel {
        match self {
            BuildError::MalformedPayload => ErrModel::MalformedPayload,
            BuildError::MalformedRow => ErrModel::MalformedRow,
            BuildError::EmptyPayload => ErrModel::EmptyPayload,
            BuildError::RaggedRows => ErrModel::RaggedRows,
            BuildError::TypeMismatch { column, row } => ErrModel::TypeMismatch(
                column@,
                *row as int,
            ),
        }
    }
}

/// The rows of a payload: an array contributes its elements, any other value
/// is the only row.
pub open spec fn rows_of(v: JVal) -> Seq<JVal> {
    match v {
        JVal::Arr(a) => a,
        _ => seq![v],
    }
}

/// The fields of one row; a value that is no object has none.
pub open spec fn row_fields(r: JVal) -> Seq<(Seq<char>, JVal)> {
    match r {
        JVal::Obj(f) => f,
        _ => Seq::empty(),
    }
}

/// Every row is a JSON object.
pub open spec fn all_objects(rows: Seq<JVal>) -> bool {
    forall|i: int| 0 <= i < rows.len() ==> rows[i] is Obj
}

/// How many rows contribute at least one field.
pub open spec fn contributing(rows: Seq<JVal>) -> int
    decreases rows.len(),
{
    if rows.len() == 0 {
        0
    } else {
        (if row_fields(rows[0]).len() > 0 {
            1int
        } else {
            0int
        }) + contributing(rows.drop_first())
    }
}

/// Columns in the middle of the pivot: name and raw values, in order of
/// first sight.
pub type PivotModel = Seq<(Seq<char>, Seq<JVal>)>;

/// One field lands in the pivot: its value is appended to the column of that
/// name, which is created on first sight.
pub open spec fn pivot_field(cols: PivotModel, name: Seq<char>, value: JVal) -> PivotModel
    decreases cols.len(),
{
    if cols.len() == 0 {
        seq![(name, seq![value])]
    } else if cols[0].0 == name {
        seq![(cols[0].0, cols[0].1.push(value))] + cols.drop_first()
    } else {
        seq![cols[0]] + pivot_field(cols.drop_first(), name, value)
    }
}

/// One row lands in the pivot, field by field.
pub open spec fn pivot_row(cols: PivotModel, fields: Seq<(Seq<char>, JVal)>) -> PivotModel
    decreases fields.len(),
{
    if fields.len() == 0 {
        cols
    } else {
        pivot_row(pivot_field(cols, fields[0].0, fields[0].1), fields.drop_first())
    }
}

/// The whole payload lands in the pivot, row by row.
pub open spec fn pivot_rows(cols: PivotModel, rows: Seq<JVal>) -> PivotModel
    decreases rows.len(),
{
    if rows.len() == 0 {
        cols
    } else {
        pivot_rows(pivot_row(cols, row_fields(rows[0])), rows.drop_first())
    }
}

/// Every column holds exactly `n` values.
pub open spec fn balanced(cols: PivotModel, n: int) -> bool {
    forall|k: int| 0 <= k < cols.len() ==> (#[trigger] cols[k]).1.len() == n
}

/// A column's inferred type.
pub enum ColType {
    Integer,
    Float,
    Text,
    Stamp,
}

/// The type a column takes from its first value: an integer in the column
/// literally named `timestamp` is an epoch-seconds instant; any other
/// integer, float or string fixes that type; anything else is unsupported
/// and the column is dropped.
pub open spec fn infer_type(name: Seq<char>, first: JVal) -> Option<ColType> {
    match first {
        JVal::Int(_) => Some(
            if name == "timestamp"@ {
                ColType::Stamp
            } else {
                ColType::Integer
            },
        ),
        JVal::Float(_) => Some(ColType::Float),
        JVal::Str(_) => Some(ColType::Text),
        _ => None,
    }
}

/// A value matches a column's inferred type.
pub open spec fn fits(t: ColType, v: JVal) -> bool {
    match t {
        ColType::Integer => v is Int,
        ColType::Stamp => v is Int,
        ColType::Float => v is Float,
        ColType::Text => v is Str,
    }
}

/// The index of the first value that does not match the column's type.
pub open spec fn first_off(vals: Seq<JVal>, t: ColType) -> Option<int>
    decreases vals.len(),
{
    if vals.len() == 0 {
        None
    } else if !fits(t, vals[0]) {
        Some(0int)
    } else {
        match first_off(vals.drop_first(), t) {
            None => None,
            Some(k) => Some(k + 1),
        }
    }
}

/// The typed column made of values that all match `t`.
pub open spec fn typed_col(t: ColType, vals: Seq<JVal>) -> ColModel {
    match t {
        ColType::Integer => ColModel::Ints(vals.map_values(|v: JVal| v->Int_0)),
        ColType::Stamp => ColModel::Stamps(vals.map_values(|v: JVal| v->Int_0)),
        ColType::Float => ColModel::Floats(vals.map_values(|v: JVal| v->Float_0)),
        ColType::Text => ColModel::Texts(vals.map_values(|v: JVal| v->Str_0)),
    }
}

/// What becomes of one pivoted column: dropped when its first value's type
/// is unsupported, the typed column when every value matches the inferred
/// type, and otherwise the index of the first value that does not.
pub open spec fn spec_type_column(name: Seq<char>, vals: Seq<JVal>) -> Result<
    Option<ColModel>,
    int,
> {
    match infer_type(name, vals[0]) {
        None => Ok(None),
        Some(t) => match first_off(vals, t) {
            Some(j) => Err(j),
            None => Ok(Some(typed_col(t, vals))),
        },
    }
}

/// Typing of all pivoted columns in order: the first mismatch fails the
/// whole batch; unsupported columns are dropped.
pub open spec fn type_all(cols: PivotModel) -> Result<BatchModel, ErrModel>
    decreases cols.len(),
{
    if cols.len() == 0 {
        Ok(Seq::empty())
    } else {
        match spec_type_column(cols[0].0, cols[0].1) {
            Ok(None) => type_all(cols.drop_first()),
            Ok(Some(cm)) => match type_all(cols.drop_first()) {
                Ok(rest) => Ok(seq![(cols[0].0, cm)] + rest),
                Err(e) => Err(e),
            },
            Err(j) => Err(ErrModel::TypeMismatch(cols[0].0, j)),
        }
    }
}

/// What the column builder makes of one parsed payload.
pub open spec fn spec_build(v: JVal) -> Result<BatchModel, ErrModel> {
    let rows = rows_of(v);
    if !all_objects(rows) {
        Err(ErrModel::MalformedRow)
    } else {
        let cols = pivot_rows(Seq::empty(), rows);
        if cols.len() == 0 {
            Err(ErrModel::EmptyPayload)
        } else if !balanced(cols, contributing(rows)) {
            Err(ErrModel::RaggedRows)
        } else {
            type_all(cols)
        }
    }
}

/// What the whole pipeline makes of raw bytes.
pub open spec fn spec_process(bytes: Seq<u8>) -> Result<BatchModel, ErrModel> {
    match parsed_json(bytes) {
        None => Err(ErrModel::MalformedPayload),
        Some(jv) => spec_build(jv),
    }
}

/// The model of an executable build outcome.
pub open spec fn build_result_model(r: Result<ColumnarBatch, BuildError>) -> Result<
    BatchModel,
    ErrModel,
> {
    match r {
        Ok(b) => Ok(b@),
        Err(e) => Err(e@),
    }
}

/// The models of a sequence of values.
pub open spec fn views_of(s: Seq<JsonValue>) -> Seq<JVal> {
    s.map_values(|x: JsonValue| jval_of(x))
}

/// The models of a row's fields.
pub open spec fn fields_model(fs: Seq<(String, JsonValue)>) -> Seq<(Seq<char>, JVal)> {
    fs.map_values(|f: (String, JsonValue)| (f.0@, jval_of(f.1)))
}

/// The model of the pivot under construction.
pub open spec fn pivot_model(cs: Seq<(String, Vec<JsonValue>)>) -> PivotModel {
    cs.map_values(|c: (String, Vec<JsonValue>)| (c.0@, views_of(c.1@)))
}

proof fn lemma_pivot_field_hit(cols: PivotModel, name: Seq<char>, value: JVal, k: int)
    requires
        0 <= k < cols.len(),
        cols[k].0 == name,
        forall|m: int| 0 <= m < k ==> (#[trigger] cols[m]).0 != name,
    ensures
        pivot_field(cols, name, value) =~= cols.update(k, (name, cols[k].1.push(value))),
    decreases k,
{
    if k == 0 {
        assert(pivot_field(cols, name, value) =~= cols.update(
            0,
            (name, cols[0].1.push(value)),
        ));
    } else {
        lemma_pivot_field_hit(cols.drop_first(), name, value, k - 1);
        assert(pivot_field(cols, name, value) =~= cols.update(
            k,
            (name, cols[k].1.push(value)),
        ));
    }
}

proof fn lemma_pivot_field_miss(cols: PivotModel, name: Seq<char>, value: JVal)
    requires
        forall|m: int| 0 <= m < cols.len() ==> (#[trigger] cols[m]).0 != name,
    ensures
        pivot_field(cols, name, value) =~= cols.push((name, seq![value])),
    decreases cols.len(),
{
    if cols.len() > 0 {
        lemma_pivot_field_miss(cols.drop_first(), name, value);
        assert(pivot_field(cols, name, value) =~= cols.push((name, seq![value])));
    }
}

/// Appends the value to the column of that name, creating the column on
/// first sight; columns stay nonempty.
#[verifier::loop_isolation(false)]
fn pivot_into(cols: &mut Vec<(String, Vec<JsonValue>)>, name: String, value: JsonValue)
    ensures
        pivot_model(final(cols)@) == pivot_field(pivot_model(old(cols)@), name@, jval_of(value)),
        (forall|k: int|
            0 <= k < old(cols)@.len() ==> (#[trigger] old(cols)@[k]).1@.len() > 0) ==> (forall|
            k: int,
        |
            0 <= k < final(cols)@.len() ==> (#[trigger] final(cols)@[k]).1@.len() > 0),
{
    let ghost before = pivot_model(cols@);
    let n = cols.len();
    let mut i: usize = 0;
    while i < n
        invariant
            n == cols.len(),
            i <= n,
            *cols == *old(cols),
            before == pivot_model(cols@),
            forall|m: int| 0 <= m < i ==> (#[trigger] before[m]).0 != name@,
        decreases n - i,
    {
        if cols[i].0.eq(&name) {
            let ghost jv = jval_of(value);
            let mut e = cols.remove(i);
            e.1.push(value);
            cols.insert(i, e);
            proof {
                lemma_pivot_field_hit(before, name@, jv, i as int);
                assert(pivot_model(cols@) =~~= before.update(
                    i as int,
                    (name@, before[i as int].1.push(jv)),
                ));
            }
            return ;
        }
        i += 1;
    }
    let mut single: Vec<JsonValue> = Vec::new();
    let ghost jv = jval_of(value);
    single.push(value);
    cols.push((name, single));
    proof {
        lemma_pivot_field_miss(before, name@, jv);
        assert(pivot_model(cols@) =~~= before.push((name@, seq![jv])));
    }
}

proof fn lemma_first_off_at(vals: Seq<JVal>, t: ColType, j: int)
    requires
        0 <= j < vals.len(),
        forall|k: int| 0 <= k < j ==> fits(t, #[trigger] vals[k]),
        !fits(t, vals[j]),
    ensures
        first_off(vals, t) == Some(j),
    decreases j,
{
    if j > 0 {
        lemma_first_off_at(vals.drop_first(), t, j - 1);
    }
}

proof fn lemma_first_off_none(vals: Seq<JVal>, t: ColType)
    requires
        forall|k: int| 0 <= k < vals.len() ==> fits(t, #[trigger] vals[k]),
    ensures
        first_off(vals, t) is None,
    decreases vals.len(),
{
    if vals.len() > 0 {
        lemma_first_off_none(vals.drop_first(), t);
    }
}

/// Types one pivoted column: `Ok(None)` drops an unsupported column,
/// `Ok(Some(..))` is the typed column, `Err(j)` points at the first value
/// whose type differs from the inferred one.
#[verifier::loop_isolation(false)]
fn type_column(name: &String, vals: &Vec<JsonValue>) -> (r: Result<Option<ColumnData>, usize>)
    requires
        vals@.len() > 0,
    ensures
        match r {
            Ok(oc) => spec_type_column(name@, views_of(vals@)) == Ok::<Option<ColModel>, int>(
                match oc {
                    Some(cd) => Some(cd@),
                    None => None,
                },
            ),
            Err(j) => spec_type_column(name@, views_of(vals@)) == Err::<Option<ColModel>, int>(
                j as int,
            ),
        },
{
    let ghost vm = views_of(vals@);
    proof {
        assert(vm[0] == jval_of(vals@[0]));
    }
    let ts: String = "timestamp".to_owned();
    let is_ts = name.eq(&ts);
    let t: ColType = match &vals[0] {
        JsonValue::Int(_) => {
            if is_ts {
                ColType::Stamp
            } else {
                ColType::Integer
            }
        },
        JsonValue::Float(_) => ColType::Float,
        JsonValue::Str(_) => ColType::Text,
        _ => {
            assert(infer_type(name@, vm[0]) is None);
            return Ok(None);
        },
    };
    assert(infer_type(name@, vm[0]) == Some(t));
    let n = vals.len();
    match t {
        ColType::Integer | ColType::Stamp => {
            let mut out: Vec<i64> = Vec::new();
            let mut j: usize = 0;
            while j < n
                invariant
                    vm == views_of(vals@),
                    n == vals@.len(),
                    n == vm.len(),
                    j <= n,
                    out@.len() == j,
                    t is Integer || t is Stamp,
                    forall|k: int| 0 <= k < j ==> (#[trigger] vm[k]) == JVal::Int(out@[k]),
                decreases n - j,
            {
                proof {
                    assert(vm[j as int] == jval_of(vals@[j as int]));
                }
                match &vals[j] {
                    JsonValue::Int(i) => out.push(*i),
                    _ => {
                        proof {
                            assert(!fits(t, vm[j as int]));
                            assert forall|k: int| 0 <= k < j implies fits(
                                t,
                                #[trigger] vm[k],
                            ) by {
                                assert(fits(t, vm[k]));
                            }
                            lemma_first_off_at(vm, t, j as int);
                        }
                        return Err(j);
                    },
                }
                j += 1;
            }
            proof {
                assert forall|k: int| 0 <= k < vm.len() implies fits(t, #[trigger] vm[k]) by {
                    assert(fits(t, vm[k]));
                }
                lemma_first_off_none(vm, t);
                assert(vm.map_values(|v: JVal| v->Int_0) =~= out@);
            }
            if let ColType::Stamp = t {
                Ok(Some(ColumnData::Stamps(out)))
            } else {
                Ok(Some(ColumnData::Ints(out)))
            }
        },
        ColType::Float => {
            let mut out: Vec<u64> = Vec::new();
            let mut j: usize = 0;
            while j < n
                invariant
                    vm == views_of(vals@),
                    n == vals@.len(),
                    n == vm.len(),
                    j <= n,
                    out@.len() == j,
                    t is Float,
                    forall|k: int| 0 <= k < j ==> (#[trigger] vm[k]) == JVal::Float(out@[k]),
                decreases n - j,
            {
                proof {
                    assert(vm[j as int] == jval_of(vals@[j as int]));
                }
                match &vals[j] {
                    JsonValue::Float(b) => out.push(*b),
                    _ => {
                        proof {
                            assert(!fits(t, vm[j as int]));
                            assert forall|k: int| 0 <= k < j implies fits(
                                t,
                                #[trigger] vm[k],
                            ) by {
                                assert(fits(t, vm[k]));
                            }
                            lemma_first_off_at(vm, t, j as int);
                        }
                        return Err(j);
                    },
                }
                j += 1;
            }
            proof {
                assert forall|k: int| 0 <= k < vm.len() implies fits(t, #[trigger] vm[k]) by {
                    assert(fits(t, vm[k]));
                }
                lemma_first_off_none(vm, t);
                assert(vm.map_values(|v: JVal| v->Float_0) =~= out@);
            }
            Ok(Some(ColumnData::Floats(out)))
        },
        ColType::Text => {
            let mut out: Vec<String> = Vec::new();
            let mut j: usize = 0;
            while j < n
                invariant
                    vm == views_of(vals@),
                    n == vals@.len(),
                    n == vm.len(),
                    j <= n,
                    out@.len() == j,
                    t is Text,
                    forall|k: int| 0 <= k < j ==> (#[trigger] vm[k]) == JVal::Str(out@[k]@),
                decreases n - j,
            {
                proof {
                    assert(vm[j as int] == jval_of(vals@[j as int]));
                }
                match &vals[j] {
                    JsonValue::Str(s) => out.push(s.clone()),
                    _ => {
                        proof {
                            assert(!fits(t, vm[j as int]));
                            assert forall|k: int| 0 <= k < j implies fits(
                                t,
                                #[trigger] vm[k],
                            ) by {
                                assert(fits(t, vm[k]));
                            }
                            lemma_first_off_at(vm, t, j as int);
                        }
                        return Err(j);
                    },
                }
                j += 1;
            }
            proof {
                assert forall|k: int| 0 <= k < vm.len() implies fits(t, #[trigger] vm[k]) by {
                    assert(fits(t, vm[k]));
                }
                lemma_first_off_none(vm, t);
                assert(vm.map_values(|v: JVal| v->Str_0) =~= out@.map_values(|s: String| s@));
            }
            Ok(Some(ColumnData::Texts(out)))
        },
    }
}


/// Builds the columnar batch for one parsed payload, exactly as
/// `spec_build` states it; never panics, whatever the payload's shape.
#[verifier::loop_isolation(false)]
pub fn build_batch(v: JsonValue) -> (r: Result<ColumnarBatch, BuildError>)
    ensures
        build_result_model(r) == spec_build(jval_of(v)),
{
    let ghost model = jval_of(v);
    let mut rows: Vec<JsonValue> = match v {
        JsonValue::Arr(a) => a,
        other => {
            let mut rv: Vec<JsonValue> = Vec::new();
            rv.push(other);
            rv
        },
    };
    let ghost all_rows = views_of(rows@);
    proof {
        assert(all_rows =~= rows_of(model));
    }
    let nrows = rows.len();
    let ghost n0 = nrows as int;
    let mut cols: Vec<(String, Vec<JsonValue>)> = Vec::new();
    let mut filled: usize = 0;
    proof {
        assert(pivot_model(cols@) =~= Seq::<(Seq<char>, Seq<JVal>)>::empty());
        assert(all_rows.skip(0) =~= all_rows);
    }
    while rows.len() > 0
        invariant
            views_of(rows@) =~= all_rows.skip(n0 - rows@.len() as int),
            rows@.len() <= n0 == all_rows.len(),
            pivot_rows(pivot_model(cols@), views_of(rows@)) == pivot_rows(
                Seq::empty(),
                all_rows,
            ),
            forall|k: int| 0 <= k < n0 - rows@.len() ==> all_rows[k] is Obj,
            filled as int + contributing(views_of(rows@)) == contributing(all_rows),
            filled as int <= n0 - rows@.len(),
            forall|k: int| 0 <= k < cols@.len() ==> (#[trigger] cols@[k]).1@.len() > 0,
        decreases rows@.len(),
    {
        let ghost p = n0 - rows@.len() as int;
        let ghost rbefore = rows@;
        let ghost remaining = views_of(rows@);
        let row = rows.remove(0);
        proof {
            assert(row == rbefore[0]);
            assert(remaining[0] == jval_of(rbefore[0]));
            assert(views_of(rows@) =~= remaining.drop_first());
            assert(remaining == all_rows.skip(p));
            assert(all_rows.skip(p)[0] == all_rows[p]);
            assert(all_rows[p] == jval_of(row));
            assert(views_of(rows@) =~= all_rows.skip(p + 1));
        }
        match row {
            JsonValue::Obj(fields) => {
                let ghost acc_in = pivot_model(cols@);
                let ghost fm_all = fields_model(fields@);
                proof {
                    assert(all_rows[p] == jval_of(JsonValue::Obj(fields)));
                    assert(row_fields(all_rows[p]) =~= fm_all);
                    assert(row_fields(remaining[0]) == fm_all);
                    assert(remaining.len() > 0);
                    assert(pivot_rows(acc_in, remaining) == pivot_rows(
                        pivot_row(acc_in, fm_all),
                        remaining.drop_first(),
                    ));
                    assert(fm_all.len() == fields@.len());
                    assert(contributing(remaining) == (if fm_all.len() > 0 { 1int } else { 0int })
                        + contributing(remaining.drop_first()));
                }
                if fields.len() > 0 {
                    filled += 1;
                }
                let mut fields = fields;
                while fields.len() > 0
                    invariant
                        pivot_row(pivot_model(cols@), fields_model(fields@)) == pivot_row(
                            acc_in,
                            fm_all,
                        ),
                        forall|k: int| 0 <= k < cols@.len() ==> (#[trigger] cols@[k]).1@.len()
                            > 0,
                    decreases fields@.len(),
                {
                    let ghost fbefore = fields@;
                    let ghost fm = fields_model(fields@);
                    let (name, value) = fields.remove(0);
                    proof {
                        assert(fm[0] == (fbefore[0].0@, jval_of(fbefore[0].1)));
                        assert(fm[0] == (name@, jval_of(value)));
                        assert(fields_model(fields@) =~= fm.drop_first());
                        assert(pivot_row(pivot_model(cols@), fm) == pivot_row(
                            pivot_field(pivot_model(cols@), name@, jval_of(value)),
                            fm.drop_first(),
                        ));
                    }
                    pivot_into(&mut cols, name, value);
                }
                proof {
                    assert(fields_model(fields@) =~= Seq::<(Seq<char>, JVal)>::empty());
                    assert(pivot_row(pivot_model(cols@), fields_model(fields@)) == pivot_model(
                        cols@,
                    ));
                }
            },
            other => {
                proof {
                    assert(all_rows[p] == jval_of(other));
                    assert(!(other is Obj));
                    assert(!(jval_of(other) is Obj));
                    assert(!all_objects(all_rows));
                    assert(rows_of(model) == all_rows);
                }
                return Err(BuildError::MalformedRow);
            },
        }
    }
    proof {
        assert(views_of(rows@) =~= Seq::<JVal>::empty());
        assert(all_objects(all_rows));
        assert(pivot_model(cols@) == pivot_rows(Seq::empty(), all_rows));
        assert(filled as int == contributing(all_rows));
    }
    let ghost pm = pivot_model(cols@);
    if cols.len() == 0 {
        return Err(BuildError::EmptyPayload);
    }
    let ncols = cols.len();
    let mut k: usize = 0;
    while k < ncols
        invariant
            ncols == cols@.len(),
            k <= ncols,
            pm == pivot_model(cols@),
            forall|kk: int| 0 <= kk < k ==> (#[trigger] pm[kk]).1.len() == filled as int,
        decreases ncols - k,
    {
        if cols[k].1.len() != filled {
            proof {
                assert(pm[k as int] == (cols@[k as int].0@, views_of(cols@[k as int].1@)));
                assert(pm[k as int].1.len() != contributing(all_rows));
                assert(!balanced(pm, contributing(all_rows)));
            }
            return Err(BuildError::RaggedRows);
        }
        k += 1;
    }
    assert(balanced(pm, contributing(all_rows)));
    let mut cols = cols;
    let mut out: Vec<(String, ColumnData)> = Vec::new();
    while cols.len() > 0
        invariant
            type_all(pm) == (match type_all(pivot_model(cols@)) {
                Ok(rest) => Ok::<BatchModel, ErrModel>(batch_cols_model(out@) + rest),
                Err(e) => Err(e),
            }),
            forall|kk: int| 0 <= kk < cols@.len() ==> (#[trigger] cols@[kk]).1@.len() > 0,
        decreases cols@.len(),
    {
        let ghost rem = pivot_model(cols@);
        let ghost out_before = out@;
        let (name, vals) = cols.remove(0);
        proof {
            assert(rem[0] == (name@, views_of(vals@)));
            assert(pivot_model(cols@) =~= rem.drop_first());
        }
        match type_column(&name, &vals) {
            Ok(Some(cd)) => {
                out.push((name, cd));
                proof {
                    match type_all(pivot_model(cols@)) {
                        Ok(rest) => {
                            assert(batch_cols_model(out@) =~= batch_cols_model(out_before)
                                + seq![(rem[0].0, cd@)]);
                            assert(batch_cols_model(out_before) + (seq![(rem[0].0, cd@)] + rest)
                                =~= batch_cols_model(out@) + rest);
                        },
                        Err(_) => {},
                    }
                }
            },
            Ok(None) => {},
            Err(j) => {
                return Err(BuildError::TypeMismatch { column: name, row: j });
            },
        }
    }
    proof {
        assert(pivot_model(cols@) =~= Seq::<(Seq<char>, Seq<JVal>)>::empty());
        assert(batch_cols_model(out@) + Seq::<(Seq<char>, ColModel)>::empty() =~= batch_cols_model(
            out@,
        ));
    }
    let b = ColumnarBatch { columns: out };
    Ok(b)
}


/// How many values a column holds.
pub open spec fn col_len(c: ColModel) -> int {
    match c {
        ColModel::Ints(s) => s.len() as int,
        ColModel::Floats(s) => s.len() as int,
        ColModel::Texts(s) => s.len() as int,
        ColModel::Stamps(s) => s.len() as int,
    }
}

proof fn lemma_type_all_lens(cols: PivotModel, n: int, bm: BatchModel)
    requires
        balanced(cols, n),
        type_all(cols) == Ok::<BatchModel, ErrModel>(bm),
    ensures
        forall|k: int| 0 <= k < bm.len() ==> col_len((#[trigger] bm[k]).1) == n,
    decreases cols.len(),
{
    if cols.len() == 0 {
        assert(bm =~= Seq::<(Seq<char>, ColModel)>::empty());
    } else {
        assert(balanced(cols.drop_first(), n)) by {
            assert forall|k: int|
                0 <= k < cols.drop_first().len() implies (#[trigger] cols.drop_first()[k]).1.len()
                == n by {
                assert(cols.drop_first()[k] == cols[k + 1]);
            }
        }
        match spec_type_column(cols[0].0, cols[0].1) {
            Ok(oc) => {
                match oc {
                    None => {
                        lemma_type_all_lens(cols.drop_first(), n, bm);
                    },
                    Some(cm) => {
                        match type_all(cols.drop_first()) {
                            Ok(rest) => {
                                lemma_type_all_lens(cols.drop_first(), n, rest);
                                assert(bm == seq![(cols[0].0, cm)] + rest);
                                let t = infer_type(cols[0].0, cols[0].1[0])->Some_0;
                                assert(cm == typed_col(t, cols[0].1));
                                assert(col_len(cm) == cols[0].1.len());
                                assert forall|k: int| 0 <= k < bm.len() implies col_len(
                                    (#[trigger] bm[k]).1,
                                ) == n by {
                                    if k == 0 {
                                        assert(bm[0].1 == cm);
                                    } else {
                                        assert(bm[k] == rest[k - 1]);
                                    }
                                }
                            },
                            Err(_) => {
                                assert(false);
                            },
                        }
                    },
                }
            },
            Err(_) => {
                assert(false);
            },
        }
    }
}

/// The batch invariant: every column of a successful batch holds exactly one
/// value per contributing row of the payload.
pub proof fn lemma_batch_balanced(v: JVal, b: BatchModel)
    requires
        spec_build(v) == Ok::<BatchModel, ErrModel>(b),
    ensures
        forall|k: int| 0 <= k < b.len() ==> col_len((#[trigger] b[k]).1) == contributing(
            rows_of(v),
        ),
{
    let rows = rows_of(v);
    let cols = pivot_rows(Seq::empty(), rows);
    lemma_type_all_lens(cols, contributing(rows), b);
}

} // verus!
