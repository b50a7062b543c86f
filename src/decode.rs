//! The decode engine: applies a validated schema to a frame.
use vstd::prelude::*;

use crate::error::{DecodeError, DecodeErrorKind, HookFailure};
use crate::helper::{window, window_fits};
use crate::scalar::{decode_scalar, kind_size, scalar_of, size_of_kind, ScalarValue};
use crate::error::SchemaError;
use crate::schema::{field_problem, first_index, resolve, Field, FieldDescriptor, Schema};

verus! {

/// Value of one decoded field.
#[derive(Debug, Clone, PartialEq)]
pub enum FieldValue<T> {
    /// A scalar reconstructed by the engine.
    Scalar(ScalarValue),
    /// The value a custom decoder produced.
    Hooked(T),
}

/// The registered custom decoders of a schema. A decoder is addressed by its
/// position among the decoder names the schema was validated against.
pub trait DecoderHook {
    type Output;

    /// Turns the bytes of a field into a value. The decoder itself checks
    /// that it received as many bytes as it needs.
    fn decode_bytes(&self, hook: usize, bytes: &[u8]) -> Result<Self::Output, HookFailure>;
}

/// What, if anything, is wrong with field `f` on a frame of `len` bytes: its
/// window exceeds the frame, or it has no decoder and its width is not the
/// natural size of its kind.
pub open spec fn field_check(f: Field, len: int) -> Option<DecodeErrorKind> {
    if !window_fits(f.offset as int, f.width as int, len) {
        Some(DecodeErrorKind::Slicing)
    } else if f.hook is None && f.width != kind_size(f.kind) {
        Some(DecodeErrorKind::Conversion)
    } else {
        None
    }
}

/// Position of the first field among the first `n` that fails its check.
pub open spec fn first_failure(fs: Seq<Field>, len: int, n: nat) -> Option<nat>
    decreases n,
{
    if n == 0 {
        None
    } else {
        match first_failure(fs, len, (n - 1) as nat) {
            Some(k) => Some(k),
            None => if field_check(fs[n - 1], len) is Some {
                Some((n - 1) as nat)
            } else {
                None
            },
        }
    }
}

/// The scalar that field `f` holds in `frame`.
pub open spec fn scalar_field_value(f: Field, frame: Seq<u8>) -> ScalarValue {
    scalar_of(f.kind, f.endianness, window(frame, f.offset as int, f.width as int))
}

/// The error reported for field `f` at position `i` failing with `kind`.
pub open spec fn error_at(f: Field, i: int, kind: DecodeErrorKind) -> DecodeError {
    DecodeError { kind, field: i as usize, offset: f.offset }
}

/// No field has a custom decoder.
pub open spec fn no_hooks(fs: Seq<Field>) -> bool {
    forall|i: int| 0 <= i < fs.len() ==> #[trigger] fs[i].hook is None
}

/// Every field without a custom decoder has the natural width of its kind, as
/// validation ensures.
pub open spec fn widths_match(fs: Seq<Field>) -> bool {
    forall|i: int|
        0 <= i < fs.len() && #[trigger] fs[i].hook is None ==> fs[i].width == kind_size(fs[i].kind)
}

/// The outcome of decoding `frame` with the fields `fs` when no field has a
/// custom decoder: the error of the first failing field, or every field's
/// scalar.
pub open spec fn plain_outcome(fs: Seq<Field>, frame: Seq<u8>) -> Result<
    Seq<ScalarValue>,
    DecodeError,
> {
    match first_failure(fs, frame.len() as int, fs.len()) {
        Some(j) => Err(error_at(fs[j as int], j as int, field_check(fs[j as int], frame.len() as int).unwrap())),
        None => Ok(Seq::new(fs.len(), |i: int| scalar_field_value(fs[i], frame))),
    }
}

/// The bytes of field `f`, at position `index`, in `frame`; a `Slicing`
/// error when its window exceeds the frame.
pub fn field_bytes<'a>(index: usize, f: Field, frame: &'a [u8]) -> (r: Result<&'a [u8], DecodeError>)
    ensures
        window_fits(f.offset as int, f.width as int, frame@.len() as int) ==> (r is Ok
            && r.unwrap()@ == window(frame@, f.offset as int, f.width as int)),
        !window_fits(f.offset as int, f.width as int, frame@.len() as int) ==> r == Err::<
            &[u8],
            DecodeError,
        >(error_at(f, index as int, DecodeErrorKind::Slicing)),
{
    if f.offset > frame.len() || f.width > frame.len() - f.offset {
        return Err(DecodeError { kind: DecodeErrorKind::Slicing, field: index, offset: f.offset });
    }
    Ok(vstd::slice::slice_subrange(frame, f.offset, f.offset + f.width))
}

/// The scalar of field `f`, at position `index`, in `frame`; the field's
/// error when it fails its check.
pub fn scalar_field(index: usize, f: Field, frame: &[u8]) -> (r: Result<ScalarValue, DecodeError>)
    requires
        f.hook is None,
    ensures
        field_check(f, frame@.len() as int) is None ==> r == Ok::<ScalarValue, DecodeError>(
            scalar_field_value(f, frame@),
        ),
        field_check(f, frame@.len() as int) is Some ==> r == Err::<ScalarValue, DecodeError>(
            error_at(f, index as int, field_check(f, frame@.len() as int).unwrap()),
        ),
{
    let bytes = field_bytes(index, f, frame)?;
    if bytes.len() != size_of_kind(f.kind) {
        return Err(DecodeError { kind: DecodeErrorKind::Conversion, field: index, offset: f.offset });
    }
    Ok(decode_scalar(f.kind, f.endianness, bytes))
}

/// The value of a field, at position `index` and offset `offset`, whose
/// custom decoder returned `outcome`: the decoder's value, or its failure
/// attributed to the field.
pub fn settle_hook<T>(index: usize, offset: usize, outcome: Result<T, HookFailure>) -> (r: Result<
    FieldValue<T>,
    DecodeError,
>)
    ensures
        outcome is Ok ==> r == Ok::<FieldValue<T>, DecodeError>(FieldValue::Hooked(outcome->Ok_0)),
        outcome is Err ==> r == Err::<FieldValue<T>, DecodeError>(
            DecodeError { kind: DecodeErrorKind::Hook(outcome->Err_0), field: index, offset },
        ),
{
    match outcome {
        Ok(v) => Ok(FieldValue::Hooked(v)),
        Err(e) => Err(DecodeError { kind: DecodeErrorKind::Hook(e), field: index, offset }),
    }
}

proof fn lemma_first_failure_stable(fs: Seq<Field>, len: int, n: nat, m: nat)
    requires
        n <= m,
        first_failure(fs, len, n) is Some,
    ensures
        first_failure(fs, len, m) == first_failure(fs, len, n),
    decreases m - n,
{
    if n < m {
        lemma_first_failure_stable(fs, len, n, (m - 1) as nat);
    }
}

/// Decodes `frame` with `schema`, field by field in declaration order,
/// passing the bytes of each field that has a custom decoder to `hooks`.
/// Stops at the first field that fails and reports that field; no partial
/// record is returned.
pub fn decode<H: DecoderHook>(schema: &Schema, frame: &[u8], hooks: &H) -> (r: Result<
    Vec<FieldValue<H::Output>>,
    DecodeError,
>)
    ensures
        r is Ok ==> first_failure(schema@, frame@.len() as int, schema@.len()) is None,
        r is Ok ==> r.unwrap()@.len() == schema@.len(),
        r is Ok ==> forall|i: int|
            0 <= i < schema@.len() ==> (schema@[i].hook is None ==> r.unwrap()@[i]
                == FieldValue::<H::Output>::Scalar(scalar_field_value(schema@[i], frame@))) && (
            schema@[i].hook is Some ==> r.unwrap()@[i] is Hooked),
        r is Err ==> ({
            let e = r->Err_0;
            &&& e.field < schema@.len()
            &&& e.offset == schema@[e.field as int].offset
            &&& first_failure(schema@, frame@.len() as int, e.field as nat) is None
            &&& e.kind is Hook ==> schema@[e.field as int].hook is Some && field_check(
                schema@[e.field as int],
                frame@.len() as int,
            ) is None
            &&& !(e.kind is Hook) ==> field_check(schema@[e.field as int], frame@.len() as int)
                == Some(e.kind)
        }),
        no_hooks(schema@) ==> match plain_outcome(schema@, frame@) {
            Ok(vals) => r is Ok && r->Ok_0@ == vals.map_values(
                |v: ScalarValue| FieldValue::<H::Output>::Scalar(v),
            ),
            Err(e) => r == Err::<Vec<FieldValue<H::Output>>, DecodeError>(e),
        },
{
    let ghost fs = schema@;
    let ghost len = frame@.len() as int;
    let n = schema.len();
    let mut out: Vec<FieldValue<H::Output>> = Vec::new();
    let mut i: usize = 0;
    while i < n
        invariant
            fs == schema@,
            len == frame@.len(),
            n == fs.len(),
            i <= n,
            first_failure(fs, len, i as nat) is None,
            out@.len() == i,
            forall|k: int|
                0 <= k < i ==> (fs[k].hook is None ==> out@[k] == FieldValue::<H::Output>::Scalar(
                    scalar_field_value(fs[k], frame@),
                )) && (fs[k].hook is Some ==> out@[k] is Hooked),
        decreases n - i,
    {
        let f = schema.field(i);
        match f.hook {
            Some(h) => {
                let bytes = match field_bytes(i, f, frame) {
                    Ok(b) => b,
                    Err(e) => {
                        proof {
                            lemma_first_failure_stable(fs, len, (i + 1) as nat, n as nat);
                        }
                        return Err(e);
                    },
                };
                let outcome = hooks.decode_bytes(h, bytes);
                let v = settle_hook(i, f.offset, outcome)?;
                out.push(v);
            },
            None => {
                match scalar_field(i, f, frame) {
                    Ok(v) => out.push(FieldValue::Scalar(v)),
                    Err(e) => {
                        proof {
                            lemma_first_failure_stable(fs, len, (i + 1) as nat, n as nat);
                        }
                        return Err(e);
                    },
                }
            },
        }
        i = i + 1;
    }
    proof {
        if no_hooks(fs) {
            assert(out@ =~= Seq::new(fs.len(), |k: int| scalar_field_value(fs[k], frame@)).map_values(
                |v: ScalarValue| FieldValue::<H::Output>::Scalar(v),
            ));
        }
    }
    Ok(out)
}

proof fn lemma_no_failure(fs: Seq<Field>, len: int, n: nat)
    requires
        n <= fs.len(),
        forall|i: int| 0 <= i < n ==> #[trigger] field_check(fs[i], len) is None,
    ensures
        first_failure(fs, len, n) is None,
    decreases n,
{
    if n > 0 {
        lemma_no_failure(fs, len, (n - 1) as nat);
    }
}

/// When every field of a schema whose scalar widths match lies within the
/// frame, decoding succeeds and every field holds the reading of its own
/// bytes in its byte order.
pub proof fn lemma_in_bounds_decodes(fs: Seq<Field>, frame: Seq<u8>)
    requires
        widths_match(fs),
        forall|i: int|
            0 <= i < fs.len() ==> window_fits(
                #[trigger] fs[i].offset as int,
                fs[i].width as int,
                frame.len() as int,
            ),
    ensures
        plain_outcome(fs, frame) == Ok::<Seq<ScalarValue>, DecodeError>(
            Seq::new(
                fs.len(),
                |i: int|
                    scalar_of(
                        fs[i].kind,
                        fs[i].endianness,
                        frame.subrange(fs[i].offset as int, fs[i].offset + fs[i].width),
                    ),
            ),
        ),
{
    assert forall|i: int| 0 <= i < fs.len() implies #[trigger] field_check(
        fs[i],
        frame.len() as int,
    ) is None by {
        assert(window_fits(fs[i].offset as int, fs[i].width as int, frame.len() as int));
    }
    lemma_no_failure(fs, frame.len() as int, fs.len());
    assert(Seq::new(fs.len(), |i: int| scalar_field_value(fs[i], frame)) =~= Seq::new(
        fs.len(),
        |i: int|
            scalar_of(
                fs[i].kind,
                fs[i].endianness,
                frame.subrange(fs[i].offset as int, fs[i].offset + fs[i].width),
            ),
    ));
}

/// In a schema whose scalar widths match, a field whose window exceeds the
/// frame makes decoding fail with a slicing error attributed to that field,
/// provided every earlier field lies within the frame.
pub proof fn lemma_out_of_bounds_fails(fs: Seq<Field>, frame: Seq<u8>, j: int)
    requires
        widths_match(fs),
        0 <= j < fs.len(),
        fs[j].offset + fs[j].width > frame.len(),
        forall|k: int|
            0 <= k < j ==> window_fits(
                #[trigger] fs[k].offset as int,
                fs[k].width as int,
                frame.len() as int,
            ),
    ensures
        plain_outcome(fs, frame) == Err::<Seq<ScalarValue>, DecodeError>(
            DecodeError { kind: DecodeErrorKind::Slicing, field: j as usize, offset: fs[j].offset },
        ),
{
    let len = frame.len() as int;
    assert forall|k: int| 0 <= k < j implies #[trigger] field_check(fs[k], len) is None by {
        assert(window_fits(fs[k].offset as int, fs[k].width as int, len));
    }
    lemma_no_failure(fs, len, j as nat);
    assert(first_failure(fs, len, (j + 1) as nat) == Some(j as nat));
    lemma_first_failure_stable(fs, len, (j + 1) as nat, fs.len());
}

/// The outcome of a decode is a function of the schema and of the frame's
/// length and field bytes alone: two frames of one length that agree on the
/// bytes of every field decode alike, and so does one frame decoded again.
pub proof fn lemma_decode_deterministic(fs: Seq<Field>, a: Seq<u8>, b: Seq<u8>)
    requires
        a.len() == b.len(),
        forall|i: int|
            0 <= i < fs.len() && window_fits(fs[i].offset as int, fs[i].width as int, a.len() as int)
                ==> #[trigger] window(a, fs[i].offset as int, fs[i].width as int) == window(
                b,
                fs[i].offset as int,
                fs[i].width as int,
            ),
    ensures
        plain_outcome(fs, a) == plain_outcome(fs, b),
{
    let len = a.len() as int;
    if first_failure(fs, len, fs.len()) is None {
        assert forall|i: int| 0 <= i < fs.len() implies #[trigger] scalar_field_value(fs[i], a)
            == scalar_field_value(fs[i], b) by {
            lemma_no_failure_inverse(fs, len, fs.len(), i);
            assert(window(a, fs[i].offset as int, fs[i].width as int) == window(
                b,
                fs[i].offset as int,
                fs[i].width as int,
            ));
        }
        assert(Seq::new(fs.len(), |i: int| scalar_field_value(fs[i], a)) =~= Seq::new(
            fs.len(),
            |i: int| scalar_field_value(fs[i], b),
        ));
    }
}

proof fn lemma_no_failure_inverse(fs: Seq<Field>, len: int, n: nat, i: int)
    requires
        first_failure(fs, len, n) is None,
        0 <= i < n,
    ensures
        field_check(fs[i], len) is None,
    decreases n,
{
    if i < n - 1 {
        lemma_no_failure_inverse(fs, len, (n - 1) as nat, i);
    }
}

/// A field with a custom decoder is held to the width it declares, not to
/// the natural size of its scalar type: validation does not compare the two,
/// and decoding only asks that the declared window lie within the frame.
pub proof fn lemma_decoder_width_honored(
    ds: Seq<FieldDescriptor>,
    hooks: Seq<Seq<char>>,
    i: int,
    len: int,
)
    requires
        0 <= i < ds.len(),
        ds[i].decoder is Some,
        first_index(hooks, ds[i].decoder.unwrap()@) is Some,
    ensures
        !(field_problem(ds, hooks, i) matches Some(SchemaError::WidthMismatch { .. })),
        field_check(resolve(ds[i], hooks), len) is None <==> window_fits(
            ds[i].offset as int,
            ds[i].width as int,
            len,
        ),
{
}

} // verus!
