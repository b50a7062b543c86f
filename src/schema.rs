//! Field descriptors, record schemas and their validation.
use vstd::prelude::*;

use crate::error::SchemaError;
use crate::scalar::{kind_size, size_of_kind, Endianness, ScalarKind};

verus! {

/// Declarative description of one output field, as authored.
#[derive(Debug, Clone)]
pub struct FieldDescriptor {
    /// Identifier of the field, unique within a schema.
    pub name: String,
    /// Position of the field's first byte in the frame.
    pub offset: usize,
    /// Number of bytes the field takes from the frame.
    pub width: usize,
    /// Declared scalar type of the field.
    pub kind: ScalarKind,
    /// Byte order of the field's bytes.
    pub endianness: Endianness,
    /// Name of the custom decoder that turns the field's bytes into a value.
    pub decoder: Option<String>,
}

impl FieldDescriptor {
    /// A little-endian field of kind `kind` at `offset`, as wide as its kind,
    /// with no custom decoder.
    pub fn new(name: String, offset: usize, kind: ScalarKind) -> (r: FieldDescriptor)
        ensures
            r.name == name,
            r.offset == offset,
            r.width == kind_size(kind),
            r.kind == kind,
            r.endianness == Endianness::Little,
            r.decoder is None,
    {
        FieldDescriptor {
            name,
            offset,
            width: size_of_kind(kind),
            kind,
            endianness: Endianness::Little,
            decoder: None,
        }
    }

    /// The same field with its bytes read in big-endian order.
    pub fn big_endian(self) -> (r: FieldDescriptor)
        ensures
            r == (FieldDescriptor { endianness: Endianness::Big, ..self }),
    {
        FieldDescriptor { endianness: Endianness::Big, ..self }
    }

    /// The same field taking `width` bytes from the frame.
    pub fn with_width(self, width: usize) -> (r: FieldDescriptor)
        ensures
            r == (FieldDescriptor { width, ..self }),
    {
        FieldDescriptor { width, ..self }
    }

    /// The same field decoded by the custom decoder called `decoder`.
    pub fn with_decoder(self, decoder: String) -> (r: FieldDescriptor)
        ensures
            r == (FieldDescriptor { decoder: Some(decoder), ..self }),
    {
        FieldDescriptor { decoder: Some(decoder), ..self }
    }
}

/// A field descriptor whose decoder name has been resolved to the position of
/// the decoder among the registered ones.
#[derive(Debug, Clone, Copy, PartialEq, Eq, Structural)]
pub struct Field {
    pub offset: usize,
    pub width: usize,
    pub kind: ScalarKind,
    pub endianness: Endianness,
    pub hook: Option<usize>,
}

/// The character sequences of a list of strings.
pub open spec fn names_of(v: Seq<String>) -> Seq<Seq<char>> {
    v.map_values(|s: String| s@)
}

/// Position of the first entry of `names` equal to `d`, if any.
pub open spec fn first_index(names: Seq<Seq<char>>, d: Seq<char>) -> Option<nat>
    decreases names.len(),
{
    if names.len() == 0 {
        None
    } else {
        match first_index(names.drop_last(), d) {
            Some(k) => Some(k),
            None => if names.last() == d {
                Some((names.len() - 1) as nat)
            } else {
                None
            },
        }
    }
}

/// The problem with the descriptor at position `i`, if any: its name repeats
/// an earlier one, its decoder is not among `hooks`, or it has no decoder and
/// its width is not the natural size of its kind.
pub open spec fn field_problem(ds: Seq<FieldDescriptor>, hooks: Seq<Seq<char>>, i: int) -> Option<
    SchemaError,
> {
    let d = ds[i];
    if exists|j: int| 0 <= j < i && #[trigger] ds[j].name@ == d.name@ {
        Some(SchemaError::DuplicateName { field: i as usize })
    } else if d.decoder is Some && first_index(hooks, d.decoder.unwrap()@) is None {
        Some(SchemaError::UnknownDecoder { field: i as usize })
    } else if d.decoder is None && d.width != kind_size(d.kind) {
        Some(
            SchemaError::WidthMismatch {
                field: i as usize,
                width: d.width,
                expected: kind_size(d.kind) as usize,
            },
        )
    } else {
        None
    }
}

/// The first problem among the first `n` descriptors, if any.
pub open spec fn first_problem(ds: Seq<FieldDescriptor>, hooks: Seq<Seq<char>>, n: nat) -> Option<
    SchemaError,
>
    decreases n,
{
    if n == 0 {
        None
    } else {
        match first_problem(ds, hooks, (n - 1) as nat) {
            Some(e) => Some(e),
            None => field_problem(ds, hooks, n - 1),
        }
    }
}

/// The resolved form of descriptor `d` against the decoder names `hooks`.
pub open spec fn resolve(d: FieldDescriptor, hooks: Seq<Seq<char>>) -> Field {
    Field {
        offset: d.offset,
        width: d.width,
        kind: d.kind,
        endianness: d.endianness,
        hook: match d.decoder {
            Some(n) => Some(first_index(hooks, n@).unwrap() as usize),
            None => None,
        },
    }
}

/// A validated, immutable record schema: the resolved fields in declaration
/// order, with their names.
pub struct Schema {
    names: Vec<String>,
    fields: Vec<Field>,
}

impl Schema {
    /// The resolved fields, in declaration order.
    pub closed spec fn view(&self) -> Seq<Field> {
        self.fields@
    }

    /// The field names, in declaration order.
    pub closed spec fn names(&self) -> Seq<Seq<char>> {
        names_of(self.names@)
    }

    /// Validates `descriptors` against the registered decoder names `hooks`
    /// and, when no descriptor has a problem, builds the schema. Otherwise
    /// returns the first problem in declaration order. Offsets are not
    /// checked: fields may overlap or leave gaps.
    pub fn validate(descriptors: &Vec<FieldDescriptor>, hooks: &Vec<String>) -> (r: Result<
        Schema,
        SchemaError,
    >)
        ensures
            first_problem(descriptors@, names_of(hooks@), descriptors@.len()) is Some ==> r == Err::<
                Schema,
                SchemaError,
            >(first_problem(descriptors@, names_of(hooks@), descriptors@.len()).unwrap()),
            first_problem(descriptors@, names_of(hooks@), descriptors@.len()) is None ==> (r is Ok
                && r.unwrap()@ == Seq::new(
                descriptors@.len(),
                |i: int| resolve(descriptors@[i], names_of(hooks@)),
            ) && r.unwrap().names() == descriptors@.map_values(|d: FieldDescriptor| d.name@)),
    {
        let ghost hs = names_of(hooks@);
        let mut names: Vec<String> = Vec::new();
        let mut fields: Vec<Field> = Vec::new();
        let mut i: usize = 0;
        while i < descriptors.len()
            invariant
                hs == names_of(hooks@),
                i <= descriptors@.len(),
                first_problem(descriptors@, hs, i as nat) is None,
                fields@ == Seq::new(i as nat, |k: int| resolve(descriptors@[k], hs)),
                names_of(names@) == descriptors@.take(i as int).map_values(
                    |d: FieldDescriptor| d.name@,
                ),
            decreases descriptors@.len() - i,
        {
            let d = &descriptors[i];
            let mut j: usize = 0;
            while j < i
                invariant
                    hs == names_of(hooks@),
                    first_problem(descriptors@, hs, i as nat) is None,
                    i < descriptors@.len(),
                    j <= i,
                    d == descriptors@[i as int],
                    forall|k: int| 0 <= k < j ==> descriptors@[k].name@ != d.name@,
                decreases i - j,
            {
                if descriptors[j].name == d.name {
                    proof {
                        assert(field_problem(descriptors@, hs, i as int) is Some);
                        lemma_first_problem_stable(descriptors@, hs, (i + 1) as nat, descriptors@.len());
                    }
                    return Err(SchemaError::DuplicateName { field: i });
                }
                j = j + 1;
            }
            let hook = match &d.decoder {
                Some(n) => match find_name(hooks, n) {
                    Some(k) => Some(k),
                    None => {
                        proof {
                            lemma_first_problem_stable(descriptors@, hs, (i + 1) as nat, descriptors@.len());
                        }
                        return Err(SchemaError::UnknownDecoder { field: i });
                    },
                },
                None => {
                    let expected = size_of_kind(d.kind);
                    if d.width != expected {
                        proof {
                            lemma_first_problem_stable(descriptors@, hs, (i + 1) as nat, descriptors@.len());
                        }
                        return Err(
                            SchemaError::WidthMismatch { field: i, width: d.width, expected },
                        );
                    }
                    None
                },
            };
            fields.push(
                Field {
                    offset: d.offset,
                    width: d.width,
                    kind: d.kind,
                    endianness: d.endianness,
                    hook,
                },
            );
            names.push(d.name.clone());
            proof {
                assert(descriptors@.take(i + 1).map_values(|d: FieldDescriptor| d.name@)
                    =~= descriptors@.take(i as int).map_values(|d: FieldDescriptor| d.name@).push(
                    d.name@,
                ));
            }
            i = i + 1;
            proof {
                assert(fields@ =~= Seq::new(i as nat, |k: int| resolve(descriptors@[k], hs)));
                assert(names_of(names@) =~= descriptors@.take(i as int).map_values(
                    |d: FieldDescriptor| d.name@,
                ));
            }
        }
        proof {
            assert(descriptors@.take(i as int) =~= descriptors@);
        }
        Ok(Schema { names, fields })
    }

    /// Number of fields.
    pub fn len(&self) -> (r: usize)
        ensures
            r == self@.len(),
    {
        self.fields.len()
    }

    /// The resolved field at position `i`.
    pub fn field(&self, i: usize) -> (r: Field)
        requires
            i < self@.len(),
        ensures
            r == self@[i as int],
    {
        self.fields[i]
    }

    /// The name of the field at position `i`.
    pub fn name(&self, i: usize) -> (r: &String)
        requires
            i < self.names().len(),
        ensures
            r@ == self.names()[i as int],
    {
        proof {
            assert(names_of(self.names@)[i as int] == self.names@[i as int]@);
        }
        &self.names[i]
    }

    /// Position of the field called `name`, if there is one.
    pub fn position(&self, name: &String) -> (r: Option<usize>)
        ensures
            r == (match first_index(self.names(), name@) {
                Some(k) => Some(k as usize),
                None => None::<usize>,
            }),
    {
        find_name(&self.names, name)
    }
}

/// Once a prefix has a problem, every longer prefix has that same first one.
proof fn lemma_first_problem_stable(ds: Seq<FieldDescriptor>, hs: Seq<Seq<char>>, n: nat, m: nat)
    requires
        n <= m,
        first_problem(ds, hs, n) is Some,
    ensures
        first_problem(ds, hs, m) == first_problem(ds, hs, n),
    decreases m - n,
{
    if n < m {
        lemma_first_problem_stable(ds, hs, n, (m - 1) as nat);
    }
}

proof fn lemma_first_index_step(names: Seq<Seq<char>>, d: Seq<char>, k: int)
    requires
        0 <= k < names.len(),
        first_index(names.take(k), d) is None,
    ensures
        first_index(names.take(k + 1), d) == (if names[k] == d {
            Some(k as nat)
        } else {
            None::<nat>
        }),
{
    assert(names.take(k + 1).drop_last() =~= names.take(k));
}

/// Position of the first entry of `hooks` equal to `n`, if any.
fn find_name(hooks: &Vec<String>, n: &String) -> (r: Option<usize>)
    ensures
        r == (match first_index(names_of(hooks@), n@) {
            Some(k) => Some(k as usize),
            None => None::<usize>,
        }),
        r is Some ==> r.unwrap() < hooks@.len(),
{
    let ghost hs = names_of(hooks@);
    let mut k: usize = 0;
    assert(hs.take(0) =~= Seq::<Seq<char>>::empty());
    while k < hooks.len()
        invariant
            hs == names_of(hooks@),
            k <= hooks@.len(),
            first_index(hs.take(k as int), n@) is None,
        decreases hooks@.len() - k,
    {
        proof {
            lemma_first_index_step(hs, n@, k as int);
        }
        if hooks[k] == *n {
            proof {
                lemma_first_index_prefix(hs, n@, (k + 1) as int);
            }
            return Some(k);
        }
        k = k + 1;
    }
    assert(hs.take(k as int) =~= hs);
    None
}

/// A match found in a prefix is the first match of the whole list.
proof fn lemma_first_index_prefix(names: Seq<Seq<char>>, d: Seq<char>, p: int)
    requires
        0 <= p <= names.len(),
        first_index(names.take(p), d) is Some,
    ensures
        first_index(names, d) == first_index(names.take(p), d),
    decreases names.len() - p,
{
    if p < names.len() {
        assert(names.take(p + 1).drop_last() =~= names.take(p));
        lemma_first_index_prefix(names, d, p + 1);
    } else {
        assert(names.take(p) =~= names);
    }
}

/// The descriptors `ds` moved to the offsets `offsets`, all else kept.
pub open spec fn with_offsets(ds: Seq<FieldDescriptor>, offsets: Seq<usize>) -> Seq<FieldDescriptor> {
    Seq::new(
        ds.len(),
        |i: int|
            FieldDescriptor {
                name: ds[i].name,
                offset: offsets[i],
                width: ds[i].width,
                kind: ds[i].kind,
                endianness: ds[i].endianness,
                decoder: ds[i].decoder,
            },
    )
}

/// Validation never looks at offsets: moving fields so that they overlap or
/// leave gaps neither causes nor removes a schema error.
pub proof fn lemma_offsets_not_validated(
    ds: Seq<FieldDescriptor>,
    offsets: Seq<usize>,
    hooks: Seq<Seq<char>>,
    n: nat,
)
    requires
        offsets.len() == ds.len(),
        n <= ds.len(),
    ensures
        first_problem(with_offsets(ds, offsets), hooks, n) == first_problem(ds, hooks, n),
    decreases n,
{
    if n > 0 {
        lemma_offsets_not_validated(ds, offsets, hooks, (n - 1) as nat);
        let moved = with_offsets(ds, offsets);
        let i = n - 1;
        assert(forall|j: int| 0 <= j < ds.len() ==> #[trigger] moved[j].name == ds[j].name);
        if exists|j: int| 0 <= j < i && #[trigger] moved[j].name@ == moved[i].name@ {
            let j = choose|j: int| 0 <= j < i && #[trigger] moved[j].name@ == moved[i].name@;
            assert(ds[j].name@ == ds[i].name@);
        }
        if exists|j: int| 0 <= j < i && #[trigger] ds[j].name@ == ds[i].name@ {
            let j = choose|j: int| 0 <= j < i && #[trigger] ds[j].name@ == ds[i].name@;
            assert(moved[j].name@ == moved[i].name@);
        }
    }
}

} // verus!
