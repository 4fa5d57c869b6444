use vstd::prelude::*;
use vstd::utf8::{decode_utf8, encode_utf8, valid_utf8, encode_utf8_valid_utf8, encode_utf8_decode_utf8};

verus! {

/// The smallest integer that the host runtime holds as an immediate.
pub const MIN_FIXNUM: i64 = -4611686018427387904;

/// The largest integer that the host runtime holds as an immediate.
pub const MAX_FIXNUM: i64 = 4611686018427387903;

/// The element kinds of a raw numeric buffer.
#[derive(Clone, Copy, Debug, PartialEq, Eq, Structural)]
pub enum BufferKind {
    Uint8,
    Int32,
    Int64,
    Float32,
    Float64,
}

/// The layout that a native value takes on the host side.
pub enum ShapeM {
    Unit,
    Int,
    Bool,
    Int32,
    Int64,
    Float,
    Bytes,
    Text,
    Tuple(Seq<ShapeM>),
    Record(Seq<ShapeM>),
    Array(Box<ShapeM>),
    List(Box<ShapeM>),
    Option(Box<ShapeM>),
    Result(Box<ShapeM>, Box<ShapeM>),
    /// One field list per declared variant, in declaration order.
    Variant(Seq<Seq<ShapeM>>),
    /// A contiguous buffer of numbers of one kind.
    Buffer(BufferKind),
}

/// A native value. Floats are held as their IEEE-754 bit patterns.
pub enum ValueM {
    Unit,
    Int(int),
    Bool(bool),
    Int32(i32),
    Int64(i64),
    Float(u64),
    Bytes(Seq<u8>),
    Text(Seq<char>),
    /// A tuple, or a record with its fields in declaration order.
    Tuple(Seq<ValueM>),
    Array(Seq<ValueM>),
    List(Seq<ValueM>),
    Absent,
    Present(Box<ValueM>),
    Success(Box<ValueM>),
    Failure(Box<ValueM>),
    /// The variant at this declaration index, with its fields.
    Variant(nat, Seq<ValueM>),
    /// The elements of a raw buffer, each as its bit pattern.
    Buffer(Seq<u64>),
}

/// A value in the host runtime's representation: an immediate integer or a
/// block with a tag.
pub enum EncodedM {
    Imm(int),
    Block(u8, Seq<EncodedM>),
    /// A string block.
    Bytes(Seq<u8>),
    /// A boxed float.
    Double(u64),
    /// A flat block of floats.
    DoubleArray(Seq<u64>),
    /// A boxed 32-bit integer.
    Int32(i32),
    /// A boxed 64-bit integer.
    Int64(i64),
    /// A one-dimensional buffer block holding a copy of the elements.
    BigArray(BufferKind, Seq<u64>),
}

/// The text that bytes read as: their UTF-8 decoding when they are valid
/// UTF-8, else what the lossy decoder makes of them.
pub open spec fn text_of(b: Seq<u8>) -> Seq<char> {
    if valid_utf8(b) {
        decode_utf8(b)
    } else {
        lossy_of(b)
    }
}

/// The text that bytes read as, invalid sequences replaced.
pub uninterp spec fn lossy_of(b: Seq<u8>) -> Seq<char>;

pub open spec fn all_float(ss: Seq<ShapeM>) -> bool {
    forall|i: int| 0 <= i < ss.len() ==> ss[i] == ShapeM::Float
}

/// The number of payload-free variants among the first `i`.
pub open spec fn const_index(vars: Seq<Seq<ShapeM>>, i: int) -> nat
    decreases i,
{
    if i <= 0 {
        0
    } else {
        const_index(vars, i - 1) + if vars[i - 1].len() == 0 {
            1nat
        } else {
            0nat
        }
    }
}

/// The number of variants with a payload among the first `i`.
pub open spec fn block_index(vars: Seq<Seq<ShapeM>>, i: int) -> nat
    decreases i,
{
    if i <= 0 {
        0
    } else {
        block_index(vars, i - 1) + if vars[i - 1].len() == 0 {
            0nat
        } else {
            1nat
        }
    }
}

/// The declaration index of the payload-free variant numbered `n`.
pub open spec fn const_variant(vars: Seq<Seq<ShapeM>>, n: int) -> Option<nat> {
    if exists|i: int|
        0 <= i < vars.len() && vars[i].len() == 0 && const_index(vars, i) == n {
        Some(
            (choose|i: int|
                0 <= i < vars.len() && vars[i].len() == 0 && const_index(vars, i) == n) as nat,
        )
    } else {
        None
    }
}

/// The declaration index of the variant with a payload numbered `t`.
pub open spec fn block_variant(vars: Seq<Seq<ShapeM>>, t: int) -> Option<nat> {
    if exists|i: int|
        0 <= i < vars.len() && vars[i].len() != 0 && block_index(vars, i) == t {
        Some(
            (choose|i: int|
                0 <= i < vars.len() && vars[i].len() != 0 && block_index(vars, i) == t) as nat,
        )
    } else {
        None
    }
}

pub open spec fn float_bits(vs: Seq<ValueM>) -> Seq<u64> {
    Seq::new(vs.len(), |i: int| vs[i]->Float_0)
}

pub open spec fn floats(ds: Seq<u64>) -> Seq<ValueM> {
    Seq::new(ds.len(), |i: int| ValueM::Float(ds[i]))
}

/// `v` is a value of shape `s` that the host runtime can represent.
pub open spec fn well_typed(s: ShapeM, v: ValueM) -> bool
    decreases v,
{
    match s {
        ShapeM::Unit => v is Unit,
        ShapeM::Int => v matches ValueM::Int(n) && MIN_FIXNUM <= n <= MAX_FIXNUM,
        ShapeM::Bool => v is Bool,
        ShapeM::Int32 => v is Int32,
        ShapeM::Int64 => v is Int64,
        ShapeM::Float => v is Float,
        ShapeM::Bytes => v is Bytes,
        ShapeM::Text => v is Text,
        ShapeM::Tuple(ss) => v matches ValueM::Tuple(vs) && vs.len() == ss.len() && forall|i: int|
            0 <= i < vs.len() ==> well_typed(ss[i], #[trigger] vs[i]),
        ShapeM::Record(ss) => v matches ValueM::Tuple(vs) && vs.len() == ss.len() && forall|i: int|
            0 <= i < vs.len() ==> well_typed(ss[i], #[trigger] vs[i]),
        ShapeM::Array(e) => v matches ValueM::Array(vs) && forall|i: int|
            0 <= i < vs.len() ==> well_typed(*e, #[trigger] vs[i]),
        ShapeM::List(e) => v matches ValueM::List(vs) && forall|i: int|
            0 <= i < vs.len() ==> well_typed(*e, #[trigger] vs[i]),
        ShapeM::Option(e) => match v {
            ValueM::Absent => true,
            ValueM::Present(x) => well_typed(*e, *x),
            _ => false,
        },
        ShapeM::Result(a, b) => match v {
            ValueM::Success(x) => well_typed(*a, *x),
            ValueM::Failure(x) => well_typed(*b, *x),
            _ => false,
        },
        ShapeM::Buffer(_) => v is Buffer,
        ShapeM::Variant(vars) => vars.len() <= 246 && (v matches ValueM::Variant(i, fs) && i
            < vars.len() && fs.len() == vars[i as int].len() && forall|k: int|
            0 <= k < fs.len() ==> well_typed(vars[i as int][k], #[trigger] fs[k])),
    }
}

/// The host representation of `v` at shape `s`.
pub open spec fn enc(s: ShapeM, v: ValueM) -> EncodedM
    decreases v,
{
    match v {
        ValueM::Unit => EncodedM::Imm(0),
        ValueM::Int(n) => EncodedM::Imm(n),
        ValueM::Bool(b) => EncodedM::Imm(
            if b {
                1
            } else {
                0
            },
        ),
        ValueM::Int32(x) => EncodedM::Int32(x),
        ValueM::Int64(x) => EncodedM::Int64(x),
        ValueM::Float(x) => EncodedM::Double(x),
        ValueM::Bytes(b) => EncodedM::Bytes(b),
        ValueM::Text(t) => EncodedM::Bytes(encode_utf8(t)),
        ValueM::Tuple(vs) => match s {
            ShapeM::Record(ss) => if all_float(ss) {
                EncodedM::DoubleArray(float_bits(vs))
            } else {
                EncodedM::Block(0, enc_fields(ss, vs))
            },
            _ => EncodedM::Block(0, enc_fields(s->Tuple_0, vs)),
        },
        ValueM::Array(vs) => if *(s->Array_0) == ShapeM::Float {
            EncodedM::DoubleArray(float_bits(vs))
        } else {
            EncodedM::Block(0, enc_all(*(s->Array_0), vs))
        },
        ValueM::List(vs) => enc_list(*(s->List_0), vs),
        ValueM::Absent => EncodedM::Imm(0),
        ValueM::Present(x) => EncodedM::Block(0, seq![enc(*(s->Option_0), *x)]),
        ValueM::Success(x) => EncodedM::Block(0, seq![enc(*(s->Result_0), *x)]),
        ValueM::Failure(x) => EncodedM::Block(1, seq![enc(*(s->Result_1), *x)]),
        ValueM::Buffer(d) => EncodedM::BigArray(s->Buffer_0, d),
        ValueM::Variant(i, fs) => {
            let vars = s->Variant_0;
            if vars[i as int].len() == 0 {
                EncodedM::Imm(const_index(vars, i as int) as int)
            } else {
                EncodedM::Block(
                    block_index(vars, i as int) as u8,
                    enc_fields(vars[i as int], fs),
                )
            }
        },
    }
}

/// The fields `vs`, each at the shape of the same position.
pub open spec fn enc_fields(ss: Seq<ShapeM>, vs: Seq<ValueM>) -> Seq<EncodedM>
    decreases vs,
{
    if vs.len() == 0 {
        Seq::empty()
    } else {
        enc_fields(ss, vs.drop_last()).push(enc(ss[vs.len() - 1], vs.last()))
    }
}

/// The elements `vs`, all at shape `s`.
pub open spec fn enc_all(s: ShapeM, vs: Seq<ValueM>) -> Seq<EncodedM>
    decreases vs,
{
    if vs.len() == 0 {
        Seq::empty()
    } else {
        enc_all(s, vs.drop_last()).push(enc(s, vs.last()))
    }
}

/// A linked list of cells of two fields, ending in the empty list.
pub open spec fn enc_list(s: ShapeM, vs: Seq<ValueM>) -> EncodedM
    decreases vs,
{
    if vs.len() == 0 {
        EncodedM::Imm(0)
    } else {
        EncodedM::Block(0, seq![enc(s, vs[0]), enc_list(s, vs.drop_first())])
    }
}

/// The native value that `e` stands for at shape `s`; `None` when the
/// representation does not fit the shape.
pub open spec fn dec(s: ShapeM, e: EncodedM) -> Option<ValueM>
    decreases e,
{
    match s {
        ShapeM::Unit => if e is Imm {
            Some(ValueM::Unit)
        } else {
            None
        },
        ShapeM::Int => match e {
            EncodedM::Imm(n) => Some(ValueM::Int(n)),
            _ => None,
        },
        ShapeM::Bool => match e {
            EncodedM::Imm(n) => Some(ValueM::Bool(n != 0)),
            _ => None,
        },
        ShapeM::Int32 => match e {
            EncodedM::Int32(x) => Some(ValueM::Int32(x)),
            _ => None,
        },
        ShapeM::Int64 => match e {
            EncodedM::Int64(x) => Some(ValueM::Int64(x)),
            _ => None,
        },
        ShapeM::Float => match e {
            EncodedM::Double(x) => Some(ValueM::Float(x)),
            _ => None,
        },
        ShapeM::Bytes => match e {
            EncodedM::Bytes(b) => Some(ValueM::Bytes(b)),
            _ => None,
        },
        ShapeM::Text => match e {
            EncodedM::Bytes(b) => Some(ValueM::Text(text_of(b))),
            _ => None,
        },
        ShapeM::Tuple(ss) => match e {
            EncodedM::Block(tag, fs) => if tag == 0 && fs.len() == ss.len() {
                match dec_fields(ss, fs) {
                    Some(vs) => Some(ValueM::Tuple(vs)),
                    None => None,
                }
            } else {
                None
            },
            _ => None,
        },
        ShapeM::Record(ss) => match e {
            EncodedM::DoubleArray(ds) => if all_float(ss) && ds.len() == ss.len() {
                Some(ValueM::Tuple(floats(ds)))
            } else {
                None
            },
            EncodedM::Block(tag, fs) => if tag == 0 && fs.len() == ss.len() {
                match dec_fields(ss, fs) {
                    Some(vs) => Some(ValueM::Tuple(vs)),
                    None => None,
                }
            } else {
                None
            },
            _ => None,
        },
        ShapeM::Array(el) => match e {
            EncodedM::DoubleArray(ds) => if *el == ShapeM::Float {
                Some(ValueM::Array(floats(ds)))
            } else {
                None
            },
            EncodedM::Block(tag, fs) => if tag == 0 {
                match dec_all(*el, fs) {
                    Some(vs) => Some(ValueM::Array(vs)),
                    None => None,
                }
            } else {
                None
            },
            _ => None,
        },
        ShapeM::List(el) => match e {
            EncodedM::Imm(n) => if n == 0 {
                Some(ValueM::List(Seq::empty()))
            } else {
                None
            },
            EncodedM::Block(tag, fs) => if tag == 0 && fs.len() == 2 {
                match (dec(*el, fs[0]), dec(s, fs[1])) {
                    (Some(h), Some(ValueM::List(t))) => Some(ValueM::List(seq![h] + t)),
                    _ => None,
                }
            } else {
                None
            },
            _ => None,
        },
        ShapeM::Option(el) => match e {
            EncodedM::Imm(n) => if n == 0 {
                Some(ValueM::Absent)
            } else {
                None
            },
            EncodedM::Block(tag, fs) => if tag == 0 && fs.len() == 1 {
                match dec(*el, fs[0]) {
                    Some(x) => Some(ValueM::Present(Box::new(x))),
                    None => None,
                }
            } else {
                None
            },
            _ => None,
        },
        ShapeM::Result(a, b) => match e {
            EncodedM::Block(tag, fs) => if tag == 0 && fs.len() == 1 {
                match dec(*a, fs[0]) {
                    Some(x) => Some(ValueM::Success(Box::new(x))),
                    None => None,
                }
            } else if tag == 1 && fs.len() == 1 {
                match dec(*b, fs[0]) {
                    Some(x) => Some(ValueM::Failure(Box::new(x))),
                    None => None,
                }
            } else {
                None
            },
            _ => None,
        },
        ShapeM::Buffer(k) => match e {
            EncodedM::BigArray(k2, d) => if k2 == k {
                Some(ValueM::Buffer(d))
            } else {
                None
            },
            _ => None,
        },
        ShapeM::Variant(vars) => match e {
            EncodedM::Imm(n) => match const_variant(vars, n) {
                Some(i) => Some(ValueM::Variant(i, Seq::empty())),
                None => None,
            },
            EncodedM::Block(tag, fs) => match block_variant(vars, tag as int) {
                Some(i) => if fs.len() == vars[i as int].len() {
                    match dec_fields(vars[i as int], fs) {
                        Some(vs) => Some(ValueM::Variant(i, vs)),
                        None => None,
                    }
                } else {
                    None
                },
                None => None,
            },
            _ => None,
        },
    }
}

/// The fields `fs`, each at the shape of the same position.
pub open spec fn dec_fields(ss: Seq<ShapeM>, fs: Seq<EncodedM>) -> Option<Seq<ValueM>>
    decreases fs,
{
    if fs.len() == 0 {
        Some(Seq::empty())
    } else {
        match (dec_fields(ss, fs.drop_last()), dec(ss[fs.len() - 1], fs.last())) {
            (Some(vs), Some(x)) => Some(vs.push(x)),
            _ => None,
        }
    }
}

/// The elements `fs`, all at shape `s`.
pub open spec fn dec_all(s: ShapeM, fs: Seq<EncodedM>) -> Option<Seq<ValueM>>
    decreases fs,
{
    if fs.len() == 0 {
        Some(Seq::empty())
    } else {
        match (dec_all(s, fs.drop_last()), dec(s, fs.last())) {
            (Some(vs), Some(x)) => Some(vs.push(x)),
            _ => None,
        }
    }
}

pub proof fn lemma_const_index_mono(vars: Seq<Seq<ShapeM>>, a: int, b: int)
    requires
        0 <= a <= b,
    ensures
        const_index(vars, a) <= const_index(vars, b),
        block_index(vars, a) <= block_index(vars, b),
        const_index(vars, b) + block_index(vars, b) == b,
    decreases b - a,
{
    if a < b {
        lemma_const_index_mono(vars, a, b - 1);
    } else {
        lemma_index_sum(vars, b);
    }
}

pub proof fn lemma_index_sum(vars: Seq<Seq<ShapeM>>, b: int)
    requires
        0 <= b,
    ensures
        const_index(vars, b) + block_index(vars, b) == b,
    decreases b,
{
    if b > 0 {
        lemma_index_sum(vars, b - 1);
    }
}

pub proof fn lemma_variant_index(vars: Seq<Seq<ShapeM>>, i: int)
    requires
        0 <= i < vars.len(),
    ensures
        vars[i].len() == 0 ==> const_variant(vars, const_index(vars, i) as int) == Some(i as nat),
        vars[i].len() != 0 ==> block_variant(vars, block_index(vars, i) as int) == Some(i as nat),
        vars[i].len() == 0 ==> const_index(vars, i) < const_index(vars, vars.len() as int),
        vars[i].len() != 0 ==> block_index(vars, i) < block_index(vars, vars.len() as int),
        block_index(vars, i) <= i,
{
    lemma_index_sum(vars, i);
    lemma_const_index_mono(vars, i + 1, vars.len() as int);
    if vars[i].len() == 0 {
        let n = const_index(vars, i) as int;
        assert(0 <= i < vars.len() && vars[i].len() == 0 && const_index(vars, i) == n);
        let j = choose|j: int| 0 <= j < vars.len() && vars[j].len() == 0 && const_index(vars, j) == n;
        if j < i {
            lemma_const_index_mono(vars, j + 1, i);
        } else if j > i {
            lemma_const_index_mono(vars, i + 1, j);
        }
    } else {
        let n = block_index(vars, i) as int;
        assert(0 <= i < vars.len() && vars[i].len() != 0 && block_index(vars, i) == n);
        let j = choose|j: int| 0 <= j < vars.len() && vars[j].len() != 0 && block_index(vars, j) == n;
        if j < i {
            lemma_const_index_mono(vars, j + 1, i);
        } else if j > i {
            lemma_const_index_mono(vars, i + 1, j);
        }
    }
}

/// Decoding what was encoded gives the value back, for every value that its
/// shape admits: texts, empty and one-element sequences, nested tuples, both
/// branches of options and outcomes included.
pub proof fn lemma_round_trip(s: ShapeM, v: ValueM)
    requires
        well_typed(s, v),
    ensures
        dec(s, enc(s, v)) == Some(v),
    decreases v,
{
    match v {
        ValueM::Text(t) => {
            encode_utf8_valid_utf8(t);
            encode_utf8_decode_utf8(t);
        },
        ValueM::Tuple(vs) => {
            match s {
                ShapeM::Record(ss) => {
                    if all_float(ss) {
                        assert forall|i: int| 0 <= i < vs.len() implies vs[i] == ValueM::Float(
                            vs[i]->Float_0,
                        ) by {
                            assert(well_typed(ss[i], vs[i]));
                        }
                        assert(floats(float_bits(vs)) =~= vs);
                    } else {
                        lemma_fields(ss, vs);
                    }
                },
                ShapeM::Tuple(ss) => {
                    lemma_fields(ss, vs);
                },
                _ => {},
            }
        },
        ValueM::Array(vs) => {
            let el = *(s->Array_0);
            if el == ShapeM::Float {
                assert forall|i: int| 0 <= i < vs.len() implies vs[i] == ValueM::Float(
                    vs[i]->Float_0,
                ) by {
                    assert(well_typed(el, vs[i]));
                }
                assert(floats(float_bits(vs)) =~= vs);
            } else {
                lemma_all(el, vs);
            }
        },
        ValueM::List(vs) => {
            lemma_list(*(s->List_0), vs);
        },
        ValueM::Present(x) => {
            lemma_round_trip(*(s->Option_0), *x);
        },
        ValueM::Success(x) => {
            lemma_round_trip(*(s->Result_0), *x);
        },
        ValueM::Failure(x) => {
            lemma_round_trip(*(s->Result_1), *x);
        },
        ValueM::Variant(i, fs) => {
            let vars = s->Variant_0;
            lemma_variant_index(vars, i as int);
            if vars[i as int].len() == 0 {
                assert(fs =~= Seq::<ValueM>::empty());
            } else {
                assert((block_index(vars, i as int) as u8) as int == block_index(vars, i as int));
                lemma_fields(vars[i as int], fs);
            }
        },
        _ => {},
    }
}

proof fn lemma_fields(ss: Seq<ShapeM>, vs: Seq<ValueM>)
    requires
        vs.len() <= ss.len(),
        forall|i: int| 0 <= i < vs.len() ==> well_typed(ss[i], #[trigger] vs[i]),
    ensures
        dec_fields(ss, enc_fields(ss, vs)) == Some(vs),
        enc_fields(ss, vs).len() == vs.len(),
    decreases vs,
{
    if vs.len() > 0 {
        let n = vs.len() - 1;
        let init = vs.drop_last();
        assert forall|i: int| 0 <= i < init.len() implies well_typed(ss[i], #[trigger] init[i])
             by {
            assert(init[i] == vs[i]);
        }
        lemma_fields(ss, init);
        assert(well_typed(ss[n], vs[n]));
        lemma_round_trip(ss[n], vs[n]);
        let es = enc_fields(ss, vs);
        assert(es.drop_last() =~= enc_fields(ss, init));
        assert(init.push(vs[n]) =~= vs);
    }
}

proof fn lemma_all(s: ShapeM, vs: Seq<ValueM>)
    requires
        forall|i: int| 0 <= i < vs.len() ==> well_typed(s, #[trigger] vs[i]),
    ensures
        dec_all(s, enc_all(s, vs)) == Some(vs),
        enc_all(s, vs).len() == vs.len(),
    decreases vs,
{
    if vs.len() > 0 {
        let n = vs.len() - 1;
        let init = vs.drop_last();
        assert forall|i: int| 0 <= i < init.len() implies well_typed(s, #[trigger] init[i])
             by {
            assert(init[i] == vs[i]);
        }
        lemma_all(s, init);
        assert(well_typed(s, vs[n]));
        lemma_round_trip(s, vs[n]);
        let es = enc_all(s, vs);
        assert(es.drop_last() =~= enc_all(s, init));
        assert(init.push(vs[n]) =~= vs);
    }
}

proof fn lemma_list(s: ShapeM, vs: Seq<ValueM>)
    requires
        forall|i: int| 0 <= i < vs.len() ==> well_typed(s, #[trigger] vs[i]),
    ensures
        dec(ShapeM::List(Box::new(s)), enc_list(s, vs)) == Some(ValueM::List(vs)),
    decreases vs,
{
    if vs.len() == 0 {
        assert(vs =~= Seq::<ValueM>::empty());
    } else {
        let rest = vs.drop_first();
        assert forall|i: int| 0 <= i < rest.len() implies well_typed(s, #[trigger] rest[i])
             by {
            assert(rest[i] == vs[i + 1]);
        }
        assert(well_typed(s, vs[0]));
        lemma_round_trip(s, vs[0]);
        lemma_list(s, rest);
        assert(seq![vs[0]] + rest =~= vs);
    }
}

/// The payload-free variants of a tagged union are immediates numbered from 0
/// among themselves, and the others are blocks whose tags count from 0 among
/// themselves, whatever the order of declaration.
pub proof fn lemma_variant_tags(vars: Seq<Seq<ShapeM>>, v: ValueM)
    requires
        well_typed(ShapeM::Variant(vars), v),
        vars.len() <= 246,
    ensures
        ({
            let i = v->Variant_0 as int;
            let n = const_index(vars, vars.len() as int);
            let m = block_index(vars, vars.len() as int);
            &&& vars[i].len() == 0 ==> (enc(ShapeM::Variant(vars), v) matches EncodedM::Imm(k)
                && 0 <= k < n && k == const_index(vars, i))
            &&& vars[i].len() != 0 ==> (enc(ShapeM::Variant(vars), v) matches EncodedM::Block(t, _)
                && t < m && t == block_index(vars, i))
        }),
{
    lemma_variant_index(vars, v->Variant_0 as int);
}

/// Relies on `String::from_utf8_lossy`: the bytes read as UTF-8, each invalid
/// sequence replaced; valid UTF-8 reads back as the text it encodes.
#[verifier::external_body]
pub(crate) fn text_from_bytes(b: &[u8]) -> (r: String)
    ensures
        r@ == lossy_of(b@),
        valid_utf8(b@) ==> r@ == decode_utf8(b@),
{
    String::from_utf8_lossy(b).into_owned()
}

} // verus!
