use vstd::prelude::*;

verus! {

broadcast use vstd::std_specs::vec::group_vec_axioms, vstd::seq::axiom_seq_index_decreases;

/// A self-describing message value: the structured payload carried inside a
/// frame. Keys of a wire map are themselves values, since peers may send text
/// either natively or as a binary blob; both spellings of text are treated as
/// interchangeable when reading.
///
/// Floating-point numbers are carried by their IEEE-754 bit pattern, which is
/// what the wire holds for them anyway; only the codec boundary and callers
/// outside the library interpret the bits.
#[derive(Debug)]
pub enum MsgValue {
    /// The nil value.
    Null,
    /// A boolean.
    Bool(bool),
    /// A non-negative integer.
    UInt(u64),
    /// A negative integer; non-negative values normalize to [`MsgValue::UInt`].
    Int(i64),
    /// A 64-bit float, as its IEEE-754 bit pattern.
    Float(u64),
    /// Native text.
    Text(String),
    /// A binary blob; may also be a peer's spelling of text.
    Bin(Vec<u8>),
    /// An array of values.
    Arr(Vec<MsgValue>),
    /// An ordered list of key/value pairs.
    Dict(Vec<(MsgValue, MsgValue)>),
}

/// The mathematical shape of a [`MsgValue`].
pub enum MsgView {
    Null,
    Bool(bool),
    UInt(u64),
    Int(i64),
    Float(u64),
    Text(Seq<char>),
    Bin(Seq<u8>),
    Arr(Seq<MsgView>),
    Dict(Seq<(MsgView, MsgView)>),
}

/// The mathematical value of a [`MsgValue`].
pub open spec fn value_view(v: MsgValue) -> MsgView
    decreases v,
{
    match v {
        MsgValue::Null => MsgView::Null,
        MsgValue::Bool(b) => MsgView::Bool(b),
        MsgValue::UInt(u) => MsgView::UInt(u),
        MsgValue::Int(i) => MsgView::Int(i),
        MsgValue::Float(bits) => MsgView::Float(bits),
        MsgValue::Text(s) => MsgView::Text(s@),
        MsgValue::Bin(b) => MsgView::Bin(b@),
        MsgValue::Arr(items) => MsgView::Arr(arr_view(items@)),
        MsgValue::Dict(pairs) => MsgView::Dict(dict_view(pairs@)),
    }
}

/// The mathematical values of a sequence of values.
pub open spec fn arr_view(s: Seq<MsgValue>) -> Seq<MsgView>
    decreases s,
{
    if s.len() == 0 {
        Seq::empty()
    } else {
        arr_view(s.drop_last()).push(value_view(s.last()))
    }
}

/// The mathematical values of a sequence of key/value pairs.
pub open spec fn dict_view(s: Seq<(MsgValue, MsgValue)>) -> Seq<(MsgView, MsgView)>
    decreases s,
{
    if s.len() == 0 {
        Seq::empty()
    } else {
        dict_view(s.drop_last()).push((value_view(s.last().0), value_view(s.last().1)))
    }
}

/// An array view is as long as the array, and made of its members' views.
pub broadcast proof fn lemma_arr_view(s: Seq<MsgValue>)
    ensures
        (#[trigger] arr_view(s)).len() == s.len(),
        forall|i: int| 0 <= i < s.len() ==> arr_view(s)[i] == value_view(#[trigger] s[i]),
    decreases s,
{
    if s.len() != 0 {
        lemma_arr_view(s.drop_last());
        assert forall|i: int| 0 <= i < s.len() implies arr_view(s)[i] == value_view(s[i]) by {
            if i < s.len() - 1 {
                assert(s.drop_last()[i] == s[i]);
                assert(arr_view(s)[i] == arr_view(s.drop_last())[i]);
            } else {
                assert(arr_view(s)[i] == value_view(s.last()));
            }
        }
    }
}

/// A pair-list view is as long as the list, and made of its pairs' views.
pub broadcast proof fn lemma_dict_view(s: Seq<(MsgValue, MsgValue)>)
    ensures
        (#[trigger] dict_view(s)).len() == s.len(),
        forall|i: int| 0 <= i < s.len() ==> dict_view(s)[i] == (
            value_view(#[trigger] s[i].0),
            value_view(s[i].1),
        ),
    decreases s,
{
    if s.len() != 0 {
        lemma_dict_view(s.drop_last());
        assert forall|i: int| 0 <= i < s.len() implies dict_view(s)[i] == (
            value_view(s[i].0),
            value_view(s[i].1),
        ) by {
            if i < s.len() - 1 {
                assert(s.drop_last()[i] == s[i]);
                assert(dict_view(s)[i] == dict_view(s.drop_last())[i]);
            } else {
                assert(dict_view(s)[i] == (value_view(s.last().0), value_view(s.last().1)));
            }
        }
    }
}

impl View for MsgValue {
    type V = MsgView;

    open spec fn view(&self) -> MsgView {
        value_view(*self)
    }
}

/// A value is canonical when every non-negative integer in it uses the
/// unsigned spelling. The codec decodes every integer that way, so decoded
/// values are always canonical; only canonical values round-trip unchanged.
pub open spec fn canonical(v: MsgView) -> bool
    decreases v,
{
    match v {
        MsgView::Int(i) => i < 0,
        MsgView::Arr(items) => forall|i: int|
            0 <= i < items.len() ==> canonical(#[trigger] items[i]),
        MsgView::Dict(pairs) => forall|i: int|
            0 <= i < pairs.len() ==> canonical(#[trigger] pairs[i].0) && canonical(pairs[i].1),
        _ => true,
    }
}

/// What `f64::from_bits(bits) as u64` yields, stated over the IEEE-754 bit
/// pattern alone: truncation toward zero, saturating at the ends of the
/// range, with zero for negative values and for NaN.
pub open spec fn float_bits_trunc(bits: u64) -> u64 {
    let exp = (bits >> 52u64) & 0x7ffu64;
    let mant = bits & 0xf_ffff_ffff_ffffu64;
    let sig = mant | 0x10_0000_0000_0000u64;
    if bits >> 63u64 == 1u64 {
        0u64
    } else if exp == 0x7ffu64 {
        if mant == 0u64 {
            u64::MAX
        } else {
            0u64
        }
    } else if exp < 1023u64 {
        0u64
    } else if exp >= 1087u64 {
        u64::MAX
    } else if exp >= 1075u64 {
        sig << (exp - 1075u64)
    } else {
        sig >> (1075u64 - exp)
    }
}

/// Exec twin of [`float_bits_trunc`].
#[verifier::when_used_as_spec(float_bits_trunc)]
pub fn float_bits_trunc_exec(bits: u64) -> (r: u64)
    ensures
        r == float_bits_trunc(bits),
{
    let exp = (bits >> 52u64) & 0x7ffu64;
    let mant = bits & 0xf_ffff_ffff_ffffu64;
    let sig = mant | 0x10_0000_0000_0000u64;
    if bits >> 63u64 == 1u64 {
        0u64
    } else if exp == 0x7ffu64 {
        if mant == 0u64 {
            u64::MAX
        } else {
            0u64
        }
    } else if exp < 1023u64 {
        0u64
    } else if exp >= 1087u64 {
        u64::MAX
    } else if exp >= 1075u64 {
        sig << (exp - 1075u64)
    } else {
        sig >> (1075u64 - exp)
    }
}

/// The unsigned identity a value carries, if any: an unsigned integer as is,
/// a signed integer reinterpreted two's-complement, a float truncated toward
/// zero. The peer sometimes spells identities as floats, so all three must be
/// accepted.
pub open spec fn spec_value_as_u64(v: MsgView) -> Option<u64> {
    match v {
        MsgView::UInt(u) => Some(u),
        MsgView::Int(i) => Some(i as u64),
        MsgView::Float(bits) => Some(float_bits_trunc(bits)),
        _ => None,
    }
}

/// Extract a `u64` from a value, accepting unsigned, signed, and
/// floating-point spellings; the peer sends identities as floats in some
/// cases.
pub fn value_as_u64(v: &MsgValue) -> (r: Option<u64>)
    ensures
        r == spec_value_as_u64(v@),
{
    match v {
        MsgValue::UInt(u) => Some(*u),
        MsgValue::Int(i) => Some(*i as u64),
        MsgValue::Float(bits) => Some(float_bits_trunc_exec(*bits)),
        _ => None,
    }
}

/// The text a value carries, if any: native text as is, or a binary blob
/// read as UTF-8.
pub open spec fn spec_value_text(v: MsgView) -> Option<Seq<char>> {
    match v {
        MsgView::Text(s) => Some(s),
        MsgView::Bin(b) => if vstd::utf8::valid_utf8(b) {
            Some(vstd::utf8::decode_utf8(b))
        } else {
            None
        },
        _ => None,
    }
}

/// Relies on `core::str::from_utf8`: decodes bytes as UTF-8 text exactly when
/// they are a valid UTF-8 encoding, yielding the characters that
/// `vstd::utf8::decode_utf8` describes.
#[verifier::external_body]
fn utf8_to_string(b: &Vec<u8>) -> (r: Option<String>)
    ensures
        r is Some <==> vstd::utf8::valid_utf8(b@),
        r is Some ==> r->0@ == vstd::utf8::decode_utf8(b@),
{
    match core::str::from_utf8(b.as_slice()) {
        Ok(s) => Some(s.to_owned()),
        Err(_) => None,
    }
}

/// Extract owned text from a value, handling both the native text spelling
/// and the binary spelling (read as UTF-8; absent if the bytes are not valid
/// UTF-8).
pub fn value_to_string(v: &MsgValue) -> (r: Option<String>)
    ensures
        r is Some <==> spec_value_text(v@) is Some,
        r is Some ==> r->0@ == spec_value_text(v@)->0,
{
    match v {
        MsgValue::Text(s) => Some(s.clone()),
        MsgValue::Bin(b) => utf8_to_string(b),
        _ => None,
    }
}

/// Extract text from a value; same reading as [`value_to_string`], kept for
/// callers that think of the result as a borrowed slice's worth of text.
pub fn value_as_str(v: &MsgValue) -> (r: Option<String>)
    ensures
        r is Some <==> spec_value_text(v@) is Some,
        r is Some ==> r->0@ == spec_value_text(v@)->0,
{
    value_to_string(v)
}

/// Extract a boolean from a value.
pub fn value_as_bool(v: &MsgValue) -> (r: Option<bool>)
    ensures
        r == (match v@ {
            MsgView::Bool(b) => Some(b),
            _ => None::<bool>,
        }),
{
    match v {
        MsgValue::Bool(b) => Some(*b),
        _ => None,
    }
}

/// Deep structural equality of two values. Text and its binary spelling are
/// distinct values here, as they are on the wire; readers that want them
/// interchangeable go through [`value_to_string`].
#[verifier::loop_isolation(false)]
pub fn value_eq(a: &MsgValue, b: &MsgValue) -> (r: bool)
    ensures
        r == (a@ == b@),
    decreases *a,
{
    broadcast use lemma_arr_view, lemma_dict_view;

    match (a, b) {
        (MsgValue::Null, MsgValue::Null) => true,
        (MsgValue::Bool(x), MsgValue::Bool(y)) => *x == *y,
        (MsgValue::UInt(x), MsgValue::UInt(y)) => *x == *y,
        (MsgValue::Int(x), MsgValue::Int(y)) => *x == *y,
        (MsgValue::Float(x), MsgValue::Float(y)) => *x == *y,
        (MsgValue::Text(x), MsgValue::Text(y)) => *x == *y,
        (MsgValue::Bin(x), MsgValue::Bin(y)) => {
            let mut i: usize = 0;
            if x.len() != y.len() {
                return false;
            }
            while i < x.len()
                invariant
                    0 <= i <= x@.len(),
                    x@.len() == y@.len(),
                    forall|j: int| 0 <= j < i ==> x@[j] == y@[j],
                decreases x@.len() - i,
            {
                if x[i] != y[i] {
                    return false;
                }
                i = i + 1;
            }
            proof {
                assert(x@ =~= y@);
            }
            true
        },
        (MsgValue::Arr(x), MsgValue::Arr(y)) => {
            proof {
                assert(value_view(*a) == MsgView::Arr(arr_view(x@)));
                assert(value_view(*b) == MsgView::Arr(arr_view(y@)));
                assert(a@->Arr_0.len() == x@.len());
                assert(b@->Arr_0.len() == y@.len());
            }
            if x.len() != y.len() {
                return false;
            }
            let mut i: usize = 0;
            while i < x.len()
                invariant
                    0 <= i <= x@.len(),
                    x@.len() == y@.len(),
                    forall|j: int| 0 <= j < i ==> x@[j]@ == y@[j]@,
                decreases x@.len() - i,
            {
                if !value_eq(&x[i], &y[i]) {
                    proof {
                        assert(a@->Arr_0[i as int] == x@[i as int]@);
                        assert(b@->Arr_0[i as int] == y@[i as int]@);
                    }
                    return false;
                }
                i = i + 1;
            }
            proof {
                assert forall|j: int| 0 <= j < x@.len() implies a@->Arr_0[j] == b@->Arr_0[j] by {
                    assert(a@->Arr_0[j] == x@[j]@);
                    assert(b@->Arr_0[j] == y@[j]@);
                }
                assert(a@->Arr_0 =~= b@->Arr_0);
            }
            true
        },
        (MsgValue::Dict(x), MsgValue::Dict(y)) => {
            proof {
                assert(value_view(*a) == MsgView::Dict(dict_view(x@)));
                assert(value_view(*b) == MsgView::Dict(dict_view(y@)));
                assert(a@->Dict_0.len() == x@.len());
                assert(b@->Dict_0.len() == y@.len());
            }
            if x.len() != y.len() {
                return false;
            }
            let mut i: usize = 0;
            while i < x.len()
                invariant
                    0 <= i <= x@.len(),
                    x@.len() == y@.len(),
                    forall|j: int| 0 <= j < i ==> x@[j].0@ == y@[j].0@ && x@[j].1@ == y@[j].1@,
                decreases x@.len() - i,
            {
                let keys_eq = value_eq(&x[i].0, &y[i].0);
                let vals_eq = value_eq(&x[i].1, &y[i].1);
                if !keys_eq || !vals_eq {
                    proof {
                        assert(a@->Dict_0[i as int] == (x@[i as int].0@, x@[i as int].1@));
                        assert(b@->Dict_0[i as int] == (y@[i as int].0@, y@[i as int].1@));
                    }
                    return false;
                }
                i = i + 1;
            }
            proof {
                assert forall|j: int| 0 <= j < x@.len() implies a@->Dict_0[j] == b@->Dict_0[j] by {
                    assert(a@->Dict_0[j] == (x@[j].0@, x@[j].1@));
                    assert(b@->Dict_0[j] == (y@[j].0@, y@[j].1@));
                }
                assert(a@->Dict_0 =~= b@->Dict_0);
            }
            true
        },
        _ => false,
    }
}

/// Whether a value fits the wire format's size fields and a bounded
/// nesting depth, so that the serializer handles it faithfully. Every length
/// must fit the 32-bit size field of its element; the text bound is in
/// characters and conservative by a factor of four, since a character spans
/// at most four encoded bytes.
pub open spec fn wire_sized(v: MsgView, depth: int) -> bool
    decreases v,
{
    match v {
        MsgView::Text(s) => s.len() <= 0x3fff_ffff,
        MsgView::Bin(b) => b.len() <= 0xffff_ffff,
        MsgView::Arr(items) => {
            &&& depth >= 1
            &&& items.len() <= 0xffff_ffff
            &&& forall|i: int| 0 <= i < items.len() ==> wire_sized(#[trigger] items[i], depth - 1)
        },
        MsgView::Dict(pairs) => {
            &&& depth >= 1
            &&& pairs.len() <= 0xffff_ffff
            &&& forall|i: int|
                0 <= i < pairs.len() ==> wire_sized(#[trigger] pairs[i].0, depth - 1) && wire_sized(
                    pairs[i].1,
                    depth - 1,
                )
        },
        _ => true,
    }
}

/// Decide [`wire_sized`] for a value.
#[verifier::loop_isolation(false)]
pub fn check_wire_sized(v: &MsgValue, depth: u32) -> (r: bool)
    ensures
        r == wire_sized(v@, depth as int),
    decreases *v,
{
    broadcast use lemma_arr_view, lemma_dict_view;

    match v {
        MsgValue::Text(s) => s.unicode_len() <= 0x3fff_ffff,
        MsgValue::Bin(b) => b.len() <= 0xffff_ffff,
        MsgValue::Arr(items) => {
            proof {
                assert(value_view(*v) == MsgView::Arr(arr_view(items@)));
            }
            if depth == 0 || items.len() > 0xffff_ffff {
                return false;
            }
            let mut i: usize = 0;
            while i < items.len()
                invariant
                    0 <= i <= items@.len(),
                    forall|j: int| 0 <= j < i ==> wire_sized(#[trigger] items@[j]@, depth - 1),
                decreases items@.len() - i,
            {
                if !check_wire_sized(&items[i], depth - 1) {
                    proof {
                        assert(v@->Arr_0[i as int] == items@[i as int]@);
                    }
                    return false;
                }
                i = i + 1;
            }
            proof {
                assert forall|j: int| 0 <= j < v@->Arr_0.len() implies wire_sized(
                    #[trigger] v@->Arr_0[j],
                    depth - 1,
                ) by {
                    assert(v@->Arr_0[j] == items@[j]@);
                }
            }
            true
        },
        MsgValue::Dict(pairs) => {
            proof {
                assert(value_view(*v) == MsgView::Dict(dict_view(pairs@)));
            }
            if depth == 0 || pairs.len() > 0xffff_ffff {
                return false;
            }
            let mut i: usize = 0;
            while i < pairs.len()
                invariant
                    0 <= i <= pairs@.len(),
                    forall|j: int|
                        0 <= j < i ==> wire_sized(#[trigger] pairs@[j].0@, depth - 1) && wire_sized(
                            pairs@[j].1@,
                            depth - 1,
                        ),
                decreases pairs@.len() - i,
            {
                let key_ok = check_wire_sized(&pairs[i].0, depth - 1);
                let val_ok = check_wire_sized(&pairs[i].1, depth - 1);
                if !key_ok || !val_ok {
                    proof {
                        assert(v@->Dict_0[i as int] == (pairs@[i as int].0@, pairs@[i as int].1@));
                        assert(v@->Dict_0[i as int].0 == pairs@[i as int].0@);
                        assert(v@->Dict_0[i as int].1 == pairs@[i as int].1@);
                    }
                    return false;
                }
                i = i + 1;
            }
            proof {
                assert forall|j: int| 0 <= j < v@->Dict_0.len() implies wire_sized(
                    #[trigger] v@->Dict_0[j].0,
                    depth - 1,
                ) && wire_sized(v@->Dict_0[j].1, depth - 1) by {
                    assert(v@->Dict_0[j] == (pairs@[j].0@, pairs@[j].1@));
                }
            }
            true
        },
        MsgValue::Null => true,
        MsgValue::Bool(_) => true,
        MsgValue::UInt(_) => true,
        MsgValue::Int(_) => true,
        MsgValue::Float(_) => true,
    }
}

/// Build a wire map from string-keyed pairs, each key as native text, in
/// order.
#[verifier::loop_isolation(false)]
pub fn str_dict(pairs: Vec<(String, MsgValue)>) -> (r: MsgValue)
    ensures
        r@ == MsgView::Dict(
            Seq::new(pairs@.len(), |i: int| (MsgView::Text(pairs@[i].0@), pairs@[i].1@)),
        ),
{
    broadcast use lemma_dict_view;

    let ghost orig = pairs@;
    let ghost target = Seq::new(orig.len(), |i: int| (MsgView::Text(orig[i].0@), orig[i].1@));
    let mut pairs = pairs;
    let mut out: Vec<(MsgValue, MsgValue)> = Vec::new();
    let n = pairs.len();
    let mut i: usize = 0;
    while i < n
        invariant
            0 <= i <= n,
            n == orig.len(),
            pairs@.len() == n - i,
            forall|j: int| 0 <= j < n - i ==> #[trigger] pairs@[j] == orig[i + j],
            out@.len() == i,
            forall|j: int| 0 <= j < i ==> ((#[trigger] out@[j]).0@, out@[j].1@) == target[j],
        decreases n - i,
    {
        let (k, v) = pairs.remove(0);
        proof {
            assert(k@ == orig[i as int].0@ && v == orig[i as int].1);
        }
        out.push((MsgValue::Text(k), v));
        i = i + 1;
    }
    let r = MsgValue::Dict(out);
    proof {
        assert(r@ == MsgView::Dict(dict_view(out@)));
        assert forall|j: int| 0 <= j < out@.len() implies dict_view(out@)[j] == target[j] by {
            assert(dict_view(out@)[j] == (out@[j].0@, out@[j].1@));
        }
        assert(dict_view(out@) =~= target);
    }
    r
}

/// A deep copy of a value, equal to the original.
#[verifier::loop_isolation(false)]
pub fn value_clone(v: &MsgValue) -> (r: MsgValue)
    ensures
        r@ == v@,
    decreases *v,
{
    broadcast use lemma_arr_view, lemma_dict_view;

    match v {
        MsgValue::Null => MsgValue::Null,
        MsgValue::Bool(b) => MsgValue::Bool(*b),
        MsgValue::UInt(u) => MsgValue::UInt(*u),
        MsgValue::Int(i) => MsgValue::Int(*i),
        MsgValue::Float(bits) => MsgValue::Float(*bits),
        MsgValue::Text(s) => MsgValue::Text(s.clone()),
        MsgValue::Bin(b) => {
            let mut out: Vec<u8> = Vec::new();
            let mut i: usize = 0;
            while i < b.len()
                invariant
                    0 <= i <= b@.len(),
                    out@ =~= b@.take(i as int),
                decreases b@.len() - i,
            {
                out.push(b[i]);
                i = i + 1;
            }
            proof {
                assert(out@ =~= b@);
            }
            MsgValue::Bin(out)
        },
        MsgValue::Arr(items) => {
            proof {
                assert(value_view(*v) == MsgView::Arr(arr_view(items@)));
            }
            let mut out: Vec<MsgValue> = Vec::new();
            let mut i: usize = 0;
            while i < items.len()
                invariant
                    0 <= i <= items@.len(),
                    out@.len() == i,
                    forall|j: int| 0 <= j < i ==> (#[trigger] out@[j])@ == items@[j]@,
                decreases items@.len() - i,
            {
                out.push(value_clone(&items[i]));
                i = i + 1;
            }
            let r = MsgValue::Arr(out);
            proof {
                assert(r@ matches MsgView::Arr(s) && s == arr_view(out@));
                assert forall|j: int| 0 <= j < out@.len() implies arr_view(out@)[j] == arr_view(
                    items@,
                )[j] by {
                    assert(arr_view(out@)[j] == out@[j]@);
                    assert(arr_view(items@)[j] == items@[j]@);
                }
                assert(arr_view(out@) =~= arr_view(items@));
            }
            r
        },
        MsgValue::Dict(pairs) => {
            proof {
                assert(value_view(*v) == MsgView::Dict(dict_view(pairs@)));
            }
            let mut out: Vec<(MsgValue, MsgValue)> = Vec::new();
            let mut i: usize = 0;
            while i < pairs.len()
                invariant
                    0 <= i <= pairs@.len(),
                    out@.len() == i,
                    forall|j: int| 0 <= j < i ==> ((#[trigger] out@[j]).0@, out@[j].1@) == (
                        pairs@[j].0@,
                        pairs@[j].1@,
                    ),
                decreases pairs@.len() - i,
            {
                let k = value_clone(&pairs[i].0);
                let w = value_clone(&pairs[i].1);
                out.push((k, w));
                i = i + 1;
            }
            let r = MsgValue::Dict(out);
            proof {
                assert(r@ matches MsgView::Dict(s) && s == dict_view(out@));
                assert forall|j: int| 0 <= j < out@.len() implies dict_view(out@)[j] == dict_view(
                    pairs@,
                )[j] by {
                    assert(dict_view(out@)[j] == (out@[j].0@, out@[j].1@));
                    assert(dict_view(pairs@)[j] == (pairs@[j].0@, pairs@[j].1@));
                }
                assert(dict_view(out@) =~= dict_view(pairs@));
            }
            r
        },
    }
}

} // verus!
