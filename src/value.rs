use crate::lookup::{find_key, first_pos, keys_of_entries};
use vstd::prelude::*;

verus! {

broadcast use {vstd::std_specs::vec::axiom_vec_index_decreases, vstd::seq::axiom_seq_index_decreases};

/// `10` raised to the power `n`.
pub open spec fn pow10(n: nat) -> int
    decreases n,
{
    if n == 0 {
        1
    } else {
        10 * pow10((n - 1) as nat)
    }
}

proof fn lemma_pow10_mono(a: nat, b: nat)
    requires
        a <= b,
    ensures
        1 <= pow10(a) <= pow10(b),
    decreases b,
{
    if a < b {
        lemma_pow10_mono(a, (b - 1) as nat);
    } else if a > 0 {
        lemma_pow10_mono((a - 1) as nat, (a - 1) as nat);
    }
}

proof fn lemma_pow10_bounds(n: nat)
    requires
        n <= 18,
    ensures
        1 <= pow10(n) <= 1_000_000_000_000_000_000,
{
    lemma_pow10_mono(n, 18);
    reveal_with_fuel(pow10, 19);
}

/// The largest number of digits after the decimal point.
pub const MAX_SCALE: u32 = 18;

/// An exact decimal number: `mantissa / 10^scale`, with an `i64` mantissa and at most
/// `MAX_SCALE` digits after the point. Script numbers are held this way, exactly.
#[derive(Debug, Clone, Copy)]
pub struct Decimal {
    mantissa: i64,
    scale: u32,
}

impl Decimal {
    #[verifier::type_invariant]
    spec fn inv(self) -> bool {
        self.scale <= MAX_SCALE
    }

    /// The numerator over `10^scale()`.
    pub closed spec fn numerator(self) -> int {
        self.mantissa as int
    }

    /// The number of decimal digits after the point.
    pub closed spec fn exponent(self) -> nat {
        self.scale as nat
    }

    /// `self < other` as rational numbers.
    pub open spec fn less(self, other: Decimal) -> bool {
        self.numerator() * pow10(other.exponent()) < other.numerator() * pow10(self.exponent())
    }

    /// `self == other` as rational numbers.
    pub open spec fn same(self, other: Decimal) -> bool {
        self.numerator() * pow10(other.exponent()) == other.numerator() * pow10(self.exponent())
    }

    /// The decimal `mantissa / 10^scale`.
    pub closed spec fn of(mantissa: int, scale: nat) -> Decimal {
        Decimal { mantissa: mantissa as i64, scale: scale as u32 }
    }

    pub fn new(mantissa: i64, scale: u32) -> (r: Option<Decimal>)
        ensures
            scale <= MAX_SCALE <==> r is Some,
            r matches Some(d) ==> d.numerator() == mantissa && d.exponent() == scale && d
                == Decimal::of(mantissa as int, scale as nat),
    {
        if scale <= MAX_SCALE {
            Some(Decimal { mantissa, scale })
        } else {
            None
        }
    }

    pub fn from_integer(value: i64) -> (r: Decimal)
        ensures
            r.numerator() == value,
            r.exponent() == 0,
    {
        Decimal { mantissa: value, scale: 0 }
    }

    pub fn mantissa(&self) -> (r: i64)
        ensures
            r == self.numerator(),
    {
        self.mantissa
    }

    pub fn scale(&self) -> (r: u32)
        ensures
            r == self.exponent(),
            r <= MAX_SCALE,
    {
        proof {
            use_type_invariant(self);
        }
        self.scale
    }

    /// The numerator brought to `10^scale` as denominator.
    fn rescaled(&self, scale: u32) -> (r: i128)
        requires
            scale <= MAX_SCALE,
        ensures
            r == self.numerator() * pow10(scale as nat),
    {
        let mut factor: i128 = 1;
        let mut k: u32 = 0;
        while k < scale
            invariant
                k <= scale <= MAX_SCALE,
                factor == pow10(k as nat),
            decreases scale - k,
        {
            proof {
                lemma_pow10_bounds(k as nat);
            }
            factor = factor * 10;
            k = k + 1;
        }
        proof {
            lemma_pow10_bounds(scale as nat);
            let m = self.mantissa as int;
            let f = factor as int;
            assert(-0x8000_0000_0000_0000 <= m <= 0x7fff_ffff_ffff_ffff);
            assert(-0x8000_0000_0000_0000 * 1_000_000_000_000_000_000 <= m * f
                <= 0x7fff_ffff_ffff_ffff * 1_000_000_000_000_000_000) by (nonlinear_arith)
                requires
                    -0x8000_0000_0000_0000 <= m <= 0x7fff_ffff_ffff_ffff,
                    1 <= f <= 1_000_000_000_000_000_000,
            ;
        }
        (self.mantissa as i128) * factor
    }

    /// Whether `self < other` as numbers.
    pub fn less_than(&self, other: &Decimal) -> (r: bool)
        ensures
            r == self.less(*other),
    {
        proof {
            use_type_invariant(self);
            use_type_invariant(other);
        }
        self.rescaled(other.scale) < other.rescaled(self.scale)
    }

    /// Whether `self` and `other` denote the same number.
    pub fn same_as(&self, other: &Decimal) -> (r: bool)
        ensures
            r == self.same(*other),
    {
        proof {
            use_type_invariant(self);
            use_type_invariant(other);
        }
        self.rescaled(other.scale) == other.rescaled(self.scale)
    }
}


/// What a value denotes, with text as characters and collections as sequences.
pub enum ValueModel {
    Null,
    Boolean(bool),
    Number(Decimal),
    Text(Seq<char>),
    Color(u32),
    Array(Seq<ValueModel>),
    Dict(Seq<(Seq<char>, ValueModel)>),
}

/// A dynamically tagged script value.
#[derive(Debug)]
pub enum VnValue {
    Null,
    Boolean(bool),
    Number(Decimal),
    Text(String),
    Color(u32),
    Array(Vec<VnValue>),
    Dict(Vec<(String, VnValue)>),
}

/// The model of a value.
pub open spec fn view_value(v: VnValue) -> ValueModel
    decreases v,
{
    match v {
        VnValue::Null => ValueModel::Null,
        VnValue::Boolean(b) => ValueModel::Boolean(b),
        VnValue::Number(n) => ValueModel::Number(n),
        VnValue::Text(t) => ValueModel::Text(t@),
        VnValue::Color(c) => ValueModel::Color(c),
        VnValue::Array(xs) => ValueModel::Array(
            Seq::new(
                xs.len() as nat,
                |i: int|
                    if 0 <= i < xs.len() {
                        view_value(xs@[i])
                    } else {
                        ValueModel::Null
                    },
            ),
        ),
        VnValue::Dict(es) => ValueModel::Dict(
            Seq::new(
                es.len() as nat,
                |i: int|
                    if 0 <= i < es.len() {
                        (es@[i].0@, view_value(es@[i].1))
                    } else {
                        (Seq::empty(), ValueModel::Null)
                    },
            ),
        ),
    }
}


impl View for VnValue {
    type V = ValueModel;

    open spec fn view(&self) -> ValueModel {
        view_value(*self)
    }
}

/// A deep copy of `v`.
pub fn clone_value(v: &VnValue) -> (r: VnValue)
    ensures
        r@ == v@,
    decreases v,
{
    match v {
        VnValue::Null => VnValue::Null,
        VnValue::Boolean(b) => VnValue::Boolean(*b),
        VnValue::Number(n) => VnValue::Number(*n),
        VnValue::Text(t) => VnValue::Text(t.clone()),
        VnValue::Color(c) => VnValue::Color(*c),
        VnValue::Array(xs) => {
            proof {
                assert forall|k: int| 0 <= k < xs.len() implies decreases_to!(*v => #[trigger] xs@[k]) by {
                    assert(decreases_to!(*v => *xs));
                    assert(decreases_to!(*xs => xs@[k]));
                }
            }
            let mut out: Vec<VnValue> = Vec::new();
            let mut i: usize = 0;
            while i < xs.len()
                invariant
                    *v == VnValue::Array(*xs),
                    forall|k: int| 0 <= k < xs.len() ==> decreases_to!(*v => #[trigger] xs@[k]),
                    i <= xs.len(),
                    out.len() == i,
                    forall|k: int| 0 <= k < i ==> (#[trigger] out@[k])@ == xs@[k]@,
                decreases xs.len() - i,
            {
                out.push(clone_value(&xs[i]));
                i = i + 1;
            }
            proof {
                assert(view_value(VnValue::Array(out))->Array_0 =~= view_value(*v)->Array_0);
            }
            VnValue::Array(out)
        },
        VnValue::Dict(es) => {
            proof {
                assert forall|k: int| 0 <= k < es.len() implies decreases_to!(*v => #[trigger] es@[k].1) by {
                    assert(decreases_to!(*v => *es));
                    assert(decreases_to!(*es => es@[k]));
                    assert(decreases_to!(es@[k] => es@[k].1));
                }
            }
            let mut out: Vec<(String, VnValue)> = Vec::new();
            let mut i: usize = 0;
            while i < es.len()
                invariant
                    *v == VnValue::Dict(*es),
                    forall|k: int| 0 <= k < es.len() ==> decreases_to!(*v => #[trigger] es@[k].1),
                    i <= es.len(),
                    out.len() == i,
                    forall|k: int| 0 <= k < i ==> (#[trigger] out@[k]).0@ == es@[k].0@,
                    forall|k: int| 0 <= k < i ==> (#[trigger] out@[k]).1@ == es@[k].1@,
                decreases es.len() - i,
            {
                out.push((es[i].0.clone(), clone_value(&es[i].1)));
                i = i + 1;
            }
            proof {
                assert(view_value(VnValue::Dict(out))->Dict_0 =~= view_value(*v)->Dict_0);
            }
            VnValue::Dict(out)
        },
    }
}

/// Named values with their keys as characters.
pub open spec fn entries_view(es: Seq<(String, VnValue)>) -> Seq<(Seq<char>, ValueModel)> {
    es.map_values(|e: (String, VnValue)| (e.0@, e.1@))
}

/// The models of a sequence of values.
pub open spec fn values_view(xs: Seq<VnValue>) -> Seq<ValueModel> {
    xs.map_values(|x: VnValue| x@)
}

pub proof fn lemma_array_view(xs: Vec<VnValue>)
    ensures
        VnValue::Array(xs)@ == ValueModel::Array(values_view(xs@)),
{
    assert(VnValue::Array(xs)@->Array_0 =~= values_view(xs@));
}

pub proof fn lemma_dict_view(es: Vec<(String, VnValue)>)
    ensures
        VnValue::Dict(es)@ == ValueModel::Dict(entries_view(es@)),
{
    assert(VnValue::Dict(es)@->Dict_0 =~= entries_view(es@));
}

/// The keys of a dictionary model, in order.
pub open spec fn keys_of(es: Seq<(Seq<char>, ValueModel)>) -> Seq<Seq<char>> {
    es.map_values(|e: (Seq<char>, ValueModel)| e.0)
}

/// The value stored under `key` (its first entry).
pub open spec fn model_get(es: Seq<(Seq<char>, ValueModel)>, key: Seq<char>) -> Option<ValueModel> {
    match first_pos(keys_of(es), key) {
        Some(j) => Some(es[j].1),
        None => None,
    }
}

/// Structural equality: same tag and equal payload; numbers compare by value,
/// dictionaries of the same size compare entry by entry under their keys.
pub open spec fn model_eq(a: ValueModel, b: ValueModel) -> bool
    decreases a,
{
    match (a, b) {
        (ValueModel::Null, ValueModel::Null) => true,
        (ValueModel::Boolean(x), ValueModel::Boolean(y)) => x == y,
        (ValueModel::Number(x), ValueModel::Number(y)) => x.same(y),
        (ValueModel::Text(x), ValueModel::Text(y)) => x == y,
        (ValueModel::Color(x), ValueModel::Color(y)) => x == y,
        (ValueModel::Array(xs), ValueModel::Array(ys)) => xs.len() == ys.len() && forall|i: int|
            0 <= i < xs.len() ==> model_eq(#[trigger] xs[i], ys[i]),
        (ValueModel::Dict(xs), ValueModel::Dict(ys)) => xs.len() == ys.len() && forall|i: int|
            0 <= i < xs.len() ==> match model_get(ys, (#[trigger] xs[i]).0) {
                Some(w) => model_eq(xs[i].1, w),
                None => false,
            },
        _ => false,
    }
}

/// The two values have the same tag, whatever their payloads.
pub open spec fn same_tag(a: ValueModel, b: ValueModel) -> bool {
    match (a, b) {
        (ValueModel::Null, ValueModel::Null) => true,
        (ValueModel::Boolean(_), ValueModel::Boolean(_)) => true,
        (ValueModel::Number(_), ValueModel::Number(_)) => true,
        (ValueModel::Text(_), ValueModel::Text(_)) => true,
        (ValueModel::Color(_), ValueModel::Color(_)) => true,
        (ValueModel::Array(_), ValueModel::Array(_)) => true,
        (ValueModel::Dict(_), ValueModel::Dict(_)) => true,
        _ => false,
    }
}

proof fn lemma_dict_keys(es: Vec<(String, VnValue)>)
    ensures
        keys_of(VnValue::Dict(es)@->Dict_0) == keys_of_entries(es@),
        VnValue::Dict(es)@->Dict_0.len() == es.len(),
{
    assert(keys_of(VnValue::Dict(es)@->Dict_0) =~= keys_of_entries(es@));
}

/// The value of the first entry of a dictionary under `key`.
pub fn find_value<'a>(es: &'a Vec<(String, VnValue)>, key: &str) -> (r: Option<&'a VnValue>)
    ensures
        r matches Some(v) ==> model_get(VnValue::Dict(*es)@->Dict_0, key@) == Some(v@),
        r is None ==> model_get(VnValue::Dict(*es)@->Dict_0, key@) is None,
{
    proof {
        lemma_dict_keys(*es);
    }
    match find_key(es, key) {
        Some(j) => {
            assert(VnValue::Dict(*es)@->Dict_0[j as int] == (es@[j as int].0@, es@[j as int].1@));
            Some(&es[j].1)
        },
        None => None,
    }
}

/// Whether `a` and `b` are structurally equal.
pub fn values_equal(a: &VnValue, b: &VnValue) -> (r: bool)
    ensures
        r == model_eq(a@, b@),
    decreases a,
{
    match (a, b) {
        (VnValue::Null, VnValue::Null) => true,
        (VnValue::Boolean(x), VnValue::Boolean(y)) => *x == *y,
        (VnValue::Number(x), VnValue::Number(y)) => x.same_as(y),
        (VnValue::Text(x), VnValue::Text(y)) => *x == *y,
        (VnValue::Color(x), VnValue::Color(y)) => *x == *y,
        (VnValue::Array(xs), VnValue::Array(ys)) => {
            assert(a@->Array_0.len() == xs.len() && b@->Array_0.len() == ys.len());
            if xs.len() != ys.len() {
                return false;
            }
            proof {
                assert forall|k: int| 0 <= k < xs.len() implies decreases_to!(*a => #[trigger] xs@[k]) by {
                    assert(decreases_to!(*a => *xs));
                    assert(decreases_to!(*xs => xs@[k]));
                }
            }
            let mut i: usize = 0;
            while i < xs.len()
                invariant
                    *a == VnValue::Array(*xs),
                    *b == VnValue::Array(*ys),
                    xs.len() == ys.len(),
                    i <= xs.len(),
                    forall|k: int| 0 <= k < xs.len() ==> decreases_to!(*a => #[trigger] xs@[k]),
                    forall|k: int| 0 <= k < i ==> model_eq(#[trigger] a@->Array_0[k], b@->Array_0[k]),
                decreases xs.len() - i,
            {
                assert(a@->Array_0[i as int] == xs@[i as int]@);
                assert(b@->Array_0[i as int] == ys@[i as int]@);
                if !values_equal(&xs[i], &ys[i]) {
                    return false;
                }
                i = i + 1;
            }
            true
        },
        (VnValue::Dict(xs), VnValue::Dict(ys)) => {
            assert(a@->Dict_0.len() == xs.len() && b@->Dict_0.len() == ys.len());
            if xs.len() != ys.len() {
                return false;
            }
            proof {
                assert forall|k: int| 0 <= k < xs.len() implies decreases_to!(*a => #[trigger] xs@[k].1) by {
                    assert(decreases_to!(*a => *xs));
                    assert(decreases_to!(*xs => xs@[k]));
                    assert(decreases_to!(xs@[k] => xs@[k].1));
                }
                lemma_dict_keys(*ys);
                lemma_dict_keys(*xs);
            }
            let mut i: usize = 0;
            while i < xs.len()
                invariant
                    *a == VnValue::Dict(*xs),
                    *b == VnValue::Dict(*ys),
                    xs.len() == ys.len(),
                    i <= xs.len(),
                    keys_of(b@->Dict_0) == keys_of_entries(ys@),
                    forall|k: int| 0 <= k < xs.len() ==> decreases_to!(*a => #[trigger] xs@[k].1),
                    forall|k: int| 0 <= k < i ==> match model_get(b@->Dict_0, (#[trigger] a@->Dict_0[k]).0) {
                        Some(w) => model_eq(a@->Dict_0[k].1, w),
                        None => false,
                    },
                decreases xs.len() - i,
            {
                assert(a@->Dict_0[i as int] == (xs@[i as int].0@, xs@[i as int].1@));
                match find_key(ys, xs[i].0.as_str()) {
                    Some(j) => {
                        assert(b@->Dict_0[j as int] == (ys@[j as int].0@, ys@[j as int].1@));
                        assert(model_get(b@->Dict_0, xs@[i as int].0@) == Some(ys@[j as int].1@));
                        if !values_equal(&xs[i].1, &ys[j].1) {
                            return false;
                        }
                    },
                    None => {
                        assert(model_get(b@->Dict_0, xs@[i as int].0@) is None);
                        return false;
                    },
                }
                i = i + 1;
            }
            true
        },
        _ => false,
    }
}

impl PartialEq for VnValue {
    fn eq(&self, other: &VnValue) -> (r: bool) {
        values_equal(self, other)
    }
}

impl vstd::std_specs::cmp::PartialEqSpecImpl for VnValue {
    open spec fn obeys_eq_spec() -> bool {
        true
    }

    open spec fn eq_spec(&self, other: &VnValue) -> bool {
        model_eq(self@, other@)
    }
}

impl Default for VnValue {
    fn default() -> (r: VnValue)
        ensures
            r is Null,
    {
        VnValue::Null
    }
}

impl VnValue {
    pub fn is_none(&self) -> (r: bool)
        ensures
            r == (*self is Null),
    {
        match self {
            VnValue::Null => true,
            _ => false,
        }
    }

    pub fn as_boolean(&self) -> (r: Option<bool>)
        ensures
            r == (match *self {
                VnValue::Boolean(b) => Some(b),
                _ => None::<bool>,
            }),
    {
        match self {
            VnValue::Boolean(b) => Some(*b),
            _ => None,
        }
    }

    pub fn as_number(&self) -> (r: Option<Decimal>)
        ensures
            r == (match *self {
                VnValue::Number(n) => Some(n),
                _ => None::<Decimal>,
            }),
    {
        match self {
            VnValue::Number(n) => Some(*n),
            _ => None,
        }
    }

    pub fn as_text(&self) -> (r: Option<&str>)
        ensures
            self is Text <==> r is Some,
            r matches Some(t) ==> self@ == ValueModel::Text(t@),
    {
        match self {
            VnValue::Text(t) => Some(t.as_str()),
            _ => None,
        }
    }

    pub fn as_color(&self) -> (r: Option<u32>)
        ensures
            r == (match *self {
                VnValue::Color(c) => Some(c),
                _ => None::<u32>,
            }),
    {
        match self {
            VnValue::Color(c) => Some(*c),
            _ => None,
        }
    }

    pub fn as_array(&self) -> (r: Option<&[VnValue]>)
        ensures
            self is Array <==> r is Some,
            r matches Some(xs) ==> *self == VnValue::Array(self->Array_0) && xs@ == self->Array_0@,
    {
        match self {
            VnValue::Array(xs) => Some(xs.as_slice()),
            _ => None,
        }
    }

    pub fn as_map(&self) -> (r: Option<&Vec<(String, VnValue)>>)
        ensures
            self is Dict <==> r is Some,
            r matches Some(es) ==> *self == VnValue::Dict(*es),
    {
        match self {
            VnValue::Dict(es) => Some(es),
            _ => None,
        }
    }

    /// Whether the two values carry the same tag, ignoring payloads.
    pub fn is_same_type(&self, other: &VnValue) -> (r: bool)
        ensures
            r == same_tag(self@, other@),
    {
        match (self, other) {
            (VnValue::Null, VnValue::Null) => true,
            (VnValue::Boolean(_), VnValue::Boolean(_)) => true,
            (VnValue::Number(_), VnValue::Number(_)) => true,
            (VnValue::Text(_), VnValue::Text(_)) => true,
            (VnValue::Color(_), VnValue::Color(_)) => true,
            (VnValue::Array(_), VnValue::Array(_)) => true,
            (VnValue::Dict(_), VnValue::Dict(_)) => true,
            _ => false,
        }
    }
}

impl Clone for VnValue {
    fn clone(&self) -> (r: Self)
        ensures
            r@ == self@,
    {
        clone_value(self)
    }
}

} // verus!
