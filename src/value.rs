//! The JSON value model that schemas and data are written in.
//!
//! Numbers are exact decimals: a mantissa and a count of decimal places, so that
//! `3.0`, `0.3` and `0.01` keep the value they are written with.
use vstd::prelude::*;

verus! {

/// Ten to the power `n`.
pub open spec fn pow10(n: nat) -> int
    decreases n,
{
    if n == 0 {
        1
    } else {
        10 * pow10((n - 1) as nat)
    }
}

pub open spec fn abs(x: int) -> int {
    if x < 0 {
        -x
    } else {
        x
    }
}

/// The largest number of decimal places a `Number` may carry.
pub const MAX_SCALE: u32 = 18;

proof fn lemma_pow10_positive(n: nat)
    ensures
        pow10(n) >= 1,
    decreases n,
{
    if n > 0 {
        lemma_pow10_positive((n - 1) as nat);
    }
}

proof fn lemma_pow10_monotone(n: nat, m: nat)
    requires
        n <= m,
    ensures
        pow10(n) <= pow10(m),
    decreases m - n,
{
    if n < m {
        lemma_pow10_monotone(n, (m - 1) as nat);
        lemma_pow10_positive((m - 1) as nat);
    }
}

pub proof fn lemma_pow10_bounds(n: nat)
    requires
        n <= 18,
    ensures
        1 <= pow10(n) <= 1_000_000_000_000_000_000,
{
    lemma_pow10_positive(n);
    lemma_pow10_monotone(n, 18);
    reveal_with_fuel(pow10, 19);
}

/// An exact decimal number, `mantissa / 10^scale`.
#[derive(Debug)]
pub struct Number {
    mantissa: i64,
    scale: u32,
}

impl Number {
    #[verifier::type_invariant]
    spec fn scale_in_range(self) -> bool {
        self.scale <= MAX_SCALE
    }

    pub closed spec fn spec_mantissa(self) -> int {
        self.mantissa as int
    }

    pub closed spec fn spec_scale(self) -> nat {
        self.scale as nat
    }

    /// An integer.
    pub fn from_int(v: i64) -> (r: Number)
        ensures
            r.spec_mantissa() == v,
            r.spec_scale() == 0,
    {
        Number { mantissa: v, scale: 0 }
    }

    /// The decimal `mantissa / 10^scale`, when `scale` is at most `MAX_SCALE`.
    pub fn decimal(mantissa: i64, scale: u32) -> (r: Option<Number>)
        ensures
            r is Some <==> scale <= MAX_SCALE,
            r is Some ==> r->0.spec_mantissa() == mantissa && r->0.spec_scale() == scale,
    {
        if scale <= MAX_SCALE {
            Some(Number { mantissa, scale })
        } else {
            None
        }
    }

    pub fn mantissa(&self) -> (r: i64)
        ensures
            r == self.spec_mantissa(),
    {
        self.mantissa
    }

    pub fn scale(&self) -> (r: u32)
        ensures
            r == self.spec_scale(),
            r <= MAX_SCALE,
    {
        proof {
            use_type_invariant(self);
        }
        self.scale
    }
}

impl Clone for Number {
    fn clone(&self) -> (r: Number)
        ensures
            r == *self,
    {
        proof {
            use_type_invariant(self);
        }
        Number { mantissa: self.mantissa, scale: self.scale }
    }
}

/// `a * 10^(scale of b)`: `a` brought to a common denominator with `b`.
pub open spec fn scaled_to(a: Number, b: Number) -> int {
    a.spec_mantissa() * pow10(b.spec_scale())
}

/// `a < b` as rational numbers.
pub open spec fn num_lt(a: Number, b: Number) -> bool {
    scaled_to(a, b) < scaled_to(b, a)
}

/// `a <= b` as rational numbers.
pub open spec fn num_le(a: Number, b: Number) -> bool {
    scaled_to(a, b) <= scaled_to(b, a)
}

/// `a == b` as rational numbers (`3` equals `3.0`).
pub open spec fn num_eq(a: Number, b: Number) -> bool {
    scaled_to(a, b) == scaled_to(b, a)
}

/// `a` has no fractional part.
pub open spec fn num_is_integer(a: Number) -> bool {
    abs(a.spec_mantissa()) % pow10(a.spec_scale()) == 0
}

/// `a / d` is a whole number (`d` positive).
pub open spec fn num_is_multiple(a: Number, d: Number) -> bool {
    abs(scaled_to(a, d)) % scaled_to(d, a) == 0
}

/// The whole number `a` stands for, when it has no fractional part.
pub open spec fn num_whole(a: Number) -> int {
    a.spec_mantissa() / pow10(a.spec_scale())
}

fn pow10_exec(n: u32) -> (r: i128)
    requires
        n <= 18,
    ensures
        r == pow10(n as nat),
        1 <= r <= 1_000_000_000_000_000_000,
{
    let mut r: i128 = 1;
    let mut i: u32 = 0;
    while i < n
        invariant
            i <= n <= 18,
            r == pow10(i as nat),
        decreases n - i,
    {
        proof {
            lemma_pow10_bounds(i as nat);
            lemma_pow10_bounds((i + 1) as nat);
        }
        r = r * 10;
        i = i + 1;
    }
    proof {
        lemma_pow10_bounds(n as nat);
    }
    r
}

/// `a * 10^(scale of b)`, computed exactly.
fn scaled_exec(a: &Number, b: &Number) -> (r: i128)
    ensures
        r == scaled_to(*a, *b),
        abs(r as int) <= 9_223_372_036_854_775_808 * 1_000_000_000_000_000_000,
{
    let p = pow10_exec(b.scale());
    let m = a.mantissa() as i128;
    proof {
        assert(abs(m * p) <= 9_223_372_036_854_775_808 * 1_000_000_000_000_000_000) by (nonlinear_arith)
            requires
                -9_223_372_036_854_775_808 <= m <= 9_223_372_036_854_775_807,
                1 <= p <= 1_000_000_000_000_000_000,
        ;
    }
    m * p
}

impl Number {
    pub fn lt(&self, other: &Number) -> (r: bool)
        ensures
            r == num_lt(*self, *other),
    {
        scaled_exec(self, other) < scaled_exec(other, self)
    }

    pub fn le(&self, other: &Number) -> (r: bool)
        ensures
            r == num_le(*self, *other),
    {
        scaled_exec(self, other) <= scaled_exec(other, self)
    }

    pub fn num_equals(&self, other: &Number) -> (r: bool)
        ensures
            r == num_eq(*self, *other),
    {
        scaled_exec(self, other) == scaled_exec(other, self)
    }

    pub fn is_positive(&self) -> (r: bool)
        ensures
            r == (self.spec_mantissa() > 0),
    {
        self.mantissa > 0
    }

    pub fn is_integer(&self) -> (r: bool)
        ensures
            r == num_is_integer(*self),
    {
        let p = pow10_exec(self.scale());
        let m = self.mantissa as i128;
        let a: i128 = if m < 0 {
            -m
        } else {
            m
        };
        a % p == 0
    }

    /// Whether `self` is a whole multiple of the positive number `d`.
    pub fn is_multiple_of(&self, d: &Number) -> (r: bool)
        requires
            d.spec_mantissa() > 0,
        ensures
            r == num_is_multiple(*self, *d),
    {
        let x = scaled_exec(self, d);
        let y = scaled_exec(d, self);
        proof {
            use_type_invariant(self);
            lemma_pow10_bounds(self.spec_scale());
            assert(y > 0) by (nonlinear_arith)
                requires
                    y == d.spec_mantissa() * pow10(self.spec_scale()),
                    d.spec_mantissa() > 0,
                    pow10(self.spec_scale()) >= 1,
            ;
        }
        let a: i128 = if x < 0 {
            -x
        } else {
            x
        };
        a % y == 0
    }

    /// The whole number this stands for, when it is a whole number that
    /// fits a `u64` and is not negative.
    pub fn as_count(&self) -> (r: Option<u64>)
        ensures
            r is Some <==> (num_is_integer(*self) && self.spec_mantissa() >= 0),
            r is Some ==> r->0 == num_whole(*self),
    {
        if self.mantissa < 0 || !self.is_integer() {
            return None;
        }
        let p = pow10_exec(self.scale());
        let m = self.mantissa as i128;
        proof {
            assert(0 <= m / p <= m) by (nonlinear_arith)
                requires
                    m >= 0,
                    p >= 1,
            ;
        }
        Some((m / p) as u64)
    }
}

/// A JSON value. An object keeps its entries in the order they were given;
/// its keys are expected to be distinct, and lookups take the first match.
#[derive(Debug)]
pub enum Json {
    Null,
    Bool(bool),
    Number(Number),
    Str(String),
    Array(Vec<Json>),
    Object(Vec<(String, Json)>),
}

/// The position of the first entry at or after `i` whose key is `k`.
pub open spec fn key_pos_from(entries: Seq<(String, Json)>, k: Seq<char>, i: int) -> Option<int>
    decreases entries.len() - i,
{
    if i < 0 || i >= entries.len() {
        None
    } else if entries[i].0@ == k {
        Some(i)
    } else {
        key_pos_from(entries, k, i + 1)
    }
}

/// The position of the first entry whose key is `k`.
pub open spec fn key_pos(entries: Seq<(String, Json)>, k: Seq<char>) -> Option<int> {
    key_pos_from(entries, k, 0)
}

pub proof fn lemma_key_pos_from(entries: Seq<(String, Json)>, k: Seq<char>, i: int)
    requires
        0 <= i,
    ensures
        key_pos_from(entries, k, i) is Some ==> {
            let p = key_pos_from(entries, k, i)->0;
            i <= p < entries.len() && entries[p].0@ == k && forall|j: int|
                i <= j < p ==> entries[j].0@ != k
        },
        key_pos_from(entries, k, i) is None ==> forall|j: int|
            i <= j < entries.len() ==> entries[j].0@ != k,
    decreases entries.len() - i,
{
    if i < entries.len() && entries[i].0@ != k {
        lemma_key_pos_from(entries, k, i + 1);
    }
}

/// The value stored under `k` in an object's entries.
pub open spec fn entry_value(entries: Seq<(String, Json)>, k: Seq<char>) -> Option<Json> {
    match key_pos(entries, k) {
        Some(p) => Some(entries[p].1),
        None => None,
    }
}

/// Deep equality of JSON values: numbers compare by value, arrays element by
/// element, objects by their sets of keys and the values under them.
pub open spec fn json_equal(a: Json, b: Json) -> bool
    decreases a,
{
    match (a, b) {
        (Json::Null, Json::Null) => true,
        (Json::Bool(x), Json::Bool(y)) => x == y,
        (Json::Number(x), Json::Number(y)) => num_eq(x, y),
        (Json::Str(x), Json::Str(y)) => x@ == y@,
        (Json::Array(xs), Json::Array(ys)) => xs.len() == ys.len() && forall|i: int|
            0 <= i < xs.len() ==> json_equal(#[trigger] xs@[i], ys@[i]),
        (Json::Object(xs), Json::Object(ys)) => xs.len() == ys.len() && forall|i: int|
            0 <= i < xs.len() ==> match #[trigger] key_pos(ys@, xs@[i].0@) {
                Some(p) => json_equal(xs@[i].1, ys@[p].1),
                None => false,
            },
        _ => false,
    }
}

/// Whether two strings hold the same characters.
pub fn str_eq(a: &str, b: &str) -> (r: bool)
    ensures
        r == (a@ == b@),
{
    let n = a.unicode_len();
    if n != b.unicode_len() {
        return false;
    }
    let mut i: usize = 0;
    while i < n
        invariant
            n == a@.len() == b@.len(),
            i <= n,
            forall|j: int| 0 <= j < i ==> a@[j] == b@[j],
        decreases n - i,
    {
        if a.get_char(i) != b.get_char(i) {
            return false;
        }
        i = i + 1;
    }
    assert(a@ =~= b@);
    true
}

/// The position of the first entry whose key is `k`.
pub fn find_key(entries: &Vec<(String, Json)>, k: &str) -> (r: Option<usize>)
    ensures
        r matches Some(p) ==> key_pos(entries@, k@) == Some(p as int),
        r is None ==> key_pos(entries@, k@) is None,
{
    let mut i: usize = 0;
    while i < entries.len()
        invariant
            i <= entries.len(),
            key_pos(entries@, k@) == key_pos_from(entries@, k@, i as int),
        decreases entries.len() - i,
    {
        if str_eq(entries[i].0.as_str(), k) {
            return Some(i);
        }
        i = i + 1;
    }
    None
}

impl Json {
    pub fn is_object(&self) -> (r: bool)
        ensures
            r == self is Object,
    {
        match self {
            Json::Object(_) => true,
            _ => false,
        }
    }

    pub fn is_array(&self) -> (r: bool)
        ensures
            r == self is Array,
    {
        match self {
            Json::Array(_) => true,
            _ => false,
        }
    }

    pub fn is_bool(&self) -> (r: bool)
        ensures
            r == self is Bool,
    {
        match self {
            Json::Bool(_) => true,
            _ => false,
        }
    }

    /// The value under `key`, when `self` is an object that has it.
    pub open spec fn spec_get(self, key: Seq<char>) -> Option<Json> {
        match self {
            Json::Object(entries) => entry_value(entries@, key),
            _ => None,
        }
    }

    pub fn get(&self, key: &str) -> (r: Option<&Json>)
        ensures
            r matches Some(v) ==> self.spec_get(key@) == Some(*v),
            r is None ==> self.spec_get(key@) is None,
    {
        match self {
            Json::Object(entries) => match find_key(entries, key) {
                Some(p) => {
                    proof {
                        lemma_key_pos_from(entries@, key@, 0);
                    }
                    Some(&entries[p].1)
                },
                None => None,
            },
            _ => None,
        }
    }
}

/// Deep equality of two JSON values.
pub fn json_eq(a: &Json, b: &Json) -> (r: bool)
    ensures
        r == json_equal(*a, *b),
    decreases a,
{
    match (a, b) {
        (Json::Null, Json::Null) => true,
        (Json::Bool(x), Json::Bool(y)) => *x == *y,
        (Json::Number(x), Json::Number(y)) => x.num_equals(y),
        (Json::Str(x), Json::Str(y)) => str_eq(x.as_str(), y.as_str()),
        (Json::Array(xs), Json::Array(ys)) => {
            if xs.len() != ys.len() {
                return false;
            }
            let mut i: usize = 0;
            while i < xs.len()
                invariant
                    xs.len() == ys.len(),
                    i <= xs.len(),
                    *a == Json::Array(*xs),
                    *b == Json::Array(*ys),
                    forall|j: int| 0 <= j < i ==> json_equal(#[trigger] xs@[j], ys@[j]),
                decreases xs.len() - i,
            {
                proof {
                    broadcast use vstd::std_specs::vec::axiom_vec_index_decreases;

                    assert(decreases_to!(*xs => xs[i as int]));
                    assert(decreases_to!(*a => a->Array_0));
                    assert(decreases_to!(*a => xs[i as int]));
                }
                if !json_eq(&xs[i], &ys[i]) {
                    assert(!json_equal(xs@[i as int], ys@[i as int]));
                    return false;
                }
                i = i + 1;
            }
            true
        },
        (Json::Object(xs), Json::Object(ys)) => {
            if xs.len() != ys.len() {
                return false;
            }
            let mut i: usize = 0;
            while i < xs.len()
                invariant
                    xs.len() == ys.len(),
                    i <= xs.len(),
                    *a == Json::Object(*xs),
                    *b == Json::Object(*ys),
                    forall|j: int|
                        0 <= j < i ==> match #[trigger] key_pos(ys@, xs@[j].0@) {
                            Some(p) => json_equal(xs@[j].1, ys@[p].1),
                            None => false,
                        },
                decreases xs.len() - i,
            {
                match find_key(ys, xs[i].0.as_str()) {
                    Some(p) => {
                        proof {
                            broadcast use vstd::std_specs::vec::axiom_vec_index_decreases;

                            lemma_key_pos_from(ys@, xs@[i as int].0@, 0);
                            assert(decreases_to!(*xs => xs[i as int]));
                            assert(decreases_to!(*a => a->Object_0));
                            assert(decreases_to!(xs[i as int] => xs[i as int].1));
                            assert(decreases_to!(*a => xs[i as int].1));
                        }
                        if !json_eq(&xs[i].1, &ys[p].1) {
                            assert(match key_pos(ys@, xs@[i as int].0@) {
                                Some(p) => json_equal(xs@[i as int].1, ys@[p].1),
                                None => false,
                            } == false);
                            return false;
                        }
                    },
                    None => {
                        assert(match key_pos(ys@, xs@[i as int].0@) {
                            Some(p) => json_equal(xs@[i as int].1, ys@[p].1),
                            None => false,
                        } == false);
                        return false;
                    },
                }
                i = i + 1;
            }
            true
        },
        _ => false,
    }
}

/// The number of bytes that UTF-8 takes for `c`.
pub open spec fn utf8_width(c: char) -> nat {
    if (c as u32) < 0x80 {
        1
    } else if (c as u32) < 0x800 {
        2
    } else if (c as u32) < 0x10000 {
        3
    } else {
        4
    }
}

/// The number of bytes of the UTF-8 encoding of `s`.
pub open spec fn utf8_len(s: Seq<char>) -> nat
    decreases s.len(),
{
    if s.len() == 0 {
        0
    } else {
        utf8_len(s.drop_last()) + utf8_width(s.last())
    }
}

/// The length of `s` in bytes, its storage length.
pub fn byte_len(s: &str) -> (r: u128)
    ensures
        r == utf8_len(s@),
{
    let n = s.unicode_len();
    let mut total: u128 = 0;
    let mut i: usize = 0;
    while i < n
        invariant
            n == s@.len(),
            i <= n,
            total == utf8_len(s@.subrange(0, i as int)),
            total <= 4 * i,
        decreases n - i,
    {
        let c = s.get_char(i);
        let w: u128 = if (c as u32) < 0x80 {
            1
        } else if (c as u32) < 0x800 {
            2
        } else if (c as u32) < 0x10000 {
            3
        } else {
            4
        };
        proof {
            assert(s@.subrange(0, i + 1).drop_last() =~= s@.subrange(0, i as int));
        }
        total = total + w;
        i = i + 1;
    }
    assert(s@.subrange(0, n as int) =~= s@);
    total
}

/// `b` is a copy of `a`: the same variant, the same scalars, the same keys
/// in the same order, and copies of the same members.
pub open spec fn json_copy(a: Json, b: Json) -> bool
    decreases a,
{
    match (a, b) {
        (Json::Null, Json::Null) => true,
        (Json::Bool(x), Json::Bool(y)) => x == y,
        (Json::Number(x), Json::Number(y)) => x == y,
        (Json::Str(x), Json::Str(y)) => x@ == y@,
        (Json::Array(xs), Json::Array(ys)) => xs.len() == ys.len() && forall|i: int|
            0 <= i < xs.len() ==> json_copy(#[trigger] xs@[i], ys@[i]),
        (Json::Object(xs), Json::Object(ys)) => xs.len() == ys.len() && forall|i: int|
            0 <= i < xs.len() ==> (#[trigger] xs@[i]).0@ == ys@[i].0@ && json_copy(
                xs@[i].1,
                ys@[i].1,
            ),
        _ => false,
    }
}

/// A deep copy of `a`.
pub fn json_clone(a: &Json) -> (r: Json)
    ensures
        json_copy(*a, r),
    decreases a,
{
    match a {
        Json::Null => Json::Null,
        Json::Bool(x) => Json::Bool(*x),
        Json::Number(n) => Json::Number(n.clone()),
        Json::Str(s) => Json::Str(s.clone()),
        Json::Array(xs) => {
            let mut out: Vec<Json> = Vec::new();
            let mut i: usize = 0;
            while i < xs.len()
                invariant
                    i <= xs.len(),
                    out@.len() == i,
                    *a == Json::Array(*xs),
                    forall|j: int| 0 <= j < i ==> json_copy(#[trigger] xs@[j], out@[j]),
                decreases xs.len() - i,
            {
                proof {
                    broadcast use vstd::std_specs::vec::axiom_vec_index_decreases;

                    assert(decreases_to!(*xs => xs[i as int]));
                    assert(decreases_to!(*a => a->Array_0));
                    assert(decreases_to!(*a => xs[i as int]));
                }
                let c = json_clone(&xs[i]);
                out.push(c);
                i = i + 1;
            }
            Json::Array(out)
        },
        Json::Object(xs) => {
            let mut out: Vec<(String, Json)> = Vec::new();
            let mut i: usize = 0;
            while i < xs.len()
                invariant
                    i <= xs.len(),
                    out@.len() == i,
                    *a == Json::Object(*xs),
                    forall|j: int|
                        0 <= j < i ==> (#[trigger] xs@[j]).0@ == out@[j].0@ && json_copy(
                            xs@[j].1,
                            out@[j].1,
                        ),
                decreases xs.len() - i,
            {
                proof {
                    broadcast use vstd::std_specs::vec::axiom_vec_index_decreases;

                    assert(decreases_to!(*xs => xs[i as int]));
                    assert(decreases_to!(*a => a->Object_0));
                    assert(decreases_to!(xs[i as int] => xs[i as int].1));
                    assert(decreases_to!(*a => xs[i as int].1));
                }
                let c = json_clone(&xs[i].1);
                out.push((xs[i].0.clone(), c));
                i = i + 1;
            }
            Json::Object(out)
        },
    }
}

} // verus!
