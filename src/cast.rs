//! Casts out of binary and UTF-8 view columns: into offset-based layouts,
//! into integers read from their bytes or their text, and into dates.
use vstd::prelude::*;
use vstd::string::StrSliceExecFns;
use chrono::{Datelike, NaiveDate};

verus! {

/// A column of optional byte strings.
pub type BinaryViewArray = Vec<Option<Vec<u8>>>;

/// A column of optional UTF-8 strings.
pub type Utf8ViewArray = Vec<Option<String>>;

/// Byte strings laid end to end: slot `i` is `values[offsets[i]..offsets[i + 1]]`,
/// and is null where `validity[i]` is false.
pub struct BinaryArray {
    pub offsets: Vec<usize>,
    pub values: Vec<u8>,
    pub validity: Vec<bool>,
}

/// A [`BinaryArray`] whose slots hold UTF-8 text.
pub struct Utf8Array {
    pub offsets: Vec<usize>,
    pub values: Vec<u8>,
    pub validity: Vec<bool>,
}

/// The byte strings of a binary column.
pub open spec fn binary_slots(a: Seq<Option<Vec<u8>>>) -> Seq<Option<Seq<u8>>> {
    a.map_values(|o: Option<Vec<u8>>| match o {
        Some(v) => Some(v@),
        None => None,
    })
}

/// The UTF-8 encodings of the strings of a text column.
pub open spec fn utf8_slots(a: Seq<Option<String>>) -> Seq<Option<Seq<u8>>> {
    a.map_values(|o: Option<String>| match o {
        Some(s) => Some(vstd::utf8::encode_utf8(s@)),
        None => None,
    })
}

/// The bytes of slot `i`; a null slot has none.
pub open spec fn slot_bytes(a: Seq<Option<Seq<u8>>>, i: int) -> Seq<u8> {
    match a[i] {
        Some(v) => v,
        None => Seq::empty(),
    }
}

/// The bytes of the first `n` slots, end to end.
pub open spec fn flat_bytes(a: Seq<Option<Seq<u8>>>, n: nat) -> Seq<u8>
    decreases n,
{
    if n == 0 {
        Seq::empty()
    } else {
        flat_bytes(a, (n - 1) as nat) + slot_bytes(a, n - 1)
    }
}

/// `offsets`, `values` and `validity` lay out the slots of `a`.
pub open spec fn lays_out(a: Seq<Option<Seq<u8>>>, offsets: Seq<usize>, values: Seq<u8>, validity: Seq<bool>) -> bool {
    &&& offsets.len() == a.len() + 1
    &&& forall|i: int| 0 <= i <= a.len() ==> #[trigger] offsets[i] == flat_bytes(a, i as nat).len()
    &&& values == flat_bytes(a, a.len())
    &&& validity.len() == a.len()
    &&& forall|i: int| 0 <= i < a.len() ==> #[trigger] validity[i] == a[i].is_some()
}

/// Lays the slots of `array` end to end.
pub fn view_to_binary(array: &BinaryViewArray) -> (res: BinaryArray)
    ensures
        lays_out(binary_slots(array@), res.offsets@, res.values@, res.validity@),
{
    let ghost slots = binary_slots(array@);
    let mut offsets: Vec<usize> = Vec::new();
    let mut values: Vec<u8> = Vec::new();
    let mut validity: Vec<bool> = Vec::new();
    offsets.push(0);
    let mut i: usize = 0;
    while i < array.len()
        invariant
            i <= array@.len(),
            offsets@.len() == i + 1,
            slots == binary_slots(array@),
            forall|k: int| 0 <= k <= i ==> #[trigger] offsets@[k] == flat_bytes(slots, k as nat).len(),
            values@ == flat_bytes(slots, i as nat),
            validity@.len() == i,
            forall|k: int| 0 <= k < i ==> #[trigger] validity@[k] == array@[k].is_some(),
        decreases array@.len() - i,
    {
        match &array[i] {
            Some(v) => {
                let mut j: usize = 0;
                let ghost start = values@;
                while j < v.len()
                    invariant
                        j <= v@.len(),
                        values@ == start + v@.subrange(0, j as int),
                    decreases v@.len() - j,
                {
                    values.push(v[j]);
                    assert(values@ =~= start + v@.subrange(0, j + 1));
                    j = j + 1;
                }
                assert(v@.subrange(0, v@.len() as int) =~= v@);
                validity.push(true);
            },
            None => {
                validity.push(false);
            },
        }
        assert(slot_bytes(slots, i as int) == match array@[i as int] {
            Some(v) => v@,
            None => Seq::<u8>::empty(),
        });
        assert(values@ =~= flat_bytes(slots, (i + 1) as nat));
        offsets.push(values.len());
        i = i + 1;
    }
    BinaryArray { offsets, values, validity }
}

/// A copy of a byte slice.
fn copy_bytes(b: &[u8]) -> (res: Vec<u8>)
    ensures
        res@ == b@,
{
    let mut out: Vec<u8> = Vec::new();
    let mut j: usize = 0;
    while j < b.len()
        invariant
            j <= b@.len(),
            out@ == b@.subrange(0, j as int),
        decreases b@.len() - j,
    {
        out.push(b[j]);
        assert(out@ =~= b@.subrange(0, j + 1));
        j = j + 1;
    }
    assert(b@.subrange(0, b@.len() as int) =~= b@);
    out
}

/// The UTF-8 bytes of each string; nulls stay null.
pub fn to_binview(array: &Utf8ViewArray) -> (res: BinaryViewArray)
    ensures
        res@.len() == array@.len(),
        forall|i: int| 0 <= i < array@.len() ==> match array@[i] {
            Some(s) => #[trigger] res@[i] matches Some(b) && b@ == vstd::utf8::encode_utf8(s@),
            None => res@[i].is_none(),
        },
{
    let mut out: BinaryViewArray = Vec::new();
    let mut i: usize = 0;
    while i < array.len()
        invariant
            i <= array@.len(),
            out@.len() == i,
            forall|k: int| 0 <= k < i ==> match array@[k] {
                Some(s) => #[trigger] out@[k] matches Some(b) && b@ == vstd::utf8::encode_utf8(s@),
                None => out@[k].is_none(),
            },
        decreases array@.len() - i,
    {
        let slot = match &array[i] {
            Some(s) => Some(copy_bytes(s.as_str().as_bytes())),
            None => None,
        };
        out.push(slot);
        i = i + 1;
    }
    out
}

/// Lays the UTF-8 bytes of the strings of `array` end to end.
pub fn utf8view_to_utf8(array: &Utf8ViewArray) -> (res: Utf8Array)
    ensures
        lays_out(utf8_slots(array@), res.offsets@, res.values@, res.validity@),
{
    let view = to_binview(array);
    let out = view_to_binary(&view);
    assert forall|i: int| 0 <= i < array@.len() implies #[trigger] binary_slots(view@)[i] == utf8_slots(array@)[i] by {
        match array@[i] {
            Some(s) => {},
            None => {},
        }
    }
    assert(binary_slots(view@) =~= utf8_slots(array@));
    Utf8Array { offsets: out.offsets, values: out.values, validity: out.validity }
}

/// The unsigned value of bytes read least significant first.
pub open spec fn le_value(b: Seq<u8>) -> nat
    decreases b.len(),
{
    if b.len() == 0 {
        0
    } else {
        b[0] as nat + 256 * le_value(b.drop_first())
    }
}

/// The unsigned value of bytes read most significant first.
pub open spec fn be_value(b: Seq<u8>) -> nat
    decreases b.len(),
{
    if b.len() == 0 {
        0
    } else {
        b.last() as nat + 256 * be_value(b.drop_last())
    }
}

/// 256 to the power `n`.
pub open spec fn pow256(n: nat) -> nat
    decreases n,
{
    if n == 0 {
        1
    } else {
        256 * pow256((n - 1) as nat)
    }
}

proof fn lemma_pow256_values()
    ensures
        pow256(1) == 0x100,
        pow256(2) == 0x1_0000,
        pow256(4) == 0x1_0000_0000,
        pow256(8) == 0x1_0000_0000_0000_0000,
{
    reveal_with_fuel(pow256, 9);
}

proof fn lemma_pow256_grows(m: nat, n: nat)
    requires
        m <= n,
    ensures
        1 <= pow256(m) <= pow256(n),
    decreases n,
{
    if m < n {
        lemma_pow256_grows(m, (n - 1) as nat);
    } else if n > 0 {
        lemma_pow256_grows((n - 1) as nat, (n - 1) as nat);
    }
}

/// The integer whose `width`-byte encoding (two's complement when `signed`)
/// has the unsigned value `v`.
pub open spec fn bits_value(v: nat, width: nat, signed: bool) -> int {
    if signed && 2 * v >= pow256(width) {
        v - pow256(width)
    } else {
        v as int
    }
}

/// The smallest value of a `width`-byte integer.
pub open spec fn int_min(width: nat, signed: bool) -> int {
    if signed {
        -(pow256(width) as int) / 2
    } else {
        0
    }
}

/// The largest value of a `width`-byte integer.
pub open spec fn int_max(width: nat, signed: bool) -> int {
    if signed {
        pow256(width) as int / 2 - 1
    } else {
        pow256(width) - 1
    }
}

/// The fixed-width integers that columns can be cast to.
pub trait PrimitiveInt: Sized + Copy {
    /// Bytes in the encoding.
    spec fn spec_width() -> nat;

    /// Two's complement rather than unsigned.
    spec fn spec_signed() -> bool;

    spec fn to_int(self) -> int;

    fn width() -> (res: usize)
        ensures
            res == Self::spec_width(),
            res == 1 || res == 2 || res == 4 || res == 8,
    ;

    /// The value of the encoding whose unsigned value is `v`.
    fn from_bits(v: u64) -> (res: Self)
        requires
            v < pow256(Self::spec_width()),
        ensures
            res.to_int() == bits_value(v as nat, Self::spec_width(), Self::spec_signed()),
    ;

    /// `v`, if the type holds it.
    fn from_int(v: i128) -> (res: Option<Self>)
        ensures
            res.is_some() <==> int_min(Self::spec_width(), Self::spec_signed()) <= v <= int_max(
                Self::spec_width(),
                Self::spec_signed(),
            ),
            res matches Some(x) ==> x.to_int() == v,
    ;
}

impl PrimitiveInt for i8 {
    open spec fn spec_width() -> nat {
        1
    }

    open spec fn spec_signed() -> bool {
        true
    }

    open spec fn to_int(self) -> int {
        self as int
    }

    fn width() -> (res: usize) {
        1
    }

    fn from_bits(v: u64) -> (res: i8) {
        proof {
            lemma_pow256_values();
        }
        if v < 0x80u64 {
            v as i8
        } else {
            ((v as i128) - 0x100i128) as i8
        }
    }

    fn from_int(v: i128) -> (res: Option<i8>) {
        proof {
            lemma_pow256_values();
        }
        if i8::MIN as i128 <= v && v <= i8::MAX as i128 {
            Some(v as i8)
        } else {
            None
        }
    }
}

impl PrimitiveInt for i16 {
    open spec fn spec_width() -> nat {
        2
    }

    open spec fn spec_signed() -> bool {
        true
    }

    open spec fn to_int(self) -> int {
        self as int
    }

    fn width() -> (res: usize) {
        2
    }

    fn from_bits(v: u64) -> (res: i16) {
        proof {
            lemma_pow256_values();
        }
        if v < 0x8000u64 {
            v as i16
        } else {
            ((v as i128) - 0x1_0000i128) as i16
        }
    }

    fn from_int(v: i128) -> (res: Option<i16>) {
        proof {
            lemma_pow256_values();
        }
        if i16::MIN as i128 <= v && v <= i16::MAX as i128 {
            Some(v as i16)
        } else {
            None
        }
    }
}

impl PrimitiveInt for i32 {
    open spec fn spec_width() -> nat {
        4
    }

    open spec fn spec_signed() -> bool {
        true
    }

    open spec fn to_int(self) -> int {
        self as int
    }

    fn width() -> (res: usize) {
        4
    }

    fn from_bits(v: u64) -> (res: i32) {
        proof {
            lemma_pow256_values();
        }
        if v < 0x8000_0000u64 {
            v as i32
        } else {
            ((v as i128) - 0x1_0000_0000i128) as i32
        }
    }

    fn from_int(v: i128) -> (res: Option<i32>) {
        proof {
            lemma_pow256_values();
        }
        if i32::MIN as i128 <= v && v <= i32::MAX as i128 {
            Some(v as i32)
        } else {
            None
        }
    }
}

impl PrimitiveInt for i64 {
    open spec fn spec_width() -> nat {
        8
    }

    open spec fn spec_signed() -> bool {
        true
    }

    open spec fn to_int(self) -> int {
        self as int
    }

    fn width() -> (res: usize) {
        8
    }

    fn from_bits(v: u64) -> (res: i64) {
        proof {
            lemma_pow256_values();
        }
        if v < 0x8000_0000_0000_0000u64 {
            v as i64
        } else {
            ((v as i128) - 0x1_0000_0000_0000_0000i128) as i64
        }
    }

    fn from_int(v: i128) -> (res: Option<i64>) {
        proof {
            lemma_pow256_values();
        }
        if i64::MIN as i128 <= v && v <= i64::MAX as i128 {
            Some(v as i64)
        } else {
            None
        }
    }
}

impl PrimitiveInt for u8 {
    open spec fn spec_width() -> nat {
        1
    }

    open spec fn spec_signed() -> bool {
        false
    }

    open spec fn to_int(self) -> int {
        self as int
    }

    fn width() -> (res: usize) {
        1
    }

    fn from_bits(v: u64) -> (res: u8) {
        proof {
            lemma_pow256_values();
        }
        v as u8
    }

    fn from_int(v: i128) -> (res: Option<u8>) {
        proof {
            lemma_pow256_values();
        }
        if 0 <= v && v <= u8::MAX as i128 {
            Some(v as u8)
        } else {
            None
        }
    }
}

impl PrimitiveInt for u16 {
    open spec fn spec_width() -> nat {
        2
    }

    open spec fn spec_signed() -> bool {
        false
    }

    open spec fn to_int(self) -> int {
        self as int
    }

    fn width() -> (res: usize) {
        2
    }

    fn from_bits(v: u64) -> (res: u16) {
        proof {
            lemma_pow256_values();
        }
        v as u16
    }

    fn from_int(v: i128) -> (res: Option<u16>) {
        proof {
            lemma_pow256_values();
        }
        if 0 <= v && v <= u16::MAX as i128 {
            Some(v as u16)
        } else {
            None
        }
    }
}

impl PrimitiveInt for u32 {
    open spec fn spec_width() -> nat {
        4
    }

    open spec fn spec_signed() -> bool {
        false
    }

    open spec fn to_int(self) -> int {
        self as int
    }

    fn width() -> (res: usize) {
        4
    }

    fn from_bits(v: u64) -> (res: u32) {
        proof {
            lemma_pow256_values();
        }
        v as u32
    }

    fn from_int(v: i128) -> (res: Option<u32>) {
        proof {
            lemma_pow256_values();
        }
        if 0 <= v && v <= u32::MAX as i128 {
            Some(v as u32)
        } else {
            None
        }
    }
}

impl PrimitiveInt for u64 {
    open spec fn spec_width() -> nat {
        8
    }

    open spec fn spec_signed() -> bool {
        false
    }

    open spec fn to_int(self) -> int {
        self as int
    }

    fn width() -> (res: usize) {
        8
    }

    fn from_bits(v: u64) -> (res: u64) {
        proof {
            lemma_pow256_values();
        }
        v as u64
    }

    fn from_int(v: i128) -> (res: Option<u64>) {
        proof {
            lemma_pow256_values();
        }
        if 0 <= v && v <= u64::MAX as i128 {
            Some(v as u64)
        } else {
            None
        }
    }
}

/// The unsigned value of at most eight bytes, in the given order.
fn bytes_value(b: &Vec<u8>, little_endian: bool) -> (res: u64)
    requires
        b@.len() <= 8,
    ensures
        res == if little_endian { le_value(b@) } else { be_value(b@) },
        res < pow256(b@.len()),
{
    proof {
        lemma_pow256_values();
        lemma_pow256_grows(b@.len(), 8);
    }
    let n = b.len();
    let mut v: u64 = 0;
    if little_endian {
        let mut j: usize = n;
        assert(b@.subrange(n as int, n as int) =~= Seq::<u8>::empty());
        while j > 0
            invariant
                n == b@.len(),
                n <= 8,
                j <= n,
                v == le_value(b@.subrange(j as int, n as int)),
                pow256(8) == 0x1_0000_0000_0000_0000,
                v < pow256((n - j) as nat),
            decreases j,
        {
            proof {
                lemma_pow256_grows((n - j + 1) as nat, 8);
                assert(v * 256 + b@[j - 1] < 256 * pow256((n - j) as nat)) by (nonlinear_arith)
                    requires
                        v < pow256((n - j) as nat),
                        b@[j - 1] < 256,
                ;
                assert(b@.subrange(j - 1, n as int).drop_first() =~= b@.subrange(j as int, n as int));
                assert(pow256((n - j + 1) as nat) == 256 * pow256((n - j) as nat));
                assert(v * 256 + b@[j - 1] < 0x1_0000_0000_0000_0000);
            }
            v = v * 256 + b[j - 1] as u64;
            j = j - 1;
        }
        assert(b@.subrange(0, n as int) =~= b@);
    } else {
        let mut j: usize = 0;
        assert(b@.subrange(0, 0) =~= Seq::<u8>::empty());
        while j < n
            invariant
                n == b@.len(),
                n <= 8,
                j <= n,
                v == be_value(b@.subrange(0, j as int)),
                pow256(8) == 0x1_0000_0000_0000_0000,
                v < pow256(j as nat),
            decreases n - j,
        {
            proof {
                lemma_pow256_grows((j + 1) as nat, 8);
                assert(v * 256 + b@[j as int] < 256 * pow256(j as nat)) by (nonlinear_arith)
                    requires
                        v < pow256(j as nat),
                        b@[j as int] < 256,
                ;
                assert(b@.subrange(0, j + 1).drop_last() =~= b@.subrange(0, j as int));
                assert(pow256((j + 1) as nat) == 256 * pow256(j as nat));
                assert(v * 256 + b@[j as int] < 0x1_0000_0000_0000_0000);
            }
            v = v * 256 + b[j] as u64;
            j = j + 1;
        }
        assert(b@.subrange(0, n as int) =~= b@);
    }
    v
}

/// The integer held by a byte string as long as the type's encoding.
pub open spec fn bytes_to_int(b: Seq<u8>, little_endian: bool, width: nat, signed: bool) -> Option<int> {
    if b.len() != width {
        None
    } else if little_endian {
        Some(bits_value(le_value(b), width, signed))
    } else {
        Some(bits_value(be_value(b), width, signed))
    }
}

/// The integers of `res`, nulls kept.
pub open spec fn int_values<T: PrimitiveInt>(res: Seq<Option<T>>) -> Seq<Option<int>> {
    res.map_values(|o: Option<T>| match o {
        Some(x) => Some(x.to_int()),
        None => None,
    })
}

/// Reads each slot as an integer of type `T` in the given byte order; a slot
/// that is null or not as long as `T` gives null.
pub fn binview_to_primitive<T: PrimitiveInt>(from: &BinaryViewArray, is_little_endian: bool) -> (res: Vec<Option<T>>)
    ensures
        res@.len() == from@.len(),
        forall|i: int| 0 <= i < from@.len() ==> #[trigger] int_values(res@)[i] == match from@[i] {
            Some(b) => bytes_to_int(b@, is_little_endian, T::spec_width(), T::spec_signed()),
            None => None,
        },
{
    let width = T::width();
    let mut out: Vec<Option<T>> = Vec::new();
    let mut i: usize = 0;
    while i < from.len()
        invariant
            i <= from@.len(),
            width == T::spec_width(),
            width <= 8,
            out@.len() == i,
            forall|k: int| 0 <= k < i ==> #[trigger] int_values(out@)[k] == match from@[k] {
                Some(b) => bytes_to_int(b@, is_little_endian, T::spec_width(), T::spec_signed()),
                None => None,
            },
        decreases from@.len() - i,
    {
        let slot: Option<T> = match &from[i] {
            Some(b) => {
                if b.len() == width {
                    let v = bytes_value(b, is_little_endian);
                    Some(T::from_bits(v))
                } else {
                    None
                }
            },
            None => None,
        };
        let ghost before = out@;
        out.push(slot);
        assert forall|k: int| 0 <= k <= i implies #[trigger] int_values(out@)[k] == match from@[k] {
            Some(b) => bytes_to_int(b@, is_little_endian, T::spec_width(), T::spec_signed()),
            None => None,
        } by {
            if k < i {
                assert(out@[k] == before[k]);
                assert(int_values(before)[k] == match from@[k] {
                    Some(b) => bytes_to_int(b@, is_little_endian, T::spec_width(), T::spec_signed()),
                    None => None,
                });
            }
        }
        i = i + 1;
    }
    out
}

pub open spec fn is_digit(c: char) -> bool {
    '0' <= c && c <= '9'
}

/// The value of a string of decimal digits.
pub open spec fn decimal_value(s: Seq<char>) -> nat
    decreases s.len(),
{
    if s.len() == 0 {
        0
    } else {
        10 * decimal_value(s.drop_last()) + (s.last() as nat - '0' as nat) as nat
    }
}

/// The length of the sign that may start the text of an integer: a `+`, or
/// for a signed type a `-`.
pub open spec fn sign_len(s: Seq<char>, signed: bool) -> int {
    if s.len() > 0 && (s[0] == '+' || (signed && s[0] == '-')) {
        1
    } else {
        0
    }
}

/// The integer `str::parse` reads from `s` for an integer type of the given
/// range: an optional `+` (or `-`, for a signed type), then one or more
/// decimal digits, the value in range.
pub open spec fn parse_int(s: Seq<char>, signed: bool, min: int, max: int) -> Option<int> {
    let body = s.subrange(sign_len(s, signed), s.len() as int);
    let v = if sign_len(s, signed) == 1 && s[0] == '-' {
        -(decimal_value(body) as int)
    } else {
        decimal_value(body) as int
    };
    if body.len() == 0 || exists|i: int| 0 <= i < body.len() && !is_digit(#[trigger] body[i]) {
        None
    } else if min <= v <= max {
        Some(v)
    } else {
        None
    }
}

fn digit_of(c: char) -> (res: u128)
    requires
        is_digit(c),
    ensures
        res == c as nat - '0' as nat,
        res < 10,
{
    (c as u32 - '0' as u32) as u128
}

/// Reads `s` as an integer of type `T`, as [`parse_int`] states.
pub fn parse_primitive<T: PrimitiveInt>(s: &str) -> (res: Option<T>)
    ensures
        match parse_int(s@, T::spec_signed(), int_min(T::spec_width(), T::spec_signed()), int_max(T::spec_width(), T::spec_signed())) {
            Some(v) => res matches Some(x) && x.to_int() == v,
            None => res.is_none(),
        },
{
    proof {
        lemma_pow256_values();
    }
    let w = T::width();
    let signed = T::from_int(-1).is_some();
    proof {
        lemma_pow256_grows(T::spec_width(), 8);
        lemma_pow256_grows(1, T::spec_width());
    }
    let n = s.unicode_len();
    let mut start: usize = 0;
    let mut negative = false;
    if n > 0 {
        let c = s.get_char(0);
        if c == '+' {
            start = 1;
        } else if c == '-' && signed {
            start = 1;
            negative = true;
        }
    }
    let ghost body = s@.subrange(start as int, n as int);
    let ghost mn = int_min(T::spec_width(), T::spec_signed());
    let ghost mx = int_max(T::spec_width(), T::spec_signed());
    proof {
        assert(signed == T::spec_signed());
        assert(-0x1_0000_0000_0000_0000 <= mn && mx <= 0x1_0000_0000_0000_0000);
        assert(start == sign_len(s@, T::spec_signed()));
        assert(negative == (start == 1 && s@[0] == '-'));
    }
    if start >= n {
        assert(body.len() == 0);
        return None;
    }
    let bound: u128 = 0x1_0000_0000_0000_0000;
    let mut acc: u128 = 0;
    let mut big = false;
    let mut j: usize = start;
    assert(body.subrange(0, 0) =~= Seq::<char>::empty());
    while j < n
        invariant
            n == s@.len(),
            start <= j <= n,
            body == s@.subrange(start as int, n as int),
            bound == 0x1_0000_0000_0000_0000u128,
            start == sign_len(s@, T::spec_signed()),
            negative == (start == 1 && s@[0] == '-'),
            forall|k: int| 0 <= k < j - start ==> is_digit(#[trigger] body[k]),
            !big ==> acc == decimal_value(body.subrange(0, j - start)) && acc <= bound,
            big ==> decimal_value(body.subrange(0, j - start)) > bound,
        decreases n - j,
    {
        let c = s.get_char(j);
        if !('0' <= c && c <= '9') {
            assert(!is_digit(body[j - start]));
            assert(exists|i: int| 0 <= i < body.len() && !is_digit(#[trigger] body[i]));
            assert(parse_int(s@, T::spec_signed(), mn, mx).is_none());
            return None;
        }
        let d = digit_of(c);
        proof {
            let pre = body.subrange(0, j - start + 1);
            assert(pre.drop_last() =~= body.subrange(0, j - start));
            assert(pre.last() == c);
        }
        proof {
            let prev = decimal_value(body.subrange(0, j - start));
            assert(decimal_value(body.subrange(0, j - start + 1)) == 10 * prev + d);
            if !big {
                assert(acc * 10 + d <= 0x1_0000_0000_0000_0000 * 10 + 9) by (nonlinear_arith)
                    requires
                        acc <= 0x1_0000_0000_0000_0000u128,
                        d < 10,
                ;
            }
        }
        if !big {
            acc = acc * 10 + d;
            if acc > bound {
                big = true;
            }
        }
        j = j + 1;
    }
    assert(body.subrange(0, n - start) =~= body);
    assert(!exists|i: int| 0 <= i < body.len() && !is_digit(#[trigger] body[i]));
    if big {
        assert(parse_int(s@, T::spec_signed(), mn, mx).is_none());
        return None;
    }
    let v: i128 = if negative { -(acc as i128) } else { acc as i128 };
    assert(acc == decimal_value(body));
    assert(body.len() > 0);
    assert(parse_int(s@, T::spec_signed(), mn, mx) == if mn <= v <= mx { Some(v as int) } else { None::<int> });
    T::from_int(v)
}

/// Reads each string as a decimal integer of type `T`; a null or unreadable
/// slot gives null.
pub fn utf8view_to_primitive<T: PrimitiveInt>(from: &Utf8ViewArray) -> (res: Vec<Option<T>>)
    ensures
        res@.len() == from@.len(),
        forall|i: int| 0 <= i < from@.len() ==> #[trigger] int_values(res@)[i] == match from@[i] {
            Some(s) => parse_int(
                s@,
                T::spec_signed(),
                int_min(T::spec_width(), T::spec_signed()),
                int_max(T::spec_width(), T::spec_signed()),
            ),
            None => None,
        },
{
    let mut out: Vec<Option<T>> = Vec::new();
    let mut i: usize = 0;
    while i < from.len()
        invariant
            i <= from@.len(),
            out@.len() == i,
            forall|k: int| 0 <= k < i ==> #[trigger] int_values(out@)[k] == match from@[k] {
                Some(s) => parse_int(
                    s@,
                    T::spec_signed(),
                    int_min(T::spec_width(), T::spec_signed()),
                    int_max(T::spec_width(), T::spec_signed()),
                ),
                None => None,
            },
        decreases from@.len() - i,
    {
        let slot: Option<T> = match &from[i] {
            Some(s) => parse_primitive::<T>(s.as_str()),
            None => None,
        };
        let ghost before = out@;
        out.push(slot);
        assert forall|k: int| 0 <= k <= i implies #[trigger] int_values(out@)[k] == match from@[k] {
            Some(s) => parse_int(
                s@,
                T::spec_signed(),
                int_min(T::spec_width(), T::spec_signed()),
                int_max(T::spec_width(), T::spec_signed()),
            ),
            None => None,
        } by {
            if k < i {
                assert(out@[k] == before[k]);
                assert(int_values(before)[k] == int_values(out@)[k]);
            }
        }
        i = i + 1;
    }
    out
}

/// The day count (1 January of year 1 being day 1) of the calendar date
/// that chrono reads from `s` in the form `YYYY-MM-DD`, if it reads one.
pub uninterp spec fn date_days_from_ce(s: Seq<char>) -> Option<i32>;

/// Relies on chrono's `NaiveDate: FromStr` and `Datelike::num_days_from_ce`.
/// chrono's dates lie within years -262143 to 262142, so the day count stays
/// within a hundred million either way.
#[verifier::external_body]
fn parse_date_days_from_ce(s: &str) -> (res: Option<i32>)
    ensures
        res == date_days_from_ce(s@),
        res matches Some(d) ==> -100_000_000 <= d <= 100_000_000,
{
    match s.parse::<NaiveDate>() {
        Ok(d) => Some(d.num_days_from_ce()),
        Err(_) => None,
    }
}

/// Day number of 1970-01-01 counted from 0001-01-01 as day 1.
pub const EPOCH_DAYS_FROM_CE: i32 = 719_163;

/// The days since 1970-01-01 of the day numbered `days_from_ce`.
pub fn days_since_epoch(days_from_ce: i32) -> (res: i32)
    requires
        -100_000_000 <= days_from_ce <= 100_000_000,
    ensures
        res == days_from_ce - EPOCH_DAYS_FROM_CE,
{
    days_from_ce - EPOCH_DAYS_FROM_CE
}

/// Reads each string as a date and counts its days since 1970-01-01; a null
/// or unreadable slot gives null.
pub fn utf8view_to_date32(from: &Utf8ViewArray) -> (res: Vec<Option<i32>>)
    ensures
        res@.len() == from@.len(),
        forall|i: int| 0 <= i < from@.len() ==> #[trigger] res@[i] == match from@[i] {
            Some(s) => match date_days_from_ce(s@) {
                Some(d) => Some((d - EPOCH_DAYS_FROM_CE) as i32),
                None => None,
            },
            None => None,
        },
{
    let mut out: Vec<Option<i32>> = Vec::new();
    let mut i: usize = 0;
    while i < from.len()
        invariant
            i <= from@.len(),
            out@.len() == i,
            forall|k: int| 0 <= k < i ==> #[trigger] out@[k] == match from@[k] {
                Some(s) => match date_days_from_ce(s@) {
                    Some(d) => Some((d - EPOCH_DAYS_FROM_CE) as i32),
                    None => None,
                },
                None => None,
            },
        decreases from@.len() - i,
    {
        let slot = match &from[i] {
            Some(s) => match parse_date_days_from_ce(s.as_str()) {
                Some(d) => Some(days_since_epoch(d)),
                None => None,
            },
            None => None,
        };
        out.push(slot);
        i = i + 1;
    }
    out
}

/// The distinct non-null byte strings among the first `n` slots, in order of
/// first appearance.
pub open spec fn distinct_values(slots: Seq<Option<Seq<u8>>>, n: nat) -> Seq<Seq<u8>>
    decreases n,
{
    if n == 0 {
        Seq::empty()
    } else {
        let prev = distinct_values(slots, (n - 1) as nat);
        match slots[n - 1] {
            Some(b) => if prev.contains(b) {
                prev
            } else {
                prev.push(b)
            },
            None => prev,
        }
    }
}

proof fn lemma_distinct_values_grow(slots: Seq<Option<Seq<u8>>>, m: nat, n: nat)
    requires
        m <= n,
    ensures
        distinct_values(slots, m).len() <= distinct_values(slots, n).len(),
    decreases n,
{
    if m < n {
        lemma_distinct_values_grow(slots, m, (n - 1) as nat);
    }
}

/// A column packed as a dictionary: each slot is null or the index of its
/// value among `values`.
pub struct DictionaryArray {
    pub keys: Vec<Option<u32>>,
    pub values: Vec<Vec<u8>>,
}

/// Why a column could not be packed.
#[derive(Clone, Copy, PartialEq, Eq, Structural, Debug)]
pub enum CastError {
    /// More distinct values than a `u32` key can tell apart.
    KeyOverflow,
}

/// `d` packs the slots `slots`.
pub open spec fn packs(d: DictionaryArray, slots: Seq<Option<Seq<u8>>>) -> bool {
    &&& d.values@.map_values(|v: Vec<u8>| v@) == distinct_values(slots, slots.len())
    &&& d.keys@.len() == slots.len()
    &&& forall|i: int| 0 <= i < slots.len() ==> match slots[i] {
        None => (#[trigger] d.keys@[i]).is_none(),
        Some(b) => d.keys@[i] matches Some(k) && k < d.values@.len() && d.values@[k as int]@ == b,
    }
}

/// The position of `b` among `values`, if it is there.
fn find_value(values: &Vec<Vec<u8>>, b: &Vec<u8>) -> (res: Option<usize>)
    ensures
        res matches Some(j) ==> j < values@.len() && values@[j as int]@ == b@,
        res.is_none() ==> !values@.map_values(|v: Vec<u8>| v@).contains(b@),
{
    let mut j: usize = 0;
    while j < values.len()
        invariant
            j <= values@.len(),
            forall|k: int| 0 <= k < j ==> values@[k]@ != b@,
        decreases values@.len() - j,
    {
        if crate::hashing::bytes_equal(values[j].as_slice(), b.as_slice()) {
            return Some(j);
        }
        j = j + 1;
    }
    let ghost vals = values@.map_values(|v: Vec<u8>| v@);
    assert forall|k: int| 0 <= k < vals.len() implies #[trigger] vals[k] != b@ by {
        assert(vals[k] == values@[k]@);
    }
    None
}

/// Packs the slots of `from` into a dictionary; fails when there are more
/// than 2^32 distinct values.
pub fn binview_to_dictionary(from: &BinaryViewArray) -> (res: Result<DictionaryArray, CastError>)
    ensures
        res.is_err() <==> distinct_values(binary_slots(from@), from@.len()).len() > 0x1_0000_0000,
        res matches Ok(d) ==> packs(d, binary_slots(from@)),
{
    let ghost slots = binary_slots(from@);
    let mut keys: Vec<Option<u32>> = Vec::new();
    let mut values: Vec<Vec<u8>> = Vec::new();
    let mut i: usize = 0;
    while i < from.len()
        invariant
            i <= from@.len(),
            slots == binary_slots(from@),
            values@.map_values(|v: Vec<u8>| v@) == distinct_values(slots, i as nat),
            values@.len() <= 0x1_0000_0000,
            keys@.len() == i,
            forall|k: int| 0 <= k < i ==> match slots[k] {
                None => (#[trigger] keys@[k]).is_none(),
                Some(b) => keys@[k] matches Some(x) && x < values@.len() && values@[x as int]@ == b,
            },
        decreases from@.len() - i,
    {
        let ghost before = values@;
        match &from[i] {
            None => {
                keys.push(None);
                assert(slots[i as int].is_none());
            },
            Some(b) => {
                assert(slots[i as int] == Some(b@));
                match find_value(&values, b) {
                    Some(j) => {
                        keys.push(Some(j as u32));
                        assert(values@.map_values(|v: Vec<u8>| v@)[j as int] == b@);
                        assert(distinct_values(slots, i as nat).contains(b@));
                    },
                    None => {
                        if values.len() as u64 == 0x1_0000_0000u64 {
                            proof {
                                assert(distinct_values(slots, (i + 1) as nat) == distinct_values(slots, i as nat).push(b@));
                                lemma_distinct_values_grow(slots, (i + 1) as nat, from@.len());
                            }
                            return Err(CastError::KeyOverflow);
                        }
                        let k = values.len() as u32;
                        values.push(b.clone());
                        keys.push(Some(k));
                        assert(values@.map_values(|v: Vec<u8>| v@) =~= before.map_values(|v: Vec<u8>| v@).push(b@));
                    },
                }
            },
        }
        i = i + 1;
    }
    Ok(DictionaryArray { keys, values })
}

/// Packs the UTF-8 bytes of the strings of `from` into a dictionary; fails
/// when there are more than 2^32 distinct strings.
pub fn utf8view_to_dictionary(from: &Utf8ViewArray) -> (res: Result<DictionaryArray, CastError>)
    ensures
        res.is_err() <==> distinct_values(utf8_slots(from@), from@.len()).len() > 0x1_0000_0000,
        res matches Ok(d) ==> packs(d, utf8_slots(from@)),
{
    let view = to_binview(from);
    assert forall|i: int| 0 <= i < from@.len() implies #[trigger] binary_slots(view@)[i] == utf8_slots(from@)[i] by {
        match from@[i] {
            Some(s) => {},
            None => {},
        }
    }
    assert(binary_slots(view@) =~= utf8_slots(from@));
    binview_to_dictionary(&view)
}

} // verus!
