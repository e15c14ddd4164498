//! CQL values and column types, as plain data.
//!
//! Floating-point numbers are held as their IEEE 754 bit patterns. [`Val`] is
//! the mathematical value that a [`CqlValue`] stands for: contracts speak of it.

use vstd::arithmetic::power2::pow2;
use vstd::prelude::*;

verus! {

/// An internet address, by its octets.
#[derive(Debug, Clone, Copy)]
pub enum IpAddr {
    V4([u8; 4]),
    V6([u8; 16]),
}

impl View for IpAddr {
    type V = Seq<u8>;

    open spec fn view(&self) -> Seq<u8> {
        match self {
            IpAddr::V4(octets) => octets@,
            IpAddr::V6(octets) => octets@,
        }
    }
}

/// A CQL duration: three counts that are kept apart.
#[derive(Debug, Clone, Copy, PartialEq, Eq, Structural)]
pub struct CqlDuration {
    pub months: i32,
    pub days: i32,
    pub nanoseconds: i64,
}

/// A CQL value.
#[derive(Debug)]
pub enum CqlValue {
    Ascii(String),
    Boolean(bool),
    Blob(Vec<u8>),
    Counter(i64),
    /// The big-endian two's complement bytes of the unscaled number, and the scale.
    Decimal { mantissa: Vec<u8>, scale: i32 },
    /// Days, with 2^31 standing for 1970-01-01.
    Date(u32),
    /// The bit pattern of a double.
    Double(u64),
    Duration(CqlDuration),
    Empty,
    /// The bit pattern of a single-precision float.
    Float(u32),
    Int(i32),
    BigInt(i64),
    Text(String),
    /// Milliseconds since 1970-01-01.
    Timestamp(i64),
    Inet(IpAddr),
    List(Vec<CqlValue>),
    MapOf(Vec<(CqlValue, CqlValue)>),
    SetOf(Vec<CqlValue>),
    UserDefinedType { keyspace: String, name: String, fields: Vec<(String, Option<CqlValue>)> },
    SmallInt(i16),
    TinyInt(i8),
    /// Nanoseconds since midnight.
    Time(i64),
    Timeuuid([u8; 16]),
    Tuple(Vec<Option<CqlValue>>),
    Uuid([u8; 16]),
    /// The big-endian two's complement bytes of an integer.
    Varint(Vec<u8>),
    Vector(Vec<CqlValue>),
}

/// The mathematical value of a [`CqlValue`].
pub enum Val {
    Ascii(Seq<char>),
    Boolean(bool),
    Blob(Seq<u8>),
    Counter(i64),
    Decimal(Seq<u8>, i32),
    Date(u32),
    Double(u64),
    Duration(CqlDuration),
    Empty,
    Float(u32),
    Int(i32),
    BigInt(i64),
    Text(Seq<char>),
    Timestamp(i64),
    Inet(Seq<u8>),
    List(Seq<Val>),
    MapOf(Seq<(Val, Val)>),
    SetOf(Seq<Val>),
    Udt(Seq<char>, Seq<char>, Seq<(Seq<char>, Option<Val>)>),
    SmallInt(i16),
    TinyInt(i8),
    Time(i64),
    Timeuuid(Seq<u8>),
    Tuple(Seq<Option<Val>>),
    Uuid(Seq<u8>),
    Varint(Seq<u8>),
    Vector(Seq<Val>),
}

/// The value of an optional CQL value.
pub open spec fn opt_val(v: Option<CqlValue>) -> Option<Val>
    decreases v,
{
    match v {
        Some(x) => Some(x@),
        None => None,
    }
}

/// The values of a sequence of CQL values.
pub open spec fn vals(s: Seq<CqlValue>) -> Seq<Val>
    decreases s,
{
    Seq::new(
        s.len(),
        |i: int|
            if 0 <= i < s.len() {
                s[i]@
            } else {
                Val::Empty
            },
    )
}

/// The values of a sequence of optional CQL values.
pub open spec fn opt_vals(s: Seq<Option<CqlValue>>) -> Seq<Option<Val>>
    decreases s,
{
    Seq::new(
        s.len(),
        |i: int|
            if 0 <= i < s.len() {
                opt_val(s[i])
            } else {
                None
            },
    )
}

/// The values of the entries of a map.
pub open spec fn entry_vals(s: Seq<(CqlValue, CqlValue)>) -> Seq<(Val, Val)>
    decreases s,
{
    Seq::new(
        s.len(),
        |i: int|
            if 0 <= i < s.len() {
                (s[i].0@, s[i].1@)
            } else {
                (Val::Empty, Val::Empty)
            },
    )
}

/// The names and values of the fields of a user-defined type.
pub open spec fn field_vals(s: Seq<(String, Option<CqlValue>)>) -> Seq<(Seq<char>, Option<Val>)>
    decreases s,
{
    Seq::new(
        s.len(),
        |i: int|
            if 0 <= i < s.len() {
                (s[i].0@, opt_val(s[i].1))
            } else {
                (Seq::empty(), None)
            },
    )
}

impl View for CqlValue {
    type V = Val;

    open spec fn view(&self) -> Val
        decreases self,
    {
        match self {
            CqlValue::Ascii(s) => Val::Ascii(s@),
            CqlValue::Boolean(b) => Val::Boolean(*b),
            CqlValue::Blob(v) => Val::Blob(v@),
            CqlValue::Counter(n) => Val::Counter(*n),
            CqlValue::Decimal { mantissa, scale } => Val::Decimal(mantissa@, *scale),
            CqlValue::Date(n) => Val::Date(*n),
            CqlValue::Double(n) => Val::Double(*n),
            CqlValue::Duration(d) => Val::Duration(*d),
            CqlValue::Empty => Val::Empty,
            CqlValue::Float(n) => Val::Float(*n),
            CqlValue::Int(n) => Val::Int(*n),
            CqlValue::BigInt(n) => Val::BigInt(*n),
            CqlValue::Text(s) => Val::Text(s@),
            CqlValue::Timestamp(n) => Val::Timestamp(*n),
            CqlValue::Inet(a) => Val::Inet(a@),
            CqlValue::List(v) => Val::List(vals(v@)),
            CqlValue::MapOf(v) => Val::MapOf(entry_vals(v@)),
            CqlValue::SetOf(v) => Val::SetOf(vals(v@)),
            CqlValue::UserDefinedType { keyspace, name, fields } => Val::Udt(
                keyspace@,
                name@,
                field_vals(fields@),
            ),
            CqlValue::SmallInt(n) => Val::SmallInt(*n),
            CqlValue::TinyInt(n) => Val::TinyInt(*n),
            CqlValue::Time(n) => Val::Time(*n),
            CqlValue::Timeuuid(b) => Val::Timeuuid(b@),
            CqlValue::Tuple(v) => Val::Tuple(opt_vals(v@)),
            CqlValue::Uuid(b) => Val::Uuid(b@),
            CqlValue::Varint(v) => Val::Varint(v@),
            CqlValue::Vector(v) => Val::Vector(vals(v@)),
        }
    }
}

/// The scalar column types.
#[derive(Debug, Clone, Copy, PartialEq, Eq, Structural)]
pub enum NativeType {
    Ascii,
    Boolean,
    Blob,
    Counter,
    Date,
    Decimal,
    Double,
    Duration,
    Float,
    Int,
    BigInt,
    Text,
    Timestamp,
    Inet,
    SmallInt,
    TinyInt,
    Time,
    Timeuuid,
    Uuid,
    Varint,
}

/// The type of a column or of a bind variable.
#[derive(Debug)]
pub enum ColumnType {
    Native(NativeType),
    List(Box<ColumnType>),
    MapOf(Box<ColumnType>, Box<ColumnType>),
    SetOf(Box<ColumnType>),
    Vector { typ: Box<ColumnType>, dimensions: u16 },
    UserDefinedType(UdtDefinition),
    Tuple(Vec<ColumnType>),
    /// A type that has no code on the wire.
    Other,
}

/// The schema of a user-defined type.
#[derive(Debug)]
pub struct UdtDefinition {
    pub keyspace: String,
    pub name: String,
    pub field_types: Vec<(String, ColumnType)>,
}

/// A consistency level.
#[derive(Debug, Clone, Copy, PartialEq, Eq, Structural)]
pub enum Consistency {
    Any,
    One,
    Two,
    Three,
    Quorum,
    All,
    LocalQuorum,
    EachQuorum,
    LocalOne,
    Serial,
    LocalSerial,
}

/// A consistency level of the Paxos phase of a conditional statement.
#[derive(Debug, Clone, Copy, PartialEq, Eq, Structural)]
pub enum SerialConsistency {
    Serial,
    LocalSerial,
}

impl SerialConsistency {
    /// The level's name.
    pub open spec fn label(self) -> Seq<char> {
        match self {
            SerialConsistency::Serial => "Serial"@,
            SerialConsistency::LocalSerial => "LocalSerial"@,
        }
    }

    /// The level's name.
    pub fn name(self) -> (r: &'static str)
        ensures
            r@ == self.label(),
    {
        match self {
            SerialConsistency::Serial => "Serial",
            SerialConsistency::LocalSerial => "LocalSerial",
        }
    }
}

impl Consistency {
    /// The level's name.
    pub open spec fn label(self) -> Seq<char> {
        match self {
            Consistency::Any => "Any"@,
            Consistency::One => "One"@,
            Consistency::Two => "Two"@,
            Consistency::Three => "Three"@,
            Consistency::Quorum => "Quorum"@,
            Consistency::All => "All"@,
            Consistency::LocalQuorum => "LocalQuorum"@,
            Consistency::EachQuorum => "EachQuorum"@,
            Consistency::Serial => "Serial"@,
            Consistency::LocalSerial => "LocalSerial"@,
            Consistency::LocalOne => "LocalOne"@,
        }
    }

    /// The level's name.
    pub fn name(self) -> (r: &'static str)
        ensures
            r@ == self.label(),
    {
        match self {
            Consistency::Any => "Any",
            Consistency::One => "One",
            Consistency::Two => "Two",
            Consistency::Three => "Three",
            Consistency::Quorum => "Quorum",
            Consistency::All => "All",
            Consistency::LocalQuorum => "LocalQuorum",
            Consistency::EachQuorum => "EachQuorum",
            Consistency::Serial => "Serial",
            Consistency::LocalSerial => "LocalSerial",
            Consistency::LocalOne => "LocalOne",
        }
    }

    /// The level's number on the wire.
    pub open spec fn code(self) -> u16 {
        match self {
            Consistency::Any => 0x0000,
            Consistency::One => 0x0001,
            Consistency::Two => 0x0002,
            Consistency::Three => 0x0003,
            Consistency::Quorum => 0x0004,
            Consistency::All => 0x0005,
            Consistency::LocalQuorum => 0x0006,
            Consistency::EachQuorum => 0x0007,
            Consistency::Serial => 0x0008,
            Consistency::LocalSerial => 0x0009,
            Consistency::LocalOne => 0x000A,
        }
    }

    /// The level that a number on the wire stands for; an unknown number stands for `One`.
    pub open spec fn of_code(code: u16) -> Consistency {
        if code == 0x0000 {
            Consistency::Any
        } else if code == 0x0002 {
            Consistency::Two
        } else if code == 0x0003 {
            Consistency::Three
        } else if code == 0x0004 {
            Consistency::Quorum
        } else if code == 0x0005 {
            Consistency::All
        } else if code == 0x0006 {
            Consistency::LocalQuorum
        } else if code == 0x0007 {
            Consistency::EachQuorum
        } else if code == 0x0008 {
            Consistency::Serial
        } else if code == 0x0009 {
            Consistency::LocalSerial
        } else if code == 0x000A {
            Consistency::LocalOne
        } else {
            Consistency::One
        }
    }

    /// The level's number on the wire.
    pub fn as_u16(self) -> (code: u16)
        ensures
            code == self.code(),
    {
        match self {
            Consistency::Any => 0x0000,
            Consistency::One => 0x0001,
            Consistency::Two => 0x0002,
            Consistency::Three => 0x0003,
            Consistency::Quorum => 0x0004,
            Consistency::All => 0x0005,
            Consistency::LocalQuorum => 0x0006,
            Consistency::EachQuorum => 0x0007,
            Consistency::Serial => 0x0008,
            Consistency::LocalSerial => 0x0009,
            Consistency::LocalOne => 0x000A,
        }
    }

    /// The level that a number on the wire stands for, with `One` for an unknown number.
    pub fn from_u16_or_one(code: u16) -> (level: Consistency)
        ensures
            level == Consistency::of_code(code),
    {
        match code {
            0x0000 => Consistency::Any,
            0x0001 => Consistency::One,
            0x0002 => Consistency::Two,
            0x0003 => Consistency::Three,
            0x0004 => Consistency::Quorum,
            0x0005 => Consistency::All,
            0x0006 => Consistency::LocalQuorum,
            0x0007 => Consistency::EachQuorum,
            0x0008 => Consistency::Serial,
            0x0009 => Consistency::LocalSerial,
            0x000A => Consistency::LocalOne,
            _ => Consistency::One,
        }
    }
}

/// Every consistency level survives the wire.
pub proof fn law_consistency_round_trip(level: Consistency)
    ensures
        Consistency::of_code(level.code()) == level,
{
}

/// `n / 2^k`, rounded to the nearest integer, a tie going to the even one.
pub open spec fn round_half_even(n: nat, k: nat) -> nat {
    let quotient = n / pow2(k);
    let remainder = n % pow2(k);
    if 2 * remainder > pow2(k) || (2 * remainder == pow2(k) && quotient % 2 == 1) {
        quotient + 1
    } else {
        quotient
    }
}

/// The bits, without the sign, of the single-precision float nearest to the
/// double with the biased exponent `e` and the fraction `m`. A magnitude beyond
/// the single-precision range gives infinity; a NaN gives a quiet NaN with the
/// upper part of its fraction.
pub open spec fn narrow_magnitude(e: nat, m: nat) -> nat {
    let significand = 0x10_0000_0000_0000 + m;
    if e == 0x7FF {
        if m == 0 {
            0x7F80_0000
        } else if m / 0x2000_0000 >= 0x40_0000 {
            0x7F80_0000 + m / 0x2000_0000
        } else {
            0x7FC0_0000 + m / 0x2000_0000
        }
    } else if e >= 0x47F {
        0x7F80_0000
    } else if e > 0x380 {
        ((e - 0x381) * 0x80_0000 + round_half_even(significand, 29)) as nat
    } else if e > 0x368 {
        round_half_even(significand, (926 - e) as nat)
    } else {
        0
    }
}

/// The bits of the single-precision float that a double's bits convert to.
pub open spec fn narrow_spec(bits: u64) -> int {
    let sign = bits as int / 0x8000_0000_0000_0000;
    let e = (bits as int / 0x10_0000_0000_0000 % 0x800) as nat;
    let m = (bits as int % 0x10_0000_0000_0000) as nat;
    sign * 0x8000_0000 + narrow_magnitude(e, m)
}

/// Rounds `n / 2^k` half to even.
fn round_shift(n: u64, k: u64) -> (r: u64)
    requires
        0x10_0000_0000_0000 <= n < 0x20_0000_0000_0000,
        29 <= k <= 53,
    ensures
        r == round_half_even(n as nat, k as nat),
        k == 29 ==> 0x80_0000 <= r <= 0x100_0000,
        k > 29 ==> r <= 0x80_0000,
{
    proof {
        vstd::bits::lemma_u64_pow2_no_overflow(k as nat);
        vstd::bits::lemma_u64_shl_is_mul(1, k);
        vstd::arithmetic::power2::lemma2_to64();
        if k > 30 {
            vstd::arithmetic::power2::lemma_pow2_strictly_increases(30, k as nat);
        }
        if k < 53 {
            vstd::arithmetic::power2::lemma_pow2_strictly_increases(k as nat, 53);
        }
        assert(pow2(53) == 0x20_0000_0000_0000) by {
            vstd::arithmetic::power2::lemma2_to64_rest();
        }
    }
    let unit: u64 = 1u64 << k;
    assert(unit == pow2(k as nat));
    let quotient: u64 = n / unit;
    let remainder: u64 = n % unit;
    assert(k == 29 ==> unit == 0x2000_0000);
    assert(k == 29 ==> quotient == n / 0x2000_0000);
    assert(k > 29 ==> quotient < 0x80_0000) by (nonlinear_arith)
        requires
            quotient == n as int / (unit as int),
            n < 0x20_0000_0000_0000,
            k > 29 ==> unit >= 0x4000_0000,
    ;
    if 2 * remainder > unit || (2 * remainder == unit && quotient % 2 == 1) {
        quotient + 1
    } else {
        quotient
    }
}

/// Converts the bits of a double to those of the nearest single-precision float.
pub fn narrow(bits: u64) -> (r: u32)
    ensures
        r == narrow_spec(bits),
{
    let sign: u64 = bits / 0x8000_0000_0000_0000;
    let e: u64 = bits / 0x10_0000_0000_0000 % 0x800;
    let m: u64 = bits % 0x10_0000_0000_0000;
    let significand: u64 = 0x10_0000_0000_0000 + m;
    let magnitude: u64 = if e == 0x7FF {
        if m == 0 {
            0x7F80_0000
        } else if m / 0x2000_0000 >= 0x40_0000 {
            0x7F80_0000 + m / 0x2000_0000
        } else {
            0x7FC0_0000 + m / 0x2000_0000
        }
    } else if e >= 0x47F {
        0x7F80_0000
    } else if e > 0x380 {
        (e - 0x381) * 0x80_0000 + round_shift(significand, 29)
    } else if e > 0x368 {
        round_shift(significand, 926 - e)
    } else {
        0
    };
    (sign * 0x8000_0000 + magnitude) as u32
}

/// Pushing a value pushes what it stands for.
pub proof fn lemma_vals_push(s: Seq<CqlValue>, v: CqlValue)
    ensures
        vals(s.push(v)) == vals(s).push(v@),
        vals(Seq::empty()) == Seq::<Val>::empty(),
{
    assert(vals(s.push(v)) =~= vals(s).push(v@));
    assert(vals(Seq::empty()) =~= Seq::<Val>::empty());
}

/// Pushing an optional value pushes what it stands for.
pub proof fn lemma_opt_vals_push(s: Seq<Option<CqlValue>>, v: Option<CqlValue>)
    ensures
        opt_vals(s.push(v)) == opt_vals(s).push(opt_val(v)),
        opt_vals(Seq::empty()) == Seq::<Option<Val>>::empty(),
{
    assert(opt_vals(s.push(v)) =~= opt_vals(s).push(opt_val(v)));
    assert(opt_vals(Seq::empty()) =~= Seq::<Option<Val>>::empty());
}

/// Pushing an entry pushes what it stands for.
pub proof fn lemma_entry_vals_push(s: Seq<(CqlValue, CqlValue)>, v: (CqlValue, CqlValue))
    ensures
        entry_vals(s.push(v)) == entry_vals(s).push((v.0@, v.1@)),
        entry_vals(Seq::empty()) == Seq::<(Val, Val)>::empty(),
{
    assert(entry_vals(s.push(v)) =~= entry_vals(s).push((v.0@, v.1@)));
    assert(entry_vals(Seq::empty()) =~= Seq::<(Val, Val)>::empty());
}

/// Pushing a field pushes what it stands for.
pub proof fn lemma_field_vals_push(
    s: Seq<(String, Option<CqlValue>)>,
    v: (String, Option<CqlValue>),
)
    ensures
        field_vals(s.push(v)) == field_vals(s).push((v.0@, opt_val(v.1))),
        field_vals(Seq::empty()) == Seq::<(Seq<char>, Option<Val>)>::empty(),
{
    assert(field_vals(s.push(v)) =~= field_vals(s).push((v.0@, opt_val(v.1))));
    assert(field_vals(Seq::empty()) =~= Seq::<(Seq<char>, Option<Val>)>::empty());
}

/// Copies optional values.
fn copy_optional(v: &Option<CqlValue>) -> (r: Option<CqlValue>)
    ensures
        opt_val(r) == opt_val(*v),
    decreases v, 1int,
{
    match v {
        Some(x) => Some(x.copy()),
        None => None,
    }
}

/// Copies values.
pub fn copy_values(s: &Vec<CqlValue>) -> (r: Vec<CqlValue>)
    ensures
        vals(r@) == vals(s@),
    decreases s, 0int,
{
    let mut r: Vec<CqlValue> = Vec::new();
    let mut i: usize = 0;
    while i < s.len()
        invariant
            i <= s@.len(),
            r@.len() == i,
            forall|j: int| 0 <= j < i ==> (#[trigger] r@[j])@ == s@[j]@,
        decreases s@.len() - i,
    {
        r.push(s[i].copy());
        i = i + 1;
    }
    assert(vals(r@) =~= vals(s@));
    r
}

/// Copies the elements of a tuple.
fn copy_elements(s: &Vec<Option<CqlValue>>) -> (r: Vec<Option<CqlValue>>)
    ensures
        opt_vals(r@) == opt_vals(s@),
    decreases s, 0int,
{
    let mut r: Vec<Option<CqlValue>> = Vec::new();
    let mut i: usize = 0;
    while i < s.len()
        invariant
            i <= s@.len(),
            r@.len() == i,
            forall|j: int| 0 <= j < i ==> opt_val(#[trigger] r@[j]) == opt_val(s@[j]),
        decreases s@.len() - i,
    {
        r.push(copy_optional(&s[i]));
        i = i + 1;
    }
    assert(opt_vals(r@) =~= opt_vals(s@));
    r
}

/// Copies the entries of a map.
fn copy_entries(s: &Vec<(CqlValue, CqlValue)>) -> (r: Vec<(CqlValue, CqlValue)>)
    ensures
        entry_vals(r@) == entry_vals(s@),
    decreases s, 0int,
{
    let mut r: Vec<(CqlValue, CqlValue)> = Vec::new();
    let mut i: usize = 0;
    while i < s.len()
        invariant
            i <= s@.len(),
            r@.len() == i,
            forall|j: int|
                0 <= j < i ==> (#[trigger] r@[j]).0@ == s@[j].0@ && r@[j].1@ == s@[j].1@,
        decreases s@.len() - i,
    {
        proof {
            assert(decreases_to!(s => s@[i as int]));
        }
        r.push((s[i].0.copy(), s[i].1.copy()));
        i = i + 1;
    }
    assert(entry_vals(r@) =~= entry_vals(s@));
    r
}

/// Copies the fields of a user-defined type.
fn copy_fields(s: &Vec<(String, Option<CqlValue>)>) -> (r: Vec<(String, Option<CqlValue>)>)
    ensures
        field_vals(r@) == field_vals(s@),
    decreases s, 0int,
{
    let mut r: Vec<(String, Option<CqlValue>)> = Vec::new();
    let mut i: usize = 0;
    while i < s.len()
        invariant
            i <= s@.len(),
            r@.len() == i,
            forall|j: int|
                0 <= j < i ==> (#[trigger] r@[j]).0@ == s@[j].0@ && opt_val(r@[j].1) == opt_val(
                    s@[j].1,
                ),
        decreases s@.len() - i,
    {
        proof {
            assert(decreases_to!(s => s@[i as int]));
        }
        r.push((s[i].0.clone(), copy_optional(&s[i].1)));
        i = i + 1;
    }
    assert(field_vals(r@) =~= field_vals(s@));
    r
}

impl CqlValue {
    /// A copy of the value.
    pub fn copy(&self) -> (r: CqlValue)
        ensures
            r@ == self@,
        decreases self, 2int,
    {
        match self {
            CqlValue::Ascii(s) => CqlValue::Ascii(s.clone()),
            CqlValue::Boolean(b) => CqlValue::Boolean(*b),
            CqlValue::Blob(v) => CqlValue::Blob(vstd::slice::slice_to_vec(v.as_slice())),
            CqlValue::Counter(n) => CqlValue::Counter(*n),
            CqlValue::Decimal { mantissa, scale } => CqlValue::Decimal {
                mantissa: vstd::slice::slice_to_vec(mantissa.as_slice()),
                scale: *scale,
            },
            CqlValue::Date(n) => CqlValue::Date(*n),
            CqlValue::Double(n) => CqlValue::Double(*n),
            CqlValue::Duration(d) => CqlValue::Duration(*d),
            CqlValue::Empty => CqlValue::Empty,
            CqlValue::Float(n) => CqlValue::Float(*n),
            CqlValue::Int(n) => CqlValue::Int(*n),
            CqlValue::BigInt(n) => CqlValue::BigInt(*n),
            CqlValue::Text(s) => CqlValue::Text(s.clone()),
            CqlValue::Timestamp(n) => CqlValue::Timestamp(*n),
            CqlValue::Inet(a) => CqlValue::Inet(*a),
            CqlValue::List(v) => CqlValue::List(copy_values(v)),
            CqlValue::MapOf(v) => CqlValue::MapOf(copy_entries(v)),
            CqlValue::SetOf(v) => CqlValue::SetOf(copy_values(v)),
            CqlValue::UserDefinedType { keyspace, name, fields } => CqlValue::UserDefinedType {
                keyspace: keyspace.clone(),
                name: name.clone(),
                fields: copy_fields(fields),
            },
            CqlValue::SmallInt(n) => CqlValue::SmallInt(*n),
            CqlValue::TinyInt(n) => CqlValue::TinyInt(*n),
            CqlValue::Time(n) => CqlValue::Time(*n),
            CqlValue::Timeuuid(b) => CqlValue::Timeuuid(*b),
            CqlValue::Tuple(v) => CqlValue::Tuple(copy_elements(v)),
            CqlValue::Uuid(b) => CqlValue::Uuid(*b),
            CqlValue::Varint(v) => CqlValue::Varint(vstd::slice::slice_to_vec(v.as_slice())),
            CqlValue::Vector(v) => CqlValue::Vector(copy_values(v)),
        }
    }
}

/// A number of which a part is cut off becomes the nearest one, and of two
/// that are as near, the even one.
pub proof fn law_rounding_is_nearest(n: nat, k: nat)
    ensures
        2 * (round_half_even(n, k) * pow2(k) - n) <= pow2(k),
        2 * (n - round_half_even(n, k) * pow2(k)) <= pow2(k),
        (2 * (round_half_even(n, k) * pow2(k) - n) == pow2(k) || 2 * (n - round_half_even(n, k)
            * pow2(k)) == pow2(k)) ==> round_half_even(n, k) % 2 == 0,
{
    vstd::arithmetic::power2::lemma_pow2_pos(k);
    let p = pow2(k) as int;
    let q = n as int / p;
    let r = n as int % p;
    vstd::arithmetic::div_mod::lemma_fundamental_div_mod(n as int, p);
    assert(0 <= r < p);
    assert(p * q == q * p) by (nonlinear_arith);
    assert((q + 1) * p == q * p + p) by (nonlinear_arith);
    assert(n == q * p + r);
}

/// A number that the smaller format holds exactly keeps its sign, exponent
/// and digits.
pub proof fn law_exact_numbers_are_kept(sign: u64, e: u64, m: u64)
    requires
        sign <= 1,
        1 <= e <= 254,
        m < 0x80_0000,
    ensures
        narrow_spec(
            (sign * 0x8000_0000_0000_0000 + (e + 896) * 0x10_0000_0000_0000 + m * 0x2000_0000) as u64,
        ) == sign * 0x8000_0000 + e * 0x80_0000 + m,
{
    let bits = sign * 0x8000_0000_0000_0000 + (e + 896) * 0x10_0000_0000_0000 + m * 0x2000_0000;
    assert(bits <= u64::MAX);
    let big = (e + 896) as nat;
    let low = (m * 0x2000_0000) as nat;
    assert(bits / 0x8000_0000_0000_0000 == sign);
    assert(bits / 0x10_0000_0000_0000 == sign * 0x800 + big);
    assert((sign * 0x800 + big) % 0x800 == big);
    assert(bits % 0x10_0000_0000_0000 == low);
    assert(pow2(29) == 0x2000_0000) by {
        vstd::arithmetic::power2::lemma2_to64();
        vstd::arithmetic::power2::lemma2_to64_rest();
    }
    let significand = 0x10_0000_0000_0000 + low;
    assert(significand / 0x2000_0000 == 0x80_0000 + m);
    assert(significand % 0x2000_0000 == 0);
}

/// The sign of a number does not change its magnitude.
pub proof fn law_sign_is_kept(bits: u64)
    requires
        bits < 0x8000_0000_0000_0000,
    ensures
        narrow_spec((bits + 0x8000_0000_0000_0000) as u64) == narrow_spec(bits) + 0x8000_0000,
{
    let e = bits as int / 0x10_0000_0000_0000;
    assert((bits + 0x8000_0000_0000_0000) / 0x10_0000_0000_0000 == e + 0x800);
    assert((e + 0x800) % 0x800 == e % 0x800);
}

} // verus!
