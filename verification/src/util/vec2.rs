use vstd::prelude::*;
use vstd::std_specs::convert::FromSpec;
use vstd::std_specs::convert::FromSpecImpl;
use vstd::std_specs::convert::TryFromSpecImpl;
use vstd::std_specs::ops::AddSpecImpl;
use vstd::std_specs::ops::MulSpecImpl;
use vstd::std_specs::ops::SubSpecImpl;
use vstd::string::StringExecFns;

verus! {

/// A two-dimensional vector with one component per axis.
#[derive(Copy, Clone, Debug, Default, PartialEq, Eq, Hash)]
pub struct Vec2<T> {
    pub x: T,
    pub y: T,
}

/// A vector with signed components: offsets and unchecked positions.
pub type Vec2i = Vec2<i32>;

/// A vector with unsigned components: positions on a map.
pub type Vec2u = Vec2<u16>;

/// Whether an integer fits in an `i32`.
pub open spec fn fits_i32(v: int) -> bool {
    i32::MIN <= v <= i32::MAX
}

/// Whether an integer fits in a `u16`.
pub open spec fn fits_u16(v: int) -> bool {
    0 <= v <= u16::MAX
}

impl<T> Vec2<T> {
    /// Builds a vector from its two components.
    pub fn new(x: T, y: T) -> (r: Self)
        ensures
            r.x == x,
            r.y == y,
    {
        Self { x, y }
    }
}

impl Vec2<i32> {
    /// The unit step towards smaller `x`.
    pub fn left() -> (r: Self)
        ensures
            r.x == -1,
            r.y == 0,
    {
        Self { x: -1, y: 0 }
    }

    /// The unit step towards larger `x`.
    pub fn right() -> (r: Self)
        ensures
            r.x == 1,
            r.y == 0,
    {
        Self { x: 1, y: 0 }
    }

    /// The unit step towards smaller `y` (up on screen).
    pub fn up() -> (r: Self)
        ensures
            r.x == 0,
            r.y == -1,
    {
        Self { x: 0, y: -1 }
    }

    /// The unit step towards larger `y` (down on screen).
    pub fn down() -> (r: Self)
        ensures
            r.x == 0,
            r.y == 1,
    {
        Self { x: 0, y: 1 }
    }
}

// ---------------------------------------------------------------------------
// Arithmetic between vectors of the same kind.
// ---------------------------------------------------------------------------

impl core::ops::Add for Vec2<i32> {
    type Output = Vec2<i32>;

    fn add(self, other: Vec2<i32>) -> (r: Vec2<i32>) {
        Vec2 { x: self.x + other.x, y: self.y + other.y }
    }
}

impl AddSpecImpl for Vec2<i32> {
    open spec fn obeys_add_spec() -> bool {
        true
    }

    open spec fn add_req(self, rhs: Vec2<i32>) -> bool {
        fits_i32(self.x + rhs.x) && fits_i32(self.y + rhs.y)
    }

    open spec fn add_spec(self, rhs: Vec2<i32>) -> Vec2<i32> {
        Vec2 { x: (self.x + rhs.x) as i32, y: (self.y + rhs.y) as i32 }
    }
}

impl core::ops::Sub for Vec2<i32> {
    type Output = Vec2<i32>;

    fn sub(self, other: Vec2<i32>) -> (r: Vec2<i32>) {
        Vec2 { x: self.x - other.x, y: self.y - other.y }
    }
}

impl SubSpecImpl for Vec2<i32> {
    open spec fn obeys_sub_spec() -> bool {
        true
    }

    open spec fn sub_req(self, rhs: Vec2<i32>) -> bool {
        fits_i32(self.x - rhs.x) && fits_i32(self.y - rhs.y)
    }

    open spec fn sub_spec(self, rhs: Vec2<i32>) -> Vec2<i32> {
        Vec2 { x: (self.x - rhs.x) as i32, y: (self.y - rhs.y) as i32 }
    }
}

impl core::ops::Mul<i32> for Vec2<i32> {
    type Output = Vec2<i32>;

    fn mul(self, other: i32) -> (r: Vec2<i32>) {
        Vec2 { x: self.x * other, y: self.y * other }
    }
}

impl MulSpecImpl<i32> for Vec2<i32> {
    open spec fn obeys_mul_spec() -> bool {
        true
    }

    open spec fn mul_req(self, rhs: i32) -> bool {
        fits_i32(self.x * rhs) && fits_i32(self.y * rhs)
    }

    open spec fn mul_spec(self, rhs: i32) -> Vec2<i32> {
        Vec2 { x: (self.x * rhs) as i32, y: (self.y * rhs) as i32 }
    }
}

impl core::ops::Add for Vec2<u16> {
    type Output = Vec2<u16>;

    fn add(self, other: Vec2<u16>) -> (r: Vec2<u16>) {
        Vec2 { x: self.x + other.x, y: self.y + other.y }
    }
}

impl AddSpecImpl for Vec2<u16> {
    open spec fn obeys_add_spec() -> bool {
        true
    }

    open spec fn add_req(self, rhs: Vec2<u16>) -> bool {
        fits_u16(self.x + rhs.x) && fits_u16(self.y + rhs.y)
    }

    open spec fn add_spec(self, rhs: Vec2<u16>) -> Vec2<u16> {
        Vec2 { x: (self.x + rhs.x) as u16, y: (self.y + rhs.y) as u16 }
    }
}

impl core::ops::Sub for Vec2<u16> {
    type Output = Vec2<u16>;

    fn sub(self, other: Vec2<u16>) -> (r: Vec2<u16>) {
        Vec2 { x: self.x - other.x, y: self.y - other.y }
    }
}

impl SubSpecImpl for Vec2<u16> {
    open spec fn obeys_sub_spec() -> bool {
        true
    }

    open spec fn sub_req(self, rhs: Vec2<u16>) -> bool {
        fits_u16(self.x - rhs.x) && fits_u16(self.y - rhs.y)
    }

    open spec fn sub_spec(self, rhs: Vec2<u16>) -> Vec2<u16> {
        Vec2 { x: (self.x - rhs.x) as u16, y: (self.y - rhs.y) as u16 }
    }
}

impl core::ops::Mul<u16> for Vec2<u16> {
    type Output = Vec2<u16>;

    fn mul(self, other: u16) -> (r: Vec2<u16>) {
        Vec2 { x: self.x * other, y: self.y * other }
    }
}

impl MulSpecImpl<u16> for Vec2<u16> {
    open spec fn obeys_mul_spec() -> bool {
        true
    }

    open spec fn mul_req(self, rhs: u16) -> bool {
        fits_u16(self.x * rhs) && fits_u16(self.y * rhs)
    }

    open spec fn mul_spec(self, rhs: u16) -> Vec2<u16> {
        Vec2 { x: (self.x * rhs) as u16, y: (self.y * rhs) as u16 }
    }
}

impl core::ops::AddAssign for Vec2<i32> {
    fn add_assign(&mut self, other: Vec2<i32>)
        requires
            fits_i32(old(self).x + other.x),
            fits_i32(old(self).y + other.y),
        ensures
            final(self).x == old(self).x + other.x,
            final(self).y == old(self).y + other.y,
    {
        self.x += other.x;
        self.y += other.y;
    }
}

impl core::ops::SubAssign for Vec2<i32> {
    fn sub_assign(&mut self, other: Vec2<i32>)
        requires
            fits_i32(old(self).x - other.x),
            fits_i32(old(self).y - other.y),
        ensures
            final(self).x == old(self).x - other.x,
            final(self).y == old(self).y - other.y,
    {
        self.x -= other.x;
        self.y -= other.y;
    }
}

impl core::ops::AddAssign for Vec2<u16> {
    fn add_assign(&mut self, other: Vec2<u16>)
        requires
            fits_u16(old(self).x + other.x),
            fits_u16(old(self).y + other.y),
        ensures
            final(self).x == old(self).x + other.x,
            final(self).y == old(self).y + other.y,
    {
        self.x += other.x;
        self.y += other.y;
    }
}

impl core::ops::SubAssign for Vec2<u16> {
    fn sub_assign(&mut self, other: Vec2<u16>)
        requires
            fits_u16(old(self).x - other.x),
            fits_u16(old(self).y - other.y),
        ensures
            final(self).x == old(self).x - other.x,
            final(self).y == old(self).y - other.y,
    {
        self.x -= other.x;
        self.y -= other.y;
    }
}

// ---------------------------------------------------------------------------
// Conversions between the signed and the unsigned vectors.
// ---------------------------------------------------------------------------

impl From<Vec2<u16>> for Vec2<i32> {
    fn from(v: Vec2<u16>) -> (r: Vec2<i32>) {
        Vec2 { x: v.x as i32, y: v.y as i32 }
    }
}

impl FromSpecImpl<Vec2<u16>> for Vec2<i32> {
    open spec fn obeys_from_spec() -> bool {
        true
    }

    open spec fn from_spec(v: Vec2<u16>) -> Vec2<i32> {
        Vec2 { x: v.x as i32, y: v.y as i32 }
    }
}

/// What converting a signed vector to an unsigned one gives: the error for a
/// negative component first, then the one for a component above `u16::MAX`.
pub open spec fn unsigned_from_signed(v: Vec2<i32>) -> Result<Vec2<u16>, &'static str> {
    if v.x < 0 || v.y < 0 {
        Err("negative component cannot be converted to u16")
    } else if v.x > u16::MAX || v.y > u16::MAX {
        Err("component overflow when converting to u16")
    } else {
        Ok(Vec2 { x: v.x as u16, y: v.y as u16 })
    }
}

impl TryFrom<Vec2<i32>> for Vec2<u16> {
    type Error = &'static str;

    fn try_from(v: Vec2<i32>) -> (r: Result<Vec2<u16>, &'static str>) {
        if v.x < 0 || v.y < 0 {
            return Err("negative component cannot be converted to u16");
        }
        if v.x > 65535 || v.y > 65535 {
            return Err("component overflow when converting to u16");
        }
        Ok(Vec2 { x: v.x as u16, y: v.y as u16 })
    }
}

impl TryFromSpecImpl<Vec2<i32>> for Vec2<u16> {
    open spec fn obeys_try_from_spec() -> bool {
        true
    }

    open spec fn try_from_spec(v: Vec2<i32>) -> Result<Vec2<u16>, &'static str> {
        unsigned_from_signed(v)
    }
}

// ---------------------------------------------------------------------------
// Arithmetic between an unsigned and a signed vector; the result is signed.
// ---------------------------------------------------------------------------

impl core::ops::Add<Vec2<i32>> for Vec2<u16> {
    type Output = Vec2<i32>;

    fn add(self, other: Vec2<i32>) -> (r: Vec2<i32>) {
        Vec2 { x: self.x as i32 + other.x, y: self.y as i32 + other.y }
    }
}

impl AddSpecImpl<Vec2<i32>> for Vec2<u16> {
    open spec fn obeys_add_spec() -> bool {
        true
    }

    open spec fn add_req(self, rhs: Vec2<i32>) -> bool {
        fits_i32(self.x + rhs.x) && fits_i32(self.y + rhs.y)
    }

    open spec fn add_spec(self, rhs: Vec2<i32>) -> Vec2<i32> {
        Vec2 { x: (self.x + rhs.x) as i32, y: (self.y + rhs.y) as i32 }
    }
}

impl core::ops::Add<Vec2<u16>> for Vec2<i32> {
    type Output = Vec2<i32>;

    fn add(self, other: Vec2<u16>) -> (r: Vec2<i32>) {
        Vec2 { x: self.x + other.x as i32, y: self.y + other.y as i32 }
    }
}

impl AddSpecImpl<Vec2<u16>> for Vec2<i32> {
    open spec fn obeys_add_spec() -> bool {
        true
    }

    open spec fn add_req(self, rhs: Vec2<u16>) -> bool {
        fits_i32(self.x + rhs.x) && fits_i32(self.y + rhs.y)
    }

    open spec fn add_spec(self, rhs: Vec2<u16>) -> Vec2<i32> {
        Vec2 { x: (self.x + rhs.x) as i32, y: (self.y + rhs.y) as i32 }
    }
}

impl core::ops::Sub<Vec2<i32>> for Vec2<u16> {
    type Output = Vec2<i32>;

    fn sub(self, other: Vec2<i32>) -> (r: Vec2<i32>) {
        Vec2 { x: self.x as i32 - other.x, y: self.y as i32 - other.y }
    }
}

impl SubSpecImpl<Vec2<i32>> for Vec2<u16> {
    open spec fn obeys_sub_spec() -> bool {
        true
    }

    open spec fn sub_req(self, rhs: Vec2<i32>) -> bool {
        fits_i32(self.x - rhs.x) && fits_i32(self.y - rhs.y)
    }

    open spec fn sub_spec(self, rhs: Vec2<i32>) -> Vec2<i32> {
        Vec2 { x: (self.x - rhs.x) as i32, y: (self.y - rhs.y) as i32 }
    }
}

impl core::ops::Sub<Vec2<u16>> for Vec2<i32> {
    type Output = Vec2<i32>;

    fn sub(self, other: Vec2<u16>) -> (r: Vec2<i32>) {
        Vec2 { x: self.x - other.x as i32, y: self.y - other.y as i32 }
    }
}

impl SubSpecImpl<Vec2<u16>> for Vec2<i32> {
    open spec fn obeys_sub_spec() -> bool {
        true
    }

    open spec fn sub_req(self, rhs: Vec2<u16>) -> bool {
        fits_i32(self.x - rhs.x) && fits_i32(self.y - rhs.y)
    }

    open spec fn sub_spec(self, rhs: Vec2<u16>) -> Vec2<i32> {
        Vec2 { x: (self.x - rhs.x) as i32, y: (self.y - rhs.y) as i32 }
    }
}

// ---------------------------------------------------------------------------
// Text.
// ---------------------------------------------------------------------------

/// The character of a decimal digit.
pub open spec fn digit_char(d: int) -> char {
    if d == 0 {
        '0'
    } else if d == 1 {
        '1'
    } else if d == 2 {
        '2'
    } else if d == 3 {
        '3'
    } else if d == 4 {
        '4'
    } else if d == 5 {
        '5'
    } else if d == 6 {
        '6'
    } else if d == 7 {
        '7'
    } else if d == 8 {
        '8'
    } else {
        '9'
    }
}

/// The decimal digits of a natural number, most significant first.
pub open spec fn decimal(n: nat) -> Seq<char>
    decreases n,
{
    if n < 10 {
        seq![digit_char(n as int)]
    } else {
        decimal(n / 10).push(digit_char((n % 10) as int))
    }
}

/// The decimal notation of an integer, with a minus sign when negative.
pub open spec fn signed_decimal(v: int) -> Seq<char> {
    if v < 0 {
        seq!['-'] + decimal((-v) as nat)
    } else {
        decimal(v as nat)
    }
}

/// The text of a vector: `Vec2(x, y)` with the components in decimal.
pub open spec fn vec2_text(x: int, y: int) -> Seq<char> {
    seq!['V', 'e', 'c', '2', '('] + signed_decimal(x) + seq![',', ' '] + signed_decimal(y) + seq![
        ')',
    ]
}

/// The text of one decimal digit.
fn digit_str(d: u64) -> (r: &'static str)
    requires
        d < 10,
    ensures
        r@ == seq![digit_char(d as int)],
{
    proof {
        reveal_strlit("0");
        reveal_strlit("1");
        reveal_strlit("2");
        reveal_strlit("3");
        reveal_strlit("4");
        reveal_strlit("5");
        reveal_strlit("6");
        reveal_strlit("7");
        reveal_strlit("8");
        reveal_strlit("9");
    }
    match d {
        0 => "0",
        1 => "1",
        2 => "2",
        3 => "3",
        4 => "4",
        5 => "5",
        6 => "6",
        7 => "7",
        8 => "8",
        _ => "9",
    }
}

/// Appends the decimal digits of `n`.
fn push_decimal(s: &mut String, n: u64)
    ensures
        final(s)@ == old(s)@ + decimal(n as nat),
    decreases n,
{
    if n >= 10 {
        push_decimal(s, n / 10);
    }
    s.append(digit_str(n % 10));
    assert(decimal(n as nat) == if n < 10 {
        seq![digit_char(n as int)]
    } else {
        decimal((n / 10) as nat).push(digit_char((n % 10) as int))
    });
}

/// Appends the decimal notation of `v`, with a minus sign when negative.
fn push_signed(s: &mut String, v: i64)
    requires
        v > i64::MIN,
    ensures
        final(s)@ == old(s)@ + signed_decimal(v as int),
{
    proof {
        reveal_strlit("-");
    }
    if v < 0 {
        s.append("-");
        push_decimal(s, (-v) as u64);
        assert(final(s)@ =~= old(s)@ + signed_decimal(v as int)) by {
            assert(s@ =~= old(s)@ + seq!['-'] + decimal((-v) as nat));
        };
    } else {
        push_decimal(s, v as u64);
    }
}

/// The text `Vec2(x, y)` of a pair of components.
fn vec2_string(x: i64, y: i64) -> (r: String)
    requires
        x > i64::MIN,
        y > i64::MIN,
    ensures
        r@ == vec2_text(x as int, y as int),
{
    proof {
        reveal_strlit("Vec2(");
        reveal_strlit(", ");
        reveal_strlit(")");
    }
    let mut s = String::from_str("Vec2(");
    push_signed(&mut s, x);
    s.append(", ");
    push_signed(&mut s, y);
    s.append(")");
    assert(s@ =~= vec2_text(x as int, y as int));
    s
}

impl Vec2<i32> {
    /// The text `Vec2(x, y)`, with the components in decimal.
    pub fn to_string(&self) -> (r: String)
        ensures
            r@ == vec2_text(self.x as int, self.y as int),
    {
        vec2_string(self.x as i64, self.y as i64)
    }
}

impl Vec2<u16> {
    /// The text `Vec2(x, y)`, with the components in decimal.
    pub fn to_string(&self) -> (r: String)
        ensures
            r@ == vec2_text(self.x as int, self.y as int),
    {
        vec2_string(self.x as i64, self.y as i64)
    }
}

/// Converting an unsigned vector to a signed one and back gives the same
/// vector.
pub proof fn lemma_signed_round_trip(v: Vec2<u16>)
    ensures
        unsigned_from_signed(<Vec2<i32> as FromSpec<Vec2<u16>>>::from_spec(v)) == Ok::<
            Vec2<u16>,
            &'static str,
        >(v),
{
}

} // verus!
