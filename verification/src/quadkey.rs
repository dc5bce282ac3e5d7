//! The Web Mercator quadkey: the normalised spatial key every service's tiles
//! are projected into.

use vstd::arithmetic::div_mod::*;
use vstd::arithmetic::power2::*;
use vstd::bits::*;
use vstd::prelude::*;

use core::cmp::Ordering;

use crate::error::Error;
use crate::sorted_map::text_lt;
use crate::text::{chars_of, lemma_ascii_bytes, lemma_bytes_at_least_chars, push_char};

verus! {

// ---------------------------------------------------------------------------
// The model: a quadkey is a sequence of digits 0..=3, shallowest first.
// ---------------------------------------------------------------------------

/// Four to the `k`.
pub open spec fn pow4(k: nat) -> nat {
    pow2(2 * k)
}

/// The `level` digits held in the low `2 * level` bits of `bits`, most
/// significant first.
pub open spec fn digits_of(bits: nat, level: nat) -> Seq<u8>
    decreases level,
{
    if level == 0 {
        Seq::empty()
    } else {
        digits_of(bits / 4, (level - 1) as nat).push((bits % 4) as u8)
    }
}

/// The number a digit sequence spells in base four.
pub open spec fn value_of(d: Seq<u8>) -> nat
    decreases d.len(),
{
    if d.len() == 0 {
        0
    } else {
        value_of(d.drop_last()) * 4 + d.last() as nat
    }
}

/// Every element is a quadkey digit.
pub open spec fn all_digits(d: Seq<u8>) -> bool {
    forall|i: int| 0 <= i < d.len() ==> #[trigger] d[i] < 4
}

/// A digit sequence a quadkey can hold: at most thirty-two digits.
pub open spec fn is_quadkey(d: Seq<u8>) -> bool {
    d.len() <= 32 && all_digits(d)
}

/// The digit a Web Mercator tile contributes at the level `shift` steps above
/// its own: its column's bit there, plus twice its row's.
pub open spec fn tile_digit(x: nat, y: nat, shift: nat) -> u8 {
    ((x / pow2(shift)) % 2 + 2 * ((y / pow2(shift)) % 2)) as u8
}

/// The quadkey digits of tile `(level, x, y)`, shallowest first.
pub open spec fn tile_digits(level: nat, x: nat, y: nat) -> Seq<u8> {
    Seq::new(level, |i: int| tile_digit(x, y, (level - 1 - i) as nat))
}

/// The column a digit sequence addresses.
pub open spec fn x_of(d: Seq<u8>) -> nat
    decreases d.len(),
{
    if d.len() == 0 {
        0
    } else {
        x_of(d.drop_last()) * 2 + (d.last() % 2) as nat
    }
}

/// The row a digit sequence addresses, counted from the north.
pub open spec fn y_of(d: Seq<u8>) -> nat
    decreases d.len(),
{
    if d.len() == 0 {
        0
    } else {
        y_of(d.drop_last()) * 2 + ((d.last() / 2) % 2) as nat
    }
}

/// `d` cut back to `level` digits, or `d` itself if it is no deeper.
pub open spec fn truncated(d: Seq<u8>, level: nat) -> Seq<u8> {
    if level < d.len() {
        d.take(level as int)
    } else {
        d
    }
}

/// `p` is `s` or an ancestor of it.
pub open spec fn is_prefix(p: Seq<u8>, s: Seq<u8>) -> bool {
    p.len() <= s.len() && s.take(p.len() as int) == p
}

/// A character a quadkey can be written with.
pub open spec fn is_digit_char(c: char) -> bool {
    '0' <= c <= '3'
}

/// The character a digit is written as.
pub open spec fn digit_char(d: u8) -> char {
    if d == 0 {
        '0'
    } else if d == 1 {
        '1'
    } else if d == 2 {
        '2'
    } else {
        '3'
    }
}

/// The digit a quadkey character stands for.
pub open spec fn char_digit(c: char) -> u8 {
    if c == '0' {
        0
    } else if c == '1' {
        1
    } else if c == '2' {
        2
    } else {
        3
    }
}

/// How a quadkey is written: its digits, shallowest first.
pub open spec fn quadkey_text(d: Seq<u8>) -> Seq<char> {
    d.map_values(|x: u8| digit_char(x))
}

/// The first character that is not a quadkey digit, if any.
pub open spec fn first_non_digit(s: Seq<char>) -> Option<char>
    decreases s.len(),
{
    if s.len() == 0 {
        None
    } else {
        match first_non_digit(s.drop_last()) {
            Some(c) => Some(c),
            None => if is_digit_char(s.last()) {
                None
            } else {
                Some(s.last())
            },
        }
    }
}

/// What reading `s`, which is `byte_len` bytes long, as a quadkey gives.
///
/// The length is checked first and in bytes, as the string's own length is;
/// then each character must be a digit.
pub open spec fn read_quadkey(s: Seq<char>, byte_len: nat) -> Result<Seq<u8>, Error> {
    if byte_len > 255 {
        Err(Error::LevelTooDeep { level: 255, max: 32 })
    } else if byte_len > 32 {
        Err(Error::LevelTooDeep { level: byte_len as u8, max: 32 })
    } else {
        match first_non_digit(s) {
            Some(c) => Err(Error::NotADigit { found: c }),
            None => Ok(s.map_values(|c: char| char_digit(c))),
        }
    }
}

/// Position of the first digit where `a` and `b` differ, or the shorter length.
pub open spec fn common_prefix_len(a: Seq<u8>, b: Seq<u8>) -> nat
    decreases a.len(),
{
    if a.len() == 0 || b.len() == 0 || a[0] != b[0] {
        0
    } else {
        1 + common_prefix_len(a.drop_first(), b.drop_first())
    }
}

/// `a` reads before `b`: at the first digit they differ `a`'s is smaller, or
/// `a` runs out first.
pub open spec fn lex_lt(a: Seq<u8>, b: Seq<u8>) -> bool {
    let k = common_prefix_len(a, b);
    if k < a.len() && k < b.len() {
        a[k as int] < b[k as int]
    } else {
        a.len() < b.len()
    }
}

// ---------------------------------------------------------------------------
// Facts about the model.
// ---------------------------------------------------------------------------

proof fn lemma_pow4_step(k: nat)
    ensures
        pow4(k + 1) == pow4(k) * 4,
        pow4(k) > 0,
{
    lemma_pow2_adds(2 * k, 2);
    lemma2_to64();
    lemma_pow2_pos(2 * k);
}

proof fn lemma_pow4_mono(a: nat, b: nat)
    requires
        a <= b,
    ensures
        pow4(a) <= pow4(b),
    decreases b - a,
{
    lemma_pow4_step(a);
    if a < b {
        lemma_pow4_mono(a + 1, b);
    }
}

proof fn lemma_digits_of_shape(bits: nat, level: nat)
    ensures
        digits_of(bits, level).len() == level,
        all_digits(digits_of(bits, level)),
    decreases level,
{
    if level > 0 {
        lemma_digits_of_shape(bits / 4, (level - 1) as nat);
        let d = digits_of(bits, level);
        assert forall|i: int| 0 <= i < d.len() implies #[trigger] d[i] < 4 by {
            if i < level - 1 {
                assert(d[i] == digits_of(bits / 4, (level - 1) as nat)[i]);
            }
        }
    }
}

/// A value below `4^level` is spelled back by its digits.
proof fn lemma_value_of_digits(bits: nat, level: nat)
    requires
        bits < pow4(level),
    ensures
        value_of(digits_of(bits, level)) == bits,
    decreases level,
{
    if level > 0 {
        lemma_pow4_step((level - 1) as nat);
        lemma_digits_of_shape(bits, level);
        let d = digits_of(bits, level);
        assert(d.drop_last() =~= digits_of(bits / 4, (level - 1) as nat));
        lemma_value_of_digits(bits / 4, (level - 1) as nat);
    } else {
        lemma_pow4_step(0);
        lemma2_to64();
    }
}

/// Digits are spelled back by their value, which stays below `4^len`.
proof fn lemma_digits_of_value(d: Seq<u8>)
    requires
        all_digits(d),
    ensures
        digits_of(value_of(d), d.len()) =~= d,
        value_of(d) < pow4(d.len()),
    decreases d.len(),
{
    if d.len() == 0 {
        lemma_pow4_step(0);
        lemma2_to64();
    } else {
        let p = d.drop_last();
        assert(all_digits(p)) by {
            assert forall|i: int| 0 <= i < p.len() implies #[trigger] p[i] < 4 by {
                assert(p[i] == d[i]);
            }
        }
        lemma_digits_of_value(p);
        assert(d.last() < 4) by {
            assert(d[d.len() - 1] < 4);
        }
        let v = value_of(d);
        assert(v / 4 == value_of(p));
        assert(v % 4 == d.last());
        lemma_pow4_step(p.len());
        assert(d =~= p.push(d.last()));
    }
}

/// Two values below `4^level` with the same digits are the same value.
proof fn lemma_digits_injective(a: nat, b: nat, level: nat)
    requires
        a < pow4(level),
        b < pow4(level),
        digits_of(a, level) == digits_of(b, level),
    ensures
        a == b,
{
    lemma_value_of_digits(a, level);
    lemma_value_of_digits(b, level);
}

/// Dividing by `4^k` drops the last `k` digits.
proof fn lemma_digits_of_div(bits: nat, level: nat, k: nat)
    requires
        k <= level,
    ensures
        digits_of(bits / pow4(k), (level - k) as nat) =~= digits_of(bits, level).take(
            (level - k) as int,
        ),
    decreases k,
{
    lemma_digits_of_shape(bits, level);
    if k == 0 {
        lemma2_to64();
        assert(pow4(0) == 1);
        assert(bits / pow4(k) == bits);
    } else {
        lemma_digits_of_div(bits / 4, (level - 1) as nat, (k - 1) as nat);
        lemma_pow4_step((k - 1) as nat);
        lemma_pow2_pos(2 * (k - 1) as nat);
        lemma_div_denominator(bits as int, 4, pow4((k - 1) as nat) as int);
        assert(pow4(k) == 4 * pow4((k - 1) as nat));
        assert((bits / 4) / pow4((k - 1) as nat) == bits / pow4(k));
        lemma_digits_of_shape(bits / 4, (level - 1) as nat);
        let whole = digits_of(bits, level);
        assert(whole == digits_of(bits / 4, (level - 1) as nat).push((bits % 4) as u8));
        assert(whole.take((level - k) as int) =~= digits_of(bits / 4, (level - 1) as nat).take(
            ((level - 1) - (k - 1)) as int,
        ));
    }
}

/// A value below `4^level` divided by `4^k` is below `4^(level - k)`.
proof fn lemma_div_bound(bits: nat, level: nat, k: nat)
    requires
        k <= level,
        bits < pow4(level),
    ensures
        bits / pow4(k) < pow4((level - k) as nat),
{
    lemma_pow2_adds(2 * ((level - k) as nat), 2 * k);
    lemma_pow2_pos(2 * k);
    lemma_pow2_pos(2 * ((level - k) as nat));
    assert(pow4(level) == pow4((level - k) as nat) * pow4(k));
    vstd::arithmetic::mul::lemma_mul_is_commutative(pow4((level - k) as nat) as int, pow4(k) as int);
    lemma_multiply_divide_lt(bits as int, pow4(k) as int, pow4((level - k) as nat) as int);
}

/// The column of a prefix is the column divided down to that level.
proof fn lemma_x_of_tile_digits(level: nat, x: nat, y: nat, k: nat)
    requires
        k <= level,
        x < pow2(level),
        y < pow2(level),
    ensures
        x_of(tile_digits(level, x, y).take(k as int)) == x / pow2((level - k) as nat),
        y_of(tile_digits(level, x, y).take(k as int)) == y / pow2((level - k) as nat),
    decreases k,
{
    let d = tile_digits(level, x, y);
    let s = (level - k) as nat;
    if k == 0 {
        lemma_pow2_pos(level);
        lemma_small_div_converse_nat(x, pow2(level));
        lemma_small_div_converse_nat(y, pow2(level));
        assert(d.take(0).len() == 0);
    } else {
        lemma_x_of_tile_digits(level, x, y, (k - 1) as nat);
        let t = d.take(k as int);
        assert(t.drop_last() =~= d.take(k - 1));
        assert(t.last() == tile_digit(x, y, s));
        lemma_pow2_pos(s);
        lemma_pow2_adds(s, 1);
        lemma2_to64();
        lemma_div_denominator(x as int, pow2(s) as int, 2);
        lemma_div_denominator(y as int, pow2(s) as int, 2);
        lemma_fundamental_div_mod((x / pow2(s)) as int, 2);
        lemma_fundamental_div_mod((y / pow2(s)) as int, 2);
    }
}

proof fn lemma_small_div_converse_nat(x: nat, d: nat)
    requires
        x < d,
    ensures
        x / d == 0,
{
    lemma_basic_div(x as int, d as int);
}

// ---------------------------------------------------------------------------
// The quadkey itself.
// ---------------------------------------------------------------------------

/// A Web Mercator quadkey: the normalised spatial key every service's tiles
/// are projected into.
///
/// Held as a level and a bit pattern rather than a string, two bits per level,
/// most significant first. The digits are the same either way; this way a
/// prefix test is a shift and a comparison.
#[derive(Debug, Clone, Copy, PartialEq, Eq, Hash, Structural)]
pub struct Quadkey {
    level: u8,
    bits: u64,
}

impl View for Quadkey {
    type V = Seq<u8>;

    /// The digits, shallowest first.
    closed spec fn view(&self) -> Seq<u8> {
        digits_of(self.bits as nat, self.level as nat)
    }
}

/// The value below `4^32` that a level of up to thirty-two digits occupies
/// fits the sixty-four bits it is held in.
proof fn lemma_pow4_bounds(level: nat)
    requires
        level <= 32,
    ensures
        pow4(level) <= pow4(32),
        pow4(32) == 0x1_0000_0000_0000_0000,
        level <= 31 ==> pow4(level) <= 0x4000_0000_0000_0000,
{
    lemma_pow4_mono(level, 32);
    lemma2_to64();
    lemma2_to64_rest();
    if level <= 31 {
        lemma_pow4_mono(level, 31);
    }
}

impl Quadkey {
    /// Two bits per level in a `u64`.
    pub const MAX_LEVEL: u8 = 32;

    #[verifier::type_invariant]
    spec fn well_formed(self) -> bool {
        self.level <= 32 && (self.bits as nat) < pow4(self.level as nat)
    }

    proof fn lemma_view(self)
        requires
            self.well_formed(),
        ensures
            self@.len() == self.level,
            is_quadkey(self@),
            value_of(self@) == self.bits,
    {
        lemma_digits_of_shape(self.bits as nat, self.level as nat);
        lemma_value_of_digits(self.bits as nat, self.level as nat);
    }

    /// The whole world: the zero-length quadkey.
    pub fn root() -> (res: Quadkey)
        ensures
            res@ == Seq::<u8>::empty(),
    {
        proof {
            lemma2_to64();
        }
        Quadkey { level: 0, bits: 0 }
    }

    /// From a Web Mercator tile, y counted from the north.
    pub fn from_tile(level: u8, x: u32, y: u32) -> (res: Result<Quadkey, Error>)
        ensures
            level > 32 ==> res == Err::<Quadkey, Error>(Error::LevelTooDeep { level, max: 32 }),
            level <= 32 && (x >= pow2(level as nat) || y >= pow2(level as nat)) ==> res
                == Err::<Quadkey, Error>(
                Error::OutOfGrid {
                    level,
                    x,
                    y,
                    columns: pow2(level as nat) as u64,
                    rows: pow2(level as nat) as u64,
                },
            ),
            level <= 32 && x < pow2(level as nat) && y < pow2(level as nat) ==> (res matches Ok(q)
                && q@ == tile_digits(level as nat, x as nat, y as nat)),
    {
        Self::check_level(level)?;
        proof {
            lemma_u64_pow2_no_overflow(level as nat);
            lemma_u64_shl_is_mul(1, level as u64);
        }
        let side = 1u64 << (level as u64);
        if (x as u64) >= side || (y as u64) >= side {
            return Err(Error::OutOfGrid { level, x, y, columns: side, rows: side });
        }
        let ghost digits = tile_digits(level as nat, x as nat, y as nat);
        proof {
            lemma2_to64();
            assert(digits.take(0).len() == 0);
        }
        let mut bits: u64 = 0;
        let mut i: u8 = 0;
        while i < level
            invariant
                i <= level <= 32,
                (x as nat) < pow2(level as nat),
                (y as nat) < pow2(level as nat),
                digits == tile_digits(level as nat, x as nat, y as nat),
                bits as nat == value_of(digits.take(i as int)),
                (bits as nat) < pow4(i as nat),
            decreases level - i,
        {
            let shift = level - 1 - i;
            let xs = x >> (shift as u32);
            let ys = y >> (shift as u32);
            let digit = (xs & 1) | ((ys & 1) << 1u32);
            proof {
                lemma_u32_shr_is_div(x, shift as u32);
                lemma_u32_shr_is_div(y, shift as u32);
                assert(digit == xs % 2 + 2 * (ys % 2)) by (bit_vector)
                    requires
                        digit == (xs & 1) | ((ys & 1) << 1u32),
                ;
                assert(digit == digits[i as int]);
                lemma_pow4_bounds(i as nat);
                lemma_pow4_step(i as nat);
                let b = bits;
                let d = digit as u64;
                assert(b < 0x4000_0000_0000_0000u64 && d < 4 ==> (b << 2u64) | d == b * 4 + d)
                    by (bit_vector);
                assert(digits.take(i + 1).drop_last() =~= digits.take(i as int));
            }
            bits = (bits << 2u64) | (digit as u64);
            i = i + 1;
        }
        proof {
            assert(digits.take(level as int) =~= digits);
            assert(all_digits(digits));
            lemma_digits_of_value(digits);
        }
        Ok(Quadkey { level, bits })
    }

    fn check_level(level: u8) -> (res: Result<(), Error>)
        ensures
            level <= 32 <==> res is Ok,
            level > 32 ==> res == Err::<(), Error>(Error::LevelTooDeep { level, max: 32 }),
    {
        if level > Self::MAX_LEVEL {
            return Err(Error::LevelTooDeep { level, max: Self::MAX_LEVEL });
        }
        Ok(())
    }

    /// The Web Mercator tile this addresses, as `(level, x, y)`.
    pub fn tile(&self) -> (res: (u8, u32, u32))
        ensures
            res.0 as nat == self@.len(),
            res.1 as nat == x_of(self@),
            res.2 as nat == y_of(self@),
    {
        proof {
            use_type_invariant(self);
            self.lemma_view();
            lemma2_to64();
            assert(self@.take(0).len() == 0);
        }
        let mut x: u32 = 0;
        let mut y: u32 = 0;
        let mut i: u8 = 0;
        while i < self.level
            invariant
                i <= self.level <= 32,
                self.well_formed(),
                is_quadkey(self@),
                self@.len() == self.level,
                x as nat == x_of(self@.take(i as int)),
                y as nat == y_of(self@.take(i as int)),
                (x as nat) < pow2(i as nat),
                (y as nat) < pow2(i as nat),
            decreases self.level - i,
        {
            let digit = self.digit(i);
            proof {
                lemma_pow2_adds(i as nat, 1);
                lemma2_to64();
                lemma_pow2_mono_local(i as nat, 31);
                let xo = x;
                let yo = y;
                let dg = digit;
                assert(xo < 0x8000_0000u32 ==> (xo << 1u32) | ((dg & 1) as u32) == xo * 2 + dg % 2)
                    by (bit_vector);
                assert(yo < 0x8000_0000u32 ==> (yo << 1u32) | (((dg >> 1u8) & 1) as u32) == yo * 2
                    + (dg / 2) % 2) by (bit_vector);
                assert(self@.take(i + 1).drop_last() =~= self@.take(i as int));
            }
            x = (x << 1u32) | ((digit & 1) as u32);
            y = (y << 1u32) | (((digit >> 1u8) & 1) as u32);
            i = i + 1;
        }
        proof {
            assert(self@.take(self.level as int) =~= self@);
        }
        (self.level, x, y)
    }

    /// How many digits deep this is. Every digit of a quadkey is below four.
    pub fn level(&self) -> (res: u8)
        ensures
            res as nat == self@.len(),
            res <= 32,
            is_quadkey(self@),
    {
        proof {
            use_type_invariant(self);
            self.lemma_view();
        }
        self.level
    }

    /// Whether this is the whole world.
    pub fn is_root(&self) -> (res: bool)
        ensures
            res == (self@.len() == 0),
    {
        proof {
            use_type_invariant(self);
            self.lemma_view();
        }
        self.level == 0
    }

    /// The digit at `i`, counting from the shallowest.
    pub fn digit(&self, i: u8) -> (res: u8)
        requires
            (i as nat) < self@.len(),
        ensures
            res == self@[i as int],
            res < 4,
    {
        proof {
            use_type_invariant(self);
            self.lemma_view();
        }
        let shift = 2 * (self.level - 1 - i);
        let shifted = self.bits >> (shift as u64);
        proof {
            let k = (self.level - 1 - i) as nat;
            lemma_u64_shr_is_div(self.bits, shift as u64);
            lemma_digits_of_div(self.bits as nat, self.level as nat, k);
            let t = digits_of((self.bits as nat) / pow4(k), (i + 1) as nat);
            assert(t.last() == ((self.bits as nat) / pow4(k)) % 4);
            assert(t.last() == self@.take(i + 1)[i as int]);
            assert(shifted & 3 == shifted % 4) by (bit_vector);
        }
        (shifted & 3) as u8
    }

    /// This quadkey cut back to `level`, or unchanged if it is already
    /// shallower. Cutting to zero gives the root.
    pub fn truncate(&self, level: u8) -> (res: Quadkey)
        ensures
            res@ == truncated(self@, level as nat),
    {
        proof {
            use_type_invariant(self);
            self.lemma_view();
        }
        if level >= self.level {
            return *self;
        }
        let steps = self.level - level;
        let bits = if steps >= 32 {
            0
        } else {
            self.bits >> ((2 * steps) as u64)
        };
        proof {
            let k = steps as nat;
            lemma_digits_of_div(self.bits as nat, self.level as nat, k);
            lemma_div_bound(self.bits as nat, self.level as nat, k);
            if steps >= 32 {
                lemma_pow4_bounds(32);
                lemma_small_div_converse_nat(self.bits as nat, pow4(k));
            } else {
                lemma_u64_shr_is_div(self.bits, (2 * steps) as u64);
            }
        }
        Quadkey { level, bits }
    }

    /// The eight-character form the digest aggregates by.
    pub fn qk8(&self) -> (res: Quadkey)
        ensures
            res@ == truncated(self@, 8),
    {
        self.truncate(8)
    }

    /// The tile one level up, or `None` at the root.
    pub fn parent(&self) -> (res: Option<Quadkey>)
        ensures
            self@.len() == 0 ==> res is None,
            self@.len() > 0 ==> (res matches Some(p) && p@ == self@.drop_last()),
    {
        proof {
            use_type_invariant(self);
            self.lemma_view();
        }
        if self.is_root() {
            None
        } else {
            let p = self.truncate(self.level - 1);
            proof {
                assert(self@.take(self.level - 1) =~= self@.drop_last());
            }
            Some(p)
        }
    }

    /// Every ancestor, shallowest first, starting at the root and stopping
    /// short of this quadkey itself.
    pub fn ancestors(&self) -> (res: Vec<Quadkey>)
        ensures
            res@.len() == self@.len(),
            forall|i: int| 0 <= i < res@.len() ==> #[trigger] res@[i]@ == self@.take(i),
    {
        proof {
            use_type_invariant(self);
            self.lemma_view();
        }
        let mut res: Vec<Quadkey> = Vec::new();
        let mut level: u8 = 0;
        while level < self.level
            invariant
                level <= self.level,
                self@.len() == self.level,
                res@.len() == level,
                forall|i: int| 0 <= i < res@.len() ==> #[trigger] res@[i]@ == self@.take(i),
            decreases self.level - level,
        {
            res.push(self.truncate(level));
            level = level + 1;
        }
        res
    }

    /// Whether `prefix` is this quadkey or an ancestor of it.
    pub fn starts_with(&self, prefix: &Quadkey) -> (res: bool)
        ensures
            res == is_prefix(prefix@, self@),
    {
        proof {
            use_type_invariant(self);
            use_type_invariant(prefix);
            self.lemma_view();
            prefix.lemma_view();
        }
        if prefix.level > self.level {
            return false;
        }
        let cut = self.truncate(prefix.level);
        proof {
            use_type_invariant(&cut);
            cut.lemma_view();
            if cut.bits != prefix.bits && cut@ == prefix@ {
                lemma_digits_injective(cut.bits as nat, prefix.bits as nat, prefix.level as nat);
            }
            assert(prefix.level as nat == self@.len() ==> self@.take(prefix.level as int) =~= self@);
        }
        cut.bits == prefix.bits
    }
}

/// Where two digit sequences first differ.
proof fn lemma_common_prefix_len(a: Seq<u8>, b: Seq<u8>, i: nat)
    requires
        i <= a.len(),
        i <= b.len(),
        a.take(i as int) == b.take(i as int),
        i == a.len() || i == b.len() || a[i as int] != b[i as int],
    ensures
        common_prefix_len(a, b) == i,
    decreases i,
{
    if i > 0 {
        assert(a[0] == a.take(i as int)[0]);
        assert(b[0] == b.take(i as int)[0]);
        assert(a.drop_first().take(i - 1) =~= a.take(i as int).drop_first());
        assert(b.drop_first().take(i - 1) =~= b.take(i as int).drop_first());
        lemma_common_prefix_len(a.drop_first(), b.drop_first(), (i - 1) as nat);
    }
}

proof fn lemma_first_non_digit_prefix(s: Seq<char>, i: int)
    requires
        0 <= i < s.len(),
        first_non_digit(s.take(i)) is None,
    ensures
        first_non_digit(s.take(i + 1)) == (if is_digit_char(s[i]) {
            None::<char>
        } else {
            Some(s[i])
        }),
{
    assert(s.take(i + 1).drop_last() =~= s.take(i));
}

proof fn lemma_first_non_digit_extends(s: Seq<char>, i: int)
    requires
        0 <= i <= s.len(),
        first_non_digit(s.take(i)) is Some,
    ensures
        first_non_digit(s) == first_non_digit(s.take(i)),
    decreases s.len() - i,
{
    if i < s.len() {
        assert(s.take(i + 1).drop_last() =~= s.take(i));
        lemma_first_non_digit_extends(s, i + 1);
    } else {
        assert(s.take(i) =~= s);
    }
}

impl Quadkey {
    /// The quadkey written out, shallowest digit first.
    pub fn to_string(&self) -> (res: String)
        ensures
            res@ == quadkey_text(self@),
    {
        let level = self.level();
        let mut out = String::new();
        let mut i: u8 = 0;
        while i < level
            invariant
                i <= level,
                level as nat == self@.len(),
                out@ == quadkey_text(self@.take(i as int)),
            decreases level - i,
        {
            let d = self.digit(i);
            let c = if d == 0 {
                '0'
            } else if d == 1 {
                '1'
            } else if d == 2 {
                '2'
            } else {
                '3'
            };
            push_char(&mut out, c);
            proof {
                assert(quadkey_text(self@.take(i + 1)) =~= quadkey_text(self@.take(i as int)).push(
                    c,
                ));
            }
            i = i + 1;
        }
        proof {
            assert(self@.take(level as int) =~= self@);
        }
        out
    }

    /// Reads a quadkey from its written form.
    pub fn from_str(s: &str) -> (res: Result<Quadkey, Error>)
        ensures
            match res {
                Ok(q) => read_quadkey(s@, vstd::utf8::encode_utf8(s@).len()) == Ok::<Seq<u8>, Error>(q@),
                Err(e) => read_quadkey(s@, vstd::utf8::encode_utf8(s@).len()) == Err::<Seq<u8>, Error>(e),
            },
    {
        let len = s.as_bytes().len();
        if len > 255 {
            return Err(Error::LevelTooDeep { level: 255, max: Self::MAX_LEVEL });
        }
        let level = len as u8;
        if let Err(e) = Self::check_level(level) {
            return Err(e);
        }
        let chars = chars_of(s);
        proof {
            lemma_bytes_at_least_chars(s@);
            lemma2_to64();
            assert(chars@.take(0) =~= Seq::<char>::empty());
        }
        let ghost digits = chars@.map_values(|c: char| char_digit(c));
        let mut bits: u64 = 0;
        let mut i: usize = 0;
        while i < chars.len()
            invariant
                i <= chars@.len() <= 32,
                chars@ == s@,
                len as nat == vstd::utf8::encode_utf8(s@).len(),
                len <= 32,
                level == len,
                digits == chars@.map_values(|c: char| char_digit(c)),
                first_non_digit(chars@.take(i as int)) is None,
                bits as nat == value_of(digits.take(i as int)),
                (bits as nat) < pow4(i as nat),
                forall|j: int| 0 <= j < i ==> #[trigger] is_digit_char(chars@[j]),
            decreases chars.len() - i,
        {
            let c = chars[i];
            let digit: u64 = if c == '0' {
                0
            } else if c == '1' {
                1
            } else if c == '2' {
                2
            } else if c == '3' {
                3
            } else {
                proof {
                    assert(!is_digit_char(c));
                    lemma_first_non_digit_prefix(chars@, i as int);
                    assert(first_non_digit(chars@.take(i + 1)) == Some(c));
                    lemma_first_non_digit_extends(chars@, i + 1);
                    assert(first_non_digit(s@) == Some(c));
                }
                return Err(Error::NotADigit { found: c });
            };
            proof {
                lemma_first_non_digit_prefix(chars@, i as int);
                lemma_pow4_bounds(i as nat);
                lemma_pow4_step(i as nat);
                let b = bits;
                assert(b < 0x4000_0000_0000_0000u64 && digit < 4 ==> (b << 2u64) | digit == b * 4
                    + digit) by (bit_vector);
                assert(digits.take(i + 1).drop_last() =~= digits.take(i as int));
            }
            bits = (bits << 2u64) | digit;
            i = i + 1;
        }
        proof {
            assert(chars@.take(i as int) =~= chars@);
            assert(digits.take(i as int) =~= digits);
            assert forall|j: int| 0 <= j < s@.len() implies '\0' <= #[trigger] s@[j] <= '\u{7f}' by {
                assert(is_digit_char(chars@[j]));
            }
            assert(vstd::utf8::is_ascii_chars(s@));
            lemma_ascii_bytes(s@);
            assert(all_digits(digits)) by {
                assert forall|j: int| 0 <= j < digits.len() implies #[trigger] digits[j] < 4 by {}
            }
            lemma_digits_of_value(digits);
        }
        Ok(Quadkey { level, bits })
    }

    /// How this quadkey sorts against `other`: the order the written forms
    /// read in, so that sorting quadkeys and sorting their text agree.
    pub fn compare(&self, other: &Quadkey) -> (res: Ordering)
        ensures
            (res == Ordering::Less) == lex_lt(self@, other@),
            (res == Ordering::Equal) == (self@ == other@),
            (res == Ordering::Greater) == lex_lt(other@, self@),
    {
        let a = self.level();
        let b = other.level();
        let common = if a < b {
            a
        } else {
            b
        };
        let mut i: u8 = 0;
        proof {
            lemma_agree_start(self@, other@);
        }
        while i < common
            invariant
                i <= common,
                common <= a,
                common <= b,
                a == self@.len(),
                b == other@.len(),
                common == a || common == b,
                agree_upto(self@, other@, i),
            decreases common - i,
        {
            let x = self.digit(i);
            let y = other.digit(i);
            if x != y {
                proof {
                    lemma_compare_differs(self@, other@, i);
                }
                if x < y {
                    return Ordering::Less;
                } else {
                    return Ordering::Greater;
                }
            }
            proof {
                lemma_agree_step(self@, other@, i);
            }
            i = i + 1;
        }
        proof {
            lemma_compare_end(self@, other@, i);
        }
        if a < b {
            Ordering::Less
        } else if a > b {
            Ordering::Greater
        } else {
            Ordering::Equal
        }
    }
}

/// The first `i` digits of `a` and `b` are the same.
pub open spec fn agree_upto(a: Seq<u8>, b: Seq<u8>, i: u8) -> bool {
    i <= a.len() && i <= b.len() && a.take(i as int) == b.take(i as int)
}

proof fn lemma_agree_start(a: Seq<u8>, b: Seq<u8>)
    ensures
        agree_upto(a, b, 0),
{
    assert(a.take(0) =~= b.take(0));
}

proof fn lemma_agree_step(a: Seq<u8>, b: Seq<u8>, i: u8)
    requires
        agree_upto(a, b, i),
        i < 255,
        (i as nat) < a.len(),
        (i as nat) < b.len(),
        a[i as int] == b[i as int],
    ensures
        agree_upto(a, b, (i + 1) as u8),
{
    assert(a.take(i + 1) =~= a.take(i as int).push(a[i as int]));
    assert(b.take(i + 1) =~= b.take(i as int).push(b[i as int]));
}

proof fn lemma_compare_differs(a: Seq<u8>, b: Seq<u8>, i: u8)
    requires
        agree_upto(a, b, i),
        (i as nat) < a.len(),
        (i as nat) < b.len(),
        a[i as int] != b[i as int],
    ensures
        lex_lt(a, b) == (a[i as int] < b[i as int]),
        lex_lt(b, a) == (b[i as int] < a[i as int]),
        a != b,
{
    lemma_common_prefix_len(a, b, i as nat);
    lemma_common_prefix_len(b, a, i as nat);
}

proof fn lemma_compare_end(a: Seq<u8>, b: Seq<u8>, i: u8)
    requires
        agree_upto(a, b, i),
        i == a.len() || i == b.len(),
    ensures
        lex_lt(a, b) == (a.len() < b.len()),
        lex_lt(b, a) == (b.len() < a.len()),
        (a == b) == (a.len() == b.len()),
{
    lemma_common_prefix_len(a, b, i as nat);
    lemma_common_prefix_len(b, a, i as nat);
    if a.len() == b.len() {
        assert(a.take(i as int) =~= a);
        assert(b.take(i as int) =~= b);
    }
}

proof fn lemma_pow2_mono_local(a: nat, b: nat)
    requires
        a <= b,
    ensures
        pow2(a) <= pow2(b),
{
    if a < b {
        lemma_pow2_strictly_increases(a, b);
    }
}

// ---------------------------------------------------------------------------
// Laws.
// ---------------------------------------------------------------------------

/// A Web Mercator tile and its quadkey are the same thing: the digits made
/// from a tile in the grid read back as that tile's column and row.
pub proof fn law_tile_of_from_tile(level: nat, x: nat, y: nat)
    requires
        level <= 32,
        x < pow2(level),
        y < pow2(level),
    ensures
        is_quadkey(tile_digits(level, x, y)),
        tile_digits(level, x, y).len() == level,
        x_of(tile_digits(level, x, y)) == x,
        y_of(tile_digits(level, x, y)) == y,
{
    let d = tile_digits(level, x, y);
    lemma_x_of_tile_digits(level, x, y, level);
    assert(d.take(level as int) =~= d);
    lemma2_to64();
    assert forall|i: int| 0 <= i < d.len() implies #[trigger] d[i] < 4 by {}
}

/// Dropping the last `k` digits divides the column and row by `2^k`.
proof fn lemma_x_of_div(d: Seq<u8>, k: nat)
    requires
        k <= d.len(),
    ensures
        x_of(d) / pow2(k) == x_of(d.take(d.len() - k)),
        y_of(d) / pow2(k) == y_of(d.take(d.len() - k)),
        x_of(d) < pow2(d.len()),
        y_of(d) < pow2(d.len()),
    decreases d.len(),
{
    lemma2_to64();
    if d.len() == 0 {
        assert(d.take(0) =~= d);
    } else {
        let p = d.drop_last();
        lemma_pow2_adds(p.len(), 1);
        lemma_pow2_pos(p.len());
        if k == 0 {
            lemma_x_of_div(p, 0);
            assert(d.take(d.len() as int) =~= d);
        } else {
            lemma_x_of_div(p, (k - 1) as nat);
            lemma_pow2_adds((k - 1) as nat, 1);
            lemma_pow2_pos((k - 1) as nat);
            lemma_div_denominator(x_of(d) as int, 2, pow2((k - 1) as nat) as int);
            lemma_div_denominator(y_of(d) as int, 2, pow2((k - 1) as nat) as int);
            assert(x_of(d) / 2 == x_of(p));
            assert(y_of(d) / 2 == y_of(p));
            assert(p.take(p.len() - (k - 1)) =~= d.take(d.len() - k));
        }
    }
}

/// Every quadkey is a tile's: the column and row its digits address are in
/// the grid at its level, and make the same digits again.
pub proof fn law_from_tile_of_tile(d: Seq<u8>)
    requires
        is_quadkey(d),
    ensures
        x_of(d) < pow2(d.len()),
        y_of(d) < pow2(d.len()),
        tile_digits(d.len(), x_of(d), y_of(d)) == d,
{
    lemma_x_of_div(d, 0);
    let t = tile_digits(d.len(), x_of(d), y_of(d));
    assert forall|i: int| 0 <= i < d.len() implies #[trigger] t[i] == d[i] by {
        let k = (d.len() - 1 - i) as nat;
        lemma_x_of_div(d, k);
        let pre = d.take(i + 1);
        assert(pre.last() == d[i]);
        assert(pre.drop_last().len() == i);
        assert(d[i] < 4);
    }
    assert(t =~= d);
}

/// A quadkey is inside every cell it truncates to.
pub proof fn law_truncation_is_an_ancestor(d: Seq<u8>, level: nat)
    ensures
        is_prefix(truncated(d, level), d),
        truncated(d, level).len() == if level < d.len() {
            level
        } else {
            d.len()
        },
{
    assert(d.take(d.len() as int) =~= d);
}

proof fn lemma_digits_are_not_non_digits(s: Seq<char>)
    requires
        forall|i: int| 0 <= i < s.len() ==> is_digit_char(#[trigger] s[i]),
    ensures
        first_non_digit(s) is None,
    decreases s.len(),
{
    if s.len() > 0 {
        let p = s.drop_last();
        assert forall|i: int| 0 <= i < p.len() implies is_digit_char(#[trigger] p[i]) by {
            assert(p[i] == s[i]);
        }
        lemma_digits_are_not_non_digits(p);
        assert(is_digit_char(s[s.len() - 1]));
    }
}

/// Writing a quadkey out and reading it back gives the same quadkey.
pub proof fn law_text_round_trip(d: Seq<u8>)
    requires
        is_quadkey(d),
    ensures
        read_quadkey(quadkey_text(d), vstd::utf8::encode_utf8(quadkey_text(d)).len()) == Ok::<
            Seq<u8>,
            Error,
        >(d),
{
    let t = quadkey_text(d);
    assert forall|i: int| 0 <= i < t.len() implies is_digit_char(#[trigger] t[i]) by {
        assert(d[i] < 4);
    }
    assert forall|i: int| 0 <= i < t.len() implies '\0' <= #[trigger] t[i] <= '\u{7f}' by {
        assert(is_digit_char(t[i]));
    }
    lemma_ascii_bytes(t);
    lemma_digits_are_not_non_digits(t);
    let back = t.map_values(|c: char| char_digit(c));
    assert forall|i: int| 0 <= i < d.len() implies #[trigger] back[i] == d[i] by {
        assert(d[i] < 4);
    }
    assert(back =~= d);
}

/// Quadkeys sort as their written forms do: comparing two quadkeys and
/// comparing their text always agree, so a quadkey sorts before the quadkeys
/// it is a prefix of.
pub proof fn law_order_is_the_written_order(a: Seq<u8>, b: Seq<u8>)
    requires
        all_digits(a),
        all_digits(b),
    ensures
        lex_lt(a, b) == text_lt(quadkey_text(a), quadkey_text(b)),
    decreases a.len(),
{
    let ta = quadkey_text(a);
    let tb = quadkey_text(b);
    if a.len() > 0 && b.len() > 0 {
        assert(ta[0] == digit_char(a[0]));
        assert(tb[0] == digit_char(b[0]));
        assert(a[0] < 4 && b[0] < 4);
        if a[0] == b[0] {
            let ra = a.drop_first();
            let rb = b.drop_first();
            assert(all_digits(ra)) by {
                assert forall|j: int| 0 <= j < ra.len() implies #[trigger] ra[j] < 4 by {
                    assert(ra[j] == a[j + 1]);
                }
            }
            assert(all_digits(rb)) by {
                assert forall|j: int| 0 <= j < rb.len() implies #[trigger] rb[j] < 4 by {
                    assert(rb[j] == b[j + 1]);
                }
            }
            law_order_is_the_written_order(ra, rb);
            assert(ta.drop_first() =~= quadkey_text(ra));
            assert(tb.drop_first() =~= quadkey_text(rb));
            let k = common_prefix_len(ra, rb);
            assert(common_prefix_len(a, b) == k + 1);
            if k < ra.len() && k < rb.len() {
                assert(a[k + 1int] == ra[k as int]);
                assert(b[k + 1int] == rb[k as int]);
            }
        }
    }
}

proof fn lemma_prefix_agrees(a: Seq<u8>, b: Seq<u8>)
    requires
        is_prefix(a, b),
    ensures
        common_prefix_len(a, b) == a.len(),
    decreases a.len(),
{
    if a.len() > 0 {
        assert(a[0] == b.take(a.len() as int)[0]);
        assert(b.drop_first().take(a.len() - 1) =~= b.take(a.len() as int).drop_first());
        assert(a.drop_first() =~= b.take(a.len() as int).drop_first());
        lemma_prefix_agrees(a.drop_first(), b.drop_first());
    }
}

/// A quadkey sorts before the quadkeys it is a prefix of, so that an ancestor
/// precedes its descendants wherever nothing else tells them apart.
pub proof fn law_an_ancestor_sorts_first(ancestor: Seq<u8>, descendant: Seq<u8>)
    requires
        is_prefix(ancestor, descendant),
        ancestor.len() < descendant.len(),
    ensures
        lex_lt(ancestor, descendant),
        !lex_lt(descendant, ancestor),
{
    lemma_prefix_agrees(ancestor, descendant);
    lemma_common_prefix_symmetric(ancestor, descendant);
}

proof fn lemma_common_prefix_symmetric(a: Seq<u8>, b: Seq<u8>)
    ensures
        common_prefix_len(a, b) == common_prefix_len(b, a),
    decreases a.len(),
{
    if a.len() > 0 && b.len() > 0 && a[0] == b[0] {
        lemma_common_prefix_symmetric(a.drop_first(), b.drop_first());
    }
}

} // verus!
