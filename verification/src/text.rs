//! Text built and read one character at a time.

use vstd::prelude::*;

verus! {

/// Appends one character to a string.
///
/// Calls `String::push`, whose documentation says it appends the given
/// character to the end of the string; the contract says no more.
#[verifier::external_body]
pub(crate) fn push_char(s: &mut String, c: char)
    ensures
        final(s)@ == old(s)@.push(c),
{
    s.push(c);
}

/// Appends a whole string.
pub fn push_str(s: &mut String, t: &str)
    ensures
        final(s)@ == old(s)@ + t@,
{
    let ghost start = s@;
    for c in it: t.chars()
        invariant
            s@ == start + it.seq().take(it.index() as int),
    {
        push_char(s, c);
        proof {
            assert(s@ =~= start + it.seq().take(it.index() + 1));
        }
    }
}

/// Whether two strings hold the same characters.
pub fn str_eq(a: &str, b: &str) -> (res: bool)
    ensures
        res == (a@ == b@),
{
    let x = chars_of(a);
    let y = chars_of(b);
    if x.len() != y.len() {
        return false;
    }
    let mut i: usize = 0;
    while i < x.len()
        invariant
            i <= x@.len(),
            x@.len() == y@.len(),
            x@ == a@,
            y@ == b@,
            x@.take(i as int) == y@.take(i as int),
        decreases x.len() - i,
    {
        if x[i] != y[i] {
            return false;
        }
        proof {
            assert(x@.take(i + 1) =~= x@.take(i as int).push(x@[i as int]));
            assert(y@.take(i + 1) =~= y@.take(i as int).push(y@[i as int]));
        }
        i = i + 1;
    }
    proof {
        assert(x@.take(i as int) =~= x@);
        assert(y@.take(i as int) =~= y@);
    }
    true
}

/// `p` is how `s` begins.
pub open spec fn starts_with(s: Seq<char>, p: Seq<char>) -> bool {
    p.len() <= s.len() && s.take(p.len() as int) == p
}

/// `p` occurs in `s` starting at `i`.
pub open spec fn occurs_at(s: Seq<char>, p: Seq<char>, i: int) -> bool {
    0 <= i && i + p.len() <= s.len() && s.subrange(i, i + p.len()) == p
}

/// `p` occurs somewhere in `s`.
pub open spec fn contains(s: Seq<char>, p: Seq<char>) -> bool {
    exists|i: int| occurs_at(s, p, i)
}

/// `s` with every match of `pat`, taken left to right and without overlap,
/// replaced by `rep`: what `str::replace` does for a pattern that is not
/// empty.
pub open spec fn replace_all(s: Seq<char>, pat: Seq<char>, rep: Seq<char>) -> Seq<char>
    decreases s.len(),
{
    if pat.len() == 0 || s.len() < pat.len() {
        s
    } else if s.take(pat.len() as int) == pat {
        rep + replace_all(s.skip(pat.len() as int), pat, rep)
    } else {
        seq![s[0]] + replace_all(s.skip(1), pat, rep)
    }
}

/// Whether `p` occurs in `chars` at `i`.
fn matches_at(chars: &Vec<char>, p: &Vec<char>, i: usize) -> (res: bool)
    requires
        i <= chars@.len(),
    ensures
        res == (i + p@.len() <= chars@.len() && chars@.subrange(i as int, i + p@.len()) == p@),
{
    if p.len() > chars.len() - i {
        return false;
    }
    let mut k: usize = 0;
    while k < p.len()
        invariant
            k <= p@.len(),
            i + p@.len() <= chars@.len() <= usize::MAX,
            chars@.subrange(i as int, i + k) == p@.take(k as int),
        decreases p.len() - k,
    {
        if chars[i + k] != p[k] {
            proof {
                assert(chars@.subrange(i as int, i + p@.len())[k as int] == chars@[i + k]);
            }
            return false;
        }
        proof {
            assert(chars@.subrange(i as int, i + k + 1) =~= chars@.subrange(i as int, i + k).push(
                chars@[i + k],
            ));
            assert(p@.take(k + 1) =~= p@.take(k as int).push(p@[k as int]));
        }
        k = k + 1;
    }
    proof {
        assert(p@.take(k as int) =~= p@);
    }
    true
}

/// Whether `s` begins with `p`.
pub fn str_starts_with(s: &str, p: &str) -> (res: bool)
    ensures
        res == starts_with(s@, p@),
{
    let chars = chars_of(s);
    let pat = chars_of(p);
    let r = matches_at(&chars, &pat, 0);
    proof {
        assert(chars@.subrange(0, pat@.len() as int) =~= chars@.take(pat@.len() as int));
    }
    r
}

/// Whether `p` occurs anywhere in `s`.
pub fn str_contains(s: &str, p: &str) -> (res: bool)
    ensures
        res == contains(s@, p@),
{
    let chars = chars_of(s);
    let pat = chars_of(p);
    if pat.len() == 0 {
        proof {
            assert(s@.subrange(0, 0) =~= p@);
            assert(occurs_at(s@, p@, 0));
        }
        return true;
    }
    if pat.len() > chars.len() {
        proof {
            assert forall|j: int| !occurs_at(s@, p@, j) by {}
        }
        return false;
    }
    let last = chars.len() - pat.len();
    let mut i: usize = 0;
    while i <= last
        invariant
            i <= last + 1,
            last + pat@.len() == chars@.len(),
            chars@.len() <= usize::MAX,
            pat@.len() > 0,
            chars@ == s@,
            pat@ == p@,
            forall|j: int| 0 <= j < i ==> !occurs_at(s@, p@, j),
        decreases last + 1 - i,
    {
        if matches_at(&chars, &pat, i) {
            proof {
                assert(occurs_at(s@, p@, i as int));
            }
            return true;
        }
        i = i + 1;
    }
    proof {
        assert forall|j: int| !occurs_at(s@, p@, j) by {
            if 0 <= j < i {
            }
        }
    }
    false
}

/// `s` with every match of `pat` replaced by `rep`, as `str::replace` does it.
pub fn replace(s: &str, pat: &str, rep: &str) -> (res: String)
    requires
        pat@.len() > 0,
    ensures
        res@ == replace_all(s@, pat@, rep@),
{
    let chars = chars_of(s);
    let p = chars_of(pat);
    let mut out = String::new();
    let mut i: usize = 0;
    proof {
        assert(chars@.skip(0) =~= chars@);
        assert(out@ + chars@ =~= chars@);
    }
    while i < chars.len()
        invariant
            i <= chars@.len(),
            chars@ == s@,
            p@ == pat@,
            p@.len() > 0,
            out@ + replace_all(chars@.skip(i as int), p@, rep@) == replace_all(s@, pat@, rep@),
        decreases chars.len() - i,
    {
        let ghost rest = chars@.skip(i as int);
        if matches_at(&chars, &p, i) {
            proof {
                assert(rest.take(p@.len() as int) =~= chars@.subrange(i as int, i + p@.len()));
                assert(rest.skip(p@.len() as int) =~= chars@.skip(i + p@.len()));
                assert(out@ + rep@ + replace_all(chars@.skip(i + p@.len()), p@, rep@) =~= out@
                    + replace_all(rest, p@, rep@));
            }
            push_str(&mut out, rep);
            i = i + p.len();
        } else {
            proof {
                if rest.len() >= p@.len() {
                    assert(rest.take(p@.len() as int) =~= chars@.subrange(
                        i as int,
                        i + p@.len(),
                    ));
                }
                assert(rest.skip(1) =~= chars@.skip(i + 1));
                assert(rest[0] == chars@[i as int]);
                if rest.len() < p@.len() {
                    assert(replace_all(rest, p@, rep@) == rest);
                    lemma_replace_short(rest.skip(1), p@, rep@);
                    assert(rest =~= seq![rest[0]] + rest.skip(1));
                }
                assert(out@.push(chars@[i as int]) + replace_all(chars@.skip(i + 1), p@, rep@)
                    =~= out@ + replace_all(rest, p@, rep@));
            }
            push_char(&mut out, chars[i]);
            i = i + 1;
        }
    }
    proof {
        assert(chars@.skip(i as int).len() == 0);
    }
    out
}

/// A text shorter than the pattern is left as it is.
proof fn lemma_replace_short(s: Seq<char>, pat: Seq<char>, rep: Seq<char>)
    requires
        s.len() < pat.len(),
    ensures
        replace_all(s, pat, rep) == s,
{
}

/// The characters of a string, in order.
pub fn chars_of(s: &str) -> (res: Vec<char>)
    ensures
        res@ == s@,
{
    let mut res: Vec<char> = Vec::new();
    for c in it: s.chars()
        invariant
            res@ == it.seq().take(it.index() as int),
    {
        res.push(c);
    }
    res
}

/// A string is at least as many bytes long as it has characters.
pub proof fn lemma_bytes_at_least_chars(s: Seq<char>)
    ensures
        vstd::utf8::encode_utf8(s).len() >= s.len(),
    decreases s.len(),
{
    if s.len() > 0 {
        lemma_bytes_at_least_chars(s.drop_first());
        assert(vstd::utf8::encode_scalar(s[0] as u32).len() >= 1);
    }
}

/// An ASCII string is exactly as many bytes long as it has characters.
pub proof fn lemma_ascii_bytes(s: Seq<char>)
    requires
        vstd::utf8::is_ascii_chars(s),
    ensures
        vstd::utf8::encode_utf8(s).len() == s.len(),
{
    vstd::utf8::is_ascii_chars_encode_utf8(s);
}

// ---------------------------------------------------------------------------
// Decimal numbers, read and written.
// ---------------------------------------------------------------------------

/// An ASCII decimal digit.
pub open spec fn is_dec_digit(b: u8) -> bool {
    48 <= b <= 57
}

/// Every byte is an ASCII decimal digit.
pub open spec fn all_dec(s: Seq<u8>) -> bool {
    forall|i: int| 0 <= i < s.len() ==> is_dec_digit(#[trigger] s[i])
}

/// The number a run of decimal digits spells.
pub open spec fn dec_value(s: Seq<u8>) -> nat
    decreases s.len(),
{
    if s.len() == 0 {
        0
    } else {
        dec_value(s.drop_last()) * 10 + (s.last() - 48) as nat
    }
}

/// What `str::parse` reads from `s` as an integer: decimal digits, after an
/// optional `+`, or a `-` where the type is signed. Nothing else, and not
/// nothing.
pub open spec fn parse_int(s: Seq<u8>, signed: bool) -> Option<int> {
    if s.len() == 0 {
        None
    } else if s[0] == 43 || (signed && s[0] == 45) {
        let rest = s.drop_first();
        if rest.len() > 0 && all_dec(rest) {
            Some(
                if s[0] == 45 {
                    -(dec_value(rest) as int)
                } else {
                    dec_value(rest) as int
                },
            )
        } else {
            None
        }
    } else if all_dec(s) {
        Some(dec_value(s) as int)
    } else {
        None
    }
}

/// Whether byte offset `i` is where a character starts, or the end: what
/// `str::is_char_boundary` answers, and what `str::get` needs at both ends of
/// a range.
pub open spec fn is_boundary(b: Seq<u8>, i: int) -> bool {
    i == 0 || i == b.len() || (0 < i < b.len() && !(0x80 <= b[i] <= 0xbf))
}

/// `text.get(start..end)?.parse().ok()`, over the text's bytes.
pub open spec fn field(b: Seq<u8>, start: int, end: int, signed: bool) -> Option<int> {
    if 0 <= start <= end <= b.len() && is_boundary(b, start) && is_boundary(b, end) {
        parse_int(b.subrange(start, end), signed)
    } else {
        None
    }
}

/// Whether byte offset `i` of `b` is a character boundary.
pub fn boundary(b: &[u8], i: usize) -> (res: bool)
    ensures
        res == is_boundary(b@, i as int),
{
    if i == 0 || i == b.len() {
        true
    } else if i > b.len() {
        false
    } else {
        !(0x80 <= b[i] && b[i] <= 0xbf)
    }
}

/// Ten to the `n`.
pub open spec fn pow10(n: nat) -> nat
    decreases n,
{
    if n == 0 {
        1
    } else {
        10 * pow10((n - 1) as nat)
    }
}

proof fn lemma_pow10_small(n: nat)
    requires
        n <= 4,
    ensures
        pow10(n) <= 10000,
{
    reveal_with_fuel(pow10, 5);
}

/// Reads bytes `start..end` of `b` as an unsigned run of decimal digits.
fn read_digits(b: &[u8], start: usize, end: usize) -> (res: Option<u64>)
    requires
        start <= end <= b@.len(),
        end - start <= 4,
    ensures
        match res {
            Some(v) => all_dec(b@.subrange(start as int, end as int)) && v == dec_value(
                b@.subrange(start as int, end as int),
            ) && v < 10000,
            None => !all_dec(b@.subrange(start as int, end as int)),
        },
{
    let mut value: u64 = 0;
    let mut i = start;
    proof {
        assert(b@.subrange(start as int, start as int).len() == 0);
    }
    while i < end
        invariant
            start <= i <= end <= b@.len(),
            end - start <= 4,
            all_dec(b@.subrange(start as int, i as int)),
            value == dec_value(b@.subrange(start as int, i as int)),
            value < pow10((i - start) as nat),
        decreases end - i,
    {
        let c = b[i];
        if c < 48 || c > 57 {
            proof {
                assert(b@.subrange(start as int, end as int)[i - start] == c);
            }
            return None;
        }
        proof {
            let next = b@.subrange(start as int, i + 1);
            assert(next.drop_last() =~= b@.subrange(start as int, i as int));
            assert forall|j: int| 0 <= j < next.len() implies is_dec_digit(#[trigger] next[j]) by {
                if j < next.len() - 1 {
                    assert(next[j] == b@.subrange(start as int, i as int)[j]);
                }
            }
            lemma_pow10_small((i - start) as nat);
            assert(next.last() == c);
        }
        value = value * 10 + ((c - 48) as u64);
        i = i + 1;
    }
    proof {
        lemma_pow10_small((end - start) as nat);
    }
    Some(value)
}

/// `text.get(start..end)?.parse().ok()` for a field of up to four bytes:
/// the number in bytes `start..end` of `b`, where both ends are character
/// boundaries and `str::parse` accepts what lies between.
pub fn read_field(b: &[u8], start: usize, end: usize, signed: bool) -> (res: Option<i64>)
    requires
        end <= start + 4,
    ensures
        match res {
            Some(v) => field(b@, start as int, end as int, signed) == Some(v as int),
            None => field(b@, start as int, end as int, signed) is None,
        },
{
    if start > end || end > b.len() || !boundary(b, start) || !boundary(b, end) {
        return None;
    }
    if start == end {
        return None;
    }
    let first = b[start];
    let ghost text = b@.subrange(start as int, end as int);
    if first == 43 || (signed && first == 45) {
        if start + 1 == end {
            return None;
        }
        proof {
            assert(text.drop_first() =~= b@.subrange(start + 1, end as int));
        }
        match read_digits(b, start + 1, end) {
            Some(v) => {
                if first == 45 {
                    Some(-(v as i64))
                } else {
                    Some(v as i64)
                }
            },
            None => None,
        }
    } else {
        match read_digits(b, start, end) {
            Some(v) => Some(v as i64),
            None => None,
        }
    }
}

/// The character for decimal digit `d`.
pub open spec fn dec_char(d: nat) -> char {
    (48 + d) as char
}

/// `n` written in decimal, with no sign and no padding.
pub open spec fn dec_text(n: nat) -> Seq<char>
    decreases n,
{
    if n < 10 {
        seq![dec_char(n)]
    } else {
        dec_text(n / 10).push(dec_char(n % 10))
    }
}

/// `k` zeros, or none if `k` is not positive.
pub open spec fn zeros(k: int) -> Seq<char> {
    Seq::new(if k > 0 { k as nat } else { 0 }, |i: int| '0')
}

/// `n` as `format!("{:0w$}")` writes it: a sign if negative, then zeros
/// until the whole is `width` characters, then the digits.
pub open spec fn padded(n: int, width: nat) -> Seq<char> {
    if n >= 0 {
        zeros(width - dec_text(n as nat).len()) + dec_text(n as nat)
    } else {
        seq!['-'] + zeros(width - 1 - dec_text((-n) as nat).len()) + dec_text((-n) as nat)
    }
}

/// Appends `n` in decimal.
pub fn push_decimal(s: &mut String, n: u64)
    ensures
        final(s)@ == old(s)@ + dec_text(n as nat),
    decreases n,
{
    if n >= 10 {
        push_decimal(s, n / 10);
    }
    let d = (n % 10) as u8;
    push_char(s, (d + 48u8) as char);
    proof {
        if n >= 10 {
            assert(old(s)@ + dec_text(n as nat) =~= old(s)@ + dec_text((n / 10) as nat) + seq![
                dec_char((n % 10) as nat),
            ]);
        } else {
            assert(old(s)@ + dec_text(n as nat) =~= old(s)@ + seq![dec_char(n as nat)]);
        }
    }
}

/// How many digits `n` has in decimal.
pub fn dec_len(n: u64) -> (res: u64)
    ensures
        res as nat == dec_text(n as nat).len(),
        1 <= res <= 20,
    decreases n,
{
    if n >= 10 {
        let r = dec_len(n / 10);
        proof {
            lemma_dec_text_len(n as nat);
        }
        r + 1
    } else {
        1
    }
}

proof fn lemma_dec_text_len(n: nat)
    requires
        n < 0x1_0000_0000_0000_0000,
    ensures
        1 <= dec_text(n).len() <= 20,
{
    reveal_with_fuel(pow10, 21);
    assert(pow10(20) == 100_000_000_000_000_000_000);
    lemma_dec_text_len_le(n, 20);
}

proof fn lemma_dec_text_len_le(n: nat, k: nat)
    requires
        n < pow10(k),
        k >= 1,
    ensures
        1 <= dec_text(n).len() <= k,
    decreases n,
{
    if n >= 10 {
        if k == 1 {
            assert(pow10(1) == 10) by {
                reveal_with_fuel(pow10, 2);
            }
        }
        lemma_dec_text_len_le(n / 10, (k - 1) as nat);
    }
}

/// Appends `n` as `format!("{:0width$}")` would.
pub fn push_padded(s: &mut String, n: i64, width: u64)
    requires
        n > i64::MIN,
        width <= 20,
    ensures
        final(s)@ == old(s)@ + padded(n as int, width as nat),
{
    let magnitude: u64 = if n < 0 {
        (-n) as u64
    } else {
        n as u64
    };
    let digits = dec_len(magnitude);
    let ghost start = s@;
    let mut fill: u64 = width;
    if n < 0 {
        push_char(s, '-');
        fill = if fill > 0 {
            fill - 1
        } else {
            0
        };
    }
    let ghost signed = s@;
    let mut i: u64 = digits;
    while i < fill
        invariant
            digits <= i,
            i <= fill || i == digits,
            s@ == signed + zeros(i - digits),
        decreases fill - i,
    {
        push_char(s, '0');
        proof {
            assert(s@ =~= signed + zeros(i + 1 - digits));
        }
        i = i + 1;
    }
    proof {
        assert(s@ =~= signed + zeros(fill - digits));
    }
    push_decimal(s, magnitude);
    proof {
        if n < 0 {
            assert(s@ =~= start + padded(n as int, width as nat));
        } else {
            assert(s@ =~= start + padded(n as int, width as nat));
        }
    }
}

/// The bytes of `b` from offset `from` on.
pub fn tail(b: &[u8], from: usize) -> (res: Vec<u8>)
    requires
        from <= b@.len(),
    ensures
        res@ == b@.subrange(from as int, b@.len() as int),
{
    let mut res: Vec<u8> = Vec::new();
    let mut i = from;
    while i < b.len()
        invariant
            from <= i <= b@.len(),
            res@ == b@.subrange(from as int, i as int),
        decreases b.len() - i,
    {
        res.push(b[i]);
        proof {
            assert(res@ =~= b@.subrange(from as int, i + 1));
        }
        i = i + 1;
    }
    res
}

proof fn lemma_dec_value_bound(s: Seq<u8>)
    requires
        all_dec(s),
    ensures
        dec_value(s) < pow10(s.len()),
    decreases s.len(),
{
    if s.len() > 0 {
        let p = s.drop_last();
        assert(all_dec(p)) by {
            assert forall|i: int| 0 <= i < p.len() implies is_dec_digit(#[trigger] p[i]) by {
                assert(p[i] == s[i]);
            }
        }
        lemma_dec_value_bound(p);
        assert(is_dec_digit(s[s.len() - 1]));
    }
}

/// A field of up to four bytes holds a number of at most four digits.
pub proof fn lemma_field_bounds(b: Seq<u8>, start: int, end: int, signed: bool)
    requires
        end <= start + 4,
    ensures
        field(b, start, end, signed) matches Some(v) ==> -9999 <= v <= 9999,
        !signed ==> (field(b, start, end, signed) matches Some(v) ==> v >= 0),
{
    if 0 <= start <= end <= b.len() {
        let s = b.subrange(start, end);
        if s.len() > 0 {
            if all_dec(s) {
                lemma_dec_value_small(s);
            }
            if all_dec(s.drop_first()) {
                lemma_dec_value_small(s.drop_first());
            }
        }
    }
}

proof fn lemma_dec_value_small(s: Seq<u8>)
    requires
        all_dec(s),
        s.len() <= 4,
    ensures
        dec_value(s) < 10000,
{
    lemma_dec_value_bound(s);
    lemma_pow10_small(s.len());
}

/// Characters taken as the bytes they are in ASCII.
pub open spec fn ascii_bytes(s: Seq<char>) -> Seq<u8> {
    s.map_values(|c: char| c as u8)
}

/// A decimal number written out reads back as itself.
pub proof fn lemma_dec_text_reads_back(n: nat)
    ensures
        all_dec(ascii_bytes(dec_text(n))),
        dec_value(ascii_bytes(dec_text(n))) == n,
        vstd::utf8::is_ascii_chars(dec_text(n)),
    decreases n,
{
    let t = dec_text(n);
    if n < 10 {
        assert(ascii_bytes(t) =~= seq![(48 + n) as u8]);
        assert(ascii_bytes(t).drop_last() =~= Seq::<u8>::empty());
        assert(((48 + n) as u8) as int == 48 + n);
        assert(dec_value(ascii_bytes(t)) == dec_value(ascii_bytes(t).drop_last()) * 10 + (
        ascii_bytes(t).last() - 48) as nat);
    } else {
        lemma_dec_text_reads_back(n / 10);
        let p = dec_text(n / 10);
        assert(ascii_bytes(t).drop_last() =~= ascii_bytes(p));
        assert(ascii_bytes(t).last() == (48 + n % 10) as u8);
        assert(((48 + n % 10) as u8) as int == 48 + n % 10);
        assert(n == (n / 10) * 10 + n % 10);
        assert forall|i: int| 0 <= i < ascii_bytes(t).len() implies is_dec_digit(
            #[trigger] ascii_bytes(t)[i],
        ) by {
            if i < p.len() {
                assert(ascii_bytes(t)[i] == ascii_bytes(p)[i]);
            }
        }
        assert forall|i: int| 0 <= i < t.len() implies '\0' <= #[trigger] t[i] <= '\u{7f}' by {
            if i < p.len() {
                assert(t[i] == p[i]);
            }
        }
    }
}

/// Zeros in front do not change what digits spell.
proof fn lemma_leading_zeros(k: int, x: Seq<u8>)
    ensures
        dec_value(ascii_bytes(zeros(k)) + x) == dec_value(x),
        all_dec(x) ==> all_dec(ascii_bytes(zeros(k)) + x),
    decreases x.len(),
{
    let z = ascii_bytes(zeros(k));
    assert forall|i: int| 0 <= i < z.len() implies #[trigger] z[i] == 48u8 by {}
    if x.len() == 0 {
        assert(z + x =~= z);
        lemma_zeros_value(z);
    } else {
        lemma_leading_zeros(k, x.drop_last());
        assert((z + x).drop_last() =~= z + x.drop_last());
        assert((z + x).last() == x.last());
    }
    if all_dec(x) {
        assert forall|i: int| 0 <= i < (z + x).len() implies is_dec_digit(#[trigger] (z + x)[i]) by {
            if i >= z.len() {
                assert((z + x)[i] == x[i - z.len()]);
            }
        }
    }
}

proof fn lemma_zeros_value(z: Seq<u8>)
    requires
        forall|i: int| 0 <= i < z.len() ==> #[trigger] z[i] == 48u8,
    ensures
        dec_value(z) == 0,
    decreases z.len(),
{
    if z.len() > 0 {
        let p = z.drop_last();
        assert forall|i: int| 0 <= i < p.len() implies #[trigger] p[i] == 48u8 by {
            assert(p[i] == z[i]);
        }
        lemma_zeros_value(p);
    }
}

/// A number padded with zeros to `width` characters, if it fits, is that many
/// decimal digits spelling the number.
pub proof fn lemma_padded_reads_back(n: nat, width: nat)
    requires
        width >= 1,
        n < pow10(width),
    ensures
        padded(n as int, width).len() == width,
        vstd::utf8::is_ascii_chars(padded(n as int, width)),
        all_dec(ascii_bytes(padded(n as int, width))),
        dec_value(ascii_bytes(padded(n as int, width))) == n,
{
    lemma_dec_text_len_le(n, width);
    lemma_dec_text_reads_back(n);
    let k = width - dec_text(n).len();
    let t = padded(n as int, width);
    assert(t == zeros(k) + dec_text(n));
    assert(ascii_bytes(t) =~= ascii_bytes(zeros(k)) + ascii_bytes(dec_text(n)));
    lemma_leading_zeros(k, ascii_bytes(dec_text(n)));
    assert forall|i: int| 0 <= i < t.len() implies '\0' <= #[trigger] t[i] <= '\u{7f}' by {
        if i >= zeros(k).len() {
            assert(t[i] == dec_text(n)[i - zeros(k).len()]);
        }
    }
}

/// A negative number padded to `width` characters, if it fits, is a minus
/// sign and then decimal digits spelling its magnitude.
pub proof fn lemma_padded_negative_reads_back(n: int, width: nat)
    requires
        width >= 2,
        n < 0,
        -n < pow10((width - 1) as nat),
    ensures
        padded(n, width).len() == width,
        vstd::utf8::is_ascii_chars(padded(n, width)),
        ascii_bytes(padded(n, width))[0] == 45,
        all_dec(ascii_bytes(padded(n, width)).drop_first()),
        dec_value(ascii_bytes(padded(n, width)).drop_first()) == -n,
{
    let m = (-n) as nat;
    let w = (width - 1) as nat;
    lemma_padded_reads_back(m, w);
    let t = padded(n, width);
    assert(t =~= seq!['-'] + padded(m as int, w));
    assert(ascii_bytes(t).drop_first() =~= ascii_bytes(padded(m as int, w)));
    assert(('-' as u8) == 45u8);
    assert forall|i: int| 0 <= i < t.len() implies '\0' <= #[trigger] t[i] <= '\u{7f}' by {
        if i >= 1 {
            assert(t[i] == padded(m as int, w)[i - 1]);
        }
    }
}

} // verus!
