//! Character-level text primitives: decimal and hexadecimal digit
//! sequences and their canonical printing and reading.

use vstd::prelude::*;

verus! {

// ---------------------------------------------------------------------------
// Character classes
// ---------------------------------------------------------------------------

pub open spec fn is_dec_digit(c: char) -> bool {
    48 <= (c as u32) && (c as u32) <= 57
}

pub open spec fn dec_val(c: char) -> nat {
    ((c as u32) - 48) as nat
}

/// The decimal digit character for a value below ten.
pub open spec fn dec_char(d: nat) -> char {
    if d == 0 { '0' }
    else if d == 1 { '1' }
    else if d == 2 { '2' }
    else if d == 3 { '3' }
    else if d == 4 { '4' }
    else if d == 5 { '5' }
    else if d == 6 { '6' }
    else if d == 7 { '7' }
    else if d == 8 { '8' }
    else { '9' }
}

/// The lower-case hexadecimal digit character for a value below sixteen.
pub open spec fn hex_char(d: nat) -> char {
    if d < 10 { dec_char(d) }
    else if d == 10 { 'a' }
    else if d == 11 { 'b' }
    else if d == 12 { 'c' }
    else if d == 13 { 'd' }
    else if d == 14 { 'e' }
    else { 'f' }
}

pub open spec fn is_hex_digit(c: char) -> bool {
    is_dec_digit(c) || (97 <= (c as u32) && (c as u32) <= 102)
}

pub open spec fn hex_val(c: char) -> nat {
    if is_dec_digit(c) { dec_val(c) } else { ((c as u32) - 87) as nat }
}

proof fn lemma_dec_char_val(d: nat)
    requires
        d < 10,
    ensures
        is_dec_digit(dec_char(d)),
        dec_val(dec_char(d)) == d,
{
}

proof fn lemma_hex_char_val(d: nat)
    requires
        d < 16,
    ensures
        is_hex_digit(hex_char(d)),
        hex_val(hex_char(d)) == d,
{
}

// ---------------------------------------------------------------------------
// Decimal sequences
// ---------------------------------------------------------------------------

/// The canonical decimal digit sequence of a natural number: no sign,
/// no leading zero except for the number zero itself.
pub open spec fn dec_seq(n: nat) -> Seq<char>
    decreases n,
{
    if n < 10 {
        seq![dec_char(n)]
    } else {
        dec_seq(n / 10).push(dec_char(n % 10))
    }
}

/// The value of a digit sequence read as a decimal number.
pub open spec fn dec_seq_val(s: Seq<char>) -> nat
    decreases s.len(),
{
    if s.len() == 0 {
        0
    } else {
        dec_seq_val(s.drop_last()) * 10 + dec_val(s.last())
    }
}

pub open spec fn all_dec_digits(s: Seq<char>) -> bool {
    forall|i: int| 0 <= i < s.len() ==> is_dec_digit(#[trigger] s[i])
}

/// A digit run is canonical when it is non-empty and carries no
/// leading zero (except as the single digit of zero itself).
pub open spec fn canonical_dec(s: Seq<char>) -> bool {
    &&& s.len() > 0
    &&& all_dec_digits(s)
    &&& (s.len() > 1 ==> s[0] != '0')
}

pub proof fn lemma_dec_seq_digits(n: nat)
    ensures
        dec_seq(n).len() > 0,
        all_dec_digits(dec_seq(n)),
        dec_seq(n)[0] != '0' <==> n > 0,
    decreases n,
{
    if n < 10 {
        assert(dec_seq(n) =~= seq![dec_char(n)]);
    } else {
        lemma_dec_seq_digits(n / 10);
        assert(dec_seq(n)[0] == dec_seq(n / 10)[0]);
    }
}

pub proof fn lemma_dec_seq_canonical(n: nat)
    ensures
        canonical_dec(dec_seq(n)),
    decreases n,
{
    lemma_dec_seq_digits(n);
    if n >= 10 {
        lemma_dec_seq_digits(n / 10);
    }
}

/// Reading back the canonical digits of a number yields the number.
pub proof fn lemma_dec_round_trip(n: nat)
    ensures
        dec_seq_val(dec_seq(n)) == n,
    decreases n,
{
    if n < 10 {
        lemma_dec_char_val(n);
        assert(dec_seq(n) =~= seq![dec_char(n)]);
        assert(dec_seq(n).drop_last() =~= Seq::<char>::empty());
        assert(dec_seq_val(dec_seq(n)) ==
            dec_seq_val(dec_seq(n).drop_last()) * 10 + dec_val(dec_seq(n).last()));
        assert(dec_seq_val(dec_seq(n)) == n);
    } else {
        lemma_dec_round_trip(n / 10);
        lemma_dec_char_val(n % 10);
        assert(dec_seq(n).drop_last() =~= dec_seq(n / 10));
        assert(dec_seq(n).last() == dec_char(n % 10));
        assert(dec_seq_val(dec_seq(n)) ==
            dec_seq_val(dec_seq(n / 10)) * 10 + dec_val(dec_char(n % 10)));
        assert(n == (n / 10) * 10 + n % 10) by (nonlinear_arith);
        assert(dec_seq_val(dec_seq(n)) == n);
    }
}

/// A canonical digit run is the printed form of its own value:
/// printing and reading are mutually inverse.
pub proof fn lemma_dec_canonical_unique(s: Seq<char>)
    requires
        canonical_dec(s),
    ensures
        dec_seq(dec_seq_val(s)) == s,
    decreases s.len(),
{
    if s.len() == 1 {
        assert(dec_seq_val(s.drop_last()) == 0);
        lemma_digit_chars_cover(s.last());
        assert(dec_seq_val(s) == dec_val(s.last()) && dec_val(s.last()) < 10);
        assert(dec_seq(dec_seq_val(s)) =~= seq![dec_char(dec_val(s.last()))]);
        assert(dec_seq(dec_seq_val(s)) =~= s);
    } else {
        let front = s.drop_last();
        assert(all_dec_digits(front)) by {
            assert(forall|i: int| 0 <= i < front.len() ==> front[i] == s[i] && is_dec_digit(#[trigger] s[i]));
        }
        lemma_dec_canonical_unique(front);
        lemma_dec_seq_digits(dec_seq_val(front));
        // the front is non-zero, so the whole value is at least ten
        assert(front[0] != '0');
        assert(dec_seq_val(front) > 0) by {
            if dec_seq_val(front) == 0 {
                assert(dec_seq(0) =~= seq!['0']);
                assert(front[0] == '0');
            }
        }
        let v = dec_seq_val(s);
        assert(v == dec_seq_val(front) * 10 + dec_val(s.last()));
        assert(v >= 10) by {
            assert(dec_seq_val(front) >= 1);
        }
        assert(v / 10 == dec_seq_val(front) && v % 10 == dec_val(s.last())) by {
            let q = dec_seq_val(front);
            let r = dec_val(s.last());
            assert(r < 10);
            assert((q * 10 + r) / 10 == q && (q * 10 + r) % 10 == r) by (nonlinear_arith)
                requires r < 10,
            ;
        }
        assert(dec_val(s.last()) < 10);
        assert(dec_char(dec_val(s.last())) == s.last()) by {
            lemma_digit_chars_cover(s.last());
        }
        assert(dec_seq(v) =~= dec_seq(v / 10).push(dec_char(v % 10)));
        assert(dec_seq(v) =~= s);
    }
}

/// Every decimal digit character is the digit character of its value.
pub proof fn lemma_digit_chars_cover(c: char)
    requires
        is_dec_digit(c),
    ensures
        dec_char(dec_val(c)) == c,
{
    let u = c as u32;
    assert(48 <= u <= 57);
    assert(c == dec_char(dec_val(c))) by {
        if u == 48 { assert(c == '0'); }
        else if u == 49 { assert(c == '1'); }
        else if u == 50 { assert(c == '2'); }
        else if u == 51 { assert(c == '3'); }
        else if u == 52 { assert(c == '4'); }
        else if u == 53 { assert(c == '5'); }
        else if u == 54 { assert(c == '6'); }
        else if u == 55 { assert(c == '7'); }
        else if u == 56 { assert(c == '8'); }
        else { assert(c == '9'); }
    }
}

pub open spec fn pow10(k: nat) -> nat
    decreases k,
{
    if k == 0 { 1 } else { pow10((k - 1) as nat) * 10 }
}

// ---------------------------------------------------------------------------
// Fixed-width hexadecimal sequences
// ---------------------------------------------------------------------------

/// The low `k` hexadecimal digits of a number, most significant first.
pub open spec fn hex_seq(n: nat, k: nat) -> Seq<char>
    decreases k,
{
    if k == 0 {
        Seq::empty()
    } else {
        hex_seq(n / 16, (k - 1) as nat).push(hex_char(n % 16))
    }
}

pub open spec fn hex_seq_val(s: Seq<char>) -> nat
    decreases s.len(),
{
    if s.len() == 0 {
        0
    } else {
        hex_seq_val(s.drop_last()) * 16 + hex_val(s.last())
    }
}

pub open spec fn all_hex_digits(s: Seq<char>) -> bool {
    forall|i: int| 0 <= i < s.len() ==> is_hex_digit(#[trigger] s[i])
}

pub open spec fn pow16(k: nat) -> nat
    decreases k,
{
    if k == 0 { 1 } else { pow16((k - 1) as nat) * 16 }
}

pub proof fn lemma_hex_seq_len(n: nat, k: nat)
    ensures
        hex_seq(n, k).len() == k,
        all_hex_digits(hex_seq(n, k)),
    decreases k,
{
    if k > 0 {
        lemma_hex_seq_len(n / 16, (k - 1) as nat);
        lemma_hex_char_val(n % 16);
        assert(forall|i: int| 0 <= i < k - 1 ==>
            #[trigger] hex_seq(n, k)[i] == hex_seq(n / 16, (k - 1) as nat)[i]);
    }
}

/// Reading back the fixed-width hexadecimal digits of a number below
/// the matching power of sixteen yields the number.
pub proof fn lemma_hex_round_trip(n: nat, k: nat)
    requires
        n < pow16(k),
    ensures
        hex_seq_val(hex_seq(n, k)) == n,
    decreases k,
{
    if k == 0 {
    } else {
        lemma_hex_seq_len(n, k);
        assert(hex_seq(n, k).drop_last() =~= hex_seq(n / 16, (k - 1) as nat));
        assert(n / 16 < pow16((k - 1) as nat)) by (nonlinear_arith)
            requires
                n < pow16((k - 1) as nat) * 16,
        ;
        lemma_hex_round_trip(n / 16, (k - 1) as nat);
        lemma_hex_char_val(n % 16);
    }
}

/// Every hexadecimal digit character is the digit character of its value.
proof fn lemma_hex_chars_cover(c: char)
    requires
        is_hex_digit(c),
    ensures
        hex_char(hex_val(c)) == c,
        hex_val(c) < 16,
{
    let u = c as u32;
    if 48 <= u <= 57 {
        lemma_digit_chars_cover(c);
    } else {
        if u == 97 { assert(c == 'a'); }
        else if u == 98 { assert(c == 'b'); }
        else if u == 99 { assert(c == 'c'); }
        else if u == 100 { assert(c == 'd'); }
        else if u == 101 { assert(c == 'e'); }
        else { assert(c == 'f'); }
    }
}

/// A hexadecimal digit run of width `k` is the printed form of its own
/// value.
pub proof fn lemma_hex_canonical_unique(s: Seq<char>)
    requires
        all_hex_digits(s),
    ensures
        hex_seq_val(s) < pow16(s.len()),
        hex_seq(hex_seq_val(s), s.len()) == s,
    decreases s.len(),
{
    if s.len() == 0 {
        assert(hex_seq(0, 0) =~= s);
    } else {
        let front = s.drop_last();
        assert(all_hex_digits(front)) by {
            assert(forall|i: int| 0 <= i < front.len() ==> front[i] == s[i] && is_hex_digit(#[trigger] s[i]));
        }
        lemma_hex_canonical_unique(front);
        lemma_hex_chars_cover(s.last());
        let v = hex_seq_val(s);
        let q = hex_seq_val(front);
        let r = hex_val(s.last());
        assert(v == q * 16 + r);
        assert(v < pow16(front.len()) * 16) by (nonlinear_arith)
            requires
                q < pow16(front.len()),
                r < 16,
                v == q * 16 + r,
        ;
        assert(v / 16 == q && v % 16 == r) by (nonlinear_arith)
            requires
                r < 16,
                v == q * 16 + r,
        ;
        assert(hex_seq(v, s.len()) =~= hex_seq(q, front.len()).push(hex_char(r)));
        assert(hex_seq(v, s.len()) =~= s);
    }
}

// ---------------------------------------------------------------------------
// Executable printing
// ---------------------------------------------------------------------------

/// Appends one character to a string.
///
/// Relies on `String::push`: it appends exactly the given character.
#[verifier::external_body]
pub fn push_char(s: &mut String, c: char)
    ensures
        final(s)@ == old(s)@.push(c),
{
    s.push(c);
}

fn dec_digit_exec(d: u64) -> (c: char)
    requires
        d < 10,
    ensures
        c == dec_char(d as nat),
{
    if d == 0 { '0' }
    else if d == 1 { '1' }
    else if d == 2 { '2' }
    else if d == 3 { '3' }
    else if d == 4 { '4' }
    else if d == 5 { '5' }
    else if d == 6 { '6' }
    else if d == 7 { '7' }
    else if d == 8 { '8' }
    else { '9' }
}

fn hex_digit_exec(d: u64) -> (c: char)
    requires
        d < 16,
    ensures
        c == hex_char(d as nat),
{
    if d < 10 { dec_digit_exec(d) }
    else if d == 10 { 'a' }
    else if d == 11 { 'b' }
    else if d == 12 { 'c' }
    else if d == 13 { 'd' }
    else if d == 14 { 'e' }
    else { 'f' }
}

/// Appends the canonical decimal form of a number to a character buffer.
pub fn write_dec_u64(out: &mut Vec<char>, n: u64)
    ensures
        final(out)@ == old(out)@ + dec_seq(n as nat),
    decreases n,
{
    if n < 10 {
        out.push(dec_digit_exec(n));
        assert(final(out)@ =~= old(out)@ + dec_seq(n as nat));
    } else {
        write_dec_u64(out, n / 10);
        out.push(dec_digit_exec(n % 10));
        assert(final(out)@ =~= old(out)@ + dec_seq(n as nat));
    }
}

/// Appends the sixteen-digit hexadecimal form of a number to a buffer.
pub fn write_hex16_u64(out: &mut Vec<char>, n: u64)
    ensures
        final(out)@ == old(out)@ + hex_seq(n as nat, 16),
{
    write_hex_width(out, n, 16);
}

fn write_hex_width(out: &mut Vec<char>, n: u64, k: u64)
    requires
        k <= 16,
    ensures
        final(out)@ == old(out)@ + hex_seq(n as nat, k as nat),
    decreases k,
{
    if k == 0 {
        assert(final(out)@ =~= old(out)@ + hex_seq(n as nat, 0));
    } else {
        write_hex_width(out, n / 16, k - 1);
        out.push(hex_digit_exec(n % 16));
        assert(final(out)@ =~= old(out)@ + hex_seq(n as nat, k as nat));
    }
}

/// Turns a character buffer into a string with the same characters.
pub fn chars_to_string(chars: &Vec<char>) -> (r: String)
    ensures
        r@ == chars@,
{
    let mut s = String::new();
    let mut i: usize = 0;
    while i < chars.len()
        invariant
            i <= chars.len(),
            s@ == chars@.subrange(0, i as int),
        decreases chars.len() - i,
    {
        push_char(&mut s, chars[i]);
        i = i + 1;
        assert(s@ =~= chars@.subrange(0, i as int));
    }
    assert(s@ =~= chars@);
    s
}

/// Appends the characters of a string slice to a buffer.
pub fn push_str_chars(out: &mut Vec<char>, s: &str)
    ensures
        final(out)@ == old(out)@ + s@,
{
    let n = s.unicode_len();
    let mut i: usize = 0;
    while i < n
        invariant
            n == s@.len(),
            i <= n,
            out@ == old(out)@ + s@.subrange(0, i as int),
        decreases n - i,
    {
        out.push(s.get_char(i));
        assert(out@ =~= old(out)@ + s@.subrange(0, i + 1));
        i = i + 1;
    }
    assert(out@ =~= old(out)@ + s@);
}

/// The characters of a string slice, as a vector.
pub fn str_to_chars(s: &str) -> (r: Vec<char>)
    ensures
        r@ == s@,
{
    let n = s.unicode_len();
    let mut out: Vec<char> = Vec::new();
    let mut i: usize = 0;
    while i < n
        invariant
            n == s@.len(),
            i <= n,
            out@ == s@.subrange(0, i as int),
        decreases n - i,
    {
        out.push(s.get_char(i));
        assert(out@ =~= s@.subrange(0, i + 1));
        i = i + 1;
    }
    assert(out@ =~= s@);
    out
}

/// The characters of a range of a buffer, as a string.
pub fn chars_range_to_string(chars: &Vec<char>, from: usize, to: usize) -> (r: String)
    requires
        from <= to <= chars@.len(),
    ensures
        r@ == chars@.subrange(from as int, to as int),
{
    let mut s = String::new();
    let mut i: usize = from;
    while i < to
        invariant
            from <= i <= to <= chars@.len(),
            s@ == chars@.subrange(from as int, i as int),
        decreases to - i,
    {
        push_char(&mut s, chars[i]);
        i = i + 1;
        assert(s@ =~= chars@.subrange(from as int, i as int));
    }
    s
}

/// Compares two string slices character by character.
pub fn str_eq(a: &str, b: &str) -> (r: bool)
    ensures
        r == (a@ == b@),
{
    let an = a.unicode_len();
    let bn = b.unicode_len();
    if an != bn {
        return false;
    }
    let mut i: usize = 0;
    while i < an
        invariant
            an == a@.len(),
            an == b@.len(),
            i <= an,
            forall|j: int| 0 <= j < i ==> a@[j] == b@[j],
        decreases an - i,
    {
        if a.get_char(i) != b.get_char(i) {
            return false;
        }
        i = i + 1;
    }
    assert(a@ =~= b@);
    true
}

/// The canonical decimal form of a number, as a string.
pub fn dec_u64_string(n: u64) -> (r: String)
    ensures
        r@ == dec_seq(n as nat),
{
    let mut buf: Vec<char> = Vec::new();
    write_dec_u64(&mut buf, n);
    assert(buf@ =~= dec_seq(n as nat));
    chars_to_string(&buf)
}

} // verus!
