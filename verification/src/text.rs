//! Text operations on `str` and `String`, stated over sequences of characters.

use vstd::prelude::*;
use vstd::string::*;
use vstd::utf8::*;

verus! {

/// `String::push` appends the character to the end of the string.
pub assume_specification[ String::push ](s: &mut String, ch: char)
    ensures
        final(s)@ == old(s)@.push(ch),
;

/// `pat` stands in `s` at position `i`.
pub open spec fn occurs_at(s: Seq<char>, pat: Seq<char>, i: int) -> bool {
    0 <= i && i + pat.len() <= s.len() && s.subrange(i, i + pat.len() as int) == pat
}

/// `pat` stands somewhere in `s`.
pub open spec fn occurs_in(s: Seq<char>, pat: Seq<char>) -> bool {
    exists|i: int| occurs_at(s, pat, i)
}

/// `s` with every occurrence of `from`, found from left to right without overlap,
/// replaced by `to`.
pub open spec fn replaced(s: Seq<char>, from: Seq<char>, to: Seq<char>) -> Seq<char>
    decreases s.len(),
{
    if from.len() == 0 || s.len() < from.len() {
        s
    } else if occurs_at(s, from, 0) {
        to + replaced(s.skip(from.len() as int), from, to)
    } else {
        seq![s[0]] + replaced(s.skip(1), from, to)
    }
}

/// The decimal digit `d`.
pub open spec fn digit(d: nat) -> char {
    (48 + d) as char
}

/// `n` in decimal, without leading zeros.
pub open spec fn decimal(n: nat) -> Seq<char>
    decreases n,
{
    if n < 10 {
        seq![digit(n)]
    } else {
        decimal(n / 10).push(digit(n % 10))
    }
}

/// The lower-case hexadecimal digit `d`.
pub open spec fn hex_digit(d: nat) -> char {
    if d < 10 {
        (48 + d) as char
    } else {
        (87 + d) as char
    }
}

/// `bytes` in lower-case hexadecimal, two digits per byte.
pub open spec fn hex(bytes: Seq<u8>) -> Seq<char>
    decreases bytes.len(),
{
    if bytes.len() == 0 {
        Seq::empty()
    } else {
        hex(bytes.drop_last()) + seq![
            hex_digit(bytes.last() as nat / 16),
            hex_digit(bytes.last() as nat % 16),
        ]
    }
}

/// `c` with an ASCII capital turned into its small letter.
pub open spec fn lower(c: char) -> char {
    if 65 <= c as int <= 90 {
        (c as int + 32) as char
    } else {
        c
    }
}

/// `s` with every ASCII capital turned into its small letter.
pub open spec fn lowered(s: Seq<char>) -> Seq<char> {
    s.map_values(|c: char| lower(c))
}

/// Every character is a decimal digit.
pub open spec fn all_digits(s: Seq<char>) -> bool {
    forall|i: int| 0 <= i < s.len() ==> 48 <= (#[trigger] s[i]) as int <= 57
}

/// The number that decimal digits stand for.
pub open spec fn number(s: Seq<char>) -> int
    decreases s.len(),
{
    if s.len() == 0 {
        0
    } else {
        number(s.drop_last()) * 10 + (s.last() as int - 48)
    }
}

/// The 32-bit number that `s` stands for: decimal digits, perhaps after a plus sign.
pub open spec fn parsed_u32(s: Seq<char>) -> Option<u32> {
    let d = if s.len() > 0 && s[0] == '+' {
        s.skip(1)
    } else {
        s
    };
    if d.len() > 0 && all_digits(d) && number(d) <= u32::MAX {
        Some(number(d) as u32)
    } else {
        None
    }
}

/// More digits, a greater number.
proof fn lemma_number_take(s: Seq<char>, i: int)
    requires
        all_digits(s),
        0 <= i <= s.len(),
    ensures
        0 <= number(s.take(i)) <= number(s),
    decreases s.len(),
{
    if i < s.len() {
        let front = s.drop_last();
        assert forall|j: int| 0 <= j < front.len() implies 48 <= (#[trigger] front[j]) as int <= 57 by {
            assert(front[j] == s[j]);
        }
        lemma_number_take(front, i);
        assert(front.take(i) =~= s.take(i));
        assert(s[s.len() - 1] == s.last());
    } else {
        assert(s.take(i) =~= s);
        if s.len() > 0 {
            let front = s.drop_last();
            assert forall|j: int| 0 <= j < front.len() implies 48 <= (#[trigger] front[j]) as int <= 57 by {
                assert(front[j] == s[j]);
            }
            lemma_number_take(front, front.len() as int);
            assert(front.take(front.len() as int) =~= front);
            assert(s[s.len() - 1] == s.last());
        }
    }
}

fn code_of(c: char) -> (r: u32)
    ensures
        r == c as int,
{
    c as u32
}

/// The 32-bit number that a text stands for.
pub fn parse_u32(s: &str) -> (r: Option<u32>)
    ensures
        r == parsed_u32(s@),
{
    let v = chars_of(s);
    let from: usize = if v.len() > 0 && v[0] == '+' {
        1
    } else {
        0
    };
    let ghost d = v@.skip(from as int);
    assert(v@.skip(0) =~= v@);
    if v.len() == from {
        return None;
    }
    let mut value: u64 = 0;
    let mut i: usize = from;
    while i < v.len()
        invariant
            from <= i <= v@.len(),
            d == v@.skip(from as int),
            all_digits(d.take(i - from)),
            value == number(d.take(i - from)),
            value <= u32::MAX,
            v@ == s@,
            from == (if s@.len() > 0 && s@[0] == '+' { 1int } else { 0int }),
            d.len() > 0,
            d == (if s@.len() > 0 && s@[0] == '+' { s@.skip(1) } else { s@ }),
        decreases v@.len() - i,
    {
        let c: u32 = code_of(v[i]);
        let ghost k = i - from;
        assert(d[k] == v@[i as int]);
        if c < 48 || c > 57 {
            assert(!all_digits(d));
            return None;
        }
        let ghost next = d.take(k + 1);
        proof {
            assert(next.drop_last() =~= d.take(k));
            assert forall|j: int| 0 <= j < next.len() implies 48 <= (#[trigger] next[j]) as int <= 57 by {
                if j < k {
                    assert(next[j] == d.take(k)[j]);
                } else {
                    assert(next[j] == v@[i as int]);
                }
            }
        }
        value = value * 10 + (c - 48) as u64;
        if value > u32::MAX as u64 {
            proof {
                if all_digits(d) {
                    lemma_number_take(d, k + 1);
                }
            }
            return None;
        }
        i += 1;
    }
    assert(d.take(d.len() as int) =~= d);
    Some(value as u32)
}

/// Different bytes have different hexadecimal texts.
pub proof fn lemma_hex_injective(a: Seq<u8>, b: Seq<u8>)
    requires
        hex(a) == hex(b),
    ensures
        a == b,
    decreases a.len(),
{
    lemma_hex_len(a);
    lemma_hex_len(b);
    if a.len() > 0 {
        let n = hex(a).len() as int;
        let x = hex(a.drop_last());
        let y = hex(b.drop_last());
        lemma_hex_len(a.drop_last());
        lemma_hex_len(b.drop_last());
        assert(x =~= hex(a).take(n - 2));
        assert(y =~= hex(b).take(n - 2));
        lemma_hex_injective(a.drop_last(), b.drop_last());
        assert(hex(a)[n - 2] == hex_digit(a.last() as nat / 16));
        assert(hex(b)[n - 2] == hex_digit(b.last() as nat / 16));
        assert(hex(a)[n - 1] == hex_digit(a.last() as nat % 16));
        assert(hex(b)[n - 1] == hex_digit(b.last() as nat % 16));
        assert(a.last() == b.last());
        assert(a =~= a.drop_last().push(a.last()));
        assert(b =~= b.drop_last().push(b.last()));
    } else {
        assert(a =~= b);
    }
}

/// Two digits per byte.
pub proof fn lemma_hex_len(s: Seq<u8>)
    ensures
        hex(s).len() == 2 * s.len(),
    decreases s.len(),
{
    if s.len() > 0 {
        lemma_hex_len(s.drop_last());
    }
}

/// Whether two strings are the same text.
pub fn same_text(a: &str, b: &str) -> (r: bool)
    ensures
        r == (a@ == b@),
{
    let x = a.as_bytes();
    let y = b.as_bytes();
    proof {
        encode_utf8_decode_utf8(a@);
        encode_utf8_decode_utf8(b@);
    }
    if x.len() != y.len() {
        return false;
    }
    let mut i: usize = 0;
    while i < x.len()
        invariant
            x@ == encode_utf8(a@),
            y@ == encode_utf8(b@),
            x@.len() == y@.len(),
            i <= x@.len(),
            forall|j: int| 0 <= j < i ==> x@[j] == y@[j],
        decreases x@.len() - i,
    {
        if x[i] != y[i] {
            assert(x@[i as int] != y@[i as int]);
            return false;
        }
        i += 1;
    }
    assert(x@ =~= y@);
    true
}

/// The characters of `s`.
pub fn chars_of(s: &str) -> (r: Vec<char>)
    ensures
        r@ == s@,
{
    let mut v: Vec<char> = Vec::new();
    for c in iter: s.chars()
        invariant
            v@ == iter.seq().take(iter.index() as int),
            iter.seq() == s@,
    {
        v.push(c);
    }
    assert(v@ =~= s@);
    v
}

/// The string made of the characters of `v`.
pub fn string_of(v: &Vec<char>) -> (r: String)
    ensures
        r@ == v@,
{
    let mut s = String::new();
    let mut i: usize = 0;
    while i < v.len()
        invariant
            i <= v@.len(),
            s@ == v@.take(i as int),
        decreases v@.len() - i,
    {
        s.push(v[i]);
        i += 1;
        assert(s@ =~= v@.take(i as int));
    }
    assert(s@ =~= v@);
    s
}

fn stands_at(s: &Vec<char>, pat: &Vec<char>, i: usize) -> (r: bool)
    ensures
        r == occurs_at(s@, pat@, i as int),
{
    if pat.len() > s.len() || i > s.len() - pat.len() {
        return false;
    }
    let mut j: usize = 0;
    while j < pat.len()
        invariant
            i + pat@.len() <= s@.len() <= usize::MAX,
            j <= pat@.len(),
            forall|k: int| 0 <= k < j ==> s@[i + k] == pat@[k],
        decreases pat@.len() - j,
    {
        if s[i + j] != pat[j] {
            assert(s@.subrange(i as int, i + pat@.len() as int)[j as int] != pat@[j as int]);
            return false;
        }
        j += 1;
    }
    assert(s@.subrange(i as int, i + pat@.len() as int) =~= pat@);
    true
}

/// Whether `pat` stands somewhere in `s`.
pub fn contains_text(s: &str, pat: &str) -> (r: bool)
    ensures
        r == occurs_in(s@, pat@),
{
    let sv = chars_of(s);
    let pv = chars_of(pat);
    if pv.len() > sv.len() {
        return false;
    }
    let last: usize = sv.len() - pv.len();
    let mut i: usize = 0;
    while i <= last
        invariant
            sv@ == s@,
            pv@ == pat@,
            pv@.len() <= sv@.len(),
            last == sv@.len() - pv@.len(),
            i <= last + 1,
            forall|k: int| 0 <= k < i ==> !occurs_at(s@, pat@, k),
        decreases last + 1 - i,
    {
        if stands_at(&sv, &pv, i) {
            return true;
        }
        if i == last {
            return false;
        }
        i += 1;
    }
    false
}

/// `s` with every occurrence of `from` replaced by `to`.
pub fn replace_text(s: &str, from: &str, to: &str) -> (r: String)
    ensures
        r@ == replaced(s@, from@, to@),
{
    let sv = chars_of(s);
    let fv = chars_of(from);
    let mut out = String::new();
    let mut i: usize = 0;
    assert(sv@.skip(0) =~= sv@);
    while fv.len() > 0 && i < sv.len() && fv.len() <= sv.len() - i
        invariant
            sv@ == s@,
            fv@ == from@,
            i <= sv@.len(),
            out@ + replaced(sv@.skip(i as int), fv@, to@) == replaced(s@, from@, to@),
        decreases sv@.len() - i,
    {
        let ghost rest = sv@.skip(i as int);
        let ghost before = out@;
        assert(rest.subrange(0, fv@.len() as int) =~= sv@.subrange(i as int, i + fv@.len() as int));
        if stands_at(&sv, &fv, i) {
            out.append(to);
            i += fv.len();
            assert(rest.skip(fv@.len() as int) =~= sv@.skip(i as int));
        } else {
            out.push(sv[i]);
            i += 1;
            assert(rest.skip(1) =~= sv@.skip(i as int));
            assert(before + (seq![rest[0]] + replaced(rest.skip(1), fv@, to@)) =~= before.push(
                rest[0],
            ) + replaced(rest.skip(1), fv@, to@));
        }
        assert(out@ + replaced(sv@.skip(i as int), fv@, to@) =~= replaced(s@, from@, to@));
    }
    let ghost rest = sv@.skip(i as int);
    let ghost start = out@;
    let ghost at = i as int;
    while i < sv.len()
        invariant
            0 <= at <= i <= sv@.len(),
            rest == sv@.skip(at),
            out@ == start + sv@.subrange(at, i as int),
        decreases sv@.len() - i,
    {
        out.push(sv[i]);
        i += 1;
        assert(out@ =~= start + sv@.subrange(at, i as int));
    }
    assert(rest =~= sv@.subrange(at, sv@.len() as int));
    out
}

/// `n` in decimal.
pub fn decimal_text(n: u64) -> (r: String)
    ensures
        r@ == decimal(n as nat),
    decreases n,
{
    if n < 10 {
        let mut s = String::new();
        s.push((48u8 + n as u8) as char);
        assert(s@ =~= decimal(n as nat));
        s
    } else {
        let mut s = decimal_text(n / 10);
        s.push((48u8 + (n % 10) as u8) as char);
        s
    }
}

fn hex_char(d: u8) -> (c: char)
    requires
        d < 16,
    ensures
        c == hex_digit(d as nat),
{
    if d < 10 {
        (48u8 + d) as char
    } else {
        (87u8 + d) as char
    }
}

/// `bytes` in lower-case hexadecimal.
pub fn hex_text(bytes: &[u8]) -> (r: String)
    ensures
        r@ == hex(bytes@),
{
    let mut s = String::new();
    let mut i: usize = 0;
    while i < bytes.len()
        invariant
            i <= bytes@.len(),
            s@ == hex(bytes@.take(i as int)),
        decreases bytes@.len() - i,
    {
        let b: u8 = bytes[i];
        s.push(hex_char(b / 16));
        s.push(hex_char(b % 16));
        assert(bytes@.take(i + 1).drop_last() =~= bytes@.take(i as int));
        i += 1;
        assert(s@ =~= hex(bytes@.take(i as int)));
    }
    assert(bytes@.take(bytes@.len() as int) =~= bytes@);
    s
}

/// `s` with every ASCII capital turned into its small letter.
pub fn lower_text(s: &str) -> (r: String)
    ensures
        r@ == lowered(s@),
{
    let mut out = String::new();
    let v = chars_of(s);
    let mut i: usize = 0;
    while i < v.len()
        invariant
            v@ == s@,
            i <= v@.len(),
            out@ == lowered(v@.take(i as int)),
        decreases v@.len() - i,
    {
        let c = v[i];
        let n: u32 = c as u32;
        if 65 <= n && n <= 90 {
            out.push((n as u8 + 32) as char);
        } else {
            out.push(c);
        }
        i += 1;
        assert(out@ =~= lowered(v@.take(i as int)));
    }
    assert(v@.take(v@.len() as int) =~= v@);
    out
}

} // verus!
