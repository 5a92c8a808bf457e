//! Building display text: numbers, joined lists, and text out of raw bytes.

use vstd::prelude::*;
use vstd::utf8::*;

verus! {

/// `String::push` appends one character.
pub assume_specification[ String::push ](s: &mut String, c: char)
    ensures
        final(s)@ == old(s)@.push(c),
;

/// `String::push_str` appends the characters of another string.
pub assume_specification[ String::push_str ](s: &mut String, other: &str)
    ensures
        final(s)@ == old(s)@ + other@,
;

/// `==` on `str` compares the characters.
pub assume_specification[ <str as PartialEq<str>>::eq ](a: &str, b: &str) -> (r: bool)
    ensures
        r == (a@ == b@),
;

/// What `String::from_utf8_lossy` makes of bytes that are not UTF-8: invalid
/// sequences become replacement characters.
pub uninterp spec fn repaired(bytes: Seq<u8>) -> Seq<char>;

/// Bytes as text: UTF-8 decodes to what it stands for, anything else is
/// repaired.
pub open spec fn utf8_lossy(bytes: Seq<u8>) -> Seq<char> {
    if valid_utf8(bytes) {
        decode_utf8(bytes)
    } else {
        repaired(bytes)
    }
}

/// `String::from_utf8_lossy`, copied out. UTF-8 decodes to what it stands for;
/// what an invalid sequence becomes is not spelled out beyond its name.
#[verifier::external_body]
pub(crate) fn from_utf8_lossy(bytes: &[u8]) -> (r: String)
    ensures
        r@ == (if valid_utf8(bytes@) {
            decode_utf8(bytes@)
        } else {
            repaired(bytes@)
        }),
{
    String::from_utf8_lossy(bytes).into_owned()
}

/// `std::str::from_utf8`: the bytes as text, exactly when they are UTF-8.
#[verifier::external_body]
pub(crate) fn from_utf8(bytes: &[u8]) -> (r: Option<&str>)
    ensures
        r is Some <==> valid_utf8(bytes@),
        r matches Some(s) ==> s@ == decode_utf8(bytes@),
{
    std::str::from_utf8(bytes).ok()
}

/// Whether two strings hold the same characters.
pub fn same(a: &str, b: &str) -> (r: bool)
    ensures
        r == (a@ == b@),
{
    *a == *b
}

/// An owned copy of `s`.
pub fn owned(s: &str) -> (r: String)
    ensures
        r@ == s@,
{
    s.to_owned()
}

/// The characters of `s`.
pub fn chars_of(s: &str) -> (r: Vec<char>)
    ensures
        r@ == s@,
{
    let mut out: Vec<char> = Vec::new();
    for c in it: s.chars()
        invariant
            out@ == s@.take(it.index()),
            it.seq() == s@,
    {
        out.push(c);
        assert(out@ == s@.take(it.index() + 1));
    }
    assert(s@.take(s@.len() as int) == s@);
    out
}

/// The string made of `chars`.
pub fn from_chars(chars: &[char]) -> (r: String)
    ensures
        r@ == chars@,
{
    let mut out: String = String::new();
    let mut i: usize = 0;
    while i < chars.len()
        invariant
            i <= chars.len(),
            out@ == chars@.take(i as int),
        decreases chars.len() - i,
    {
        out.push(chars[i]);
        i += 1;
        assert(out@ == chars@.take(i as int));
    }
    assert(chars@.take(chars@.len() as int) == chars@);
    out
}

/// The digit for `n`, below sixteen.
pub open spec fn digit(n: int) -> char {
    if n < 10 {
        (48 + n) as char
    } else {
        (87 + n) as char
    }
}

/// The decimal digits of `n`.
pub open spec fn dec(n: int) -> Seq<char>
    decreases n,
{
    if n < 10 {
        seq![digit(n)]
    } else {
        dec(n / 10).push(digit(n % 10))
    }
}

/// The lower-case hexadecimal digits of `n`.
pub open spec fn hex(n: int) -> Seq<char>
    decreases n,
{
    if n < 16 {
        seq![digit(n)]
    } else {
        hex(n / 16).push(digit(n % 16))
    }
}

/// `s` with zeros in front of it, at least `width` characters long.
pub open spec fn padded(s: Seq<char>, width: int) -> Seq<char> {
    if s.len() < width {
        Seq::new((width - s.len()) as nat, |i: int| '0') + s
    } else {
        s
    }
}

/// `n` in hexadecimal, at least `width` digits.
pub open spec fn hex_pad(n: int, width: int) -> Seq<char> {
    padded(hex(n), width)
}

/// `n` in decimal with its sign.
pub open spec fn signed(n: int) -> Seq<char> {
    if n < 0 {
        seq!['-'] + dec(-n)
    } else {
        dec(n)
    }
}

/// The digit for `n`, below sixteen.
pub fn digit_char(n: u8) -> (c: char)
    requires
        n < 16,
    ensures
        c == digit(n as int),
{
    if n < 10 {
        (48 + n) as char
    } else {
        (87 + n) as char
    }
}

/// Append `n` in decimal.
pub fn push_dec(out: &mut String, n: u64)
    ensures
        final(out)@ == old(out)@ + dec(n as int),
    decreases n,
{
    if n >= 10 {
        push_dec(out, n / 10);
    }
    out.push(digit_char((n % 10) as u8));
    proof {
        if n < 10 {
            assert(out@ =~= old(out)@ + dec(n as int));
        } else {
            assert(out@ =~= old(out)@ + dec(n as int));
        }
    }
}

fn push_hex_digits(out: &mut String, n: u64)
    ensures
        final(out)@ == old(out)@ + hex(n as int),
    decreases n,
{
    if n >= 16 {
        push_hex_digits(out, n / 16);
    }
    out.push(digit_char((n % 16) as u8));
    assert(out@ =~= old(out)@ + hex(n as int));
}

fn hex_len(n: u64) -> (r: usize)
    ensures
        r == hex(n as int).len(),
        r <= 16,
{
    let mut m: u64 = n;
    let mut len: usize = 1;
    proof {
        reveal_with_fuel(pow16, 17);
        assert(pow16(16) == 0x1_0000_0000_0000_0000);
        lemma_hex_len(n as int, 16);
    }
    while m >= 16
        invariant
            hex(n as int).len() == hex(m as int).len() + len - 1,
            hex(n as int).len() <= 16,
            1 <= len,
        decreases m,
    {
        proof {
            lemma_hex_nonempty((m / 16) as int);
        }
        m = m / 16;
        len += 1;
    }
    len
}

proof fn lemma_hex_nonempty(n: int)
    ensures
        hex(n).len() >= 1,
{
}

proof fn lemma_hex_len(n: int, k: nat)
    requires
        0 <= n,
        k >= 1,
        n < pow16(k),
    ensures
        hex(n).len() <= k,
    decreases k,
{
    if n >= 16 {
        assert(k > 1) by {
            if k == 1 {
                reveal_with_fuel(pow16, 2);
                assert(pow16(1) == 16);
            }
        }
        assert(pow16(k) == 16 * pow16((k - 1) as nat));
        lemma_hex_len(n / 16, (k - 1) as nat);
    }
}

spec fn pow16(k: nat) -> int
    decreases k,
{
    if k == 0 {
        1
    } else {
        16 * pow16((k - 1) as nat)
    }
}

/// Append `n` in lower-case hexadecimal, at least `width` digits.
pub fn push_hex(out: &mut String, n: u64, width: usize)
    ensures
        final(out)@ == old(out)@ + hex_pad(n as int, width as int),
{
    let len: usize = hex_len(n);
    let mut i: usize = len;
    let ghost start = out@;
    while i < width
        invariant
            len <= i,
            i <= width || i == len,
            len == hex(n as int).len(),
            out@ == start + Seq::new((i - len) as nat, |j: int| '0'),
        decreases width - i,
    {
        out.push('0');
        i += 1;
        assert(out@ =~= start + Seq::new((i - len) as nat, |j: int| '0'));
    }
    push_hex_digits(out, n);
    assert(out@ =~= start + hex_pad(n as int, width as int));
}

/// Append `n` with its sign.
pub fn push_signed(out: &mut String, n: i64)
    ensures
        final(out)@ == old(out)@ + signed(n as int),
{
    if n < 0 {
        out.push('-');
        let m: u64 = if n == i64::MIN { 9223372036854775808u64 } else { (-n) as u64 };
        push_dec(out, m);
        assert(out@ =~= old(out)@ + signed(n as int));
    } else {
        push_dec(out, n as u64);
    }
}

/// `n` in decimal.
pub fn dec_text(n: u64) -> (r: String)
    ensures
        r@ == dec(n as int),
{
    let mut out: String = String::new();
    push_dec(&mut out, n);
    assert(Seq::<char>::empty() + dec(n as int) =~= dec(n as int));
    out
}

/// `a` followed by `b`.
pub fn cat(a: &str, b: &str) -> (r: String)
    ensures
        r@ == a@ + b@,
{
    let mut out: String = owned(a);
    out.push_str(b);
    out
}

/// `a`, then `n` in decimal, then `b`.
pub fn cat_dec(a: &str, n: u64, b: &str) -> (r: String)
    ensures
        r@ == a@ + dec(n as int) + b@,
{
    let mut out: String = owned(a);
    push_dec(&mut out, n);
    out.push_str(b);
    out
}

/// The characters of each string.
pub open spec fn texts(v: Seq<String>) -> Seq<Seq<char>> {
    v.map_values(|s: String| s@)
}

/// `parts` with `sep` between each two.
pub open spec fn joined(parts: Seq<Seq<char>>, sep: Seq<char>) -> Seq<char>
    decreases parts.len(),
{
    if parts.len() == 0 {
        Seq::empty()
    } else if parts.len() == 1 {
        parts[0]
    } else {
        joined(parts.drop_last(), sep) + sep + parts.last()
    }
}

/// `parts` with `sep` between each two.
pub fn join(parts: &Vec<String>, sep: &str) -> (r: String)
    ensures
        r@ == joined(texts(parts@), sep@),
{
    let mut out: String = String::new();
    let mut i: usize = 0;
    while i < parts.len()
        invariant
            i <= parts.len(),
            out@ == joined(texts(parts@).take(i as int), sep@),
        decreases parts.len() - i,
    {
        let ghost before = texts(parts@).take(i as int);
        let ghost after = texts(parts@).take(i + 1);
        assert(after.drop_last() == before);
        assert(after.last() == parts@[i as int]@);
        if i > 0 {
            out.push_str(sep);
        }
        out.push_str(&parts[i]);
        proof {
            if i == 0 {
                assert(out@ =~= after[0]);
            }
        }
        i += 1;
    }
    assert(texts(parts@).take(parts@.len() as int) == texts(parts@));
    out
}

/// Whether `s` holds no character.
pub fn is_empty(s: &str) -> (r: bool)
    ensures
        r == (s@.len() == 0),
{
    proof {
        reveal_strlit("");
        if s@.len() == 0 {
            assert(s@ =~= ""@);
        }
    }
    same(s, "")
}

/// Put `s` behind the other strings.
pub fn push_text(v: &mut Vec<String>, s: String)
    ensures
        texts(final(v)@) == texts(old(v)@).push(s@),
{
    v.push(s);
    assert(texts(v@) =~= texts(old(v)@).push(s@));
}

/// `s` with spaces behind it up to `width` characters.
pub open spec fn left_aligned(s: Seq<char>, width: int) -> Seq<char> {
    if s.len() < width {
        s + Seq::new((width - s.len()) as nat, |i: int| ' ')
    } else {
        s
    }
}

/// Append `s` with spaces behind it up to `width` characters.
pub fn push_left(out: &mut String, s: &str, width: usize)
    ensures
        final(out)@ == old(out)@ + left_aligned(s@, width as int),
{
    out.push_str(s);
    let mut n: usize = chars_of(s).len();
    let ghost from = s@.len() as int;
    assert(old(out)@ + s@ =~= old(out)@ + s@ + Seq::new(0, |i: int| ' '));
    while n < width
        invariant
            from <= n,
            n <= width || n == from,
            out@ == old(out)@ + s@ + Seq::new((n - from) as nat, |i: int| ' '),
        decreases width - n,
    {
        out.push(' ');
        n += 1;
        assert(out@ =~= old(out)@ + s@ + Seq::new((n - from) as nat, |i: int| ' '));
    }
    assert(out@ =~= old(out)@ + left_aligned(s@, width as int));
}

/// Append `n` in decimal with zeros in front of it up to `width` digits.
pub fn push_dec_padded(out: &mut String, n: u64, width: usize)
    ensures
        final(out)@ == old(out)@ + padded(dec(n as int), width as int),
{
    let digits: String = dec_text(n);
    let mut k: usize = chars_of(digits.as_str()).len();
    let ghost from = k as int;
    assert(old(out)@ =~= old(out)@ + Seq::new(0, |i: int| '0'));
    while k < width
        invariant
            from <= k,
            k <= width || k == from,
            out@ == old(out)@ + Seq::new((k - from) as nat, |i: int| '0'),
        decreases width - k,
    {
        out.push('0');
        k += 1;
        assert(out@ =~= old(out)@ + Seq::new((k - from) as nat, |i: int| '0'));
    }
    out.push_str(digits.as_str());
    assert(out@ =~= old(out)@ + padded(dec(n as int), width as int));
}

// ---- reading text -------------------------------------------------------------

/// White space, by the Unicode property of that name.
pub open spec fn is_space(c: char) -> bool {
    let n = c as int;
    ||| 0x9 <= n <= 0xd
    ||| n == 0x20
    ||| n == 0x85
    ||| n == 0xa0
    ||| n == 0x1680
    ||| 0x2000 <= n <= 0x200a
    ||| n == 0x2028
    ||| n == 0x2029
    ||| n == 0x202f
    ||| n == 0x205f
    ||| n == 0x3000
}

/// Whether `c` is white space.
pub fn space(c: char) -> (r: bool)
    ensures
        r == is_space(c),
{
    let n: u32 = c as u32;
    (0x9 <= n && n <= 0xd) || n == 0x20 || n == 0x85 || n == 0xa0 || n == 0x1680 || (0x2000 <= n
        && n <= 0x200a) || n == 0x2028 || n == 0x2029 || n == 0x202f || n == 0x205f || n == 0x3000
}

/// The first position from `i` on that holds no space.
pub open spec fn skip_spaces(s: Seq<char>, i: int) -> int
    decreases s.len() - i,
{
    if 0 <= i < s.len() && is_space(s[i]) {
        skip_spaces(s, i + 1)
    } else {
        i
    }
}

/// The last position down from `j` behind something that is no space, or `lo`.
pub open spec fn drop_spaces(s: Seq<char>, lo: int, j: int) -> int
    decreases j - lo,
{
    if lo < j <= s.len() && is_space(s[j - 1]) {
        drop_spaces(s, lo, j - 1)
    } else {
        j
    }
}

/// `s` without the spaces at its ends.
pub open spec fn trimmed(s: Seq<char>) -> Seq<char> {
    let a = skip_spaces(s, 0);
    s.subrange(a, drop_spaces(s, a, s.len() as int))
}

/// `s` without the spaces at its ends.
pub fn trim(s: &[char]) -> (r: &[char])
    ensures
        r@ == trimmed(s@),
{
    let mut a: usize = 0;
    while a < s.len() && space(s[a])
        invariant
            a <= s@.len(),
            skip_spaces(s@, 0) == skip_spaces(s@, a as int),
        decreases s.len() - a,
    {
        a += 1;
    }
    let mut b: usize = s.len();
    while b > a && space(s[b - 1])
        invariant
            a <= b <= s@.len(),
            drop_spaces(s@, a as int, s@.len() as int) == drop_spaces(s@, a as int, b as int),
        decreases b,
    {
        b -= 1;
    }
    vstd::slice::slice_subrange(s, a, b)
}

/// `c` in lower case, if it is an ASCII letter.
pub open spec fn lower(c: char) -> char {
    if 'A' <= c <= 'Z' {
        ((c as u8) + 32) as char
    } else {
        c
    }
}

/// `c` in lower case, if it is an ASCII letter.
pub fn to_lower(c: char) -> (r: char)
    ensures
        r == lower(c),
{
    if 'A' <= c && c <= 'Z' {
        ((c as u8) + 32) as char
    } else {
        c
    }
}

/// All of `s` in lower case.
pub open spec fn lowered(s: Seq<char>) -> Seq<char> {
    s.map_values(|c: char| lower(c))
}

/// All of `s` in lower case.
pub fn lowercase(s: &[char]) -> (r: Vec<char>)
    ensures
        r@ == lowered(s@),
{
    let mut out: Vec<char> = Vec::new();
    let mut i: usize = 0;
    while i < s.len()
        invariant
            i <= s@.len(),
            out@ == lowered(s@).take(i as int),
        decreases s.len() - i,
    {
        out.push(to_lower(s[i]));
        i += 1;
        assert(out@ =~= lowered(s@).take(i as int));
    }
    assert(lowered(s@).take(s@.len() as int) =~= lowered(s@));
    out
}

/// Whether two texts hold the same characters.
pub fn same_chars(a: &[char], b: &[char]) -> (r: bool)
    ensures
        r == (a@ == b@),
{
    if a.len() != b.len() {
        return false;
    }
    let mut i: usize = 0;
    while i < a.len()
        invariant
            i <= a@.len(),
            a@.len() == b@.len(),
            forall|j: int| 0 <= j < i ==> a@[j] == b@[j],
        decreases a.len() - i,
    {
        if a[i] != b[i] {
            return false;
        }
        i += 1;
    }
    assert(a@ =~= b@);
    true
}

/// Whether two texts differ in case at most.
pub fn same_but_case(a: &[char], b: &str) -> (r: bool)
    ensures
        r == (lowered(a@) == lowered(b@)),
{
    let x: Vec<char> = lowercase(a);
    let y: Vec<char> = lowercase(chars_of(b).as_slice());
    same_chars(x.as_slice(), y.as_slice())
}

/// `needle` stands at position `i` of `s`.
pub open spec fn stands_at(s: Seq<char>, needle: Seq<char>, i: int) -> bool {
    0 <= i && i + needle.len() <= s.len() && s.subrange(i, i + needle.len()) == needle
}

/// `needle` stands somewhere in `s`.
pub open spec fn holds(s: Seq<char>, needle: Seq<char>) -> bool {
    exists|i: int| #[trigger] stands_at(s, needle, i)
}

/// Whether `needle` stands somewhere in `s`.
pub fn contains(s: &[char], needle: &[char]) -> (r: bool)
    ensures
        r == holds(s@, needle@),
{
    if needle.len() > s.len() {
        return false;
    }
    let mut i: usize = 0;
    while i <= s.len() - needle.len()
        invariant
            i <= s@.len() - needle@.len() + 1,
            needle@.len() <= s@.len(),
            s@.len() <= usize::MAX,
            forall|j: int| 0 <= j < i ==> !#[trigger] stands_at(s@, needle@, j),
        decreases s.len() - i,
    {
        if same_chars(vstd::slice::slice_subrange(s, i, i + needle.len()), needle) {
            assert(stands_at(s@, needle@, i as int));
            return true;
        }
        assert(!stands_at(s@, needle@, i as int));
        if i == s.len() - needle.len() {
            return false;
        }
        i += 1;
    }
    false
}

/// The position of the first `c` from `i` on.
pub open spec fn first_at(s: Seq<char>, c: char, i: int) -> Option<int>
    decreases s.len() - i,
{
    if i < 0 || i >= s.len() {
        None
    } else if s[i] == c {
        Some(i)
    } else {
        first_at(s, c, i + 1)
    }
}

/// The position of the first `c` from `from` on.
pub fn find_char(s: &[char], c: char, from: usize) -> (r: Option<usize>)
    ensures
        match r {
            Some(i) => first_at(s@, c, from as int) == Some(i as int) && from <= i < s@.len()
                <= usize::MAX && s@[i as int] == c,
            None => first_at(s@, c, from as int) is None,
        },
{
    let mut i: usize = from;
    while i < s.len()
        invariant
            from <= i,
            first_at(s@, c, from as int) == first_at(s@, c, i as int),
        decreases s.len() - i,
    {
        if s[i] == c {
            return Some(i);
        }
        i += 1;
    }
    None
}

/// The value of a digit, of either case.
pub open spec fn digit_value(c: char) -> Option<int> {
    if '0' <= c <= '9' {
        Some(c as int - '0' as int)
    } else if 'a' <= c <= 'z' {
        Some(c as int - 'a' as int + 10)
    } else if 'A' <= c <= 'Z' {
        Some(c as int - 'A' as int + 10)
    } else {
        None
    }
}

/// The number that the first `n` digits of `s` make in base `radix`, if all
/// of them are digits of that base.
pub open spec fn number_in(s: Seq<char>, n: int, radix: int) -> Option<int>
    decreases n,
{
    if n <= 0 {
        Some(0)
    } else {
        match (number_in(s, n - 1, radix), digit_value(s[n - 1])) {
            (Some(v), Some(d)) => if d < radix {
                Some(v * radix + d)
            } else {
                None
            },
            _ => None,
        }
    }
}

/// The digits of a number: all of it but for one plus sign in front.
pub open spec fn unsigned_digits(s: Seq<char>) -> Seq<char> {
    if s.len() > 0 && s[0] == '+' {
        s.skip(1)
    } else {
        s
    }
}

/// The unsigned number that `s` spells in base `radix`, if it spells one that
/// is no greater than `max`.
pub open spec fn spelled(s: Seq<char>, radix: int, max: int) -> Option<int> {
    let d = unsigned_digits(s);
    match number_in(d, d.len() as int, radix) {
        Some(v) => if d.len() > 0 && v <= max {
            Some(v)
        } else {
            None
        },
        None => None,
    }
}

fn value_of(c: char) -> (r: Option<u64>)
    ensures
        match r {
            Some(v) => digit_value(c) == Some(v as int) && v < 36,
            None => digit_value(c) is None,
        },
{
    let n: u32 = c as u32;
    if '0' <= c && c <= '9' {
        Some((n - 48) as u64)
    } else if 'a' <= c && c <= 'z' {
        Some((n - 97 + 10) as u64)
    } else if 'A' <= c && c <= 'Z' {
        Some((n - 65 + 10) as u64)
    } else {
        None
    }
}

proof fn lemma_number_grows(s: Seq<char>, i: int, n: int, radix: int)
    requires
        0 <= i <= n <= s.len(),
        2 <= radix,
    ensures
        number_in(s, i, radix) is None ==> number_in(s, n, radix) is None,
        number_in(s, i, radix) matches Some(v) ==> 0 <= v && (number_in(s, n, radix) matches Some(
            w,
        ) ==> v <= w),
    decreases n,
{
    if n > i {
        lemma_number_grows(s, i, n - 1, radix);
        if let Some(w) = number_in(s, n - 1, radix) {
            assert(w * radix >= w) by (nonlinear_arith)
                requires
                    w >= 0,
                    radix >= 2,
            ;
        }
    } else if n > 0 {
        lemma_number_grows(s, i - 1, n - 1, radix);
        if let Some(w) = number_in(s, n - 1, radix) {
            assert(w * radix >= 0) by (nonlinear_arith)
                requires
                    w >= 0,
                    radix >= 2,
            ;
        }
    }
}

/// The unsigned number that `s` spells in base `radix`, if it spells one that
/// is no greater than `max`.
pub fn parse(s: &[char], radix: u64, max: u64) -> (r: Option<u64>)
    requires
        2 <= radix <= 36,
    ensures
        match r {
            Some(v) => spelled(s@, radix as int, max as int) == Some(v as int),
            None => spelled(s@, radix as int, max as int) is None,
        },
{
    let start: usize = if s.len() > 0 && s[0] == '+' {
        1
    } else {
        0
    };
    let d: &[char] = vstd::slice::slice_subrange(s, start, s.len());
    assert(d@ =~= unsigned_digits(s@));
    if d.len() == 0 {
        return None;
    }
    let mut v: u64 = 0;
    let mut i: usize = 0;
    while i < d.len()
        invariant
            i <= d@.len(),
            2 <= radix <= 36,
            d@ == unsigned_digits(s@),
            number_in(d@, i as int, radix as int) == Some(v as int),
            v <= max,
        decreases d.len() - i,
    {
        proof {
            lemma_number_grows(d@, i + 1, d@.len() as int, radix as int);
        }
        match value_of(d[i]) {
            None => {
                return None;
            },
            Some(x) => {
                if x >= radix {
                    return None;
                }
                proof {
                    assert(v as int * radix as int <= 0xffff_ffff_ffff_ffff * 36)
                        by (nonlinear_arith)
                        requires
                            v <= 0xffff_ffff_ffff_ffff,
                            radix <= 36,
                    ;
                }
                let w: u128 = v as u128 * radix as u128;
                let w: u128 = w + x as u128;
                if w > max as u128 {
                    return None;
                }
                v = w as u64;
            },
        }
        i += 1;
    }
    Some(v)
}

/// The parts of `s` between the separators `c`.
pub open spec fn parts(s: Seq<char>, c: char) -> Seq<Seq<char>>
    decreases s.len(),
{
    match first_at(s, c, 0) {
        None => seq![s],
        Some(k) => if 0 <= k < s.len() {
            seq![s.take(k)] + parts(s.skip(k + 1), c)
        } else {
            seq![s]
        },
    }
}

/// The characters of several texts.
pub open spec fn char_parts(v: Seq<Vec<char>>) -> Seq<Seq<char>> {
    v.map_values(|p: Vec<char>| p@)
}

fn copy_chars(s: &[char]) -> (r: Vec<char>)
    ensures
        r@ == s@,
{
    let mut out: Vec<char> = Vec::new();
    out.extend_from_slice(s);
    assert(out@ =~= s@);
    out
}

/// The parts of `s` between the separators `c`.
pub fn split(s: &[char], c: char) -> (r: Vec<Vec<char>>)
    ensures
        char_parts(r@) == parts(s@, c),
{
    let mut out: Vec<Vec<char>> = Vec::new();
    let mut rest: &[char] = s;
    assert(char_parts(out@) + parts(s@, c) =~= parts(s@, c));
    loop
        invariant
            parts(s@, c) == char_parts(out@) + parts(rest@, c),
        decreases rest@.len(),
    {
        let ghost before = char_parts(out@);
        match find_char(rest, c, 0) {
            None => {
                out.push(copy_chars(rest));
                assert(char_parts(out@) =~= before + seq![rest@]);
                return out;
            },
            Some(k) => {
                let head: &[char] = vstd::slice::slice_subrange(rest, 0, k);
                let tail: &[char] = vstd::slice::slice_subrange(rest, k + 1, rest.len());
                out.push(copy_chars(head));
                proof {
                    assert(head@ =~= rest@.take(k as int));
                    assert(tail@ =~= rest@.skip(k + 1));
                    assert(char_parts(out@) =~= before + seq![rest@.take(k as int)]);
                    assert(char_parts(out@) + parts(tail@, c) =~= before + (seq![
                        rest@.take(k as int),
                    ] + parts(tail@, c)));
                }
                rest = tail;
            },
        }
    }
}

/// Each byte as the character with its number.
pub open spec fn latin(b: Seq<u8>) -> Seq<char> {
    b.map_values(|x: u8| x as char)
}

/// Each byte as the character with its number.
pub fn from_latin(b: &[u8]) -> (r: Vec<char>)
    ensures
        r@ == latin(b@),
{
    let mut out: Vec<char> = Vec::new();
    let mut i: usize = 0;
    while i < b.len()
        invariant
            i <= b@.len(),
            out@ =~= latin(b@).take(i as int),
        decreases b.len() - i,
    {
        out.push(b[i] as char);
        i += 1;
    }
    assert(latin(b@).take(i as int) =~= latin(b@));
    out
}

/// `s` holds digits of base `radix` only.
pub open spec fn all_digits(s: Seq<char>, radix: int) -> bool {
    forall|i: int| 0 <= i < s.len() ==> is_digit(#[trigger] s[i], radix)
}

/// `c` is a digit of base `radix`.
pub open spec fn is_digit(c: char, radix: int) -> bool {
    match digit_value(c) {
        Some(v) => v < radix,
        None => false,
    }
}

/// Whether `s` holds digits of base `radix` only.
pub fn only_digits(s: &[char], radix: u64) -> (r: bool)
    ensures
        r == all_digits(s@, radix as int),
{
    let mut i: usize = 0;
    while i < s.len()
        invariant
            i <= s@.len(),
            forall|j: int| 0 <= j < i ==> is_digit(#[trigger] s@[j], radix as int),
        decreases s.len() - i,
    {
        let ok: bool = match value_of(s[i]) {
            Some(v) => v < radix,
            None => false,
        };
        if !ok {
            assert(!is_digit(s@[i as int], radix as int));
            return false;
        }
        i += 1;
    }
    true
}

} // verus!
