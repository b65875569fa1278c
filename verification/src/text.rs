//! Text, as characters and as bytes.

use vstd::prelude::*;
use vstd::utf8::*;

verus! {

/// The byte that ends a line.
pub const NEWLINE: u8 = 10;

/// Appends one character, by `String::push`, which leaves what the text held
/// and puts the character after it.
#[verifier::external_body]
pub(crate) fn push_char(text: &mut String, c: char)
    ensures
        final(text)@ == old(text)@.push(c),
{
    text.push(c);
}

/// Whether two byte strings are the same.
pub fn same_bytes(a: &[u8], b: &[u8]) -> (r: bool)
    ensures
        r == (a@ == b@),
{
    if a.len() != b.len() {
        return false;
    }
    let mut i: usize = 0;
    while i < a.len()
        invariant
            i <= a.len(),
            a.len() == b.len(),
            forall|j: int| 0 <= j < i ==> a@[j] == b@[j],
        decreases a.len() - i,
    {
        if a[i] != b[i] {
            return false;
        }
        i = i + 1;
    }
    assert(a@ =~= b@);
    true
}

/// Appends bytes.
pub fn push_bytes(out: &mut Vec<u8>, more: &[u8])
    ensures
        final(out)@ == old(out)@ + more@,
{
    let ghost before = out@;
    let mut i: usize = 0;
    while i < more.len()
        invariant
            i <= more.len(),
            out@ == before + more@.subrange(0, i as int),
        decreases more.len() - i,
    {
        out.push(more[i]);
        assert(more@.subrange(0, i as int).push(more@[i as int]) =~= more@.subrange(0, i + 1));
        i = i + 1;
    }
    assert(more@.subrange(0, more@.len() as int) =~= more@);
}

/// A character below 128 stands in an encoded text exactly where it stands in
/// the characters: no other character's encoding holds its byte.
pub proof fn lemma_ascii_in_encoding(chars: Seq<char>, c: char)
    requires
        (c as u32) < 128,
    ensures
        chars.contains(c) <==> encode_utf8(chars).contains(c as u8),
    decreases chars.len(),
{
    if chars.len() == 0 {
        assert(!encode_utf8(chars).contains(c as u8));
    } else {
        let head = chars[0];
        let tail = chars.drop_first();
        lemma_ascii_in_encoding(tail, c);
        lemma_scalar_bytes(head, c);
        let e = encode_scalar(head as u32);
        let f = encode_utf8(tail);
        assert(encode_utf8(chars) == e + f);
        assert(chars =~= seq![head] + tail);
        assert((e + f).contains(c as u8) <==> e.contains(c as u8) || f.contains(c as u8)) by {
            if e.contains(c as u8) {
                let k = e.index_of(c as u8);
                assert((e + f)[k] == c as u8);
            }
            if f.contains(c as u8) {
                let k = f.index_of(c as u8);
                assert((e + f)[e.len() + k] == c as u8);
            }
        }
        assert(chars.contains(c) <==> head == c || tail.contains(c)) by {
            if tail.contains(c) {
                let k = tail.index_of(c);
                assert(chars[k + 1] == c);
            }
            if head == c {
                assert(chars[0] == c);
            }
            if chars.contains(c) {
                let k = chars.index_of(c);
                if k > 0 {
                    assert(tail[k - 1] == c);
                }
            }
        }
    }
}

proof fn lemma_scalar_bytes(head: char, c: char)
    requires
        (c as u32) < 128,
    ensures
        encode_scalar(head as u32).contains(c as u8) <==> head == c,
{
    let v = head as u32;
    let e = encode_scalar(v);
    char_is_scalar(head);
    assert(forall|x: u32|
        0x80u32 <= x && x <= 0x7ffu32 ==> #[trigger] (leading_byte_width_2(x)) >= 128
            && last_continuation_byte(x) >= 128) by (bit_vector);
    assert(forall|x: u32|
        0x800u32 <= x && x <= 0xffffu32 ==> #[trigger] (leading_byte_width_3(x)) >= 128
            && second_last_continuation_byte(x) >= 128 && last_continuation_byte(x) >= 128)
        by (bit_vector);
    assert(forall|x: u32|
        0x1_0000u32 <= x && x <= 0x10_ffffu32 ==> #[trigger] (leading_byte_width_4(x)) >= 128
            && third_last_continuation_byte(x) >= 128 && second_last_continuation_byte(x) >= 128
            && last_continuation_byte(x) >= 128) by (bit_vector);
    if v < 128 {
        assert(leading_byte_width_1(v) == v as u8) by (bit_vector)
            requires
                v < 128,
        ;
        assert(e =~= seq![v as u8]);
        assert(e[0] == v as u8);
    } else {
        assert(forall|k: int| 0 <= k < e.len() ==> e[k] >= 128);
    }
}

/// The characters of a text, one by one.
pub fn chars_of(text: &str) -> (r: Vec<char>)
    ensures
        r@ == text@,
{
    let mut out: Vec<char> = Vec::new();
    for c in it: text.chars()
        invariant
            it.seq() == text@,
            out@ == text@.subrange(0, it.index() as int),
    {
        out.push(c);
        assert(out@ =~= text@.subrange(0, it.index() + 1));
    }
    assert(out@ =~= text@);
    out
}

/// The text of some characters.
pub fn text_of(chars: &[char]) -> (r: String)
    ensures
        r@ == chars@,
{
    let mut out = String::new();
    let mut i: usize = 0;
    while i < chars.len()
        invariant
            i <= chars.len(),
            out@ == chars@.subrange(0, i as int),
        decreases chars.len() - i,
    {
        push_char(&mut out, chars[i]);
        assert(chars@.subrange(0, i as int).push(chars@[i as int]) =~= chars@.subrange(0, i + 1));
        i = i + 1;
    }
    assert(out@ =~= chars@);
    out
}

/// Texts with the same encoding are the same text.
pub proof fn lemma_encoding_is_injective(a: Seq<char>, b: Seq<char>)
    ensures
        encode_utf8(a) == encode_utf8(b) <==> a == b,
{
    encode_utf8_decode_utf8(a);
    encode_utf8_decode_utf8(b);
}

/// Whether two texts are the same.
pub fn same_text(a: &str, b: &str) -> (r: bool)
    ensures
        r == (a@ == b@),
{
    proof {
        lemma_encoding_is_injective(a@, b@);
    }
    same_bytes(a.as_bytes(), b.as_bytes())
}

/// Whether `text` begins with `prefix`.
pub open spec fn begins(text: Seq<char>, prefix: Seq<char>) -> bool {
    prefix.len() <= text.len() && text.subrange(0, prefix.len() as int) == prefix
}

/// Whether the characters from `at` on begin with `prefix`.
pub fn begins_at(chars: &[char], at: usize, prefix: &[char]) -> (r: bool)
    requires
        at <= chars.len(),
    ensures
        r == begins(chars@.subrange(at as int, chars@.len() as int), prefix@),
{
    let ghost rest = chars@.subrange(at as int, chars@.len() as int);
    if chars.len() - at < prefix.len() {
        return false;
    }
    let mut i: usize = 0;
    while i < prefix.len()
        invariant
            i <= prefix.len() <= chars.len() - at,
            at <= chars.len(),
            rest == chars@.subrange(at as int, chars@.len() as int),
            forall|j: int| 0 <= j < i ==> rest[j] == prefix@[j],
        decreases prefix.len() - i,
    {
        assert(rest[i as int] == chars@[at + i]);
        if chars[at + i] != prefix[i] {
            assert(rest.subrange(0, prefix@.len() as int)[i as int] == rest[i as int]);
            return false;
        }
        i = i + 1;
    }
    assert(rest.subrange(0, prefix@.len() as int) =~= prefix@);
    true
}

/// Whether `text` begins with `prefix`.
pub fn begins_with(text: &str, prefix: &str) -> (r: bool)
    ensures
        r == begins(text@, prefix@),
{
    let text = chars_of(text);
    let prefix = chars_of(prefix);
    assert(text@.subrange(0, text@.len() as int) =~= text@);
    begins_at(text.as_slice(), 0, prefix.as_slice())
}

/// The character of one digit.
pub open spec fn digit(n: nat) -> char {
    if n == 0 {
        '0'
    } else if n == 1 {
        '1'
    } else if n == 2 {
        '2'
    } else if n == 3 {
        '3'
    } else if n == 4 {
        '4'
    } else if n == 5 {
        '5'
    } else if n == 6 {
        '6'
    } else if n == 7 {
        '7'
    } else if n == 8 {
        '8'
    } else {
        '9'
    }
}

/// A number in base `base`, with no leading zero.
pub open spec fn numeral(n: nat, base: nat) -> Seq<char>
    decreases n,
    when 2 <= base <= 10
    via numeral_decreases
{
    if n < base {
        seq![digit(n)]
    } else {
        numeral(n / base, base).push(digit(n % base))
    }
}

#[via_fn]
proof fn numeral_decreases(n: nat, base: nat) {
    if n > 0 {
        lemma_quotient(n, base);
    }
}

proof fn lemma_quotient(n: nat, base: nat)
    by (nonlinear_arith)
    requires
        2 <= base,
        0 < n,
    ensures
        n / base < n,
{
}

fn digit_of(n: u128) -> (r: char)
    requires
        n < 10,
    ensures
        r == digit(n as nat),
{
    match n {
        0 => '0',
        1 => '1',
        2 => '2',
        3 => '3',
        4 => '4',
        5 => '5',
        6 => '6',
        7 => '7',
        8 => '8',
        _ => '9',
    }
}

/// A number in base `base`, with no leading zero.
pub fn numeral_of(n: u128, base: u128) -> (r: String)
    requires
        2 <= base <= 10,
    ensures
        r@ == numeral(n as nat, base as nat),
    decreases n,
{
    if n < base {
        let mut out = String::new();
        push_char(&mut out, digit_of(n));
        assert(out@ =~= seq![digit(n as nat)]);
        return out;
    }
    proof {
        lemma_quotient(n as nat, base as nat);
    }
    let mut out = numeral_of(n / base, base);
    push_char(&mut out, digit_of(n % base));
    out
}

/// A number as it is written: in decimal.
pub open spec fn decimal(n: nat) -> Seq<char> {
    numeral(n, 10)
}

/// A number as it is written: in decimal.
pub fn decimal_of(n: usize) -> (r: String)
    ensures
        r@ == decimal(n as nat),
{
    numeral_of(n as u128, 10)
}

/// The text some bytes are, by `std::str::from_utf8`: it is there exactly when
/// the bytes are valid UTF-8, and its encoding is those bytes.
#[verifier::external_body]
pub(crate) fn utf8_text(bytes: &[u8]) -> (r: Option<&str>)
    ensures
        r is Some <==> valid_utf8(bytes@),
        r is Some ==> encode_utf8(r->0@) == bytes@,
{
    std::str::from_utf8(bytes).ok()
}

/// A text that may not be there.
pub open spec fn opt_text(text: Option<String>) -> Option<Seq<char>> {
    match text {
        Some(text) => Some(text@),
        None => None,
    }
}

/// Some strings as texts.
pub open spec fn strings(texts: Seq<String>) -> Seq<Seq<char>> {
    Seq::new(texts.len(), |i: int| texts[i]@)
}

/// The value of a decimal digit, if it is one.
pub open spec fn digit_value(c: char) -> Option<nat> {
    let v = c as u32;
    if 48 <= v <= 57 {
        Some((v - 48) as nat)
    } else {
        None
    }
}

fn value_of(c: char) -> (r: Option<u64>)
    ensures
        match r {
            Some(d) => digit_value(c) == Some(d as nat),
            None => digit_value(c) is None,
        },
{
    let v = c as u32;
    if v < 48 || v > 57 {
        None
    } else {
        Some((v - 48) as u64)
    }
}

/// The value of some decimal digits, if that is what they are.
pub open spec fn digits_value(text: Seq<char>) -> Option<nat>
    decreases text.len(),
{
    if text.len() == 0 {
        Some(0)
    } else {
        match (digits_value(text.drop_last()), digit_value(text.last())) {
            (Some(before), Some(d)) => Some(before * 10 + d),
            _ => None,
        }
    }
}

/// The number a count is: decimal digits, with or without a plus before them,
/// that fit.
pub open spec fn counted(text: Seq<char>) -> Option<nat> {
    let digits = if text.len() > 0 && text[0] == '+' {
        text.subrange(1, text.len() as int)
    } else {
        text
    };
    match digits_value(digits) {
        Some(n) => if digits.len() > 0 && n <= u64::MAX {
            Some(n)
        } else {
            None
        },
        None => None,
    }
}

proof fn lemma_digits_grow(text: Seq<char>, k: int)
    requires
        0 <= k <= text.len(),
    ensures
        digits_value(text.subrange(0, k)) is None ==> digits_value(text) is None,
        digits_value(text) is Some && digits_value(text.subrange(0, k)) is Some ==> digits_value(
            text,
        )->0 >= digits_value(text.subrange(0, k))->0,
    decreases text.len() - k,
{
    if k < text.len() {
        lemma_digits_grow(text, k + 1);
        assert(text.subrange(0, k + 1).drop_last() =~= text.subrange(0, k));
    } else {
        assert(text.subrange(0, k) =~= text);
    }
}

/// The number a count is.
pub fn count(text: &str) -> (r: Option<u64>)
    ensures
        match r {
            Some(n) => counted(text@) == Some(n as nat),
            None => counted(text@) is None,
        },
{
    let chars = chars_of(text);
    let start: usize = if chars.len() > 0 && chars[0] == '+' {
        1
    } else {
        0
    };
    let digits = vstd::slice::slice_subrange(chars.as_slice(), start, chars.len());
    assert(start == 0 ==> digits@ =~= text@);
    if digits.len() == 0 {
        return None;
    }
    let mut n: u64 = 0;
    let mut i: usize = 0;
    assert(digits@.subrange(0, 0) =~= Seq::empty());
    while i < digits.len()
        invariant
            i <= digits.len(),
            digits.len() > 0,
            digits@ == if text@.len() > 0 && text@[0] == '+' {
                text@.subrange(1, text@.len() as int)
            } else {
                text@
            },
            digits_value(digits@.subrange(0, i as int)) == Some(n as nat),
        decreases digits.len() - i,
    {
        let ghost more = digits@.subrange(0, i + 1);
        assert(more.drop_last() =~= digits@.subrange(0, i as int));
        proof {
            lemma_digits_grow(digits@, i + 1);
        }
        assert(more.last() == digits@[i as int]);
        let d = match value_of(digits[i]) {
            None => {
                assert(digits_value(more) is None);
                return None;
            },
            Some(d) => d,
        };
        assert(digits_value(more) == Some((n * 10 + d) as nat));
        match n.checked_mul(10) {
            None => {
                return None;
            },
            Some(tens) => match tens.checked_add(d) {
                None => {
                    return None;
                },
                Some(more) => {
                    n = more;
                },
            },
        }
        i = i + 1;
    }
    assert(digits@.subrange(0, digits@.len() as int) =~= digits@);
    Some(n)
}

proof fn lemma_digit_back(n: nat)
    requires
        n < 10,
    ensures
        digit_value(digit(n)) == Some(n),
        digit(n) != '+',
{
}

/// A number that was written in decimal reads back as itself.
pub proof fn lemma_decimal_back(n: nat)
    ensures
        digits_value(decimal(n)) == Some(n),
        decimal(n).len() > 0,
        decimal(n)[0] != '+',
        n <= u64::MAX ==> counted(decimal(n)) == Some(n),
    decreases n,
{
    if n < 10 {
        lemma_digit_back(n);
        assert(decimal(n) =~= seq![digit(n)]);
        assert(decimal(n).drop_last() =~= Seq::<char>::empty());
        assert(digits_value(Seq::<char>::empty()) == Some(0nat));
    } else {
        lemma_quotient(n, 10);
        lemma_decimal_back(n / 10);
        lemma_digit_back(n % 10);
        assert(decimal(n).drop_last() =~= decimal(n / 10));
        assert(decimal(n)[0] == decimal(n / 10)[0]);
    }
}

/// A number is its digits: the last is its remainder by the base, those before
/// it are what is left, and no digit stands for two values.
pub proof fn a_number_is_its_digits(n: nat, base: nat)
    requires
        2 <= base <= 10,
    ensures
        numeral(n, base).len() > 0,
        numeral(n, base).last() as u32 == 48 + n % base,
        n >= base ==> numeral(n, base).drop_last() == numeral(n / base, base),
        n < base ==> numeral(n, base).len() == 1,
{
    if n < base {
        vstd::arithmetic::div_mod::lemma_small_mod(n, base);
    } else {
        assert(numeral(n, base).drop_last() =~= numeral(n / base, base));
        vstd::arithmetic::div_mod::lemma_mod_bound(n as int, base as int);
    }
}

} // verus!
