//! Byte-string order, fixed-width numerals and segment splitting.

use vstd::prelude::*;
use vstd::string::*;

verus! {

/// `left` and `right` agree before `at` and `right` is the greater one there.
pub open spec fn parts_at(left: Seq<u8>, right: Seq<u8>, at: int) -> bool {
    &&& 0 <= at <= left.len()
    &&& at < right.len()
    &&& forall|i: int| 0 <= i < at ==> left[i] == right[i]
    &&& at == left.len() || left[at] < right[at]
}

/// Lexicographic byte order.
pub open spec fn bytes_less(left: Seq<u8>, right: Seq<u8>) -> bool {
    exists|at: int| parts_at(left, right, at)
}

/// Byte order is irreflexive and asymmetric.
pub proof fn lemma_bytes_less_asymmetric(left: Seq<u8>, right: Seq<u8>)
    requires
        bytes_less(left, right),
    ensures
        !bytes_less(right, left),
        left != right,
{
    let at = choose|at: int| parts_at(left, right, at);
    if bytes_less(right, left) {
        let other = choose|other: int| parts_at(right, left, other);
        if other < at {
            assert(left[other] == right[other]);
        } else if at < other {
            assert(right[at] == left[at]);
        }
        assert(false);
    }
}

/// Byte order is transitive.
pub proof fn lemma_bytes_less_transitive(first: Seq<u8>, second: Seq<u8>, third: Seq<u8>)
    requires
        bytes_less(first, second),
        bytes_less(second, third),
    ensures
        bytes_less(first, third),
{
    let at = choose|at: int| parts_at(first, second, at);
    let other = choose|other: int| parts_at(second, third, other);
    let least = if at < other {
        at
    } else {
        other
    };
    assert(parts_at(first, third, least));
}

proof fn lemma_bytes_less_total_from(left: Seq<u8>, right: Seq<u8>, from: int)
    requires
        0 <= from <= left.len(),
        from <= right.len(),
        forall|i: int| 0 <= i < from ==> left[i] == right[i],
    ensures
        left == right || bytes_less(left, right) || bytes_less(right, left),
    decreases left.len() - from,
{
    if from == left.len() && from == right.len() {
        assert(left =~= right);
    } else if from == left.len() {
        assert(parts_at(left, right, from));
    } else if from == right.len() {
        assert(parts_at(right, left, from));
    } else if left[from] < right[from] {
        assert(parts_at(left, right, from));
    } else if right[from] < left[from] {
        assert(parts_at(right, left, from));
    } else {
        lemma_bytes_less_total_from(left, right, from + 1);
    }
}

/// Two different byte strings are ordered one way or the other.
pub proof fn lemma_bytes_less_total(left: Seq<u8>, right: Seq<u8>)
    ensures
        left == right || bytes_less(left, right) || bytes_less(right, left),
{
    lemma_bytes_less_total_from(left, right, 0);
}

/// A shared prefix does not change the order.
pub proof fn lemma_bytes_less_prefix(prefix: Seq<u8>, left: Seq<u8>, right: Seq<u8>)
    requires
        bytes_less(left, right),
    ensures
        bytes_less(prefix + left, prefix + right),
{
    let at = choose|at: int| parts_at(left, right, at);
    assert(parts_at(prefix + left, prefix + right, prefix.len() + at));
}

/// Decides lexicographic byte order.
pub fn is_bytes_less(left: &[u8], right: &[u8]) -> (less: bool)
    ensures
        less == bytes_less(left@, right@),
{
    let mut at: usize = 0;
    while at < left.len() && at < right.len() && left[at] == right[at]
        invariant
            at <= left.len(),
            at <= right.len(),
            forall|i: int| 0 <= i < at ==> left@[i] == right@[i],
        decreases left.len() - at,
    {
        at += 1;
    }
    if at < right.len() && (at == left.len() || left[at] < right[at]) {
        assert(parts_at(left@, right@, at as int));
        return true;
    }
    proof {
        if bytes_less(left@, right@) {
            let other = choose|other: int| parts_at(left@, right@, other);
            if other < at {
                assert(left@[other] == right@[other]);
            } else if at < other {
                assert(left@[at as int] == right@[at as int]);
            }
            assert(false);
        }
    }
    false
}

/// Decides whether two byte strings are the same.
pub fn is_bytes_equal(left: &[u8], right: &[u8]) -> (equal: bool)
    ensures
        equal == (left@ == right@),
{
    if left.len() != right.len() {
        return false;
    }
    let mut at: usize = 0;
    while at < left.len()
        invariant
            at <= left.len(),
            left.len() == right.len(),
            forall|i: int| 0 <= i < at ==> left@[i] == right@[i],
        decreases left.len() - at,
    {
        if left[at] != right[at] {
            return false;
        }
        at += 1;
    }
    assert(left@ =~= right@);
    true
}

/// A copy of a byte string.
pub fn copy_bytes(bytes: &[u8]) -> (copy: Vec<u8>)
    ensures
        copy@ == bytes@,
{
    vstd::slice::slice_to_vec(bytes)
}

/// Every byte is an ASCII byte.
pub open spec fn all_ascii(bytes: Seq<u8>) -> bool {
    forall|i: int| 0 <= i < bytes.len() ==> #[trigger] bytes[i] < 128
}

/// The characters that ASCII bytes spell.
pub open spec fn ascii_chars(bytes: Seq<u8>) -> Seq<char> {
    Seq::new(bytes.len(), |i: int| bytes[i] as char)
}

/// `String::push`: appends the character at the end.
pub assume_specification[ String::push ](text: &mut String, character: char)
    ensures
        final(text)@ == old(text)@.push(character),
;

/// The text that ASCII bytes spell.
pub fn text_of_ascii(bytes: &[u8]) -> (text: String)
    requires
        all_ascii(bytes@),
    ensures
        text@ == ascii_chars(bytes@),
{
    let mut text = String::new();
    let mut at: usize = 0;
    assert(text@ =~= ascii_chars(bytes@.take(0)));
    while at < bytes.len()
        invariant
            at <= bytes.len(),
            all_ascii(bytes@),
            text@ == ascii_chars(bytes@.take(at as int)),
        decreases bytes.len() - at,
    {
        let byte: u8 = bytes[at];
        text.push(byte as char);
        assert(text@ =~= ascii_chars(bytes@.take(at + 1)));
        at += 1;
    }
    assert(bytes@.take(at as int) =~= bytes@);
    text
}

/// The byte is a decimal digit.
pub open spec fn is_digit(byte: u8) -> bool {
    48 <= byte <= 57
}

/// Every byte is a decimal digit.
pub open spec fn all_digits(bytes: Seq<u8>) -> bool {
    forall|i: int| 0 <= i < bytes.len() ==> #[trigger] is_digit(bytes[i])
}

/// The number that decimal digits spell.
pub open spec fn decimal_value(digits: Seq<u8>) -> nat
    decreases digits.len(),
{
    if digits.len() == 0 {
        0
    } else {
        decimal_value(digits.drop_last()) * 10 + (digits.last() - 48) as nat
    }
}

/// Ten to the power `exponent`.
pub open spec fn ten_to(exponent: nat) -> nat
    decreases exponent,
{
    if exponent == 0 {
        1
    } else {
        10 * ten_to((exponent - 1) as nat)
    }
}

/// The `width` low decimal digits of `value`, most significant first.
pub open spec fn fixed_decimal(value: nat, width: nat) -> Seq<u8>
    decreases width,
{
    if width == 0 {
        Seq::empty()
    } else {
        fixed_decimal(value / 10, (width - 1) as nat).push((48 + value % 10) as u8)
    }
}

pub proof fn lemma_fixed_decimal_shape(value: nat, width: nat)
    ensures
        fixed_decimal(value, width).len() == width,
        all_digits(fixed_decimal(value, width)),
    decreases width,
{
    if width > 0 {
        lemma_fixed_decimal_shape(value / 10, (width - 1) as nat);
    }
}

/// Reading back a fixed-width spelling gives the number that was spelled.
pub proof fn lemma_fixed_decimal_value(value: nat, width: nat)
    requires
        value < ten_to(width),
    ensures
        decimal_value(fixed_decimal(value, width)) == value,
    decreases width,
{
    if width > 0 {
        let shorter = fixed_decimal(value / 10, (width - 1) as nat);
        lemma_fixed_decimal_value(value / 10, (width - 1) as nat);
        assert(fixed_decimal(value, width).drop_last() =~= shorter);
    }
}

/// A spelling has only one number of digits to spell a number with, so digits
/// are the fixed-width spelling of their value.
pub proof fn lemma_digits_are_fixed_decimal(digits: Seq<u8>)
    requires
        all_digits(digits),
    ensures
        fixed_decimal(decimal_value(digits), digits.len()) == digits,
    decreases digits.len(),
{
    if digits.len() > 0 {
        let shorter = digits.drop_last();
        assert forall|i: int| 0 <= i < shorter.len() implies #[trigger] is_digit(shorter[i]) by {
            assert(is_digit(digits[i]));
        }
        lemma_digits_are_fixed_decimal(shorter);
        assert(is_digit(digits[digits.len() - 1]));
        let value = decimal_value(digits);
        assert(value / 10 == decimal_value(shorter));
        assert(value % 10 == digits.last() - 48);
        assert(shorter.push(digits.last()) =~= digits);
    }
}

/// The order of two numbers is the byte order of their spellings of one width.
pub proof fn lemma_fixed_decimal_order(left: nat, right: nat, width: nat)
    requires
        left < right,
        right < ten_to(width),
    ensures
        bytes_less(fixed_decimal(left, width), fixed_decimal(right, width)),
    decreases width,
{
    if width > 0 {
        let shorter = (width - 1) as nat;
        let left_text = fixed_decimal(left, width);
        let right_text = fixed_decimal(right, width);
        lemma_fixed_decimal_shape(left / 10, shorter);
        lemma_fixed_decimal_shape(right / 10, shorter);
        if left / 10 < right / 10 {
            lemma_fixed_decimal_order(left / 10, right / 10, shorter);
            let left_high = fixed_decimal(left / 10, shorter);
            let right_high = fixed_decimal(right / 10, shorter);
            let at = choose|at: int| parts_at(left_high, right_high, at);
            assert(parts_at(left_text, right_text, at));
        } else {
            assert(left / 10 == right / 10);
            assert(parts_at(left_text, right_text, shorter as int));
        }
    }
}

pub proof fn lemma_decimal_value_bound(digits: Seq<u8>)
    requires
        all_digits(digits),
    ensures
        decimal_value(digits) < ten_to(digits.len()),
    decreases digits.len(),
{
    if digits.len() > 0 {
        let shorter = digits.drop_last();
        assert forall|i: int| 0 <= i < shorter.len() implies #[trigger] is_digit(shorter[i]) by {
            assert(is_digit(digits[i]));
        }
        assert(is_digit(digits[digits.len() - 1]));
        lemma_decimal_value_bound(shorter);
    }
}

proof fn lemma_ten_to_20()
    ensures
        ten_to(20) == 100_000_000_000_000_000_000nat,
        ten_to(10) == 10_000_000_000nat,
{
    reveal_with_fuel(ten_to, 21);
}

/// Every 64-bit number fits twenty decimal digits, every 32-bit number ten.
pub proof fn lemma_machine_numbers_fit()
    ensures
        u64::MAX < ten_to(20),
        u32::MAX < ten_to(10),
{
    lemma_ten_to_20();
}

/// The number that exactly `width` decimal digits spell, if it fits 64 bits.
pub open spec fn spec_parse_digits(bytes: Seq<u8>, width: nat) -> Option<u64> {
    if bytes.len() == width && all_digits(bytes) && decimal_value(bytes) <= u64::MAX {
        Some(decimal_value(bytes) as u64)
    } else {
        None
    }
}

/// Reads exactly `width` decimal digits.
pub fn parse_digits(bytes: &[u8], width: usize) -> (number: Option<u64>)
    requires
        width <= 20,
    ensures
        number == spec_parse_digits(bytes@, width as nat),
{
    if bytes.len() != width {
        return None;
    }
    let mut value: u128 = 0;
    let mut at: usize = 0;
    while at < bytes.len()
        invariant
            at <= bytes.len(),
            bytes.len() == width,
            width <= 20,
            all_digits(bytes@.take(at as int)),
            value == decimal_value(bytes@.take(at as int)),
        decreases bytes.len() - at,
    {
        let byte: u8 = bytes[at];
        if byte < 48 || byte > 57 {
            assert(!is_digit(bytes@[at as int]));
            return None;
        }
        proof {
            let taken = bytes@.take(at as int);
            let longer = bytes@.take(at + 1);
            assert(longer.drop_last() =~= taken);
            assert forall|i: int| 0 <= i < longer.len() implies #[trigger] is_digit(longer[i]) by {
                if i < at {
                    assert(is_digit(taken[i]));
                }
            }
            lemma_decimal_value_bound(taken);
            lemma_ten_to_monotone(at as nat, 20);
            lemma_ten_to_20();
        }
        value = value * 10 + (byte - 48) as u128;
        at += 1;
    }
    assert(bytes@.take(at as int) =~= bytes@);
    if value > u64::MAX as u128 {
        None
    } else {
        Some(value as u64)
    }
}

proof fn lemma_ten_to_monotone(less: nat, more: nat)
    requires
        less <= more,
    ensures
        ten_to(less) <= ten_to(more),
    decreases more,
{
    if less < more {
        lemma_ten_to_monotone(less, (more - 1) as nat);
    }
}

/// Appends the fixed-width decimal spelling of a number.
pub fn push_fixed_decimal(out: &mut Vec<u8>, value: u64, width: usize)
    ensures
        final(out)@ == old(out)@ + fixed_decimal(value as nat, width as nat),
    decreases width,
{
    if width == 0 {
        assert(out@ =~= old(out)@ + fixed_decimal(value as nat, width as nat));
        return;
    }
    push_fixed_decimal(out, value / 10, width - 1);
    let ghost before = out@;
    out.push((48 + value % 10) as u8);
    assert(out@ =~= old(out)@ + fixed_decimal(value as nat, width as nat));
}

/// Appends a byte string.
pub fn push_bytes(out: &mut Vec<u8>, bytes: &[u8])
    ensures
        final(out)@ == old(out)@ + bytes@,
{
    let mut at: usize = 0;
    assert(out@ =~= old(out)@ + bytes@.take(0));
    while at < bytes.len()
        invariant
            at <= bytes.len(),
            out@ == old(out)@ + bytes@.take(at as int),
        decreases bytes.len() - at,
    {
        out.push(bytes[at]);
        assert(out@ =~= old(out)@ + bytes@.take(at + 1));
        at += 1;
    }
    assert(bytes@.take(at as int) =~= bytes@);
}

/// `at` is the first place in `bytes` that holds `separator`, or the end.
pub open spec fn is_segment_end(bytes: Seq<u8>, separator: u8, at: int) -> bool {
    &&& 0 <= at <= bytes.len()
    &&& forall|i: int| 0 <= i < at ==> bytes[i] != separator
    &&& at < bytes.len() ==> bytes[at] == separator
}

/// The length of the segment that `bytes` starts with.
pub open spec fn segment_end(bytes: Seq<u8>, separator: u8) -> int
    decreases bytes.len(),
{
    if bytes.len() == 0 || bytes[0] == separator {
        0
    } else {
        1 + segment_end(bytes.skip(1), separator)
    }
}

pub proof fn lemma_segment_end(bytes: Seq<u8>, separator: u8)
    ensures
        is_segment_end(bytes, separator, segment_end(bytes, separator)),
    decreases bytes.len(),
{
    if bytes.len() > 0 && bytes[0] != separator {
        let rest = bytes.skip(1);
        lemma_segment_end(rest, separator);
        let end = segment_end(rest, separator);
        assert forall|i: int| 0 <= i < 1 + end implies bytes[i] != separator by {
            if i > 0 {
                assert(rest[i - 1] == bytes[i]);
            }
        }
        if 1 + end < bytes.len() {
            assert(rest[end] == bytes[1 + end]);
        }
    }
}

proof fn lemma_segment_end_unique(bytes: Seq<u8>, separator: u8, at: int)
    requires
        is_segment_end(bytes, separator, at),
    ensures
        at == segment_end(bytes, separator),
{
    lemma_segment_end(bytes, separator);
    let end = segment_end(bytes, separator);
    if at < end {
        assert(bytes[at] != separator);
    } else if end < at {
        assert(bytes[end] != separator);
    }
}

/// The segments of `bytes` between separators; there is always at least one.
pub open spec fn segments(bytes: Seq<u8>, separator: u8) -> Seq<Seq<u8>>
    decreases bytes.len(),
    via segments_shrink
{
    let end = segment_end(bytes, separator);
    if end >= bytes.len() {
        seq![bytes]
    } else {
        seq![bytes.take(end)] + segments(bytes.skip(end + 1), separator)
    }
}

#[via_fn]
proof fn segments_shrink(bytes: Seq<u8>, separator: u8) {
    lemma_segment_end(bytes, separator);
}

/// A text without a separator is its only segment.
pub proof fn lemma_segments_last(segment: Seq<u8>, separator: u8)
    requires
        forall|i: int| 0 <= i < segment.len() ==> segment[i] != separator,
    ensures
        segments(segment, separator) == seq![segment],
{
    lemma_segment_end_unique(segment, separator, segment.len() as int);
}

/// A segment, a separator and a rest split into the segment and the rest's segments.
pub proof fn lemma_segments_first(segment: Seq<u8>, separator: u8, rest: Seq<u8>)
    requires
        forall|i: int| 0 <= i < segment.len() ==> segment[i] != separator,
    ensures
        segments(segment + seq![separator] + rest, separator) == seq![segment] + segments(
            rest,
            separator,
        ),
{
    let whole = segment + seq![separator] + rest;
    lemma_segment_end_unique(whole, separator, segment.len() as int);
    assert(whole.take(segment.len() as int) =~= segment);
    assert(whole.skip(segment.len() as int + 1) =~= rest);
}

/// Splits a byte string at every separator.
pub fn split_segments<'a>(bytes: &'a [u8], separator: u8) -> (parts: Vec<&'a [u8]>)
    ensures
        parts@.len() == segments(bytes@, separator).len(),
        forall|i: int|
            0 <= i < parts@.len() ==> (#[trigger] parts@[i])@ == segments(bytes@, separator)[i],
{
    let mut parts: Vec<&'a [u8]> = Vec::new();
    let mut start: usize = 0;
    let mut at: usize = 0;
    let ghost whole = segments(bytes@, separator);
    assert(bytes@.skip(0) =~= bytes@);
    while at < bytes.len()
        invariant
            start <= at <= bytes.len(),
            forall|i: int| start <= i < at ==> bytes@[i] != separator,
            whole == segments(bytes@, separator),
            parts@.len() <= whole.len(),
            forall|i: int| 0 <= i < parts@.len() ==> (#[trigger] parts@[i])@ == whole[i],
            whole.skip(parts@.len() as int) == segments(bytes@.skip(start as int), separator),
        decreases bytes.len() - at,
    {
        if bytes[at] == separator {
            let ghost rest = bytes@.skip(start as int);
            proof {
                lemma_segment_end_unique(rest, separator, at - start);
                assert(rest.take(at - start) =~= bytes@.subrange(start as int, at as int));
                assert(rest.skip(at - start + 1) =~= bytes@.skip(at + 1));
                let count = parts@.len() as int;
                assert(whole.skip(count).len() >= 1);
                assert(whole[count] == whole.skip(count)[0]);
                assert(whole.skip(count + 1) =~= whole.skip(count).skip(1));
                assert(whole.skip(count).skip(1) =~= segments(bytes@.skip(at + 1), separator));
            }
            parts.push(vstd::slice::slice_subrange(bytes, start, at));
            start = at + 1;
        }
        at += 1;
    }
    proof {
        let rest = bytes@.skip(start as int);
        lemma_segment_end_unique(rest, separator, at - start);
        assert(rest =~= bytes@.subrange(start as int, at as int));
        let count = parts@.len() as int;
        assert(whole.skip(count) =~= seq![rest]);
        assert(whole[count] == whole.skip(count)[0]);
        assert(whole.len() == count + 1);
    }
    parts.push(vstd::slice::slice_subrange(bytes, start, at));
    parts
}

/// Segments put together with separators between them.
pub open spec fn joined(parts: Seq<Seq<u8>>, separator: u8) -> Seq<u8>
    decreases parts.len(),
{
    if parts.len() == 0 {
        Seq::empty()
    } else if parts.len() == 1 {
        parts[0]
    } else {
        parts[0] + seq![separator] + joined(parts.skip(1), separator)
    }
}

/// Joining the segments of a text gives the text back.
pub proof fn lemma_joined_segments(bytes: Seq<u8>, separator: u8)
    ensures
        joined(segments(bytes, separator), separator) == bytes,
        segments(bytes, separator).len() >= 1,
    decreases bytes.len(),
{
    lemma_segment_end(bytes, separator);
    let end = segment_end(bytes, separator);
    if end < bytes.len() {
        let rest = bytes.skip(end + 1);
        lemma_joined_segments(rest, separator);
        let parts = segments(bytes, separator);
        assert(parts.skip(1) =~= segments(rest, separator));
        assert(parts[0] == bytes.take(end));
        assert(bytes.take(end) + seq![separator] + rest =~= bytes);
    }
}

/// ASCII text is the same length in bytes as in characters, byte for character.
pub proof fn lemma_ascii_literal(text: &str)
    requires
        is_ascii(text),
    ensures
        vstd::utf8::encode_utf8(text@).len() == text@.len(),
        forall|i: int|
            0 <= i < text@.len() ==> #[trigger] vstd::utf8::encode_utf8(text@)[i] == text@[i] as u8,
        all_ascii(vstd::utf8::encode_utf8(text@)),
{
    is_ascii_spec_bytes(text);
    let bytes = text.spec_bytes();
    assert forall|i: int| 0 <= i < bytes.len() implies #[trigger] bytes[i] < 128 by {
        assert((text@[i] as nat) < 128);
    }
}

/// The shortest decimal spelling of a number.
pub open spec fn decimal_text(value: nat) -> Seq<u8>
    decreases value,
{
    if value < 10 {
        seq![(48 + value) as u8]
    } else {
        decimal_text(value / 10).push((48 + value % 10) as u8)
    }
}

pub proof fn lemma_decimal_text_ascii(value: nat)
    ensures
        all_ascii(decimal_text(value)),
    decreases value,
{
    if value >= 10 {
        lemma_decimal_text_ascii(value / 10);
    }
}

/// Appends the shortest decimal spelling of a number.
pub fn push_decimal(out: &mut Vec<u8>, value: u64)
    ensures
        final(out)@ == old(out)@ + decimal_text(value as nat),
    decreases value,
{
    if value < 10 {
        out.push((48 + value) as u8);
    } else {
        push_decimal(out, value / 10);
        out.push((48 + value % 10) as u8);
    }
    assert(out@ =~= old(out)@ + decimal_text(value as nat));
}

/// The shortest decimal spelling of a number, as text.
pub open spec fn number_chars(value: nat) -> Seq<char> {
    ascii_chars(decimal_text(value))
}

/// Spells a number in decimal.
pub fn number_text(value: u64) -> (text: String)
    ensures
        text@ == number_chars(value as nat),
{
    let mut out: Vec<u8> = Vec::new();
    push_decimal(&mut out, value);
    proof {
        lemma_decimal_text_ascii(value as nat);
        assert(out@ =~= decimal_text(value as nat));
    }
    text_of_ascii(out.as_slice())
}

/// The `width` low hexadecimal digits of `value`, lowercase, most significant first.
pub open spec fn fixed_hex(value: nat, width: nat) -> Seq<u8>
    decreases width,
{
    if width == 0 {
        Seq::empty()
    } else {
        fixed_hex(value / 16, (width - 1) as nat).push(
            crate::domain::partition::hex_digit((value % 16) as int),
        )
    }
}

pub proof fn lemma_fixed_hex_ascii(value: nat, width: nat)
    ensures
        all_ascii(fixed_hex(value, width)),
    decreases width,
{
    if width > 0 {
        lemma_fixed_hex_ascii(value / 16, (width - 1) as nat);
    }
}

/// Appends the fixed-width hexadecimal spelling of a number.
pub fn push_fixed_hex(out: &mut Vec<u8>, value: u32, width: usize)
    ensures
        final(out)@ == old(out)@ + fixed_hex(value as nat, width as nat),
    decreases width,
{
    if width > 0 {
        push_fixed_hex(out, value / 16, width - 1);
        let nibble: u8 = (value % 16) as u8;
        out.push(
            if nibble < 10 {
                48 + nibble
            } else {
                87 + nibble
            },
        );
    }
    assert(out@ =~= old(out)@ + fixed_hex(value as nat, width as nat));
}

} // verus!
