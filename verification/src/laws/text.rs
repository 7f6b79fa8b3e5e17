//! What holds of texts: order, parts, numbers and padding.
use crate::text::{
    after_last, after_prefix, blanks, byte_len, byte_prefix, decimal, decoded_text, digit,
    digit_value, digits_value, find_char, has_infix, has_prefix, is_white, joined, last_position,
    lemma_byte_prefix, lemma_find_char, lemma_last_at, lemma_text_lt_irreflexive,
    lemma_text_lt_total, lemma_text_lt_transitive, padded_left, padded_right, parsed_u64, pieces,
    split_first, stands_at, text_lt, text_order, trimmed, trimmed_end, trimmed_start, unsigned,
    Order,
};
use vstd::prelude::*;
use vstd::utf8::encode_utf8;

verus! {

/// Texts agree on their first `k` characters, and there the first one ends or has
/// the smaller character.
pub open spec fn differs_at(a: Seq<char>, b: Seq<char>, k: int) -> bool {
    0 <= k <= a.len() && k < b.len() && a.take(k) == b.take(k) && (k == a.len() || a[k] < b[k])
}

/// A text sorts before another exactly where it is a proper beginning of it, or
/// has the smaller character at the first difference.
pub proof fn law_texts_are_ordered_by_the_first_difference(a: Seq<char>, b: Seq<char>)
    ensures
        text_lt(a, b) <==> exists|k: int| #[trigger] differs_at(a, b, k),
    decreases b.len(),
{
    if b.len() > 0 {
        if a.len() == 0 {
            assert(a.take(0) =~= b.take(0));
            assert(differs_at(a, b, 0));
        } else if a[0] != b[0] {
            if a[0] < b[0] {
                assert(a.take(0) =~= b.take(0));
                assert(differs_at(a, b, 0));
            }
            if exists|k: int| #[trigger] differs_at(a, b, k) {
                let k = choose|k: int| #[trigger] differs_at(a, b, k);
                if k > 0 {
                    assert(a.take(k)[0] == b.take(k)[0]);
                }
            }
        } else {
            let x = a.skip(1);
            let y = b.skip(1);
            law_texts_are_ordered_by_the_first_difference(x, y);
            if text_lt(x, y) {
                let k = choose|k: int| #[trigger] differs_at(x, y, k);
                assert(a.take(k + 1) =~= seq![a[0]] + x.take(k));
                assert(b.take(k + 1) =~= seq![b[0]] + y.take(k));
                assert(differs_at(a, b, k + 1));
            }
            if exists|k: int| #[trigger] differs_at(a, b, k) {
                let k = choose|k: int| #[trigger] differs_at(a, b, k);
                if k == 0 {
                    assert(false);
                }
                assert(x.take(k - 1) =~= a.take(k).skip(1));
                assert(y.take(k - 1) =~= b.take(k).skip(1));
                assert(differs_at(x, y, k - 1));
            }
        }
    }
}

/// The outcome of a comparison: equal for equal texts only, and turned round when
/// the texts are.
pub proof fn law_comparison_is_fair(a: Seq<char>, b: Seq<char>)
    ensures
        text_order(a, b) == Order::Equal <==> a == b,
        text_order(a, b) == Order::Less <==> text_lt(a, b),
        text_order(a, b) == Order::Greater <==> text_lt(b, a),
{
    lemma_text_lt_total(a, b);
    lemma_text_lt_irreflexive(a);
    if text_lt(a, b) && text_lt(b, a) {
        lemma_text_lt_transitive(a, b, a);
    }
}

/// A text has a prefix exactly where it is that prefix and something behind it.
pub proof fn law_prefix_is_followed_by_the_rest(s: Seq<char>, p: Seq<char>)
    ensures
        has_prefix(s, p) <==> exists|rest: Seq<char>| s == #[trigger] (p + rest),
        forall|rest: Seq<char>| #![trigger p + rest] after_prefix(p + rest, p) == Some(rest),
        after_prefix(s, p) is None <==> !has_prefix(s, p),
{
    if has_prefix(s, p) {
        assert(s =~= p + s.skip(p.len() as int));
    }
    if exists|rest: Seq<char>| s == #[trigger] (p + rest) {
        let rest = choose|rest: Seq<char>| s == #[trigger] (p + rest);
        assert(s.take(p.len() as int) =~= p);
    }
    assert forall|rest: Seq<char>| #![trigger p + rest] after_prefix(p + rest, p) == Some(
        rest,
    ) by {
        let t = p + rest;
        assert(t.take(p.len() as int) =~= p);
        assert(t.skip(p.len() as int) =~= rest);
    }
}

/// A pattern stands between two texts.
pub open spec fn between(s: Seq<char>, a: Seq<char>, p: Seq<char>, b: Seq<char>) -> bool {
    s == a + p + b
}

/// A text holds a pattern exactly where it is something, the pattern, and
/// something else.
pub proof fn law_infix_stands_between(s: Seq<char>, p: Seq<char>)
    ensures
        has_infix(s, p) <==> exists|a: Seq<char>, b: Seq<char>| #[trigger] between(s, a, p, b),
{
    let n = s.len() as int;
    lemma_last_at(s, p, n);
    if has_infix(s, p) {
        let i = last_position(s, p);
        assert(s =~= s.take(i) + p + s.skip(i + p.len())) by {
            assert(s.subrange(i, i + p.len()) == p);
            assert forall|k: int| 0 <= k < p.len() implies #[trigger] s[i + k] == p[k] by {
                assert(s.subrange(i, i + p.len())[k] == p[k]);
            }
        }
        assert(between(s, s.take(i), p, s.skip(i + p.len())));
    }
    if exists|a: Seq<char>, b: Seq<char>| #[trigger] between(s, a, p, b) {
        let (a, b) = choose|a: Seq<char>, b: Seq<char>| #[trigger] between(s, a, p, b);
        lemma_stands_between(a, p, b);
        assert(stands_at(s, p, a.len() as int));
        if last_position(s, p) < 0 {
            assert(!stands_at(s, p, a.len() as int));
        }
    }
}

/// A pattern stands at its place.
proof fn lemma_stands_between(a: Seq<char>, p: Seq<char>, b: Seq<char>)
    ensures
        stands_at(a + p + b, p, a.len() as int),
{
    let s = a + p + b;
    assert(s.subrange(a.len() as int, (a.len() + p.len()) as int) =~= p);
}

/// What follows the last occurrence of a pattern: a text without the pattern's
/// last character, where the pattern is one that begins as it ends, is what
/// follows.
pub proof fn law_text_after_the_last_pattern(a: Seq<char>, p: Seq<char>, b: Seq<char>)
    requires
        p.len() > 0,
        !b.contains(p.last()),
    ensures
        after_last(a + p + b, p) == Some(b),
{
    let s = a + p + b;
    let n = s.len() as int;
    lemma_stands_between(a, p, b);
    lemma_last_at(s, p, n);
    let i = last_position(s, p);
    if i < a.len() {
        assert(!stands_at(s, p, a.len() as int));
    }
    if i > a.len() {
        assert(s.subrange(i, i + p.len())[p.len() - 1] == p.last());
        assert(s[i + p.len() - 1] == p.last());
        let k = i + p.len() - 1 - a.len() - p.len();
        assert(b[k] == p.last());
    }
    assert(s.skip((a.len() + p.len()) as int) =~= b);
}

/// A text ends with a pattern and what follows it.
pub open spec fn ends_behind(s: Seq<char>, p: Seq<char>, b: Seq<char>) -> bool {
    exists|a: Seq<char>| #[trigger] between(s, a, p, b)
}

/// Nothing follows a pattern that a text does not hold, and what follows one ends
/// the text.
pub proof fn law_text_after_a_pattern_ends_the_text(s: Seq<char>, p: Seq<char>)
    ensures
        after_last(s, p) is None <==> !has_infix(s, p),
        after_last(s, p) matches Some(b) ==> ends_behind(s, p, b),
{
    let n = s.len() as int;
    lemma_last_at(s, p, n);
    if has_infix(s, p) {
        let i = last_position(s, p);
        let b = s.skip(i + p.len());
        assert(s =~= s.take(i) + p + b) by {
            assert forall|k: int| 0 <= k < p.len() implies #[trigger] s[i + k] == p[k] by {
                assert(s.subrange(i, i + p.len())[k] == p[k]);
            }
        }
        assert(between(s, s.take(i), p, b));
        assert(after_last(s, p) == Some(b));
        assert(ends_behind(s, p, b));
    }
}

/// A text is split at the first occurrence of a character.
pub proof fn law_split_at_the_first(a: Seq<char>, c: char, b: Seq<char>)
    requires
        !a.contains(c),
    ensures
        split_first(a + seq![c] + b, c) == Some((a, b)),
        split_first(a, c) is None,
{
    let s = a + seq![c] + b;
    lemma_find_char(s, c, 0);
    lemma_find_char(a, c, 0);
    let k = find_char(s, c, 0);
    assert(s[a.len() as int] == c);
    if k < a.len() {
        assert(a[k] == c);
        assert(a.contains(c));
    }
    assert(k == a.len());
    assert(s.take(k) =~= a);
    assert(s.skip(k + 1) =~= b);
    let j = find_char(a, c, 0);
    if j < a.len() {
        assert(a.contains(a[j]));
    }
}

/// Parts with one more in front.
proof fn lemma_joined_front(first: Seq<char>, rest: Seq<Seq<char>>, sep: Seq<char>)
    requires
        rest.len() > 0,
    ensures
        joined(seq![first] + rest, sep) == first + sep + joined(rest, sep),
    decreases rest.len(),
{
    let all = seq![first] + rest;
    assert(all.last() == rest.last());
    if rest.len() == 1 {
        assert(all.drop_last() =~= seq![first]);
        assert(joined(seq![first], sep) == first);
        assert(joined(all, sep) == first + sep + rest[0]);
    } else {
        assert(all.drop_last() =~= seq![first] + rest.drop_last());
        lemma_joined_front(first, rest.drop_last(), sep);
        assert(joined(all, sep) =~= first + sep + joined(rest, sep));
    }
}

/// The pieces of a text, put together again with the separator, are the text; none
/// of them holds the separator.
pub proof fn law_pieces_make_the_text(s: Seq<char>, c: char)
    ensures
        pieces(s, c).len() > 0,
        joined(pieces(s, c), seq![c]) == s,
        forall|i: int| 0 <= i < pieces(s, c).len() ==> !(#[trigger] pieces(s, c)[i]).contains(c),
    decreases s.len(),
{
    lemma_find_char(s, c, 0);
    let k = find_char(s, c, 0);
    if k < s.len() {
        let rest = s.skip(k + 1);
        law_pieces_make_the_text(rest, c);
        lemma_joined_front(s.take(k), pieces(rest, c), seq![c]);
        assert(s =~= s.take(k) + seq![c] + rest);
        let all = pieces(s, c);
        assert forall|i: int| 0 <= i < all.len() implies !(#[trigger] all[i]).contains(c) by {
            if i == 0 {
                if s.take(k).contains(c) {
                    let j = choose|j: int| 0 <= j < s.take(k).len() && s.take(k)[j] == c;
                    assert(s[j] == c);
                }
            } else {
                assert(all[i] == pieces(rest, c)[i - 1]);
            }
        }
    } else {
        assert(joined(seq![s], seq![c]) == s);
        if s.contains(c) {
            let j = choose|j: int| 0 <= j < s.len() && s[j] == c;
            assert(s[j] != c);
        }
    }
}

/// Joining the parts of two lists is joining each, with the separator between.
pub proof fn law_joined_lists(a: Seq<Seq<char>>, b: Seq<Seq<char>>, sep: Seq<char>)
    requires
        a.len() > 0,
        b.len() > 0,
    ensures
        joined(a + b, sep) == joined(a, sep) + sep + joined(b, sep),
        joined(seq![a[0]], sep) == a[0],
        joined(Seq::empty(), sep) == Seq::<char>::empty(),
    decreases b.len(),
{
    let all = a + b;
    if b.len() == 1 {
        assert(all.drop_last() =~= a);
        assert(joined(all, sep) =~= joined(a, sep) + sep + joined(b, sep));
    } else {
        assert(all.drop_last() =~= a + b.drop_last());
        law_joined_lists(a, b.drop_last(), sep);
        assert(joined(all, sep) =~= joined(a, sep) + sep + joined(b, sep));
    }
}

/// All characters of a text are white space.
pub open spec fn all_white(s: Seq<char>) -> bool {
    forall|i: int| 0 <= i < s.len() ==> is_white(#[trigger] s[i])
}

/// A text is white space, another text, and white space.
pub open spec fn framed(s: Seq<char>, a: Seq<char>, t: Seq<char>, b: Seq<char>) -> bool {
    s == a + t + b && all_white(a) && all_white(b)
}

/// What stands in front of a text without white space at its start.
proof fn lemma_trimmed_start(s: Seq<char>) -> (a: Seq<char>)
    ensures
        s == a + trimmed_start(s),
        all_white(a),
        trimmed_start(s).len() > 0 ==> !is_white(trimmed_start(s)[0]),
    decreases s.len(),
{
    if s.len() > 0 && is_white(s[0]) {
        let a = lemma_trimmed_start(s.skip(1));
        let all = seq![s[0]] + a;
        let t = trimmed_start(s);
        assert(t == trimmed_start(s.skip(1)));
        assert(all + t =~= seq![s[0]] + (a + t));
        assert(s =~= seq![s[0]] + s.skip(1));
        assert(s == all + t);
        assert forall|i: int| 0 <= i < all.len() implies is_white(#[trigger] all[i]) by {
            if i > 0 {
                assert(all[i] == a[i - 1]);
            }
        }
        all
    } else {
        assert(s =~= Seq::<char>::empty() + s);
        Seq::empty()
    }
}

/// What stands behind a text without white space at its end.
proof fn lemma_trimmed_end(s: Seq<char>) -> (b: Seq<char>)
    ensures
        s == trimmed_end(s) + b,
        all_white(b),
        trimmed_end(s).len() > 0 ==> !is_white(trimmed_end(s).last()),
    decreases s.len(),
{
    if s.len() > 0 && is_white(s.last()) {
        let b = lemma_trimmed_end(s.drop_last());
        let all = b.push(s.last());
        let t = trimmed_end(s);
        assert(t == trimmed_end(s.drop_last()));
        assert(t + all =~= (t + b).push(s.last()));
        assert(s =~= s.drop_last().push(s.last()));
        assert(s == t + all);
        all
    } else {
        assert(s =~= s + Seq::<char>::empty());
        Seq::empty()
    }
}

/// Trimming takes white space away from both ends, all of it, and nothing else.
pub proof fn law_trimming_takes_white_space(s: Seq<char>)
    ensures
        exists|a: Seq<char>, b: Seq<char>| #[trigger] framed(s, a, trimmed(s), b),
        trimmed(s).len() > 0 ==> !is_white(trimmed(s)[0]) && !is_white(trimmed(s).last()),
{
    let a = lemma_trimmed_start(s);
    let t = trimmed_start(s);
    let b = lemma_trimmed_end(t);
    assert(s =~= a + trimmed(s) + b);
    assert(framed(s, a, trimmed(s), b));
    if trimmed(s).len() > 0 {
        assert(trimmed(s)[0] == t[0]);
    }
}

/// Blanks, tabs and line ends are white space; printed ASCII characters are not.
pub proof fn law_white_space(c: char)
    ensures
        c == ' ' || c == '\t' || c == '\n' || c == '\r' ==> is_white(c),
        '!' <= c <= '~' ==> !is_white(c),
{
}

/// A digit has the value that its place among the digits gives it.
proof fn lemma_digit(d: nat)
    requires
        d < 10,
    ensures
        digit_value(digit(d)) == Some(d),
        digit(d) as u32 == '0' as u32 + d,
{
}

/// A number in decimal reads as that number, without a zero in front.
pub proof fn law_decimal_reads_back(n: nat)
    ensures
        decimal(n).len() > 0,
        digits_value(decimal(n)) == Some(n),
        n > 0 ==> decimal(n)[0] != '0',
        forall|i: int| 0 <= i < decimal(n).len() ==> '0' <= #[trigger] decimal(n)[i] <= '9',
    decreases n,
{
    if n < 10 {
        lemma_digit(n);
        let s = decimal(n);
        assert(s.drop_last() =~= Seq::<char>::empty());
        assert(digits_value(s.drop_last()) == Some(0nat));
    } else {
        law_decimal_reads_back(n / 10);
        lemma_digit(n % 10);
        let s = decimal(n);
        assert(s.drop_last() =~= decimal(n / 10));
        assert(s.last() == digit(n % 10));
        assert((n / 10) * 10 + n % 10 == n);
        assert(s[0] == decimal(n / 10)[0]);
        assert forall|i: int| 0 <= i < s.len() implies '0' <= #[trigger] s[i] <= '9' by {
            if i < s.len() - 1 {
                assert(s[i] == decimal(n / 10)[i]);
            }
        }
    }
}

/// A number that fits is read back, with or without a plus sign.
pub proof fn law_number_reads_back(n: u64)
    ensures
        parsed_u64(decimal(n as nat)) == Some(n),
        parsed_u64(seq!['+'] + decimal(n as nat)) == Some(n),
{
    law_decimal_reads_back(n as nat);
    let s = decimal(n as nat);
    assert(s[0] != '+');
    assert((seq!['+'] + s).skip(1) =~= s);
    assert(unsigned(seq!['+'] + s) == s);
}

/// What is read as a number is digits behind an optional plus sign.
pub proof fn law_only_digits_are_a_number(s: Seq<char>)
    ensures
        parsed_u64(s) is Some ==> s.len() > 0 && forall|i: int|
            0 <= i < s.len() ==> ('0' <= #[trigger] s[i] <= '9' || (i == 0 && s[i] == '+' && s.len()
                > 1)),
{
    if parsed_u64(s) is Some {
        let t = unsigned(s);
        lemma_all_digits(t);
        assert forall|i: int| 0 <= i < s.len() implies ('0' <= #[trigger] s[i] <= '9' || (i == 0
            && s[i] == '+' && s.len() > 1)) by {
            if s[0] == '+' {
                if i > 0 {
                    assert(t[i - 1] == s[i]);
                }
            } else {
                assert(t[i] == s[i]);
            }
        }
    }
}

/// What has a value consists of digits.
proof fn lemma_all_digits(s: Seq<char>)
    requires
        digits_value(s) is Some,
    ensures
        forall|i: int| 0 <= i < s.len() ==> '0' <= #[trigger] s[i] <= '9',
    decreases s.len(),
{
    if s.len() > 0 {
        lemma_all_digits(s.drop_last());
        assert forall|i: int| 0 <= i < s.len() implies '0' <= #[trigger] s[i] <= '9' by {
            if i < s.len() - 1 {
                assert(s.drop_last()[i] == s[i]);
            }
        }
    }
}

/// Padding brings a shorter text to the width with blanks behind or in front, and
/// leaves a longer one alone.
pub proof fn law_padding_fills_with_blanks(s: Seq<char>, width: nat)
    ensures
        padded_right(s, width).take(s.len() as int) == s,
        padded_left(s, width).skip(padded_left(s, width).len() - s.len()) == s,
        padded_right(s, width).len() == (if s.len() < width {
            width
        } else {
            s.len()
        }),
        padded_left(s, width).len() == padded_right(s, width).len(),
        forall|i: int|
            s.len() <= i < padded_right(s, width).len() ==> #[trigger] padded_right(s, width)[i]
                == ' ',
        forall|i: int|
            0 <= i < padded_left(s, width).len() - s.len() ==> #[trigger] padded_left(s, width)[i]
                == ' ',
{
    let b = blanks(width - s.len());
    assert((s + b).take(s.len() as int) =~= s);
    assert((b + s).skip(b.len() as int) =~= s);
}

/// The length of a text in bytes is that of its parts together, and a character
/// takes one to four bytes.
pub proof fn law_bytes_add_up(a: Seq<char>, b: Seq<char>)
    ensures
        byte_len(a + b) == byte_len(a) + byte_len(b),
        a.len() <= byte_len(a) <= 4 * a.len(),
    decreases b.len(), a.len(),
{
    if b.len() == 0 {
        assert(a + b =~= a);
        if a.len() > 0 {
            law_bytes_add_up(a.drop_last(), b);
        }
    } else {
        assert((a + b).drop_last() =~= a + b.drop_last());
        law_bytes_add_up(a, b.drop_last());
    }
}

/// A text in ASCII takes as many bytes as characters.
pub proof fn law_ascii_takes_one_byte(s: Seq<char>)
    requires
        forall|i: int| 0 <= i < s.len() ==> (#[trigger] s[i] as u32) < 0x80,
    ensures
        byte_len(s) == s.len(),
    decreases s.len(),
{
    if s.len() > 0 {
        assert forall|i: int| 0 <= i < s.drop_last().len() implies (#[trigger] s.drop_last()[i]
            as u32) < 0x80 by {
            assert(s.drop_last()[i] == s[i]);
        }
        law_ascii_takes_one_byte(s.drop_last());
        assert((s[s.len() - 1] as u32) < 0x80);
    }
}

/// The first bytes of a text are its beginning of that length.
pub proof fn law_first_bytes_begin_the_text(a: Seq<char>, b: Seq<char>, n: nat)
    ensures
        byte_prefix(a + b, byte_len(a)) == Some(a),
        byte_prefix(b, n) matches Some(p) ==> byte_len(p) == n && has_prefix(b, p),
        byte_prefix(b, n) is None && n <= byte_len(b) ==> forall|k: int|
            0 <= k <= b.len() ==> byte_len(#[trigger] b.take(k)) != n,
{
    lemma_byte_prefix(a + b, a.len() as int);
    assert((a + b).take(a.len() as int) =~= a);
    if let Some(p) = byte_prefix(b, n) {
        let k = choose|k: int| 0 <= k <= b.len() && byte_len(#[trigger] b.take(k)) == n;
        assert(p == b.take(k));
        assert(b.take(p.len() as int) =~= p);
    }
}

/// Decoding is the inverse of encoding.
pub proof fn law_decoding_inverts_encoding(t: Seq<char>, bytes: Seq<u8>)
    ensures
        decoded_text(encode_utf8(t)) == Some(t),
        decoded_text(bytes) matches Some(s) ==> encode_utf8(s) == bytes,
{
    vstd::utf8::encode_utf8_valid_utf8(t);
    vstd::utf8::encode_utf8_decode_utf8(t);
    if decoded_text(bytes) is Some {
        vstd::utf8::decode_utf8_encode_utf8(bytes);
    }
}

} // verus!
