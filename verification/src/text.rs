//! Text as sequences of characters: equality, order, prefixes and pieces.
use crate::seqs::push_item;
use vstd::prelude::*;

verus! {

/// The outcome of comparing two values.
#[derive(Debug, Clone, Copy, PartialEq, Eq, Structural)]
pub enum Order {
    Less,
    Equal,
    Greater,
}

/// `a` sorts strictly before `b`: the first differing character decides, and a
/// proper prefix sorts before the longer text. On UTF-8 text this is the order
/// of the encoded bytes as well.
pub open spec fn text_lt(a: Seq<char>, b: Seq<char>) -> bool
    decreases b.len(),
{
    if b.len() == 0 {
        false
    } else if a.len() == 0 {
        true
    } else if a[0] != b[0] {
        a[0] < b[0]
    } else {
        text_lt(a.skip(1), b.skip(1))
    }
}

/// `a` sorts before `b` or equals it.
pub open spec fn text_le(a: Seq<char>, b: Seq<char>) -> bool {
    a == b || text_lt(a, b)
}

/// The order of two texts.
pub open spec fn text_order(a: Seq<char>, b: Seq<char>) -> Order {
    if a == b {
        Order::Equal
    } else if text_lt(a, b) {
        Order::Less
    } else {
        Order::Greater
    }
}

/// No text sorts before itself.
pub proof fn lemma_text_lt_irreflexive(a: Seq<char>)
    ensures
        !text_lt(a, a),
    decreases a.len(),
{
    if a.len() > 0 {
        lemma_text_lt_irreflexive(a.skip(1));
    }
}

/// The order of texts is transitive.
pub proof fn lemma_text_lt_transitive(a: Seq<char>, b: Seq<char>, c: Seq<char>)
    requires
        text_lt(a, b),
        text_lt(b, c),
    ensures
        text_lt(a, c),
    decreases b.len(),
{
    if a.len() > 0 && a[0] == b[0] && b[0] == c[0] {
        lemma_text_lt_transitive(a.skip(1), b.skip(1), c.skip(1));
    }
}

/// Any two different texts are ordered one way or the other.
pub proof fn lemma_text_lt_total(a: Seq<char>, b: Seq<char>)
    ensures
        a == b || text_lt(a, b) || text_lt(b, a),
    decreases a.len(),
{
    if a.len() == 0 && b.len() == 0 {
        assert(a =~= b);
    } else if a.len() > 0 && b.len() > 0 && a[0] == b[0] {
        lemma_text_lt_total(a.skip(1), b.skip(1));
        if a.skip(1) == b.skip(1) {
            assert forall|i: int| 0 <= i < a.len() implies a[i] == b[i] by {
                if i > 0 {
                    assert(a.skip(1)[i - 1] == b.skip(1)[i - 1]);
                }
            }
            assert(a.skip(1).len() == b.skip(1).len());
            assert(a =~= b);
        }
    }
}

/// Compare two texts.
pub fn compare_text(a: &str, b: &str) -> (r: Order)
    ensures
        r == text_order(a@, b@),
{
    let mut left = a.chars();
    let mut right = b.chars();
    let ghost mut i: int = 0;
    proof {
        assert(a@.skip(0) =~= a@);
        assert(b@.skip(0) =~= b@);
    }
    loop
        invariant
            0 <= i <= a@.len(),
            i <= b@.len(),
            vstd::std_specs::iter::IteratorSpec::remaining(&left) == a@.skip(i),
            vstd::std_specs::iter::IteratorSpec::remaining(&right) == b@.skip(i),
            a@.take(i) == b@.take(i),
            text_lt(a@, b@) == text_lt(a@.skip(i), b@.skip(i)),
        decreases a@.len() - i,
    {
        let x = left.next();
        let y = right.next();
        match (x, y) {
            (None, None) => {
                proof {
                    assert(a@ =~= a@.take(i));
                    assert(b@ =~= b@.take(i));
                }
                return Order::Equal;
            },
            (None, Some(_)) => {
                return Order::Less;
            },
            (Some(_), None) => {
                return Order::Greater;
            },
            (Some(c), Some(d)) => {
                assert(a@[i] == c && b@[i] == d);
                if c < d {
                    return Order::Less;
                }
                if d < c {
                    return Order::Greater;
                }
                proof {
                    assert(a@.skip(i).skip(1) =~= a@.skip(i + 1));
                    assert(b@.skip(i).skip(1) =~= b@.skip(i + 1));
                    assert(a@.take(i + 1) =~= a@.take(i).push(c));
                    assert(b@.take(i + 1) =~= b@.take(i).push(d));
                    i = i + 1;
                }
            },
        }
    }
}

/// Whether two texts hold the same characters.
pub fn same_text(a: &str, b: &str) -> (r: bool)
    ensures
        r == (a@ == b@),
{
    compare_text(a, b) == Order::Equal
}

/// Whether `s` begins with `prefix`.
pub open spec fn has_prefix(s: Seq<char>, prefix: Seq<char>) -> bool {
    prefix.len() <= s.len() && s.take(prefix.len() as int) == prefix
}

/// Whether a text begins with a prefix.
pub fn starts_with(s: &str, prefix: &str) -> (r: bool)
    ensures
        r == has_prefix(s@, prefix@),
{
    let n: usize = prefix.unicode_len();
    if s.unicode_len() < n {
        return false;
    }
    same_text(s.substring_char(0, n), prefix)
}

/// The characters of a text.
pub fn chars_of(s: &str) -> (r: Vec<char>)
    ensures
        r@ == s@,
{
    let mut out: Vec<char> = Vec::new();
    for c in iter: s.chars()
        invariant
            out@ == s@.take(iter.index() as int),
            iter.seq() == s@,
    {
        out.push(c);
        assert(out@ =~= s@.take(iter.index() + 1));
    }
    assert(s@.take(s@.len() as int) =~= s@);
    out
}

/// `String::push` appends one character to the text and leaves what came before
/// it alone.
pub assume_specification[ String::push ](s: &mut String, c: char)
    ensures
        final(s)@ == old(s)@.push(c),
;

/// The position of the first `c` at or after `from`, or the length of the text.
pub open spec fn find_char(s: Seq<char>, c: char, from: int) -> int
    decreases s.len() - from,
{
    if from >= s.len() {
        s.len() as int
    } else if s[from] == c {
        from
    } else {
        find_char(s, c, from + 1)
    }
}

/// `find_char` gives the first position of the character.
pub proof fn lemma_find_char(s: Seq<char>, c: char, from: int)
    requires
        0 <= from <= s.len(),
    ensures
        from <= find_char(s, c, from) <= s.len(),
        find_char(s, c, from) < s.len() ==> s[find_char(s, c, from)] == c,
        forall|j: int| from <= j < find_char(s, c, from) ==> s[j] != c,
    decreases s.len() - from,
{
    if from < s.len() && s[from] != c {
        lemma_find_char(s, c, from + 1);
    }
}

/// The position of the first `c` at or after `from`, or the length.
pub fn find_char_from(s: &[char], c: char, from: usize) -> (r: usize)
    requires
        from <= s@.len(),
    ensures
        r == find_char(s@, c, from as int),
        from <= r <= s@.len(),
{
    let mut i: usize = from;
    while i < s.len()
        invariant
            from <= i <= s@.len(),
            find_char(s@, c, from as int) == find_char(s@, c, i as int),
        decreases s@.len() - i,
    {
        if s[i] == c {
            return i;
        }
        i = i + 1;
    }
    i
}

/// What stands before and after the first `c`, if there is one.
pub open spec fn split_first(s: Seq<char>, c: char) -> Option<(Seq<char>, Seq<char>)> {
    let k = find_char(s, c, 0);
    if k < s.len() {
        Some((s.take(k), s.skip(k + 1)))
    } else {
        None
    }
}

/// Split a text at the first `c`.
pub fn split_once(s: &str, c: char) -> (r: Option<(String, String)>)
    ensures
        r.deep_view() == split_first(s@, c),
{
    let cs = chars_of(s);
    let k: usize = find_char_from(cs.as_slice(), c, 0);
    if k < cs.len() {
        let n: usize = cs.len();
        let head = s.substring_char(0, k).to_string();
        let tail = s.substring_char(k + 1, n).to_string();
        proof {
            assert(s@.subrange(0, k as int) =~= s@.take(k as int));
            assert(s@.subrange(k + 1, n as int) =~= s@.skip(k + 1));
        }
        Some((head, tail))
    } else {
        None
    }
}

/// The number of bytes that a character takes in UTF-8.
pub open spec fn char_width(c: char) -> nat {
    if (c as u32) < 0x80 {
        1
    } else if (c as u32) < 0x800 {
        2
    } else if (c as u32) < 0x10000 {
        3
    } else {
        4
    }
}

/// The number of bytes that a character takes in UTF-8.
pub fn width_of(c: char) -> (r: usize)
    ensures
        r == char_width(c),
        1 <= r <= 4,
{
    let code: u32 = c as u32;
    if code < 0x80 {
        1
    } else if code < 0x800 {
        2
    } else if code < 0x10000 {
        3
    } else {
        4
    }
}

/// The number of bytes that a text takes in UTF-8.
pub open spec fn byte_len(s: Seq<char>) -> nat
    decreases s.len(),
{
    if s.len() == 0 {
        0
    } else {
        byte_len(s.drop_last()) + char_width(s.last())
    }
}

/// The prefix of exactly `n` bytes, where the text has one that ends between
/// two characters.
pub open spec fn byte_prefix(s: Seq<char>, n: nat) -> Option<Seq<char>> {
    if exists|k: int| 0 <= k <= s.len() && byte_len(#[trigger] s.take(k)) == n {
        let k = choose|k: int| 0 <= k <= s.len() && byte_len(#[trigger] s.take(k)) == n;
        Some(s.take(k))
    } else {
        None
    }
}

/// Longer prefixes take more bytes.
pub proof fn lemma_byte_len_grows(s: Seq<char>, i: int, j: int)
    requires
        0 <= i <= j <= s.len(),
    ensures
        byte_len(s.take(i)) + (j - i) <= byte_len(s.take(j)),
    decreases j - i,
{
    if i < j {
        lemma_byte_len_grows(s, i, j - 1);
        assert(s.take(j).drop_last() =~= s.take(j - 1));
    }
}

/// A prefix of `n` bytes is the only one.
pub proof fn lemma_byte_prefix(s: Seq<char>, k: int)
    requires
        0 <= k <= s.len(),
    ensures
        byte_prefix(s, byte_len(s.take(k))) == Some(s.take(k)),
{
    let n = byte_len(s.take(k));
    let j = choose|j: int| 0 <= j <= s.len() && byte_len(#[trigger] s.take(j)) == n;
    if j < k {
        lemma_byte_len_grows(s, j, k);
    } else if k < j {
        lemma_byte_len_grows(s, k, j);
    }
}

/// The prefix of exactly `n` bytes, or `None` where the text is shorter or a
/// character straddles that point.
pub fn first_bytes(s: &str, n: usize) -> (r: Option<String>)
    ensures
        r.deep_view() == byte_prefix(s@, n as nat),
{
    let cs = chars_of(s);
    let mut used: usize = 0;
    let mut i: usize = 0;
    proof {
        assert(s@.take(0) =~= Seq::<char>::empty());
    }
    loop
        invariant
            cs@ == s@,
            i <= s@.len(),
            used == byte_len(s@.take(i as int)),
            used <= n,
            forall|k: int| 0 <= k < i ==> byte_len(#[trigger] s@.take(k)) != n,
        decreases s@.len() - i,
    {
        if used == n {
            proof {
                lemma_byte_prefix(s@, i as int);
                assert(s@.subrange(0, i as int) =~= s@.take(i as int));
            }
            return Some(s.substring_char(0, i).to_string());
        }
        if i == cs.len() {
            return None;
        }
        let width: usize = width_of(cs[i]);
        proof {
            assert(s@.take(i + 1).drop_last() =~= s@.take(i as int));
        }
        if n - used < width {
            proof {
                assert forall|k: int| 0 <= k <= s@.len() implies byte_len(#[trigger] s@.take(k))
                    != n by {
                    if k > i {
                        lemma_byte_len_grows(s@, i + 1, k);
                    }
                }
            }
            return None;
        }
        used = used + width;
        i = i + 1;
    }
}

/// The text that `sep` separates: the parts in order, `sep` between neighbours.
pub open spec fn joined(parts: Seq<Seq<char>>, sep: Seq<char>) -> Seq<char>
    decreases parts.len(),
{
    if parts.len() == 0 {
        Seq::empty()
    } else if parts.len() == 1 {
        parts[0]
    } else {
        joined(parts.drop_last(), sep) + sep + parts.last()
    }
}

/// Join texts with a separator.
pub fn join(parts: &[String], sep: &str) -> (r: String)
    ensures
        r@ == joined(parts.deep_view(), sep@),
{
    let mut out = String::new();
    let ghost all = parts.deep_view();
    let mut i: usize = 0;
    while i < parts.len()
        invariant
            all == parts.deep_view(),
            i <= parts@.len(),
            out@ == joined(all.take(i as int), sep@),
        decreases parts@.len() - i,
    {
        if i > 0 {
            out.append(sep);
        }
        out.append(parts[i].as_str());
        proof {
            assert(all.take(i + 1).drop_last() =~= all.take(i as int));
            assert(all.take(i + 1).last() == parts@[i as int]@);
        }
        i = i + 1;
    }
    assert(all.take(i as int) =~= all);
    out
}

/// The decimal digit `d`.
pub open spec fn digit(d: nat) -> char {
    if d == 0 {
        '0'
    } else if d == 1 {
        '1'
    } else if d == 2 {
        '2'
    } else if d == 3 {
        '3'
    } else if d == 4 {
        '4'
    } else if d == 5 {
        '5'
    } else if d == 6 {
        '6'
    } else if d == 7 {
        '7'
    } else if d == 8 {
        '8'
    } else {
        '9'
    }
}

/// A number written in decimal, without leading zeros.
pub open spec fn decimal(n: nat) -> Seq<char>
    decreases n,
{
    if n < 10 {
        seq![digit(n)]
    } else {
        decimal(n / 10).push(digit(n % 10))
    }
}

/// Write a number in decimal.
pub fn wide_text(n: u128) -> (r: String)
    ensures
        r@ == decimal(n as nat),
    decreases n,
{
    let low: u128 = n % 10;
    let c = if low == 0 {
        '0'
    } else if low == 1 {
        '1'
    } else if low == 2 {
        '2'
    } else if low == 3 {
        '3'
    } else if low == 4 {
        '4'
    } else if low == 5 {
        '5'
    } else if low == 6 {
        '6'
    } else if low == 7 {
        '7'
    } else if low == 8 {
        '8'
    } else {
        '9'
    };
    let mut out = if n < 10 {
        String::new()
    } else {
        wide_text(n / 10)
    };
    out.push(c);
    assert(out@ =~= decimal(n as nat));
    out
}

/// Write a number in decimal.
pub fn number_text(n: u64) -> (r: String)
    ensures
        r@ == decimal(n as nat),
{
    wide_text(n as u128)
}

/// A count written in decimal.
pub fn count_text(n: usize) -> (r: String)
    ensures
        r@ == decimal(n as nat),
{
    number_text(n as u64)
}

/// `n` blanks.
pub open spec fn blanks(n: int) -> Seq<char> {
    Seq::new(
        (if n < 0 {
            0
        } else {
            n
        }) as nat,
        |i: int| ' ',
    )
}

/// The text followed by blanks up to a width.
pub open spec fn padded_right(s: Seq<char>, width: nat) -> Seq<char> {
    s + blanks(width - s.len())
}

/// The text preceded by blanks up to a width.
pub open spec fn padded_left(s: Seq<char>, width: nat) -> Seq<char> {
    blanks(width - s.len()) + s
}

/// Blanks that fill a width beyond `used` characters.
fn fill(used: usize, width: usize) -> (r: String)
    ensures
        r@ == blanks(width - used),
{
    let mut out = String::new();
    let mut i: usize = used;
    while i < width
        invariant
            used <= i,
            i <= width || i == used,
            out@ == blanks(i - used),
        decreases width - i,
    {
        out.push(' ');
        i = i + 1;
        assert(out@ =~= blanks(i - used));
    }
    assert(out@ =~= blanks(width - used));
    out
}

/// Pad a text on the right to a width.
pub fn pad_right(s: &str, width: usize) -> (r: String)
    ensures
        r@ == padded_right(s@, width as nat),
{
    let mut out = s.to_string();
    let tail = fill(s.unicode_len(), width);
    out.append(tail.as_str());
    out
}

/// Pad a text on the left to a width.
pub fn pad_left(s: &str, width: usize) -> (r: String)
    ensures
        r@ == padded_left(s@, width as nat),
{
    let mut out = fill(s.unicode_len(), width);
    out.append(s);
    out
}

/// Whether a list holds a text.
pub fn list_has(list: &[String], s: &str) -> (r: bool)
    ensures
        r == list.deep_view().contains(s@),
{
    let ghost all = list.deep_view();
    let mut i: usize = 0;
    while i < list.len()
        invariant
            all == list.deep_view(),
            i <= list@.len(),
            forall|j: int| 0 <= j < i ==> #[trigger] all[j] != s@,
        decreases list@.len() - i,
    {
        assert(all[i as int] == list@[i as int]@);
        if same_text(list[i].as_str(), s) {
            return true;
        }
        i = i + 1;
    }
    false
}

/// Copy a list of texts.
pub fn copy_texts(list: &[String]) -> (r: Vec<String>)
    ensures
        r@ == list@,
        r.deep_view() == list.deep_view(),
{
    let mut out: Vec<String> = Vec::new();
    let mut i: usize = 0;
    while i < list.len()
        invariant
            i <= list@.len(),
            out@ == list@.take(i as int),
        decreases list@.len() - i,
    {
        out.push(list[i].clone());
        assert(out@ =~= list@.take(i + 1));
        i = i + 1;
    }
    assert(out@ =~= list@);
    assert(out.deep_view() =~= list.deep_view());
    out
}

/// Copy an optional text.
pub fn copy_option(s: &Option<String>) -> (r: Option<String>)
    ensures
        r == *s,
{
    match s {
        Some(t) => Some(t.clone()),
        None => None,
    }
}

/// The pieces of a text between the occurrences of `c`.
pub open spec fn pieces(s: Seq<char>, c: char) -> Seq<Seq<char>>
    decreases s.len(),
{
    let k = find_char(s, c, 0);
    if 0 <= k < s.len() {
        seq![s.take(k)] + pieces(s.skip(k + 1), c)
    } else {
        seq![s]
    }
}

/// Searching in a suffix.
proof fn lemma_find_char_suffix(s: Seq<char>, c: char, i: int, from: int)
    requires
        0 <= i <= from <= s.len(),
    ensures
        find_char(s, c, from) == i + find_char(s.skip(i), c, from - i),
    decreases s.len() - from,
{
    if from < s.len() && s[from] != c {
        lemma_find_char_suffix(s, c, i, from + 1);
    }
}

/// Split a text at every `c`.
pub fn split_all(s: &str, c: char) -> (r: Vec<String>)
    ensures
        r.deep_view() == pieces(s@, c),
{
    let cs = chars_of(s);
    let n: usize = cs.len();
    let mut out: Vec<String> = Vec::new();
    let mut i: usize = 0;
    proof {
        assert(s@.skip(0) =~= s@);
        assert(out.deep_view() + pieces(s@, c) =~= pieces(s@, c));
    }
    loop
        invariant
            cs@ == s@,
            n == s@.len(),
            i <= n,
            pieces(s@, c) == out.deep_view() + pieces(s@.skip(i as int), c),
        decreases n - i,
    {
        let k: usize = find_char_from(cs.as_slice(), c, i);
        proof {
            lemma_find_char_suffix(s@, c, i as int, i as int);
        }
        let piece = s.substring_char(i, k).to_string();
        let ghost before = out.deep_view();
        let ghost rest = s@.skip(i as int);
        proof {
            assert(rest.take(k - i) =~= s@.subrange(i as int, k as int));
        }
        push_item(&mut out, piece);
        if k == n {
            proof {
                assert(rest =~= s@.subrange(i as int, k as int));
                assert(out.deep_view() =~= before + pieces(rest, c));
            }
            return out;
        }
        proof {
            assert(rest.skip(k - i + 1) =~= s@.skip(k + 1));
            assert(out.deep_view() + pieces(s@.skip(k + 1), c) =~= before + pieces(rest, c));
        }
        i = k + 1;
    }
}

/// A character with the Unicode property `White_Space`.
pub open spec fn is_white(c: char) -> bool {
    let u = c as u32;
    (0x09 <= u <= 0x0d) || u == 0x20 || u == 0x85 || u == 0xa0 || u == 0x1680 || (0x2000 <= u
        <= 0x200a) || u == 0x2028 || u == 0x2029 || u == 0x202f || u == 0x205f || u == 0x3000
}

/// Whether a character is white space.
pub fn white(c: char) -> (r: bool)
    ensures
        r == is_white(c),
{
    let u: u32 = c as u32;
    (0x09 <= u && u <= 0x0d) || u == 0x20 || u == 0x85 || u == 0xa0 || u == 0x1680 || (0x2000 <= u
        && u <= 0x200a) || u == 0x2028 || u == 0x2029 || u == 0x202f || u == 0x205f || u == 0x3000
}

/// The text without white space at its end.
pub open spec fn trimmed_end(s: Seq<char>) -> Seq<char>
    decreases s.len(),
{
    if s.len() > 0 && is_white(s.last()) {
        trimmed_end(s.drop_last())
    } else {
        s
    }
}

/// The text without white space at its start.
pub open spec fn trimmed_start(s: Seq<char>) -> Seq<char>
    decreases s.len(),
{
    if s.len() > 0 && is_white(s[0]) {
        trimmed_start(s.skip(1))
    } else {
        s
    }
}

/// The text without white space at either end.
pub open spec fn trimmed(s: Seq<char>) -> Seq<char> {
    trimmed_end(trimmed_start(s))
}

/// Trim white space at both ends.
pub fn trim(s: &str) -> (r: String)
    ensures
        r@ == trimmed(s@),
{
    let cs = chars_of(s);
    let mut a: usize = 0;
    assert(s@.skip(0) =~= s@);
    while a < cs.len() && white(cs[a])
        invariant
            cs@ == s@,
            a <= cs@.len(),
            trimmed_start(s@) == trimmed_start(s@.skip(a as int)),
        decreases cs@.len() - a,
    {
        assert(s@.skip(a as int).skip(1) =~= s@.skip(a + 1));
        a = a + 1;
    }
    let mut b: usize = cs.len();
    let ghost head = s@.skip(a as int);
    assert(trimmed_start(s@) == head);
    assert(head =~= s@.subrange(a as int, b as int));
    while b > a && white(cs[b - 1])
        invariant
            cs@ == s@,
            a <= b <= cs@.len(),
            trimmed_end(head) == trimmed_end(s@.subrange(a as int, b as int)),
        decreases b - a,
    {
        assert(s@.subrange(a as int, b as int).drop_last() =~= s@.subrange(a as int, b - 1));
        b = b - 1;
    }
    s.substring_char(a, b).to_string()
}

/// Whether `pat` stands in `s` at position `i`.
pub open spec fn stands_at(s: Seq<char>, pat: Seq<char>, i: int) -> bool {
    0 <= i && i + pat.len() <= s.len() && s.subrange(i, i + pat.len()) == pat
}

/// The last position at or before `from` where `pat` stands in `s`, or -1.
pub open spec fn last_at(s: Seq<char>, pat: Seq<char>, from: int) -> int
    decreases from + 1,
{
    if from < 0 {
        -1
    } else if stands_at(s, pat, from) {
        from
    } else {
        last_at(s, pat, from - 1)
    }
}

/// The last position where `pat` stands in `s`, or -1.
pub open spec fn last_position(s: Seq<char>, pat: Seq<char>) -> int {
    last_at(s, pat, s.len() as int)
}

/// Whether `pat` stands somewhere in `s`.
pub open spec fn has_infix(s: Seq<char>, pat: Seq<char>) -> bool {
    last_position(s, pat) >= 0
}

/// `last_at` gives the last position.
pub proof fn lemma_last_at(s: Seq<char>, pat: Seq<char>, from: int)
    requires
        from <= s.len(),
    ensures
        -1 <= last_at(s, pat, from),
        from >= -1 ==> last_at(s, pat, from) <= from,
        last_at(s, pat, from) >= 0 ==> stands_at(s, pat, last_at(s, pat, from)),
        forall|i: int| last_at(s, pat, from) < i <= from ==> !#[trigger] stands_at(s, pat, i),
    decreases from + 1,
{
    if from >= 0 && !stands_at(s, pat, from) {
        lemma_last_at(s, pat, from - 1);
    }
}

/// Find the last occurrence of a pattern, counted in characters.
pub fn find_last(s: &str, pat: &str) -> (r: Option<usize>)
    ensures
        r matches Some(i) ==> i == last_position(s@, pat@) && stands_at(s@, pat@, i as int),
        r is None <==> !has_infix(s@, pat@),
{
    let n: usize = s.unicode_len();
    let m: usize = pat.unicode_len();
    proof {
        lemma_last_at(s@, pat@, s@.len() as int);
    }
    let mut i: usize = n;
    loop
        invariant
            n == s@.len(),
            m == pat@.len(),
            i <= n,
            last_position(s@, pat@) == last_at(s@, pat@, i as int),
        decreases i,
    {
        if m <= n - i {
            if same_text(s.substring_char(i, i + m), pat) {
                return Some(i);
            }
        }
        if i == 0 {
            assert(last_at(s@, pat@, -1) == -1);
            return None;
        }
        i = i - 1;
    }
}

/// What follows the last occurrence of a pattern.
pub open spec fn after_last(s: Seq<char>, pat: Seq<char>) -> Option<Seq<char>> {
    if has_infix(s, pat) {
        Some(s.skip(last_position(s, pat) + pat.len()))
    } else {
        None
    }
}

/// What follows the last occurrence of a pattern.
pub fn text_after_last(s: &str, pat: &str) -> (r: Option<String>)
    ensures
        r.deep_view() == after_last(s@, pat@),
{
    match find_last(s, pat) {
        Some(i) => {
            let n: usize = s.unicode_len();
            let m: usize = pat.unicode_len();
            proof {
                assert(s@.subrange(i + m, n as int) =~= s@.skip(i + m));
            }
            Some(s.substring_char(i + m, n).to_string())
        },
        None => None,
    }
}

/// What follows a prefix.
pub open spec fn after_prefix(s: Seq<char>, prefix: Seq<char>) -> Option<Seq<char>> {
    if has_prefix(s, prefix) {
        Some(s.skip(prefix.len() as int))
    } else {
        None
    }
}

/// What follows a prefix.
pub fn strip_prefix(s: &str, prefix: &str) -> (r: Option<String>)
    ensures
        r.deep_view() == after_prefix(s@, prefix@),
{
    if starts_with(s, prefix) {
        let n: usize = s.unicode_len();
        let m: usize = prefix.unicode_len();
        proof {
            assert(s@.subrange(m as int, n as int) =~= s@.skip(m as int));
        }
        Some(s.substring_char(m, n).to_string())
    } else {
        None
    }
}

/// Whether a text holds a pattern.
pub fn contains(s: &str, pat: &str) -> (r: bool)
    ensures
        r == has_infix(s@, pat@),
{
    find_last(s, pat).is_some()
}

/// Calls `String::from_utf8`: the text of some bytes exactly where they are
/// well-formed UTF-8.
#[verifier::external_body]
fn utf8_string(bytes: Vec<u8>) -> (r: Option<String>)
    ensures
        r is Some == vstd::utf8::valid_utf8(bytes@),
        r matches Some(s) ==> s@ == vstd::utf8::decode_utf8(bytes@),
{
    String::from_utf8(bytes).ok()
}

/// The text that some bytes hold, if they are UTF-8.
pub open spec fn decoded_text(bytes: Seq<u8>) -> Option<Seq<char>> {
    if vstd::utf8::valid_utf8(bytes) {
        Some(vstd::utf8::decode_utf8(bytes))
    } else {
        None
    }
}

/// The text that some bytes hold, if they are UTF-8.
pub fn decode_text(bytes: Vec<u8>) -> (r: Option<String>)
    ensures
        r.deep_view() == decoded_text(bytes@),
{
    utf8_string(bytes)
}

/// The value of a decimal digit.
pub open spec fn digit_value(c: char) -> Option<nat> {
    if '0' <= c <= '9' {
        Some((c as u32 - '0' as u32) as nat)
    } else {
        None
    }
}

/// The number that some digits write, if they are all digits.
pub open spec fn digits_value(s: Seq<char>) -> Option<nat>
    decreases s.len(),
{
    if s.len() == 0 {
        Some(0)
    } else {
        match (digits_value(s.drop_last()), digit_value(s.last())) {
            (Some(n), Some(d)) => Some(n * 10 + d),
            _ => None,
        }
    }
}

/// The digits of a number behind its sign, which may be a `+`.
pub open spec fn unsigned(s: Seq<char>) -> Seq<char> {
    if s.len() > 0 && s[0] == '+' {
        s.skip(1)
    } else {
        s
    }
}

/// The 64-bit number that a text writes: an optional `+`, then at least one
/// digit, and nothing else.
pub open spec fn parsed_u64(s: Seq<char>) -> Option<u64> {
    match digits_value(unsigned(s)) {
        Some(n) => if unsigned(s).len() > 0 && n <= u64::MAX {
            Some(n as u64)
        } else {
            None
        },
        None => None,
    }
}

/// Longer digits write no smaller number.
proof fn lemma_digits_grow(s: Seq<char>, i: int)
    requires
        0 <= i <= s.len(),
        digits_value(s) is Some,
    ensures
        digits_value(s.take(i)) is Some,
        digits_value(s.take(i))->Some_0 <= digits_value(s)->Some_0,
    decreases s.len() - i,
{
    if i == s.len() {
        assert(s.take(i) =~= s);
    } else {
        lemma_digits_grow(s, i + 1);
        assert(s.take(i + 1).drop_last() =~= s.take(i));
    }
}

/// A prefix that is no number spoils the whole.
proof fn lemma_digits_bad(s: Seq<char>, i: int)
    requires
        0 <= i <= s.len(),
        digits_value(s.take(i)) is None,
    ensures
        digits_value(s) is None,
{
    if digits_value(s) is Some {
        lemma_digits_grow(s, i);
    }
}

/// Parse a 64-bit number.
pub fn parse_u64(s: &str) -> (r: Option<u64>)
    ensures
        r == parsed_u64(s@),
{
    let cs = chars_of(s);
    let start: usize = if cs.len() > 0 && cs[0] == '+' {
        1
    } else {
        0
    };
    let ghost digits = s@.skip(start as int);
    proof {
        if start == 0 {
            assert(s@.skip(0) =~= s@);
        }
    }
    if start == cs.len() {
        return None;
    }
    let mut n: u64 = 0;
    let mut i: usize = start;
    assert(digits.take(0) =~= Seq::<char>::empty());
    while i < cs.len()
        invariant
            cs@ == s@,
            start <= i <= cs@.len(),
            digits == s@.skip(start as int),
            digits == unsigned(s@),
            digits_value(digits.take(i - start)) == Some(n as nat),
        decreases cs@.len() - i,
    {
        let c = cs[i];
        let ghost k = i - start;
        proof {
            assert(digits.take(k + 1).drop_last() =~= digits.take(k));
            assert(digits.take(k + 1).last() == c);
        }
        if c < '0' || '9' < c {
            proof {
                lemma_digits_bad(digits, k + 1);
            }
            return None;
        }
        let d: u64 = (c as u32 - '0' as u32) as u64;
        if n > (u64::MAX - d) / 10 {
            proof {
                assert(n * 10 + d > u64::MAX);
                if digits_value(digits) is Some {
                    lemma_digits_grow(digits, k + 1);
                }
            }
            return None;
        }
        n = n * 10 + d;
        i = i + 1;
    }
    assert(digits.take(digits.len() as int) =~= digits);
    Some(n)
}

} // verus!
