//! Character-level helpers shared by the parsers of this crate.

use vstd::prelude::*;

verus! {

/// Characters that may start an identifier: ASCII letters, digits and `_`.
pub open spec fn is_id_start(c: char) -> bool {
    ('a' <= c && c <= 'z') || ('A' <= c && c <= 'Z') || ('0' <= c && c <= '9') || c == '_'
}

/// Characters that may follow the first one: those of [`is_id_start`], `.` and `-`.
pub open spec fn is_id_char(c: char) -> bool {
    is_id_start(c) || c == '.' || c == '-'
}

/// A safe identifier: not empty, an [`is_id_start`] character followed by
/// [`is_id_char`] characters only.
pub open spec fn is_safe_id(s: Seq<char>) -> bool {
    &&& s.len() > 0
    &&& is_id_start(s[0])
    &&& forall|i: int| 1 <= i < s.len() ==> is_id_char(#[trigger] s[i])
}

/// `s` cut at every occurrence of `sep`. The result is never empty: a text
/// without separator is its own single piece, and so is the empty text.
pub open spec fn split(s: Seq<char>, sep: char) -> Seq<Seq<char>>
    decreases s.len(),
{
    if s.len() == 0 {
        seq![Seq::<char>::empty()]
    } else {
        let head = split(s.drop_last(), sep);
        if s.last() == sep {
            head.push(Seq::<char>::empty())
        } else {
            head.drop_last().push(head.last().push(s.last()))
        }
    }
}

/// The pieces written one after the other with `sep` between neighbours.
pub open spec fn join(parts: Seq<Seq<char>>, sep: char) -> Seq<char>
    decreases parts.len(),
{
    if parts.len() == 0 {
        Seq::<char>::empty()
    } else if parts.len() == 1 {
        parts[0]
    } else {
        join(parts.drop_last(), sep) + seq![sep] + parts.last()
    }
}

/// No piece holds the separator.
pub open spec fn free_of(parts: Seq<Seq<char>>, sep: char) -> bool {
    forall|k: int, i: int|
        0 <= k < parts.len() && 0 <= i < parts[k].len() ==> (#[trigger] parts[k][i]) != sep
}

/// Splitting yields at least one piece, and no piece holds the separator.
pub proof fn lemma_split_shape(s: Seq<char>, sep: char)
    ensures
        split(s, sep).len() >= 1,
        free_of(split(s, sep), sep),
    decreases s.len(),
{
    if s.len() > 0 {
        lemma_split_shape(s.drop_last(), sep);
    }
}

/// Joining the pieces of a text gives the text back.
pub proof fn lemma_join_split(s: Seq<char>, sep: char)
    ensures
        join(split(s, sep), sep) == s,
    decreases s.len(),
{
    if s.len() > 0 {
        let t = s.drop_last();
        let head = split(t, sep);
        lemma_split_shape(t, sep);
        lemma_join_split(t, sep);
        if s.last() == sep {
            let parts = head.push(Seq::<char>::empty());
            assert(parts.drop_last() == head);
            if head.len() == 1 {
                assert(join(head, sep) == head[0]);
            }
            assert(join(parts, sep) == t + seq![sep] + Seq::<char>::empty());
            assert(t + seq![sep] + Seq::<char>::empty() == s);
        } else {
            let last = head.last().push(s.last());
            let parts = head.drop_last().push(last);
            if head.len() == 1 {
                assert(t == head[0]);
                assert(parts[0] == s);
            } else {
                assert(parts.drop_last() == head.drop_last());
                assert(join(parts, sep) == join(head.drop_last(), sep) + seq![sep] + last);
                assert(t == join(head.drop_last(), sep) + seq![sep] + head.last());
                assert(join(head.drop_last(), sep) + seq![sep] + last == t.push(s.last()));
                assert(t.push(s.last()) == s);
            }
        }
    }
}

/// Two pieces join to the first, the separator, and the second.
pub proof fn lemma_join_pair(parts: Seq<Seq<char>>, sep: char)
    requires
        parts.len() == 2,
    ensures
        join(parts, sep) == parts[0] + seq![sep] + parts[1],
{
    let front = parts.drop_last();
    assert(front.len() == 1);
    assert(front[0] == parts[0]);
    assert(join(front, sep) == front[0]);
}

/// Three pieces join to the first, the second and the third with a
/// separator between neighbours.
pub proof fn lemma_join_triple(parts: Seq<Seq<char>>, sep: char)
    requires
        parts.len() == 3,
    ensures
        join(parts, sep) == parts[0] + seq![sep] + parts[1] + seq![sep] + parts[2],
{
    let front = parts.drop_last();
    assert(front[0] == parts[0] && front[1] == parts[1]);
    lemma_join_pair(front, sep);
}

/// Splitting the join of separator-free pieces gives the pieces back.
pub proof fn lemma_split_join(parts: Seq<Seq<char>>, sep: char)
    requires
        parts.len() >= 1,
        free_of(parts, sep),
    ensures
        split(join(parts, sep), sep) == parts,
    decreases parts.len(), parts.last().len(),
{
    let s = join(parts, sep);
    let last = parts.last();
    if last.len() == 0 {
        if parts.len() == 1 {
            assert(s == Seq::<char>::empty());
            assert(parts == seq![Seq::<char>::empty()]);
        } else {
            let front = parts.drop_last();
            assert(free_of(front, sep)) by {
                assert forall|k: int, i: int|
                    0 <= k < front.len() && 0 <= i < front[k].len() implies (#[trigger] front[k][i])
                    != sep by {
                    assert(front[k][i] == parts[k][i]);
                }
            }
            lemma_split_join(front, sep);
            assert(s == join(front, sep) + seq![sep] + last);
            assert(s == join(front, sep).push(sep));
            assert(s.drop_last() == join(front, sep));
            assert(s.last() == sep);
            assert(split(s, sep) == front.push(Seq::<char>::empty()));
            assert(last =~= Seq::<char>::empty());
            assert(front.push(last) =~= parts);
        }
    } else {
        let shorter = parts.drop_last().push(last.drop_last());
        assert(free_of(shorter, sep)) by {
            assert forall|k: int, i: int|
                0 <= k < shorter.len() && 0 <= i < shorter[k].len() implies (
            #[trigger] shorter[k][i]) != sep by {
                assert(shorter[k][i] == parts[k][i]);
            }
        }
        lemma_split_join(shorter, sep);
        let c = last.last();
        assert(c == parts[parts.len() - 1][last.len() - 1]);
        assert(c != sep);
        if parts.len() == 1 {
            assert(join(shorter, sep) == last.drop_last());
            assert(s == last);
            assert(s.drop_last() == join(shorter, sep));
        } else {
            assert(shorter.drop_last() == parts.drop_last());
            assert(join(shorter, sep) == join(parts.drop_last(), sep) + seq![sep]
                + last.drop_last());
            assert(s == join(parts.drop_last(), sep) + seq![sep] + last);
            assert(s.drop_last() == join(shorter, sep));
        }
        assert(s.last() == c);
        assert(split(s, sep) == shorter.drop_last().push(shorter.last().push(c)));
        assert(shorter.drop_last() == parts.drop_last());
        assert(shorter.last().push(c) == last);
        assert(parts.drop_last().push(last) == parts);
    }
}

/// A safe identifier takes as many bytes as it has characters, and holds
/// no slash.
pub proof fn lemma_safe_id_bytes(s: Seq<char>)
    requires
        is_safe_id(s),
    ensures
        vstd::utf8::encode_utf8(s).len() == s.len(),
        !s.contains('/'),
{
    assert(vstd::utf8::is_ascii_chars(s)) by {
        assert forall|i: int| 0 <= i < s.len() implies '\0' <= #[trigger] s[i] <= '\u{7f}' by {
            if i > 0 {
                assert(is_id_char(s[i]));
            }
        }
    }
    vstd::utf8::is_ascii_chars_encode_utf8(s);
    assert forall|i: int| 0 <= i < s.len() implies s[i] != '/' by {
        if i > 0 {
            assert(is_id_char(s[i]));
        }
    }
}

/// Copies the characters of `s` into a vector.
pub fn chars_of(s: &str) -> (v: Vec<char>)
    ensures
        v@ == s@,
{
    let mut v: Vec<char> = Vec::new();
    for c in it: s.chars()
        invariant
            it.seq() == s@,
            v@ == it.seq().take(it.index()),
    {
        v.push(c);
    }
    v
}

/// Whether `c` may start an identifier.
pub(crate) fn id_start(c: char) -> (b: bool)
    ensures
        b == is_id_start(c),
{
    (c >= 'a' && c <= 'z') || (c >= 'A' && c <= 'Z') || (c >= '0' && c <= '9') || c == '_'
}

/// Whether `s` is a safe identifier.
pub fn check_safe_id(s: &Vec<char>) -> (b: bool)
    ensures
        b == is_safe_id(s@),
{
    if s.len() == 0 || !id_start(s[0]) {
        return false;
    }
    let mut i: usize = 1;
    while i < s.len()
        invariant
            1 <= i <= s.len(),
            is_id_start(s@[0]),
            forall|j: int| 1 <= j < i ==> is_id_char(#[trigger] s@[j]),
        decreases s.len() - i,
    {
        let c = s[i];
        if !(id_start(c) || c == '.' || c == '-') {
            return false;
        }
        i += 1;
    }
    true
}

/// Whether `c` occurs in `s`.
pub(crate) fn has_char(s: &Vec<char>, c: char) -> (b: bool)
    ensures
        b == s@.contains(c),
{
    let mut i: usize = 0;
    while i < s.len()
        invariant
            i <= s.len(),
            forall|j: int| 0 <= j < i ==> s@[j] != c,
        decreases s.len() - i,
    {
        if s[i] == c {
            return true;
        }
        i += 1;
    }
    false
}

/// The bounds of the pieces of `s`: piece `k` of `split(s, sep)` is `s` from
/// `r[k].0` up to, not including, `r[k].1`.
pub(crate) fn split_ranges(s: &Vec<char>, sep: char) -> (r: Vec<(usize, usize)>)
    ensures
        r@.len() == split(s@, sep).len(),
        forall|k: int|
            0 <= k < r@.len() ==> {
                &&& (#[trigger] r@[k]).0 <= r@[k].1 <= s@.len()
                &&& s@.subrange(r@[k].0 as int, r@[k].1 as int) == split(s@, sep)[k]
            },
{
    let mut r: Vec<(usize, usize)> = Vec::new();
    let mut start: usize = 0;
    let mut i: usize = 0;
    proof {
        assert(s@.take(0) =~= Seq::<char>::empty());
        assert(s@.subrange(0, 0) =~= Seq::<char>::empty());
    }
    while i < s.len()
        invariant
            start <= i <= s.len(),
            split(s@.take(i as int), sep).len() == r@.len() + 1,
            split(s@.take(i as int), sep).last() == s@.subrange(start as int, i as int),
            forall|k: int|
                0 <= k < r@.len() ==> {
                    &&& (#[trigger] r@[k]).0 <= r@[k].1 <= s@.len()
                    &&& s@.subrange(r@[k].0 as int, r@[k].1 as int) == split(
                        s@.take(i as int),
                        sep,
                    )[k]
                },
        decreases s.len() - i,
    {
        proof {
            let t = s@.take(i as int + 1);
            assert(t.drop_last() =~= s@.take(i as int));
            assert(t.last() == s@[i as int]);
            if s@[i as int] != sep {
                assert(s@.subrange(start as int, i as int).push(s@[i as int]) =~= s@.subrange(
                    start as int,
                    i as int + 1,
                ));
            } else {
                assert(s@.subrange(i as int + 1, i as int + 1) =~= Seq::<char>::empty());
            }
        }
        if s[i] == sep {
            r.push((start, i));
            start = i + 1;
        }
        i += 1;
    }
    proof {
        assert(s@.take(s@.len() as int) =~= s@);
    }
    r.push((start, i));
    r
}

/// An ASCII decimal digit.
pub open spec fn is_digit(c: char) -> bool {
    '0' <= c && c <= '9'
}

/// The number that a decimal digit stands for.
pub open spec fn digit_value(c: char) -> nat {
    (c as u32 - '0' as u32) as nat
}

/// Every character is a decimal digit.
pub open spec fn all_digits(s: Seq<char>) -> bool {
    forall|i: int| 0 <= i < s.len() ==> is_digit(#[trigger] s[i])
}

/// The number that a text of decimal digits stands for.
pub open spec fn decimal_value(s: Seq<char>) -> nat
    decreases s.len(),
{
    if s.len() == 0 {
        0
    } else {
        decimal_value(s.drop_last()) * 10 + digit_value(s.last())
    }
}

/// The text without one leading `+`.
pub open spec fn unsigned_part(s: Seq<char>) -> Seq<char> {
    if s.len() > 0 && s[0] == '+' {
        s.skip(1)
    } else {
        s
    }
}

/// The unsigned 64-bit number that `s` stands for: an optional `+`, then at
/// least one decimal digit, the value within range. `None` for any other text.
pub open spec fn decimal_u64(s: Seq<char>) -> Option<u64> {
    let d = unsigned_part(s);
    if d.len() > 0 && all_digits(d) && decimal_value(d) <= u64::MAX {
        Some(decimal_value(d) as u64)
    } else {
        None
    }
}

/// The value of the first `k` digits is no larger than the value of all.
pub proof fn lemma_decimal_prefix(s: Seq<char>, k: int)
    requires
        0 <= k <= s.len(),
    ensures
        decimal_value(s.take(k)) <= decimal_value(s),
    decreases s.len(),
{
    if k == s.len() {
        assert(s.take(k) =~= s);
    } else {
        assert(s.drop_last().take(k) =~= s.take(k));
        lemma_decimal_prefix(s.drop_last(), k);
    }
}

/// Reads `s` as an unsigned 64-bit decimal number.
pub fn parse_decimal_u64(s: &Vec<char>) -> (r: Option<u64>)
    ensures
        r == decimal_u64(s@),
{
    let start: usize = if s.len() > 0 && s[0] == '+' {
        1
    } else {
        0
    };
    let ghost d = unsigned_part(s@);
    proof {
        if start == 0 {
            assert(d =~= s@.skip(0));
        }
        assert(d.take(0) =~= Seq::<char>::empty());
    }
    if start == s.len() {
        return None;
    }
    let mut acc: u64 = 0;
    let mut i: usize = start;
    while i < s.len()
        invariant
            start <= i <= s.len(),
            d == s@.skip(start as int),
            d == unsigned_part(s@),
            d.len() > 0,
            all_digits(d.take(i - start)),
            acc == decimal_value(d.take(i - start)),
        decreases s.len() - i,
    {
        let c = s[i];
        proof {
            assert(d[i - start] == c);
        }
        if !(c >= '0' && c <= '9') {
            assert(!is_digit(d[i - start]));
            return None;
        }
        let digit: u64 = (c as u32 - '0' as u32) as u64;
        proof {
            let next = d.take(i - start + 1);
            assert(next.drop_last() =~= d.take(i - start));
            assert(next.last() == c);
            assert forall|j: int| 0 <= j < next.len() implies is_digit(#[trigger] next[j]) by {
                if j < i - start {
                    assert(next[j] == d.take(i - start)[j]);
                }
            }
            lemma_decimal_prefix(d, i - start + 1);
        }
        if acc > (u64::MAX - digit) / 10 {
            assert(decimal_value(d.take(i - start + 1)) > u64::MAX);
            return None;
        }
        acc = acc * 10 + digit;
        i += 1;
    }
    proof {
        assert(d.take(d.len() as int) =~= d);
    }
    Some(acc)
}

/// The order of two texts, character by character from position `i` on:
/// negative if `a` comes first, zero if they are equal from there, positive
/// if `b` comes first. A text that ends first comes first.
pub open spec fn lex_order_from(a: Seq<char>, b: Seq<char>, i: int) -> int
    decreases a.len() - i,
{
    if i >= a.len() && i >= b.len() {
        0
    } else if i >= a.len() {
        -1
    } else if i >= b.len() {
        1
    } else if (a[i] as u32) < (b[i] as u32) {
        -1
    } else if (a[i] as u32) > (b[i] as u32) {
        1
    } else {
        lex_order_from(a, b, i + 1)
    }
}

/// The lexicographic order of two texts by the code points of their characters.
pub open spec fn lex_order(a: Seq<char>, b: Seq<char>) -> int {
    lex_order_from(a, b, 0)
}

/// Compares two texts lexicographically.
pub fn compare_text(a: &Vec<char>, b: &Vec<char>) -> (r: i8)
    ensures
        r == lex_order(a@, b@),
        -1 <= r <= 1,
{
    let mut i: usize = 0;
    while i < a.len() && i < b.len()
        invariant
            i <= a.len(),
            i <= b.len(),
            lex_order(a@, b@) == lex_order_from(a@, b@, i as int),
        decreases a.len() - i,
    {
        let x = a[i] as u32;
        let y = b[i] as u32;
        if x < y {
            return -1;
        }
        if x > y {
            return 1;
        }
        i += 1;
    }
    if i < b.len() {
        -1
    } else if i < a.len() {
        1
    } else {
        0
    }
}

/// The order is antisymmetric: swapping the texts flips the sign.
pub proof fn lemma_lex_order_flip(a: Seq<char>, b: Seq<char>, i: int)
    requires
        0 <= i,
    ensures
        lex_order_from(a, b, i) == -lex_order_from(b, a, i),
    decreases a.len() - i,
{
    if i < a.len() && i < b.len() && a[i] as u32 == b[i] as u32 {
        lemma_lex_order_flip(a, b, i + 1);
    }
}

/// Two texts are in no order exactly when they agree from `i` on.
pub proof fn lemma_lex_order_equal(a: Seq<char>, b: Seq<char>, i: int)
    requires
        0 <= i,
    ensures
        lex_order_from(a, b, i) == 0 <==> (a.len() == b.len() || (i >= a.len() && i >= b.len()))
            && forall|j: int| i <= j < a.len() && j < b.len() ==> a[j] == b[j],
        -1 <= lex_order_from(a, b, i) <= 1,
    decreases a.len() - i,
{
    if i < a.len() && i < b.len() {
        vstd::utf8::char_u32_cast(a[i], a[i] as u32);
        vstd::utf8::char_u32_cast(b[i], b[i] as u32);
        if a[i] as u32 == b[i] as u32 {
            assert(a[i] == b[i]);
            lemma_lex_order_equal(a, b, i + 1);
        }
    }
}

/// The order is transitive.
pub proof fn lemma_lex_order_transitive(a: Seq<char>, b: Seq<char>, c: Seq<char>, i: int)
    requires
        0 <= i,
        lex_order_from(a, b, i) <= 0,
        lex_order_from(b, c, i) <= 0,
    ensures
        lex_order_from(a, c, i) <= 0,
        lex_order_from(a, b, i) < 0 || lex_order_from(b, c, i) < 0 ==> lex_order_from(a, c, i) < 0,
    decreases a.len() - i,
{
    if i < a.len() && i < b.len() && i < c.len() {
        if a[i] as u32 == b[i] as u32 && b[i] as u32 == c[i] as u32 {
            lemma_lex_order_transitive(a, b, c, i + 1);
        }
    }
}

} // verus!
