//! Chunk digests and sets of them.

use std::collections::HashMap;
use vstd::prelude::*;

verus! {

broadcast use vstd::std_specs::hash::group_hash_axioms;

/// The 256-bit digest that names a chunk, as its upper and lower half.
#[derive(Clone, Copy, Debug, Hash, PartialEq, Eq, Structural)]
pub struct Digest {
    /// The first sixteen bytes, read as one big-endian number.
    pub hi: u128,
    /// The last sixteen bytes, read as one big-endian number.
    pub lo: u128,
}

/// The number that bytes stand for, the first byte weighing most.
pub open spec fn big_endian(bytes: Seq<u8>) -> nat
    decreases bytes.len(),
{
    if bytes.len() == 0 {
        0
    } else {
        big_endian(bytes.drop_last()) * 256 + bytes.last() as nat
    }
}

/// The largest number that `n` bytes can stand for, plus one.
pub open spec fn byte_range(n: nat) -> nat
    decreases n,
{
    if n == 0 {
        1
    } else {
        byte_range((n - 1) as nat) * 256
    }
}

/// The number that bytes stand for lies in their range.
pub proof fn lemma_big_endian_range(bytes: Seq<u8>)
    ensures
        big_endian(bytes) < byte_range(bytes.len()),
    decreases bytes.len(),
{
    if bytes.len() > 0 {
        lemma_big_endian_range(bytes.drop_last());
    }
}

/// Sixteen bytes fit a `u128`.
pub proof fn lemma_sixteen_bytes_fit()
    ensures
        byte_range(16) == u128::MAX + 1,
{
    reveal_with_fuel(byte_range, 17);
}

impl Digest {
    /// The digest with the given thirty-two bytes.
    pub fn from_bytes(bytes: &[u8; 32]) -> (r: Digest)
        ensures
            r.hi == big_endian(bytes@.subrange(0, 16)),
            r.lo == big_endian(bytes@.subrange(16, 32)),
    {
        let hi = Self::read_half(bytes, 0);
        let lo = Self::read_half(bytes, 16);
        Digest { hi, lo }
    }

    /// The sixteen bytes from `start` on, read as one number.
    fn read_half(bytes: &[u8; 32], start: usize) -> (r: u128)
        requires
            start <= 16,
        ensures
            r == big_endian(bytes@.subrange(start as int, start + 16)),
    {
        let mut acc: u128 = 0;
        let mut i: usize = 0;
        let ghost half = bytes@.subrange(start as int, start + 16);
        proof {
            assert(half.take(0) =~= Seq::<u8>::empty());
        }
        while i < 16
            invariant
                i <= 16,
                start <= 16,
                half == bytes@.subrange(start as int, start + 16),
                acc == big_endian(half.take(i as int)),
            decreases 16 - i,
        {
            proof {
                let next = half.take(i as int + 1);
                assert(next.drop_last() =~= half.take(i as int));
                assert(next.last() == bytes@[start + i]);
                lemma_big_endian_range(next);
                lemma_byte_range_grows(next.len(), 16);
                lemma_sixteen_bytes_fit();
            }
            acc = acc * 256 + bytes[start + i] as u128;
            i += 1;
        }
        proof {
            assert(half.take(16) =~= half);
        }
        acc
    }
}

/// More bytes have a larger range.
pub proof fn lemma_byte_range_grows(a: nat, b: nat)
    requires
        a <= b,
    ensures
        byte_range(a) <= byte_range(b),
    decreases b,
{
    if a < b {
        lemma_byte_range_grows(a, (b - 1) as nat);
    }
}

/// A set of digests.
pub struct DigestSet {
    /// For each upper half that occurs, the lower halves that occur with it.
    buckets: HashMap<u128, Vec<u128>>,
}

impl View for DigestSet {
    type V = Set<Digest>;

    /// The digests in the set.
    closed spec fn view(&self) -> Set<Digest> {
        Set::new(
            |d: Digest| self.buckets@.contains_key(d.hi) && self.buckets@[d.hi]@.contains(d.lo),
        )
    }
}

/// Whether `x` occurs in `v`.
fn holds(v: &Vec<u128>, x: u128) -> (b: bool)
    ensures
        b == v@.contains(x),
{
    let mut i: usize = 0;
    while i < v.len()
        invariant
            i <= v.len(),
            forall|j: int| 0 <= j < i ==> v@[j] != x,
        decreases v.len() - i,
    {
        if v[i] == x {
            return true;
        }
        i += 1;
    }
    false
}

impl DigestSet {
    /// The empty set.
    pub fn new() -> (r: Self)
        ensures
            r@ == Set::<Digest>::empty(),
    {
        let r = DigestSet { buckets: HashMap::new() };
        assert(r@ =~= Set::<Digest>::empty());
        r
    }

    /// Whether `d` is in the set.
    pub fn contains(&self, d: &Digest) -> (b: bool)
        ensures
            b == self@.contains(*d),
    {
        match self.buckets.get(&d.hi) {
            Some(bucket) => holds(bucket, d.lo),
            None => false,
        }
    }

    /// Puts `d` into the set; tells whether it was new.
    pub fn insert(&mut self, d: Digest) -> (fresh: bool)
        ensures
            final(self)@ == old(self)@.insert(d),
            fresh == !old(self)@.contains(d),
    {
        let ghost before = self.buckets@;
        let mut bucket = match self.buckets.remove(&d.hi) {
            Some(b) => b,
            None => Vec::new(),
        };
        let ghost old_bucket = bucket@;
        let fresh = !holds(&bucket, d.lo);
        if fresh {
            bucket.push(d.lo);
        }
        let ghost new_bucket = bucket@;
        self.buckets.insert(d.hi, bucket);
        proof {
            assert(self.buckets@ == before.remove(d.hi).insert(d.hi, bucket));
            assert forall|e: Digest| #[trigger] self@.contains(e) == old(self)@.insert(d).contains(
                e,
            ) by {
                if e.hi == d.hi {
                    if before.contains_key(d.hi) {
                        assert(before[d.hi]@ == old_bucket);
                    }
                    if fresh {
                        assert(new_bucket == old_bucket.push(d.lo));
                        if old_bucket.contains(e.lo) {
                            let j = choose|j: int|
                                0 <= j < old_bucket.len() && old_bucket[j] == e.lo;
                            assert(new_bucket[j] == e.lo);
                        }
                        if e.lo == d.lo {
                            assert(new_bucket[old_bucket.len() as int] == d.lo);
                        }
                    }
                }
            }
            assert(self@ =~= old(self)@.insert(d));
        }
        fresh
    }
}

} // verus!

verus! {

/// A hexadecimal digit in lower case.
pub open spec fn is_hex_digit(c: char) -> bool {
    ('0' <= c && c <= '9') || ('a' <= c && c <= 'f')
}

/// The number that a hexadecimal digit stands for.
pub open spec fn hex_digit_value(c: char) -> nat {
    if '0' <= c && c <= '9' {
        (c as u32 - '0' as u32) as nat
    } else {
        (c as u32 - 'a' as u32 + 10) as nat
    }
}

/// The hexadecimal digit that stands for `n`, a number below sixteen.
pub open spec fn hex_digit(n: nat) -> char {
    if n < 10 {
        (('0' as u32 + n) as u32) as char
    } else {
        (('a' as u32 + n - 10) as u32) as char
    }
}

/// Every character is a hexadecimal digit in lower case.
pub open spec fn all_hex(s: Seq<char>) -> bool {
    forall|i: int| 0 <= i < s.len() ==> is_hex_digit(#[trigger] s[i])
}

/// The number that a text of hexadecimal digits stands for.
pub open spec fn hex_value(s: Seq<char>) -> nat
    decreases s.len(),
{
    if s.len() == 0 {
        0
    } else {
        hex_value(s.drop_last()) * 16 + hex_digit_value(s.last())
    }
}

/// The last `k` hexadecimal digits of `n`.
pub open spec fn hex_text(n: nat, k: nat) -> Seq<char>
    decreases k,
{
    if k == 0 {
        Seq::<char>::empty()
    } else {
        hex_text(n / 16, (k - 1) as nat).push(hex_digit(n % 16))
    }
}

/// The largest number that `k` hexadecimal digits can stand for, plus one.
pub open spec fn hex_range(k: nat) -> nat
    decreases k,
{
    if k == 0 {
        1
    } else {
        hex_range((k - 1) as nat) * 16
    }
}

/// The digest that a text of sixty-four hexadecimal digits in lower case
/// names; none for any other text.
pub open spec fn digest_of_hex(s: Seq<char>) -> Option<Digest> {
    if s.len() == 64 && all_hex(s) {
        Some(
            Digest {
                hi: hex_value(s.subrange(0, 32)) as u128,
                lo: hex_value(s.subrange(32, 64)) as u128,
            },
        )
    } else {
        None
    }
}

/// The text of a digest: sixty-four hexadecimal digits in lower case.
pub open spec fn hex_of_digest(d: Digest) -> Seq<char> {
    hex_text(d.hi as nat, 32) + hex_text(d.lo as nat, 32)
}

/// The number that hexadecimal digits stand for lies in their range.
pub proof fn lemma_hex_value_range(s: Seq<char>)
    requires
        all_hex(s),
    ensures
        hex_value(s) < hex_range(s.len()),
    decreases s.len(),
{
    if s.len() > 0 {
        assert(all_hex(s.drop_last())) by {
            assert forall|i: int| 0 <= i < s.drop_last().len() implies is_hex_digit(
                #[trigger] s.drop_last()[i],
            ) by {
                assert(s.drop_last()[i] == s[i]);
            }
        }
        lemma_hex_value_range(s.drop_last());
        assert(is_hex_digit(s[s.len() - 1]));
    }
}

/// More digits have a larger range.
pub proof fn lemma_hex_range_grows(a: nat, b: nat)
    requires
        a <= b,
    ensures
        hex_range(a) <= hex_range(b),
    decreases b,
{
    if a < b {
        lemma_hex_range_grows(a, (b - 1) as nat);
    }
}

/// Thirty-two hexadecimal digits fit a `u128`.
pub proof fn lemma_thirty_two_digits_fit()
    ensures
        hex_range(32) == u128::MAX + 1,
{
    reveal_with_fuel(hex_range, 33);
}

/// The digit for a number below sixteen is a hexadecimal digit with that value.
pub proof fn lemma_hex_digit(n: nat)
    requires
        n < 16,
    ensures
        is_hex_digit(hex_digit(n)),
        hex_digit_value(hex_digit(n)) == n,
{
    let c = hex_digit(n);
    if n < 10 {
        assert(c as u32 == '0' as u32 + n);
    } else {
        assert(c as u32 == 'a' as u32 + n - 10);
    }
}

/// The text of a number has the length asked for, is made of hexadecimal
/// digits, and stands for the number as far as the digits reach.
pub proof fn lemma_hex_text(n: nat, k: nat)
    ensures
        hex_text(n, k).len() == k,
        all_hex(hex_text(n, k)),
        hex_value(hex_text(n, k)) == n % hex_range(k),
    decreases k,
{
    if k > 0 {
        let front = hex_text(n / 16, (k - 1) as nat);
        let text = hex_text(n, k);
        lemma_hex_text(n / 16, (k - 1) as nat);
        lemma_hex_digit(n % 16);
        assert(text.drop_last() =~= front);
        assert forall|i: int| 0 <= i < text.len() implies is_hex_digit(#[trigger] text[i]) by {
            if i < front.len() {
                assert(text[i] == front[i]);
            }
        }
        let r = hex_range((k - 1) as nat);
        assert(r > 0) by {
            lemma_hex_range_grows(0, (k - 1) as nat);
        }
        lemma_split_low_digit(n as int, r as int);
    }
}

/// Cutting a number at its last hexadecimal digit: the digits that are
/// left of it, as far as `r` reaches, and the digit itself.
proof fn lemma_split_low_digit(n: int, r: int)
    requires
        n >= 0,
        r > 0,
    ensures
        ((n / 16) % r) * 16 + n % 16 == n % (r * 16),
{
    let q = n / 16;
    let m = n % 16;
    let a = q / r;
    let b = q % r;
    vstd::arithmetic::div_mod::lemma_fundamental_div_mod(q, r);
    assert(q == r * a + b);
    assert(0 <= b < r) by {
        vstd::arithmetic::div_mod::lemma_mod_pos_bound(q, r);
    }
    assert(n == a * (r * 16) + (b * 16 + m)) by (nonlinear_arith)
        requires
            n == 16 * q + m,
            q == r * a + b,
    ;
    assert(0 <= b * 16 + m < r * 16) by (nonlinear_arith)
        requires
            0 <= b < r,
            0 <= m < 16,
    ;
    vstd::arithmetic::div_mod::lemma_fundamental_div_mod_converse(n, r * 16, a, b * 16 + m);
}

/// The text of a digest names the digest.
pub proof fn lemma_digest_hex_round_trip(d: Digest)
    ensures
        digest_of_hex(hex_of_digest(d)) == Some(d),
{
    let s = hex_of_digest(d);
    lemma_hex_text(d.hi as nat, 32);
    lemma_hex_text(d.lo as nat, 32);
    lemma_thirty_two_digits_fit();
    assert(s.subrange(0, 32) =~= hex_text(d.hi as nat, 32));
    assert(s.subrange(32, 64) =~= hex_text(d.lo as nat, 32));
    assert forall|i: int| 0 <= i < s.len() implies is_hex_digit(#[trigger] s[i]) by {
        if i < 32 {
            assert(s[i] == hex_text(d.hi as nat, 32)[i]);
        } else {
            assert(s[i] == hex_text(d.lo as nat, 32)[i - 32]);
        }
    }
    assert((d.hi as nat) % ((u128::MAX + 1) as nat) == d.hi as nat);
    assert((d.lo as nat) % ((u128::MAX + 1) as nat) == d.lo as nat);
}

} // verus!

verus! {

/// The text of one hexadecimal digit.
fn hex_digit_text(v: u8) -> (r: &'static str)
    requires
        v < 16,
    ensures
        r@ == seq![hex_digit(v as nat)],
{
    proof {
        reveal_strlit("0");
        reveal_strlit("1");
        reveal_strlit("2");
        reveal_strlit("3");
        reveal_strlit("4");
        reveal_strlit("5");
        reveal_strlit("6");
        reveal_strlit("7");
        reveal_strlit("8");
        reveal_strlit("9");
        reveal_strlit("a");
        reveal_strlit("b");
        reveal_strlit("c");
        reveal_strlit("d");
        reveal_strlit("e");
        reveal_strlit("f");
        lemma_hex_digit_chars();
    }
    let r = match v {
        0 => "0",
        1 => "1",
        2 => "2",
        3 => "3",
        4 => "4",
        5 => "5",
        6 => "6",
        7 => "7",
        8 => "8",
        9 => "9",
        10 => "a",
        11 => "b",
        12 => "c",
        13 => "d",
        14 => "e",
        _ => "f",
    };
    assert(r@ =~= seq![hex_digit(v as nat)]);
    r
}

/// The sixteen hexadecimal digits.
proof fn lemma_hex_digit_chars()
    ensures
        hex_digit(0) == '0',
        hex_digit(1) == '1',
        hex_digit(2) == '2',
        hex_digit(3) == '3',
        hex_digit(4) == '4',
        hex_digit(5) == '5',
        hex_digit(6) == '6',
        hex_digit(7) == '7',
        hex_digit(8) == '8',
        hex_digit(9) == '9',
        hex_digit(10) == 'a',
        hex_digit(11) == 'b',
        hex_digit(12) == 'c',
        hex_digit(13) == 'd',
        hex_digit(14) == 'e',
        hex_digit(15) == 'f',
{
}

/// The thirty-two hexadecimal digits of `n`, appended to `out`.
fn append_hex(out: &mut String, n: u128)
    ensures
        final(out)@ == old(out)@ + hex_text(n as nat, 32),
{
    let mut digits: Vec<u8> = Vec::new();
    let mut rest: u128 = n;
    let mut k: usize = 0;
    proof {
        assert(hex_range(0) == 1);
    }
    while k < 32
        invariant
            k <= 32,
            digits@.len() == k,
            rest == n as nat / hex_range(k as nat),
            hex_range(k as nat) > 0,
            forall|j: int|
                0 <= j < k ==> (#[trigger] digits@[j]) as nat == (n as nat / hex_range(j as nat))
                    % 16,
        decreases 32 - k,
    {
        proof {
            vstd::arithmetic::div_mod::lemma_div_denominator(
                n as int,
                hex_range(k as nat) as int,
                16,
            );
        }
        digits.push((rest % 16) as u8);
        rest = rest / 16;
        k += 1;
    }
    let ghost start = out@;
    let mut i: usize = 0;
    proof {
        assert(start + hex_text(n as nat / hex_range(32), 0) =~= start);
    }
    while i < 32
        invariant
            i <= 32,
            digits@.len() == 32,
            forall|j: int|
                0 <= j < 32 ==> (#[trigger] digits@[j]) as nat == (n as nat / hex_range(j as nat))
                    % 16,
            out@ == start + hex_text(n as nat / hex_range((32 - i) as nat), i as nat),
        decreases 32 - i,
    {
        let v = digits[31 - i];
        proof {
            let lower = hex_range((31 - i) as nat);
            lemma_hex_range_grows(0, (31 - i) as nat);
            vstd::arithmetic::div_mod::lemma_div_denominator(n as int, lower as int, 16);
            let shifted = n as nat / lower;
            assert(shifted / 16 == n as nat / hex_range((32 - i) as nat));
            assert(hex_text(shifted, (i + 1) as nat) == hex_text(shifted / 16, i as nat).push(
                hex_digit(shifted % 16),
            ));
            assert((start + hex_text(shifted / 16, i as nat)) + seq![hex_digit(shifted % 16)]
                =~= start + hex_text(shifted, (i + 1) as nat));
        }
        out.append(hex_digit_text(v));
        i += 1;
    }
    proof {
        assert(n as nat / hex_range(0) == n as nat);
    }
}

impl Digest {
    /// The text of the digest: sixty-four hexadecimal digits in lower case.
    pub fn to_hex(&self) -> (r: String)
        ensures
            r@ == hex_of_digest(*self),
    {
        let mut r = String::new();
        append_hex(&mut r, self.hi);
        append_hex(&mut r, self.lo);
        assert(r@ =~= hex_of_digest(*self));
        r
    }

    /// The digest that a text of sixty-four hexadecimal digits in lower
    /// case names; `None` for any other text.
    pub fn from_hex(text: &str) -> (r: Option<Digest>)
        ensures
            r == digest_of_hex(text@),
    {
        let chars = crate::text::chars_of(text);
        Self::from_chars(&chars)
    }

    /// The digest that sixty-four hexadecimal digits in lower case name;
    /// `None` for any other characters.
    pub fn from_chars(chars: &Vec<char>) -> (r: Option<Digest>)
        ensures
            r == digest_of_hex(chars@),
    {
        if chars.len() != 64 {
            return None;
        }
        let hi = match Self::read_hex(chars, 0) {
            Some(v) => v,
            None => {
                return None;
            },
        };
        let lo = match Self::read_hex(chars, 32) {
            Some(v) => v,
            None => {
                return None;
            },
        };
        proof {
            let s = chars@;
            assert forall|i: int| 0 <= i < s.len() implies is_hex_digit(#[trigger] s[i]) by {
                if i < 32 {
                    assert(s.subrange(0, 32)[i] == s[i]);
                } else {
                    assert(s.subrange(32, 64)[i - 32] == s[i]);
                }
            }
        }
        Some(Digest { hi, lo })
    }

    /// The thirty-two hexadecimal digits from `start` on, read as one number.
    fn read_hex(chars: &Vec<char>, start: usize) -> (r: Option<u128>)
        requires
            chars@.len() == 64,
            start <= 32,
        ensures
            match r {
                Some(v) => all_hex(chars@.subrange(start as int, start + 32)) && v == hex_value(
                    chars@.subrange(start as int, start + 32),
                ),
                None => !all_hex(chars@),
            },
    {
        let ghost part = chars@.subrange(start as int, start + 32);
        let mut acc: u128 = 0;
        let mut i: usize = 0;
        proof {
            assert(part.take(0) =~= Seq::<char>::empty());
        }
        while i < 32
            invariant
                i <= 32,
                start <= 32,
                chars@.len() == 64,
                part == chars@.subrange(start as int, start + 32),
                all_hex(part.take(i as int)),
                acc == hex_value(part.take(i as int)),
            decreases 32 - i,
        {
            let c = chars[start + i];
            let v: u32 = if c >= '0' && c <= '9' {
                c as u32 - '0' as u32
            } else if c >= 'a' && c <= 'f' {
                c as u32 - 'a' as u32 + 10
            } else {
                assert(!is_hex_digit(chars@[start + i]));
                return None;
            };
            proof {
                let next = part.take(i as int + 1);
                assert(next.drop_last() =~= part.take(i as int));
                assert(next.last() == c);
                assert forall|j: int| 0 <= j < next.len() implies is_hex_digit(
                    #[trigger] next[j],
                ) by {
                    if j < i {
                        assert(next[j] == part.take(i as int)[j]);
                    }
                }
                lemma_hex_value_range(next);
                lemma_hex_range_grows(next.len(), 32);
                lemma_thirty_two_digits_fit();
            }
            acc = acc * 16 + v as u128;
            i += 1;
        }
        proof {
            assert(part.take(32) =~= part);
        }
        Some(acc)
    }
}

} // verus!

verus! {

/// The text `.bad`, the ending of the file of a chunk marked bad.
pub open spec fn bad_ending() -> Seq<char> {
    seq!['.', 'b', 'a', 'd']
}

/// The chunk that a file name stands for: the digest in hexadecimal
/// digits names a chunk, the same followed by `.bad` a chunk marked bad.
/// None for any other name.
pub open spec fn chunk_of_file_name(name: Seq<char>) -> Option<(Digest, bool)> {
    if name.len() == 64 && digest_of_hex(name) is Some {
        Some((digest_of_hex(name)->0, false))
    } else if name.len() == 68 && name.skip(64) == bad_ending() && digest_of_hex(name.take(64))
        is Some {
        Some((digest_of_hex(name.take(64))->0, true))
    } else {
        None
    }
}

/// The file name of a chunk.
pub open spec fn file_name_of_chunk(d: Digest, bad: bool) -> Seq<char> {
    if bad {
        hex_of_digest(d) + bad_ending()
    } else {
        hex_of_digest(d)
    }
}

impl Digest {
    /// Reads the file name of a chunk: the digest, and whether the chunk
    /// is marked bad.
    pub fn from_file_name(name: &str) -> (r: Option<(Digest, bool)>)
        ensures
            r == chunk_of_file_name(name@),
    {
        let chars = crate::text::chars_of(name);
        if chars.len() == 64 {
            match Self::from_chars(&chars) {
                Some(d) => Some((d, false)),
                None => None,
            }
        } else if chars.len() == 68 {
            if !(chars[64] == '.' && chars[65] == 'b' && chars[66] == 'a' && chars[67] == 'd') {
                proof {
                    let tail = chars@.skip(64);
                    if tail == bad_ending() {
                        assert(tail[0] == '.' && tail[1] == 'b' && tail[2] == 'a' && tail[3]
                            == 'd');
                    }
                }
                return None;
            }
            proof {
                assert(chars@.skip(64) =~= bad_ending());
            }
            let mut head: Vec<char> = Vec::new();
            let mut i: usize = 0;
            while i < 64
                invariant
                    i <= 64,
                    chars@.len() == 68,
                    head@ == chars@.take(i as int),
                decreases 64 - i,
            {
                head.push(chars[i]);
                proof {
                    assert(chars@.take(i as int).push(chars@[i as int]) =~= chars@.take(
                        i as int + 1,
                    ));
                }
                i += 1;
            }
            match Self::from_chars(&head) {
                Some(d) => Some((d, true)),
                None => None,
            }
        } else {
            None
        }
    }

    /// The file name of the chunk with this digest.
    pub fn file_name(&self, bad: bool) -> (r: String)
        ensures
            r@ == file_name_of_chunk(*self, bad),
    {
        let mut r = self.to_hex();
        if bad {
            proof {
                reveal_strlit(".bad");
                assert(".bad"@ =~= bad_ending());
            }
            r.append(".bad");
        }
        r
    }
}

/// The file name of a chunk reads back as the chunk.
pub proof fn lemma_file_name_round_trip(d: Digest, bad: bool)
    ensures
        chunk_of_file_name(file_name_of_chunk(d, bad)) == Some((d, bad)),
{
    lemma_digest_hex_round_trip(d);
    lemma_hex_text(d.hi as nat, 32);
    lemma_hex_text(d.lo as nat, 32);
    let hex = hex_of_digest(d);
    if bad {
        let name = hex + bad_ending();
        assert(name.take(64) =~= hex);
        assert(name.skip(64) =~= bad_ending());
    }
}

} // verus!
