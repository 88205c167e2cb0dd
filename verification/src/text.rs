//! Texts: byte order, decimal numerals and assembly from parts.
use vstd::prelude::*;
use vstd::string::*;
use vstd::utf8::*;

verus! {

/// Lexicographic order of byte strings.
pub open spec fn bytes_le(a: Seq<u8>, b: Seq<u8>) -> bool
    decreases a.len(),
{
    if a.len() == 0 {
        true
    } else if b.len() == 0 {
        false
    } else if a[0] != b[0] {
        a[0] < b[0]
    } else {
        bytes_le(a.drop_first(), b.drop_first())
    }
}

/// The order of texts: that of their UTF-8 bytes.
pub open spec fn text_le(a: Seq<char>, b: Seq<char>) -> bool {
    bytes_le(encode_utf8(a), encode_utf8(b))
}

pub proof fn lemma_bytes_le_total(a: Seq<u8>, b: Seq<u8>)
    ensures
        bytes_le(a, b) || bytes_le(b, a),
    decreases a.len(),
{
    if a.len() > 0 && b.len() > 0 {
        lemma_bytes_le_total(a.drop_first(), b.drop_first());
    }
}

pub proof fn lemma_bytes_le_transitive(a: Seq<u8>, b: Seq<u8>, c: Seq<u8>)
    requires
        bytes_le(a, b),
        bytes_le(b, c),
    ensures
        bytes_le(a, c),
    decreases a.len(),
{
    if a.len() > 0 && b.len() > 0 && c.len() > 0 && a[0] == b[0] && b[0] == c[0] {
        lemma_bytes_le_transitive(a.drop_first(), b.drop_first(), c.drop_first());
    }
}

pub proof fn lemma_bytes_le_antisymmetric(a: Seq<u8>, b: Seq<u8>)
    requires
        bytes_le(a, b),
        bytes_le(b, a),
    ensures
        a == b,
    decreases a.len(),
{
    if a.len() > 0 && b.len() > 0 {
        lemma_bytes_le_antisymmetric(a.drop_first(), b.drop_first());
        assert(a =~= seq![a[0]] + a.drop_first());
        assert(b =~= seq![b[0]] + b.drop_first());
    } else {
        assert(a =~= b);
    }
}

proof fn lemma_bytes_le_longer(a: Seq<u8>, b: Seq<u8>)
    ensures
        bytes_le(a, a + b),
    decreases a.len(),
{
    if a.len() > 0 {
        assert((a + b)[0] == a[0]);
        assert((a + b).drop_first() =~= a.drop_first() + b);
        lemma_bytes_le_longer(a.drop_first(), b);
    }
}

/// A text sorts before whatever begins with it.
pub proof fn lemma_text_le_longer(a: Seq<char>, b: Seq<char>)
    ensures
        text_le(a, a + b),
{
    lemma_encode_add(a, b);
    lemma_bytes_le_longer(encode_utf8(a), encode_utf8(b));
}

pub proof fn lemma_text_le_total(a: Seq<char>, b: Seq<char>)
    ensures
        text_le(a, b) || text_le(b, a),
{
    lemma_bytes_le_total(encode_utf8(a), encode_utf8(b));
}

pub proof fn lemma_text_le_transitive(a: Seq<char>, b: Seq<char>, c: Seq<char>)
    requires
        text_le(a, b),
        text_le(b, c),
    ensures
        text_le(a, c),
{
    lemma_bytes_le_transitive(encode_utf8(a), encode_utf8(b), encode_utf8(c));
}

pub proof fn lemma_text_le_antisymmetric(a: Seq<char>, b: Seq<char>)
    requires
        text_le(a, b),
        text_le(b, a),
    ensures
        a == b,
{
    lemma_bytes_le_antisymmetric(encode_utf8(a), encode_utf8(b));
    encode_utf8_decode_utf8(a);
    encode_utf8_decode_utf8(b);
}

/// Whether `a` sorts at or before `b`.
pub fn at_or_before(a: &str, b: &str) -> (r: bool)
    ensures
        r == text_le(a@, b@),
{
    let x = a.as_bytes();
    let y = b.as_bytes();
    let mut i: usize = 0;
    assert(x@.skip(0) =~= x@);
    assert(y@.skip(0) =~= y@);
    while i < x.len() && i < y.len()
        invariant
            i <= x@.len(),
            i <= y@.len(),
            x@ == encode_utf8(a@),
            y@ == encode_utf8(b@),
            text_le(a@, b@) == bytes_le(x@.skip(i as int), y@.skip(i as int)),
        decreases x@.len() - i,
    {
        let ghost xs = x@.skip(i as int);
        let ghost ys = y@.skip(i as int);
        if x[i] != y[i] {
            return x[i] < y[i];
        }
        proof {
            assert(xs.drop_first() =~= x@.skip(i as int + 1));
            assert(ys.drop_first() =~= y@.skip(i as int + 1));
        }
        i = i + 1;
    }
    i == x.len()
}

/// Whether two texts are equal.
pub fn same_text(a: &str, b: &str) -> (r: bool)
    ensures
        r == (a@ == b@),
{
    let x = a.to_owned();
    let y = b.to_owned();
    x == y
}

/// The decimal digits of `n`, most significant first.
pub open spec fn decimal(n: nat) -> Seq<char>
    decreases n,
{
    if n < 10 {
        seq![digit(n)]
    } else {
        decimal(n / 10).push(digit(n % 10))
    }
}

pub open spec fn digit(d: nat) -> char {
    if d == 0 {
        '0'
    } else if d == 1 {
        '1'
    } else if d == 2 {
        '2'
    } else if d == 3 {
        '3'
    } else if d == 4 {
        '4'
    } else if d == 5 {
        '5'
    } else if d == 6 {
        '6'
    } else if d == 7 {
        '7'
    } else if d == 8 {
        '8'
    } else {
        '9'
    }
}

fn digit_text(d: u64) -> (r: &'static str)
    requires
        d < 10,
    ensures
        r@ == seq![digit(d as nat)],
{
    proof {
        reveal_strlit("0");
        reveal_strlit("1");
        reveal_strlit("2");
        reveal_strlit("3");
        reveal_strlit("4");
        reveal_strlit("5");
        reveal_strlit("6");
        reveal_strlit("7");
        reveal_strlit("8");
        reveal_strlit("9");
    }
    let r = match d {
        0 => "0",
        1 => "1",
        2 => "2",
        3 => "3",
        4 => "4",
        5 => "5",
        6 => "6",
        7 => "7",
        8 => "8",
        _ => "9",
    };
    assert(r@ =~= seq![digit(d as nat)]);
    r
}

/// The decimal numeral of `n`.
pub fn decimal_text(n: u64) -> (r: String)
    ensures
        r@ == decimal(n as nat),
    decreases n,
{
    if n < 10 {
        digit_text(n).to_owned()
    } else {
        let mut s = decimal_text(n / 10);
        s.append(digit_text(n % 10));
        assert(s@ =~= decimal(n as nat));
        s
    }
}

pub open spec fn is_digit(c: char) -> bool {
    '0' <= c <= '9'
}

/// What a text of digits counts to.
pub open spec fn count(t: Seq<char>) -> nat
    decreases t.len(),
{
    if t.len() == 0 {
        0
    } else {
        count(t.drop_last()) * 10 + (t.last() as nat - '0' as nat) as nat
    }
}

/// A numeral is made of digits and counts to its number.
pub proof fn lemma_decimal(n: nat)
    ensures
        decimal(n).len() > 0,
        forall|i: int| 0 <= i < decimal(n).len() ==> is_digit(#[trigger] decimal(n)[i]),
        count(decimal(n)) == n,
    decreases n,
{
    let t = decimal(n);
    if n < 10 {
        assert(t.drop_last() =~= Seq::empty());
        assert(count(t.drop_last()) == 0);
    } else {
        lemma_decimal(n / 10);
        assert(t.drop_last() =~= decimal(n / 10));
        assert forall|i: int| 0 <= i < t.len() implies is_digit(#[trigger] t[i]) by {
            if i < t.len() - 1 {
                assert(t[i] == decimal(n / 10)[i]);
            }
        }
    }
}

proof fn lemma_count_grows(t: Seq<char>, n: int)
    requires
        0 <= n <= t.len(),
        forall|i: int| 0 <= i < t.len() ==> is_digit(#[trigger] t[i]),
    ensures
        count(t.take(n)) <= count(t),
    decreases t.len() - n,
{
    if n == t.len() {
        assert(t.take(n) =~= t);
    } else {
        assert(t.take(n + 1).drop_last() =~= t.take(n));
        lemma_count_grows(t, n + 1);
    }
}

/// The number that a text is the numeral of.
pub open spec fn number_in(t: Seq<char>) -> Option<u64> {
    if exists|n: u64| #[trigger] decimal(n as nat) == t {
        Some(choose|n: u64| #[trigger] decimal(n as nat) == t)
    } else {
        None
    }
}

proof fn lemma_number_in(t: Seq<char>, n: u64)
    requires
        decimal(n as nat) == t,
    ensures
        number_in(t) == Some(n),
{
    let m = choose|m: u64| #[trigger] decimal(m as nat) == t;
    lemma_decimal(n as nat);
    lemma_decimal(m as nat);
}

/// Reads a numeral.
pub fn parse_number(t: &str) -> (r: Option<u64>)
    ensures
        r == number_in(t@),
{
    let len: usize = t.unicode_len();
    let mut sum: u64 = 0;
    let mut i: usize = 0;
    assert(t@.take(0) =~= Seq::empty());
    while i < len
        invariant
            i <= len,
            len == t@.len(),
            sum == count(t@.take(i as int)),
            forall|k: int| 0 <= k < i ==> is_digit(#[trigger] t@[k]),
        decreases len - i,
    {
        let c = t.get_char(i);
        proof {
            assert(t@.take(i + 1).drop_last() =~= t@.take(i as int));
            if exists|n: u64| #[trigger] decimal(n as nat) == t@ {
                let n = choose|n: u64| #[trigger] decimal(n as nat) == t@;
                lemma_decimal(n as nat);
                assert(is_digit(t@[i as int]));
                lemma_count_grows(t@, i + 1);
            }
        }
        if !('0' <= c && c <= '9') {
            return None;
        }
        let d: u64 = (c as u64) - 48;
        if sum > (u64::MAX - d) / 10 {
            assert(sum * 10 + d > u64::MAX);
            return None;
        }
        sum = sum * 10 + d;
        i = i + 1;
    }
    assert(t@.take(len as int) =~= t@);
    let shown = decimal_text(sum);
    if same_text(shown.as_str(), t) {
        proof {
            lemma_number_in(t@, sum);
        }
        Some(sum)
    } else {
        proof {
            if exists|n: u64| #[trigger] decimal(n as nat) == t@ {
                let n = choose|n: u64| #[trigger] decimal(n as nat) == t@;
                lemma_decimal(n as nat);
            }
        }
        None
    }
}

/// A text as its debug form shows it, quoted and escaped.
pub uninterp spec fn debug_text(t: Seq<char>) -> Seq<char>;

/// The `Debug` form of a `str` in std: the text in quotes, with escapes. It
/// is a function of the text alone.
#[verifier::external_body]
pub(crate) fn debug(t: &str) -> (r: String)
    ensures
        r@ == debug_text(t@),
{
    format!("{t:?}")
}

/// Whether a text begins with another.
pub fn begins_with(t: &str, start: &str) -> (r: bool)
    ensures
        r == start@.is_prefix_of(t@),
{
    let len: usize = start.unicode_len();
    if t.unicode_len() < len {
        return false;
    }
    let mut i: usize = 0;
    while i < len
        invariant
            i <= len,
            len == start@.len(),
            len <= t@.len(),
            forall|k: int| 0 <= k < i ==> start@[k] == t@[k],
        decreases len - i,
    {
        if start.get_char(i) != t.get_char(i) {
            return false;
        }
        i = i + 1;
    }
    assert(start@ =~= t@.subrange(0, len as int));
    true
}

/// Two texts, one after the other.
pub fn cat2(a: &str, b: &str) -> (r: String)
    ensures
        r@ == a@ + b@,
{
    let mut s = a.to_owned();
    s.append(b);
    s
}

/// Three texts, one after the other.
pub fn cat3(a: &str, b: &str, c: &str) -> (r: String)
    ensures
        r@ == a@ + b@ + c@,
{
    let mut s = cat2(a, b);
    s.append(c);
    s
}

/// Five texts, one after the other.
pub fn cat5(a: &str, b: &str, c: &str, d: &str, e: &str) -> (r: String)
    ensures
        r@ == a@ + b@ + c@ + d@ + e@,
{
    let mut s = cat3(a, b, c);
    s.append(d);
    s.append(e);
    s
}

/// The parts with `sep` between neighbours.
pub open spec fn join_text(parts: Seq<Seq<char>>, sep: Seq<char>) -> Seq<char>
    decreases parts.len(),
{
    if parts.len() == 0 {
        Seq::empty()
    } else if parts.len() == 1 {
        parts[0]
    } else {
        join_text(parts.drop_last(), sep) + sep + parts.last()
    }
}

pub open spec fn texts(parts: Seq<String>) -> Seq<Seq<char>> {
    crate::value::views(parts)
}

/// Joins texts with a separator.
pub fn join(parts: &Vec<String>, sep: &str) -> (r: String)
    ensures
        r@ == join_text(texts(parts@), sep@),
{
    let mut s = String::new();
    let mut i: usize = 0;
    assert(texts(parts@).take(0) =~= Seq::empty());
    while i < parts.len()
        invariant
            i <= parts.len(),
            s@ == join_text(texts(parts@).take(i as int), sep@),
        decreases parts.len() - i,
    {
        let ghost prior = texts(parts@).take(i as int);
        let ghost grown = texts(parts@).take(i as int + 1);
        proof {
            assert(grown.drop_last() =~= prior);
            assert(grown.last() == parts@[i as int]@);
        }
        if i > 0 {
            s.append(sep);
            s.append(parts[i].as_str());
        } else {
            s = parts[i].clone();
        }
        i = i + 1;
    }
    assert(texts(parts@).take(i as int) =~= texts(parts@));
    s
}

// ---------- bounded texts ----------

/// The length of a text in bytes.
pub open spec fn byte_len(t: Seq<char>) -> nat {
    encode_utf8(t).len()
}

/// The longest prefix of whole characters that takes at most `max` bytes.
pub open spec fn clipped(t: Seq<char>, max: nat) -> Seq<char>
    decreases t.len(),
{
    if t.len() == 0 || byte_len(t) <= max {
        t
    } else {
        clipped(t.drop_last(), max)
    }
}

pub proof fn lemma_encode_add(a: Seq<char>, b: Seq<char>)
    ensures
        encode_utf8(a + b) == encode_utf8(a) + encode_utf8(b),
    decreases a.len(),
{
    if a.len() == 0 {
        assert(a + b =~= b);
        assert(encode_utf8(a) + encode_utf8(b) =~= encode_utf8(b));
    } else {
        lemma_encode_add(a.drop_first(), b);
        assert((a + b).drop_first() =~= a.drop_first() + b);
        assert(encode_utf8(a + b) =~= encode_utf8(a) + encode_utf8(b));
    }
}

/// Every prefix of whole characters ends on a character boundary.
proof fn lemma_prefix_boundary(t: Seq<char>, k: int)
    requires
        0 <= k <= t.len(),
    ensures
        is_char_boundary(encode_utf8(t), byte_len(t.take(k)) as int),
        byte_len(t.take(k)) <= byte_len(t),
    decreases k,
{
    encode_utf8_valid_utf8(t);
    let bytes = encode_utf8(t);
    assert(t =~= t.take(k) + t.skip(k));
    lemma_encode_add(t.take(k), t.skip(k));
    if k == 0 {
        assert(t.take(0) =~= Seq::empty());
        is_char_boundary_start_end_of_seq(bytes);
    } else {
        encode_utf8_first_scalar(t);
        assert(pop_first_scalar(bytes) =~= encode_utf8(t.drop_first()));
        lemma_prefix_boundary(t.drop_first(), k - 1);
        assert(t.take(k).drop_first() =~= t.drop_first().take(k - 1));
        assert(t.take(k)[0] == t[0]);
        let head = encode_scalar(t[0] as u32);
        assert(encode_utf8(t.take(k)) =~= head + encode_utf8(t.drop_first().take(k - 1)));
        encode_utf8_first_scalar(t.take(k));
    }
}

proof fn lemma_char_takes_a_byte(t: Seq<char>)
    ensures
        t.len() <= byte_len(t),
    decreases t.len(),
{
    if t.len() > 0 {
        lemma_char_takes_a_byte(t.drop_first());
        encode_utf8_first_scalar(t);
        encode_utf8_valid_utf8(t);
    }
}

/// A prefix that fits, with every longer one too long, is the clipped text.
proof fn lemma_clipped(t: Seq<char>, max: nat, k: int)
    requires
        0 <= k <= t.len(),
        k == 0 || byte_len(t.take(k)) <= max,
        forall|m: int| k < m <= t.len() ==> byte_len(#[trigger] t.take(m)) > max,
    ensures
        clipped(t, max) == t.take(k),
    decreases t.len(),
{
    if k == t.len() {
        assert(t.take(k) =~= t);
    } else {
        assert(t.take(t.len() as int) =~= t);
        let u = t.drop_last();
        assert forall|m: int| k < m <= u.len() implies byte_len(#[trigger] u.take(m)) > max by {
            assert(u.take(m) =~= t.take(m));
        }
        assert(u.take(k) =~= t.take(k));
        lemma_clipped(u, max, k);
    }
}

/// A clipped text fits, unless there was no room for any byte.
pub proof fn lemma_clipped_fits(t: Seq<char>, max: nat)
    ensures
        byte_len(clipped(t, max)) <= max,
        clipped(t, max).len() <= t.len(),
        clipped(t, max) == t.take(clipped(t, max).len() as int),
    decreases t.len(),
{
    if t.len() == 0 {
        assert(t.take(0) =~= t);
    } else if byte_len(t) <= max {
        assert(t.take(t.len() as int) =~= t);
    } else {
        lemma_clipped_fits(t.drop_last(), max);
        let n = clipped(t, max).len() as int;
        assert(t.drop_last().take(n) =~= t.take(n));
    }
}

/// No longer prefix than the clipped text fits.
pub proof fn lemma_clipped_is_longest(t: Seq<char>, max: nat)
    ensures
        forall|m: int|
            clipped(t, max).len() < m <= t.len() ==> byte_len(#[trigger] t.take(m)) > max,
    decreases t.len(),
{
    if t.len() > 0 && byte_len(t) > max {
        let u = t.drop_last();
        lemma_clipped_is_longest(u, max);
        assert forall|m: int| clipped(t, max).len() < m <= t.len() implies byte_len(
            #[trigger] t.take(m),
        ) > max by {
            if m == t.len() {
                assert(t.take(m) =~= t);
            } else {
                assert(u.take(m) =~= t.take(m));
            }
        }
    }
}

/// Shortens a text to at most `max` bytes without splitting a character.
pub fn clip(t: &str, max: usize) -> (r: String)
    ensures
        r@ == clipped(t@, max as nat),
{
    let n: usize = t.as_bytes().len();
    if n <= max {
        return t.to_owned();
    }
    let ghost bytes = encode_utf8(t@);
    proof {
        encode_utf8_valid_utf8(t@);
        is_char_boundary_start_end_of_seq(bytes);
    }
    let mut end: usize = max;
    while end > 0 && !t.is_char_boundary(end)
        invariant
            end <= max,
            bytes == encode_utf8(t@),
            valid_utf8(bytes),
            is_char_boundary(bytes, 0),
            forall|b: int| end < b <= max ==> !(#[trigger] is_char_boundary(bytes, b)),
        decreases end,
    {
        end = end - 1;
    }
    let (head, tail) = t.split_at(end);
    proof {
        assert(bytes =~= bytes.subrange(0, end as int) + bytes.subrange(
            end as int,
            bytes.len() as int,
        ));
        lemma_encode_add(head@, tail@);
        encode_utf8_decode_utf8(head@ + tail@);
        encode_utf8_decode_utf8(t@);
        assert(t@ == head@ + tail@);
        let k = head@.len() as int;
        assert(t@.take(k) =~= head@);
        assert forall|m: int| k < m <= t@.len() implies byte_len(#[trigger] t@.take(m)) > max by {
            lemma_prefix_boundary(t@, m);
            let more = t@.subrange(k, m);
            assert(t@.take(m) =~= head@ + more);
            lemma_encode_add(head@, more);
            lemma_char_takes_a_byte(more);
        }
        lemma_clipped(t@, max as nat, k);
    }
    head.to_owned()
}

/// A numeral has no more digits than it needs, counts to its number, and is
/// read as it; so different numbers have different numerals.
pub proof fn law_numerals_are_read_back(n: u64, m: u64)
    ensures
        number_in(decimal(n as nat)) == Some(n),
        decimal(n as nat) == decimal(m as nat) ==> n == m,
        count(decimal(n as nat)) == n,
        n > 0 ==> decimal(n as nat)[0] != '0',
        decimal(0) == seq!['0'],
{
    lemma_number_in(decimal(n as nat), n);
    lemma_number_in(decimal(m as nat), m);
    lemma_decimal(n as nat);
    if n > 0 {
        lemma_leading_digit(n as nat);
    }
}

proof fn lemma_leading_digit(n: nat)
    requires
        n > 0,
    ensures
        decimal(n)[0] != '0',
        decimal(n).len() > 0,
    decreases n,
{
    if n >= 10 {
        lemma_leading_digit(n / 10);
        assert(decimal(n)[0] == decimal(n / 10)[0]);
    }
}

/// Texts are joined in order, the separator between neighbours and nowhere
/// else.
pub proof fn law_texts_are_joined_in_order(parts: Seq<Seq<char>>, t: Seq<char>, sep: Seq<char>)
    ensures
        join_text(Seq::empty(), sep) == Seq::<char>::empty(),
        join_text(seq![t], sep) == t,
        parts.len() > 0 ==> join_text(parts.push(t), sep) == join_text(parts, sep) + sep + t,
{
    assert(parts.push(t).drop_last() =~= parts);
}

/// Texts are ordered by the first byte in which they differ; a text stands
/// before every longer one that begins with it.
pub proof fn law_the_first_difference_decides(a: Seq<u8>, b: Seq<u8>, k: int)
    requires
        0 <= k < a.len(),
        k < b.len(),
        a.take(k) == b.take(k),
        a[k] != b[k],
    ensures
        bytes_le(a, b) <==> a[k] < b[k],
        bytes_le(a.take(k), b),
        !bytes_le(b, a.take(k)),
    decreases k,
{
    let p = a.take(k);
    if k > 0 {
        assert(a.take(k)[0] == a[0]);
        assert(b.take(k)[0] == b[0]);
        assert(a.drop_first().take(k - 1) =~= a.take(k).drop_first());
        assert(b.drop_first().take(k - 1) =~= b.take(k).drop_first());
        law_the_first_difference_decides(a.drop_first(), b.drop_first(), k - 1);
        assert(p.drop_first() =~= a.drop_first().take(k - 1));
    }
}

/// A shortened text is the longest prefix of whole characters that fits.
pub proof fn law_shortened_texts_are_the_longest_that_fit(t: Seq<char>, max: nat, m: int)
    ensures
        byte_len(clipped(t, max)) <= max,
        clipped(t, max).is_prefix_of(t),
        clipped(t, max).len() < m <= t.len() ==> byte_len(t.take(m)) > max,
        byte_len(t) <= max ==> clipped(t, max) == t,
{
    lemma_clipped_fits(t, max);
    lemma_clipped_is_longest(t, max);
}

} // verus!
