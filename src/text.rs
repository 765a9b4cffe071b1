//! Character-level text helpers: whitespace trimming, the first line of a
//! text, and decimal and hexadecimal rendering.
use vstd::prelude::*;

verus! {

/// Unicode `White_Space`, the property that `char::is_whitespace` reports.
pub open spec fn is_white(c: char) -> bool {
    let u = c as u32;
    (0x09 <= u && u <= 0x0d) || u == 0x20 || u == 0x85 || u == 0xa0 || u == 0x1680 || (0x2000
        <= u && u <= 0x200a) || u == 0x2028 || u == 0x2029 || u == 0x202f || u == 0x205f || u
        == 0x3000
}

pub open spec fn trim_start(s: Seq<char>) -> Seq<char>
    decreases s.len(),
{
    if s.len() > 0 && is_white(s[0]) {
        trim_start(s.drop_first())
    } else {
        s
    }
}

pub open spec fn trim_end(s: Seq<char>) -> Seq<char>
    decreases s.len(),
{
    if s.len() > 0 && is_white(s.last()) {
        trim_end(s.drop_last())
    } else {
        s
    }
}

/// The text without leading and trailing whitespace.
pub open spec fn trim(s: Seq<char>) -> Seq<char> {
    trim_end(trim_start(s))
}

/// Index of the first `'\n'` at or after `i`, or the length of `s`.
pub open spec fn newline_from(s: Seq<char>, i: int) -> int
    decreases s.len() - i,
{
    if i < 0 || i >= s.len() {
        s.len() as int
    } else if s[i] == '\n' {
        i
    } else {
        newline_from(s, i + 1)
    }
}

/// The first line, as `str::lines` yields it: the text up to the first
/// `'\n'`, without a `'\r'` just before it; empty for an empty text.
pub open spec fn first_line(s: Seq<char>) -> Seq<char> {
    let k = newline_from(s, 0);
    if k < s.len() && k > 0 && s[k - 1] == '\r' {
        s.subrange(0, k - 1)
    } else {
        s.subrange(0, k)
    }
}

pub open spec fn digit_char(d: nat) -> char {
    if d < 10 {
        ((d + 48) as u8) as char
    } else {
        ((d + 55) as u8) as char
    }
}

/// Decimal digits of `n`, without leading zeros.
pub open spec fn decimal(n: nat) -> Seq<char>
    decreases n,
{
    if n < 10 {
        seq![digit_char(n)]
    } else {
        decimal(n / 10).push(digit_char(n % 10))
    }
}

/// Two uppercase hexadecimal digits of a byte.
pub open spec fn hex_pair(b: u8) -> Seq<char> {
    seq![digit_char((b / 16) as nat), digit_char((b % 16) as nat)]
}

pub fn is_whitespace_char(c: char) -> (r: bool)
    ensures
        r == is_white(c),
{
    let u = c as u32;
    (0x09 <= u && u <= 0x0d) || u == 0x20 || u == 0x85 || u == 0xa0 || u == 0x1680 || (0x2000
        <= u && u <= 0x200a) || u == 0x2028 || u == 0x2029 || u == 0x202f || u == 0x205f || u
        == 0x3000
}

proof fn lemma_trim_start_skip(s: Seq<char>, i: int)
    requires
        0 <= i <= s.len(),
        forall|j: int| 0 <= j < i ==> is_white(#[trigger] s[j]),
    ensures
        trim_start(s) == trim_start(s.subrange(i, s.len() as int)),
    decreases i,
{
    if i == 0 {
        assert(s.subrange(0, s.len() as int) =~= s);
    } else {
        assert(is_white(s[0]));
        assert(s.drop_first() =~= s.subrange(1, s.len() as int));
        let t = s.drop_first();
        assert forall|j: int| 0 <= j < i - 1 implies is_white(#[trigger] t[j]) by {
            assert(t[j] == s[j + 1]);
        }
        lemma_trim_start_skip(t, i - 1);
        assert(t.subrange(i - 1, t.len() as int) =~= s.subrange(i, s.len() as int));
    }
}

/// Removes leading and trailing whitespace.
pub fn trim_text(s: &str) -> (r: &str)
    ensures
        r@ == trim(s@),
{
    let n = s.unicode_len();
    let mut a: usize = 0;
    while a < n && is_whitespace_char(s.get_char(a))
        invariant
            n == s@.len(),
            a <= n,
            forall|j: int| 0 <= j < a ==> is_white(#[trigger] s@[j]),
        decreases n - a,
    {
        a = a + 1;
    }
    proof {
        lemma_trim_start_skip(s@, a as int);
        assert(trim_start(s@.subrange(a as int, n as int)) == s@.subrange(a as int, n as int));
    }
    let mut b: usize = n;
    while b > a && is_whitespace_char(s.get_char(b - 1))
        invariant
            n == s@.len(),
            a <= b <= n,
            trim(s@) == trim_end(s@.subrange(a as int, b as int)),
        decreases b - a,
    {
        assert(s@.subrange(a as int, b as int).drop_last() =~= s@.subrange(
            a as int,
            b - 1 as int,
        ));
        b = b - 1;
    }
    s.substring_char(a, b)
}

/// The first line of a text, without its line ending.
pub fn first_line_of(s: &str) -> (r: &str)
    ensures
        r@ == first_line(s@),
{
    let n = s.unicode_len();
    let mut k: usize = 0;
    while k < n && s.get_char(k) != '\n'
        invariant
            n == s@.len(),
            k <= n,
            newline_from(s@, 0) == newline_from(s@, k as int),
        decreases n - k,
    {
        k = k + 1;
    }
    if k < n && k > 0 && s.get_char(k - 1) == '\r' {
        s.substring_char(0, k - 1)
    } else {
        s.substring_char(0, k)
    }
}

} // verus!

verus! {

/// The hexadecimal pairs of `b`, separated by single spaces.
pub open spec fn hex_groups(b: Seq<u8>) -> Seq<char>
    decreases b.len(),
{
    if b.len() == 0 {
        seq![]
    } else if b.len() == 1 {
        hex_pair(b[0])
    } else {
        hex_groups(b.drop_last()) + seq![' '] + hex_pair(b.last())
    }
}

/// The most bytes that a hex dump shows.
pub const MAX_HEX_BYTES: usize = 24;

/// A hex dump of at most `MAX_HEX_BYTES` bytes, followed by `" ..."` when
/// bytes were left out.
pub open spec fn hex_dump(b: Seq<u8>) -> Seq<char> {
    if b.len() > MAX_HEX_BYTES {
        hex_groups(b.take(MAX_HEX_BYTES as int)) + seq![' ', '.', '.', '.']
    } else {
        hex_groups(b)
    }
}

/// The single-character text of a digit below sixteen.
fn digit_str(d: u8) -> (r: &'static str)
    requires
        d < 16,
    ensures
        r@ == seq![digit_char(d as nat)],
{
    proof {
        reveal_strlit("0");
        reveal_strlit("1");
        reveal_strlit("2");
        reveal_strlit("3");
        reveal_strlit("4");
        reveal_strlit("5");
        reveal_strlit("6");
        reveal_strlit("7");
        reveal_strlit("8");
        reveal_strlit("9");
        reveal_strlit("A");
        reveal_strlit("B");
        reveal_strlit("C");
        reveal_strlit("D");
        reveal_strlit("E");
        reveal_strlit("F");
    }
    let r = match d {
        0 => "0",
        1 => "1",
        2 => "2",
        3 => "3",
        4 => "4",
        5 => "5",
        6 => "6",
        7 => "7",
        8 => "8",
        9 => "9",
        10 => "A",
        11 => "B",
        12 => "C",
        13 => "D",
        14 => "E",
        _ => "F",
    };
    assert(r@ =~= seq![digit_char(d as nat)]);
    r
}

/// Appends the decimal digits of `n`.
pub fn push_decimal(out: &mut String, n: usize)
    ensures
        final(out)@ == old(out)@ + decimal(n as nat),
    decreases n,
{
    if n >= 10 {
        push_decimal(out, n / 10);
    }
    out.append(digit_str((n % 10) as u8));
    assert(final(out)@ =~= old(out)@ + decimal(n as nat));
}

/// Appends the two uppercase hexadecimal digits of a byte.
pub fn push_hex_pair(out: &mut String, b: u8)
    ensures
        final(out)@ == old(out)@ + hex_pair(b),
{
    out.append(digit_str(b / 16));
    out.append(digit_str(b % 16));
    assert(final(out)@ =~= old(out)@ + hex_pair(b));
}

/// Renders at most `MAX_HEX_BYTES` bytes as uppercase hexadecimal pairs
/// separated by spaces, with a trailing `" ..."` when bytes were left out.
pub fn to_hex_string(bytes: &[u8]) -> (r: String)
    ensures
        r@ == hex_dump(bytes@),
{
    let mut out = String::new();
    let k: usize = if bytes.len() > MAX_HEX_BYTES {
        MAX_HEX_BYTES
    } else {
        bytes.len()
    };
    let mut i: usize = 0;
    while i < k
        invariant
            k <= bytes@.len(),
            k == MAX_HEX_BYTES || k == bytes@.len(),
            i <= k,
            out@ == hex_groups(bytes@.take(i as int)),
        decreases k - i,
    {
        proof {
            reveal_strlit(" ");
        }
        if i > 0 {
            out.append(" ");
        }
        push_hex_pair(&mut out, bytes[i]);
        let ghost t = bytes@.take(i + 1);
        assert(t.drop_last() =~= bytes@.take(i as int));
        assert(t.last() == bytes@[i as int]);
        if i == 0 {
            assert(t[0] == bytes@[0]);
            assert(out@ =~= hex_groups(t));
        } else {
            assert(out@ =~= hex_groups(t));
        }
        i = i + 1;
    }
    if bytes.len() > MAX_HEX_BYTES {
        proof {
            reveal_strlit(" ...");
        }
        out.append(" ...");
        assert(out@ =~= hex_dump(bytes@));
    } else {
        assert(bytes@.take(i as int) =~= bytes@);
    }
    out
}

} // verus!

verus! {

proof fn lemma_hex_groups_shape(s: Seq<u8>)
    ensures
        s.len() == 0 ==> hex_groups(s).len() == 0,
        s.len() > 0 ==> hex_groups(s).len() == 3 * s.len() - 1,
        forall|i: int|
            0 <= i < s.len() ==> #[trigger] hex_groups(s).subrange(3 * i, 3 * i + 2) == hex_pair(
                s[i],
            ),
        forall|k: int| 0 <= k < hex_groups(s).len() ==> #[trigger] hex_groups(s)[k] != '.',
    decreases s.len(),
{
    if s.len() >= 2 {
        let p = s.drop_last();
        lemma_hex_groups_shape(p);
        let g = hex_groups(s);
        let h = hex_groups(p);
        assert(g == h + seq![' '] + hex_pair(s.last()));
        assert forall|i: int| 0 <= i < s.len() implies #[trigger] g.subrange(3 * i, 3 * i + 2)
            == hex_pair(s[i]) by {
            if i < s.len() - 1 {
                assert(h.subrange(3 * i, 3 * i + 2) == hex_pair(p[i]));
                assert(g.subrange(3 * i, 3 * i + 2) =~= h.subrange(3 * i, 3 * i + 2));
            } else {
                assert(g.subrange(3 * i, 3 * i + 2) =~= hex_pair(s.last()));
            }
        }
        assert forall|k: int| 0 <= k < g.len() implies #[trigger] g[k] != '.' by {
            if k < h.len() {
                assert(g[k] == h[k]);
            }
        }
    } else if s.len() == 1 {
        assert(hex_groups(s).subrange(0, 2) =~= hex_pair(s[0]));
    }
}

/// A hex dump shows one two-digit group for each of the first
/// `MAX_HEX_BYTES` bytes; it ends in `" ..."` exactly when bytes were left
/// out, and holds no `'.'` otherwise.
pub proof fn lemma_hex_dump_cap(b: Seq<u8>)
    ensures
        forall|i: int|
            0 <= i < b.len() && i < MAX_HEX_BYTES ==> #[trigger] hex_dump(b).subrange(
                3 * i,
                3 * i + 2,
            ) == hex_pair(b[i]),
        b.len() > MAX_HEX_BYTES ==> hex_dump(b).len() == 3 * MAX_HEX_BYTES + 3 && hex_dump(
            b,
        ).subrange(3 * MAX_HEX_BYTES - 1, 3 * MAX_HEX_BYTES + 3) == seq![' ', '.', '.', '.'],
        0 < b.len() <= MAX_HEX_BYTES ==> hex_dump(b).len() == 3 * b.len() - 1,
        b.len() <= MAX_HEX_BYTES ==> !hex_dump(b).contains('.'),
{
    if b.len() > MAX_HEX_BYTES {
        let t = b.take(MAX_HEX_BYTES as int);
        lemma_hex_groups_shape(t);
        let d = hex_dump(b);
        assert forall|i: int| 0 <= i < b.len() && i < MAX_HEX_BYTES implies #[trigger] d.subrange(
            3 * i,
            3 * i + 2,
        ) == hex_pair(b[i]) by {
            assert(hex_groups(t).subrange(3 * i, 3 * i + 2) == hex_pair(t[i]));
            assert(d.subrange(3 * i, 3 * i + 2) =~= hex_groups(t).subrange(3 * i, 3 * i + 2));
        }
        assert(d.subrange(3 * MAX_HEX_BYTES - 1, 3 * MAX_HEX_BYTES + 3) =~= seq![
            ' ',
            '.',
            '.',
            '.',
        ]);
    } else {
        lemma_hex_groups_shape(b);
    }
}

} // verus!
