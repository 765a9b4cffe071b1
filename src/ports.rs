//! The port specification: a comma-separated list of ports (`80`), ranges
//! (`1-1024`) and `-` for every port, turned into the ascending set of ports
//! to scan.
use vstd::prelude::*;
use crate::text::{trim, trim_text};

verus! {

/// The pieces of a text between commas, as `str::split(',')` yields them.
pub open spec fn split_commas(s: Seq<char>) -> Seq<Seq<char>>
    decreases s.len(),
{
    if s.len() == 0 {
        seq![seq![]]
    } else {
        let p = split_commas(s.drop_last());
        if s.last() == ',' {
            p.push(seq![])
        } else {
            p.update(p.len() - 1, p.last().push(s.last()))
        }
    }
}

/// Index of the first `c` at or after `i`, or the length of `s`.
pub open spec fn char_index_from(s: Seq<char>, c: char, i: int) -> int
    decreases s.len() - i,
{
    if i < 0 || i >= s.len() {
        s.len() as int
    } else if s[i] == c {
        i
    } else {
        char_index_from(s, c, i + 1)
    }
}

pub open spec fn is_digit(c: char) -> bool {
    '0' <= c && c <= '9'
}

/// The value of a string of decimal digits.
pub open spec fn digits_value(s: Seq<char>) -> nat
    decreases s.len(),
{
    if s.len() == 0 {
        0
    } else {
        digits_value(s.drop_last()) * 10 + (s.last() as nat - 48) as nat
    }
}

/// The text without one leading `+`.
pub open spec fn unsigned_digits(s: Seq<char>) -> Seq<char> {
    if s.len() > 0 && s[0] == '+' {
        s.drop_first()
    } else {
        s
    }
}

/// A port number as `str::parse::<u16>` reads it: an optional `+`, then one
/// or more decimal digits whose value fits in 16 bits.
pub open spec fn parse_u16(s: Seq<char>) -> Option<u16> {
    let d = unsigned_digits(s);
    if d.len() > 0 && (forall|i: int| 0 <= i < d.len() ==> is_digit(#[trigger] d[i]))
        && digits_value(d) <= 65535 {
        Some(digits_value(d) as u16)
    } else {
        None
    }
}

/// The ports from `a` to `b`, both included.
pub open spec fn port_range(a: u16, b: u16) -> Set<u16> {
    Set::new(|p: u16| a <= p && p <= b)
}

/// What one piece of a specification stands for, or the error it gives.
pub open spec fn piece_ports(piece: Seq<char>) -> Result<Set<u16>, Seq<char>> {
    let t = trim(piece);
    let k = char_index_from(t, '-', 0);
    if t.len() == 0 {
        Ok(Set::empty())
    } else if t == seq!['-'] {
        Ok(port_range(1, 65535))
    } else if k < t.len() {
        let start = t.subrange(0, k);
        let end = t.subrange(k + 1, t.len() as int);
        match (parse_u16(start), parse_u16(end)) {
            (None, _) => Err("Invalid start of range: '"@ + start + "'"@),
            (Some(_), None) => Err("Invalid end of range: '"@ + end + "'"@),
            (Some(a), Some(b)) => if a == 0 || b == 0 || a > b {
                Err("Invalid port range: '"@ + t + "'."@)
            } else {
                Ok(port_range(a, b))
            },
        }
    } else {
        match parse_u16(t) {
            None => Err("Invalid port: '"@ + t + "'"@),
            Some(n) => if n == 0 {
                Err("Invalid port '"@ + t + "'. Port must be > 0."@)
            } else {
                Ok(set![n])
            },
        }
    }
}

/// The union of what the pieces stand for, or the error of the first piece
/// that gives one.
pub open spec fn pieces_ports(pieces: Seq<Seq<char>>) -> Result<Set<u16>, Seq<char>>
    decreases pieces.len(),
{
    if pieces.len() == 0 {
        Ok(Set::empty())
    } else {
        match pieces_ports(pieces.drop_last()) {
            Err(e) => Err(e),
            Ok(acc) => match piece_ports(pieces.last()) {
                Err(e) => Err(e),
                Ok(s) => Ok(acc.union(s)),
            },
        }
    }
}

/// What a whole specification stands for.
pub open spec fn spec_ports(spec: Seq<char>) -> Result<Set<u16>, Seq<char>> {
    pieces_ports(split_commas(spec))
}

proof fn lemma_digits_value_grows(d: Seq<char>, i: int)
    requires
        0 <= i <= d.len(),
    ensures
        digits_value(d.take(i)) <= digits_value(d),
    decreases d.len() - i,
{
    if i < d.len() {
        lemma_digits_value_grows(d, i + 1);
        assert(d.take(i + 1).drop_last() =~= d.take(i));
    } else {
        assert(d.take(i) =~= d);
    }
}

/// Reads a port number as `str::parse::<u16>` does.
fn parse_port_number(s: &str) -> (r: Option<u16>)
    ensures
        r == parse_u16(s@),
{
    let n = s.unicode_len();
    let first: usize = if n > 0 && s.get_char(0) == '+' {
        1
    } else {
        0
    };
    let ghost d = unsigned_digits(s@);
    assert(d =~= s@.subrange(first as int, n as int));
    if first >= n {
        return None;
    }
    let mut i: usize = first;
    let mut value: u32 = 0;
    while i < n
        invariant
            first <= i <= n,
            n == s@.len(),
            d == s@.subrange(first as int, n as int),
            d == unsigned_digits(s@),
            value == digits_value(d.take(i - first)),
            value <= 65535,
            forall|j: int| 0 <= j < i - first ==> is_digit(#[trigger] d[j]),
        decreases n - i,
    {
        let c = s.get_char(i);
        if !('0' <= c && c <= '9') {
            assert(!is_digit(d[i - first]));
            assert(!(forall|j: int| 0 <= j < d.len() ==> is_digit(#[trigger] d[j])));
            return None;
        }
        let ghost k = (i - first) as int;
        assert(d.take(k + 1).drop_last() =~= d.take(k));
        assert(d.take(k + 1).last() == c);
        value = value * 10 + (c as u32 - 48);
        if value > 65535 {
            proof {
                lemma_digits_value_grows(d, k + 1);
                assert(digits_value(d) > 65535);
            }
            return None;
        }
        i = i + 1;
    }
    assert(d.take(n - first) =~= d);
    Some(value as u16)
}

/// Index of the first `c` in `s`, or its length.
fn find_char(s: &str, c: char) -> (r: usize)
    ensures
        r == char_index_from(s@, c, 0),
{
    let n = s.unicode_len();
    let mut k: usize = 0;
    while k < n && s.get_char(k) != c
        invariant
            n == s@.len(),
            k <= n,
            char_index_from(s@, c, 0) == char_index_from(s@, c, k as int),
        decreases n - k,
    {
        k = k + 1;
    }
    k
}

/// `a`, then `b` between quotes, then `c`.
fn quoted_message(a: &str, b: &str, c: &str) -> (r: String)
    ensures
        r@ == a@ + b@ + c@,
{
    let mut m = String::from_str(a);
    m.append(b);
    m.append(c);
    m
}

/// One piece of a specification: `Ok(None)` for no ports, `Ok(Some((a, b)))`
/// for the ports from `a` to `b`.
fn parse_piece(piece: &str) -> (r: Result<Option<(u16, u16)>, String>)
    ensures
        match r {
            Ok(None) => piece_ports(piece@) == Ok::<Set<u16>, Seq<char>>(Set::empty()),
            Ok(Some((a, b))) => 1 <= a <= b && piece_ports(piece@) == Ok::<Set<u16>, Seq<char>>(
                port_range(a, b),
            ),
            Err(m) => piece_ports(piece@) == Err::<Set<u16>, Seq<char>>(m@),
        },
{
    let t = trim_text(piece);
    let n = t.unicode_len();
    if n == 0 {
        return Ok(None);
    }
    if n == 1 && t.get_char(0) == '-' {
        assert(t@ =~= seq!['-']);
        return Ok(Some((1, 65535)));
    }
    assert(t@ != seq!['-']) by {
        if t@ == seq!['-'] {
            assert(t@[0] == '-');
        }
    }
    let k = find_char(t, '-');
    if k < n {
        let start = t.substring_char(0, k);
        let end = t.substring_char(k + 1, n);
        let a = match parse_port_number(start) {
            Some(a) => a,
            None => return Err(quoted_message("Invalid start of range: '", start, "'")),
        };
        let b = match parse_port_number(end) {
            Some(b) => b,
            None => return Err(quoted_message("Invalid end of range: '", end, "'")),
        };
        if a == 0 || b == 0 || a > b {
            return Err(quoted_message("Invalid port range: '", t, "'."));
        }
        Ok(Some((a, b)))
    } else {
        match parse_port_number(t) {
            None => Err(quoted_message("Invalid port: '", t, "'")),
            Some(p) => {
                if p == 0 {
                    Err(quoted_message("Invalid port '", t, "'. Port must be > 0."))
                } else {
                    assert(port_range(p, p) =~= set![p]);
                    Ok(Some((p, p)))
                }
            },
        }
    }
}

} // verus!

verus! {

/// Marks the ports from `a` to `b`.
fn mark_range(marks: &mut Vec<bool>, a: u16, b: u16)
    requires
        old(marks)@.len() == 65536,
        a <= b,
    ensures
        final(marks)@.len() == 65536,
        forall|q: u16|
            #[trigger] final(marks)@[q as int] == (old(marks)@[q as int] || (a <= q && q <= b)),
{
    let mut p: u32 = a as u32;
    while p <= b as u32
        invariant
            marks@.len() == 65536,
            a <= p <= b as u32 + 1,
            forall|q: u16|
                #[trigger] marks@[q as int] == (old(marks)@[q as int] || (a <= q && (q as u32)
                    < p)),
        decreases b as u32 + 1 - p,
    {
        marks.set(p as usize, true);
        p = p + 1;
    }
}

/// The marked ports, in ascending order.
fn marked_ports(marks: &Vec<bool>) -> (r: Vec<u16>)
    requires
        marks@.len() == 65536,
    ensures
        forall|i: int, j: int| 0 <= i < j < r@.len() ==> r@[i] < r@[j],
        forall|q: u16| r@.contains(q) <==> marks@[q as int],
{
    let mut r: Vec<u16> = Vec::new();
    let mut p: usize = 0;
    while p < 65536
        invariant
            marks@.len() == 65536,
            p <= 65536,
            forall|i: int, j: int| 0 <= i < j < r@.len() ==> r@[i] < r@[j],
            forall|i: int| 0 <= i < r@.len() ==> (r@[i] as int) < p,
            forall|q: u16| (q as int) < p ==> (r@.contains(q) <==> marks@[q as int]),
            forall|q: u16| (q as int) >= p ==> !r@.contains(q),
        decreases 65536 - p,
    {
        if marks[p] {
            let ghost old_r = r@;
            r.push(p as u16);
            assert forall|q: u16| #[trigger] r@.contains(q) <==> (old_r.contains(q) || q == p as u16) by {
                if r@.contains(q) {
                    let k = choose|k: int| 0 <= k < r@.len() && r@[k] == q;
                    if k < old_r.len() {
                        assert(old_r[k] == q);
                    }
                }
                if q == p as u16 {
                    assert(r@[old_r.len() as int] == q);
                }
                if old_r.contains(q) {
                    let k = choose|k: int| 0 <= k < old_r.len() && old_r[k] == q;
                    assert(r@[k] == q);
                }
            }
        }
        p = p + 1;
    }
    r
}

/// Marks the ports that one piece names.
fn mark_piece(marks: &mut Vec<bool>, piece: &str) -> (r: Result<(), String>)
    requires
        old(marks)@.len() == 65536,
    ensures
        final(marks)@.len() == 65536,
        match r {
            Ok(()) => piece_ports(piece@) is Ok && forall|q: u16|
                #[trigger] final(marks)@[q as int] == (old(marks)@[q as int] || piece_ports(
                    piece@,
                )->Ok_0.contains(q)),
            Err(m) => piece_ports(piece@) == Err::<Set<u16>, Seq<char>>(m@),
        },
{
    match parse_piece(piece) {
        Err(m) => Err(m),
        Ok(None) => Ok(()),
        Ok(Some((a, b))) => {
            mark_range(marks, a, b);
            Ok(())
        },
    }
}

/// Turns a port specification into the ascending list of distinct ports it
/// names: the union of its comma-separated pieces, each a port, a range
/// `a-b` or `-` for all ports, with surrounding whitespace and empty pieces
/// ignored. The first piece that is not well-formed gives the error.
pub fn parse_port_spec(spec: &str) -> (r: Result<Vec<u16>, String>)
    ensures
        match (r, spec_ports(spec@)) {
            (Ok(v), Ok(ports)) => (forall|i: int, j: int|
                0 <= i < j < v@.len() ==> v@[i] < v@[j]) && (forall|p: u16|
                v@.contains(p) <==> ports.contains(p)),
            (Err(m), Err(e)) => m@ == e,
            _ => false,
        },
{
    let n = spec.unicode_len();
    let mut marks: Vec<bool> = vec![false; 65536];
    let ghost mut acc: Set<u16> = Set::empty();
    let ghost mut done: Seq<Seq<char>> = seq![];
    let mut start: usize = 0;
    let mut i: usize = 0;
    assert(spec@.take(0) =~= seq![]);
    assert(spec@.subrange(0, 0) =~= seq![]);
    assert(split_commas(spec@.take(0)) =~= done + seq![spec@.subrange(0, 0)]);
    while i < n
        invariant
            n == spec@.len(),
            start <= i <= n,
            marks@.len() == 65536,
            forall|q: u16| #[trigger] marks@[q as int] == acc.contains(q),
            pieces_ports(done) == Ok::<Set<u16>, Seq<char>>(acc),
            split_commas(spec@.take(i as int)) == done + seq![
                spec@.subrange(start as int, i as int),
            ],
        decreases n - i,
    {
        let t = Ghost(spec@.take(i + 1));
        assert(t@.drop_last() =~= spec@.take(i as int));
        assert(t@.last() == spec@[i as int]);
        if spec.get_char(i) == ',' {
            let piece = spec.substring_char(start, i);
            let ghost next = done.push(piece@);
            assert(next.drop_last() =~= done);
            assert(next.last() == piece@);
            assert(spec@.subrange(i + 1, i + 1) =~= seq![]);
            assert(split_commas(t@) =~= next + seq![spec@.subrange(i + 1, i + 1)]);
            match mark_piece(&mut marks, piece) {
                Err(m) => {
                    proof {
                        lemma_pieces_error_stays(spec@, next, i as int);
                    }
                    return Err(m);
                },
                Ok(()) => {
                    proof {
                        let s = piece_ports(piece@)->Ok_0;
                        acc = acc.union(s);
                        done = next;
                    }
                },
            }
            start = i + 1;
        } else {
            assert(spec@.subrange(start as int, i + 1) =~= spec@.subrange(
                start as int,
                i as int,
            ).push(spec@[i as int]));
            assert(split_commas(t@) =~= done + seq![spec@.subrange(start as int, i + 1)]);
        }
        i = i + 1;
    }
    assert(spec@.take(n as int) =~= spec@);
    let piece = spec.substring_char(start, n);
    let ghost last = done.push(piece@);
    assert(last.drop_last() =~= done);
    assert(last.last() == piece@);
    assert(split_commas(spec@) =~= last);
    match mark_piece(&mut marks, piece) {
        Err(m) => Err(m),
        Ok(()) => {
            proof {
                acc = acc.union(piece_ports(piece@)->Ok_0);
            }
            let v = marked_ports(&marks);
            Ok(v)
        },
    }
}

/// Once the pieces read so far give an error, the whole specification does.
proof fn lemma_pieces_error_stays(s: Seq<char>, pieces: Seq<Seq<char>>, i: int)
    requires
        0 <= i < s.len(),
        s[i] == ',',
        pieces_ports(pieces) is Err,
        split_commas(s.take(i + 1)) == pieces + seq![seq![]],
    ensures
        pieces_ports(split_commas(s)) == pieces_ports(pieces),
{
    assert((pieces + seq![seq![]]).take(pieces.len() as int) =~= pieces);
    lemma_split_keeps_prefix(s, pieces, i + 1, s.len() as int);
    assert(s.take(s.len() as int) =~= s);
    lemma_error_prefix(split_commas(s), pieces.len() as int);
    assert(split_commas(s).take(pieces.len() as int) == pieces);
}

/// Reading further characters leaves the finished pieces as they are.
proof fn lemma_split_keeps_prefix(s: Seq<char>, pieces: Seq<Seq<char>>, i: int, j: int)
    requires
        0 < i <= j <= s.len(),
        split_commas(s.take(i)).len() > pieces.len(),
        split_commas(s.take(i)).take(pieces.len() as int) == pieces,
    ensures
        split_commas(s.take(j)).len() > pieces.len(),
        split_commas(s.take(j)).take(pieces.len() as int) == pieces,
    decreases j - i,
{
    if j > i {
        lemma_split_keeps_prefix(s, pieces, i, j - 1);
        let t = s.take(j);
        assert(t.drop_last() =~= s.take(j - 1));
        let p = split_commas(s.take(j - 1));
        assert(split_commas(t).take(pieces.len() as int) =~= p.take(pieces.len() as int));
    }
}

/// An error among the first `m` pieces is the error of all of them.
proof fn lemma_error_prefix(q: Seq<Seq<char>>, m: int)
    requires
        0 <= m <= q.len(),
        pieces_ports(q.take(m)) is Err,
    ensures
        pieces_ports(q) == pieces_ports(q.take(m)),
    decreases q.len() - m,
{
    if q.len() == m {
        assert(q.take(m) =~= q);
    } else {
        let r = q.drop_last();
        assert(r.take(m) =~= q.take(m));
        lemma_error_prefix(r, m);
    }
}

} // verus!

verus! {

proof fn lemma_split_nonempty(s: Seq<char>)
    ensures
        split_commas(s).len() >= 1,
    decreases s.len(),
{
    if s.len() > 0 {
        lemma_split_nonempty(s.drop_last());
    }
}

proof fn lemma_split_concat(a: Seq<char>, b: Seq<char>)
    ensures
        split_commas(a + seq![','] + b) == split_commas(a) + split_commas(b),
    decreases b.len(),
{
    lemma_split_nonempty(a);
    if b.len() == 0 {
        let s = a + seq![','];
        assert(s.drop_last() =~= a);
        assert(a + seq![','] + b =~= s);
        assert(split_commas(s) =~= split_commas(a) + split_commas(b));
    } else {
        let s = a + seq![','] + b;
        let b0 = b.drop_last();
        lemma_split_concat(a, b0);
        lemma_split_nonempty(b0);
        assert(s.drop_last() =~= a + seq![','] + b0);
        assert(s.last() == b.last());
        assert(split_commas(s) =~= split_commas(a) + split_commas(b));
    }
}

proof fn lemma_pieces_concat(p: Seq<Seq<char>>, q: Seq<Seq<char>>)
    requires
        pieces_ports(p) is Ok,
        pieces_ports(q) is Ok,
    ensures
        pieces_ports(p + q) == Ok::<Set<u16>, Seq<char>>(
            pieces_ports(p)->Ok_0.union(pieces_ports(q)->Ok_0),
        ),
    decreases q.len(),
{
    if q.len() == 0 {
        assert(p + q =~= p);
        assert(pieces_ports(p)->Ok_0.union(Set::empty()) =~= pieces_ports(p)->Ok_0);
    } else {
        let q0 = q.drop_last();
        lemma_pieces_concat(p, q0);
        assert((p + q).drop_last() =~= p + q0);
        assert((p + q).last() == q.last());
        let x = pieces_ports(p)->Ok_0;
        let y = pieces_ports(q0)->Ok_0;
        let z = piece_ports(q.last())->Ok_0;
        assert(x.union(y).union(z) =~= x.union(y.union(z)));
    }
}

/// Joining two well-formed specifications with a comma names exactly the
/// union of the ports that each names.
pub proof fn lemma_spec_ports_join(a: Seq<char>, b: Seq<char>)
    requires
        spec_ports(a) is Ok,
        spec_ports(b) is Ok,
    ensures
        spec_ports(a + seq![','] + b) == Ok::<Set<u16>, Seq<char>>(
            spec_ports(a)->Ok_0.union(spec_ports(b)->Ok_0),
        ),
{
    lemma_split_concat(a, b);
    lemma_pieces_concat(split_commas(a), split_commas(b));
}

} // verus!
