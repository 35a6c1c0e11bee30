//! IP addresses and their textual forms.

use vstd::prelude::*;

use crate::digits::{
    all_digits, all_hex, decimal, decimal_text, digits_value, hex, hex_text, hex_value, is_digit,
    is_hex_digit, lemma_decimal, lemma_decimal_of_digits, lemma_hex,
};
use crate::text::{
    chars_of, is_space, join, join_texts, lemma_join_split, lemma_split_join, lemma_until_is, slice_text,
    split, split_of, texts,
};
use crate::text_lemmas::is_word;

verus! {

/// An IPv4 address, most significant octet first.
#[derive(Clone, Copy, Debug, PartialEq, Eq, Structural)]
pub struct Ipv4Addr {
    pub a: u8,
    pub b: u8,
    pub c: u8,
    pub d: u8,
}

/// The number that the octet text `w` names: up to three digits, no leading zero, at most
/// 255.
pub open spec fn octet(w: Seq<char>) -> Option<u8> {
    if 1 <= w.len() <= 3 && all_digits(w) && (w.len() > 1 ==> w[0] != '0') && digits_value(w)
        <= 255 {
        Some(digits_value(w) as u8)
    } else {
        None
    }
}

/// Dotted-decimal text of an IPv4 address.
pub open spec fn v4_text(ip: Ipv4Addr) -> Seq<char> {
    join(
        seq![
            decimal(ip.a as nat),
            decimal(ip.b as nat),
            decimal(ip.c as nat),
            decimal(ip.d as nat),
        ],
        seq!['.'],
    )
}

/// The IPv4 address that `s` names: four octet texts between dots.
pub open spec fn read_v4(s: Seq<char>) -> Option<Ipv4Addr> {
    let p = split(s, '.');
    if p.len() == 4 && octet(p[0]) is Some && octet(p[1]) is Some && octet(p[2]) is Some && octet(
        p[3],
    ) is Some {
        Some(
            Ipv4Addr {
                a: octet(p[0])->0,
                b: octet(p[1])->0,
                c: octet(p[2])->0,
                d: octet(p[3])->0,
            },
        )
    } else {
        None
    }
}

fn parse_octet(w: &str) -> (r: Option<u8>)
    ensures
        r == octet(w@),
{
    let v: Vec<char> = chars_of(w);
    if v.len() == 0 || v.len() > 3 {
        return None;
    }
    let mut acc: u32 = 0;
    let mut i: usize = 0;
    while i < v.len()
        invariant
            i <= v@.len() <= 3,
            v@ == w@,
            all_digits(v@.take(i as int)),
            acc == digits_value(v@.take(i as int)),
            i == 0 ==> acc == 0,
            i == 1 ==> acc < 10,
            i == 2 ==> acc < 100,
            i == 3 ==> acc < 1000,
        decreases v@.len() - i,
    {
        let n: u32 = v[i] as u32;
        if n < 48 || n > 57 {
            assert(!is_digit(v@[i as int]));
            return None;
        }
        proof {
            let next = v@.take(i + 1);
            assert(next.drop_last() == v@.take(i as int));
            assert forall|j: int| 0 <= j < next.len() implies is_digit(#[trigger] next[j]) by {
                if j < i {
                    assert(next[j] == v@.take(i as int)[j]);
                }
            }
        }
        acc = acc * 10 + (n - 48);
        i = i + 1;
    }
    assert(v@.take(i as int) == v@);
    if v.len() > 1 && v[0] == '0' {
        return None;
    }
    if acc > 255 {
        None
    } else {
        Some(acc as u8)
    }
}

/// A number that fits an octet reads back from its decimal text.
proof fn lemma_octet_of_decimal(n: u8)
    ensures
        octet(decimal(n as nat)) == Some(n),
        !decimal(n as nat).contains('.'),
        !decimal(n as nat).contains(':'),
{
    let w = decimal(n as nat);
    lemma_decimal(n as nat);
    reveal_with_fuel(decimal, 3);
    assert forall|i: int| 0 <= i < w.len() implies w[i] != '.' && w[i] != ':' by {
        assert(is_digit(w[i]));
    }
}

/// An octet text is the decimal text of the number it names.
proof fn lemma_decimal_of_octet(w: Seq<char>)
    requires
        octet(w) is Some,
    ensures
        decimal(octet(w)->0 as nat) == w,
{
    lemma_decimal_of_digits(w);
}

/// Reading and writing IPv4 addresses are inverse: a text names `ip` exactly when it is the
/// text of `ip`.
pub proof fn v4_text_names_exactly_its_address(s: Seq<char>, ip: Ipv4Addr)
    ensures
        read_v4(s) == Some(ip) <==> s == v4_text(ip),
{
    let parts = seq![
        decimal(ip.a as nat),
        decimal(ip.b as nat),
        decimal(ip.c as nat),
        decimal(ip.d as nat),
    ];
    lemma_octet_of_decimal(ip.a);
    lemma_octet_of_decimal(ip.b);
    lemma_octet_of_decimal(ip.c);
    lemma_octet_of_decimal(ip.d);
    lemma_split_join(parts, '.');
    if read_v4(s) == Some(ip) {
        let p = split(s, '.');
        lemma_join_split(s, '.');
        lemma_decimal_of_octet(p[0]);
        lemma_decimal_of_octet(p[1]);
        lemma_decimal_of_octet(p[2]);
        lemma_decimal_of_octet(p[3]);
        assert(p =~= parts);
    }
}

impl Ipv4Addr {
    /// The address `s` names, if it names one.
    pub fn parse(s: &str) -> (r: Option<Ipv4Addr>)
        ensures
            r == read_v4(s@),
    {
        let p: Vec<String> = split_of(s, '.');
        let ghost q = split(s@, '.');
        assert(p@.len() == texts(p@).len());
        if p.len() != 4 {
            return None;
        }
        assert(q[0] == p@[0]@ && q[1] == p@[1]@ && q[2] == p@[2]@ && q[3] == p@[3]@);
        let a: Option<u8> = parse_octet(p[0].as_str());
        let b: Option<u8> = parse_octet(p[1].as_str());
        let c: Option<u8> = parse_octet(p[2].as_str());
        let d: Option<u8> = parse_octet(p[3].as_str());
        match (a, b, c, d) {
            (Some(a), Some(b), Some(c), Some(d)) => Some(Ipv4Addr { a, b, c, d }),
            _ => None,
        }
    }

    /// The dotted-decimal text of the address.
    pub fn to_text(&self) -> (r: String)
        ensures
            r@ == v4_text(*self),
    {
        let mut parts: Vec<String> = Vec::new();
        parts.push(decimal_text(self.a as u64));
        parts.push(decimal_text(self.b as u64));
        parts.push(decimal_text(self.c as u64));
        parts.push(decimal_text(self.d as u64));
        assert(texts(parts@) =~= seq![
            decimal(self.a as nat),
            decimal(self.b as nat),
            decimal(self.c as nat),
            decimal(self.d as nat),
        ]);
        let r = join_texts(&parts, ".");
        proof {
            reveal_strlit(".");
            assert("."@ =~= seq!['.']);
        }
        r
    }
}

/// An IPv6 address as its eight 16-bit segments, most significant first.
#[derive(Clone, Copy, Debug, PartialEq, Eq)]
pub struct Ipv6Addr {
    pub segments: [u16; 8],
}

/// The segment that the text `w` names: one to four hexadecimal digits.
pub open spec fn hex_group(w: Seq<char>) -> Option<u16> {
    if 1 <= w.len() <= 4 && all_hex(w) {
        Some(hex_value(w) as u16)
    } else {
        None
    }
}

/// The two segments that an IPv4 address fills.
pub open spec fn v4_segments(ip: Ipv4Addr) -> Seq<u16> {
    seq![(ip.a * 256 + ip.b) as u16, (ip.c * 256 + ip.d) as u16]
}

/// The segments that the pieces `p` name. Where `tail` holds, the last piece may be an IPv4
/// address.
pub open spec fn read_groups(p: Seq<Seq<char>>, tail: bool) -> Option<Seq<u16>>
    decreases p.len(),
{
    if p.len() == 0 {
        Some(seq![])
    } else if p.len() == 1 && tail && read_v4(p[0]) is Some {
        Some(v4_segments(read_v4(p[0])->0))
    } else {
        match (hex_group(p[0]), read_groups(p.drop_first(), tail)) {
            (Some(g), Some(rest)) => Some(seq![g] + rest),
            _ => None,
        }
    }
}

/// Where the first double colon of `s` stands; the length of `s` if it has none.
pub open spec fn gap(s: Seq<char>) -> nat
    decreases s.len(),
{
    if s.len() < 2 {
        s.len()
    } else if s[0] == ':' && s[1] == ':' {
        0
    } else {
        1 + gap(s.drop_first())
    }
}

/// The pieces between single colons; none where there is no text.
pub open spec fn pieces(s: Seq<char>) -> Seq<Seq<char>> {
    if s.len() == 0 {
        seq![]
    } else {
        split(s, ':')
    }
}

/// `n` zero segments.
pub open spec fn zeros(n: nat) -> Seq<u16> {
    Seq::new(n, |i: int| 0u16)
}

/// The segments of the IPv6 address that `s` names: eight groups, or fewer with one double
/// colon that stands for at least one group of zeros.
pub open spec fn read_v6(s: Seq<char>) -> Option<Seq<u16>> {
    if gap(s) >= s.len() {
        match read_groups(pieces(s), true) {
            Some(x) if x.len() == 8 => Some(x),
            _ => None,
        }
    } else {
        let head = read_groups(pieces(s.take(gap(s) as int)), false);
        let rest = read_groups(pieces(s.skip(gap(s) as int + 2)), true);
        match (head, rest) {
            (Some(h), Some(t)) if h.len() + t.len() <= 7 => Some(
                h + zeros((8 - h.len() - t.len()) as nat) + t,
            ),
            _ => None,
        }
    }
}

/// How many zero segments of `x` follow one another from `i` on.
pub open spec fn zero_run(x: Seq<u16>, i: int) -> nat
    decreases x.len() - i,
{
    if 0 <= i < x.len() && x[i] == 0 {
        1 + zero_run(x, i + 1)
    } else {
        0
    }
}

/// The first of the positions `0..=k` from which the most zero segments follow.
pub open spec fn best_run(x: Seq<u16>, k: nat) -> nat
    decreases k,
{
    if k == 0 {
        0
    } else {
        let b = best_run(x, (k - 1) as nat);
        if zero_run(x, k as int) > zero_run(x, b as int) {
            k
        } else {
            b
        }
    }
}

/// The hexadecimal texts of the segments `x`.
pub open spec fn hexes(x: Seq<u16>) -> Seq<Seq<char>> {
    Seq::new(x.len(), |i: int| hex(x[i] as nat))
}

/// Whether the segments are those of an IPv4 address mapped into IPv6.
pub open spec fn is_mapped(x: Seq<u16>) -> bool {
    x[0] == 0 && x[1] == 0 && x[2] == 0 && x[3] == 0 && x[4] == 0 && x[5] == 0xffff
}

/// The IPv4 address that the segments `hi` and `lo` hold.
pub open spec fn v4_of_segments(hi: u16, lo: u16) -> Ipv4Addr {
    Ipv4Addr {
        a: (hi / 256) as u8,
        b: (hi % 256) as u8,
        c: (lo / 256) as u8,
        d: (lo % 256) as u8,
    }
}

/// Text of the IPv6 address with the segments `x`. The first of the longest runs of two or
/// more zero segments is written as a double colon; a mapped IPv4 address ends in its
/// dotted-decimal text.
pub open spec fn v6_text(x: Seq<u16>) -> Seq<char> {
    let b = best_run(x, 7) as int;
    let n = zero_run(x, b) as int;
    if is_mapped(x) {
        seq![':', ':', 'f', 'f', 'f', 'f', ':'] + v4_text(v4_of_segments(x[6], x[7]))
    } else if n > 1 {
        join(hexes(x.take(b)), seq![':']) + seq![':', ':'] + join(
            hexes(x.skip(b + n)),
            seq![':'],
        )
    } else {
        join(hexes(x), seq![':'])
    }
}

fn parse_hex_group(w: &str) -> (r: Option<u16>)
    ensures
        r == hex_group(w@),
{
    let v: Vec<char> = chars_of(w);
    if v.len() == 0 || v.len() > 4 {
        return None;
    }
    let mut acc: u32 = 0;
    let mut i: usize = 0;
    while i < v.len()
        invariant
            i <= v@.len() <= 4,
            v@ == w@,
            all_hex(v@.take(i as int)),
            acc == hex_value(v@.take(i as int)),
            i == 0 ==> acc == 0,
            i == 1 ==> acc < 0x10,
            i == 2 ==> acc < 0x100,
            i == 3 ==> acc < 0x1000,
            i == 4 ==> acc < 0x10000,
        decreases v@.len() - i,
    {
        let n: u32 = v[i] as u32;
        let d: u32 = if 48 <= n && n <= 57 {
            n - 48
        } else if 97 <= n && n <= 102 {
            n - 87
        } else if 65 <= n && n <= 70 {
            n - 55
        } else {
            assert(!is_hex_digit(v@[i as int]));
            return None;
        };
        proof {
            let next = v@.take(i + 1);
            assert(next.drop_last() == v@.take(i as int));
            assert forall|j: int| 0 <= j < next.len() implies is_hex_digit(#[trigger] next[j]) by {
                if j < i {
                    assert(next[j] == v@.take(i as int)[j]);
                }
            }
        }
        acc = acc * 16 + d;
        i = i + 1;
    }
    assert(v@.take(i as int) == v@);
    Some(acc as u16)
}

/// The segments of the pieces from `from` on.
fn parse_groups(p: &Vec<String>, from: usize, tail: bool) -> (r: Option<Vec<u16>>)
    requires
        from <= p@.len(),
    ensures
        r is Some <==> read_groups(texts(p@).skip(from as int), tail) is Some,
        r is Some ==> r->0@ == read_groups(texts(p@).skip(from as int), tail)->0,
    decreases p@.len() - from,
{
    let ghost q = texts(p@).skip(from as int);
    if from == p.len() {
        assert(q.len() == 0);
        let none: Vec<u16> = Vec::new();
        assert(none@ =~= Seq::<u16>::empty());
        return Some(none);
    }
    assert(q[0] == p@[from as int]@);
    assert(q.drop_first() =~= texts(p@).skip(from + 1));
    if from + 1 == p.len() && tail {
        match Ipv4Addr::parse(p[from].as_str()) {
            Some(ip) => {
                let mut two: Vec<u16> = Vec::new();
                two.push(ip.a as u16 * 256 + ip.b as u16);
                two.push(ip.c as u16 * 256 + ip.d as u16);
                assert(two@ =~= v4_segments(ip));
                return Some(two);
            },
            None => {},
        }
    }
    match (parse_hex_group(p[from].as_str()), parse_groups(p, from + 1, tail)) {
        (Some(g), Some(mut rest)) => {
            let ghost old_rest = rest@;
            rest.insert(0, g);
            assert(rest@ =~= seq![g] + old_rest);
            Some(rest)
        },
        _ => None,
    }
}

/// The pieces of `s` between single colons.
fn pieces_of(s: &str) -> (r: Vec<String>)
    ensures
        texts(r@) == pieces(s@),
{
    if s.is_empty() {
        let r: Vec<String> = Vec::new();
        assert(texts(r@) =~= seq![]);
        r
    } else {
        split_of(s, ':')
    }
}

pub proof fn lemma_gap_skip(s: Seq<char>, n: int)
    requires
        0 <= n <= s.len(),
        forall|i: int| 0 <= i < n && i + 1 < s.len() ==> !(#[trigger] s[i] == ':' && s[i + 1] == ':'),
    ensures
        gap(s) == n + gap(s.skip(n)),
    decreases n,
{
    if n == 0 {
        assert(s.skip(0) == s);
    } else if s.len() < 2 {
        assert(s.skip(n).len() == 0);
    } else {
        assert(!(s[0] == ':' && s[1] == ':'));
        assert forall|i: int| 0 <= i < n - 1 && i + 1 < s.drop_first().len() implies !(
        #[trigger] s.drop_first()[i] == ':' && s.drop_first()[i + 1] == ':') by {
            assert(s.drop_first()[i] == s[i + 1]);
            assert(s.drop_first()[i + 1] == s[i + 2]);
        }
        lemma_gap_skip(s.drop_first(), n - 1);
        assert(s.drop_first().skip(n - 1) == s.skip(n));
    }
}

/// Where the first double colon stands; the length if there is none.
fn find_gap(v: &Vec<char>) -> (g: usize)
    ensures
        g == gap(v@),
        g < v@.len() ==> g + 2 <= v@.len(),
        g <= v@.len(),
{
    let mut g: usize = 0;
    while g < v.len() && !(g + 1 < v.len() && v[g] == ':' && v[g + 1] == ':')
        invariant
            g <= v@.len(),
            forall|i: int|
                0 <= i < g && i + 1 < v@.len() ==> !(#[trigger] v@[i] == ':' && v@[i + 1] == ':'),
        decreases v@.len() - g,
    {
        g = g + 1;
    }
    proof {
        lemma_gap_skip(v@, g as int);
        let t = v@.skip(g as int);
        if g < v@.len() {
            assert(t[0] == v@[g as int] && t[1] == v@[g + 1]);
        }
    }
    g
}

/// The eight segments with zeros between `h` and `t`, where there is room for at least one.
fn fill_gap(h: Vec<u16>, t: Vec<u16>) -> (r: Option<Vec<u16>>)
    ensures
        r is Some <==> h@.len() + t@.len() <= 7,
        r is Some ==> r->0@ == h@ + zeros((8 - h@.len() - t@.len()) as nat) + t@ && r->0@.len()
            == 8,
{
    if h.len() > 7 || t.len() > 7 - h.len() {
        return None;
    }
    let fill: usize = 8 - h.len() - t.len();
    let mut x: Vec<u16> = h;
    let mut rest: Vec<u16> = t;
    let ghost h0 = x@;
    let mut i: usize = 0;
    assert(x@ =~= h0 + zeros(0));
    while i < fill
        invariant
            i <= fill,
            x@ == h0 + zeros(i as nat),
        decreases fill - i,
    {
        x.push(0);
        assert(x@ =~= h0 + zeros((i + 1) as nat));
        i = i + 1;
    }
    x.append(&mut rest);
    Some(x)
}

impl Ipv6Addr {
    /// The address `s` names, if it names one.
    pub fn parse(s: &str) -> (r: Option<Ipv6Addr>)
        ensures
            r is Some <==> read_v6(s@) is Some,
            r is Some ==> r->0.segments@ == read_v6(s@)->0,
    {
        let v: Vec<char> = chars_of(s);
        let g: usize = find_gap(&v);
        let groups: Option<Vec<u16>> = if g == v.len() {
            let p: Vec<String> = pieces_of(s);
            assert(texts(p@).skip(0) =~= texts(p@));
            match parse_groups(&p, 0, true) {
                Some(x) => if x.len() == 8 {
                    Some(x)
                } else {
                    None
                },
                None => None,
            }
        } else {
            let head = slice_text(&v, 0, g);
            let tail = slice_text(&v, g + 2, v.len());
            assert(head@ =~= s@.take(g as int));
            assert(tail@ =~= s@.skip(g + 2));
            let hp: Vec<String> = pieces_of(head.as_str());
            let tp: Vec<String> = pieces_of(tail.as_str());
            assert(texts(hp@).skip(0) =~= texts(hp@));
            assert(texts(tp@).skip(0) =~= texts(tp@));
            match (parse_groups(&hp, 0, false), parse_groups(&tp, 0, true)) {
                (Some(h), Some(t)) => fill_gap(h, t),
                _ => None,
            }
        };
        let x: Vec<u16> = match groups {
            Some(x) => x,
            None => {
                return None;
            },
        };
        let segments: [u16; 8] = [x[0], x[1], x[2], x[3], x[4], x[5], x[6], x[7]];
        assert(segments@ =~= x@);
        Some(Ipv6Addr { segments })
    }

    /// The text of the address.
    pub fn to_text(&self) -> (r: String)
        ensures
            r@ == v6_text(self.segments@),
    {
        let ghost x = self.segments@;
        let mapped: bool = self.segments[0] == 0 && self.segments[1] == 0 && self.segments[2] == 0
            && self.segments[3] == 0 && self.segments[4] == 0 && self.segments[5] == 0xffff;
        if mapped {
            let ip = Ipv4Addr {
                a: (self.segments[6] / 256) as u8,
                b: (self.segments[6] % 256) as u8,
                c: (self.segments[7] / 256) as u8,
                d: (self.segments[7] % 256) as u8,
            };
            let mut out = String::new();
            out.push_str("::ffff:");
            out.push_str(ip.to_text().as_str());
            proof {
                reveal_strlit("::ffff:");
                assert("::ffff:"@ =~= seq![':', ':', 'f', 'f', 'f', 'f', ':']);
                assert(out@ =~= v6_text(x));
            }
            return out;
        }
        let mut best: usize = 0;
        let mut best_len: usize = zero_run_from(&self.segments, 0);
        let mut k: usize = 1;
        while k < 8
            invariant
                1 <= k <= 8,
                best == best_run(self.segments@, (k - 1) as nat),
                best < 8,
                best_len == zero_run(self.segments@, best as int),
            decreases 8 - k,
        {
            let n: usize = zero_run_from(&self.segments, k);
            if n > best_len {
                best = k;
                best_len = n;
            }
            k = k + 1;
        }
        proof {
            lemma_zero_run(x, best as int);
        }
        if best_len > 1 {
            let head: Vec<String> = hex_texts(&self.segments, 0, best);
            let tail: Vec<String> = hex_texts(&self.segments, best + best_len, 8);
            let mut out = join_texts(&head, ":");
            out.push_str("::");
            out.push_str(join_texts(&tail, ":").as_str());
            proof {
                reveal_strlit(":");
                reveal_strlit("::");
                assert(":"@ =~= seq![':']);
                assert("::"@ =~= seq![':', ':']);
                assert(x.subrange(0, best as int) =~= x.take(best as int));
                assert(x.subrange(best + best_len, 8) =~= x.skip(best + best_len));
            }
            out
        } else {
            let all: Vec<String> = hex_texts(&self.segments, 0, 8);
            proof {
                reveal_strlit(":");
                assert(":"@ =~= seq![':']);
                assert(x.subrange(0, 8) =~= x);
            }
            join_texts(&all, ":")
        }
    }
}

fn zero_run_from(x: &[u16; 8], i: usize) -> (n: usize)
    requires
        i <= 8,
    ensures
        n == zero_run(x@, i as int),
        i + n <= 8,
    decreases 8 - i,
{
    if i < 8 && x[i] == 0 {
        1 + zero_run_from(x, i + 1)
    } else {
        0
    }
}

fn hex_texts(x: &[u16; 8], lo: usize, hi: usize) -> (r: Vec<String>)
    requires
        lo <= hi <= 8,
    ensures
        texts(r@) == hexes(x@.subrange(lo as int, hi as int)),
{
    let mut out: Vec<String> = Vec::new();
    let mut i: usize = lo;
    while i < hi
        invariant
            lo <= i <= hi <= 8,
            texts(out@) == hexes(x@.subrange(lo as int, i as int)),
        decreases hi - i,
    {
        let ghost before = out@;
        out.push(hex_text(x[i]));
        proof {
            assert(texts(out@) =~= texts(before).push(hex(x@[i as int] as nat)));
            assert(hexes(x@.subrange(lo as int, i + 1)) =~= hexes(
                x@.subrange(lo as int, i as int),
            ).push(hex(x@[i as int] as nat)));
        }
        i = i + 1;
    }
    out
}

/// A run of zero segments is within the address, and every segment in it is zero.
pub proof fn lemma_zero_run(x: Seq<u16>, i: int)
    requires
        0 <= i <= x.len(),
    ensures
        i + zero_run(x, i) <= x.len(),
        forall|j: int| i <= j < i + zero_run(x, i) ==> #[trigger] x[j] == 0,
    decreases x.len() - i,
{
    if i < x.len() && x[i] == 0 {
        lemma_zero_run(x, i + 1);
    }
}

/// A text without the separator is one piece.
pub proof fn lemma_split_whole(w: Seq<char>, c: char)
    requires
        !w.contains(c),
    ensures
        split(w, c) == seq![w],
{
    assert forall|i: int| 0 <= i < w.len() implies #[trigger] w[i] != c by {
        if w[i] == c {
            assert(w.contains(c));
        }
    }
    lemma_until_is(w, c, w.len() as int);
}

/// A segment's text is a group that names the segment, and holds neither dot nor colon.
proof fn lemma_hex_is_group(n: u16)
    ensures
        hex_group(hex(n as nat)) == Some(n),
        !hex(n as nat).contains('.'),
        !hex(n as nat).contains(':'),
        read_v4(hex(n as nat)) is None,
{
    let w = hex(n as nat);
    lemma_hex(n as nat);
    assert forall|i: int| 0 <= i < w.len() implies w[i] != '.' && w[i] != ':' by {
        assert(is_hex_digit(w[i]));
    }
    lemma_split_whole(w, '.');
}

/// The texts of segments read back as the segments.
proof fn lemma_read_hexes(x: Seq<u16>, tail: bool)
    ensures
        read_groups(hexes(x), tail) == Some(x),
    decreases x.len(),
{
    if x.len() == 0 {
        assert(hexes(x).len() == 0);
        assert(x =~= seq![]);
    } else {
        lemma_hex_is_group(x[0]);
        assert(hexes(x).drop_first() =~= hexes(x.drop_first()));
        lemma_read_hexes(x.drop_first(), tail);
        assert(seq![x[0]] + x.drop_first() =~= x);
    }
}

/// Segments between single colons: no colon at either end and no two together.
proof fn lemma_join_hexes(x: Seq<u16>)
    requires
        x.len() > 0,
    ensures
        ({
            let t = join(hexes(x), seq![':']);
            &&& t.len() > 0
            &&& t[0] != ':'
            &&& t.last() != ':'
            &&& forall|i: int| 0 <= i && i + 1 < t.len() ==> !(#[trigger] t[i] == ':' && t[i + 1] == ':')
            &&& pieces(t) == hexes(x)
        }),
    decreases x.len(),
{
    let sep = seq![':'];
    let t = join(hexes(x), sep);
    assert forall|i: int| 0 <= i < hexes(x).len() implies !(#[trigger] hexes(x)[i]).contains(':') by {
        lemma_hex_is_group(x[i]);
    }
    lemma_split_join(hexes(x), ':');
    let w = hex(x.last() as nat);
    lemma_hex(x.last() as nat);
    lemma_hex_is_group(x.last());
    assert forall|i: int| 0 <= i < w.len() implies #[trigger] w[i] != ':' by {
        if w[i] == ':' {
            assert(w.contains(':'));
        }
    }
    if x.len() == 1 {
        assert(t == w);
    } else {
        let init = x.drop_last();
        lemma_join_hexes(init);
        assert(hexes(x).drop_last() =~= hexes(init));
        let h = join(hexes(init), sep);
        assert(t =~= h + sep + w);
        assert forall|i: int| 0 <= i && i + 1 < t.len() implies !(#[trigger] t[i] == ':' && t[i + 1]
            == ':') by {
            if i + 1 < h.len() {
                assert(t[i] == h[i] && t[i + 1] == h[i + 1]);
            } else if i + 1 == h.len() {
                assert(t[i] == h.last());
            } else {
                assert(t[i + 1] == w[i - h.len()]);
            }
        }
    }
}

/// A mapped IPv4 address reads back from its text.
proof fn lemma_read_mapped(x: Seq<u16>)
    requires
        x.len() == 8,
        is_mapped(x),
    ensures
        read_v6(v6_text(x)) == Some(x),
{
    let s = v6_text(x);
    let sep = seq![':'];
    let ip = v4_of_segments(x[6], x[7]);
    let v4 = v4_text(ip);
    let f = seq!['f', 'f', 'f', 'f'];
    let parts = seq![f, v4];
    v4_text_names_exactly_its_address(v4, ip);
    lemma_v4_no_colon(ip);
    assert(s[0] == ':' && s[1] == ':');
    assert(gap(s) == 0);
    assert(s.take(0).len() == 0);
    assert(join(parts, sep) == f + sep + v4) by {
        assert(parts.drop_last() =~= seq![f]);
        assert(join(seq![f], sep) == f);
    }
    assert(s.skip(2) =~= join(parts, sep));
    assert(pieces(s.skip(2)) == parts) by {
        lemma_split_join(parts, ':');
    }
    assert(hex_group(f) == Some(0xffffu16)) by {
        assert(f.drop_last() =~= seq!['f', 'f', 'f']);
        assert(f.drop_last().drop_last() =~= seq!['f', 'f']);
        assert(f.drop_last().drop_last().drop_last() =~= seq!['f']);
        assert(f.drop_last().drop_last().drop_last().drop_last() =~= seq![]);
        reveal_with_fuel(hex_value, 5);
    }
    let read = seq![0xffffu16] + v4_segments(ip);
    assert(read_groups(parts, true) == Some(read)) by {
        assert(parts.drop_first() =~= seq![v4]);
        assert(read_groups(seq![v4], true) == Some(v4_segments(ip)));
    }
    assert(read_groups(pieces(s.take(0)), false) == Some(Seq::<u16>::empty()));
    assert(v4_segments(ip) =~= seq![x[6], x[7]]);
    assert(Seq::<u16>::empty() + zeros(5) + read =~= x);
}

/// The first double colon after joined segment texts stands right behind them.
proof fn lemma_gap_after_hexes(x: Seq<u16>, t: Seq<char>)
    ensures
        ({
            let h = join(hexes(x), seq![':']);
            gap(h + seq![':', ':'] + t) == h.len()
        }),
{
    let h = join(hexes(x), seq![':']);
    let s = h + seq![':', ':'] + t;
    if x.len() > 0 {
        lemma_join_hexes(x);
    } else {
        lemma_pieces_of_hexes(x);
    }
    assert forall|i: int| 0 <= i < h.len() && i + 1 < s.len() implies !(#[trigger] s[i] == ':'
        && s[i + 1] == ':') by {
        assert(s[i] == h[i]);
        if i + 1 < h.len() {
            assert(s[i + 1] == h[i + 1]);
        }
    }
    lemma_gap_skip(s, h.len() as int);
    let r = s.skip(h.len() as int);
    assert(r[0] == ':' && r[1] == ':');
}

/// An address with a double colon in its text reads back from it.
proof fn lemma_read_compressed(x: Seq<u16>, b: int, n: int)
    requires
        x.len() == 8,
        0 <= b,
        1 < n,
        b + n <= 8,
        forall|j: int| b <= j < b + n ==> #[trigger] x[j] == 0,
    ensures
        read_v6(
            join(hexes(x.take(b)), seq![':']) + seq![':', ':'] + join(
                hexes(x.skip(b + n)),
                seq![':'],
            ),
        ) == Some(x),
{
    let sep = seq![':'];
    let hx = x.take(b);
    let tx = x.skip(b + n);
    let h = join(hexes(hx), sep);
    let t = join(hexes(tx), sep);
    let s = h + seq![':', ':'] + t;
    lemma_read_hexes(hx, false);
    lemma_read_hexes(tx, true);
    lemma_pieces_of_hexes(hx);
    lemma_pieces_of_hexes(tx);
    lemma_gap_after_hexes(hx, t);
    assert(s.take(h.len() as int) =~= h);
    assert(s.skip(h.len() as int + 2) =~= t);
    assert(hx + zeros(n as nat) + tx =~= x);
}

/// The pieces of joined segment texts are the segment texts.
proof fn lemma_pieces_of_hexes(x: Seq<u16>)
    ensures
        pieces(join(hexes(x), seq![':'])) == hexes(x),
        x.len() == 0 ==> join(hexes(x), seq![':']).len() == 0,
{
    if x.len() > 0 {
        lemma_join_hexes(x);
    } else {
        assert(hexes(x) =~= seq![]);
    }
}

/// No text names an address of both families: one that names an IPv4 address names no IPv6 one.
pub proof fn no_text_names_both_families(s: Seq<char>)
    ensures
        !(read_v4(s) is Some && read_v6(s) is Some),
{
    if read_v4(s) is Some {
        let ip = read_v4(s)->0;
        v4_text_names_exactly_its_address(s, ip);
        lemma_v4_no_colon(ip);
        assert forall|i: int| 0 <= i < s.len() implies #[trigger] s[i] != ':' by {
            assert(s.contains(s[i]));
        }
        lemma_gap_skip(s, s.len() as int);
        assert(s.skip(s.len() as int).len() == 0);
        lemma_split_whole(s, ':');
        if s.len() > 0 {
            assert(pieces(s) =~= seq![s]);
        }
    }
}

/// Every IPv6 address reads back from its text, which names no IPv4 address.
pub proof fn v6_text_names_its_address(x: Seq<u16>)
    requires
        x.len() == 8,
    ensures
        read_v6(v6_text(x)) == Some(x),
        read_v4(v6_text(x)) is None,
{
    let s = v6_text(x);
    let b = best_run(x, 7) as int;
    let n = zero_run(x, b) as int;
    lemma_best_run(x, 7);
    lemma_zero_run(x, b);
    if is_mapped(x) {
        lemma_read_mapped(x);
    } else if n > 1 {
        lemma_read_compressed(x, b, n);
    } else {
        lemma_join_hexes(x);
        lemma_read_hexes(x, true);
        lemma_gap_skip(s, s.len() as int);
        assert(s.skip(s.len() as int).len() == 0);
    }
    if read_v4(s) is Some {
        v4_text_names_exactly_its_address(s, read_v4(s)->0);
        lemma_v4_no_colon(read_v4(s)->0);
        lemma_v6_has_colon(x);
    }
}

proof fn lemma_best_run(x: Seq<u16>, k: nat)
    ensures
        best_run(x, k) <= k,
    decreases k,
{
    if k > 0 {
        lemma_best_run(x, (k - 1) as nat);
    }
}

proof fn lemma_v4_no_colon(ip: Ipv4Addr)
    ensures
        !v4_text(ip).contains(':'),
{
    lemma_octet_of_decimal(ip.a);
    lemma_octet_of_decimal(ip.b);
    lemma_octet_of_decimal(ip.c);
    lemma_octet_of_decimal(ip.d);
    let p = seq![
        decimal(ip.a as nat),
        decimal(ip.b as nat),
        decimal(ip.c as nat),
        decimal(ip.d as nat),
    ];
    assert forall|i: int| 0 <= i < p.len() implies !(#[trigger] p[i]).contains(':') by {}
    lemma_join_without(p, seq!['.'], ':');
}

/// Joining texts that lack `c` with a separator that lacks `c` gives a text that lacks it.
proof fn lemma_join_without(p: Seq<Seq<char>>, sep: Seq<char>, c: char)
    requires
        !sep.contains(c),
        forall|i: int| 0 <= i < p.len() ==> !(#[trigger] p[i]).contains(c),
    ensures
        !join(p, sep).contains(c),
    decreases p.len(),
{
    if p.len() > 1 {
        let init = p.drop_last();
        assert forall|i: int| 0 <= i < init.len() implies !(#[trigger] init[i]).contains(c) by {
            assert(init[i] == p[i]);
        }
        lemma_join_without(init, sep, c);
        let h = join(init, sep);
        let t = h + sep + p.last();
        assert forall|i: int| 0 <= i < t.len() implies t[i] != c by {
            if i < h.len() {
                assert(t[i] == h[i]);
            } else if i < h.len() + sep.len() {
                assert(t[i] == sep[i - h.len()]);
            } else {
                assert(t[i] == p.last()[i - h.len() - sep.len()]);
            }
        }
    }
}

proof fn lemma_v6_has_colon(x: Seq<u16>)
    requires
        x.len() == 8,
    ensures
        v6_text(x).contains(':'),
{
    let s = v6_text(x);
    let b = best_run(x, 7) as int;
    let n = zero_run(x, b) as int;
    lemma_best_run(x, 7);
    if is_mapped(x) {
        assert(s[0] == ':');
    } else if n > 1 {
        let h = join(hexes(x.take(b)), seq![':']);
        assert(s[h.len() as int] == ':');
    } else {
        let h = join(hexes(x).drop_last(), seq![':']);
        assert(s[h.len() as int] == ':');
    }
}

/// An IP address of either family.
#[derive(Clone, Copy, Debug, PartialEq, Eq)]
pub enum IpAddr {
    V4(Ipv4Addr),
    V6(Ipv6Addr),
}

/// Text of an IP address.
pub open spec fn ip_text(ip: IpAddr) -> Seq<char> {
    match ip {
        IpAddr::V4(v4) => v4_text(v4),
        IpAddr::V6(v6) => v6_text(v6.segments@),
    }
}

/// Whether the text `s` names the address `ip`.
pub open spec fn names_ip(s: Seq<char>, ip: IpAddr) -> bool {
    match ip {
        IpAddr::V4(v4) => read_v4(s) == Some(v4),
        IpAddr::V6(v6) => read_v4(s) is None && read_v6(s) == Some(v6.segments@),
    }
}

/// Whether the text `s` names an address of either family.
pub open spec fn is_ip(s: Seq<char>) -> bool {
    read_v4(s) is Some || read_v6(s) is Some
}

/// Every IP address reads back from its text.
pub proof fn ip_text_names_its_address(ip: IpAddr)
    ensures
        names_ip(ip_text(ip), ip),
{
    match ip {
        IpAddr::V4(v4) => {
            v4_text_names_exactly_its_address(v4_text(v4), v4);
        },
        IpAddr::V6(v6) => {
            v6_text_names_its_address(v6.segments@);
        },
    }
}

/// Whether every character can stand in an address: a hexadecimal digit, a dot or a colon.
spec fn address_chars(s: Seq<char>) -> bool {
    forall|i: int|
        0 <= i < s.len() ==> is_hex_digit(#[trigger] s[i]) || s[i] == '.' || s[i] == ':'
}

proof fn lemma_join_address_chars(p: Seq<Seq<char>>, sep: Seq<char>)
    requires
        address_chars(sep),
        forall|i: int| 0 <= i < p.len() ==> address_chars(#[trigger] p[i]),
    ensures
        address_chars(join(p, sep)),
    decreases p.len(),
{
    if p.len() > 1 {
        let init = p.drop_last();
        assert forall|i: int| 0 <= i < init.len() implies address_chars(#[trigger] init[i]) by {
            assert(init[i] == p[i]);
        }
        lemma_join_address_chars(init, sep);
        let h = join(init, sep);
        let t = join(p, sep);
        assert(address_chars(p[p.len() - 1]));
        assert forall|i: int| 0 <= i < t.len() implies is_hex_digit(#[trigger] t[i]) || t[i] == '.'
            || t[i] == ':' by {
            if i < h.len() {
                assert(t[i] == h[i]);
            } else if i < h.len() + sep.len() {
                assert(t[i] == sep[i - h.len()]);
            } else {
                assert(t[i] == p.last()[i - h.len() - sep.len()]);
            }
        }
    } else if p.len() == 1 {
        assert(address_chars(p[0]));
    }
}

proof fn lemma_v4_address_chars(ip: Ipv4Addr)
    ensures
        address_chars(v4_text(ip)),
{
    let p = seq![
        decimal(ip.a as nat),
        decimal(ip.b as nat),
        decimal(ip.c as nat),
        decimal(ip.d as nat),
    ];
    lemma_decimal(ip.a as nat);
    lemma_decimal(ip.b as nat);
    lemma_decimal(ip.c as nat);
    lemma_decimal(ip.d as nat);
    assert forall|i: int| 0 <= i < p.len() implies address_chars(#[trigger] p[i]) by {
        assert forall|j: int| 0 <= j < p[i].len() implies is_hex_digit(#[trigger] p[i][j]) by {
            assert(is_digit(p[i][j]));
        }
    }
    lemma_join_address_chars(p, seq!['.']);
}

proof fn lemma_hexes_address_chars(x: Seq<u16>)
    ensures
        address_chars(join(hexes(x), seq![':'])),
{
    let p = hexes(x);
    assert forall|i: int| 0 <= i < p.len() implies address_chars(#[trigger] p[i]) by {
        lemma_hex(x[i] as nat);
    }
    lemma_join_address_chars(p, seq![':']);
}

/// Text that can stand in an address holds no white space.
proof fn lemma_address_is_a_word(s: Seq<char>)
    requires
        s.len() > 0,
        address_chars(s),
    ensures
        is_word(s),
{
    assert forall|i: int| 0 <= i < s.len() implies !is_space(#[trigger] s[i]) by {
        assert(is_hex_digit(s[i]) || s[i] == '.' || s[i] == ':');
    }
}

/// The text of an IPv6 address is one word.
pub proof fn v6_text_is_a_word(x: Seq<u16>)
    requires
        x.len() == 8,
    ensures
        is_word(v6_text(x)),
{
    let s = v6_text(x);
    let b = best_run(x, 7) as int;
    let n = zero_run(x, b) as int;
    lemma_v6_has_colon(x);
    lemma_best_run(x, 7);
    lemma_zero_run(x, b);
    if is_mapped(x) {
        let v4 = v4_text(v4_of_segments(x[6], x[7]));
        lemma_v4_address_chars(v4_of_segments(x[6], x[7]));
        assert forall|i: int| 0 <= i < s.len() implies is_hex_digit(#[trigger] s[i]) || s[i] == '.'
            || s[i] == ':' by {
            if i >= 7 {
                assert(s[i] == v4[i - 7]);
            }
        }
    } else if n > 1 {
        let h = join(hexes(x.take(b)), seq![':']);
        let t = join(hexes(x.skip(b + n)), seq![':']);
        lemma_hexes_address_chars(x.take(b));
        lemma_hexes_address_chars(x.skip(b + n));
        assert forall|i: int| 0 <= i < s.len() implies is_hex_digit(#[trigger] s[i]) || s[i] == '.'
            || s[i] == ':' by {
            if i < h.len() {
                assert(s[i] == h[i]);
            } else if i >= h.len() + 2 {
                assert(s[i] == t[i - h.len() - 2]);
            }
        }
    } else {
        lemma_hexes_address_chars(x);
    }
    lemma_address_is_a_word(s);
}

/// The text of an address is one word.
pub proof fn ip_text_is_a_word(ip: IpAddr)
    ensures
        is_word(ip_text(ip)),
{
    let s = ip_text(ip);
    match ip {
        IpAddr::V4(v4) => {
            lemma_v4_address_chars(v4);
            v4_text_names_exactly_its_address(s, v4);
            if s.len() == 0 {
                assert(!s.contains('.'));
                lemma_split_whole(s, '.');
            }
            lemma_address_is_a_word(s);
        },
        IpAddr::V6(v6) => {
            v6_text_is_a_word(v6.segments@);
        },
    }
}

impl IpAddr {
    /// The address `s` names, if it names one.
    pub fn parse(s: &str) -> (r: Option<IpAddr>)
        ensures
            r is Some <==> is_ip(s@),
            r is Some ==> names_ip(s@, r->0),
    {
        match Ipv4Addr::parse(s) {
            Some(v4) => Some(IpAddr::V4(v4)),
            None => match Ipv6Addr::parse(s) {
                Some(v6) => Some(IpAddr::V6(v6)),
                None => None,
            },
        }
    }

    /// The text of the address.
    pub fn to_text(&self) -> (r: String)
        ensures
            r@ == ip_text(*self),
    {
        match self {
            IpAddr::V4(v4) => v4.to_text(),
            IpAddr::V6(v6) => v6.to_text(),
        }
    }
}

} // verus!
