//! Parsing of the kernel's TCP socket tables (`/proc/net/tcp` and
//! `/proc/net/tcp6`) and the text primitives it rests on.

use vstd::prelude::*;

use crate::network::{state_of_number, tcp_state, ConnectionState};
use crate::error::{error_detail, EngineError, EngineResult};
use crate::text::{char_is_white_space, chars_of, is_white_space, owned, string_from_chars};

verus! {

// ---------------------------------------------------------------------------
// Integer parsing
// ---------------------------------------------------------------------------

/// Why a text is not an integer of the wanted type.
#[derive(Clone, Copy, Debug, PartialEq, Eq, Structural)]
pub enum IntErrorKind {
    Empty,
    InvalidDigit,
    PosOverflow,
}

/// The value of a digit in the radix (letters of either case count from
/// ten), if it is one.
pub open spec fn digit_value(c: char, radix: nat) -> Option<nat> {
    let u = c as u32;
    let v: int = if 48 <= u <= 57 {
        u - 48
    } else if 97 <= u <= 122 {
        u - 97 + 10
    } else if 65 <= u <= 90 {
        u - 65 + 10
    } else {
        radix as int
    };
    if v < radix {
        Some(v as nat)
    } else {
        None
    }
}

/// Reads digits left to right; the first bad digit, or the first digit
/// that takes the value past `max`, decides the error.
pub open spec fn parse_digits(ds: Seq<char>, radix: nat, max: nat) -> Result<nat, IntErrorKind>
    decreases ds.len(),
{
    if ds.len() == 0 {
        Ok(0)
    } else {
        match parse_digits(ds.drop_last(), radix, max) {
            Err(e) => Err(e),
            Ok(v) => match digit_value(ds.last(), radix) {
                None => Err(IntErrorKind::InvalidDigit),
                Some(d) => if v * radix + d > max {
                    Err(IntErrorKind::PosOverflow)
                } else {
                    Ok(v * radix + d)
                },
            },
        }
    }
}

/// What `from_str_radix` of an unsigned type with largest value `max`
/// gives: empty text is an error, a lone sign is a bad digit, one leading
/// `+` is skipped.
pub open spec fn from_str_radix_spec(s: Seq<char>, radix: nat, max: nat) -> Result<nat, IntErrorKind> {
    if s.len() == 0 {
        Err(IntErrorKind::Empty)
    } else if (s[0] == '+' || s[0] == '-') && s.len() == 1 {
        Err(IntErrorKind::InvalidDigit)
    } else if s[0] == '+' {
        parse_digits(s.drop_first(), radix, max)
    } else {
        parse_digits(s, radix, max)
    }
}

fn digit_of(c: char, radix: u32) -> (r: Option<u32>)
    requires
        2 <= radix <= 36,
    ensures
        match r {
            Some(d) => digit_value(c, radix as nat) == Some(d as nat),
            None => digit_value(c, radix as nat) is None,
        },
{
    let u = c as u32;
    let v: u32 = if 48 <= u && u <= 57 {
        u - 48
    } else if 97 <= u && u <= 122 {
        u - 97 + 10
    } else if 65 <= u && u <= 90 {
        u - 65 + 10
    } else {
        radix
    };
    if v < radix {
        Some(v)
    } else {
        None
    }
}

/// Parses an unsigned integer as `u64::from_str_radix` does, with `max`
/// as the largest value of the target type.
pub fn parse_unsigned(s: &Vec<char>, radix: u32, max: u64) -> (r: Result<u64, IntErrorKind>)
    requires
        2 <= radix <= 36,
    ensures
        match r {
            Ok(v) => from_str_radix_spec(s@, radix as nat, max as nat) == Ok::<nat, IntErrorKind>(v as nat),
            Err(e) => from_str_radix_spec(s@, radix as nat, max as nat) == Err::<nat, IntErrorKind>(e),
        },
{
    let n = s.len();
    if n == 0 {
        return Err(IntErrorKind::Empty);
    }
    if (s[0] == '+' || s[0] == '-') && n == 1 {
        return Err(IntErrorKind::InvalidDigit);
    }
    let start: usize = if s[0] == '+' {
        1
    } else {
        0
    };
    let ghost ds = s@.subrange(start as int, n as int);
    assert(s[0] == '+' ==> ds =~= s@.drop_first());
    assert(s[0] != '+' ==> ds =~= s@);
    let mut acc: u64 = 0;
    let mut i: usize = start;
    while i < n
        invariant
            start <= i <= n,
            n == s@.len(),
            ds == s@.subrange(start as int, n as int),
            from_str_radix_spec(s@, radix as nat, max as nat) == parse_digits(ds, radix as nat, max as nat),
            parse_digits(ds.subrange(0, i - start), radix as nat, max as nat) == Ok::<nat, IntErrorKind>(acc as nat),
            acc <= max,
            2 <= radix <= 36,
        decreases n - i,
    {
        let ghost pre = ds.subrange(0, i + 1 - start);
        assert(pre.drop_last() =~= ds.subrange(0, i - start));
        assert(pre.last() == s@[i as int]);
        assert(ds.subrange(0, i + 1 - start) == pre);
        match digit_of(s[i], radix) {
            None => {
                assert(parse_digits(pre, radix as nat, max as nat) == Err::<nat, IntErrorKind>(IntErrorKind::InvalidDigit));
                proof {
                    lemma_error_sticks(ds, (i + 1 - start) as int, radix as nat, max as nat);
                }
                return Err(IntErrorKind::InvalidDigit);
            },
            Some(d) => {
                let a: u128 = acc as u128;
                let rd: u128 = radix as u128;
                assert(a * rd <= 0xFFFF_FFFF_FFFF_FFFFu128 * 36) by (nonlinear_arith)
                    requires a <= 0xFFFF_FFFF_FFFF_FFFFu128, rd <= 36;
                let big: u128 = a * rd + (d as u128);
                if big > max as u128 {
                    assert(parse_digits(pre, radix as nat, max as nat) == Err::<nat, IntErrorKind>(IntErrorKind::PosOverflow));
                    proof {
                        lemma_error_sticks(ds, (i + 1 - start) as int, radix as nat, max as nat);
                    }
                    return Err(IntErrorKind::PosOverflow);
                }
                acc = big as u64;
            },
        }
        i = i + 1;
    }
    assert(ds.subrange(0, n - start) =~= ds);
    Ok(acc)
}

proof fn lemma_error_sticks(ds: Seq<char>, k: int, radix: nat, max: nat)
    requires
        0 <= k <= ds.len(),
        parse_digits(ds.subrange(0, k), radix, max) is Err,
    ensures
        parse_digits(ds, radix, max) == parse_digits(ds.subrange(0, k), radix, max),
    decreases ds.len() - k,
{
    if k < ds.len() {
        let next = ds.subrange(0, k + 1);
        assert(next.drop_last() =~= ds.subrange(0, k));
        lemma_error_sticks(ds, k + 1, radix, max);
    } else {
        assert(ds.subrange(0, k) =~= ds);
    }
}

/// The message std gives for each parse error.
pub open spec fn int_error_message(e: IntErrorKind) -> Seq<char> {
    match e {
        IntErrorKind::Empty => "cannot parse integer from empty string"@,
        IntErrorKind::InvalidDigit => "invalid digit found in string"@,
        IntErrorKind::PosOverflow => "number too large to fit in target type"@,
    }
}

fn int_error_text(e: IntErrorKind) -> (r: String)
    ensures
        r@ == int_error_message(e),
{
    owned(
        match e {
            IntErrorKind::Empty => "cannot parse integer from empty string",
            IntErrorKind::InvalidDigit => "invalid digit found in string",
            IntErrorKind::PosOverflow => "number too large to fit in target type",
        },
    )
}

/// A hexadecimal number, or zero when the text is not one that fits in 32 bits.
pub open spec fn hex_or_zero(s: Seq<char>) -> nat {
    match from_str_radix_spec(s, 16, u32::MAX as nat) {
        Ok(v) => v,
        Err(_) => 0,
    }
}

/// Parses hexadecimal text, giving zero when it is not a 32-bit number.
pub fn hex_to_u32(hex: &str) -> (r: u32)
    ensures
        r as nat == hex_or_zero(hex@),
{
    let v = chars_of(hex);
    match parse_unsigned(&v, 16, 0xFFFF_FFFF) {
        Ok(x) => x as u32,
        Err(_) => 0,
    }
}


// ---------------------------------------------------------------------------
// Addresses
// ---------------------------------------------------------------------------

/// An IP address as the socket tables carry it.
#[derive(Clone, Copy, Debug, PartialEq, Eq, Structural)]
pub enum IpAddress {
    V4(u8, u8, u8, u8),
    V6(u16, u16, u16, u16, u16, u16, u16, u16),
}

/// The unspecified address of either family (`0.0.0.0` or `::`).
pub open spec fn is_unspecified(a: IpAddress) -> bool {
    match a {
        IpAddress::V4(a, b, c, d) => a == 0 && b == 0 && c == 0 && d == 0,
        IpAddress::V6(a, b, c, d, e, f, g, h) => a == 0 && b == 0 && c == 0 && d == 0 && e == 0
            && f == 0 && g == 0 && h == 0,
    }
}

/// Tells whether an address is the unspecified one of its family.
pub fn address_is_unspecified(a: &IpAddress) -> (r: bool)
    ensures
        r == is_unspecified(*a),
{
    match a {
        IpAddress::V4(a, b, c, d) => *a == 0 && *b == 0 && *c == 0 && *d == 0,
        IpAddress::V6(a, b, c, d, e, f, g, h) => *a == 0 && *b == 0 && *c == 0 && *d == 0 && *e
            == 0 && *f == 0 && *g == 0 && *h == 0,
    }
}

/// The two halves of `addr:port` text, when it holds exactly one colon.
pub open spec fn colon_halves(s: Seq<char>) -> Option<(Seq<char>, Seq<char>)> {
    let k = find_char(s, ':');
    if k < s.len() && find_char(s.subrange((k + 1) as int, s.len() as int), ':') == s.len() - k - 1 {
        Some((s.subrange(0, k as int), s.subrange((k + 1) as int, s.len() as int)))
    } else {
        None
    }
}

/// The IPv4 address of the little-endian hexadecimal form in `/proc/net/tcp`.
pub open spec fn v4_address(h: Seq<char>) -> IpAddress {
    let v = hex_or_zero(h);
    IpAddress::V4(
        (v % 256) as u8,
        ((v / 256) % 256) as u8,
        ((v / 65536) % 256) as u8,
        ((v / 16777216) % 256) as u8,
    )
}

/// The number of bytes a character takes in UTF-8.
pub open spec fn utf8_len(c: char) -> nat {
    let u = c as u32;
    if u < 0x80 {
        1
    } else if u < 0x800 {
        2
    } else if u < 0x10000 {
        3
    } else {
        4
    }
}

fn char_utf8_len(c: char) -> (r: usize)
    ensures
        r as nat == utf8_len(c),
{
    let u = c as u32;
    if u < 0x80 {
        1
    } else if u < 0x800 {
        2
    } else if u < 0x10000 {
        3
    } else {
        4
    }
}

/// Cuts the first 32 bytes of `h`, from character `i` on, into 4-byte
/// groups. `bytes` bytes are already cut, the characters of the group in
/// progress are `cur`, the finished groups `done`. `None` when a group
/// border falls inside a character or the text ends first: slicing the
/// text there fails.
pub open spec fn cut_groups(
    h: Seq<char>,
    i: nat,
    bytes: nat,
    cur: Seq<char>,
    done: Seq<Seq<char>>,
) -> Option<Seq<Seq<char>>>
    decreases h.len() - i,
{
    if bytes >= 32 {
        Some(done)
    } else if i >= h.len() {
        None
    } else {
        let nb = bytes + utf8_len(h[i as int]);
        if (nb - 1) / 4 != bytes / 4 {
            None
        } else if nb % 4 == 0 {
            cut_groups(h, i + 1, nb, Seq::empty(), done.push(cur.push(h[i as int])))
        } else {
            cut_groups(h, i + 1, nb, cur.push(h[i as int]), done)
        }
    }
}

/// The eight 4-byte groups of the hexadecimal form in `/proc/net/tcp6`.
pub open spec fn v6_groups(h: Seq<char>) -> Option<Seq<Seq<char>>> {
    cut_groups(h, 0, 0, Seq::empty(), Seq::empty())
}

proof fn lemma_cut_groups_len(
    h: Seq<char>,
    i: nat,
    bytes: nat,
    cur: Seq<char>,
    done: Seq<Seq<char>>,
)
    requires
        bytes <= 32,
        done.len() == bytes / 4,
        cur.len() <= bytes % 4,
        forall|k: int| 0 <= k < done.len() ==> #[trigger] done[k].len() <= 4,
        cut_groups(h, i, bytes, cur, done) is Some,
    ensures
        cut_groups(h, i, bytes, cur, done).unwrap().len() == 8,
        forall|k: int|
            0 <= k < 8 ==> #[trigger] cut_groups(h, i, bytes, cur, done).unwrap()[k].len() <= 4,
    decreases h.len() - i,
{
    if bytes < 32 && i < h.len() {
        let nb = bytes + utf8_len(h[i as int]);
        if nb % 4 == 0 {
            let d2 = done.push(cur.push(h[i as int]));
            assert forall|k: int| 0 <= k < d2.len() implies #[trigger] d2[k].len() <= 4 by {
                if k < done.len() {
                    assert(d2[k] == done[k]);
                }
            }
            lemma_cut_groups_len(h, i + 1, nb, Seq::empty(), d2);
        } else {
            lemma_cut_groups_len(h, i + 1, nb, cur.push(h[i as int]), done);
        }
    }
}

/// Cuts the hexadecimal form of an IPv6 address into its eight 4-byte groups.
fn cut_v6_groups(h: &Vec<char>) -> (r: Option<Vec<Vec<char>>>)
    ensures
        match r {
            Some(gs) => v6_groups(h@) == Some(gs@.map_values(|g: Vec<char>| g@)) && gs.len() == 8
                && forall|k: int| 0 <= k < 8 ==> #[trigger] gs@[k]@.len() <= 4,
            None => v6_groups(h@) is None,
        },
{
    let n = h.len();
    let mut i: usize = 0;
    let mut bytes: usize = 0;
    let mut cur: Vec<char> = Vec::new();
    let mut done: Vec<Vec<char>> = Vec::new();
    proof {
        assert(done@.map_values(|g: Vec<char>| g@) =~= Seq::<Seq<char>>::empty());
        assert(cur@ =~= Seq::<char>::empty());
    }
    loop
        invariant
            i <= n == h@.len(),
            bytes <= 32,
            done@.len() == bytes / 4,
            cur@.len() <= bytes % 4,
            forall|k: int| 0 <= k < done@.len() ==> #[trigger] done@[k]@.len() <= 4,
            v6_groups(h@) == cut_groups(h@, i as nat, bytes as nat, cur@, done@.map_values(|g: Vec<char>| g@)),
        decreases n - i,
    {
        if bytes >= 32 {
            proof {
                lemma_cut_groups_len(h@, i as nat, bytes as nat, cur@, done@.map_values(|g: Vec<char>| g@));
            }
            proof {
                let m = done@.map_values(|g: Vec<char>| g@);
                assert forall|k: int| 0 <= k < 8 implies #[trigger] done@[k]@.len() <= 4 by {
                    assert(m[k] == done@[k]@);
                }
            }
            return Some(done);
        }
        if i >= n {
            return None;
        }
        let c = h[i];
        let nb = bytes + char_utf8_len(c);
        if (nb - 1) / 4 != bytes / 4 {
            return None;
        }
        let ghost old_done = done@.map_values(|g: Vec<char>| g@);
        proof {
            let m = done@.map_values(|g: Vec<char>| g@);
            assert forall|k: int| 0 <= k < m.len() implies #[trigger] m[k].len() <= 4 by {
                assert(m[k] == done@[k]@);
            }
        }
        cur.push(c);
        if nb % 4 == 0 {
            let g = cur;
            cur = Vec::new();
            done.push(g);
            assert(done@.map_values(|g: Vec<char>| g@) =~= old_done.push(g@));
            assert(cur@ =~= Seq::<char>::empty());
        }
        bytes = nb;
        i = i + 1;
    }
}


/// Every character is a hexadecimal digit.
pub open spec fn all_hex(g: Seq<char>) -> bool {
    forall|k: int| 0 <= k < g.len() ==> (#[trigger] digit_value(g[k], 16)) is Some
}

/// The value of a text of hexadecimal digits.
pub open spec fn hex_value(g: Seq<char>) -> nat
    decreases g.len(),
{
    if g.len() == 0 {
        0
    } else {
        hex_value(g.drop_last()) * 16 + match digit_value(g.last(), 16) {
            Some(d) => d,
            None => 0,
        }
    }
}

/// Position, in the kernel's order, of the `k`-th group in network order:
/// the two 16-bit halves of each 32-bit word are swapped.
pub open spec fn swapped_index(k: int) -> int {
    if k % 2 == 0 {
        k + 1
    } else {
        k - 1
    }
}

/// The groups in network order.
pub open spec fn network_order(gs: Seq<Seq<char>>) -> Seq<Seq<char>> {
    Seq::new(8, |k: int| gs[swapped_index(k)])
}

/// A group left-padded with zeros to four characters.
pub open spec fn pad4(g: Seq<char>) -> Seq<char> {
    if g.len() >= 4 {
        g
    } else {
        Seq::new((4 - g.len()) as nat, |_k: int| '0') + g
    }
}

/// Groups joined with colons between them.
pub open spec fn join_colon(gs: Seq<Seq<char>>) -> Seq<char>
    decreases gs.len(),
{
    if gs.len() == 0 {
        Seq::empty()
    } else if gs.len() == 1 {
        gs[0]
    } else {
        join_colon(gs.drop_last()) + seq![':'] + gs.last()
    }
}

/// The IPv6 address of the hexadecimal form in `/proc/net/tcp6`, or the
/// message naming the text that is not one; `None` when the text cannot be
/// cut into eight 4-byte groups.
pub open spec fn v6_address(h: Seq<char>) -> Option<Result<IpAddress, Seq<char>>> {
    match v6_groups(h) {
        None => None,
        Some(gs) => {
            let be = network_order(gs);
            if forall|k: int| 0 <= k < 8 ==> #[trigger] all_hex(be[k]) {
                Some(
                    Ok(
                        IpAddress::V6(
                            hex_value(be[0]) as u16,
                            hex_value(be[1]) as u16,
                            hex_value(be[2]) as u16,
                            hex_value(be[3]) as u16,
                            hex_value(be[4]) as u16,
                            hex_value(be[5]) as u16,
                            hex_value(be[6]) as u16,
                            hex_value(be[7]) as u16,
                        ),
                    ),
                )
            } else {
                Some(
                    Err(
                        "Invalid IPv6: "@ + join_colon(be.map_values(|g: Seq<char>| pad4(g)))
                            + ": invalid IPv6 address syntax"@,
                    ),
                )
            }
        },
    }
}

/// The value of a group of at most four hexadecimal digits.
fn hex_group(g: &Vec<char>) -> (r: Option<u16>)
    requires
        g@.len() <= 4,
    ensures
        match r {
            Some(v) => all_hex(g@) && v as nat == hex_value(g@),
            None => !all_hex(g@),
        },
{
    let n = g.len();
    let mut acc: u32 = 0;
    let mut i: usize = 0;
    while i < n
        invariant
            i <= n == g@.len() <= 4,
            all_hex(g@.subrange(0, i as int)),
            acc as nat == hex_value(g@.subrange(0, i as int)),
            i == 0 ==> acc == 0,
            i == 1 ==> acc <= 15,
            i == 2 ==> acc <= 255,
            i == 3 ==> acc <= 4095,
            i == 4 ==> acc <= 65535,
        decreases n - i,
    {
        let ghost pre = g@.subrange(0, i + 1);
        assert(pre.drop_last() =~= g@.subrange(0, i as int));
        match digit_of(g[i], 16) {
            None => {
                assert(!(digit_value(g@[i as int], 16) is Some));
                return None;
            },
            Some(d) => {
                acc = acc * 16 + d;
                assert(all_hex(pre)) by {
                    assert forall|k: int| 0 <= k < pre.len() implies (#[trigger] digit_value(pre[k], 16)) is Some by {
                        if k < i {
                            assert(pre[k] == g@.subrange(0, i as int)[k]);
                        }
                    }
                }
            },
        }
        i = i + 1;
    }
    assert(g@.subrange(0, n as int) =~= g@);
    Some(acc as u16)
}

/// Appends the characters of `src` to `out`.
fn push_all(out: &mut Vec<char>, src: &Vec<char>)
    ensures
        final(out)@ == old(out)@ + src@,
{
    let n = src.len();
    let mut i: usize = 0;
    while i < n
        invariant
            i <= n == src@.len(),
            out@ == old(out)@ + src@.subrange(0, i as int),
        decreases n - i,
    {
        out.push(src[i]);
        assert(out@ =~= old(out)@ + src@.subrange(0, i + 1));
        i = i + 1;
    }
    assert(src@.subrange(0, n as int) =~= src@);
}

/// Reads the IPv6 address of the hexadecimal form in `/proc/net/tcp6`.
fn v6_address_of(h: &Vec<char>) -> (r: Option<Result<IpAddress, Vec<char>>>)
    ensures
        match r {
            None => v6_address(h@) is None,
            Some(Ok(a)) => v6_address(h@) == Some(Ok::<IpAddress, Seq<char>>(a)),
            Some(Err(m)) => v6_address(h@) == Some(Err::<IpAddress, Seq<char>>(m@)),
        },
{
    let gs = match cut_v6_groups(h) {
        Some(gs) => gs,
        None => {
            return None;
        },
    };
    let ghost gv = gs@.map_values(|g: Vec<char>| g@);
    let ghost be = network_order(gv);
    let mut segs: Vec<u16> = Vec::new();
    let mut ok = true;
    let mut k: usize = 0;
    while k < 8
        invariant
            k <= 8,
            gs@.len() == 8,
            gv == gs@.map_values(|g: Vec<char>| g@),
            be == network_order(gv),
            forall|j: int| 0 <= j < 8 ==> #[trigger] gs@[j]@.len() <= 4,
            ok ==> segs@.len() == k,
            ok ==> forall|j: int| 0 <= j < k ==> #[trigger] all_hex(be[j]) && segs@[j] as nat == hex_value(be[j]),
            !ok ==> exists|j: int| 0 <= j < 8 && !#[trigger] all_hex(be[j]),
        decreases 8 - k,
    {
        let idx: usize = if k % 2 == 0 {
            k + 1
        } else {
            k - 1
        };
        assert(be[k as int] == gs@[idx as int]@);
        if ok {
            match hex_group(&gs[idx]) {
                Some(v) => {
                    segs.push(v);
                },
                None => {
                    ok = false;
                },
            }
        }
        k = k + 1;
    }
    if ok {
        proof {
            assert(forall|j: int| 0 <= j < 8 ==> #[trigger] all_hex(be[j]));
            assert(all_hex(be[0]) && segs@[0] as nat == hex_value(be[0]));
            assert(all_hex(be[1]) && segs@[1] as nat == hex_value(be[1]));
            assert(all_hex(be[2]) && segs@[2] as nat == hex_value(be[2]));
            assert(all_hex(be[3]) && segs@[3] as nat == hex_value(be[3]));
            assert(all_hex(be[4]) && segs@[4] as nat == hex_value(be[4]));
            assert(all_hex(be[5]) && segs@[5] as nat == hex_value(be[5]));
            assert(all_hex(be[6]) && segs@[6] as nat == hex_value(be[6]));
            assert(all_hex(be[7]) && segs@[7] as nat == hex_value(be[7]));
        }
        Some(Ok(IpAddress::V6(segs[0], segs[1], segs[2], segs[3], segs[4], segs[5], segs[6], segs[7])))
    } else {
        let ghost padded = be.map_values(|g: Seq<char>| pad4(g));
        let mut text: Vec<char> = Vec::new();
        let mut k: usize = 0;
        while k < 8
            invariant
                k <= 8,
                gs@.len() == 8,
                gv == gs@.map_values(|g: Vec<char>| g@),
                be == network_order(gv),
                padded == be.map_values(|g: Seq<char>| pad4(g)),
                forall|j: int| 0 <= j < 8 ==> #[trigger] gs@[j]@.len() <= 4,
                text@ == join_colon(padded.subrange(0, k as int)),
            decreases 8 - k,
        {
            let idx: usize = if k % 2 == 0 {
                k + 1
            } else {
                k - 1
            };
            assert(be[k as int] == gs@[idx as int]@);
            let ghost before = text@;
            if k > 0 {
                text.push(':');
            }
            let g = &gs[idx];
            let mut z: usize = g.len();
            while z < 4
                invariant
                    g@.len() <= z <= 4,
                    k > 0 ==> text@ == before + seq![':'] + Seq::new((z - g@.len()) as nat, |_j: int| '0'),
                    k == 0 ==> text@ == before + Seq::new((z - g@.len()) as nat, |_j: int| '0'),
                decreases 4 - z,
            {
                text.push('0');
                z = z + 1;
                assert(k > 0 ==> text@ =~= before + seq![':'] + Seq::new((z - g@.len()) as nat, |_j: int| '0'));
                assert(k == 0 ==> text@ =~= before + Seq::new((z - g@.len()) as nat, |_j: int| '0'));
            }
            push_all(&mut text, g);
            proof {
                let sub = padded.subrange(0, k + 1);
                assert(sub.drop_last() =~= padded.subrange(0, k as int));
                assert(padded[k as int] == pad4(g@));
                if g@.len() >= 4 {
                    assert(Seq::new((4 - g@.len()) as nat, |_j: int| '0') =~= Seq::<char>::empty());
                }
                if k > 0 {
                    assert(text@ =~= join_colon(sub));
                } else {
                    assert(text@ =~= join_colon(sub));
                }
            }
            k = k + 1;
        }
        assert(padded.subrange(0, 8) =~= padded);
        let mut msg: Vec<char> = chars_of("Invalid IPv6: ");
        push_all(&mut msg, &text);
        let tail = chars_of(": invalid IPv6 address syntax");
        push_all(&mut msg, &tail);
        Some(Err(msg))
    }
}


/// What `addr:port` text in a socket table reads as: the address and the
/// port, or the message of the error; `None` where the IPv6 address text
/// cannot be cut into its groups.
pub open spec fn addr_port_spec(s: Seq<char>, is_v6: bool) -> Option<Result<(IpAddress, u16), Seq<char>>> {
    match colon_halves(s) {
        None => Some(Err("Invalid addr:port format: "@ + s)),
        Some((ip, port)) => match from_str_radix_spec(port, 16, 65535) {
            Err(e) => Some(Err("Invalid port hex: "@ + int_error_message(e))),
            Ok(p) => if is_v6 {
                match v6_address(ip) {
                    None => None,
                    Some(Err(m)) => Some(Err(m)),
                    Some(Ok(a)) => Some(Ok((a, p as u16))),
                }
            } else {
                Some(Ok((v4_address(ip), p as u16)))
            },
        },
    }
}

fn addr_port_of(s: &Vec<char>, is_v6: bool) -> (r: Option<Result<(IpAddress, u16), Vec<char>>>)
    ensures
        match r {
            None => addr_port_spec(s@, is_v6) is None,
            Some(Ok(x)) => addr_port_spec(s@, is_v6) == Some(Ok::<(IpAddress, u16), Seq<char>>(x)),
            Some(Err(m)) => addr_port_spec(s@, is_v6) == Some(Err::<(IpAddress, u16), Seq<char>>(m@)),
        },
{
    let n = s.len();
    let mut k: usize = 0;
    while k < n && s[k] != ':'
        invariant
            k <= n == s@.len(),
            forall|j: int| 0 <= j < k ==> s@[j] != ':',
        decreases n - k,
    {
        k = k + 1;
    }
    proof {
        lemma_find_char(s@, ':', k as int);
    }
    let mut bad = k >= n;
    if !bad {
        let mut j: usize = k + 1;
        while j < n && s[j] != ':'
            invariant
                k < j <= n == s@.len(),
                forall|t: int| k < t < j ==> s@[t] != ':',
            decreases n - j,
        {
            j = j + 1;
        }
        proof {
            let rest = s@.subrange(k + 1, n as int);
            assert forall|t: int| 0 <= t < j - k - 1 implies rest[t] != ':' by {
                assert(rest[t] == s@[k + 1 + t]);
            }
            if j < n {
                assert(rest[j - k - 1] == s@[j as int]);
            }
            lemma_find_char(rest, ':', j - k - 1);
        }
        bad = j < n;
    }
    if bad {
        let mut msg = chars_of("Invalid addr:port format: ");
        push_all(&mut msg, s);
        return Some(Err(msg));
    }
    let ip = vec_slice(s, 0, k);
    let port = vec_slice(s, k + 1, n);
    let p = match parse_unsigned(&port, 16, 65535) {
        Ok(p) => p as u16,
        Err(e) => {
            let mut msg = chars_of("Invalid port hex: ");
            let text = int_error_text(e);
            let tail = chars_of(text.as_str());
            push_all(&mut msg, &tail);
            return Some(Err(msg));
        },
    };
    if is_v6 {
        match v6_address_of(&ip) {
            None => None,
            Some(Err(m)) => Some(Err(m)),
            Some(Ok(a)) => Some(Ok((a, p))),
        }
    } else {
        let v: u64 = match parse_unsigned(&ip, 16, 0xFFFF_FFFF) {
            Ok(x) => x,
            Err(_) => 0,
        };
        let a = IpAddress::V4(
            (v % 256) as u8,
            ((v / 256) % 256) as u8,
            ((v / 65536) % 256) as u8,
            ((v / 16777216) % 256) as u8,
        );
        Some(Ok((a, p)))
    }
}

/// Splits `addr:port` text from a socket table into the address and the
/// port. The address is hexadecimal: a little-endian 32-bit number for
/// IPv4, and for IPv6 eight 4-byte groups whose 16-bit halves come swapped
/// in each 32-bit word.
pub fn parse_addr_port(s: &str, is_v6: bool) -> (r: EngineResult<(IpAddress, u16)>)
    requires
        addr_port_spec(s@, is_v6) is Some,
    ensures
        match r {
            Ok(x) => addr_port_spec(s@, is_v6) == Some(Ok::<(IpAddress, u16), Seq<char>>(x)),
            Err(e) => e is Network && addr_port_spec(s@, is_v6) == Some(
                Err::<(IpAddress, u16), Seq<char>>(error_detail(e)),
            ),
        },
{
    let v = chars_of(s);
    match addr_port_of(&v, is_v6) {
        Some(Ok(x)) => Ok(x),
        Some(Err(m)) => {
            let text = string_from_chars(&m, 0, m.len());
            assert(m@.subrange(0, m@.len() as int) =~= m@);
            Err(EngineError::Network(text))
        },
        None => Err(EngineError::Network(String::new())),
    }
}

// ---------------------------------------------------------------------------
// Socket tables
// ---------------------------------------------------------------------------

/// An established connection read from a socket table.
#[derive(Clone, Copy, Debug, PartialEq, Eq, Structural)]
pub struct SocketEntry {
    pub local_addr: IpAddress,
    pub local_port: u16,
    pub remote_addr: IpAddress,
    pub remote_port: u16,
    pub state: ConnectionState,
    pub inode: u64,
}

/// The state number of a row: hexadecimal, zero when unreadable.
pub open spec fn row_state(w: Seq<char>) -> ConnectionState {
    state_of_number(
        match from_str_radix_spec(w, 16, 255) {
            Ok(v) => v as u8,
            Err(_) => 0u8,
        },
    )
}

/// The inode of a row: decimal, zero when unreadable.
pub open spec fn row_inode(w: Seq<char>) -> u64 {
    match from_str_radix_spec(w, 10, u64::MAX as nat) {
        Ok(v) => v as u64,
        Err(_) => 0u64,
    }
}

/// What one row of a socket table, cut into words, gives: an established
/// connection, nothing (a short row, a listener without a peer, another
/// state), or an error; `None` where an address cannot be cut into groups.
pub open spec fn row_spec(words: Seq<Seq<char>>, is_v6: bool) -> Option<Result<Option<SocketEntry>, Seq<char>>> {
    if words.len() < 10 {
        Some(Ok(None))
    } else {
        match addr_port_spec(words[1], is_v6) {
            None => None,
            Some(Err(m)) => Some(Err(m)),
            Some(Ok(local)) => match addr_port_spec(words[2], is_v6) {
                None => None,
                Some(Err(m)) => Some(Err(m)),
                Some(Ok(remote)) => {
                    let state = row_state(words[3]);
                    if remote.1 == 0 && is_unspecified(remote.0) {
                        Some(Ok(None))
                    } else if state != ConnectionState::Established {
                        Some(Ok(None))
                    } else {
                        Some(
                            Ok(
                                Some(
                                    SocketEntry {
                                        local_addr: local.0,
                                        local_port: local.1,
                                        remote_addr: remote.0,
                                        remote_port: remote.1,
                                        state,
                                        inode: row_inode(words[9]),
                                    },
                                ),
                            ),
                        )
                    }
                },
            },
        }
    }
}

/// The entries of a sequence of rows, or the first row's error.
pub open spec fn rows_spec(lines: Seq<Seq<char>>, is_v6: bool) -> Option<Result<Seq<SocketEntry>, Seq<char>>>
    decreases lines.len(),
{
    if lines.len() == 0 {
        Some(Ok(Seq::empty()))
    } else {
        match row_spec(words_spec(lines[0]), is_v6) {
            None => None,
            Some(Err(m)) => Some(Err(m)),
            Some(Ok(o)) => match rows_spec(lines.drop_first(), is_v6) {
                None => None,
                Some(Err(m)) => Some(Err(m)),
                Some(Ok(rest)) => Some(
                    Ok(
                        match o {
                            Some(e) => seq![e] + rest,
                            None => rest,
                        },
                    ),
                ),
            },
        }
    }
}

/// What a whole socket table gives: its header line is skipped.
pub open spec fn table_spec(content: Seq<char>, is_v6: bool) -> Option<Result<Seq<SocketEntry>, Seq<char>>> {
    let ls = lines_spec(content);
    if ls.len() == 0 {
        Some(Ok(Seq::empty()))
    } else {
        rows_spec(ls.drop_first(), is_v6)
    }
}

/// A connection read from a socket table is established and has a peer.
pub open spec fn is_live_entry(e: SocketEntry) -> bool {
    e.state == ConnectionState::Established && !(e.remote_port == 0 && is_unspecified(e.remote_addr))
}

proof fn lemma_rows_live(lines: Seq<Seq<char>>, is_v6: bool)
    ensures
        rows_spec(lines, is_v6) matches Some(Ok(v)) ==> forall|k: int|
            0 <= k < v.len() ==> is_live_entry(#[trigger] v[k]),
    decreases lines.len(),
{
    if lines.len() > 0 {
        lemma_rows_live(lines.drop_first(), is_v6);
        match row_spec(words_spec(lines[0]), is_v6) {
            Some(Ok(Some(e))) => {
                match rows_spec(lines.drop_first(), is_v6) {
                    Some(Ok(rest)) => {
                        let v = seq![e] + rest;
                        assert forall|k: int| 0 <= k < v.len() implies is_live_entry(#[trigger] v[k]) by {
                            if k > 0 {
                                assert(v[k] == rest[k - 1]);
                            }
                        }
                    },
                    _ => {},
                }
            },
            _ => {},
        }
    }
}

/// Every connection a socket table yields is established and has a peer:
/// listeners and sockets in other states never come out.
pub proof fn law_table_yields_live_connections(content: Seq<char>, is_v6: bool)
    ensures
        table_spec(content, is_v6) matches Some(Ok(v)) ==> forall|k: int|
            0 <= k < v.len() ==> is_live_entry(#[trigger] v[k]),
{
    let ls = lines_spec(content);
    if ls.len() > 0 {
        lemma_rows_live(ls.drop_first(), is_v6);
    }
}

/// `rest` preceded by the entries `acc`.
pub open spec fn after_entries(
    acc: Seq<SocketEntry>,
    rest: Option<Result<Seq<SocketEntry>, Seq<char>>>,
) -> Option<Result<Seq<SocketEntry>, Seq<char>>> {
    match rest {
        None => None,
        Some(Err(m)) => Some(Err(m)),
        Some(Ok(r)) => Some(Ok(acc + r)),
    }
}

/// The entry a row adds, as a sequence.
pub open spec fn entry_seq(o: Option<SocketEntry>) -> Seq<SocketEntry> {
    match o {
        Some(e) => seq![e],
        None => Seq::empty(),
    }
}

proof fn lemma_rows_step(acc: Seq<SocketEntry>, rest: Seq<Seq<char>>, is_v6: bool)
    requires
        rest.len() > 0,
    ensures
        match row_spec(words_spec(rest[0]), is_v6) {
            None => after_entries(acc, rows_spec(rest, is_v6)) is None,
            Some(Err(m)) => after_entries(acc, rows_spec(rest, is_v6)) == Some(
                Err::<Seq<SocketEntry>, Seq<char>>(m),
            ),
            Some(Ok(o)) => after_entries(acc, rows_spec(rest, is_v6)) == after_entries(
                acc + entry_seq(o),
                rows_spec(rest.drop_first(), is_v6),
            ),
        },
{
    match row_spec(words_spec(rest[0]), is_v6) {
        Some(Ok(o)) => {
            match rows_spec(rest.drop_first(), is_v6) {
                Some(Ok(r)) => {
                    match o {
                        Some(e) => {
                            assert(acc + (seq![e] + r) =~= acc + entry_seq(o) + r);
                        },
                        None => {
                            assert(acc + r =~= acc + entry_seq(o) + r);
                        },
                    }
                },
                _ => {},
            }
        },
        _ => {},
    }
}

/// Reads one row; `None` where an address cannot be cut into groups.
fn read_row(words: &Vec<Vec<char>>, is_v6: bool) -> (r: Option<Result<Option<SocketEntry>, Vec<char>>>)
    ensures
        match r {
            None => row_spec(words@.map_values(|w: Vec<char>| w@), is_v6) is None,
            Some(Ok(o)) => row_spec(words@.map_values(|w: Vec<char>| w@), is_v6) == Some(
                Ok::<Option<SocketEntry>, Seq<char>>(o),
            ),
            Some(Err(m)) => row_spec(words@.map_values(|w: Vec<char>| w@), is_v6) == Some(
                Err::<Option<SocketEntry>, Seq<char>>(m@),
            ),
        },
{
    let ghost ws = words@.map_values(|w: Vec<char>| w@);
    if words.len() < 10 {
        return Some(Ok(None));
    }
    assert(ws[1] == words@[1]@ && ws[2] == words@[2]@ && ws[3] == words@[3]@ && ws[9] == words@[9]@);
    let local = match addr_port_of(&words[1], is_v6) {
        None => {
            return None;
        },
        Some(Err(m)) => {
            return Some(Err(m));
        },
        Some(Ok(x)) => x,
    };
    let remote = match addr_port_of(&words[2], is_v6) {
        None => {
            return None;
        },
        Some(Err(m)) => {
            return Some(Err(m));
        },
        Some(Ok(x)) => x,
    };
    let state_num: u8 = match parse_unsigned(&words[3], 16, 255) {
        Ok(v) => v as u8,
        Err(_) => 0,
    };
    let state = tcp_state(state_num);
    let inode: u64 = match parse_unsigned(&words[9], 10, 0xFFFF_FFFF_FFFF_FFFF) {
        Ok(v) => v,
        Err(_) => 0,
    };
    if remote.1 == 0 && address_is_unspecified(&remote.0) {
        return Some(Ok(None));
    }
    match state {
        ConnectionState::Established => {},
        _ => {
            return Some(Ok(None));
        },
    }
    Some(
        Ok(
            Some(
                SocketEntry {
                    local_addr: local.0,
                    local_port: local.1,
                    remote_addr: remote.0,
                    remote_port: remote.1,
                    state,
                    inode,
                },
            ),
        ),
    )
}

/// Reads a socket table in full; `None` where an IPv6 address cannot be cut into
/// its eight 4-byte groups (slicing the text there would fail).
pub fn scan_proc_net(content: &str, is_v6: bool) -> (r: Option<EngineResult<Vec<SocketEntry>>>)
    ensures
        match r {
            None => table_spec(content@, is_v6) is None,
            Some(Ok(v)) => table_spec(content@, is_v6) == Some(Ok::<Seq<SocketEntry>, Seq<char>>(v@)),
            Some(Err(e)) => e is Network && table_spec(content@, is_v6) == Some(
                Err::<Seq<SocketEntry>, Seq<char>>(error_detail(e)),
            ),
        },
{
    let chars = chars_of(content);
    let lines = lines_of(&chars);
    let ghost ls = lines@.map_values(|l: Vec<char>| l@);
    let n = lines.len();
    let mut acc: Vec<SocketEntry> = Vec::new();
    if n == 0 {
        return Some(Ok(acc));
    }
    let mut i: usize = 1;
    assert(ls.subrange(1, n as int) =~= ls.drop_first());
    while i < n
        invariant
            1 <= i <= n == lines@.len(),
            ls == lines@.map_values(|l: Vec<char>| l@),
            ls == lines_spec(content@),
            table_spec(content@, is_v6) == after_entries(acc@, rows_spec(ls.subrange(i as int, n as int), is_v6)),
        decreases n - i,
    {
        let ghost rest = ls.subrange(i as int, n as int);
        proof {
            assert(rest[0] == lines@[i as int]@);
            assert(rest.drop_first() =~= ls.subrange(i + 1, n as int));
            lemma_rows_step(acc@, rest, is_v6);
        }
        let words = words_of(&lines[i]);
        match read_row(&words, is_v6) {
            None => {
                return None;
            },
            Some(Err(m)) => {
                let text = string_from_chars(&m, 0, m.len());
                assert(m@.subrange(0, m@.len() as int) =~= m@);
                return Some(Err(EngineError::Network(text)));
            },
            Some(Ok(o)) => {
                let ghost before = acc@;
                match o {
                    Some(e) => {
                        acc.push(e);
                    },
                    None => {},
                }
                assert(acc@ =~= before + entry_seq(o));
            },
        }
        i = i + 1;
    }
    assert(ls.subrange(n as int, n as int) =~= Seq::<Seq<char>>::empty());
    assert(acc@ + Seq::<SocketEntry>::empty() =~= acc@);
    Some(Ok(acc))
}

/// Reads the established connections of a socket table
/// (`/proc/net/tcp`, or `/proc/net/tcp6` when `is_v6`): the header line is
/// skipped, rows of fewer than ten fields are skipped, listeners without a
/// peer and connections in any other state are left out, and the first row
/// with a malformed address or port fails the whole table.
pub fn read_proc_net(content: &str, is_v6: bool) -> (r: EngineResult<Vec<SocketEntry>>)
    requires
        table_spec(content@, is_v6) is Some,
    ensures
        match r {
            Ok(v) => table_spec(content@, is_v6) == Some(Ok::<Seq<SocketEntry>, Seq<char>>(v@)),
            Err(e) => e is Network && table_spec(content@, is_v6) == Some(
                Err::<Seq<SocketEntry>, Seq<char>>(error_detail(e)),
            ),
        },
{
    match scan_proc_net(content, is_v6) {
        Some(r) => r,
        None => Ok(Vec::new()),
    }
}

// ---------------------------------------------------------------------------
// Lines and words
// ---------------------------------------------------------------------------

/// Index of the first `c` in `s`, or `s.len()` when there is none.
pub open spec fn find_char(s: Seq<char>, c: char) -> nat
    decreases s.len(),
{
    if s.len() == 0 {
        0
    } else if s[0] == c {
        0
    } else {
        1 + find_char(s.drop_first(), c)
    }
}

/// A line without its carriage return, when it had one before its line feed.
pub open spec fn strip_cr(s: Seq<char>) -> Seq<char> {
    if s.len() > 0 && s.last() == '\r' {
        s.drop_last()
    } else {
        s
    }
}

/// The lines of a text, as `str::lines` gives them: split at line feeds,
/// a carriage return just before a line feed dropped, no empty last line
/// after a final line feed.
pub open spec fn lines_spec(s: Seq<char>) -> Seq<Seq<char>>
    decreases s.len(),
{
    if s.len() == 0 {
        Seq::empty()
    } else {
        let k = find_char(s, '\n');
        proof {
            lemma_find_char_bound(s, '\n');
        }
        if k >= s.len() {
            seq![s]
        } else {
            seq![strip_cr(s.subrange(0, k as int))] + lines_spec(s.subrange((k + 1) as int, s.len() as int))
        }
    }
}

/// Number of leading characters that are not white space.
pub open spec fn word_len(s: Seq<char>) -> nat
    decreases s.len(),
{
    if s.len() == 0 || is_white_space(s[0]) {
        0
    } else {
        1 + word_len(s.drop_first())
    }
}

/// The white-space separated words of a text, as `str::split_whitespace`
/// gives them.
pub open spec fn words_spec(s: Seq<char>) -> Seq<Seq<char>>
    decreases s.len(),
{
    if s.len() == 0 {
        Seq::empty()
    } else if is_white_space(s[0]) {
        words_spec(s.drop_first())
    } else {
        let k = word_len(s);
        proof {
            lemma_word_len_bound(s);
        }
        seq![s.subrange(0, k as int)] + words_spec(s.subrange(k as int, s.len() as int))
    }
}

pub proof fn lemma_word_len_bound(s: Seq<char>)
    ensures
        word_len(s) <= s.len(),
    decreases s.len(),
{
    if s.len() > 0 && !is_white_space(s[0]) {
        lemma_word_len_bound(s.drop_first());
    }
}

pub proof fn lemma_find_char_bound(s: Seq<char>, c: char)
    ensures
        find_char(s, c) <= s.len(),
    decreases s.len(),
{
    if s.len() > 0 && s[0] != c {
        lemma_find_char_bound(s.drop_first(), c);
    }
}

proof fn lemma_find_char(s: Seq<char>, c: char, i: int)
    requires
        0 <= i <= s.len(),
        forall|k: int| 0 <= k < i ==> s[k] != c,
        i == s.len() || s[i] == c,
    ensures
        find_char(s, c) == i,
    decreases i,
{
    if i > 0 {
        lemma_find_char(s.drop_first(), c, i - 1);
    }
}

proof fn lemma_word_len(s: Seq<char>, i: int)
    requires
        0 <= i <= s.len(),
        forall|k: int| 0 <= k < i ==> !is_white_space(s[k]),
        i == s.len() || is_white_space(s[i]),
    ensures
        word_len(s) == i,
    decreases i,
{
    if i > 0 {
        lemma_word_len(s.drop_first(), i - 1);
    }
}

/// Splits a text into lines as `str::lines` does.
pub fn lines_of(s: &Vec<char>) -> (r: Vec<Vec<char>>)
    ensures
        r@.map_values(|l: Vec<char>| l@) == lines_spec(s@),
{
    let n = s.len();
    let mut r: Vec<Vec<char>> = Vec::new();
    let mut i: usize = 0;
    assert(s@.subrange(0, n as int) =~= s@);
    while i < n
        invariant
            i <= n == s@.len(),
            lines_spec(s@) == r@.map_values(|l: Vec<char>| l@) + lines_spec(s@.subrange(i as int, n as int)),
        decreases n - i,
    {
        let ghost rest = s@.subrange(i as int, n as int);
        let mut j: usize = i;
        while j < n && s[j] != '\n'
            invariant
                i <= j <= n == s@.len(),
                forall|k: int| i <= k < j ==> s@[k] != '\n',
            decreases n - j,
        {
            j = j + 1;
        }
        proof {
            lemma_find_char(rest, '\n', j - i);
        }
        let mut end: usize = j;
        if j < n && end > i && s[end - 1] == '\r' {
            end = end - 1;
        }
        let line = vec_slice(s, i, end);
        let ghost before = r@.map_values(|l: Vec<char>| l@);
        r.push(line);
        assert(r@.map_values(|l: Vec<char>| l@) =~= before.push(line@));
        if j < n {
            assert(rest.subrange(0, j - i) =~= s@.subrange(i as int, j as int));
            assert(line@ == strip_cr(rest.subrange(0, j - i)));
            assert(rest.subrange(j - i + 1, rest.len() as int) =~= s@.subrange(j + 1, n as int));
            i = j + 1;
        } else {
            assert(rest =~= line@);
            assert(s@.subrange(n as int, n as int) =~= Seq::<char>::empty());
            i = n;
        }
        assert(lines_spec(s@) =~= r@.map_values(|l: Vec<char>| l@) + lines_spec(s@.subrange(i as int, n as int)));
    }
    assert(s@.subrange(n as int, n as int) =~= Seq::<char>::empty());
    assert(r@.map_values(|l: Vec<char>| l@) =~= lines_spec(s@));
    r
}

/// The characters `s[from..to]`.
pub fn vec_slice(s: &Vec<char>, from: usize, to: usize) -> (r: Vec<char>)
    requires
        from <= to <= s@.len(),
    ensures
        r@ == s@.subrange(from as int, to as int),
{
    let mut r: Vec<char> = Vec::new();
    let mut i: usize = from;
    while i < to
        invariant
            from <= i <= to <= s@.len(),
            r@ == s@.subrange(from as int, i as int),
        decreases to - i,
    {
        r.push(s[i]);
        assert(r@ =~= s@.subrange(from as int, i + 1));
        i = i + 1;
    }
    r
}

/// Splits a text into white-space separated words as `str::split_whitespace` does.
pub fn words_of(s: &Vec<char>) -> (r: Vec<Vec<char>>)
    ensures
        r@.map_values(|w: Vec<char>| w@) == words_spec(s@),
{
    let n = s.len();
    let mut r: Vec<Vec<char>> = Vec::new();
    let mut i: usize = 0;
    assert(s@.subrange(0, n as int) =~= s@);
    while i < n
        invariant
            i <= n == s@.len(),
            words_spec(s@) == r@.map_values(|w: Vec<char>| w@) + words_spec(s@.subrange(i as int, n as int)),
        decreases n - i,
    {
        let ghost rest = s@.subrange(i as int, n as int);
        if char_is_white_space(s[i]) {
            assert(rest.drop_first() =~= s@.subrange(i + 1, n as int));
            i = i + 1;
        } else {
            let mut j: usize = i;
            while j < n && !char_is_white_space(s[j])
                invariant
                    i <= j <= n == s@.len(),
                    forall|k: int| i <= k < j ==> !is_white_space(s@[k]),
                decreases n - j,
            {
                j = j + 1;
            }
            proof {
                lemma_word_len(rest, j - i);
            }
            let w = vec_slice(s, i, j);
            let ghost before = r@.map_values(|w: Vec<char>| w@);
            r.push(w);
            assert(r@.map_values(|w: Vec<char>| w@) =~= before.push(w@));
            assert(rest.subrange(0, j - i) =~= w@);
            assert(rest.subrange(j - i, rest.len() as int) =~= s@.subrange(j as int, n as int));
            i = j;
        }
    }
    assert(s@.subrange(n as int, n as int) =~= Seq::<char>::empty());
    assert(r@.map_values(|w: Vec<char>| w@) =~= words_spec(s@));
    r
}

} // verus!
