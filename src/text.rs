//! Byte-string helpers for scheme paths and directory listings.

use vstd::prelude::*;

verus! {

pub const SLASH: u8 = 0x2f;
pub const PLUS: u8 = 0x2b;
pub const NEWLINE: u8 = 0x0a;
pub const SPACE: u8 = 0x20;

/// `s` without its leading `/` bytes.
pub open spec fn trim_start_slashes(s: Seq<u8>) -> Seq<u8>
    decreases s.len(),
{
    if s.len() > 0 && s[0] == SLASH {
        trim_start_slashes(s.skip(1))
    } else {
        s
    }
}

/// `s` without its trailing `/` bytes.
pub open spec fn trim_end_slashes(s: Seq<u8>) -> Seq<u8>
    decreases s.len(),
{
    if s.len() > 0 && s.last() == SLASH {
        trim_end_slashes(s.drop_last())
    } else {
        s
    }
}

/// The value of one digit character in the given radix.
pub open spec fn digit_value(c: u8, radix: nat) -> Option<nat> {
    let v: int = if 0x30 <= c <= 0x39 {
        c - 0x30
    } else if 0x61 <= c <= 0x7a {
        c - 0x61 + 10
    } else if 0x41 <= c <= 0x5a {
        c - 0x41 + 10
    } else {
        99
    };
    if v < radix {
        Some(v as nat)
    } else {
        None
    }
}

pub open spec fn all_digits(s: Seq<u8>, radix: nat) -> bool {
    forall|i: int| 0 <= i < s.len() ==> (#[trigger] digit_value(s[i], radix)) is Some
}

/// The number that a string of digits denotes, most significant first.
pub open spec fn digits_value(s: Seq<u8>, radix: nat) -> nat
    decreases s.len(),
{
    if s.len() == 0 {
        0
    } else {
        digits_value(s.drop_last(), radix) * radix + digit_value(s.last(), radix).unwrap_or(0)
    }
}

/// How an unsigned byte is read from text: an optional `+`, then at least
/// one digit, denoting a value below 256.
pub open spec fn parse_u8_radix(s: Seq<u8>, radix: nat) -> Option<u8> {
    let d = if s.len() > 0 && s[0] == PLUS {
        s.skip(1)
    } else {
        s
    };
    if d.len() > 0 && all_digits(d, radix) && digits_value(d, radix) < 256 {
        Some(digits_value(d, radix) as u8)
    } else {
        None
    }
}

pub open spec fn dec_digit(n: nat) -> u8 {
    (0x30 + n % 10) as u8
}

pub open spec fn hex_digit(n: nat) -> u8 {
    let d = n % 16;
    if d < 10 {
        (0x30 + d) as u8
    } else {
        (0x61 + d - 10) as u8
    }
}

/// Decimal text of a byte, without padding.
pub open spec fn dec_text(n: u8) -> Seq<u8> {
    if n < 10 {
        seq![dec_digit(n as nat)]
    } else if n < 100 {
        seq![dec_digit(n as nat / 10), dec_digit(n as nat)]
    } else {
        seq![dec_digit(n as nat / 100), dec_digit(n as nat / 10), dec_digit(n as nat)]
    }
}

/// Lower-case hexadecimal text of a byte, zero-padded to two digits.
pub open spec fn hex2_text(n: u8) -> Seq<u8> {
    seq![hex_digit(n as nat / 16), hex_digit(n as nat)]
}

/// Lower-case hexadecimal text of a byte, space-padded to two columns.
pub open spec fn hex2_spaced_text(n: u8) -> Seq<u8> {
    if n < 16 {
        seq![SPACE, hex_digit(n as nat)]
    } else {
        hex2_text(n)
    }
}

/// The index of the first byte at or after `from` that is not a `/`.
pub fn skip_slashes(s: &[u8], from: usize) -> (r: usize)
    requires
        from <= s@.len(),
    ensures
        from <= r <= s@.len(),
        s@.subrange(r as int, s@.len() as int) == trim_start_slashes(
            s@.subrange(from as int, s@.len() as int),
        ),
{
    let mut i = from;
    while i < s.len() && s[i] == SLASH
        invariant
            from <= i <= s@.len(),
            trim_start_slashes(s@.subrange(i as int, s@.len() as int)) == trim_start_slashes(
                s@.subrange(from as int, s@.len() as int),
            ),
        decreases s@.len() - i,
    {
        assert(s@.subrange(i as int, s@.len() as int).skip(1) =~= s@.subrange(
            i + 1,
            s@.len() as int,
        ));
        i = i + 1;
    }
    let ghost rest = s@.subrange(i as int, s@.len() as int);
    assert(!(rest.len() > 0 && rest[0] == SLASH));
    i
}

/// The end of `s[from..to]` once its trailing `/` bytes are dropped.
pub fn trim_end(s: &[u8], from: usize, to: usize) -> (r: usize)
    requires
        from <= to <= s@.len(),
    ensures
        from <= r <= to,
        s@.subrange(from as int, r as int) == trim_end_slashes(
            s@.subrange(from as int, to as int),
        ),
{
    let mut j = to;
    while j > from && s[j - 1] == SLASH
        invariant
            from <= j <= to <= s@.len(),
            trim_end_slashes(s@.subrange(from as int, j as int)) == trim_end_slashes(
                s@.subrange(from as int, to as int),
            ),
        decreases j,
    {
        assert(s@.subrange(from as int, j as int).drop_last() =~= s@.subrange(
            from as int,
            j - 1,
        ));
        j = j - 1;
    }
    j
}

fn digit(c: u8, radix: u32) -> (r: Option<u32>)
    requires
        radix == 10 || radix == 16,
    ensures
        match r {
            Some(v) => digit_value(c, radix as nat) == Some(v as nat),
            None => digit_value(c, radix as nat) is None,
        },
{
    let v: u32 = if 0x30 <= c && c <= 0x39 {
        (c - 0x30) as u32
    } else if 0x61 <= c && c <= 0x7a {
        (c - 0x61 + 10) as u32
    } else if 0x41 <= c && c <= 0x5a {
        (c - 0x41 + 10) as u32
    } else {
        99
    };
    if v < radix {
        Some(v)
    } else {
        None
    }
}

proof fn lemma_digits_value_grows(s: Seq<u8>, radix: nat, n: int)
    requires
        radix >= 1,
        0 <= n <= s.len(),
    ensures
        digits_value(s.subrange(0, n), radix) <= digits_value(s, radix),
    decreases s.len() - n,
{
    if n < s.len() {
        lemma_digits_value_grows(s, radix, n + 1);
        let t = s.subrange(0, n + 1);
        assert(t.drop_last() =~= s.subrange(0, n));
        assert(digits_value(t, radix) == digits_value(s.subrange(0, n), radix) * radix
            + digit_value(t.last(), radix).unwrap_or(0));
        assert(digits_value(s.subrange(0, n), radix) * radix >= digits_value(
            s.subrange(0, n),
            radix,
        )) by (nonlinear_arith)
            requires
                radix >= 1,
        ;
    } else {
        assert(s.subrange(0, n) =~= s);
    }
}

/// Reads an unsigned byte from `s[from..to]` in radix 10 or 16.
pub fn parse_u8(s: &[u8], from: usize, to: usize, radix: u32) -> (r: Option<u8>)
    requires
        from <= to <= s@.len(),
        radix == 10 || radix == 16,
    ensures
        r == parse_u8_radix(s@.subrange(from as int, to as int), radix as nat),
{
    let ghost whole = s@.subrange(from as int, to as int);
    let start = if from < to && s[from] == PLUS {
        from + 1
    } else {
        from
    };
    let ghost d = s@.subrange(start as int, to as int);
    assert(d =~= if whole.len() > 0 && whole[0] == PLUS {
        whole.skip(1)
    } else {
        whole
    });
    if start == to {
        return None;
    }
    let mut acc: u32 = 0;
    let mut i = start;
    while i < to
        invariant
            from <= start <= i <= to <= s@.len(),
            radix == 10 || radix == 16,
            d == s@.subrange(start as int, to as int),
            whole == s@.subrange(from as int, to as int),
            d == (if whole.len() > 0 && whole[0] == PLUS {
                whole.skip(1)
            } else {
                whole
            }),
            all_digits(s@.subrange(start as int, i as int), radix as nat),
            acc == digits_value(s@.subrange(start as int, i as int), radix as nat),
            acc < 256,
        decreases to - i,
    {
        let ghost pre = s@.subrange(start as int, i as int);
        let ghost next = s@.subrange(start as int, i + 1);
        assert(next.drop_last() =~= pre);
        match digit(s[i], radix) {
            None => {
                assert(d[i - start] == s@[i as int]);
                assert(digit_value(d[i - start], radix as nat) is None);
                assert(!all_digits(d, radix as nat));
                return None;
            },
            Some(v) => {
                let n = acc * radix + v;
                assert(n == digits_value(next, radix as nat));
                if n >= 256 {
                    proof {
                        assert(d.subrange(0, i + 1 - start) =~= next);
                        lemma_digits_value_grows(d, radix as nat, i + 1 - start);
                        assert(digits_value(d, radix as nat) >= 256);
                    }
                    return None;
                }
                assert forall|k: int| 0 <= k < next.len() implies #[trigger] digit_value(
                    next[k],
                    radix as nat,
                ) is Some by {
                    if k < pre.len() {
                        assert(next[k] == pre[k]);
                    }
                };
                acc = n;
            },
        }
        i = i + 1;
    }
    Some(acc as u8)
}

/// Appends the decimal text of `n`.
pub fn push_dec(out: &mut Vec<u8>, n: u8)
    ensures
        final(out)@ == old(out)@ + dec_text(n),
{
    if n >= 100 {
        out.push(0x30 + n / 100);
    }
    if n >= 10 {
        out.push(0x30 + (n / 10) % 10);
    }
    out.push(0x30 + n % 10);
    assert(final(out)@ =~= old(out)@ + dec_text(n));
}

fn hex_char(n: u8) -> (r: u8)
    requires
        n < 16,
    ensures
        r == hex_digit(n as nat),
{
    if n < 10 {
        0x30 + n
    } else {
        0x61 + n - 10
    }
}

/// Appends the lower-case hexadecimal text of `n`, zero-padded to two digits.
pub fn push_hex2(out: &mut Vec<u8>, n: u8)
    ensures
        final(out)@ == old(out)@ + hex2_text(n),
{
    out.push(hex_char(n / 16));
    out.push(hex_char(n % 16));
    assert(final(out)@ =~= old(out)@ + hex2_text(n));
}

/// Appends the lower-case hexadecimal text of `n`, space-padded to two columns.
pub fn push_hex2_spaced(out: &mut Vec<u8>, n: u8)
    ensures
        final(out)@ == old(out)@ + hex2_spaced_text(n),
{
    if n < 16 {
        out.push(SPACE);
        out.push(hex_char(n));
        assert(final(out)@ =~= old(out)@ + hex2_spaced_text(n));
    } else {
        push_hex2(out, n);
    }
}

} // verus!
