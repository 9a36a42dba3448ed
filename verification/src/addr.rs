//! IP addresses as plain values, with their textual rendering for the
//! kernel command line.

use vstd::prelude::*;

verus! {

/// An IP address: four octets, or eight 16-bit groups.
#[derive(Clone, Copy, Debug, PartialEq, Eq, Structural)]
pub enum IpAddress {
    V4(u8, u8, u8, u8),
    V6(u16, u16, u16, u16, u16, u16, u16, u16),
}

/// The decimal digit `d` as a character.
pub open spec fn digit_char(d: int) -> char {
    if d == 0 {
        '0'
    } else if d == 1 {
        '1'
    } else if d == 2 {
        '2'
    } else if d == 3 {
        '3'
    } else if d == 4 {
        '4'
    } else if d == 5 {
        '5'
    } else if d == 6 {
        '6'
    } else if d == 7 {
        '7'
    } else if d == 8 {
        '8'
    } else {
        '9'
    }
}

/// The hexadecimal digit `d` as a lower-case character.
pub open spec fn hex_digit_char(d: int) -> char {
    if d < 10 {
        digit_char(d)
    } else if d == 10 {
        'a'
    } else if d == 11 {
        'b'
    } else if d == 12 {
        'c'
    } else if d == 13 {
        'd'
    } else if d == 14 {
        'e'
    } else {
        'f'
    }
}

/// `n` in decimal, most significant digit first, no leading zeros.
pub open spec fn dec_text(n: int) -> Seq<char>
    decreases n,
{
    if n < 10 {
        seq![digit_char(n)]
    } else {
        dec_text(n / 10) + seq![digit_char(n % 10)]
    }
}

/// `n` in lower-case hexadecimal, most significant digit first, no
/// leading zeros.
pub open spec fn hex_text(n: int) -> Seq<char>
    decreases n,
{
    if n < 16 {
        seq![hex_digit_char(n)]
    } else {
        hex_text(n / 16) + seq![hex_digit_char(n % 16)]
    }
}

/// The textual form of an address: dotted decimal for the four octets,
/// eight colon-separated lower-case hexadecimal groups (no `::`
/// shortening) for the sixteen-byte form.
pub open spec fn ip_text(ip: IpAddress) -> Seq<char> {
    match ip {
        IpAddress::V4(a, b, c, d) => dec_text(a as int) + seq!['.'] + dec_text(b as int)
            + seq!['.'] + dec_text(c as int) + seq!['.'] + dec_text(d as int),
        IpAddress::V6(g0, g1, g2, g3, g4, g5, g6, g7) => hex_text(g0 as int) + seq![':']
            + hex_text(g1 as int) + seq![':'] + hex_text(g2 as int) + seq![':'] + hex_text(
            g3 as int,
        ) + seq![':'] + hex_text(g4 as int) + seq![':'] + hex_text(g5 as int) + seq![':']
            + hex_text(g6 as int) + seq![':'] + hex_text(g7 as int),
    }
}

fn digit_str(d: u8) -> (r: &'static str)
    requires
        d < 10,
    ensures
        r@ == seq![digit_char(d as int)],
{
    proof {
        reveal_strlit("0");
        reveal_strlit("1");
        reveal_strlit("2");
        reveal_strlit("3");
        reveal_strlit("4");
        reveal_strlit("5");
        reveal_strlit("6");
        reveal_strlit("7");
        reveal_strlit("8");
        reveal_strlit("9");
    }
    match d {
        0 => "0",
        1 => "1",
        2 => "2",
        3 => "3",
        4 => "4",
        5 => "5",
        6 => "6",
        7 => "7",
        8 => "8",
        _ => "9",
    }
}

fn hex_digit_str(d: u16) -> (r: &'static str)
    requires
        d < 16,
    ensures
        r@ == seq![hex_digit_char(d as int)],
{
    if d < 10 {
        digit_str(d as u8)
    } else {
        proof {
            reveal_strlit("a");
            reveal_strlit("b");
            reveal_strlit("c");
            reveal_strlit("d");
            reveal_strlit("e");
            reveal_strlit("f");
        }
        match d {
            10 => "a",
            11 => "b",
            12 => "c",
            13 => "d",
            14 => "e",
            _ => "f",
        }
    }
}

/// Render one octet in decimal.
fn dec_u8(n: u8) -> (r: String)
    ensures
        r@ == dec_text(n as int),
{
    let mut s = String::new();
    if n < 10 {
        s.append(digit_str(n));
        proof {
            assert(s@ =~= dec_text(n as int));
        }
    } else if n < 100 {
        s.append(digit_str(n / 10));
        s.append(digit_str(n % 10));
        proof {
            assert(dec_text(n as int / 10) =~= seq![digit_char(n as int / 10)]);
            assert(s@ =~= dec_text(n as int));
        }
    } else {
        s.append(digit_str(n / 100));
        s.append(digit_str((n / 10) % 10));
        s.append(digit_str(n % 10));
        proof {
            assert(n as int / 10 / 10 == n as int / 100) by (nonlinear_arith);
            assert(10 <= n as int / 10 < 100) by (nonlinear_arith)
                requires
                    100 <= n < 256,
            ;
            assert(dec_text(n as int / 100) =~= seq![digit_char(n as int / 100)]);
            assert(dec_text(n as int / 10) =~= seq![
                digit_char(n as int / 100),
                digit_char((n as int / 10) % 10),
            ]);
            assert(s@ =~= dec_text(n as int));
        }
    }
    s
}

/// Render one 16-bit group in lower-case hexadecimal.
fn hex_u16(n: u16) -> (r: String)
    ensures
        r@ == hex_text(n as int),
{
    let mut s = String::new();
    if n < 16 {
        s.append(hex_digit_str(n));
        proof {
            assert(s@ =~= hex_text(n as int));
        }
    } else if n < 256 {
        s.append(hex_digit_str(n / 16));
        s.append(hex_digit_str(n % 16));
        proof {
            assert(hex_text(n as int / 16) =~= seq![hex_digit_char(n as int / 16)]);
            assert(s@ =~= hex_text(n as int));
        }
    } else if n < 4096 {
        s.append(hex_digit_str(n / 256));
        s.append(hex_digit_str((n / 16) % 16));
        s.append(hex_digit_str(n % 16));
        proof {
            assert(n as int / 16 / 16 == n as int / 256) by (nonlinear_arith);
            assert(16 <= n as int / 16 < 256) by (nonlinear_arith)
                requires
                    256 <= n < 4096,
            ;
            assert(hex_text(n as int / 256) =~= seq![hex_digit_char(n as int / 256)]);
            assert(hex_text(n as int / 16) =~= seq![
                hex_digit_char(n as int / 256),
                hex_digit_char((n as int / 16) % 16),
            ]);
            assert(s@ =~= hex_text(n as int));
        }
    } else {
        s.append(hex_digit_str(n / 4096));
        s.append(hex_digit_str((n / 256) % 16));
        s.append(hex_digit_str((n / 16) % 16));
        s.append(hex_digit_str(n % 16));
        proof {
            assert(n as int / 16 / 16 == n as int / 256) by (nonlinear_arith);
            assert(n as int / 256 / 16 == n as int / 4096) by (nonlinear_arith);
            assert(16 <= n as int / 256 < 256 && 16 <= n as int / 16) by (nonlinear_arith)
                requires
                    4096 <= n < 65536,
            ;
            assert(hex_text(n as int / 4096) =~= seq![hex_digit_char(n as int / 4096)]);
            assert(hex_text(n as int / 256) =~= seq![
                hex_digit_char(n as int / 4096),
                hex_digit_char((n as int / 256) % 16),
            ]);
            assert(hex_text(n as int / 16) =~= hex_text(n as int / 256) + seq![
                hex_digit_char((n as int / 16) % 16),
            ]);
            assert(s@ =~= hex_text(n as int));
        }
    }
    s
}

impl IpAddress {
    /// The address's textual form.
    pub fn to_text(&self) -> (r: String)
        ensures
            r@ == ip_text(*self),
    {
        proof {
            reveal_strlit(".");
            reveal_strlit(":");
        }
        match self {
            IpAddress::V4(a, b, c, d) => {
                let mut s = dec_u8(*a);
                s.append(".");
                let sb = dec_u8(*b);
                s.append(sb.as_str());
                s.append(".");
                let sc = dec_u8(*c);
                s.append(sc.as_str());
                s.append(".");
                let sd = dec_u8(*d);
                s.append(sd.as_str());
                proof {
                    assert("."@ =~= seq!['.']);
                }
                s
            },
            IpAddress::V6(g0, g1, g2, g3, g4, g5, g6, g7) => {
                let mut s = hex_u16(*g0);
                s.append(":");
                let s1 = hex_u16(*g1);
                s.append(s1.as_str());
                s.append(":");
                let s2 = hex_u16(*g2);
                s.append(s2.as_str());
                s.append(":");
                let s3 = hex_u16(*g3);
                s.append(s3.as_str());
                s.append(":");
                let s4 = hex_u16(*g4);
                s.append(s4.as_str());
                s.append(":");
                let s5 = hex_u16(*g5);
                s.append(s5.as_str());
                s.append(":");
                let s6 = hex_u16(*g6);
                s.append(s6.as_str());
                s.append(":");
                let s7 = hex_u16(*g7);
                s.append(s7.as_str());
                proof {
                    assert(":"@ =~= seq![':']);
                }
                s
            },
        }
    }
}

} // verus!
