//! Addresses and their textual forms.
//!
//! A target address is an IPv4 address together with a port.  The engine
//! reads and writes addresses as text in two places: the user's input fields
//! (an address field and a port field) and the persisted configuration slot,
//! which holds the canonical `a.b.c.d:port` form.  Both directions are
//! specified here: formatting produces exactly the canonical text of a value,
//! and parsing accepts exactly the texts the grammar allows, nothing else.

use vstd::prelude::*;

verus! {

/// An IPv4 address, as its four octets.
#[derive(Clone, Copy, PartialEq, Eq, Structural, Debug)]
pub struct IpAddress {
    pub a: u8,
    pub b: u8,
    pub c: u8,
    pub d: u8,
}

/// An IPv4 address together with a port: a target to relay to, or the local
/// endpoint to masquerade as.
#[derive(Clone, Copy, PartialEq, Eq, Structural, Debug)]
pub struct SocketAddress {
    pub ip: IpAddress,
    pub port: u16,
}

/// The ten decimal digit characters.
pub open spec fn is_digit(c: char) -> bool {
    48 <= c as int <= 57
}

/// The digit character for a value below ten.
pub open spec fn digit_char(d: int) -> char {
    if d == 0 {
        '0'
    } else if d == 1 {
        '1'
    } else if d == 2 {
        '2'
    } else if d == 3 {
        '3'
    } else if d == 4 {
        '4'
    } else if d == 5 {
        '5'
    } else if d == 6 {
        '6'
    } else if d == 7 {
        '7'
    } else if d == 8 {
        '8'
    } else {
        '9'
    }
}

/// The value of a digit character.
pub open spec fn char_digit(c: char) -> int {
    c as int - 48
}

/// The decimal text of a number: no sign, no leading zero.
pub open spec fn dec_str(n: nat) -> Seq<char>
    decreases n,
{
    if n < 10 {
        seq![digit_char(n as int)]
    } else {
        dec_str(n / 10) + seq![digit_char((n % 10) as int)]
    }
}

/// Whether every character of a sequence is a decimal digit.
pub open spec fn all_digits(s: Seq<char>) -> bool {
    forall|i: int| 0 <= i < s.len() ==> is_digit(s[i])
}

/// The number a digit sequence denotes, most significant digit first.
pub open spec fn dec_value(s: Seq<char>) -> nat
    decreases s.len(),
{
    if s.len() == 0 {
        0
    } else {
        10 * dec_value(s.drop_last()) + (char_digit(s.last()) as nat)
    }
}

/// The canonical dotted-quad text of an IPv4 address.
pub open spec fn ip_str(ip: IpAddress) -> Seq<char> {
    dec_str(ip.a as nat) + seq!['.'] + dec_str(ip.b as nat) + seq!['.'] + dec_str(ip.c as nat)
        + seq!['.'] + dec_str(ip.d as nat)
}

/// The canonical `a.b.c.d:port` text of an address.
pub open spec fn addr_str(t: SocketAddress) -> Seq<char> {
    ip_str(t.ip) + seq![':'] + dec_str(t.port as nat)
}

/// Every digit value below ten maps to its digit character and back.
proof fn lemma_digit_char_value(d: int)
    requires
        0 <= d < 10,
    ensures
        is_digit(digit_char(d)),
        char_digit(digit_char(d)) == d,
{
}

/// Every digit character maps to its value and back.
proof fn lemma_char_digit_value(c: char)
    requires
        is_digit(c),
    ensures
        0 <= char_digit(c) < 10,
        digit_char(char_digit(c)) == c,
{
}

/// The decimal text of a number is one or more digits, and starts with `'0'`
/// only for the number zero itself, whose text is exactly `"0"`.
pub proof fn lemma_dec_str_shape(n: nat)
    ensures
        dec_str(n).len() >= 1,
        all_digits(dec_str(n)),
        n == 0 ==> dec_str(n) == seq!['0'],
        n > 0 ==> dec_str(n)[0] != '0',
    decreases n,
{
    if n < 10 {
        assert(dec_str(n) == seq![digit_char(n as int)]);
        lemma_digit_char_value(n as int);
    } else {
        lemma_dec_str_shape(n / 10);
        lemma_digit_char_value((n % 10) as int);
        assert(dec_str(n) == dec_str(n / 10) + seq![digit_char((n % 10) as int)]);
        assert(dec_str(n)[0] == dec_str(n / 10)[0]);
        assert forall|i: int| 0 <= i < dec_str(n).len() implies is_digit(dec_str(n)[i]) by {
            if i < dec_str(n / 10).len() {
                assert(dec_str(n)[i] == dec_str(n / 10)[i]);
            }
        }
    }
}

/// Reading the decimal text of a number back as a number gives it again.
pub proof fn lemma_dec_value_dec_str(n: nat)
    ensures
        dec_value(dec_str(n)) == n,
    decreases n,
{
    if n < 10 {
        lemma_digit_char_value(n as int);
        let s = dec_str(n);
        assert(s == seq![digit_char(n as int)]);
        assert(s.len() == 1);
        assert(s.last() == digit_char(n as int));
        assert(s.drop_last() =~= Seq::<char>::empty());
        assert(dec_value(s.drop_last()) == 0);
        assert(dec_value(s) == 10 * dec_value(s.drop_last()) + char_digit(s.last()) as nat);
    } else {
        lemma_dec_value_dec_str(n / 10);
        lemma_digit_char_value((n % 10) as int);
        assert(dec_str(n) == dec_str(n / 10) + seq![digit_char((n % 10) as int)]);
        assert(dec_str(n).drop_last() =~= dec_str(n / 10));
        assert(dec_str(n).last() == digit_char((n % 10) as int));
    }
}

/// A nonempty digit sequence that does not start with `'0'` denotes a
/// positive number.
proof fn lemma_dec_value_pos(s: Seq<char>)
    requires
        s.len() >= 1,
        all_digits(s),
        s[0] != '0',
    ensures
        dec_value(s) >= 1,
    decreases s.len(),
{
    if s.len() == 1 {
        lemma_char_digit_value(s[0]);
    } else {
        assert(s.drop_last()[0] == s[0]);
        assert(all_digits(s.drop_last())) by {
            assert(forall|i: int|
                0 <= i < s.drop_last().len() ==> s.drop_last()[i] == s[i] && is_digit(s[i]));
        }
        lemma_dec_value_pos(s.drop_last());
    }
}

/// A nonempty digit sequence without a leading zero is the decimal text of
/// the number it denotes.
pub proof fn lemma_canonical_digits(s: Seq<char>)
    requires
        s.len() >= 1,
        all_digits(s),
        s.len() > 1 ==> s[0] != '0',
    ensures
        s == dec_str(dec_value(s)),
    decreases s.len(),
{
    if s.len() == 1 {
        lemma_char_digit_value(s[0]);
        assert(s.last() == s[0]);
        assert(s.drop_last() =~= Seq::<char>::empty());
        assert(dec_value(s.drop_last()) == 0);
        assert(dec_value(s) == 10 * dec_value(s.drop_last()) + char_digit(s.last()) as nat);
        assert(dec_value(s) == char_digit(s[0]) as nat);
        assert(s =~= dec_str(dec_value(s)));
    } else {
        let pre = s.drop_last();
        assert(pre[0] == s[0]);
        assert(all_digits(pre)) by {
            assert(forall|i: int| 0 <= i < pre.len() ==> pre[i] == s[i] && is_digit(s[i]));
        }
        lemma_canonical_digits(pre);
        lemma_dec_value_pos(pre);
        lemma_char_digit_value(s.last());
        let vp = dec_value(pre);
        let d = char_digit(s.last());
        let v = dec_value(s);
        assert(v == 10 * vp + d);
        assert(v >= 10);
        assert(v / 10 == vp && v % 10 == d) by (nonlinear_arith)
            requires
                v == 10 * vp + d,
                0 <= d < 10,
                vp >= 0,
        ;
        assert(dec_str(v) == dec_str(vp) + seq![digit_char(d)]);
        assert(s =~= pre + seq![s.last()]);
        assert(s =~= dec_str(v));
    }
}

/// The one-character text of a digit value.
fn digit_text(d: u8) -> (r: &'static str)
    requires
        d < 10,
    ensures
        r@ == seq![digit_char(d as int)],
{
    if d == 0 {
        let r = "0";
        proof {
            reveal_strlit("0");
            assert(r@ =~= seq![digit_char(d as int)]);
        }
        r
    } else if d == 1 {
        let r = "1";
        proof {
            reveal_strlit("1");
            assert(r@ =~= seq![digit_char(d as int)]);
        }
        r
    } else if d == 2 {
        let r = "2";
        proof {
            reveal_strlit("2");
            assert(r@ =~= seq![digit_char(d as int)]);
        }
        r
    } else if d == 3 {
        let r = "3";
        proof {
            reveal_strlit("3");
            assert(r@ =~= seq![digit_char(d as int)]);
        }
        r
    } else if d == 4 {
        let r = "4";
        proof {
            reveal_strlit("4");
            assert(r@ =~= seq![digit_char(d as int)]);
        }
        r
    } else if d == 5 {
        let r = "5";
        proof {
            reveal_strlit("5");
            assert(r@ =~= seq![digit_char(d as int)]);
        }
        r
    } else if d == 6 {
        let r = "6";
        proof {
            reveal_strlit("6");
            assert(r@ =~= seq![digit_char(d as int)]);
        }
        r
    } else if d == 7 {
        let r = "7";
        proof {
            reveal_strlit("7");
            assert(r@ =~= seq![digit_char(d as int)]);
        }
        r
    } else if d == 8 {
        let r = "8";
        proof {
            reveal_strlit("8");
            assert(r@ =~= seq![digit_char(d as int)]);
        }
        r
    } else {
        let r = "9";
        proof {
            reveal_strlit("9");
            assert(r@ =~= seq![digit_char(d as int)]);
        }
        r
    }
}

/// Appends the decimal text of a number to a string.
pub fn push_dec(s: &mut String, n: u16)
    ensures
        final(s)@ == old(s)@ + dec_str(n as nat),
    decreases n,
{
    if n >= 10 {
        push_dec(s, n / 10);
    }
    let ghost mid = s@;
    s.append(digit_text((n % 10) as u8));
    proof {
        if n < 10 {
            assert(n % 10 == n);
            assert(final(s)@ =~= old(s)@ + dec_str(n as nat));
        } else {
            assert(mid == old(s)@ + dec_str((n / 10) as nat));
            assert(dec_str(n as nat) == dec_str(n as nat / 10) + seq![
                digit_char((n as nat % 10) as int),
            ]);
            assert(final(s)@ =~= old(s)@ + dec_str(n as nat));
        }
    }
}

/// The canonical dotted-quad text of an IPv4 address.
pub fn format_ip(ip: &IpAddress) -> (r: String)
    ensures
        r@ == ip_str(*ip),
{
    let mut s = String::new();
    push_dec(&mut s, ip.a as u16);
    s.append(".");
    push_dec(&mut s, ip.b as u16);
    s.append(".");
    push_dec(&mut s, ip.c as u16);
    s.append(".");
    push_dec(&mut s, ip.d as u16);
    proof {
        reveal_strlit(".");
        assert("."@ =~= seq!['.']);
        assert(s@ =~= ip_str(*ip));
    }
    s
}

/// Reading equal decimal texts gives equal numbers.
pub proof fn lemma_dec_str_injective(m: nat, n: nat)
    requires
        dec_str(m) == dec_str(n),
    ensures
        m == n,
{
    lemma_dec_value_dec_str(m);
    lemma_dec_value_dec_str(n);
}

/// A sequence that splits as decimal text, a non-digit separator, and a
/// remainder does so in only one way.
proof fn lemma_dec_sep_unique(
    s: Seq<char>,
    m: nat,
    r1: Seq<char>,
    n: nat,
    r2: Seq<char>,
    sep: char,
)
    requires
        !is_digit(sep),
        s == dec_str(m) + seq![sep] + r1,
        s == dec_str(n) + seq![sep] + r2,
    ensures
        m == n,
        r1 == r2,
{
    lemma_dec_str_shape(m);
    lemma_dec_str_shape(n);
    let lm = dec_str(m).len() as int;
    let ln = dec_str(n).len() as int;
    assert(s[lm] == sep);
    assert(s[ln] == sep);
    if lm < ln {
        assert(s[lm] == dec_str(n)[lm]);
        assert(is_digit(s[lm]));
        assert(false);
    }
    if ln < lm {
        assert(s[ln] == dec_str(m)[ln]);
        assert(is_digit(s[ln]));
        assert(false);
    }
    assert forall|i: int| 0 <= i < lm implies dec_str(m)[i] == dec_str(n)[i] by {
        assert((dec_str(m) + seq![sep] + r1)[i] == dec_str(m)[i]);
        assert((dec_str(n) + seq![sep] + r2)[i] == dec_str(n)[i]);
    }
    assert(dec_str(m) =~= dec_str(n));
    lemma_dec_str_injective(m, n);
    assert((dec_str(m) + seq![sep] + r1).len() == lm + 1 + r1.len());
    assert((dec_str(n) + seq![sep] + r2).len() == ln + 1 + r2.len());
    assert(r1.len() == r2.len());
    assert forall|i: int| 0 <= i < r1.len() implies r1[i] == r2[i] by {
        assert((dec_str(m) + seq![sep] + r1)[lm + 1 + i] == r1[i]);
        assert((dec_str(n) + seq![sep] + r2)[lm + 1 + i] == r2[i]);
    }
    assert(r1 =~= r2);
}

/// Every character of a dotted-quad text is a digit or a dot.
proof fn lemma_ip_str_chars(ip: IpAddress)
    ensures
        forall|i: int|
            0 <= i < ip_str(ip).len() ==> (is_digit(ip_str(ip)[i]) || ip_str(ip)[i] == '.'),
{
    lemma_dec_str_shape(ip.a as nat);
    lemma_dec_str_shape(ip.b as nat);
    lemma_dec_str_shape(ip.c as nat);
    lemma_dec_str_shape(ip.d as nat);
    let a = dec_str(ip.a as nat);
    let b = dec_str(ip.b as nat);
    let c = dec_str(ip.c as nat);
    let d = dec_str(ip.d as nat);
    let s = ip_str(ip);
    assert forall|i: int| 0 <= i < s.len() implies (is_digit(s[i]) || s[i] == '.') by {
        if i < a.len() {
            assert(s[i] == a[i]);
        } else if i == a.len() {
            assert(s[i] == '.');
        } else if i < a.len() + 1 + b.len() {
            assert(s[i] == b[i - a.len() - 1]);
        } else if i == a.len() + 1 + b.len() {
            assert(s[i] == '.');
        } else if i < a.len() + 1 + b.len() + 1 + c.len() {
            assert(s[i] == c[i - a.len() - 1 - b.len() - 1]);
        } else if i == a.len() + 1 + b.len() + 1 + c.len() {
            assert(s[i] == '.');
        } else {
            assert(s[i] == d[i - a.len() - 1 - b.len() - 1 - c.len() - 1]);
        }
    }
}

/// Equal dotted-quad texts come from equal addresses.
#[verifier::rlimit(50)]
pub proof fn lemma_ip_str_injective(x: IpAddress, y: IpAddress)
    requires
        ip_str(x) == ip_str(y),
    ensures
        x == y,
{
    let s = ip_str(x);
    let rx1 = dec_str(x.b as nat) + seq!['.'] + dec_str(x.c as nat) + seq!['.'] + dec_str(
        x.d as nat,
    );
    let ry1 = dec_str(y.b as nat) + seq!['.'] + dec_str(y.c as nat) + seq!['.'] + dec_str(
        y.d as nat,
    );
    assert(s =~= dec_str(x.a as nat) + seq!['.'] + rx1);
    assert(s =~= dec_str(y.a as nat) + seq!['.'] + ry1);
    lemma_dec_sep_unique(s, x.a as nat, rx1, y.a as nat, ry1, '.');
    let rx2 = dec_str(x.c as nat) + seq!['.'] + dec_str(x.d as nat);
    let ry2 = dec_str(y.c as nat) + seq!['.'] + dec_str(y.d as nat);
    assert(rx1 =~= dec_str(x.b as nat) + seq!['.'] + rx2);
    assert(ry1 =~= dec_str(y.b as nat) + seq!['.'] + ry2);
    lemma_dec_sep_unique(rx1, x.b as nat, rx2, y.b as nat, ry2, '.');
    lemma_dec_sep_unique(rx2, x.c as nat, dec_str(x.d as nat), y.c as nat, dec_str(y.d as nat), '.');
    lemma_dec_str_injective(x.d as nat, y.d as nat);
}

/// The index of the first occurrence of a character, if any.
pub fn find_char(s: &str, sep: char) -> (r: Option<usize>)
    ensures
        match r {
            Some(i) => i < s@.len() && s@[i as int] == sep && (forall|j: int|
                0 <= j < i ==> s@[j] != sep),
            None => forall|j: int| 0 <= j < s@.len() ==> s@[j] != sep,
        },
{
    let n = s.unicode_len();
    let mut i: usize = 0;
    while i < n
        invariant
            n == s@.len(),
            0 <= i <= n,
            forall|j: int| 0 <= j < i ==> s@[j] != sep,
        decreases n - i,
    {
        let c = s.get_char(i);
        if c == sep {
            return Some(i);
        }
        i = i + 1;
    }
    None
}

/// Reads a run of decimal digits, clamping the value at one past the largest
/// port number so that an out-of-range run is still detected.
fn parse_dec_clamped(s: &str) -> (r: Option<u32>)
    ensures
        match r {
            Some(v) => s@.len() >= 1 && all_digits(s@) && (dec_value(s@) <= 65535 ==> v
                == dec_value(s@)) && (dec_value(s@) > 65535 ==> v == 65536),
            None => s@.len() == 0 || !all_digits(s@),
        },
{
    let n = s.unicode_len();
    if n == 0 {
        return None;
    }
    let mut i: usize = 0;
    let mut acc: u32 = 0;
    while i < n
        invariant
            n == s@.len(),
            0 <= i <= n,
            all_digits(s@.subrange(0, i as int)),
            dec_value(s@.subrange(0, i as int)) <= 65535 ==> acc == dec_value(
                s@.subrange(0, i as int),
            ),
            dec_value(s@.subrange(0, i as int)) > 65535 ==> acc == 65536,
            acc <= 65536,
        decreases n - i,
    {
        let c = s.get_char(i);
        let cv = c as u32;
        if cv < 48 || cv > 57 {
            proof {
                assert(!is_digit(s@[i as int]));
            }
            return None;
        }
        let d: u32 = cv - 48;
        proof {
            let p = s@.subrange(0, i as int);
            let q = s@.subrange(0, i + 1 as int);
            assert(q.drop_last() =~= p);
            assert(q.last() == s@[i as int]);
            assert(dec_value(q) == 10 * dec_value(p) + char_digit(s@[i as int]) as nat);
            assert(all_digits(q)) by {
                assert(forall|j: int| 0 <= j < q.len() ==> q[j] == s@[j]);
            }
        }
        acc = acc * 10 + d;
        if acc > 65535 {
            acc = 65536;
        }
        i = i + 1;
    }
    proof {
        assert(s@.subrange(0, n as int) =~= s@);
    }
    Some(acc)
}

/// Accepts exactly the canonical decimal text of a sixteen-bit number.
pub fn parse_canonical_u16(s: &str) -> (r: Option<u16>)
    ensures
        match r {
            Some(v) => s@ == dec_str(v as nat),
            None => forall|v: u16| s@ != dec_str(v as nat),
        },
{
    match parse_dec_clamped(s) {
        None => {
            proof {
                assert forall|v: u16| s@ != dec_str(v as nat) by {
                    lemma_dec_str_shape(v as nat);
                }
            }
            None
        },
        Some(v) => {
            let n = s.unicode_len();
            if n > 1 && s.get_char(0) == '0' {
                proof {
                    assert forall|v2: u16| s@ != dec_str(v2 as nat) by {
                        lemma_dec_str_shape(v2 as nat);
                    }
                }
                None
            } else if v > 65535 {
                proof {
                    assert forall|v2: u16| s@ != dec_str(v2 as nat) by {
                        if s@ == dec_str(v2 as nat) {
                            lemma_dec_value_dec_str(v2 as nat);
                        }
                    }
                }
                None
            } else {
                proof {
                    lemma_canonical_digits(s@);
                }
                Some(v as u16)
            }
        },
    }
}

/// Accepts exactly the canonical decimal text of an octet.
pub fn parse_octet(s: &str) -> (r: Option<u8>)
    ensures
        match r {
            Some(v) => s@ == dec_str(v as nat),
            None => forall|v: u8| s@ != dec_str(v as nat),
        },
{
    match parse_canonical_u16(s) {
        None => {
            proof {
                assert forall|v: u8| s@ != dec_str(v as nat) by {
                    assert(s@ != dec_str((v as u16) as nat));
                }
            }
            None
        },
        Some(v) => {
            if v <= 255 {
                Some(v as u8)
            } else {
                proof {
                    assert forall|v2: u8| s@ != dec_str(v2 as nat) by {
                        if s@ == dec_str(v2 as nat) {
                            lemma_dec_str_injective(v as nat, v2 as nat);
                        }
                    }
                }
                None
            }
        },
    }
}

/// Whether a sequence starts with the decimal text of an octet followed by a
/// dot, with the given remainder after the dot.
pub open spec fn octet_dot_head(s: Seq<char>, v: u8, rest: Seq<char>) -> bool {
    s == dec_str(v as nat) + seq!['.'] + rest
}

/// Splits off a leading `octet.` from a dotted text.
fn parse_octet_dot<'a>(s: &'a str) -> (r: Option<(u8, &'a str)>)
    ensures
        match r {
            Some(p) => octet_dot_head(s@, p.0, p.1@),
            None => forall|v: u8, rest: Seq<char>| !octet_dot_head(s@, v, rest),
        },
{
    let n = s.unicode_len();
    match find_char(s, '.') {
        None => {
            proof {
                assert forall|v: u8, rest: Seq<char>| !octet_dot_head(s@, v, rest) by {
                    if octet_dot_head(s@, v, rest) {
                        lemma_dec_str_shape(v as nat);
                        let lv = dec_str(v as nat).len() as int;
                        assert(s@[lv] == '.');
                    }
                }
            }
            None
        },
        Some(p) => {
            let g = s.substring_char(0, p);
            let rest = s.substring_char(p + 1, n);
            proof {
                assert(s@ =~= s@.subrange(0, p as int) + seq![s@[p as int]] + s@.subrange(
                    p + 1 as int,
                    n as int,
                ));
            }
            match parse_octet(g) {
                None => {
                    proof {
                        assert forall|v: u8, rest2: Seq<char>| !octet_dot_head(s@, v, rest2) by {
                            if octet_dot_head(s@, v, rest2) {
                                lemma_dec_str_shape(v as nat);
                                lemma_first_sep(s@, dec_str(v as nat), '.', rest2, p as int);
                                assert(g@ == dec_str(v as nat));
                            }
                        }
                    }
                    None
                },
                Some(v) => {
                    proof {
                        assert(octet_dot_head(s@, v, rest@));
                    }
                    Some((v, rest))
                },
            }
        },
    }
}

/// A sequence that splits as a separator-free prefix, the separator, and a
/// remainder splits exactly at the first occurrence of the separator.
proof fn lemma_first_sep(s: Seq<char>, pre: Seq<char>, sep: char, rest: Seq<char>, p: int)
    requires
        s == pre + seq![sep] + rest,
        forall|i: int| 0 <= i < pre.len() ==> pre[i] != sep,
        0 <= p < s.len(),
        s[p] == sep,
        forall|j: int| 0 <= j < p ==> s[j] != sep,
    ensures
        p == pre.len(),
        pre == s.subrange(0, p),
        rest == s.subrange(p + 1, s.len() as int),
{
    assert(s[pre.len() as int] == sep);
    if p < pre.len() {
        assert(s[p] == pre[p]);
        assert(false);
    }
    if p > pre.len() {
        assert(false);
    }
    assert(pre =~= s.subrange(0, p)) by {
        assert(forall|i: int| 0 <= i < pre.len() ==> s[i] == pre[i]);
    }
    assert(rest =~= s.subrange(p + 1, s.len() as int)) by {
        assert(forall|i: int| 0 <= i < rest.len() ==> s[p + 1 + i] == rest[i]);
    }
}

/// Accepts exactly the canonical dotted-quad text of an IPv4 address.
pub fn parse_ipv4(s: &str) -> (r: Option<IpAddress>)
    ensures
        match r {
            Some(ip) => s@ == ip_str(ip),
            None => forall|ip: IpAddress| s@ != ip_str(ip),
        },
{
    let r1 = match parse_octet_dot(s) {
        None => {
            proof {
                assert forall|ip: IpAddress| s@ != ip_str(ip) by {
                    if s@ == ip_str(ip) {
                        let rest = dec_str(ip.b as nat) + seq!['.'] + dec_str(ip.c as nat)
                            + seq!['.'] + dec_str(ip.d as nat);
                        assert(s@ =~= dec_str(ip.a as nat) + seq!['.'] + rest);
                        assert(octet_dot_head(s@, ip.a, rest));
                    }
                }
            }
            return None;
        },
        Some(p) => p,
    };
    let a = r1.0;
    let r2 = match parse_octet_dot(r1.1) {
        None => {
            proof {
                assert forall|ip: IpAddress| s@ != ip_str(ip) by {
                    if s@ == ip_str(ip) {
                        let resta = dec_str(ip.b as nat) + seq!['.'] + dec_str(ip.c as nat)
                            + seq!['.'] + dec_str(ip.d as nat);
                        assert(s@ =~= dec_str(ip.a as nat) + seq!['.'] + resta);
                        lemma_dec_sep_unique(s@, a as nat, r1.1@, ip.a as nat, resta, '.');
                        let restb = dec_str(ip.c as nat) + seq!['.'] + dec_str(ip.d as nat);
                        assert(r1.1@ =~= dec_str(ip.b as nat) + seq!['.'] + restb);
                        assert(octet_dot_head(r1.1@, ip.b, restb));
                    }
                }
            }
            return None;
        },
        Some(p) => p,
    };
    let b = r2.0;
    let r3 = match parse_octet_dot(r2.1) {
        None => {
            proof {
                assert forall|ip: IpAddress| s@ != ip_str(ip) by {
                    if s@ == ip_str(ip) {
                        let resta = dec_str(ip.b as nat) + seq!['.'] + dec_str(ip.c as nat)
                            + seq!['.'] + dec_str(ip.d as nat);
                        assert(s@ =~= dec_str(ip.a as nat) + seq!['.'] + resta);
                        lemma_dec_sep_unique(s@, a as nat, r1.1@, ip.a as nat, resta, '.');
                        let restb = dec_str(ip.c as nat) + seq!['.'] + dec_str(ip.d as nat);
                        assert(r1.1@ =~= dec_str(ip.b as nat) + seq!['.'] + restb);
                        lemma_dec_sep_unique(r1.1@, b as nat, r2.1@, ip.b as nat, restb, '.');
                        assert(octet_dot_head(r2.1@, ip.c, dec_str(ip.d as nat)));
                    }
                }
            }
            return None;
        },
        Some(p) => p,
    };
    let c = r3.0;
    match parse_octet(r3.1) {
        None => {
            proof {
                assert forall|ip: IpAddress| s@ != ip_str(ip) by {
                    if s@ == ip_str(ip) {
                        let resta = dec_str(ip.b as nat) + seq!['.'] + dec_str(ip.c as nat)
                            + seq!['.'] + dec_str(ip.d as nat);
                        assert(s@ =~= dec_str(ip.a as nat) + seq!['.'] + resta);
                        lemma_dec_sep_unique(s@, a as nat, r1.1@, ip.a as nat, resta, '.');
                        let restb = dec_str(ip.c as nat) + seq!['.'] + dec_str(ip.d as nat);
                        assert(r1.1@ =~= dec_str(ip.b as nat) + seq!['.'] + restb);
                        lemma_dec_sep_unique(r1.1@, b as nat, r2.1@, ip.b as nat, restb, '.');
                        lemma_dec_sep_unique(
                            r2.1@,
                            c as nat,
                            r3.1@,
                            ip.c as nat,
                            dec_str(ip.d as nat),
                            '.',
                        );
                        assert(r3.1@ == dec_str(ip.d as nat));
                    }
                }
            }
            None
        },
        Some(d) => {
            let ip = IpAddress { a, b, c, d };
            proof {
                assert(s@ =~= ip_str(ip));
            }
            Some(ip)
        },
    }
}

/// Accepts exactly the canonical `a.b.c.d:port` text of an address.
pub fn parse_addr(s: &str) -> (r: Option<SocketAddress>)
    ensures
        match r {
            Some(t) => s@ == addr_str(t),
            None => forall|t: SocketAddress| s@ != addr_str(t),
        },
{
    let n = s.unicode_len();
    match find_char(s, ':') {
        None => {
            proof {
                assert forall|t: SocketAddress| s@ != addr_str(t) by {
                    if s@ == addr_str(t) {
                        let li = ip_str(t.ip).len() as int;
                        assert(s@[li] == ':');
                    }
                }
            }
            None
        },
        Some(p) => {
            let left = s.substring_char(0, p);
            let right = s.substring_char(p + 1, n);
            proof {
                assert(s@ =~= s@.subrange(0, p as int) + seq![s@[p as int]] + s@.subrange(
                    p + 1 as int,
                    n as int,
                ));
            }
            match parse_ipv4(left) {
                None => {
                    proof {
                        assert forall|t: SocketAddress| s@ != addr_str(t) by {
                            if s@ == addr_str(t) {
                                lemma_ip_str_chars(t.ip);
                                lemma_first_sep(
                                    s@,
                                    ip_str(t.ip),
                                    ':',
                                    dec_str(t.port as nat),
                                    p as int,
                                );
                                assert(left@ == ip_str(t.ip));
                            }
                        }
                    }
                    None
                },
                Some(ip) => {
                    match parse_canonical_u16(right) {
                        None => {
                            proof {
                                assert forall|t: SocketAddress| s@ != addr_str(t) by {
                                    if s@ == addr_str(t) {
                                        lemma_ip_str_chars(t.ip);
                                        lemma_first_sep(
                                            s@,
                                            ip_str(t.ip),
                                            ':',
                                            dec_str(t.port as nat),
                                            p as int,
                                        );
                                        assert(right@ == dec_str(t.port as nat));
                                    }
                                }
                            }
                            None
                        },
                        Some(port) => {
                            let t = SocketAddress { ip, port };
                            proof {
                                assert(s@ =~= addr_str(t));
                            }
                            Some(t)
                        },
                    }
                },
            }
        },
    }
}

/// The digits of a port field: one optional leading plus sign is allowed.
pub open spec fn port_digits(s: Seq<char>) -> Seq<char> {
    if s.len() >= 1 && s[0] == '+' {
        s.skip(1)
    } else {
        s
    }
}

/// Whether a port field holds a number: an optional plus sign, then one or
/// more digits.
pub open spec fn is_port_text(s: Seq<char>) -> bool {
    port_digits(s).len() >= 1 && all_digits(port_digits(s))
}

/// Reads a port field as a sixteen-bit number, as the number parser of the
/// standard library would: an optional leading plus sign, one or more
/// digits, leading zeros allowed, value at most the largest port.
pub fn parse_port_text(s: &str) -> (r: Option<u16>)
    ensures
        match r {
            Some(p) => is_port_text(s@) && dec_value(port_digits(s@)) == p as nat,
            None => !is_port_text(s@) || dec_value(port_digits(s@)) > 65535,
        },
{
    let n = s.unicode_len();
    let body = if n >= 1 && s.get_char(0) == '+' {
        let b = s.substring_char(1, n);
        proof {
            assert(b@ =~= port_digits(s@));
        }
        b
    } else {
        proof {
            assert(s@ =~= port_digits(s@));
        }
        s
    };
    match parse_dec_clamped(body) {
        None => None,
        Some(v) => {
            if v <= 65535 {
                Some(v as u16)
            } else {
                None
            }
        },
    }
}

/// The canonical `a.b.c.d:port` text of an address.
pub fn format_addr(t: &SocketAddress) -> (r: String)
    ensures
        r@ == addr_str(*t),
{
    let mut s = format_ip(&t.ip);
    s.append(":");
    push_dec(&mut s, t.port);
    proof {
        reveal_strlit(":");
        assert(":"@ =~= seq![':']);
        assert(s@ =~= addr_str(*t));
    }
    s
}

} // verus!
