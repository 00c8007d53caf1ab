//! The server's configuration, read from its command-line argument.
use vstd::prelude::*;

verus! {

/// `c` is one of the ASCII digits.
pub open spec fn is_digit(c: char) -> bool {
    '0' <= c <= '9'
}

/// The value of a string of decimal digits.
pub open spec fn decimal_value(s: Seq<char>) -> nat
    decreases s.len(),
{
    if s.len() == 0 {
        0
    } else {
        decimal_value(s.drop_last()) * 10 + ((s.last() as u32) - 48) as nat
    }
}

/// `s` without its leading `+`, if it has one.
pub open spec fn unsigned_part(s: Seq<char>) -> Seq<char> {
    if s.len() > 0 && s[0] == '+' {
        s.drop_first()
    } else {
        s
    }
}

/// Every character of `t` is a digit.
pub open spec fn all_digits(t: Seq<char>) -> bool {
    forall|i: int| 0 <= i < t.len() ==> is_digit(#[trigger] t[i])
}

/// The `u16` that `s` writes in decimal, with an optional leading `+`; none
/// when `s` holds anything else or a larger number.
pub open spec fn decimal_u16(s: Seq<char>) -> Option<u16> {
    let digits = unsigned_part(s);
    if digits.len() > 0 && all_digits(digits) && decimal_value(digits) <= u16::MAX {
        Some(decimal_value(digits) as u16)
    } else {
        None
    }
}

/// A longer string of digits has at least the value of its prefixes.
proof fn lemma_decimal_prefix(t: Seq<char>, k: int)
    requires
        0 <= k <= t.len(),
        all_digits(t),
    ensures
        decimal_value(t.take(k)) <= decimal_value(t),
    decreases t.len(),
{
    if k == t.len() {
        assert(t.take(k) =~= t);
    } else {
        let front = t.drop_last();
        assert(front.take(k) =~= t.take(k));
        assert(is_digit(t[t.len() - 1]));
        lemma_decimal_prefix(front, k);
    }
}

/// Reads a `u16` written in decimal, as `decimal_u16` describes.
pub fn parse_u16(text: &str) -> (r: Option<u16>)
    ensures
        r == decimal_u16(text@),
{
    let ghost s = text@;
    let n = text.unicode_len();
    let start: usize = if n > 0 && text.get_char(0) == '+' {
        1
    } else {
        0
    };
    let ghost digits = unsigned_part(s);
    assert(digits =~= s.subrange(start as int, n as int));
    if start == n {
        return None;
    }
    let mut value: u32 = 0;
    let mut i: usize = start;
    while i < n
        invariant
            start <= i <= n,
            start < n,
            n == s.len(),
            text@ == s,
            digits == s.subrange(start as int, n as int),
            digits == unsigned_part(s),
            value == decimal_value(s.subrange(start as int, i as int)),
            value <= u16::MAX,
            forall|j: int| start <= j < i ==> is_digit(#[trigger] s[j]),
        decreases n - i,
    {
        let c = text.get_char(i);
        if !('0' <= c && c <= '9') {
            assert(!is_digit(digits[i - start]));
            return None;
        }
        let ghost before = s.subrange(start as int, i as int);
        let ghost after = s.subrange(start as int, i + 1);
        assert(after.drop_last() =~= before);
        value = value * 10 + (c as u32 - 48);
        assert(value == decimal_value(after));
        if value > 65535 {
            proof {
                if all_digits(digits) {
                    assert(digits.take(i + 1 - start) =~= after);
                    lemma_decimal_prefix(digits, i + 1 - start);
                }
            }
            return None;
        }
        i = i + 1;
    }
    assert(s.subrange(start as int, i as int) =~= digits);
    assert(all_digits(digits)) by {
        assert forall|j: int| 0 <= j < digits.len() implies is_digit(#[trigger] digits[j]) by {
            assert(digits[j] == s[j + start]);
        }
    }
    Some(value as u16)
}

pub struct ServerConfig {
    pub port: u16,
}

impl ServerConfig {
    /// The configuration for the TCP port argument, if one was given.
    pub fn from_port_arg(port: Option<String>) -> (r: Result<ServerConfig, &'static str>)
        ensures
            port is None ==> (r matches Err(e) && e@ == "Nenhuma porta especificada"@),
            port matches Some(p) ==> match decimal_u16(p@) {
                Some(n) => r matches Ok(c) && c.port == n,
                None => r matches Err(e) && e@ == "A porta deve ser um inteiro unsigned de 16 bits"@,
            },
    {
        let port = match port {
            Some(port) => port,
            None => {
                return Err("Nenhuma porta especificada");
            },
        };
        match parse_u16(port.as_str()) {
            Some(port) => Ok(ServerConfig { port }),
            None => Err("A porta deve ser um inteiro unsigned de 16 bits"),
        }
    }
}

} // verus!
