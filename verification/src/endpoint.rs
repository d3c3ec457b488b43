//! Endpoint names: the strings of the form `scheme://host:port` by which
//! nodes are known to the slot map and the connection pool.

use vstd::prelude::*;
use vstd::string::StringExecFns;

verus! {

/// The character of a decimal digit.
pub open spec fn digit_char(digit: int) -> char {
    if digit == 0 {
        '0'
    } else if digit == 1 {
        '1'
    } else if digit == 2 {
        '2'
    } else if digit == 3 {
        '3'
    } else if digit == 4 {
        '4'
    } else if digit == 5 {
        '5'
    } else if digit == 6 {
        '6'
    } else if digit == 7 {
        '7'
    } else if digit == 8 {
        '8'
    } else {
        '9'
    }
}

/// The decimal digits of a natural number, most significant first, without
/// leading zeros.
pub open spec fn digits(n: nat) -> Seq<char>
    decreases n,
{
    if n < 10 {
        seq![digit_char(n as int)]
    } else {
        digits(n / 10).push(digit_char((n % 10) as int))
    }
}

/// The decimal notation of an integer: a minus sign for a negative number,
/// then the digits of its magnitude.
pub open spec fn decimal(n: int) -> Seq<char> {
    if n < 0 {
        seq!['-'] + digits((-n) as nat)
    } else {
        digits(n as nat)
    }
}

/// The scheme prefix of an endpoint name: `rediss://` for a node reached
/// over TLS, `redis://` otherwise.
pub open spec fn scheme_prefix(tls: bool) -> Seq<char> {
    if tls {
        seq!['r', 'e', 'd', 'i', 's', 's', ':', '/', '/']
    } else {
        seq!['r', 'e', 'd', 'i', 's', ':', '/', '/']
    }
}

/// The name of the endpoint at `host` and `port`: the scheme prefix, the
/// host, a colon and the port in decimal.
pub open spec fn endpoint_name(tls: bool, host: Seq<char>, port: int) -> Seq<char> {
    scheme_prefix(tls) + host + seq![':'] + decimal(port)
}

/// Appends one decimal digit to `out`.
fn push_digit(out: &mut String, digit: u64)
    requires
        digit < 10,
    ensures
        final(out)@ == old(out)@.push(digit_char(digit as int)),
{
    proof {
        reveal_strlit("0");
        reveal_strlit("1");
        reveal_strlit("2");
        reveal_strlit("3");
        reveal_strlit("4");
        reveal_strlit("5");
        reveal_strlit("6");
        reveal_strlit("7");
        reveal_strlit("8");
        reveal_strlit("9");
    }
    let text = if digit == 0 {
        "0"
    } else if digit == 1 {
        "1"
    } else if digit == 2 {
        "2"
    } else if digit == 3 {
        "3"
    } else if digit == 4 {
        "4"
    } else if digit == 5 {
        "5"
    } else if digit == 6 {
        "6"
    } else if digit == 7 {
        "7"
    } else if digit == 8 {
        "8"
    } else {
        "9"
    };
    out.append(text);
}

/// Appends the decimal digits of `n` to `out`.
fn push_digits(out: &mut String, n: u64)
    ensures
        final(out)@ == old(out)@ + digits(n as nat),
    decreases n,
{
    if n >= 10 {
        push_digits(out, n / 10);
    }
    push_digit(out, n % 10);
}

/// Appends the decimal notation of `n` to `out`.
pub fn push_decimal(out: &mut String, n: i64)
    ensures
        final(out)@ == old(out)@ + decimal(n as int),
{
    if n < 0 {
        proof {
            reveal_strlit("-");
        }
        out.append("-");
        let magnitude: u64 = (-(n + 1)) as u64 + 1;
        push_digits(out, magnitude);
    } else {
        push_digits(out, n as u64);
    }
}

/// Writes the decimal notation of `n`.
pub fn decimal_string(n: i64) -> (text: String)
    ensures
        text@ == decimal(n as int),
{
    let mut text = String::new();
    push_decimal(&mut text, n);
    text
}

/// Names the endpoint at `host` and `port`, as `redis://host:port`, or as
/// `rediss://host:port` for a node reached over TLS.
pub fn node_endpoint(tls: bool, host: &str, port: i64) -> (name: String)
    ensures
        name@ == endpoint_name(tls, host@, port as int),
{
    proof {
        reveal_strlit("redis://");
        reveal_strlit("rediss://");
        reveal_strlit(":");
    }
    let mut name = if tls {
        String::from_str("rediss://")
    } else {
        String::from_str("redis://")
    };
    name.append(host);
    name.append(":");
    push_decimal(&mut name, port);
    name
}

} // verus!
