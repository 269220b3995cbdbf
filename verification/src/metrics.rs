//! The answer of the proxy's metrics endpoint: an HTTP response whose body is
//! the three counters in the Prometheus text format.
use vstd::prelude::*;
use crate::text::{chars_of, concat_chars, string_of};

verus! {

/// The character of a decimal digit.
pub open spec fn digit_char(d: nat) -> char {
    if d == 0 {
        '0'
    } else if d == 1 {
        '1'
    } else if d == 2 {
        '2'
    } else if d == 3 {
        '3'
    } else if d == 4 {
        '4'
    } else if d == 5 {
        '5'
    } else if d == 6 {
        '6'
    } else if d == 7 {
        '7'
    } else if d == 8 {
        '8'
    } else {
        '9'
    }
}

/// The decimal digits of `n`, most significant first, without leading zeros
/// (what `Display` writes for an unsigned integer).
pub open spec fn decimal(n: nat) -> Seq<char>
    decreases n,
{
    if n < 10 {
        seq![digit_char(n)]
    } else {
        decimal(n / 10).push(digit_char(n % 10))
    }
}

/// The character of the digit `d`.
fn digit(d: usize) -> (c: char)
    requires
        d < 10,
    ensures
        c == digit_char(d as nat),
{
    match d {
        0 => '0',
        1 => '1',
        2 => '2',
        3 => '3',
        4 => '4',
        5 => '5',
        6 => '6',
        7 => '7',
        8 => '8',
        _ => '9',
    }
}

/// The decimal digits of `n`.
fn decimal_chars(n: usize) -> (v: Vec<char>)
    ensures
        v@ == decimal(n as nat),
    decreases n,
{
    if n < 10 {
        let mut v: Vec<char> = Vec::new();
        v.push(digit(n));
        proof {
            assert(v@ =~= seq![digit_char(n as nat)]);
        }
        v
    } else {
        let mut v = decimal_chars(n / 10);
        v.push(digit(n % 10));
        v
    }
}

/// The metrics response for the counters of active connections, bytes
/// relayed and requests completed.
pub open spec fn metrics_text(connections: nat, bytes: nat, requests: nat) -> Seq<char> {
    "HTTP/1.1 200 OK\r\nContent-Type: text/plain; version=0.0.4\r\nConnection: close\r\n\r\n# HELP aegis_active_connections Numero de conexiones activas\n# TYPE aegis_active_connections gauge\naegis_active_connections "@
        + decimal(connections)
        + "\n# HELP aegis_total_bytes Total de bytes\n# TYPE aegis_total_bytes counter\naegis_total_bytes "@
        + decimal(bytes)
        + "\n# HELP aegis_total_requests Total de peticiones completadas\n# TYPE aegis_total_requests counter\naegis_total_requests "@
        + decimal(requests) + "\n"@
}

/// The HTTP response of the metrics endpoint.
pub fn metrics_response(connections: usize, bytes: usize, requests: usize) -> (s: String)
    ensures
        s@ == metrics_text(connections as nat, bytes as nat, requests as nat),
{
    let p1 = chars_of(
        "HTTP/1.1 200 OK\r\nContent-Type: text/plain; version=0.0.4\r\nConnection: close\r\n\r\n# HELP aegis_active_connections Numero de conexiones activas\n# TYPE aegis_active_connections gauge\naegis_active_connections ",
    );
    let p2 = chars_of(
        "\n# HELP aegis_total_bytes Total de bytes\n# TYPE aegis_total_bytes counter\naegis_total_bytes ",
    );
    let p3 = chars_of(
        "\n# HELP aegis_total_requests Total de peticiones completadas\n# TYPE aegis_total_requests counter\naegis_total_requests ",
    );
    let p4 = chars_of("\n");
    let a = concat_chars(&p1, &decimal_chars(connections));
    let b = concat_chars(&a, &p2);
    let c = concat_chars(&b, &decimal_chars(bytes));
    let d = concat_chars(&c, &p3);
    let e = concat_chars(&d, &decimal_chars(requests));
    let f = concat_chars(&e, &p4);
    string_of(f.as_slice())
}

/// The number that a text of decimal digits reads as: each character counts
/// as its distance from `'0'`, the last character is the units.
pub open spec fn decimal_value(s: Seq<char>) -> int
    decreases s.len(),
{
    if s.len() == 0 {
        0
    } else {
        10 * decimal_value(s.drop_last()) + (s.last() as int - '0' as int)
    }
}

/// A digit's character is the one that many places after `'0'`.
proof fn lemma_digit_char(d: nat)
    requires
        d < 10,
    ensures
        digit_char(d) as int == '0' as int + d,
{
    if d == 0 {
    } else if d == 1 {
    } else if d == 2 {
    } else if d == 3 {
    } else if d == 4 {
    } else if d == 5 {
    } else if d == 6 {
    } else if d == 7 {
    } else if d == 8 {
    } else {
    }
}

/// The decimal text of a counter reads back as the counter: it is made of
/// the characters `'0'` to `'9'` only, it has no leading zero, and the digits,
/// weighted by powers of ten, add up to the number.
pub proof fn lemma_decimal_reads_back(n: nat)
    ensures
        decimal(n).len() >= 1,
        n >= 10 ==> decimal(n).len() >= 2,
        forall|i: int| 0 <= i < decimal(n).len() ==> '0' <= #[trigger] decimal(n)[i] && decimal(n)[i] <= '9',
        decimal(n).len() > 1 ==> decimal(n)[0] != '0',
        decimal_value(decimal(n)) == n,
    decreases n,
{
    lemma_digit_char(n % 10);
    if n < 10 {
        assert(seq![digit_char(n)].drop_last() =~= Seq::<char>::empty());
        assert(n % 10 == n);
        assert(decimal_value(decimal(n)) == 10 * decimal_value(Seq::<char>::empty()) + (digit_char(n) as int - '0' as int));
    } else {
        lemma_decimal_reads_back(n / 10);
        let front = decimal(n / 10);
        assert(decimal(n).drop_last() =~= front);
        assert forall|i: int| 0 <= i < decimal(n).len() implies '0' <= #[trigger] decimal(n)[i] && decimal(n)[i]
            <= '9' by {
            if i < front.len() {
                assert(decimal(n)[i] == front[i]);
            }
        }
        if front.len() == 1 {
            assert(n / 10 < 10);
            assert(front[0] == digit_char(n / 10));
            lemma_digit_char(n / 10);
            assert(n / 10 >= 1);
            assert(front[0] as int != '0' as int);
        }
        assert(decimal(n)[0] == front[0]);
        assert(front[0] != '0');
        assert(decimal(n).last() == digit_char(n % 10));
        assert(n == 10 * (n / 10) + n % 10);
        assert(decimal_value(decimal(n)) == 10 * decimal_value(front) + (decimal(n).last() as int - '0' as int));
    }
}

} // verus!
