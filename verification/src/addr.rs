//! The listener's bind address: an IP given as text and a port number,
//! rendered as the `ip:port` form that a TCP bind call takes.

use vstd::prelude::*;

verus! {

/// The decimal digit `d` as a character.
pub open spec fn digit_char(d: nat) -> char {
    if d == 0 {
        '0'
    } else if d == 1 {
        '1'
    } else if d == 2 {
        '2'
    } else if d == 3 {
        '3'
    } else if d == 4 {
        '4'
    } else if d == 5 {
        '5'
    } else if d == 6 {
        '6'
    } else if d == 7 {
        '7'
    } else if d == 8 {
        '8'
    } else {
        '9'
    }
}

/// The decimal digits of `n` as characters, most significant first.
pub open spec fn dec_chars(n: nat) -> Seq<char>
    decreases n,
{
    if n < 10 {
        seq![digit_char(n)]
    } else {
        dec_chars(n / 10).push(digit_char(n % 10))
    }
}

/// The decimal digit `d` as a one-character string slice.
fn digit_str(d: u32) -> (r: &'static str)
    requires
        d < 10,
    ensures
        r@ == seq![digit_char(d as nat)],
{
    proof {
        reveal_strlit("0");
        reveal_strlit("1");
        reveal_strlit("2");
        reveal_strlit("3");
        reveal_strlit("4");
        reveal_strlit("5");
        reveal_strlit("6");
        reveal_strlit("7");
        reveal_strlit("8");
        reveal_strlit("9");
    }
    if d == 0 {
        "0"
    } else if d == 1 {
        "1"
    } else if d == 2 {
        "2"
    } else if d == 3 {
        "3"
    } else if d == 4 {
        "4"
    } else if d == 5 {
        "5"
    } else if d == 6 {
        "6"
    } else if d == 7 {
        "7"
    } else if d == 8 {
        "8"
    } else {
        "9"
    }
}

/// Appends the decimal rendering of `n` to `out`.
fn append_dec_u32(out: &mut String, n: u32)
    ensures
        final(out)@ == old(out)@ + dec_chars(n as nat),
    decreases n,
{
    if n >= 10 {
        append_dec_u32(out, n / 10);
    }
    out.append(digit_str(n % 10));
    proof {
        assert(final(out)@ =~= old(out)@ + dec_chars(n as nat));
    }
}

/// An address the listener binds to: IP text plus a port.
pub struct ServerAddr {
    pub ip: String,
    pub port: u32,
}

impl ServerAddr {
    /// An address with the given IP text and port.
    pub fn new(ip: &str, port: u32) -> (r: ServerAddr)
        ensures
            r.ip@ == ip@,
            r.port == port,
    {
        ServerAddr { ip: String::from_str(ip), port }
    }

    /// The loopback address at the given port.
    pub fn local_at(port: u32) -> (r: ServerAddr)
        ensures
            r.ip@ == "127.0.0.1"@,
            r.port == port,
    {
        ServerAddr::new("127.0.0.1", port)
    }

    /// The `ip:port` form handed to a TCP bind call.
    pub fn to_bind_string(&self) -> (r: String)
        ensures
            r@ == self.ip@ + seq![':'] + dec_chars(self.port as nat),
    {
        let mut out = String::from_str(self.ip.as_str());
        proof {
            reveal_strlit(":");
        }
        out.append(":");
        let ghost mid = out@;
        proof {
            assert(mid =~= self.ip@ + seq![':']);
        }
        append_dec_u32(&mut out, self.port);
        proof {
            assert(out@ =~= self.ip@ + seq![':'] + dec_chars(self.port as nat));
        }
        out
    }
}

} // verus!
