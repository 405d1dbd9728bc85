//! Address handling: the library's own IPv4 socket address value, and the
//! verified parts of turning a user-supplied `host` or `host:port` string into
//! one. Name resolution itself is an outside collaborator: the embedding
//! program resolves the host part and hands the candidate addresses back as
//! plain values, IPv4 ones as `Some` of the packed octets and anything else as
//! `None`.

use vstd::prelude::*;
use vstd::string::StrSliceExecFns;

verus! {

/// An IPv4 socket address: the four octets packed big-endian into one
/// integer, and the port.
#[derive(Clone, Copy, Debug, PartialEq, Eq, Hash, Structural)]
pub struct SockAddr {
    pub ip: u32,
    pub port: u16,
}

/// Why an address string could not become a socket address.
#[derive(Clone, Copy, Debug, PartialEq, Eq, Structural)]
pub enum AddressError {
    /// The text after the colon is not a decimal number below 65536.
    InvalidPort,
    /// The string names no port and no default was supplied.
    NoPort,
    /// Resolution produced no usable IPv4 address.
    NoIpv4,
}

/// An ASCII decimal digit.
pub open spec fn is_digit(c: char) -> bool {
    48 <= c as int <= 57
}

pub open spec fn all_digits(s: Seq<char>) -> bool {
    forall|i: int| 0 <= i < s.len() ==> is_digit(#[trigger] s[i])
}

/// The number the digit string denotes, most significant digit first.
pub open spec fn digits_value(s: Seq<char>) -> int
    recommends
        all_digits(s),
    decreases s.len(),
{
    if s.len() == 0 {
        0
    } else {
        digits_value(s.drop_last()) * 10 + (s.last() as int - 48)
    }
}

/// What a port string means: a non-empty, all-digit string whose value fits a
/// 16-bit port; anything else is rejected.
pub open spec fn spec_parse_port(s: Seq<char>) -> Option<u16> {
    if s.len() > 0 && all_digits(s) && digits_value(s) <= 65535 {
        Some(digits_value(s) as u16)
    } else {
        None
    }
}

/// The position of the first colon, if any.
pub open spec fn find_colon(s: Seq<char>) -> Option<int>
    decreases s.len(),
{
    if s.len() == 0 {
        None
    } else if s[0] == ':' {
        Some(0)
    } else {
        match find_colon(s.skip(1)) {
            Some(i) => Some(i + 1),
            None => None,
        }
    }
}

/// The first IPv4 candidate among what the resolver returned.
pub open spec fn first_v4(entries: Seq<Option<u32>>) -> Option<u32>
    decreases entries.len(),
{
    if entries.len() == 0 {
        None
    } else if entries[0] is Some {
        entries[0]
    } else {
        first_v4(entries.skip(1))
    }
}

proof fn lemma_digits_value_nonneg(s: Seq<char>)
    requires
        all_digits(s),
    ensures
        digits_value(s) >= 0,
    decreases s.len(),
{
    if s.len() > 0 {
        assert(all_digits(s.drop_last()));
        lemma_digits_value_nonneg(s.drop_last());
    }
}

/// Reading more digits never shrinks the value.
proof fn lemma_digits_value_prefix(s: Seq<char>, i: int)
    requires
        all_digits(s),
        0 <= i <= s.len(),
    ensures
        digits_value(s.take(i)) <= digits_value(s),
    decreases s.len(),
{
    if i < s.len() {
        let t = s.drop_last();
        assert(all_digits(t));
        assert(s.take(i) =~= t.take(i));
        lemma_digits_value_prefix(t, i);
        lemma_digits_value_nonneg(t);
        assert(is_digit(s.last()));
    } else {
        assert(s.take(i) =~= s);
    }
}

proof fn lemma_find_colon_at(s: Seq<char>, i: int)
    requires
        0 <= i < s.len(),
        s[i] == ':',
        forall|j: int| 0 <= j < i ==> s[j] != ':',
    ensures
        find_colon(s) == Some(i),
    decreases i,
{
    if i > 0 {
        let tail = s.skip(1);
        assert(tail[i - 1] == ':');
        assert(forall|j: int| 0 <= j < i - 1 ==> tail[j] != ':');
        lemma_find_colon_at(tail, i - 1);
    }
}

proof fn lemma_find_colon_none(s: Seq<char>)
    requires
        forall|j: int| 0 <= j < s.len() ==> s[j] != ':',
    ensures
        find_colon(s) is None,
    decreases s.len(),
{
    if s.len() > 0 {
        let tail = s.skip(1);
        assert(forall|j: int| 0 <= j < tail.len() ==> tail[j] != ':');
        lemma_find_colon_none(tail);
    }
}

/// Parses a decimal port number: accepts exactly the non-empty digit strings
/// whose value is at most 65535.
pub fn parse_port(s: &str) -> (r: Result<u16, AddressError>)
    ensures
        match r {
            Ok(p) => spec_parse_port(s@) == Some(p),
            Err(e) => spec_parse_port(s@) is None && e == AddressError::InvalidPort,
        },
{
    let n = s.unicode_len();
    if n == 0 {
        return Err(AddressError::InvalidPort);
    }
    let mut value: u32 = 0;
    let mut i: usize = 0;
    while i < n
        invariant
            0 < n == s@.len(),
            i <= n,
            all_digits(s@.take(i as int)),
            value == digits_value(s@.take(i as int)),
            value <= 65535,
        decreases n - i,
    {
        let c = s.get_char(i);
        if c < '0' || c > '9' {
            assert(!is_digit(s@[i as int]));
            return Err(AddressError::InvalidPort);
        }
        let d: u32 = (c as u32) - 48;
        let next: u32 = value * 10 + d;
        proof {
            assert(s@.take(i + 1).drop_last() =~= s@.take(i as int));
            assert(s@.take(i + 1).last() == s@[i as int]);
        }
        i = i + 1;
        if next > 65535 {
            proof {
                if all_digits(s@) {
                    lemma_digits_value_prefix(s@, i as int);
                    assert(s@.take(s@.len() as int) =~= s@);
                }
            }
            return Err(AddressError::InvalidPort);
        }
        value = next;
    }
    proof {
        assert(s@.take(n as int) =~= s@);
    }
    Ok(value as u16)
}

/// The first IPv4 candidate among the resolver's answers, in their order.
pub fn first_ipv4(entries: &[Option<u32>]) -> (r: Option<u32>)
    ensures
        r == first_v4(entries@),
{
    let mut i: usize = 0;
    proof {
        assert(entries@.skip(0) =~= entries@);
    }
    while i < entries.len()
        invariant
            i <= entries@.len(),
            first_v4(entries@) == first_v4(entries@.skip(i as int)),
            forall|j: int| 0 <= j < i ==> entries@[j] is None,
        decreases entries@.len() - i,
    {
        if let Some(ip) = entries[i] {
            proof {
                assert(entries@.skip(i as int)[0] == entries@[i as int]);
            }
            return Some(ip);
        }
        proof {
            assert(entries@.skip(i as int).skip(1) =~= entries@.skip(i + 1));
        }
        i = i + 1;
    }
    proof {
        assert(entries@.skip(i as int).len() == 0);
    }
    None
}

/// The host part and the port that an address string denotes: the text before
/// the first colon with the port parsed from what follows it, or the whole
/// string with the default port when no colon is present.
pub struct HostPort {
    pub host: String,
    pub port: u16,
}

/// Splits `address` into host and port, per `find_colon` and
/// `spec_parse_port`; without a colon the default port is used, and its
/// absence is the `NoPort` error.
pub fn split_host_port(address: &str, default_port: Option<u16>) -> (r: Result<
    HostPort,
    AddressError,
>)
    ensures
        match r {
            Ok(hp) => match find_colon(address@) {
                Some(i) => hp.host@ == address@.take(i)
                    && spec_parse_port(address@.skip(i + 1)) == Some(hp.port),
                None => hp.host@ == address@ && default_port == Some(hp.port),
            },
            Err(e) => match find_colon(address@) {
                Some(i) => e == AddressError::InvalidPort
                    && spec_parse_port(address@.skip(i + 1)) is None,
                None => e == AddressError::NoPort && default_port is None,
            },
        },
{
    let n = address.unicode_len();
    let mut i: usize = 0;
    while i < n
        invariant
            i <= n == address@.len(),
            forall|j: int| 0 <= j < i ==> address@[j] != ':',
        decreases n - i,
    {
        if address.get_char(i) == ':' {
            proof {
                lemma_find_colon_at(address@, i as int);
            }
            let host = address.substring_char(0, i).to_owned();
            let port_str = address.substring_char(i + 1, n);
            proof {
                assert(address@.subrange(i + 1, n as int) =~= address@.skip(i + 1));
                assert(address@.subrange(0, i as int) =~= address@.take(i as int));
            }
            return match parse_port(port_str) {
                Ok(port) => Ok(HostPort { host, port }),
                Err(e) => Err(e),
            };
        }
        i = i + 1;
    }
    proof {
        lemma_find_colon_none(address@);
    }
    match default_port {
        Some(port) => Ok(HostPort { host: address.to_owned(), port }),
        None => Err(AddressError::NoPort),
    }
}

/// Turns an address string and the resolver's answers for its host part into
/// a socket address: the port comes from the string or the default, the IP is
/// the first IPv4 candidate.
pub fn parse_address(address: &str, default_port: Option<u16>, resolved: &[Option<u32>]) -> (r:
    Result<SockAddr, AddressError>)
    ensures
        match r {
            Ok(a) => first_v4(resolved@) == Some(a.ip) && match find_colon(address@) {
                Some(i) => spec_parse_port(address@.skip(i + 1)) == Some(a.port),
                None => default_port == Some(a.port),
            },
            Err(e) => match find_colon(address@) {
                Some(i) => if spec_parse_port(address@.skip(i + 1)) is None {
                    e == AddressError::InvalidPort
                } else {
                    e == AddressError::NoIpv4 && first_v4(resolved@) is None
                },
                None => if default_port is None {
                    e == AddressError::NoPort
                } else {
                    e == AddressError::NoIpv4 && first_v4(resolved@) is None
                },
            },
        },
{
    let hp = match split_host_port(address, default_port) {
        Ok(hp) => hp,
        Err(e) => {
            return Err(e);
        },
    };
    match first_ipv4(resolved) {
        Some(ip) => Ok(SockAddr { ip, port: hp.port }),
        None => Err(AddressError::NoIpv4),
    }
}

} // verus!
