//! Protocol selection: the enumeration chosen once at startup, and the
//! validation of the operator's protocol token and port arguments.
//!
//! Tokens are matched after trimming surrounding ASCII whitespace and
//! folding ASCII letters to lower case, so `" TCP "` selects the stream
//! protocol.  A port argument is a decimal number no larger than 65535,
//! optionally preceded by `+`.

use vstd::prelude::*;
use vstd::string::StringSliceAdditionalSpecFns;

verus! {

/// The two transport protocols an endpoint or a server loop can use.
#[derive(Debug, PartialEq, Eq, Clone, Copy, Structural)]
pub enum Protocol {
    TCP,
    UDP,
}

/// The ASCII whitespace bytes trimming removes: tab through carriage
/// return, and space.
pub open spec fn is_trim_byte(b: u8) -> bool {
    b == 32 || (9 <= b <= 13)
}

/// An ASCII upper-case letter folded to lower case; other bytes unchanged.
pub open spec fn to_lower(b: u8) -> u8 {
    if 65 <= b <= 90 {
        (b + 32) as u8
    } else {
        b
    }
}

/// The sequence without its leading whitespace bytes.
pub open spec fn trim_front(s: Seq<u8>) -> Seq<u8>
    decreases s.len(),
{
    if s.len() > 0 && is_trim_byte(s.first()) {
        trim_front(s.drop_first())
    } else {
        s
    }
}

/// The sequence without its trailing whitespace bytes.
pub open spec fn trim_back(s: Seq<u8>) -> Seq<u8>
    decreases s.len(),
{
    if s.len() > 0 && is_trim_byte(s.last()) {
        trim_back(s.drop_last())
    } else {
        s
    }
}

/// The sequence with whitespace removed from both ends.
pub open spec fn trimmed(s: Seq<u8>) -> Seq<u8> {
    trim_back(trim_front(s))
}

/// Every byte folded to lower case.
pub open spec fn fold_lower(s: Seq<u8>) -> Seq<u8> {
    s.map_values(|b: u8| to_lower(b))
}

/// What a protocol token means to the client: `tcp` and its short form
/// `t` select the stream protocol, `udp` and `u` the datagram protocol,
/// each after trimming and case folding; anything else is rejected.
pub open spec fn client_protocol_of(s: Seq<u8>) -> Option<Protocol> {
    let t = fold_lower(trimmed(s));
    if t == seq![116u8] || t == seq![116u8, 99u8, 112u8] {
        Some(Protocol::TCP)
    } else if t == seq![117u8] || t == seq![117u8, 100u8, 112u8] {
        Some(Protocol::UDP)
    } else {
        None
    }
}

/// What a protocol token means to the server: only the full words `tcp`
/// and `udp`, after trimming and case folding.
pub open spec fn server_protocol_of(s: Seq<u8>) -> Option<Protocol> {
    let t = fold_lower(trimmed(s));
    if t == seq![116u8, 99u8, 112u8] {
        Some(Protocol::TCP)
    } else if t == seq![117u8, 100u8, 112u8] {
        Some(Protocol::UDP)
    } else {
        None
    }
}

/// An ASCII decimal digit.
pub open spec fn is_digit_byte(b: u8) -> bool {
    48 <= b <= 57
}

/// Every byte an ASCII decimal digit.
pub open spec fn all_digits(s: Seq<u8>) -> bool {
    forall|i: int| 0 <= i < s.len() ==> #[trigger] is_digit_byte(s[i])
}

/// The number a sequence of decimal digits denotes.
pub open spec fn dec_value(s: Seq<u8>) -> int
    decreases s.len(),
{
    if s.len() == 0 {
        0
    } else {
        dec_value(s.drop_last()) * 10 + (s.last() - 48)
    }
}

/// The digits of a trimmed port token: an optional leading `+` is
/// discarded.
pub open spec fn port_digits(s: Seq<u8>) -> Seq<u8> {
    let t = trimmed(s);
    if t.len() > 0 && t.first() == 43u8 {
        t.drop_first()
    } else {
        t
    }
}

/// A valid port argument: after trimming and the optional `+`, at least
/// one digit, nothing but digits, and a value no larger than 65535.
pub open spec fn valid_port_token(s: Seq<u8>) -> bool {
    let d = port_digits(s);
    d.len() > 0 && all_digits(d) && dec_value(d) <= 65535
}

/// A digit string denotes a number no smaller than zero.
proof fn lemma_dec_value_nonneg(s: Seq<u8>)
    requires
        all_digits(s),
    ensures
        dec_value(s) >= 0,
    decreases s.len(),
{
    if s.len() > 0 {
        assert(all_digits(s.drop_last())) by {
            assert(forall|i: int|
                0 <= i < s.drop_last().len() ==> s.drop_last()[i] == s[i] && is_digit_byte(s[i]));
        }
        lemma_dec_value_nonneg(s.drop_last());
        assert(is_digit_byte(s[s.len() - 1]));
    }
}

/// Appending digits never shrinks the denoted number: the value of a
/// digit string is at least the value of any of its prefixes.
proof fn lemma_dec_value_prefix(s: Seq<u8>, k: int)
    requires
        all_digits(s),
        0 <= k <= s.len(),
    ensures
        dec_value(s) >= dec_value(s.take(k)),
    decreases s.len() - k,
{
    if k == s.len() {
        assert(s.take(k) =~= s);
    } else {
        let p = s.take(k + 1);
        assert(p.drop_last() =~= s.take(k));
        assert(p.last() == s[k]);
        assert(all_digits(s.take(k))) by {
            assert(forall|i: int|
                0 <= i < k ==> s.take(k)[i] == s[i] && is_digit_byte(s[i]));
        }
        lemma_dec_value_nonneg(s.take(k));
        assert(is_digit_byte(s[k]));
        assert(dec_value(p) == dec_value(s.take(k)) * 10 + (s[k] - 48));
        assert(dec_value(p) >= dec_value(s.take(k)));
        lemma_dec_value_prefix(s, k + 1);
    }
}

/// Fold one byte to lower case.
fn lower_byte(b: u8) -> (r: u8)
    ensures
        r == to_lower(b),
{
    if b >= 65 && b <= 90 {
        b + 32
    } else {
        b
    }
}

/// Find the bounds of the trimmed middle of `s`: the bytes before `r.0`
/// and from `r.1` on are whitespace, and `s[r.0..r.1]` is `trimmed(s)`.
fn trim_bounds(s: &[u8]) -> (r: (usize, usize))
    ensures
        r.0 <= r.1 <= s@.len(),
        s@.subrange(r.0 as int, r.1 as int) == trimmed(s@),
{
    let len: usize = s.len();
    let mut lo: usize = 0;
    proof {
        assert(s@.skip(0) =~= s@);
    }
    while lo < len && (s[lo] == 32 || (s[lo] >= 9 && s[lo] <= 13))
        invariant
            lo <= len,
            len == s@.len(),
            trim_front(s@) == trim_front(s@.skip(lo as int)),
        decreases len - lo,
    {
        proof {
            assert(s@.skip(lo as int).first() == s@[lo as int]);
            assert(s@.skip(lo as int).drop_first() =~= s@.skip(lo + 1 as int));
        }
        lo = lo + 1;
    }
    proof {
        if lo < len {
            assert(!is_trim_byte(s@.skip(lo as int).first()));
        }
        assert(trim_front(s@) == s@.skip(lo as int));
    }
    let mut hi: usize = len;
    proof {
        assert(s@.subrange(lo as int, len as int) =~= s@.skip(lo as int));
    }
    while hi > lo && (s[hi - 1] == 32 || (s[hi - 1] >= 9 && s[hi - 1] <= 13))
        invariant
            lo <= hi <= len,
            len == s@.len(),
            trim_front(s@) == s@.skip(lo as int),
            trim_back(trim_front(s@)) == trim_back(s@.subrange(lo as int, hi as int)),
        decreases hi,
    {
        proof {
            let cur = s@.subrange(lo as int, hi as int);
            assert(cur.last() == s@[hi - 1]);
            assert(cur.drop_last() =~= s@.subrange(lo as int, hi - 1));
        }
        hi = hi - 1;
    }
    proof {
        let cur = s@.subrange(lo as int, hi as int);
        if hi > lo {
            assert(cur.last() == s@[hi - 1]);
            assert(!is_trim_byte(cur.last()));
        }
        assert(trim_back(cur) == cur);
    }
    (lo, hi)
}

impl Protocol {
    /// Parse the client's protocol option: `tcp`/`t` or `udp`/`u`, case
    /// and surrounding whitespace ignored.  Exactly the tokens
    /// `client_protocol_of` accepts yield `Ok`; anything else yields
    /// `Err` with a usage message.
    pub fn from_arg_value(value: &str) -> (r: Result<Protocol, String>)
        ensures
            r is Ok <==> client_protocol_of(value.spec_bytes()) is Some,
            r matches Ok(p) ==> client_protocol_of(value.spec_bytes()) == Some(p),
            r matches Err(m) ==> m@ == "The argument must be either 'tcp'('t') or 'udp'('u')"@,
    {
        let bytes = value.as_bytes();
        let (lo, hi) = trim_bounds(bytes);
        let ghost t = fold_lower(trimmed(value.spec_bytes()));
        proof {
            assert(t.len() == hi - lo);
            assert(forall|i: int|
                0 <= i < t.len() ==> t[i] == to_lower(
                    #[trigger] trimmed(value.spec_bytes())[i],
                ));
        }
        let n: usize = hi - lo;
        if n == 1 {
            let c = lower_byte(bytes[lo]);
            proof {
                assert(t[0] == to_lower(bytes@[lo as int]));
                if c == 116u8 {
                    assert(t =~= seq![116u8]);
                } else if c == 117u8 {
                    assert(t =~= seq![117u8]);
                } else {
                    assert(t != seq![116u8] && t != seq![117u8]);
                    assert(t.len() != 3);
                }
            }
            if c == 116u8 {
                Ok(Protocol::TCP)
            } else if c == 117u8 {
                Ok(Protocol::UDP)
            } else {
                Err("The argument must be either 'tcp'('t') or 'udp'('u')".to_owned())
            }
        } else if n == 3 {
            let c0 = lower_byte(bytes[lo]);
            let c1 = lower_byte(bytes[lo + 1]);
            let c2 = lower_byte(bytes[lo + 2]);
            proof {
                assert(t[0] == to_lower(bytes@[lo as int]));
                assert(t[1] == to_lower(bytes@[lo + 1 as int]));
                assert(t[2] == to_lower(bytes@[lo + 2 as int]));
                if c0 == 116u8 && c1 == 99u8 && c2 == 112u8 {
                    assert(t =~= seq![116u8, 99u8, 112u8]);
                } else if c0 == 117u8 && c1 == 100u8 && c2 == 112u8 {
                    assert(t =~= seq![117u8, 100u8, 112u8]);
                } else {
                    assert(t != seq![116u8, 99u8, 112u8] && t != seq![117u8, 100u8, 112u8]);
                    assert(t.len() != 1);
                }
            }
            if c0 == 116u8 && c1 == 99u8 && c2 == 112u8 {
                Ok(Protocol::TCP)
            } else if c0 == 117u8 && c1 == 100u8 && c2 == 112u8 {
                Ok(Protocol::UDP)
            } else {
                Err("The argument must be either 'tcp'('t') or 'udp'('u')".to_owned())
            }
        } else {
            proof {
                assert(t.len() != 1 && t.len() != 3);
            }
            Err("The argument must be either 'tcp'('t') or 'udp'('u')".to_owned())
        }
    }
}

/// Parse the server's protocol argument: the full words `tcp` or `udp`,
/// case and surrounding whitespace ignored.  On any other token the
/// offending argument itself comes back as the error, for the startup
/// message.
pub fn parse_server_protocol(value: &str) -> (r: Result<Protocol, String>)
    ensures
        r is Ok <==> server_protocol_of(value.spec_bytes()) is Some,
        r matches Ok(p) ==> server_protocol_of(value.spec_bytes()) == Some(p),
        r matches Err(m) ==> m@ == value@,
{
    let bytes = value.as_bytes();
    let (lo, hi) = trim_bounds(bytes);
    let ghost t = fold_lower(trimmed(value.spec_bytes()));
    proof {
        assert(t.len() == hi - lo);
        assert(forall|i: int|
            0 <= i < t.len() ==> t[i] == to_lower(#[trigger] trimmed(value.spec_bytes())[i]));
    }
    if hi - lo == 3 {
        let c0 = lower_byte(bytes[lo]);
        let c1 = lower_byte(bytes[lo + 1]);
        let c2 = lower_byte(bytes[lo + 2]);
        proof {
            assert(t[0] == to_lower(bytes@[lo as int]));
            assert(t[1] == to_lower(bytes@[lo + 1 as int]));
            assert(t[2] == to_lower(bytes@[lo + 2 as int]));
            if c0 == 116u8 && c1 == 99u8 && c2 == 112u8 {
                assert(t =~= seq![116u8, 99u8, 112u8]);
            } else if c0 == 117u8 && c1 == 100u8 && c2 == 112u8 {
                assert(t =~= seq![117u8, 100u8, 112u8]);
            } else {
                assert(t != seq![116u8, 99u8, 112u8] && t != seq![117u8, 100u8, 112u8]);
            }
        }
        if c0 == 116u8 && c1 == 99u8 && c2 == 112u8 {
            Ok(Protocol::TCP)
        } else if c0 == 117u8 && c1 == 100u8 && c2 == 112u8 {
            Ok(Protocol::UDP)
        } else {
            Err(value.to_owned())
        }
    } else {
        proof {
            assert(t.len() != 3);
        }
        Err(value.to_owned())
    }
}

/// Parse one port argument: optional `+`, then decimal digits denoting a
/// number up to 65535, with surrounding whitespace ignored.  Exactly the
/// arguments `valid_port_token` accepts yield `Ok` with that number; any
/// other argument comes back in the `Err`, for the skip warning.
pub fn parse_port(value: &str) -> (r: Result<u16, String>)
    ensures
        r is Ok <==> valid_port_token(value.spec_bytes()),
        r matches Ok(p) ==> p == dec_value(port_digits(value.spec_bytes())),
        r matches Err(m) ==> m@ == value@,
{
    let bytes = value.as_bytes();
    let (lo, hi) = trim_bounds(bytes);
    let ghost d = port_digits(value.spec_bytes());
    let start: usize = if hi > lo && bytes[lo] == 43u8 {
        lo + 1
    } else {
        lo
    };
    proof {
        assert(d.len() == hi - start);
        assert(forall|i: int| 0 <= i < d.len() ==> d[i] == bytes@[start + i]);
    }
    if start == hi {
        return Err(value.to_owned());
    }
    let mut val: u32 = 0;
    let mut i: usize = start;
    while i < hi
        invariant
            start <= i <= hi,
            hi <= bytes@.len(),
            bytes@ == value.spec_bytes(),
            d == port_digits(value.spec_bytes()),
            d.len() == hi - start,
            forall|j: int| 0 <= j < d.len() ==> d[j] == bytes@[start + j],
            all_digits(d.take(i - start)),
            val == dec_value(d.take(i - start)),
            val <= 65535,
        decreases hi - i,
    {
        let b = bytes[i];
        proof {
            assert(d[i - start] == b);
        }
        if b < 48 || b > 57 {
            proof {
                assert(!is_digit_byte(d[i - start]));
                assert(!all_digits(d));
            }
            return Err(value.to_owned());
        }
        let digit: u32 = (b - 48) as u32;
        let next: u32 = val * 10 + digit;
        proof {
            let k: int = i - start;
            assert(d.take(k + 1).drop_last() =~= d.take(k));
            assert(d.take(k + 1).last() == d[k]);
            assert(dec_value(d.take(k + 1)) == dec_value(d.take(k)) * 10 + (d[k] - 48));
            assert forall|j: int| 0 <= j < k + 1 implies #[trigger] is_digit_byte(
                d.take(k + 1)[j],
            ) by {
                if j < k {
                    assert(d.take(k + 1)[j] == d.take(k)[j]);
                    assert(is_digit_byte(d.take(k)[j]));
                } else {
                    assert(d.take(k + 1)[j] == d[k]);
                }
            }
            assert(all_digits(d.take(k + 1)));
        }
        if next > 65535 {
            proof {
                let k: int = i - start;
                if all_digits(d) {
                    lemma_dec_value_prefix(d, k + 1);
                    assert(dec_value(d) > 65535);
                }
                assert(!valid_port_token(value.spec_bytes()));
            }
            return Err(value.to_owned());
        }
        val = next;
        i = i + 1;
    }
    proof {
        assert(d.take(hi - start) =~= d);
        assert(all_digits(d) && dec_value(d) == val <= 65535);
    }
    Ok(val as u16)
}

} // verus!
