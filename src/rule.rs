//! Port-mapping rules of the form `src[:dst]`, where `dst` is `host:port`, a
//! bare port on the loopback address, or absent (the source port on the
//! loopback address).

use vstd::prelude::*;

verus! {

#[derive(Clone, Copy, Debug, PartialEq, Eq)]
pub enum RuleError {
    /// The source port is not a `u16` in decimal.
    InvalidSrcPort,
    /// The destination is neither `host:port` nor a `u16` in decimal.
    InvalidDstPort,
}

/// Index of the first `c` in `s`; the length of `s` where there is none.
pub open spec fn first_index(s: Seq<char>, c: char) -> int
    decreases s.len(),
{
    if s.len() == 0 {
        0
    } else if s[0] == c {
        0
    } else {
        1 + first_index(s.drop_first(), c)
    }
}

pub proof fn lemma_first_index(s: Seq<char>, c: char)
    ensures
        0 <= first_index(s, c) <= s.len(),
        first_index(s, c) < s.len() ==> s[first_index(s, c)] == c,
        forall|j: int| 0 <= j < first_index(s, c) ==> s[j] != c,
    decreases s.len(),
{
    if s.len() > 0 && s[0] != c {
        lemma_first_index(s.drop_first(), c);
        assert forall|j: int| 0 <= j < first_index(s, c) implies s[j] != c by {
            if j > 0 {
                assert(s[j] == s.drop_first()[j - 1]);
            }
        }
    }
}

pub open spec fn is_digit(c: char) -> bool {
    '0' <= c && c <= '9'
}

/// The value of a string of decimal digits.
pub open spec fn digits_value(s: Seq<char>) -> nat
    decreases s.len(),
{
    if s.len() == 0 {
        0
    } else {
        digits_value(s.drop_last()) * 10 + ((s.last() as u32) - ('0' as u32)) as nat
    }
}

/// What `u16`'s `FromStr` makes of `s`: an optional `+`, then one or more
/// decimal digits whose value fits.
pub open spec fn u16_text(s: Seq<char>) -> Option<u16> {
    let d = if s.len() > 1 && s[0] == '+' {
        s.drop_first()
    } else {
        s
    };
    if d.len() > 0 && (forall|i: int| 0 <= i < d.len() ==> is_digit(#[trigger] d[i]))
        && digits_value(d) <= u16::MAX {
        Some(digits_value(d) as u16)
    } else {
        None
    }
}

/// The decimal digits of `n`, without leading zeros.
pub open spec fn decimal(n: nat) -> Seq<char>
    decreases n,
{
    let digit = seq!['0', '1', '2', '3', '4', '5', '6', '7', '8', '9'];
    if n < 10 {
        seq![digit[n as int]]
    } else {
        decimal(n / 10).push(digit[(n % 10) as int])
    }
}

/// `127.0.0.1:port`, as text.
pub open spec fn loopback_text(port: u16) -> Seq<char> {
    seq!['1', '2', '7', '.', '0', '.', '0', '.', '1', ':'] + decimal(port as nat)
}

/// What a rule string stands for: the source port and the destination text.
pub open spec fn rule_of(s: Seq<char>) -> Result<(u16, Seq<char>), RuleError> {
    let i = first_index(s, ':');
    match u16_text(s.take(i)) {
        None => Err(RuleError::InvalidSrcPort),
        Some(src) => if i == s.len() {
            Ok((src, loopback_text(src)))
        } else {
            let dst = s.skip(i + 1);
            if first_index(dst, ':') < dst.len() {
                Ok((src, dst))
            } else {
                match u16_text(dst) {
                    None => Err(RuleError::InvalidDstPort),
                    Some(p) => Ok((src, loopback_text(p))),
                }
            }
        },
    }
}

/// Relies on `str::split_once`: the text before and after the first
/// occurrence of `c`; none where `c` does not occur.
#[verifier::external_body]
fn split_first<'a>(s: &'a str, c: char) -> (r: Option<(&'a str, &'a str)>)
    ensures
        r is None <==> first_index(s@, c) == s@.len(),
        r matches Some((a, b)) ==> a@ == s@.take(first_index(s@, c)) && b@ == s@.skip(
            first_index(s@, c) + 1,
        ),
{
    s.split_once(c)
}

/// Relies on `u16`'s `FromStr` (`str::parse`): an optional `+` and decimal
/// digits, refused when empty, when any other character occurs, or when the
/// value overflows.
#[verifier::external_body]
fn parse_u16(s: &str) -> (r: Option<u16>)
    ensures
        r == u16_text(s@),
{
    s.parse::<u16>().ok()
}

/// Relies on `u16`'s `Display` (through `ToString::to_string`): plain
/// decimal digits, without leading zeros.
#[verifier::external_body]
fn u16_decimal(n: u16) -> (r: String)
    ensures
        r@ == decimal(n as nat),
{
    n.to_string()
}

/// `127.0.0.1:port`, the destination of a rule that names no host.
fn loopback_with_port(port: u16) -> (r: String)
    ensures
        r@ == loopback_text(port),
{
    let mut text = "127.0.0.1:".to_owned();
    let digits = u16_decimal(port);
    text.append(digits.as_str());
    proof {
        reveal_strlit("127.0.0.1:");
        assert("127.0.0.1:"@ =~= seq!['1', '2', '7', '.', '0', '.', '0', '.', '1', ':']);
    }
    text
}

/// Parses a rule string into its source port and destination address text.
pub fn parse_rule(rule: &str) -> (r: Result<(u16, String), RuleError>)
    ensures
        match r {
            Ok((p, d)) => rule_of(rule@) == Ok::<(u16, Seq<char>), RuleError>((p, d@)),
            Err(e) => rule_of(rule@) == Err::<(u16, Seq<char>), RuleError>(e),
        },
{
    proof {
        lemma_first_index(rule@, ':');
    }
    let (src_text, dst_text) = match split_first(rule, ':') {
        Some((a, b)) => (a, Some(b)),
        None => {
            proof {
                assert(rule@.take(rule@.len() as int) =~= rule@);
            }
            (rule, None)
        },
    };
    let src_port = match parse_u16(src_text) {
        Some(p) => p,
        None => return Err(RuleError::InvalidSrcPort),
    };
    let dst = match dst_text {
        Some(d) => {
            proof {
                lemma_first_index(d@, ':');
            }
            if split_first(d, ':').is_some() {
                d.to_owned()
            } else {
                match parse_u16(d) {
                    Some(p) => loopback_with_port(p),
                    None => return Err(RuleError::InvalidDstPort),
                }
            }
        },
        None => loopback_with_port(src_port),
    };
    Ok((src_port, dst))
}

} // verus!
