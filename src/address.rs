use vstd::prelude::*;

use crate::error::WalletError;

verus! {

/// A relay address: the wallet's public key and the relay's domain and port,
/// written `public_key@domain:port`.
#[derive(Debug)]
pub struct EpicBoxAddress {
    pub public_key: String,
    pub domain: String,
    pub port: u16,
}

pub open spec fn digit_char(d: nat) -> char {
    if d == 0 { '0' }
    else if d == 1 { '1' }
    else if d == 2 { '2' }
    else if d == 3 { '3' }
    else if d == 4 { '4' }
    else if d == 5 { '5' }
    else if d == 6 { '6' }
    else if d == 7 { '7' }
    else if d == 8 { '8' }
    else { '9' }
}

pub open spec fn is_digit(c: char) -> bool {
    '0' <= c && c <= '9'
}

pub open spec fn digit_value(c: char) -> nat {
    (c as u32 - '0' as u32) as nat
}

/// The decimal digits of `n`, most significant first, without leading zeros.
pub open spec fn decimal_of(n: nat) -> Seq<char>
    decreases n,
{
    if n < 10 {
        seq![digit_char(n)]
    } else {
        decimal_of(n / 10).push(digit_char(n % 10))
    }
}

/// The number that a string of decimal digits spells.
pub open spec fn decimal_value(s: Seq<char>) -> nat
    decreases s.len(),
{
    if s.len() == 0 {
        0
    } else {
        decimal_value(s.drop_last()) * 10 + digit_value(s.last())
    }
}

/// A public key or a domain: not empty, and free of the separators `@` and `:`.
pub open spec fn valid_part(p: Seq<char>) -> bool {
    p.len() > 0 && forall|i: int| 0 <= i < p.len() ==> p[i] != '@' && p[i] != ':'
}

pub open spec fn address_text(public_key: Seq<char>, domain: Seq<char>, port: u16) -> Seq<char> {
    public_key + "@"@ + domain + ":"@ + decimal_of(port as nat)
}

/// `s` splits as `public_key@domain:port` with `@` at `a` and `:` at `c`.
pub open spec fn splits_at(s: Seq<char>, a: int, c: int) -> bool {
    &&& 0 < a && a + 1 < c && c + 1 < s.len() && s.len() - (c + 1) <= 5
    &&& s[a] == '@' && s[c] == ':'
    &&& valid_part(s.subrange(0, a))
    &&& valid_part(s.subrange(a + 1, c))
    &&& forall|i: int| c < i < s.len() ==> is_digit(#[trigger] s[i])
    &&& decimal_value(s.subrange(c + 1, s.len() as int)) <= 65535
}

/// What an address string decodes to: public key, domain and port.
pub open spec fn decode_spec(s: Seq<char>) -> Option<(Seq<char>, Seq<char>, u16)> {
    if exists|a: int, c: int| splits_at(s, a, c) {
        let (a, c) = choose|a: int, c: int| splits_at(s, a, c);
        Some(
            (
                s.subrange(0, a),
                s.subrange(a + 1, c),
                decimal_value(s.subrange(c + 1, s.len() as int)) as u16,
            ),
        )
    } else {
        None
    }
}

/// Relies on the `Display` of `u16` (through `ToString`): its decimal digits,
/// without sign or leading zeros.
#[verifier::external_body]
fn port_text(port: u16) -> (r: String)
    ensures
        r@ == decimal_of(port as nat),
{
    port.to_string()
}

/// The separators fix the split: there is at most one.
pub proof fn lemma_split_unique(s: Seq<char>, a: int, c: int, a2: int, c2: int)
    requires
        splits_at(s, a, c),
        splits_at(s, a2, c2),
    ensures
        a == a2 && c == c2,
{
    if a < a2 {
        assert(s.subrange(0, a2)[a] == s[a]);
    } else if a2 < a {
        assert(s.subrange(0, a)[a2] == s[a2]);
    }
    if c < c2 {
        assert(s.subrange(a + 1, c2)[c - (a + 1)] == s[c]);
    } else if c2 < c {
        assert(s.subrange(a + 1, c)[c2 - (a + 1)] == s[c2]);
    }
}

proof fn lemma_decimal(n: nat)
    ensures
        decimal_of(n).len() >= 1,
        forall|i: int| 0 <= i < decimal_of(n).len() ==> is_digit(#[trigger] decimal_of(n)[i]),
        decimal_value(decimal_of(n)) == n,
        n < 10 ==> decimal_of(n).len() == 1,
        n >= 10 ==> decimal_of(n).len() == decimal_of(n / 10).len() + 1,
    decreases n,
{
    if n >= 10 {
        lemma_decimal(n / 10);
        let s = decimal_of(n);
        assert(s.drop_last() =~= decimal_of(n / 10));
        lemma_digit(n % 10);
        assert(s.last() == digit_char(n % 10));
        assert(decimal_value(s) == decimal_value(decimal_of(n / 10)) * 10 + digit_value(digit_char(n % 10)));
        assert((n / 10) * 10 + n % 10 == n);
    } else {
        lemma_digit(n);
        let s = decimal_of(n);
        assert(s.drop_last() =~= Seq::<char>::empty());
        assert(decimal_value(s.drop_last()) == 0);
        assert(decimal_value(s) == digit_value(digit_char(n)));
    }
}

proof fn lemma_digit(d: nat)
    requires
        d < 10,
    ensures
        is_digit(digit_char(d)),
        digit_value(digit_char(d)) == d,
{
    assert('0' as u32 == 48u32 && '9' as u32 == 57u32);
}

proof fn lemma_decimal_len(n: nat)
    requires
        n < 100000,
    ensures
        decimal_of(n).len() <= 5,
{
    lemma_decimal(n);
    if n >= 10 {
        lemma_decimal(n / 10);
        if n / 10 >= 10 {
            lemma_decimal(n / 100);
            if n / 100 >= 10 {
                lemma_decimal(n / 1000);
                if n / 1000 >= 10 {
                    lemma_decimal(n / 10000);
                    assert(n / 10000 < 10);
                }
            }
        }
    }
}

/// Decoding an encoded address gives back its public key, domain and port.
pub proof fn lemma_address_round_trip(public_key: Seq<char>, domain: Seq<char>, port: u16)
    requires
        valid_part(public_key),
        valid_part(domain),
    ensures
        decode_spec(address_text(public_key, domain, port)) == Some((public_key, domain, port)),
{
    reveal_strlit("@");
    reveal_strlit(":");
    let s = address_text(public_key, domain, port);
    let d = decimal_of(port as nat);
    lemma_decimal(port as nat);
    lemma_decimal_len(port as nat);
    let a = public_key.len() as int;
    let c = a + 1 + domain.len();
    assert(s.subrange(0, a) =~= public_key);
    assert(s.subrange(a + 1, c) =~= domain);
    assert(s.subrange(c + 1, s.len() as int) =~= d);
    assert forall|i: int| c < i < s.len() implies is_digit(#[trigger] s[i]) by {
        assert(s[i] == d[i - (c + 1)]);
    }
    assert(splits_at(s, a, c));
    let (a2, c2) = choose|a2: int, c2: int| splits_at(s, a2, c2);
    lemma_split_unique(s, a, c, a2, c2);
}

proof fn lemma_value_prefix(t: Seq<char>, k: int)
    requires
        0 <= k <= t.len(),
    ensures
        decimal_value(t.subrange(0, k)) <= decimal_value(t),
    decreases t.len(),
{
    if k < t.len() {
        lemma_value_prefix(t.drop_last(), k);
        assert(t.drop_last().subrange(0, k) =~= t.subrange(0, k));
    } else {
        assert(t.subrange(0, k) =~= t);
    }
}

proof fn lemma_split_facts(s: Seq<char>, a: int, c: int)
    requires
        splits_at(s, a, c),
    ensures
        forall|i: int| 0 <= i < a ==> #[trigger] s[i] != '@' && s[i] != ':',
        forall|i: int| a < i < c ==> #[trigger] s[i] != '@' && s[i] != ':',
{
    assert forall|i: int| 0 <= i < a implies #[trigger] s[i] != '@' && s[i] != ':' by {
        assert(s.subrange(0, a)[i] == s[i]);
    }
    assert forall|i: int| a < i < c implies #[trigger] s[i] != '@' && s[i] != ':' by {
        assert(s.subrange(a + 1, c)[i - (a + 1)] == s[i]);
    }
}

/// The first two separators of a string that splits fix where it splits.
proof fn lemma_split_unique_at(s: Seq<char>, a: int, c: int, a2: int, c2: int)
    requires
        0 <= a < c < s.len(),
        s[a] == '@',
        s[c] == ':',
        forall|i: int| 0 <= i < a ==> #[trigger] s[i] != '@' && s[i] != ':',
        forall|i: int| a < i < c ==> #[trigger] s[i] != '@' && s[i] != ':',
        splits_at(s, a2, c2),
    ensures
        a == a2 && c == c2,
{
    lemma_split_facts(s, a2, c2);
    if a < a2 {
        assert(s[a] != '@');
    }
    if a2 < a {
        assert(s[a2] != '@');
    }
    if c < c2 {
        assert(s[c] != ':');
    }
    if c2 < c {
        assert(s[c2] != ':');
    }
}

/// The index of the first `@` or `:` at or after `from`, or the length.
fn next_separator(s: &str, from: usize, n: usize) -> (r: usize)
    requires
        n == s@.len(),
        from <= n,
    ensures
        from <= r <= n,
        r < n ==> s@[r as int] == '@' || s@[r as int] == ':',
        forall|i: int| from <= i < r ==> #[trigger] s@[i] != '@' && s@[i] != ':',
{
    let mut i: usize = from;
    while i < n
        invariant
            n == s@.len(),
            from <= i <= n,
            forall|k: int| from <= k < i ==> #[trigger] s@[k] != '@' && s@[k] != ':',
        decreases n - i,
    {
        let ch = s.get_char(i);
        if ch == '@' || ch == ':' {
            return i;
        }
        i = i + 1;
    }
    i
}

impl EpicBoxAddress {
    /// The address string `public_key@domain:port`.
    pub fn to_address_string(&self) -> (r: String)
        ensures
            r@ == address_text(self.public_key@, self.domain@, self.port),
    {
        encode_address(self.public_key.as_str(), self.domain.as_str(), self.port)
    }
}

/// Writes `public_key@domain:port`.
pub fn encode_address(public_key: &str, domain: &str, port: u16) -> (r: String)
    ensures
        r@ == address_text(public_key@, domain@, port),
{
    let digits = port_text(port);
    let mut out = String::from_str(public_key);
    out.append("@");
    out.append(domain);
    out.append(":");
    out.append(digits.as_str());
    out
}

/// Reads an address string `public_key@domain:port`: public key and domain
/// not empty and free of `@` and `:`, the port one to five decimal digits with
/// a value that fits 16 bits. Anything else is a malformed address.
pub fn decode_address(s: &str) -> (r: Result<EpicBoxAddress, WalletError>)
    ensures
        match r {
            Ok(addr) => decode_spec(s@) == Some((addr.public_key@, addr.domain@, addr.port)),
            Err(e) => e == WalletError::MalformedAddress && decode_spec(s@) is None,
        },
{
    let n = s.unicode_len();
    let a = next_separator(s, 0, n);
    if a == n || a == 0 || s.get_char(a) != '@' {
        proof {
            assert forall|a2: int, c2: int| !splits_at(s@, a2, c2) by {
                if splits_at(s@, a2, c2) {
                    lemma_split_facts(s@, a2, c2);
                    if (a as int) < a2 {
                        assert(s@[a as int] != '@' && s@[a as int] != ':');
                    }
                    assert(s@[a2] == '@');
                }
            }
        }
        return Err(WalletError::MalformedAddress);
    }
    let c = next_separator(s, a + 1, n);
    if c == n || c == a + 1 || s.get_char(c) != ':' || n - (c + 1) > 5 || c + 1 == n {
        proof {
            assert forall|a2: int, c2: int| !splits_at(s@, a2, c2) by {
                if splits_at(s@, a2, c2) {
                    lemma_split_facts(s@, a2, c2);
                    if (a as int) < a2 {
                        assert(s@[a as int] != '@' && s@[a as int] != ':');
                    }
                    if a2 < (a as int) {
                        assert(s@[a2] != '@');
                    }
                    if (c as int) < c2 {
                        assert(s@[c as int] != '@' && s@[c as int] != ':');
                    }
                    if c2 < (c as int) {
                        assert(s@[c2] != ':');
                    }
                }
            }
        }
        return Err(WalletError::MalformedAddress);
    }
    let ghost digits = s@.subrange(c + 1, n as int);
    let mut v: u32 = 0;
    let mut i: usize = c + 1;
    while i < n
        invariant
            n == s@.len(),
            0 < a < c < n,
            s@[a as int] == '@',
            s@[c as int] == ':',
            forall|k: int| 0 <= k < a ==> #[trigger] s@[k] != '@' && s@[k] != ':',
            forall|k: int| a < k < c ==> #[trigger] s@[k] != '@' && s@[k] != ':',
            c + 1 <= i <= n,
            digits == s@.subrange(c + 1, n as int),
            forall|k: int| c < k < i ==> is_digit(#[trigger] s@[k]),
            v == decimal_value(s@.subrange(c + 1, i as int)),
            v <= 65535,
        decreases n - i,
    {
        let ch = s.get_char(i);
        if !('0' <= ch && ch <= '9') {
            proof {
                assert forall|a2: int, c2: int| !splits_at(s@, a2, c2) by {
                    if splits_at(s@, a2, c2) {
                        lemma_split_facts(s@, a2, c2);
                        lemma_split_unique_at(s@, a as int, c as int, a2, c2);
                        assert(is_digit(s@[i as int]));
                    }
                }
            }
            return Err(WalletError::MalformedAddress);
        }
        proof {
            let pre = s@.subrange(c + 1, i + 1);
            assert(pre.drop_last() =~= s@.subrange(c + 1, i as int));
        }
        v = v * 10 + (ch as u32 - '0' as u32);
        i = i + 1;
        if v > 65535 {
            proof {
                assert(s@.subrange(c + 1, i as int) =~= digits.subrange(0, i - (c + 1)));
                lemma_value_prefix(digits, i - (c + 1));
                assert forall|a2: int, c2: int| !splits_at(s@, a2, c2) by {
                    if splits_at(s@, a2, c2) {
                        lemma_split_facts(s@, a2, c2);
                        lemma_split_unique_at(s@, a as int, c as int, a2, c2);
                    }
                }
            }
            return Err(WalletError::MalformedAddress);
        }
    }
    let public_key = String::from_str(s.substring_char(0, a));
    let domain = String::from_str(s.substring_char(a + 1, c));
    proof {
        assert(s@.subrange(c + 1, n as int) =~= digits);
        assert(splits_at(s@, a as int, c as int));
        let (a2, c2) = choose|a2: int, c2: int| splits_at(s@, a2, c2);
        lemma_split_unique(s@, a as int, c as int, a2, c2);
    }
    Ok(EpicBoxAddress { public_key, domain, port: v as u16 })
}

} // verus!
