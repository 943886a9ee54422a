use vstd::prelude::*;
use vstd::std_specs::iter::IteratorSpec;

verus! {

broadcast use vstd::string::group_string_axioms;

/// The value of `c` as a digit in base `radix` (at most 36), if it is one.
/// Letters of either case stand for the digits from ten upwards.
pub open spec fn digit_value(c: char, radix: nat) -> Option<nat> {
    let v: int = if '0' <= c && c <= '9' {
        c as int - '0' as int
    } else if 'a' <= c && c <= 'z' {
        c as int - 'a' as int + 10
    } else if 'A' <= c && c <= 'Z' {
        c as int - 'A' as int + 10
    } else {
        radix as int
    };
    if v < radix {
        Some(v as nat)
    } else {
        None
    }
}

/// Every character of `s` is a digit in base `radix`.
pub open spec fn all_digits(s: Seq<char>, radix: nat) -> bool {
    forall|i: int| 0 <= i < s.len() ==> (#[trigger] digit_value(s[i], radix)) is Some
}

/// The number that the digits of `s` spell in base `radix`, most significant first.
pub open spec fn digits_value(s: Seq<char>, radix: nat) -> nat
    decreases s.len(),
{
    if s.len() == 0 {
        0
    } else {
        digits_value(s.drop_last(), radix) * radix + digit_value(s.last(), radix).unwrap_or(0)
    }
}

/// A numeral in base `radix`: at least one digit and nothing else (no sign,
/// no spaces), with a value that fits in 64 bits.
pub open spec fn parse_unsigned(s: Seq<char>, radix: nat) -> Option<u64> {
    if s.len() > 0 && all_digits(s, radix) && digits_value(s, radix) <= u64::MAX {
        Some(digits_value(s, radix) as u64)
    } else {
        None
    }
}

/// A JSON-RPC quantity: `0x` followed by a base-16 number.
pub open spec fn parse_hex_quantity(s: Seq<char>) -> Option<u64> {
    if s.len() >= 2 && s[0] == '0' && s[1] == 'x' {
        parse_unsigned(s.subrange(2, s.len() as int), 16)
    } else {
        None
    }
}

/// The characters of `s`, in order.
pub fn chars_of(s: &str) -> (r: Vec<char>)
    ensures
        r@ == s@,
{
    let mut r: Vec<char> = Vec::new();
    let mut it = s.chars();
    loop
        invariant
            it.remaining() == s@.subrange(r.len() as int, s@.len() as int),
            r@ == s@.subrange(0, r.len() as int),
            r.len() <= s@.len(),
        decreases s@.len() - r.len(),
    {
        match it.next() {
            Some(c) => {
                r.push(c);
            },
            None => {
                assert(r@ =~= s@);
                return r;
            },
        }
    }
}

fn digit_of(c: char, radix: u32) -> (r: Option<u32>)
    requires
        2 <= radix <= 36,
    ensures
        r matches Some(d) ==> digit_value(c, radix as nat) == Some(d as nat),
        r is None ==> digit_value(c, radix as nat) is None,
{
    let v: u32 = if '0' <= c && c <= '9' {
        (c as u32) - ('0' as u32)
    } else if 'a' <= c && c <= 'z' {
        (c as u32) - ('a' as u32) + 10
    } else if 'A' <= c && c <= 'Z' {
        (c as u32) - ('A' as u32) + 10
    } else {
        radix
    };
    if v < radix {
        Some(v)
    } else {
        None
    }
}


proof fn lemma_prefix_value_le(s: Seq<char>, k: int, radix: nat)
    requires
        0 <= k <= s.len(),
        radix >= 1,
    ensures
        digits_value(s.subrange(0, k), radix) <= digits_value(s, radix),
    decreases s.len() - k,
{
    if k < s.len() {
        let t = s.drop_last();
        assert(t.subrange(0, k) =~= s.subrange(0, k));
        lemma_prefix_value_le(t, k, radix);
        let a = digits_value(t, radix);
        assert(a * radix >= a) by (nonlinear_arith)
            requires
                radix >= 1,
                a >= 0,
        ;
    } else {
        assert(s.subrange(0, k) =~= s);
    }
}

/// Reads the digits of `cs` from position `start` on as one number in base `radix`.
fn parse_digits(cs: &Vec<char>, start: usize, radix: u32) -> (r: Option<u64>)
    requires
        start <= cs.len(),
        2 <= radix <= 36,
    ensures
        ({
            let t = cs@.subrange(start as int, cs@.len() as int);
            r == if t.len() > 0 && all_digits(t, radix as nat) && digits_value(t, radix as nat)
                <= u64::MAX {
                Some(digits_value(t, radix as nat) as u64)
            } else {
                None::<u64>
            }
        }),
{
    let ghost t = cs@.subrange(start as int, cs@.len() as int);
    if start == cs.len() {
        return None;
    }
    let mut acc: u64 = 0;
    let mut i: usize = start;
    while i < cs.len()
        invariant
            start <= i <= cs.len(),
            t == cs@.subrange(start as int, cs@.len() as int),
            all_digits(t.subrange(0, i - start), radix as nat),
            acc as nat == digits_value(t.subrange(0, i - start), radix as nat),
            2 <= radix <= 36,
        decreases cs.len() - i,
    {
        let ghost k = i - start;
        let ghost next = t.subrange(0, k + 1);
        assert(next.drop_last() =~= t.subrange(0, k));
        assert(next.last() == cs@[i as int]);
        match digit_of(cs[i], radix) {
            None => {
                assert(!all_digits(t, radix as nat)) by {
                    assert(t[k] == cs@[i as int]);
                }
                return None;
            },
            Some(d) => {
                let step = acc.checked_mul(radix as u64);
                let sum = match step {
                    Some(m) => m.checked_add(d as u64),
                    None => None,
                };
                match sum {
                    Some(v) => {
                        acc = v;
                        assert(all_digits(next, radix as nat)) by {
                            assert forall|j: int| 0 <= j < next.len() implies (#[trigger] digit_value(
                                next[j],
                                radix as nat,
                            )) is Some by {
                                if j < k {
                                    assert(next[j] == t.subrange(0, k)[j]);
                                }
                            }
                        }
                    },
                    None => {
                        assert(digits_value(next, radix as nat) > u64::MAX) by {
                            assert(acc as nat * radix as nat + d as nat > u64::MAX);
                        }
                        proof {
                            if all_digits(t, radix as nat) {
                                assert(t.subrange(0, k + 1) == next);
                                lemma_prefix_value_le(t, k + 1, radix as nat);
                            }
                        }
                        return None;
                    },
                }
            },
        }
        i = i + 1;
    }
    assert(t.subrange(0, i - start) =~= t);
    Some(acc)
}

/// Reads `s` as a numeral in base `radix`: digits only, no sign.
pub fn parse_u64(s: &str, radix: u32) -> (r: Option<u64>)
    requires
        2 <= radix <= 36,
    ensures
        r == parse_unsigned(s@, radix as nat),
{
    let cs = chars_of(s);
    assert(cs@.subrange(0, cs@.len() as int) =~= s@);
    parse_digits(&cs, 0, radix)
}

/// Reads a JSON-RPC quantity such as `"0x2A"`.
pub fn parse_hex_u64(s: &str) -> (r: Option<u64>)
    ensures
        r == parse_hex_quantity(s@),
{
    let cs = chars_of(s);
    if cs.len() >= 2 && cs[0] == '0' && cs[1] == 'x' {
        parse_digits(&cs, 2, 16)
    } else {
        None
    }
}

} // verus!
