use vstd::prelude::*;

verus! {

/// The value of the ASCII byte `b` as a digit in base `radix` (at most 36):
/// `0`-`9` count from 0, the letters from 10 in either case; `None` when the
/// byte is not such a digit or its value is not below `radix`.
pub open spec fn digit_value(b: u8, radix: nat) -> Option<nat> {
    let d: int = if 48 <= b <= 57 {
        b - 48
    } else if 97 <= b <= 122 {
        b - 87
    } else if 65 <= b <= 90 {
        b - 55
    } else {
        99
    };
    if d < radix {
        Some(d as nat)
    } else {
        None
    }
}

/// Every byte of `ds` is a digit in base `radix`.
pub open spec fn all_digits(ds: Seq<u8>, radix: nat) -> bool {
    forall|i: int| 0 <= i < ds.len() ==> (#[trigger] digit_value(ds[i], radix)) is Some
}

/// The number that the digits `ds` spell in base `radix`, most significant
/// first (0 for no digits).
pub open spec fn digits_number(ds: Seq<u8>, radix: nat) -> nat
    decreases ds.len(),
{
    if ds.len() == 0 {
        0
    } else {
        digits_number(ds.drop_last(), radix) * radix + digit_value(ds.last(), radix).unwrap()
    }
}

/// The bytes that follow an optional leading `+`.
pub open spec fn unsigned_digits(s: Seq<u8>) -> Seq<u8> {
    if s.len() > 0 && s[0] == 43 {
        s.drop_first()
    } else {
        s
    }
}

/// What std's `from_str_radix` makes of `s` for an unsigned type whose
/// greatest value is `max`: an optional `+`, then at least one digit in base
/// `radix`, and a value no greater than `max`; `None` otherwise.
pub open spec fn parse_unsigned_spec(s: Seq<u8>, radix: nat, max: nat) -> Option<nat> {
    let ds = unsigned_digits(s);
    if ds.len() > 0 && all_digits(ds, radix) && digits_number(ds, radix) <= max {
        Some(digits_number(ds, radix))
    } else {
        None
    }
}

/// A longer run of digits spells a number at least as large.
pub proof fn lemma_digits_number_grows(ds: Seq<u8>, radix: nat, k: int)
    requires
        0 <= k <= ds.len(),
        radix >= 1,
        all_digits(ds, radix),
    ensures
        digits_number(ds.take(k), radix) <= digits_number(ds, radix),
    decreases ds.len() - k,
{
    if k < ds.len() {
        lemma_digits_number_grows(ds, radix, k + 1);
        assert(ds.take(k + 1).drop_last() =~= ds.take(k));
        let v = digits_number(ds.take(k), radix);
        assert(v * radix >= v) by (nonlinear_arith)
            requires
                radix >= 1,
        ;
    } else {
        assert(ds.take(k) =~= ds);
    }
}

/// The digit value of a byte, computed.
fn digit_of(b: u8, radix: u8) -> (r: Option<u8>)
    requires
        radix <= 36,
    ensures
        r matches Some(d) ==> digit_value(b, radix as nat) == Some(d as nat),
        r is None ==> digit_value(b, radix as nat) is None,
{
    let d: u8 = if 48 <= b && b <= 57 {
        b - 48
    } else if 97 <= b && b <= 122 {
        b - 87
    } else if 65 <= b && b <= 90 {
        b - 55
    } else {
        99
    };
    if d < radix {
        Some(d)
    } else {
        None
    }
}

/// Reads `s[start..end]` as std's `from_str_radix` reads it into an unsigned
/// type whose greatest value is `max`.
pub fn parse_unsigned(s: &[u8], start: usize, end: usize, radix: u8, max: usize) -> (r: Option<
    usize,
>)
    requires
        start <= end <= s@.len(),
        2 <= radix <= 36,
    ensures
        r matches Some(v) ==> parse_unsigned_spec(s@.subrange(start as int, end as int), radix as nat, max as nat) == Some(v as nat),
        r is None ==> parse_unsigned_spec(s@.subrange(start as int, end as int), radix as nat, max as nat) is None,
{
    let ghost whole = s@.subrange(start as int, end as int);
    let mut i = start;
    if i < end && s[i] == 43 {
        i = i + 1;
    }
    let ghost ds = s@.subrange(i as int, end as int);
    assert(ds =~= unsigned_digits(whole));
    if i == end {
        return None;
    }
    let first = i;
    let mut acc: usize = 0;
    while i < end
        invariant
            start <= first <= i <= end <= s@.len(),
            2 <= radix <= 36,
            ds == s@.subrange(first as int, end as int),
            ds == unsigned_digits(s@.subrange(start as int, end as int)),
            all_digits(ds.take(i - first), radix as nat),
            acc as nat == digits_number(ds.take(i - first), radix as nat),
            acc <= max,
        decreases end - i,
    {
        let ghost k: int = i - first;
        assert(ds.take(k + 1).drop_last() =~= ds.take(k));
        assert(ds[k] == s@[i as int]);
        match digit_of(s[i], radix) {
            None => {
                assert(!all_digits(ds, radix as nat));
                return None;
            },
            Some(d) => {
                assert(all_digits(ds.take(k + 1), radix as nat)) by {
                    assert forall|j: int| 0 <= j < k + 1 implies (#[trigger] digit_value(
                        ds.take(k + 1)[j],
                        radix as nat,
                    )) is Some by {
                        if j < k {
                            assert(ds.take(k + 1)[j] == ds.take(k)[j]);
                        }
                    }
                }
                let next = match acc.checked_mul(radix as usize) {
                    Some(m) => m.checked_add(d as usize),
                    None => None,
                };
                match next {
                    Some(n) if n <= max => {
                        acc = n;
                    },
                    _ => {
                        proof {
                            if all_digits(ds, radix as nat) {
                                lemma_digits_number_grows(ds, radix as nat, k + 1);
                            }
                        }
                        return None;
                    },
                }
            },
        }
        i = i + 1;
    }
    assert(ds.take(ds.len() as int) =~= ds);
    Some(acc)
}

} // verus!
