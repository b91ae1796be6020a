//! Decimal text of identifiers: `"{block}:{tx}"`, ASCII digits only.

use vstd::prelude::*;
use crate::ids::AssetId;

verus! {

/// The ASCII digit for `d < 10`.
pub open spec fn digit(d: nat) -> u8 {
    (48 + d) as u8
}

/// The decimal text of `n`, without leading zeros.
pub open spec fn decimal(n: nat) -> Seq<u8>
    decreases n,
{
    if n < 10 {
        seq![digit(n)]
    } else {
        decimal(n / 10).push(digit(n % 10))
    }
}

/// `"{block}:{tx}"`.
pub open spec fn id_text(id: AssetId) -> Seq<u8> {
    decimal(id.block as nat) + seq![58u8] + decimal(id.tx as nat)
}

/// An ASCII decimal digit.
pub open spec fn is_digit(c: u8) -> bool {
    48 <= c <= 57
}

/// The number written by a run of ASCII digits.
pub open spec fn digits_value(s: Seq<u8>) -> nat
    decreases s.len(),
{
    if s.len() == 0 {
        0
    } else {
        digits_value(s.drop_last()) * 10 + (s.last() - 48) as nat
    }
}

/// A non-empty run of digits whose value fits in 128 bits.
pub open spec fn is_u128_text(s: Seq<u8>) -> bool {
    &&& s.len() > 0
    &&& forall|i: int| 0 <= i < s.len() ==> is_digit(#[trigger] s[i])
    &&& digits_value(s) <= u128::MAX
}

/// `b` reads as `"{block}:{tx}"` with the colon at `k`.
pub open spec fn id_text_split(b: Seq<u8>, k: int) -> bool {
    &&& 0 <= k < b.len()
    &&& b[k] == 58u8
    &&& is_u128_text(b.subrange(0, k))
    &&& is_u128_text(b.subrange(k + 1, b.len() as int))
}

/// The identifier that `b` names, read at colon `k`.
pub open spec fn id_at_split(b: Seq<u8>, k: int) -> AssetId {
    AssetId {
        block: digits_value(b.subrange(0, k)) as u128,
        tx: digits_value(b.subrange(k + 1, b.len() as int)) as u128,
    }
}

fn push_decimal(out: &mut Vec<u8>, n: u128)
    ensures
        final(out)@ == old(out)@ + decimal(n as nat),
    decreases n,
{
    if n >= 10 {
        push_decimal(out, n / 10);
    }
    out.push(48u8 + (n % 10) as u8);
    proof {
        if n >= 10 {
            assert(old(out)@ + decimal(n as nat) =~= old(out)@ + decimal((n / 10) as nat) + seq![digit((n % 10) as nat)]);
        } else {
            assert(old(out)@ + decimal(n as nat) =~= old(out)@ + seq![digit(n as nat)]);
        }
    }
}

/// Renders an identifier as `"{block}:{tx}"`.
pub fn format_id(id: &AssetId) -> (r: Vec<u8>)
    ensures
        r@ == id_text(*id),
{
    let mut r: Vec<u8> = Vec::new();
    push_decimal(&mut r, id.block);
    r.push(58u8);
    push_decimal(&mut r, id.tx);
    proof {
        assert(r@ =~= id_text(*id));
    }
    r
}

proof fn lemma_digits_monotone(s: Seq<u8>, i: int, j: int)
    requires
        0 <= i <= j <= s.len(),
        forall|x: int| 0 <= x < s.len() ==> is_digit(#[trigger] s[x]),
    ensures
        digits_value(s.subrange(0, i)) <= digits_value(s.subrange(0, j)),
    decreases j - i,
{
    if i < j {
        lemma_digits_monotone(s, i, j - 1);
        assert(s.subrange(0, j).drop_last() =~= s.subrange(0, j - 1));
    }
}

/// Reads a run of decimal digits that fits in 128 bits.
fn parse_u128(b: &Vec<u8>, start: usize, end: usize) -> (r: Option<u128>)
    requires
        start <= end <= b@.len(),
    ensures
        r == (if is_u128_text(b@.subrange(start as int, end as int)) {
            Some(digits_value(b@.subrange(start as int, end as int)) as u128)
        } else {
            None::<u128>
        }),
{
    let ghost s = b@.subrange(start as int, end as int);
    if start == end {
        return None;
    }
    let mut v: u128 = 0;
    let mut i: usize = start;
    while i < end
        invariant
            start <= i <= end <= b@.len(),
            s == b@.subrange(start as int, end as int),
            forall|x: int| start <= x < i ==> is_digit(#[trigger] b@[x]),
            v == digits_value(s.subrange(0, i - start)),
        decreases end - i,
    {
        let c = b[i];
        if c < 48 || c > 57 {
            assert(!is_digit(s[i - start]));
            return None;
        }
        proof {
            assert(s.subrange(0, i - start + 1).drop_last() =~= s.subrange(0, i - start));
        }
        let next = match v.checked_mul(10) {
            Some(m) => m.checked_add((c - 48) as u128),
            None => None,
        };
        match next {
            Some(w) => {
                v = w;
            },
            None => {
                proof {
                    let k = (i - start + 1) as int;
                    assert(digits_value(s.subrange(0, k)) > u128::MAX);
                    if forall|x: int| 0 <= x < s.len() ==> is_digit(#[trigger] s[x]) {
                        lemma_digits_monotone(s, k, s.len() as int);
                        assert(s.subrange(0, s.len() as int) =~= s);
                    }
                }
                return None;
            },
        }
        i = i + 1;
    }
    proof {
        assert(s.subrange(0, end - start) =~= s);
        assert forall|x: int| 0 <= x < s.len() implies is_digit(#[trigger] s[x]) by {
            assert(s[x] == b@[start + x]);
        }
    }
    Some(v)
}

/// Reads `"{block}:{tx}"`: one colon between two runs of decimal digits,
/// each of which fits in 128 bits.
pub fn parse_id(b: &Vec<u8>) -> (r: Option<AssetId>)
    ensures
        forall|k: int| id_text_split(b@, k) ==> r == Some(id_at_split(b@, k)),
        r is Some ==> exists|k: int| id_text_split(b@, k) && r->0 == id_at_split(b@, k),
{
    let mut k: usize = 0;
    while k < b.len() && b[k] != 58u8
        invariant
            k <= b@.len(),
            forall|x: int| 0 <= x < k ==> b@[x] != 58u8,
        decreases b@.len() - k,
    {
        k = k + 1;
    }
    proof {
        assert forall|k2: int| id_text_split(b@, k2) implies k2 == k as int by {
            if k2 < k {
                assert(b@[k2] != 58u8);
            } else if k2 > k {
                assert(b@.subrange(0, k2)[k as int] == b@[k as int]);
                assert(!is_digit(b@.subrange(0, k2)[k as int]));
            }
        }
    }
    if k == b.len() {
        return None;
    }
    let block = parse_u128(b, 0, k);
    let tx = parse_u128(b, k + 1, b.len());
    match (block, tx) {
        (Some(block), Some(tx)) => {
            proof {
                assert(id_text_split(b@, k as int));
            }
            Some(AssetId { block, tx })
        },
        _ => None,
    }
}

} // verus!
