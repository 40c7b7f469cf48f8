use vstd::prelude::*;
use vstd::string::StringExecFns;

verus! {

/// The decimal digit character for `d` (0 to 9).
pub open spec fn digit_char(d: nat) -> char {
    if d == 0 {
        '0'
    } else if d == 1 {
        '1'
    } else if d == 2 {
        '2'
    } else if d == 3 {
        '3'
    } else if d == 4 {
        '4'
    } else if d == 5 {
        '5'
    } else if d == 6 {
        '6'
    } else if d == 7 {
        '7'
    } else if d == 8 {
        '8'
    } else {
        '9'
    }
}

/// The decimal notation of `n`, without leading zeros.
pub open spec fn decimal_of(n: nat) -> Seq<char>
    decreases n,
{
    if n < 10 {
        seq![digit_char(n)]
    } else {
        decimal_of(n / 10) + seq![digit_char(n % 10)]
    }
}

/// Calls `ToString::to_string` on a `u64`, whose `Display` writes the
/// number in decimal without sign or leading zeros; the contract claims
/// exactly that notation.
#[verifier::external_body]
pub fn u64_to_string(n: u64) -> (s: String)
    ensures
        s@ == decimal_of(n as nat),
{
    n.to_string()
}

/// The decimal notation of `n`, with a minus sign when negative.
pub open spec fn int_text(n: int) -> Seq<char> {
    if n < 0 {
        seq!['-'] + decimal_of((-n) as nat)
    } else {
        decimal_of(n as nat)
    }
}

/// The decimal notation of an `i32`, with a minus sign when negative.
pub fn i32_to_string(n: i32) -> (s: String)
    ensures
        s@ == int_text(n as int),
{
    if n < 0 {
        let magnitude: u64 = (-(n as i64)) as u64;
        let digits = u64_to_string(magnitude);
        let mut s = String::from_str("-");
        s.append(digits.as_str());
        proof {
            reveal_strlit("-");
            assert(s@ =~= seq!['-'] + decimal_of((-(n as int)) as nat));
        }
        s
    } else {
        u64_to_string(n as u64)
    }
}

/// The decimal notations of `ids`, separated by commas.
pub open spec fn joined(ids: Seq<u64>) -> Seq<char>
    decreases ids.len(),
{
    if ids.len() == 0 {
        Seq::empty()
    } else if ids.len() == 1 {
        decimal_of(ids[0] as nat)
    } else {
        joined(ids.drop_last()) + seq![','] + decimal_of(ids.last() as nat)
    }
}

/// The decimal notations of `ids`, separated by commas.
pub fn join_ids(ids: &Vec<u64>) -> (s: String)
    ensures
        s@ == joined(ids@),
{
    let mut s = String::new();
    let mut i: usize = 0;
    proof {
        assert(joined(ids@.take(0)) =~= Seq::<char>::empty());
    }
    while i < ids.len()
        invariant
            i <= ids@.len(),
            s@ == joined(ids@.take(i as int)),
        decreases ids@.len() - i,
    {
        let digits = u64_to_string(ids[i]);
        let ghost before = s@;
        proof {
            assert(ids@.take(i + 1).drop_last() =~= ids@.take(i as int));
            assert(ids@.take(i + 1).last() == ids@[i as int]);
        }
        if i > 0 {
            s.append(",");
            proof {
                reveal_strlit(",");
            }
        }
        s.append(digits.as_str());
        proof {
            if i == 0 {
                assert(s@ =~= decimal_of(ids@[0] as nat));
                assert(ids@.take(1)[0] == ids@[0]);
            } else {
                assert(s@ =~= before + seq![','] + decimal_of(ids@[i as int] as nat));
            }
        }
        i = i + 1;
    }
    proof {
        assert(ids@.take(ids@.len() as int) =~= ids@);
    }
    s
}

} // verus!
