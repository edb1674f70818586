//! The text forms of shares and errors: decimal numbers and messages.
use vstd::prelude::*;
use vstd::string::StringExecFns;

use crate::gf256::GF256;
use crate::scheme::ShamirError;
use crate::share::Share;

verus! {

/// The decimal digit character of `d < 10`.
pub open spec fn digit_char(d: nat) -> char {
    if d == 0 {
        '0'
    } else if d == 1 {
        '1'
    } else if d == 2 {
        '2'
    } else if d == 3 {
        '3'
    } else if d == 4 {
        '4'
    } else if d == 5 {
        '5'
    } else if d == 6 {
        '6'
    } else if d == 7 {
        '7'
    } else if d == 8 {
        '8'
    } else {
        '9'
    }
}

/// The decimal text of `n`, without leading zeros.
pub open spec fn decimal(n: nat) -> Seq<char>
    decreases n,
{
    if n < 10 {
        seq![digit_char(n)]
    } else {
        decimal(n / 10) + seq![digit_char(n % 10)]
    }
}

/// Appends the decimal text of `n`.
pub fn push_decimal(s: &mut String, n: usize)
    ensures
        final(s)@ == old(s)@ + decimal(n as nat),
    decreases n,
{
    if n >= 10 {
        push_decimal(s, n / 10);
    }
    let d = n % 10;
    let ghost before = s@;
    proof {
        reveal_strlit("0");
        reveal_strlit("1");
        reveal_strlit("2");
        reveal_strlit("3");
        reveal_strlit("4");
        reveal_strlit("5");
        reveal_strlit("6");
        reveal_strlit("7");
        reveal_strlit("8");
        reveal_strlit("9");
    }
    if d == 0 {
        s.append("0");
    } else if d == 1 {
        s.append("1");
    } else if d == 2 {
        s.append("2");
    } else if d == 3 {
        s.append("3");
    } else if d == 4 {
        s.append("4");
    } else if d == 5 {
        s.append("5");
    } else if d == 6 {
        s.append("6");
    } else if d == 7 {
        s.append("7");
    } else if d == 8 {
        s.append("8");
    } else {
        s.append("9");
    }
    proof {
        assert(s@ == before + seq![digit_char(d as nat)]);
        if n >= 10 {
            assert(decimal(n as nat) == decimal((n / 10) as nat) + seq![digit_char((n % 10) as nat)]);
        } else {
            assert(decimal(n as nat) == seq![digit_char(n as nat)]);
        }
    }
}

/// The y-values of a share as decimal numbers separated by `", "`.
pub open spec fn values_text(y: Seq<GF256>) -> Seq<char>
    decreases y.len(),
{
    if y.len() == 0 {
        seq![]
    } else if y.len() == 1 {
        decimal(y[0].0 as nat)
    } else {
        values_text(y.drop_last()) + ", "@ + decimal(y.last().0 as nat)
    }
}

/// The text of a share: `Share(x=1, y=[2, 3])`.
pub open spec fn share_text(x: u8, y: Seq<GF256>) -> Seq<char> {
    "Share(x="@ + decimal(x as nat) + ", y=["@ + values_text(y) + "])"@
}

impl Share {
    /// The text of the share, as in `Share(x=1, y=[2, 3])`.
    pub fn to_display_string(&self) -> (r: String)
        ensures
            r@ == share_text(self.x.0, self.y@),
    {
        let mut s = String::new();
        s.append("Share(x=");
        push_decimal(&mut s, self.x.0 as usize);
        s.append(", y=[");
        let ghost head = "Share(x="@ + decimal(self.x.0 as nat) + ", y=["@;
        proof {
            assert(s@ =~= head);
        }
        let mut i: usize = 0;
        while i < self.y.len()
            invariant
                i <= self.y@.len(),
                s@ == head + values_text(self.y@.take(i as int)),
            decreases self.y@.len() - i,
        {
            let ghost prev = s@;
            if i > 0 {
                s.append(", ");
            }
            push_decimal(&mut s, self.y[i].0 as usize);
            proof {
                let t = self.y@.take(i + 1);
                assert(t.drop_last() =~= self.y@.take(i as int));
                if i == 0 {
                    assert(self.y@.take(0) =~= Seq::<GF256>::empty());
                    assert(s@ =~= head + values_text(t));
                } else {
                    assert(s@ =~= head + values_text(t));
                }
            }
            i += 1;
        }
        s.append("])");
        proof {
            assert(self.y@.take(i as int) =~= self.y@);
            assert(s@ =~= share_text(self.x.0, self.y@));
        }
        s
    }
}

/// The message of an error.
pub open spec fn error_text(e: ShamirError) -> Seq<char> {
    match e {
        ShamirError::InvalidThreshold => "Threshold must be between 1 and 255"@,
        ShamirError::InsufficientShares { required, provided } => "Need at least "@ + decimal(
            required as nat,
        ) + " shares, but only "@ + decimal(provided as nat) + " provided"@,
        ShamirError::InconsistentShareLength => "All shares must have the same length"@,
        ShamirError::DuplicateShares(x) => "Duplicate share with x-coordinate: "@ + decimal(
            x as nat,
        ),
        ShamirError::ChecksumMismatch => "Checksum verification failed - data may be corrupted"@,
        ShamirError::EmptyInput => "Cannot process empty input"@,
    }
}

impl ShamirError {
    /// The message that describes the error.
    pub fn message(&self) -> (r: String)
        ensures
            r@ == error_text(*self),
    {
        match self {
            ShamirError::InvalidThreshold => String::from_str("Threshold must be between 1 and 255"),
            ShamirError::InsufficientShares { required, provided } => {
                let mut s = String::from_str("Need at least ");
                push_decimal(&mut s, *required as usize);
                s.append(" shares, but only ");
                push_decimal(&mut s, *provided);
                s.append(" provided");
                s
            },
            ShamirError::InconsistentShareLength => String::from_str(
                "All shares must have the same length",
            ),
            ShamirError::DuplicateShares(x) => {
                let mut s = String::from_str("Duplicate share with x-coordinate: ");
                push_decimal(&mut s, *x as usize);
                s
            },
            ShamirError::ChecksumMismatch => String::from_str(
                "Checksum verification failed - data may be corrupted",
            ),
            ShamirError::EmptyInput => String::from_str("Cannot process empty input"),
        }
    }
}

} // verus!
