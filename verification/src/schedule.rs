use vstd::prelude::*;
use vstd::string::StrSliceExecFns;

use crate::digits::all_digits;
use crate::digits::dec_val;
use crate::digits::digit_val;
use crate::digits::is_digit;
use crate::digits::lemma_dec_val_monotone;
use crate::digits::lemma_dec_val_nonneg;

verus! {

/// The sleep interval used when the configured one cannot be read, in
/// seconds.
pub const DEFAULT_SLEEP_SECONDS: u64 = 60;

/// Which integrated system a configured module name selects.
#[derive(Clone, Copy, PartialEq, Eq, Structural, Debug)]
pub enum ModuleKind {
    Odoo,
    Hubspot,
    Unknown,
}

/// The module a configured name selects.
pub open spec fn module_for(name: Seq<char>) -> ModuleKind {
    if name == "odoo"@ {
        ModuleKind::Odoo
    } else if name == "hubspot"@ {
        ModuleKind::Hubspot
    } else {
        ModuleKind::Unknown
    }
}

/// Selects the module a configured name stands for; any other name is
/// reported as unknown.
pub fn module_kind(name: &String) -> (r: ModuleKind)
    ensures
        r == module_for(name@),
{
    if *name == "odoo".to_owned() {
        ModuleKind::Odoo
    } else if *name == "hubspot".to_owned() {
        ModuleKind::Hubspot
    } else {
        ModuleKind::Unknown
    }
}

/// The digit portion of a configured interval: an optional leading plus
/// sign is skipped, as the standard unsigned parser skips it.
pub open spec fn sleep_digits(s: Seq<char>) -> Seq<char> {
    if s.len() > 0 && s[0] == '+' {
        s.drop_first()
    } else {
        s
    }
}

/// The sleep interval a configured text denotes: its value when, after an
/// optional leading plus sign, it is a decimal number that fits, the
/// default otherwise.
pub open spec fn sleep_seconds_of(s: Seq<char>) -> u64 {
    if sleep_digits(s).len() > 0 && all_digits(sleep_digits(s)) && dec_val(sleep_digits(s))
        <= u64::MAX {
        dec_val(sleep_digits(s)) as u64
    } else {
        DEFAULT_SLEEP_SECONDS
    }
}

/// Reads the configured sleep interval, falling back to the default when
/// the text is not a decimal number (an optional leading plus sign allowed)
/// or does not fit.
pub fn parse_sleep_seconds(s: &str) -> (r: u64)
    ensures
        r == sleep_seconds_of(s@),
{
    let n = s.unicode_len();
    let start: usize = if n > 0 && s.get_char(0) == '+' {
        1
    } else {
        0
    };
    let ghost digits = sleep_digits(s@);
    proof {
        assert(digits =~= s@.subrange(start as int, n as int));
    }
    if n == start {
        return DEFAULT_SLEEP_SECONDS;
    }
    let mut acc: u64 = 0;
    let mut k: usize = start;
    while k < n
        invariant
            n == s@.len(),
            start <= k <= n,
            start < n,
            digits == sleep_digits(s@),
            digits =~= s@.subrange(start as int, n as int),
            all_digits(digits.subrange(0, k - start)),
            acc == dec_val(digits.subrange(0, k - start)),
        decreases n - k,
    {
        let c = s.get_char(k);
        proof {
            assert(digits[k - start] == s@[k as int]);
        }
        if !(c >= '0' && c <= '9') {
            proof {
                assert(!is_digit(digits[k - start]));
            }
            return DEFAULT_SLEEP_SECONDS;
        }
        let d: u64 = (c as u32 as u64) - 48;
        proof {
            assert(is_digit(digits[k - start]));
            assert(d == digit_val(digits[k - start]));
        }
        if acc > (u64::MAX - d) / 10 {
            proof {
                let upto = k as int + 1 - start;
                let prefix = digits.subrange(0, upto);
                assert(prefix.drop_last() =~= digits.subrange(0, upto - 1));
                assert(forall|t: int| 0 <= t < upto - 1 ==> prefix[t] == digits[t]);
                assert(all_digits(prefix));
                assert(dec_val(prefix) == acc * 10 + d);
                assert(acc * 10 + d > u64::MAX) by (nonlinear_arith)
                    requires
                        acc > (u64::MAX - d) / 10,
                        0 <= d < 10,
                        acc <= u64::MAX,
                ;
                if all_digits(digits) {
                    lemma_dec_val_monotone(digits, upto);
                }
            }
            return DEFAULT_SLEEP_SECONDS;
        }
        proof {
            assert(acc * 10 + d <= u64::MAX) by (nonlinear_arith)
                requires
                    acc <= (u64::MAX - d) / 10,
                    0 <= d < 10,
                    acc >= 0,
            ;
        }
        let next = acc * 10 + d;
        proof {
            let upto = k as int + 1 - start;
            let prefix = digits.subrange(0, upto);
            assert(prefix.drop_last() =~= digits.subrange(0, upto - 1));
            assert(forall|t: int| 0 <= t < upto ==> prefix[t] == digits[t]);
            assert(all_digits(prefix));
            assert(dec_val(prefix) == acc * 10 + d);
        }
        acc = next;
        k = k + 1;
    }
    proof {
        assert(digits.subrange(0, n - start) =~= digits);
        lemma_dec_val_nonneg(digits);
    }
    acc
}

} // verus!
