//! The options of the PKI operations: key usages, key profiles, lifetimes and subjects.
use vstd::prelude::*;
use crate::text::{decimal, decimal_string, is_digit, owned, push_char, chars_of, string_of};

verus! {

/// An error: an exit code and a message.
pub type Failure = (u8, String);

/// An X.509 key usage that can be requested.
#[derive(Debug, Clone, Copy, PartialEq, Eq, Structural)]
pub enum KeyUsage {
    DigitalSignature,
    KeyEncipherment,
    KeyCertSign,
    CrlSign,
    KeyAgreement,
}

/// The OpenSSL name of a key usage.
pub open spec fn key_usage_name(u: KeyUsage) -> Seq<char> {
    match u {
        KeyUsage::DigitalSignature => "digitalSignature"@,
        KeyUsage::KeyEncipherment => "keyEncipherment"@,
        KeyUsage::KeyCertSign => "keyCertSign"@,
        KeyUsage::CrlSign => "cRLSign"@,
        KeyUsage::KeyAgreement => "keyAgreement"@,
    }
}

impl KeyUsage {
    /// The OpenSSL name of this key usage.
    pub fn text(self) -> (r: &'static str)
        ensures
            r@ == key_usage_name(self),
    {
        match self {
            KeyUsage::DigitalSignature => "digitalSignature",
            KeyUsage::KeyEncipherment => "keyEncipherment",
            KeyUsage::KeyCertSign => "keyCertSign",
            KeyUsage::CrlSign => "cRLSign",
            KeyUsage::KeyAgreement => "keyAgreement",
        }
    }
}

/// A key profile: the algorithm of a CA or certificate key.
#[derive(Debug, Clone, Copy, PartialEq, Eq, Structural)]
pub enum Profile {
    EcdsaP256,
    Ed25519,
    Rsa4096,
}

/// The directory and command-line name of a profile.
pub open spec fn profile_name(p: Profile) -> Seq<char> {
    match p {
        Profile::EcdsaP256 => "ecdsa-p256"@,
        Profile::Ed25519 => "ed25519"@,
        Profile::Rsa4096 => "rsa-4096"@,
    }
}

/// The profiles in the order in which the layout is searched.
pub open spec fn all_profiles() -> Seq<Profile> {
    seq![Profile::EcdsaP256, Profile::Ed25519, Profile::Rsa4096]
}

impl Profile {
    /// Every profile, in search order.
    pub fn all() -> (r: [Self; 3])
        ensures
            r@ == all_profiles(),
    {
        let r = [Profile::EcdsaP256, Profile::Ed25519, Profile::Rsa4096];
        assert(r@ =~= all_profiles());
        r
    }

    /// The directory and command-line name of this profile.
    pub fn text(&self) -> (r: &'static str)
        ensures
            r@ == profile_name(*self),
    {
        match self {
            Profile::EcdsaP256 => "ecdsa-p256",
            Profile::Ed25519 => "ed25519",
            Profile::Rsa4096 => "rsa-4096",
        }
    }
}

/// Distinct profiles have distinct names.
pub proof fn lemma_profile_name_injective(a: Profile, b: Profile)
    ensures
        profile_name(a) == profile_name(b) <==> a == b,
{
    reveal_strlit("ecdsa-p256");
    reveal_strlit("ed25519");
    reveal_strlit("rsa-4096");
    if a != b {
        assert(profile_name(a).len() != profile_name(b).len() || profile_name(a)[0] != profile_name(
            b,
        )[0]);
    }
}

/// The unit of a lifetime.
#[derive(Debug, Clone, Copy, PartialEq, Eq, Structural)]
pub enum DurationUnit {
    Days,
    Weeks,
    Months,
    Years,
}

/// A lifetime as given on the command line: an amount and a unit.
#[derive(Debug, Clone, Copy, PartialEq, Eq, Structural)]
pub struct CertificateDuration {
    pub amount: u32,
    pub unit: DurationUnit,
}

/// Days per unit: a month is 30 days and a year 365.
pub open spec fn unit_days(u: DurationUnit) -> nat {
    match u {
        DurationUnit::Days => 1,
        DurationUnit::Weeks => 7,
        DurationUnit::Months => 30,
        DurationUnit::Years => 365,
    }
}

/// The unit that a suffix letter names.
pub open spec fn unit_suffix(c: char) -> Option<DurationUnit> {
    if c == 'd' {
        Some(DurationUnit::Days)
    } else if c == 'w' {
        Some(DurationUnit::Weeks)
    } else if c == 'm' {
        Some(DurationUnit::Months)
    } else if c == 'y' {
        Some(DurationUnit::Years)
    } else {
        None
    }
}

/// The number written by a run of decimal digits.
pub open spec fn digits_value(t: Seq<char>) -> nat
    decreases t.len(),
{
    if t.len() == 0 {
        0
    } else {
        digits_value(t.drop_last()) * 10 + ((t.last() as u32) - 48) as nat
    }
}

/// Every character is a decimal digit.
pub open spec fn all_digits(t: Seq<char>) -> bool {
    forall|i: int| 0 <= i < t.len() ==> is_digit(#[trigger] t[i])
}

/// What std's `str::parse::<u32>` accepts: an optional `+` and then one or more decimal
/// digits whose value fits in `u32`.
pub open spec fn parse_u32(t: Seq<char>) -> Option<u32> {
    let d = if t.len() > 0 && t[0] == '+' {
        t.drop_first()
    } else {
        t
    };
    if d.len() > 0 && all_digits(d) && digits_value(d) <= u32::MAX {
        Some(digits_value(d) as u32)
    } else {
        None
    }
}

proof fn lemma_digits_value_grows(t: Seq<char>, i: int)
    requires
        0 <= i <= t.len(),
        all_digits(t),
    ensures
        digits_value(t.take(i)) <= digits_value(t),
    decreases t.len() - i,
{
    if i < t.len() {
        lemma_digits_value_grows(t, i + 1);
        assert(t.take(i + 1).drop_last() =~= t.take(i));
        assert(is_digit(t[i]));
    } else {
        assert(t.take(i) =~= t);
    }
}

/// Parses unsigned decimal text as std's `str::parse::<u32>` does.
pub fn parse_amount(text: &str) -> (r: Option<u32>)
    ensures
        r == parse_u32(text@),
{
    let v = chars_of(text);
    let mut start: usize = 0;
    if v.len() > 0 && v[0] == '+' {
        start = 1;
    }
    let ghost d = if text@.len() > 0 && text@[0] == '+' {
        text@.drop_first()
    } else {
        text@
    };
    assert(d =~= v@.subrange(start as int, v@.len() as int));
    if start == v.len() {
        return None;
    }
    let mut acc: u64 = 0;
    let mut i: usize = start;
    while i < v.len()
        invariant
            v@ == text@,
            start <= i <= v@.len(),
            d == v@.subrange(start as int, v@.len() as int),
            d == (if text@.len() > 0 && text@[0] == '+' {
                text@.drop_first()
            } else {
                text@
            }),
            all_digits(d.take(i - start)),
            acc as nat == digits_value(d.take(i - start)),
            acc <= u32::MAX,
        decreases v.len() - i,
    {
        let c = v[i];
        if !((c as u32) >= 48 && (c as u32) <= 57) {
            assert(d[i - start] == c);
            assert(!is_digit(d[i - start]));
            return None;
        }
        let digit = (c as u32 - 48) as u64;
        assert(d.take(i - start + 1).drop_last() =~= d.take(i - start));
        assert(d.take(i - start + 1).last() == c);
        acc = acc * 10 + digit;
        i = i + 1;
        assert(all_digits(d.take(i - start))) by {
            assert forall|k: int| 0 <= k < i - start implies is_digit(#[trigger] d.take(i - start)[k]) by {
                if k < i - start - 1 {
                    assert(d.take(i - start)[k] == d.take(i - start - 1)[k]);
                }
            }
        }
        if acc > 0xFFFF_FFFF {
            return overflow_or_invalid(&v, i, start, Ghost(d));
        }
    }
    assert(d.take(i - start) =~= d);
    Some(acc as u32)
}

/// After the digits `v[start..i]` already exceed `u32::MAX`, the text is refused whatever follows.
fn overflow_or_invalid(v: &Vec<char>, i: usize, start: usize, Ghost(d): Ghost<Seq<char>>) -> (r: Option<u32>)
    requires
        start <= i <= v@.len(),
        d == v@.subrange(start as int, v@.len() as int),
        all_digits(d.take(i - start)),
        digits_value(d.take(i - start)) > u32::MAX,
    ensures
        r is None,
        r == (if d.len() > 0 && all_digits(d) && digits_value(d) <= u32::MAX {
            Some(digits_value(d) as u32)
        } else {
            None
        }),
{
    proof {
        if all_digits(d) {
            lemma_digits_value_grows(d, i - start);
        }
    }
    None
}

/// The lifetime that a duration amount text and unit give.
pub open spec fn duration_from_amount(t: Seq<char>, unit: DurationUnit) -> Result<
    CertificateDuration,
    Seq<char>,
> {
    match parse_u32(t) {
        None => Err("invalid duration amount: "@ + t),
        Some(a) => if a == 0 {
            Err("duration must be greater than zero"@)
        } else {
            Ok(CertificateDuration { amount: a, unit })
        },
    }
}

/// What a `--days` text parses to: a number with an optional unit suffix `d`, `w`, `m` or
/// `y`, where a bare number means days; the amount must be a nonzero `u32`.
pub open spec fn parse_duration(v: Seq<char>) -> Result<CertificateDuration, Seq<char>> {
    if v.len() == 0 {
        Err("duration cannot be empty"@)
    } else {
        match unit_suffix(v.last()) {
            Some(u) => duration_from_amount(v.drop_last(), u),
            None => if is_digit(v.last()) {
                duration_from_amount(v, DurationUnit::Days)
            } else {
                Err("invalid duration unit '"@ + seq![v.last()] + "'; use d, w, m, or y"@)
            },
        }
    }
}

/// The view of a result whose error is text.
pub open spec fn text_result<T>(r: Result<T, String>) -> Result<T, Seq<char>> {
    match r {
        Ok(v) => Ok(v),
        Err(e) => Err(e@),
    }
}

impl CertificateDuration {
    /// Parses a command-line lifetime such as `5y` or `1825`.
    pub fn parse(value: &str) -> (r: Result<Self, String>)
        ensures
            text_result(r) == parse_duration(value@),
    {
        let v = chars_of(value);
        if v.len() == 0 {
            return Err(owned("duration cannot be empty"));
        }
        let last = v[v.len() - 1];
        let unit = if last == 'd' {
            DurationUnit::Days
        } else if last == 'w' {
            DurationUnit::Weeks
        } else if last == 'm' {
            DurationUnit::Months
        } else if last == 'y' {
            DurationUnit::Years
        } else if (last as u32) >= 48 && (last as u32) <= 57 {
            assert(v@.subrange(0, v@.len() as int) =~= value@);
            return Self::from_amount(&v, v.len(), DurationUnit::Days);
        } else {
            let mut message = owned("invalid duration unit '");
            push_char(&mut message, last);
            message.append("'; use d, w, m, or y");
            assert(message@ =~= "invalid duration unit '"@ + seq![last] + "'; use d, w, m, or y"@);
            return Err(message);
        };
        assert(v@.subrange(0, v@.len() - 1) =~= value@.drop_last());
        Self::from_amount(&v, v.len() - 1, unit)
    }

    fn from_amount(v: &Vec<char>, end: usize, unit: DurationUnit) -> (r: Result<Self, String>)
        requires
            end <= v@.len(),
        ensures
            text_result(r) == duration_from_amount(v@.subrange(0, end as int), unit),
    {
        let amount_text = string_of(v.as_slice(), 0, end);
        match parse_amount(amount_text.as_str()) {
            None => {
                let mut message = owned("invalid duration amount: ");
                message.append(amount_text.as_str());
                Err(message)
            },
            Some(amount) => {
                if amount == 0 {
                    Err(owned("duration must be greater than zero"))
                } else {
                    Ok(CertificateDuration { amount, unit })
                }
            },
        }
    }

    /// The lifetime in days, or an error where that count does not fit in `u32`.
    pub fn to_days(&self) -> (r: Result<u32, String>)
        ensures
            match r {
                Ok(days) => days == self.amount * unit_days(self.unit),
                Err(e) => self.amount * unit_days(self.unit) > u32::MAX && e@
                    == "duration is too large"@,
            },
    {
        let multiplier: u32 = match self.unit {
            DurationUnit::Days => 1,
            DurationUnit::Weeks => 7,
            DurationUnit::Months => 30,
            DurationUnit::Years => 365,
        };
        match self.amount.checked_mul(multiplier) {
            Some(days) => Ok(days),
            None => Err(owned("duration is too large")),
        }
    }
}

/// The message for a lifetime outside the allowed range.
pub open spec fn days_range_message(minimum: nat, maximum: nat, days: nat) -> Seq<char> {
    "days must be in "@ + decimal(minimum) + "..="@ + decimal(maximum) + "; received "@ + decimal(
        days,
    )
}

/// Converts a lifetime to days and checks it against `minimum..=maximum`; the check is on
/// the converted count, so a small amount with a large unit cannot pass a bound meant for days.
pub fn normalized_days(duration: &CertificateDuration, minimum: u32, maximum: u32) -> (r: Result<
    u32,
    Failure,
>)
    ensures
        ({
            let total = duration.amount * unit_days(duration.unit);
            match r {
                Ok(days) => days == total && minimum <= total <= maximum,
                Err(e) => e.0 == 4 && if total > u32::MAX {
                    e.1@ == "duration is too large"@
                } else {
                    !(minimum <= total <= maximum) && e.1@ == days_range_message(
                        minimum as nat,
                        maximum as nat,
                        total as nat,
                    )
                },
            }
        }),
{
    let days = match duration.to_days() {
        Ok(days) => days,
        Err(error) => {
            return Err((4, error));
        },
    };
    if minimum <= days && days <= maximum {
        Ok(days)
    } else {
        let mut message = owned("days must be in ");
        let lo = decimal_string(minimum as u64);
        let hi = decimal_string(maximum as u64);
        let got = decimal_string(days as u64);
        message.append(lo.as_str());
        message.append("..=");
        message.append(hi.as_str());
        message.append("; received ");
        message.append(got.as_str());
        Err((4, message))
    }
}

} // verus!
