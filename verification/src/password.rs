//! Password policy, and the salted memory-hard hash a destination is bound to.

use vstd::prelude::*;
use vstd::utf8::encode_utf8;
use crate::error::PasswordError;
use crate::text::{decimal, join_text, usize_to_string};

verus! {

pub open spec fn is_lower(c: char) -> bool {
    'a' <= c <= 'z'
}

pub open spec fn is_upper(c: char) -> bool {
    'A' <= c <= 'Z'
}

pub open spec fn is_digit(c: char) -> bool {
    '0' <= c <= '9'
}

/// A printable ASCII character that is neither a letter nor a digit.
pub open spec fn is_symbol(c: char) -> bool {
    '!' <= c <= '~' && !is_lower(c) && !is_upper(c) && !is_digit(c)
}

pub open spec fn has_lower(s: Seq<char>) -> bool {
    exists|i: int| 0 <= i < s.len() && is_lower(#[trigger] s[i])
}

pub open spec fn has_upper(s: Seq<char>) -> bool {
    exists|i: int| 0 <= i < s.len() && is_upper(#[trigger] s[i])
}

pub open spec fn has_digit(s: Seq<char>) -> bool {
    exists|i: int| 0 <= i < s.len() && is_digit(#[trigger] s[i])
}

pub open spec fn has_symbol(s: Seq<char>) -> bool {
    exists|i: int| 0 <= i < s.len() && is_symbol(#[trigger] s[i])
}

/// `line` where the rule is unmet, nothing where it is met.
pub open spec fn line_if(unmet: bool, line: Seq<char>) -> Seq<char> {
    if unmet {
        line
    } else {
        Seq::empty()
    }
}

/// Adds `line` to `message` where the rule is unmet.
fn add_line(message: &mut String, unmet: bool, line: &str)
    ensures
        final(message)@ == old(message)@ + line_if(unmet, line@),
{
    if unmet {
        message.append(line);
    } else {
        assert(message@ =~= message@ + Seq::<char>::empty());
    }
}

/// The rules a new password has to meet.
pub struct PasswordPolicy {
    min_length: usize,
    max_length: usize,
    require_lowercase: bool,
    require_uppercase: bool,
    require_symbol: bool,
    require_digit: bool,
}

/// A policy as plain values.
pub struct PolicyView {
    pub min_length: nat,
    pub max_length: nat,
    pub require_lowercase: bool,
    pub require_uppercase: bool,
    pub require_symbol: bool,
    pub require_digit: bool,
}

impl PolicyView {
    /// Whether the number of characters of `chars` lies within the bounds.
    pub open spec fn length_met(self, chars: Seq<char>) -> bool {
        self.min_length <= chars.len() <= self.max_length
    }

    /// Whether the password `chars` meets the policy: its length in
    /// characters within the bounds, and each required class present.
    pub open spec fn accepts(self, chars: Seq<char>) -> bool {
        &&& self.length_met(chars)
        &&& (self.require_lowercase ==> has_lower(chars))
        &&& (self.require_uppercase ==> has_upper(chars))
        &&& (self.require_digit ==> has_digit(chars))
        &&& (self.require_symbol ==> has_symbol(chars))
    }

    /// The rule on length in words.
    pub open spec fn length_text(self) -> Seq<char> {
        "Your password must be between "@ + decimal(self.min_length) + " to "@ + decimal(
            self.max_length,
        ) + " characters"@
    }

    /// The rules that `chars` does not meet, one line each, in the order
    /// length, lowercase, uppercase, digit, symbol.
    pub open spec fn unmet(self, chars: Seq<char>) -> Seq<char> {
        line_if(!self.length_met(chars), "\n"@ + self.length_text()) + line_if(
            self.require_lowercase && !has_lower(chars),
            "\nIt needs at least 1 lowercase letter"@,
        ) + line_if(
            self.require_uppercase && !has_upper(chars),
            "\nIt needs at least 1 uppercase letter"@,
        ) + line_if(self.require_digit && !has_digit(chars), "\nIt needs at least 1 digit"@)
            + line_if(self.require_symbol && !has_symbol(chars), "\nIt needs at least 1 symbol"@)
    }

    /// What a password that fails the policy is told: the rules it does not
    /// meet.
    pub open spec fn refusal(self, chars: Seq<char>) -> Seq<char> {
        "InvalidFormat:"@ + self.unmet(chars)
    }

    /// The sentence about letter case.
    pub open spec fn case_text(self) -> Seq<char> {
        if self.require_lowercase && self.require_uppercase {
            "It needs both uppercase and lowercase letters"@
        } else if self.require_lowercase {
            "It needs only lowercase letters"@
        } else {
            "It needs only uppercase letters"@
        }
    }

    pub open spec fn symbol_text(self) -> Seq<char> {
        if self.require_symbol {
            "It needs at least 1 symbol"@
        } else {
            ""@
        }
    }

    pub open spec fn digit_text(self) -> Seq<char> {
        if self.require_digit {
            "It needs at least 1 digit"@
        } else {
            ""@
        }
    }

    /// The policy in words: the length bounds, then one line each for case,
    /// symbol and digit.
    pub open spec fn text(self) -> Seq<char> {
        self.length_text() + "\n"@ + self.case_text() + "\n"@ + self.symbol_text() + "\n"@
            + self.digit_text()
    }
}

impl View for PasswordPolicy {
    type V = PolicyView;

    closed spec fn view(&self) -> PolicyView {
        PolicyView {
            min_length: self.min_length as nat,
            max_length: self.max_length as nat,
            require_lowercase: self.require_lowercase,
            require_uppercase: self.require_uppercase,
            require_symbol: self.require_symbol,
            require_digit: self.require_digit,
        }
    }
}

/// Which classes of character occur in a password.
struct Classes {
    lower: bool,
    upper: bool,
    digit: bool,
    symbol: bool,
}

/// Finds which classes of character occur in `pwd`.
fn classify(pwd: &str) -> (c: Classes)
    ensures
        c.lower == has_lower(pwd@),
        c.upper == has_upper(pwd@),
        c.digit == has_digit(pwd@),
        c.symbol == has_symbol(pwd@),
{
    let n = pwd.unicode_len();
    let mut c = Classes { lower: false, upper: false, digit: false, symbol: false };
    let mut i: usize = 0;
    while i < n
        invariant
            i <= n,
            n == pwd@.len(),
            c.lower == has_lower(pwd@.take(i as int)),
            c.upper == has_upper(pwd@.take(i as int)),
            c.digit == has_digit(pwd@.take(i as int)),
            c.symbol == has_symbol(pwd@.take(i as int)),
        decreases n - i,
    {
        let ch = pwd.get_char(i);
        let lower = 'a' <= ch && ch <= 'z';
        let upper = 'A' <= ch && ch <= 'Z';
        let digit = '0' <= ch && ch <= '9';
        let symbol = '!' <= ch && ch <= '~' && !lower && !upper && !digit;
        proof {
            let a = pwd@.take(i as int);
            let b = pwd@.take(i + 1);
            assert(b == a.push(ch));
            assert(forall|j: int| 0 <= j < a.len() ==> a[j] == b[j]);
            assert(b[i as int] == ch);
            if has_lower(a) {
                let j = choose|j: int| 0 <= j < a.len() && is_lower(#[trigger] a[j]);
                assert(is_lower(b[j]));
            }
            if has_upper(a) {
                let j = choose|j: int| 0 <= j < a.len() && is_upper(#[trigger] a[j]);
                assert(is_upper(b[j]));
            }
            if has_digit(a) {
                let j = choose|j: int| 0 <= j < a.len() && is_digit(#[trigger] a[j]);
                assert(is_digit(b[j]));
            }
            if has_symbol(a) {
                let j = choose|j: int| 0 <= j < a.len() && is_symbol(#[trigger] a[j]);
                assert(is_symbol(b[j]));
            }
        }
        c.lower = c.lower || lower;
        c.upper = c.upper || upper;
        c.digit = c.digit || digit;
        c.symbol = c.symbol || symbol;
        i += 1;
    }
    assert(pwd@.take(n as int) == pwd@);
    c
}

impl PasswordPolicy {
    /// A policy from its six settings.
    pub fn new(
        min: usize,
        max: usize,
        lowercase: bool,
        uppercase: bool,
        digit: bool,
        symbol: bool,
    ) -> (p: Self)
        ensures
            p@ == (PolicyView {
                min_length: min as nat,
                max_length: max as nat,
                require_lowercase: lowercase,
                require_uppercase: uppercase,
                require_symbol: symbol,
                require_digit: digit,
            }),
    {
        Self {
            min_length: min,
            max_length: max,
            require_uppercase: uppercase,
            require_lowercase: lowercase,
            require_digit: digit,
            require_symbol: symbol,
        }
    }

    /// The rule on length in words.
    fn length_rule(&self) -> (s: String)
        ensures
            s@ == self@.length_text(),
    {
        let min = usize_to_string(self.min_length);
        let max = usize_to_string(self.max_length);
        let mut s = join_text("Your password must be between ", min.as_str());
        s.append(" to ");
        s.append(max.as_str());
        s.append(" characters");
        s
    }

    /// Checks `pwd` against the policy. The length counts characters. A
    /// password that fails is told which rules it does not meet.
    pub fn validate(&self, pwd: &str) -> (r: Result<(), PasswordError>)
        ensures
            self@.accepts(pwd@) ==> r is Ok,
            !self@.accepts(pwd@) ==> (r matches Err(PasswordError::InvalidFormat(m)) && m@
                == self@.refusal(pwd@)),
    {
        let len = pwd.unicode_len();
        let is_valid_length = len >= self.min_length && len <= self.max_length;
        let classes = classify(pwd);
        let lower_met = !self.require_lowercase || classes.lower;
        let upper_met = !self.require_uppercase || classes.upper;
        let digit_met = !self.require_digit || classes.digit;
        let symbol_met = !self.require_symbol || classes.symbol;
        if lower_met && digit_met && symbol_met && upper_met && is_valid_length {
            return Ok(());
        }
        let length_line = join_text("\n", self.length_rule().as_str());
        let mut message = String::from_str("InvalidFormat:");
        add_line(&mut message, !is_valid_length, length_line.as_str());
        add_line(&mut message, !lower_met, "\nIt needs at least 1 lowercase letter");
        add_line(&mut message, !upper_met, "\nIt needs at least 1 uppercase letter");
        add_line(&mut message, !digit_met, "\nIt needs at least 1 digit");
        add_line(&mut message, !symbol_met, "\nIt needs at least 1 symbol");
        assert(message@ =~= self@.refusal(pwd@));
        Err(PasswordError::InvalidFormat(message))
    }

    /// The policy in words.
    pub fn generate_policy(&self) -> (s: String)
        ensures
            s@ == self@.text(),
    {
        let case_message = if self.require_lowercase && self.require_uppercase {
            "It needs both uppercase and lowercase letters"
        } else if self.require_lowercase {
            "It needs only lowercase letters"
        } else {
            "It needs only uppercase letters"
        };
        let symbol = if self.require_symbol {
            "It needs at least 1 symbol"
        } else {
            ""
        };
        let digit = if self.require_digit {
            "It needs at least 1 digit"
        } else {
            ""
        };
        let mut s = self.length_rule();
        s.append("\n");
        s.append(case_message);
        s.append("\n");
        s.append(symbol);
        s.append("\n");
        s.append(digit);
        s
    }
}

impl Default for PasswordPolicy {
    /// Eight to sixteen bytes, and all four classes of character.
    fn default() -> (p: Self)
        ensures
            p@ == (PolicyView {
                min_length: 8,
                max_length: 16,
                require_lowercase: true,
                require_uppercase: true,
                require_symbol: true,
                require_digit: true,
            }),
    {
        Self {
            min_length: 8,
            max_length: 16,
            require_lowercase: true,
            require_uppercase: true,
            require_digit: true,
            require_symbol: true,
        }
    }
}

/// Whether a password is short enough to be hashed: at most 0xFFFFFFFF bytes
/// of UTF-8.
pub open spec fn hashable(password: Seq<char>) -> bool {
    encode_utf8(password).len() <= 0xFFFF_FFFF
}

/// Whether the hash string `hash` was made from `password`: `None` where
/// `hash` is no hash string at all. Stands for what `checked_against` returns.
pub uninterp spec fn phc_verify(hash: Seq<char>, password: Seq<char>) -> Option<bool>;

/// Checks a password against a stored hash string.
///
/// Calls `PasswordHash::new` of the crate `password-hash` to parse `hash`, and
/// `Argon2::default().verify_password`, which hashes `input` again with the
/// salt and parameters in `hash` and compares. The contract only gives the
/// outcome its name; a parse error comes back as it is.
#[verifier::external_body]
fn checked_against(hash: &str, input: &str) -> (r: Result<bool, argon2::password_hash::Error>)
    ensures
        match r {
            Ok(b) => phc_verify(hash@, input@) == Some(b),
            Err(_) => phc_verify(hash@, input@) is None,
        },
{
    let parsed = argon2::password_hash::PasswordHash::new(hash)?;
    Ok(
        argon2::password_hash::PasswordVerifier::verify_password(
            &argon2::Argon2::default(),
            input.as_bytes(),
            &parsed,
        ).is_ok(),
    )
}

/// Hashes a password with a fresh random salt.
///
/// Calls `SaltString::generate` with the system's random source and
/// `Argon2::hash_password` (Argon2id, version 0x13, default parameters); the
/// plaintext is held in `zeroize::Zeroizing` meanwhile. The salt is random, so
/// of the hash the contract says only what holds of every one that comes
/// back: checking the same password against it succeeds, because the check
/// repeats the same computation with the salt and parameters written into the
/// hash string. With a generated salt and the default parameters the source
/// refuses nothing but a password longer than 0xFFFFFFFF bytes, so a shorter
/// one is owed a hash.
#[verifier::external_body]
fn freshly_hashed(input: String) -> (r: Result<String, argon2::password_hash::Error>)
    ensures
        r is Ok <==> hashable(input@),
        r is Ok ==> phc_verify(r.unwrap()@, input@) == Some(true),
{
    let password = zeroize::Zeroizing::new(input);
    let salt = argon2::password_hash::SaltString::generate(
        &mut argon2::password_hash::rand_core::OsRng,
    );
    let argon2 = argon2::Argon2::new(
        argon2::Algorithm::Argon2id,
        argon2::Version::V0x13,
        argon2::Params::DEFAULT,
    );
    let hash = argon2::password_hash::PasswordHasher::hash_password(
        &argon2,
        password.as_bytes(),
        &salt,
    )?;
    Ok(hash.to_string())
}

/// The record a destination keeps of its password: a hash string, never the
/// plaintext.
#[derive(Debug)]
pub struct Password {
    pub hash: String,
}

impl Default for Password {
    /// A record that no password matches.
    fn default() -> (p: Self)
        ensures
            p.hash@ == "<unset>"@,
    {
        Self { hash: String::from_str("<unset>") }
    }
}

impl Clone for Password {
    fn clone(&self) -> (p: Self)
        ensures
            p == *self,
    {
        Self { hash: self.hash.clone() }
    }
}

impl Password {
    /// Validates `input` against `policy`, then hashes it with a fresh salt.
    /// A password that breaks the policy is never hashed; one that meets it
    /// gets its record, unless it is too long to be hashed.
    pub fn new(input: String, policy: &PasswordPolicy) -> (r: Result<Self, PasswordError>)
        ensures
            !policy@.accepts(input@) ==> (r matches Err(PasswordError::InvalidFormat(m)) && m@
                == policy@.refusal(input@)),
            policy@.accepts(input@) && hashable(input@) ==> (r matches Ok(p) && phc_verify(
                p.hash@,
                input@,
            ) == Some(true)),
            policy@.accepts(input@) && !hashable(input@) ==> (r matches Err(e) && e is HashError),
    {
        match policy.validate(input.as_str()) {
            Err(e) => {
                return Err(e);
            },
            Ok(()) => {},
        }
        match freshly_hashed(input) {
            Ok(hash) => Ok(Self { hash }),
            Err(e) => Err(PasswordError::HashError(e)),
        }
    }

    /// Whether `input` is the password this record was made from. A record
    /// that is no hash string is an error.
    pub fn verify(&self, input: &str) -> (r: Result<bool, PasswordError>)
        ensures
            match phc_verify(self.hash@, input@) {
                Some(b) => r == Ok::<bool, PasswordError>(b),
                None => (r matches Err(e) && e is HashError),
            },
    {
        match checked_against(self.hash.as_str(), input) {
            Ok(b) => Ok(b),
            Err(e) => Err(PasswordError::HashError(e)),
        }
    }
}

} // verus!
