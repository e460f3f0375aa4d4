//! Versions of the form `major.minor.patch` and the rules that decide which
//! of them is an upgrade worth reviewing.

use crate::text::{
    all_digits, chars_of, contains_char, decimal, decimal_value, first_index, is_canonical,
    is_digit, lemma_decimal, lemma_decimal_of_canonical, lemma_decimal_value_nonnegative,
    lemma_first_index, lemma_first_index_is, lemma_split_nonempty, number_of, parse_u32,
    push_decimal, split, split_chars, views,
};
use vstd::prelude::*;

verus! {

/// A version without pre-release or build metadata.
#[derive(Debug, Clone, Copy, PartialEq, Eq, PartialOrd, Ord, Structural)]
pub struct Semver {
    pub major: u32,
    pub minor: u32,
    pub patch: u32,
}

/// Why a string is no version.
#[derive(Debug, PartialEq)]
pub enum SemverParsingError {
    /// The string holds a `-`.
    Prerelease,
    /// The string does not have exactly three parts.
    InvalidFormat,
    /// The named part is no unsigned number.
    InvalidNumber(&'static str),
}

/// What a string stands for as a version.
pub open spec fn spec_parse(s: Seq<char>) -> Result<Semver, SemverParsingError> {
    let parts = split(s, '.');
    if s.contains('-') {
        Err(SemverParsingError::Prerelease)
    } else if parts.len() != 3 {
        Err(SemverParsingError::InvalidFormat)
    } else {
        match (number_of(parts[0]), number_of(parts[1]), number_of(parts[2])) {
            (None, _, _) => Err(SemverParsingError::InvalidNumber("major")),
            (Some(_), None, _) => Err(SemverParsingError::InvalidNumber("minor")),
            (Some(_), Some(_), None) => Err(SemverParsingError::InvalidNumber("patch")),
            (Some(major), Some(minor), Some(patch)) => Ok(Semver { major, minor, patch }),
        }
    }
}

/// How a version is written.
pub open spec fn spec_format(v: Semver) -> Seq<char> {
    decimal(v.major as int) + seq!['.'] + decimal(v.minor as int) + seq!['.'] + decimal(
        v.patch as int,
    )
}

impl Semver {
    /// Versions are ordered by major, then minor, then patch number.
    pub open spec fn spec_le(self, other: Semver) -> bool {
        self.major < other.major || (self.major == other.major && (self.minor < other.minor || (
        self.minor == other.minor && self.patch <= other.patch)))
    }

    /// A clean step to a later minor release of the same major version.
    pub open spec fn spec_is_minor_update_of(self, other: Semver) -> bool {
        self.major == other.major && self.minor > other.minor && self.patch == 0
    }

    /// Reads a version.
    pub fn parse(s: &str) -> (r: Result<Semver, SemverParsingError>)
        ensures
            r == spec_parse(s@),
    {
        let chars = chars_of(s);
        if contains_char(&chars, '-') {
            return Err(SemverParsingError::Prerelease);
        }
        let parts = split_chars(&chars, '.');
        if parts.len() != 3 {
            return Err(SemverParsingError::InvalidFormat);
        }
        assert(views(parts@)[0] == parts@[0]@);
        assert(views(parts@)[1] == parts@[1]@);
        assert(views(parts@)[2] == parts@[2]@);
        let major = match parse_u32(&parts[0]) {
            Some(n) => n,
            None => { return Err(SemverParsingError::InvalidNumber("major")); },
        };
        let minor = match parse_u32(&parts[1]) {
            Some(n) => n,
            None => { return Err(SemverParsingError::InvalidNumber("minor")); },
        };
        let patch = match parse_u32(&parts[2]) {
            Some(n) => n,
            None => { return Err(SemverParsingError::InvalidNumber("patch")); },
        };
        Ok(Semver { major, minor, patch })
    }

    /// Writes the version as `major.minor.patch`.
    pub fn to_string(&self) -> (r: String)
        ensures
            r@ == spec_format(*self),
    {
        let mut out = String::new();
        push_decimal(&mut out, self.major);
        out.append(".");
        push_decimal(&mut out, self.minor);
        out.append(".");
        push_decimal(&mut out, self.patch);
        proof {
            reveal_strlit(".");
            assert("."@ =~= seq!['.']);
            assert(out@ =~= spec_format(*self));
        }
        out
    }

    /// Whether `self` is a minor release after `other` within the same major
    /// version, with no patch on top.
    pub fn is_minor_update_of(&self, other: &Semver) -> (r: bool)
        ensures
            r == self.spec_is_minor_update_of(*other),
    {
        self.major == other.major && self.minor > other.minor && self.patch == 0
    }

    /// Whether `self` does not come after `max`.
    pub fn is_at_most(&self, max: &Semver) -> (r: bool)
        ensures
            r == self.spec_le(*max),
    {
        self.major < max.major || (self.major == max.major && (self.minor < max.minor || (
        self.minor == max.minor && self.patch <= max.patch)))
    }
}

impl std::str::FromStr for Semver {
    type Err = SemverParsingError;

    /// Reads a version, as `Semver::parse` does.
    fn from_str(s: &str) -> (r: Result<Semver, SemverParsingError>)
        ensures
            r == spec_parse(s@),
    {
        Semver::parse(s)
    }
}

impl SemverParsingError {
    /// The error in words.
    pub fn message(&self) -> (r: String)
        ensures
            r@ == match *self {
                SemverParsingError::Prerelease => "pre-release versions are not supported"@,
                SemverParsingError::InvalidFormat => "invalid semver format"@,
                SemverParsingError::InvalidNumber(part) => "invalid "@ + part@ + " number"@,
            },
    {
        match self {
            SemverParsingError::Prerelease => String::from_str(
                "pre-release versions are not supported",
            ),
            SemverParsingError::InvalidFormat => String::from_str("invalid semver format"),
            SemverParsingError::InvalidNumber(part) => {
                let mut out = String::from_str("invalid ");
                out.append(part);
                out.append(" number");
                out
            },
        }
    }
}

/// A run of digits holds neither a dot, nor a dash, nor a plus sign.
proof fn lemma_digits_plain(s: Seq<char>)
    requires
        all_digits(s),
    ensures
        forall|i: int| 0 <= i < s.len() ==> s[i] != '.' && s[i] != '-' && s[i] != '+',
{
    assert forall|i: int| 0 <= i < s.len() implies s[i] != '.' && s[i] != '-' && s[i] != '+' by {
        assert(is_digit(s[i]));
    }
}

/// Digits followed by a dot are cut at that dot.
proof fn lemma_split_head(a: Seq<char>, rest: Seq<char>)
    requires
        all_digits(a),
    ensures
        split(a + seq!['.'] + rest, '.') == seq![a] + split(rest, '.'),
{
    let s = a + seq!['.'] + rest;
    lemma_digits_plain(a);
    assert(s[a.len() as int] == '.');
    assert forall|k: int| 0 <= k < a.len() implies s[k] != '.' by {
        assert(s[k] == a[k]);
    }
    lemma_first_index_is(s, '.', a.len() as int);
    assert(s.take(a.len() as int) == a);
    assert(s.skip(a.len() as int + 1) == rest);
}

/// Digits alone are one piece.
proof fn lemma_split_last(a: Seq<char>)
    requires
        all_digits(a),
    ensures
        split(a, '.') == seq![a],
{
    lemma_digits_plain(a);
    lemma_first_index_is(a, '.', a.len() as int);
}

/// The decimal writing of a 32-bit number reads as that number.
proof fn lemma_number_of_decimal(n: u32)
    ensures
        number_of(decimal(n as int)) == Some(n),
{
    lemma_decimal(n as int);
    lemma_digits_plain(decimal(n as int));
}

/// Every version, once written, reads as itself: for a string `s` of the
/// form `major.minor.patch` that writes the version `v`, reading `s` gives
/// `v`, and writing that again gives `s`.
pub proof fn lemma_round_trip(s: Seq<char>, v: Semver)
    requires
        s == spec_format(v),
    ensures
        spec_parse(s) == Ok::<Semver, SemverParsingError>(v),
        spec_format(spec_parse(s)->Ok_0) == s,
{
    let a = decimal(v.major as int);
    let b = decimal(v.minor as int);
    let c = decimal(v.patch as int);
    lemma_decimal(v.major as int);
    lemma_decimal(v.minor as int);
    lemma_decimal(v.patch as int);
    lemma_digits_plain(a);
    lemma_digits_plain(b);
    lemma_digits_plain(c);
    assert(!s.contains('-')) by {
        assert forall|i: int| 0 <= i < s.len() implies s[i] != '-' by {
            if i < a.len() {
                assert(s[i] == a[i]);
            } else if i == a.len() {
            } else if i < a.len() + 1 + b.len() {
                assert(s[i] == b[i - a.len() - 1]);
            } else if i == a.len() + 1 + b.len() {
            } else {
                assert(s[i] == c[i - a.len() - b.len() - 2]);
            }
        }
    }
    let rest = b + seq!['.'] + c;
    assert(s == a + seq!['.'] + rest);
    lemma_split_head(a, rest);
    lemma_split_head(b, c);
    lemma_split_last(c);
    assert(split(s, '.') == seq![a, b, c]);
    lemma_number_of_decimal(v.major);
    lemma_number_of_decimal(v.minor);
    lemma_number_of_decimal(v.patch);
}

/// A sequence that is cut into three pieces at its dots is those pieces with
/// a dot between each two.
proof fn lemma_three_parts(s: Seq<char>)
    requires
        split(s, '.').len() == 3,
    ensures
        s == split(s, '.')[0] + seq!['.'] + split(s, '.')[1] + seq!['.'] + split(s, '.')[2],
{
    let i = first_index(s, '.');
    lemma_first_index(s, '.');
    let rest = s.skip(i + 1);
    lemma_split_nonempty(rest, '.');
    assert(split(s, '.') == seq![s.take(i)] + split(rest, '.'));
    let j = first_index(rest, '.');
    lemma_first_index(rest, '.');
    assert(split(rest, '.').len() == 2);
    let last = rest.skip(j + 1);
    lemma_split_nonempty(last, '.');
    assert(split(rest, '.') == seq![rest.take(j)] + split(last, '.'));
    lemma_first_index(last, '.');
    let k = first_index(last, '.');
    if k < last.len() {
        lemma_split_nonempty(last.skip(k + 1), '.');
    }
    assert(split(last, '.').len() == 1);
    assert(split(last, '.') == seq![last]);
    assert(split(s, '.')[0] == s.take(i));
    assert(split(s, '.')[1] == split(rest, '.')[0]);
    assert(split(s, '.')[2] == split(rest, '.')[1]);
    assert(rest =~= rest.take(j) + seq!['.'] + last);
    assert(s =~= s.take(i) + seq!['.'] + rest.take(j) + seq!['.'] + last);
}

/// A string whose three parts are each the shortest writing of a number
/// that fits is written back as it was read: reading it gives a version, and
/// writing that version gives the string.
pub proof fn lemma_read_then_written(s: Seq<char>)
    requires
        split(s, '.').len() == 3,
        forall|i: int| 0 <= i < 3 ==> is_canonical(#[trigger] split(s, '.')[i]),
        forall|i: int| 0 <= i < 3 ==> number_of(#[trigger] split(s, '.')[i]) is Some,
    ensures
        spec_parse(s) is Ok,
        spec_format(spec_parse(s)->Ok_0) == s,
{
    let parts = split(s, '.');
    lemma_three_parts(s);
    assert(is_canonical(parts[0]) && is_canonical(parts[1]) && is_canonical(parts[2]));
    assert(number_of(parts[0]) is Some && number_of(parts[1]) is Some && number_of(parts[2]) is Some);
    lemma_digits_plain(parts[0]);
    lemma_digits_plain(parts[1]);
    lemma_digits_plain(parts[2]);
    lemma_decimal_of_canonical(parts[0]);
    lemma_decimal_of_canonical(parts[1]);
    lemma_decimal_of_canonical(parts[2]);
    assert(parts[0][0] != '+' && parts[1][0] != '+' && parts[2][0] != '+');
    lemma_decimal_value_nonnegative(parts[0]);
    lemma_decimal_value_nonnegative(parts[1]);
    lemma_decimal_value_nonnegative(parts[2]);
    let v = spec_parse(s)->Ok_0;
    assert(v.major == decimal_value(parts[0]));
    assert(v.minor == decimal_value(parts[1]));
    assert(v.patch == decimal_value(parts[2]));
    assert(!s.contains('-')) by {
        let a = parts[0];
        let b = parts[1];
        let c = parts[2];
        assert forall|i: int| 0 <= i < s.len() implies s[i] != '-' by {
            if i < a.len() {
                assert(s[i] == a[i]);
            } else if i == a.len() {
            } else if i < a.len() + 1 + b.len() {
                assert(s[i] == b[i - a.len() - 1]);
            } else if i == a.len() + 1 + b.len() {
            } else {
                assert(s[i] == c[i - a.len() - b.len() - 2]);
            }
        }
    }
}

/// The order of versions is total: of two versions, one does not come after
/// the other, and only equal versions are each at most the other.
pub proof fn lemma_order_total(a: Semver, b: Semver)
    ensures
        a.spec_le(b) || b.spec_le(a),
        a.spec_le(b) && b.spec_le(a) ==> a == b,
{
}

/// The order of versions is transitive.
pub proof fn lemma_order_transitive(a: Semver, b: Semver, c: Semver)
    requires
        a.spec_le(b),
        b.spec_le(c),
    ensures
        a.spec_le(c),
{
}

/// A minor update of a version comes strictly after it.
pub proof fn lemma_minor_update_is_later(a: Semver, b: Semver)
    requires
        a.spec_is_minor_update_of(b),
    ensures
        b.spec_le(a),
        a != b,
{
}

} // verus!
