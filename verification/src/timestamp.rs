//! The encoded timestamps of the schedule service.
//!
//! A timestamp is written as `/Date(`, ten digits of Unix seconds, `000-`,
//! two digits of hours and two of minutes west of UTC, and `)/`, as in
//! `/Date(1436318400000-0700)/`.

use vstd::prelude::*;
use crate::text::{all_digits, digits_value, fixed_digits, pow10, push_fixed, read_digits};
use crate::text::{lemma_digits_value_bound, lemma_fixed_digits};

verus! {

/// A point in time with the offset it was written with.
pub ghost struct Moment {
    /// Whole seconds since the Unix epoch.
    pub epoch: int,
    /// Seconds west of UTC.
    pub west: int,
}

impl Moment {
    /// Whether the moment can be written in the encoded form: ten digits of
    /// seconds, and an offset of whole minutes below one day.
    pub open spec fn is_encodable(self) -> bool {
        &&& 0 <= self.epoch < 10_000_000_000
        &&& 0 <= self.west < 86_400
        &&& self.west % 60 == 0
    }
}

/// What every encoded timestamp starts with.
pub open spec fn opening() -> Seq<char> {
    seq!['/', 'D', 'a', 't', 'e', '(']
}

/// What stands between the seconds and the offset.
pub open spec fn middle() -> Seq<char> {
    seq!['0', '0', '0', '-']
}

/// What every encoded timestamp ends with.
pub open spec fn closing() -> Seq<char> {
    seq![')', '/']
}

/// The encoded form of a moment.
pub open spec fn encoded(m: Moment) -> Seq<char> {
    opening() + fixed_digits(m.epoch as nat, 10) + middle() + fixed_digits(
        (m.west / 3600) as nat,
        2,
    ) + fixed_digits(((m.west % 3600) / 60) as nat, 2) + closing()
}

/// Whether a text has the fixed shape of an encoded timestamp.
pub open spec fn fits_pattern(s: Seq<char>) -> bool {
    &&& s.len() == 26
    &&& s.subrange(0, 6) == opening()
    &&& all_digits(s.subrange(6, 16))
    &&& s.subrange(16, 20) == middle()
    &&& all_digits(s.subrange(20, 22))
    &&& all_digits(s.subrange(22, 24))
    &&& s.subrange(24, 26) == closing()
}

/// The moment that the digits of a text write, where it fits the pattern.
pub open spec fn written_moment(s: Seq<char>) -> Moment {
    Moment {
        epoch: digits_value(s.subrange(6, 16)) as int,
        west: (digits_value(s.subrange(20, 22)) * 3600 + digits_value(s.subrange(22, 24)) * 60) as int,
    }
}

/// The moment that a text encodes: none unless the text fits the pattern and
/// its offset stays below one day.
pub open spec fn decoded(s: Seq<char>) -> Option<Moment> {
    if fits_pattern(s) && written_moment(s).west < 86_400 {
        Some(written_moment(s))
    } else {
        None
    }
}

/// A decoded timestamp: whole Unix seconds and an offset west of UTC.
#[derive(Debug, PartialEq, Eq)]
pub struct Timestamp {
    epoch: i64,
    west: i32,
}

impl View for Timestamp {
    type V = Moment;

    closed spec fn view(&self) -> Moment {
        Moment { epoch: self.epoch as int, west: self.west as int }
    }
}

/// Tests whether `text` holds the characters of `literal` from position `at` on.
fn has_literal(text: &str, at: usize, literal: &str) -> (r: bool)
    requires
        at + literal@.len() <= text@.len(),
    ensures
        r == (text@.subrange(at as int, at + literal@.len()) == literal@),
{
    let n: usize = literal.unicode_len();
    let total: usize = text.unicode_len();
    let mut i: usize = 0;
    while i < n
        invariant
            i <= n,
            n == literal@.len(),
            total == text@.len(),
            at + n <= total,
            forall|j: int| 0 <= j < i ==> text@[at + j] == literal@[j],
        decreases n - i,
    {
        if text.get_char(at + i) != literal.get_char(i) {
            assert(text@.subrange(at as int, at + literal@.len())[i as int] != literal@[i as int]);
            return false;
        }
        i = i + 1;
    }
    assert(text@.subrange(at as int, at + literal@.len()) =~= literal@);
    true
}

impl Timestamp {
    #[verifier::type_invariant]
    spec fn well_formed(self) -> bool {
        self@.is_encodable()
    }

    /// A timestamp of the given seconds and offset, where they can be encoded.
    pub fn new(epoch: i64, west: i32) -> (r: Option<Timestamp>)
        ensures
            r is Some <==> (Moment { epoch: epoch as int, west: west as int }).is_encodable(),
            r matches Some(t) ==> t@ == (Moment { epoch: epoch as int, west: west as int }),
    {
        if 0 <= epoch && epoch < 10_000_000_000 && 0 <= west && west < 86_400 && west % 60 == 0 {
            Some(Timestamp { epoch, west })
        } else {
            None
        }
    }

    /// Whole seconds since the Unix epoch.
    pub fn epoch(&self) -> (r: i64)
        ensures
            r == self@.epoch,
            self@.is_encodable(),
    {
        proof {
            use_type_invariant(self);
        }
        self.epoch
    }

    /// Seconds west of UTC.
    pub fn west_offset(&self) -> (r: i32)
        ensures
            r == self@.west,
            self@.is_encodable(),
    {
        proof {
            use_type_invariant(self);
        }
        self.west
    }

    /// Whether this moment lies after `now`, given in whole Unix seconds.
    pub fn is_after(&self, now: i64) -> (r: bool)
        ensures
            r == (self@.epoch > now),
    {
        self.epoch > now
    }

    /// Reads an encoded timestamp.
    pub fn decode(text: &str) -> (r: Option<Timestamp>)
        ensures
            r is Some <==> decoded(text@) is Some,
            r matches Some(t) ==> decoded(text@) == Some(t@),
    {
        if text.unicode_len() != 26 {
            return None;
        }
        proof {
            reveal_strlit("/Date(");
            reveal_strlit("000-");
            reveal_strlit(")/");
            assert("/Date("@ =~= opening());
            assert("000-"@ =~= middle());
            assert(")/"@ =~= closing());
        }
        if !has_literal(text, 0, "/Date(") || !has_literal(text, 16, "000-") || !has_literal(
            text,
            24,
            ")/",
        ) {
            return None;
        }
        let seconds: u64 = match read_digits(text, 6, 16) {
            Some(v) => v,
            None => {
                return None;
            },
        };
        let hours: u64 = match read_digits(text, 20, 22) {
            Some(v) => v,
            None => {
                return None;
            },
        };
        let minutes: u64 = match read_digits(text, 22, 24) {
            Some(v) => v,
            None => {
                return None;
            },
        };
        proof {
            lemma_digits_value_bound(text@.subrange(6, 16));
            lemma_digits_value_bound(text@.subrange(20, 22));
            lemma_digits_value_bound(text@.subrange(22, 24));
            assert(pow10(10) == 10_000_000_000) by {
                reveal_with_fuel(pow10, 11);
            }
            assert(pow10(2) == 100) by {
                reveal_with_fuel(pow10, 3);
            }
        }
        let west: u64 = hours * 3600 + minutes * 60;
        if west >= 86_400 {
            return None;
        }
        Some(Timestamp { epoch: seconds as i64, west: west as i32 })
    }

    /// Writes the timestamp in its encoded form.
    pub fn encode(&self) -> (r: String)
        ensures
            r@ == encoded(self@),
    {
        proof {
            use_type_invariant(self);
            reveal_strlit("/Date(");
            reveal_strlit("000-");
            reveal_strlit(")/");
            assert("/Date("@ =~= opening());
            assert("000-"@ =~= middle());
            assert(")/"@ =~= closing());
        }
        let mut out: String = String::from_str("/Date(");
        push_fixed(&mut out, self.epoch as u64, 10);
        out.append("000-");
        push_fixed(&mut out, (self.west / 3600) as u64, 2);
        push_fixed(&mut out, ((self.west % 3600) / 60) as u64, 2);
        out.append(")/");
        out
    }
}

/// An encodable moment is what its encoded form decodes to.
pub proof fn lemma_decoding_inverts_encoding(m: Moment)
    requires
        m.is_encodable(),
    ensures
        decoded(encoded(m)) == Some(m),
{
    let hours = (m.west / 3600) as nat;
    let minutes = ((m.west % 3600) / 60) as nat;
    let s = encoded(m);
    lemma_fixed_digits(m.epoch as nat, 10);
    lemma_fixed_digits(hours, 2);
    lemma_fixed_digits(minutes, 2);
    assert(pow10(10) == 10_000_000_000) by {
        reveal_with_fuel(pow10, 11);
    }
    assert(pow10(2) == 100) by {
        reveal_with_fuel(pow10, 3);
    }
    assert(s.len() == 26);
    assert(s.subrange(0, 6) =~= opening());
    assert(s.subrange(6, 16) =~= fixed_digits(m.epoch as nat, 10));
    assert(s.subrange(16, 20) =~= middle());
    assert(s.subrange(20, 22) =~= fixed_digits(hours, 2));
    assert(s.subrange(22, 24) =~= fixed_digits(minutes, 2));
    assert(s.subrange(24, 26) =~= closing());
}

/// Whatever decodes is encodable.
pub proof fn lemma_decoded_is_encodable(s: Seq<char>)
    ensures
        decoded(s) matches Some(m) ==> m.is_encodable(),
{
    if decoded(s) is Some {
        lemma_digits_value_bound(s.subrange(6, 16));
        assert(pow10(10) == 10_000_000_000) by {
            reveal_with_fuel(pow10, 11);
        }
    }
}

/// Decoding a timestamp, encoding what came out and decoding that again
/// gives the same seconds and the same offset.
pub proof fn lemma_reencoding_keeps_moment(s: Seq<char>)
    ensures
        decoded(s) matches Some(m) ==> decoded(encoded(m)) == Some(m),
{
    if decoded(s) is Some {
        lemma_decoded_is_encodable(s);
        lemma_decoding_inverts_encoding(decoded(s)->0);
    }
}

} // verus!
