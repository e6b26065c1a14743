//! Whether the pipeline is configured for one publishing thread or several.

use vstd::prelude::*;
use vstd::string::{StrSliceExecFns, StringExecFns};

verus! {

/// Specifies whether one thread or several threads publish events.
#[derive(Debug, Clone, Copy, PartialEq, Eq, Hash, Structural)]
pub enum ProducerType {
    /// Exactly one publishing thread; the claim path needs no coordination.
    Single,
    /// Several publishing threads share one sequencer.
    Multi,
}

/// The lowercase form of an ASCII letter; every other character is unchanged.
pub open spec fn ascii_lower(c: char) -> char {
    if 'A' <= c && c <= 'Z' {
        ((c as int) + 32) as char
    } else {
        c
    }
}

/// `s` equals `word` once its ASCII letters are lowered (`word` is lowercase).
///
/// For the lowercase ASCII words this module compares against, this is the
/// same as comparing the Unicode lowercase form of `s` with `word`: no other
/// character lowers to one of their letters.
pub open spec fn equals_ignoring_case(s: Seq<char>, word: Seq<char>) -> bool {
    s.len() == word.len() && forall|i: int| 0 <= i < s.len() ==> ascii_lower(#[trigger] s[i])
        == word[i]
}

/// The display form of a producer type.
pub open spec fn producer_type_text(t: ProducerType) -> Seq<char> {
    if t == ProducerType::Single {
        "Single"@
    } else {
        "Multi"@
    }
}

/// The producer type that a text names, if any.
pub open spec fn parsed_producer_type(s: Seq<char>) -> Option<ProducerType> {
    if equals_ignoring_case(s, "single"@) {
        Some(ProducerType::Single)
    } else if equals_ignoring_case(s, "multi"@) {
        Some(ProducerType::Multi)
    } else {
        None
    }
}

/// The message of a rejected producer type text.
pub open spec fn invalid_producer_type_message(s: Seq<char>) -> Seq<char> {
    "Invalid producer type: '"@ + s + "'. Valid values are 'single' or 'multi'"@
}

fn lower_char(c: char) -> (r: char)
    ensures
        r == ascii_lower(c),
{
    if 'A' <= c && c <= 'Z' {
        let b: u8 = c as u8;
        (b + 32) as char
    } else {
        c
    }
}

fn equals_word(s: &str, word: &str) -> (r: bool)
    ensures
        r == equals_ignoring_case(s@, word@),
{
    let n = s.unicode_len();
    if n != word.unicode_len() {
        return false;
    }
    let mut i: usize = 0;
    while i < n
        invariant
            n == s@.len(),
            n == word@.len(),
            i <= n,
            forall|j: int| 0 <= j < i ==> ascii_lower(#[trigger] s@[j]) == word@[j],
        decreases n - i,
    {
        if lower_char(s.get_char(i)) != word.get_char(i) {
            return false;
        }
        i = i + 1;
    }
    true
}

impl ProducerType {
    /// True when this is the single-producer type.
    pub fn is_single(&self) -> (r: bool)
        ensures
            r == (*self == ProducerType::Single),
    {
        matches!(self, ProducerType::Single)
    }

    /// True when this is the multi-producer type.
    pub fn is_multi(&self) -> (r: bool)
        ensures
            r == (*self == ProducerType::Multi),
    {
        matches!(self, ProducerType::Multi)
    }

    /// The display name: `Single` or `Multi`.
    pub fn describe(&self) -> (s: String)
        ensures
            s@ == producer_type_text(*self),
    {
        match self {
            ProducerType::Single => String::from_str("Single"),
            ProducerType::Multi => String::from_str("Multi"),
        }
    }

    /// Parses `single` or `multi`, in any letter case.
    pub fn parse(s: &str) -> (r: Result<ProducerType, String>)
        ensures
            match parsed_producer_type(s@) {
                Some(t) => r == Ok::<ProducerType, String>(t),
                None => r is Err && r->Err_0@ == invalid_producer_type_message(s@),
            },
    {
        if equals_word(s, "single") {
            Ok(ProducerType::Single)
        } else if equals_word(s, "multi") {
            Ok(ProducerType::Multi)
        } else {
            let m = String::from_str("Invalid producer type: '");
            let m = m.concat(s);
            let m = m.concat("'. Valid values are 'single' or 'multi'");
            Err(m)
        }
    }
}

impl Default for ProducerType {
    /// Multi-producer, the type that stays correct whatever the number of publishers.
    fn default() -> (r: Self)
        ensures
            r == ProducerType::Multi,
    {
        ProducerType::Multi
    }
}

impl core::str::FromStr for ProducerType {
    type Err = String;

    fn from_str(s: &str) -> (r: Result<Self, String>)
        ensures
            match parsed_producer_type(s@) {
                Some(t) => r == Ok::<ProducerType, String>(t),
                None => r is Err && r->Err_0@ == invalid_producer_type_message(s@),
            },
    {
        ProducerType::parse(s)
    }
}

} // verus!
