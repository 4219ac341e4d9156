use vstd::prelude::*;

use crate::error::EnigmaError;

verus! {

/// Number of symbols in the alphabet.
pub const ALPHABET: u8 = 26;

/// Is `c` a Latin letter, in either case?
pub open spec fn is_letter_char(c: char) -> bool {
    ('A' <= c && c <= 'Z') || ('a' <= c && c <= 'z')
}

/// Position of a letter character in the alphabet, ignoring case.
pub open spec fn char_index(c: char) -> nat {
    if 'A' <= c && c <= 'Z' {
        (c as int - 'A' as int) as nat
    } else {
        (c as int - 'a' as int) as nat
    }
}

/// The upper-case character at alphabet position `i`.
pub open spec fn index_char(i: nat) -> char {
    (i + 'A' as int) as char
}

/// One symbol of the alphabet, held as its position `0..26`.
#[derive(Clone, Copy, Debug, PartialEq, Eq, Structural)]
pub struct Letter {
    idx: u8,
}

impl Letter {
    #[verifier::type_invariant]
    spec fn in_range(self) -> bool {
        self.idx < ALPHABET
    }
}

// The position is taken modulo the alphabet so that it lies in range for
// every value, ghost ones included; for a real letter the invariant makes it
// the stored index.
impl View for Letter {
    type V = nat;

    closed spec fn view(&self) -> nat {
        (self.idx % ALPHABET) as nat
    }
}

/// A letter's position is always inside the alphabet.
pub broadcast proof fn lemma_letter_range(l: Letter)
    ensures
        #[trigger] l@ < 26,
{
}

impl Letter {
    /// The letter at position `i`.
    pub fn from_index(i: u8) -> (r: Letter)
        requires
            i < 26,
        ensures
            r@ == i,
    {
        Letter { idx: i }
    }

    /// The letter's position in the alphabet.
    pub fn index(&self) -> (r: u8)
        ensures
            r == self@,
            r < 26,
    {
        proof {
            use_type_invariant(self);
        }
        self.idx
    }

    /// Reads a letter, ignoring case; anything else is `InvalidLetter`.
    pub fn from_char(c: char) -> (r: Result<Letter, EnigmaError>)
        ensures
            is_letter_char(c) ==> (r matches Ok(l) && l@ == char_index(c)),
            !is_letter_char(c) ==> r == Err::<Letter, EnigmaError>(EnigmaError::InvalidLetter),
    {
        if 'A' <= c && c <= 'Z' {
            let i = (c as u32 - 'A' as u32) as u8;
            Ok(Letter { idx: i })
        } else if 'a' <= c && c <= 'z' {
            let i = (c as u32 - 'a' as u32) as u8;
            Ok(Letter { idx: i })
        } else {
            Err(EnigmaError::InvalidLetter)
        }
    }

    /// The upper-case character of this letter.
    pub fn to_char(&self) -> (r: char)
        ensures
            r == index_char(self@),
            'A' <= r <= 'Z',
    {
        proof {
            use_type_invariant(self);
        }
        ((self.idx as u32) + ('A' as u32)) as u8 as char
    }
}

} // verus!
