use vstd::prelude::*;

use crate::config::{chars_of, configured, token_chars};
use crate::error::EnigmaError;
use crate::letter::{Letter, char_index, index_char, is_letter_char, lemma_letter_range};
use crate::machine::{
    EnigmaMachine,
    MachineModel,
    MachineState,
    Message,
    after_presses,
    lemma_one_press,
    route,
};

verus! {

broadcast use lemma_letter_range;

/// Relies on `String::push`: appends one character at the end.
#[verifier::external_body]
fn push_char(s: &mut String, c: char)
    ensures
        final(s)@ == old(s)@.push(c),
{
    s.push(c)
}

/// How many letters `t` holds.
pub open spec fn letters_in(t: Seq<char>) -> nat
    decreases t.len(),
{
    if t.len() == 0 {
        0
    } else {
        letters_in(t.drop_last()) + if is_letter_char(t.last()) {
            1nat
        } else {
            0nat
        }
    }
}

/// What a machine in state `m` makes of a line of text: each letter is keyed
/// (the rotors stepping first) and comes out in upper case; every other
/// character passes through as it is and leaves the rotors where they stand.
pub open spec fn encipher_text(m: MachineModel, t: Seq<char>) -> Seq<char> {
    Seq::new(
        t.len(),
        |i: int|
            if is_letter_char(t[i]) {
                index_char(route(after_presses(m, letters_in(t.take(i + 1))), char_index(t[i])))
            } else {
                t[i]
            },
    )
}

impl Message {
    /// Reads a message of letters, either case; any other character is
    /// `InvalidLetter`.
    pub fn from_text(s: &str) -> (r: Result<Message, EnigmaError>)
        ensures
            match r {
                Ok(m) => (forall|i: int| 0 <= i < s@.len() ==> is_letter_char(#[trigger] s@[i]))
                    && m@ == s@.map_values(|c: char| char_index(c)),
                Err(e) => e == EnigmaError::InvalidLetter && exists|i: int|
                    0 <= i < s@.len() && !is_letter_char(#[trigger] s@[i]),
            },
    {
        let cs = chars_of(s);
        let mut letters: Vec<Letter> = Vec::new();
        let mut i: usize = 0;
        while i < cs.len()
            invariant
                cs@ == s@,
                i <= cs@.len(),
                letters@.len() == i,
                forall|j: int| 0 <= j < i ==> is_letter_char(#[trigger] cs@[j]),
                forall|j: int| 0 <= j < i ==> (#[trigger] letters@[j])@ == char_index(cs@[j]),
            decreases cs.len() - i,
        {
            match Letter::from_char(cs[i]) {
                Ok(l) => letters.push(l),
                Err(e) => {
                    assert(!is_letter_char(s@[i as int]));
                    return Err(e);
                },
            }
            i = i + 1;
        }
        let m = Message { letters };
        assert(m@ =~= s@.map_values(|c: char| char_index(c)));
        Ok(m)
    }

    /// The message as upper-case text.
    pub fn to_string(&self) -> (r: String)
        ensures
            r@ == self@.map_values(|x: nat| index_char(x)),
    {
        let mut out = String::new();
        let mut i: usize = 0;
        while i < self.letters.len()
            invariant
                i <= self.letters@.len(),
                out@ == self@.map_values(|x: nat| index_char(x)).take(i as int),
            decreases self.letters.len() - i,
        {
            push_char(&mut out, self.letters[i].to_char());
            i = i + 1;
            assert(out@ =~= self@.map_values(|x: nat| index_char(x)).take(i as int));
        }
        assert(out@ =~= self@.map_values(|x: nat| index_char(x)));
        out
    }
}

impl EnigmaMachine {
    /// Enciphers a line of text. Letters of either case are keyed and come out
    /// in upper case; any other character is copied unchanged and does not
    /// turn the rotors.
    pub fn consume_text(&mut self, text: &str) -> (r: String)
        requires
            old(self).wf(),
        ensures
            final(self).wf(),
            final(self)@ == after_presses(old(self)@, letters_in(text@)),
            r@ == encipher_text(old(self)@, text@),
    {
        let ghost m0 = self@;
        let ghost t = text@;
        let cs = chars_of(text);
        let mut out = String::new();
        let mut i: usize = 0;
        assert(t.take(0) =~= Seq::<char>::empty());
        while i < cs.len()
            invariant
                self.wf(),
                cs@ == t,
                i <= t.len(),
                self@ == after_presses(m0, letters_in(t.take(i as int))),
                out@ == encipher_text(m0, t).take(i as int),
            decreases cs.len() - i,
        {
            let c = cs[i];
            assert(t.take(i + 1).drop_last() =~= t.take(i as int));
            assert(t.take(i + 1).last() == c);
            match Letter::from_char(c) {
                Ok(l) => {
                    proof {
                        lemma_one_press(m0, letters_in(t.take(i as int)));
                    }
                    let k = self.press(l);
                    push_char(&mut out, k.to_char());
                },
                Err(_) => {
                    push_char(&mut out, c);
                },
            }
            i = i + 1;
            assert(out@ =~= encipher_text(m0, t).take(i as int));
        }
        assert(t.take(t.len() as int) =~= t);
        assert(out@ =~= encipher_text(m0, t));
        out
    }
}

/// The settings a user gives for enciphering: a reflector name, rotor tokens
/// `ID` or `ID:LETTER` (rightmost rotor first), and two-letter plug tokens.
pub struct EncipherArgs {
    pub reflector_id: String,
    pub rotor_ids: Vec<String>,
    pub plug_map: Vec<String>,
}

impl EncipherArgs {
    /// The machine that these settings describe, or the first fault in them.
    pub fn machine(&self) -> (r: Result<EnigmaMachine, EnigmaError>)
        ensures
            match r {
                Ok(m) => m.wf() && configured(
                    self.reflector_id@,
                    token_chars(self.rotor_ids@),
                    token_chars(self.plug_map@),
                ) == Ok::<MachineModel, EnigmaError>(m@),
                Err(e) => configured(
                    self.reflector_id@,
                    token_chars(self.rotor_ids@),
                    token_chars(self.plug_map@),
                ) == Err::<MachineModel, EnigmaError>(e),
            },
    {
        match MachineState::from_tokens(self.reflector_id.as_str(), &self.rotor_ids, &self.plug_map) {
            Ok(s) => Ok(EnigmaMachine::from_state(&s)),
            Err(e) => Err(e),
        }
    }
}

} // verus!
