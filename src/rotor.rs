use vstd::prelude::*;

use crate::catalog::{
    RotorId,
    inverse_tables,
    is_notch,
    lemma_rotor_inverse,
    rotor_inverse,
    rotor_inverse_table,
    rotor_notch,
    rotor_table,
    rotor_wiring,
};
use crate::letter::{Letter, lemma_letter_range};

verus! {

broadcast use lemma_letter_range;

/// A signal entering, at contact `x`, a wheel whose table is `w` and which is
/// turned to `off`, leaves it at this contact.
pub open spec fn shift_through(w: Seq<u8>, off: nat, x: nat) -> nat {
    ((w[((x + off) % 26) as int] - off) % 26) as nat
}

/// A rotor of wiring `id` turned to `off` passed towards the reflector.
pub open spec fn rotor_forward(id: RotorId, off: nat, x: nat) -> nat {
    shift_through(rotor_wiring(id), off, x)
}

/// The same rotor passed the other way, coming back from the reflector.
pub open spec fn rotor_backward(id: RotorId, off: nat, x: nat) -> nat {
    shift_through(rotor_inverse(id), off, x)
}

/// One wheel of the machine: a catalog wiring turned to an offset.
#[derive(Clone, Copy, Debug)]
pub struct Rotor {
    pub id: RotorId,
    pub offset: Letter,
}

impl Rotor {
    /// A rotor of wiring `id` turned to `offset`.
    pub fn new(id: RotorId, offset: Letter) -> (r: Rotor)
        ensures
            r.id == id,
            r.offset@ == offset@,
    {
        Rotor { id, offset }
    }

    /// Passes a letter through the rotor towards the reflector.
    pub fn forward(&self, l: Letter) -> (r: Letter)
        ensures
            r@ == rotor_forward(self.id, self.offset@, l@),
    {
        let t = rotor_table(self.id);
        proof {
            lemma_rotor_inverse(self.id);
        }
        let off = self.offset.index();
        let w = t[((l.index() + off) % 26) as usize];
        Letter::from_index((w + 26 - off) % 26)
    }

    /// Passes a letter through the rotor on the way back from the reflector.
    pub fn backward(&self, l: Letter) -> (r: Letter)
        ensures
            r@ == rotor_backward(self.id, self.offset@, l@),
    {
        let t = rotor_inverse_table(self.id);
        proof {
            lemma_rotor_inverse(self.id);
        }
        let off = self.offset.index();
        let w = t[((l.index() + off) % 26) as usize];
        Letter::from_index((w + 26 - off) % 26)
    }

    /// Advances the rotor by one position; says whether it has just come onto
    /// a notch, so that its left neighbour steps too.
    pub fn step(&mut self) -> (carry: bool)
        ensures
            final(self).id == old(self).id,
            final(self).offset@ == (old(self).offset@ + 1) % 26,
            carry == rotor_notch(final(self).id, final(self).offset@),
    {
        let next = (self.offset.index() + 1) % 26;
        self.offset = Letter::from_index(next);
        is_notch(self.id, next)
    }
}

proof fn lemma_shift_round_trip(w: Seq<u8>, v: Seq<u8>, off: nat, x: nat)
    requires
        inverse_tables(w, v),
        off < 26,
        x < 26,
    ensures
        shift_through(w, off, x) < 26,
        shift_through(v, off, shift_through(w, off, x)) == x,
{
    let y = (x + off) % 26;
    assert(y == x + off || y == x + off - 26);
    let wy = w[y as int];
    assert(wy < 26 && v[wy as int] == y);
    let f = shift_through(w, off, x);
    assert(f == wy - off || f == wy - off + 26);
    assert((f + off) % 26 == wy);
    assert(shift_through(v, off, f) == ((v[wy as int] - off) % 26) as nat);
}

/// Coming back through a rotor undoes going through it, and the other way
/// round.
pub proof fn lemma_rotor_round_trip(id: RotorId, off: nat, x: nat)
    requires
        off < 26,
        x < 26,
    ensures
        rotor_forward(id, off, x) < 26,
        rotor_backward(id, off, x) < 26,
        rotor_backward(id, off, rotor_forward(id, off, x)) == x,
        rotor_forward(id, off, rotor_backward(id, off, x)) == x,
{
    lemma_rotor_inverse(id);
    let w = rotor_wiring(id);
    let v = rotor_inverse(id);
    lemma_shift_round_trip(w, v, off, x);
    lemma_shift_round_trip(v, w, off, x);
}

} // verus!
