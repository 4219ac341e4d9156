use vstd::prelude::*;

use crate::catalog::{
    ReflectorId,
    RotorId,
    lemma_reflector_involution,
    reflect,
    reflector_wiring,
    rotor_notch,
};
use crate::error::EnigmaError;
use crate::letter::{Letter, lemma_letter_range};
use crate::plugboard::{
    Plugboard,
    is_involution,
    pair_positions,
    pairs_ok,
    plug_image,
};
use crate::rotor::{Rotor, lemma_rotor_round_trip, rotor_backward, rotor_forward};

verus! {

broadcast use lemma_letter_range;

/// The number of rotor slots of the machine.
pub const ROTOR_SLOTS: usize = 3;

/// What determines a machine's output: its rotors, rightmost first, with
/// their offsets; its reflector; and its plugboard table.
pub struct MachineModel {
    pub ids: Seq<RotorId>,
    pub offsets: Seq<nat>,
    pub reflector: ReflectorId,
    pub plugs: Seq<u8>,
}

impl MachineModel {
    /// One offset per rotor, each inside the alphabet, and a self-undoing
    /// plugboard.
    pub open spec fn wf(self) -> bool {
        &&& self.ids.len() == self.offsets.len()
        &&& forall|i: int| 0 <= i < self.offsets.len() ==> #[trigger] self.offsets[i] < 26
        &&& is_involution(self.plugs)
    }

    /// The same machine with its rotors turned to `offsets`.
    pub open spec fn with_offsets(self, offsets: Seq<nat>) -> MachineModel {
        MachineModel { offsets, ..self }
    }
}

/// Does rotor `j` turn on the next key press? The rightmost rotor always
/// does; any other turns when its right neighbour turns and lands on one of
/// that neighbour's notches (simple propagation, no double step).
pub open spec fn turns(ids: Seq<RotorId>, offs: Seq<nat>, j: nat) -> bool
    decreases j,
{
    if j == 0 {
        true
    } else {
        turns(ids, offs, (j - 1) as nat) && rotor_notch(
            ids[j - 1],
            (offs[j - 1] + 1) % 26,
        )
    }
}

/// The rotor offsets after one key press.
pub open spec fn step_offsets(ids: Seq<RotorId>, offs: Seq<nat>) -> Seq<nat> {
    Seq::new(
        offs.len(),
        |j: int|
            if turns(ids, offs, j as nat) {
                (offs[j] + 1) % 26
            } else {
                offs[j]
            },
    )
}

/// The rotor offsets after `n` key presses.
pub open spec fn steps(ids: Seq<RotorId>, offs: Seq<nat>, n: nat) -> Seq<nat>
    decreases n,
{
    if n == 0 {
        offs
    } else {
        step_offsets(ids, steps(ids, offs, (n - 1) as nat))
    }
}

/// A signal at `x` passed through the first `k` rotors, rightmost first.
pub open spec fn pass_forward(ids: Seq<RotorId>, offs: Seq<nat>, k: nat, x: nat) -> nat
    decreases k,
{
    if k == 0 {
        x
    } else {
        rotor_forward(ids[k - 1], offs[k - 1], pass_forward(ids, offs, (k - 1) as nat, x))
    }
}

/// A signal at `x` passed back through the first `k` rotors, leftmost of them
/// first.
pub open spec fn pass_backward(ids: Seq<RotorId>, offs: Seq<nat>, k: nat, x: nat) -> nat
    decreases k,
{
    if k == 0 {
        x
    } else {
        pass_backward(ids, offs, (k - 1) as nat, rotor_backward(ids[k - 1], offs[k - 1], x))
    }
}

/// The letter that comes out when `x` is keyed with the rotors standing as
/// they are: plugboard, rotors, reflector, rotors back, plugboard.
pub open spec fn route(m: MachineModel, x: nat) -> nat {
    let n = m.ids.len();
    let into = m.plugs[x as int] as nat;
    let there = pass_forward(m.ids, m.offsets, n, into);
    let back = reflector_wiring(m.reflector)[there as int] as nat;
    m.plugs[pass_backward(m.ids, m.offsets, n, back) as int] as nat
}

/// The machine after `n` key presses.
pub open spec fn after_presses(m: MachineModel, n: nat) -> MachineModel {
    m.with_offsets(steps(m.ids, m.offsets, n))
}

/// What a machine in state `m` makes of a message: each letter is keyed in
/// turn, the rotors stepping before each one.
pub open spec fn encipher(m: MachineModel, msg: Seq<nat>) -> Seq<nat> {
    Seq::new(msg.len(), |i: int| route(after_presses(m, (i + 1) as nat), msg[i]))
}

/// An ordered sequence of letters.
#[derive(Debug)]
pub struct Message {
    pub letters: Vec<Letter>,
}

impl View for Message {
    type V = Seq<nat>;

    open spec fn view(&self) -> Seq<nat> {
        self.letters@.map_values(|l: Letter| l@)
    }
}

impl Message {
    /// A message of the given letters.
    pub fn new(letters: Vec<Letter>) -> (r: Message)
        ensures
            r.letters@ == letters@,
    {
        Message { letters }
    }

    /// Number of letters in the message.
    pub fn len(&self) -> (r: usize)
        ensures
            r == self@.len(),
    {
        self.letters.len()
    }
}

/// A validated configuration from which machines are built.
#[derive(Debug)]
pub struct MachineState {
    reflector: ReflectorId,
    rotor_ids: Vec<RotorId>,
    rotor_starts: Vec<Letter>,
    plugboard: Plugboard,
}

impl MachineState {
    /// The machine that this configuration describes, before any key press.
    pub closed spec fn model(&self) -> MachineModel {
        MachineModel {
            ids: self.rotor_ids@,
            offsets: self.rotor_starts@.map_values(|l: Letter| l@),
            reflector: self.reflector,
            plugs: self.plugboard@,
        }
    }

    /// Every configuration that exists has been through `new`.
    pub closed spec fn wf(&self) -> bool {
        &&& self.rotor_ids@.len() == ROTOR_SLOTS
        &&& self.rotor_starts@.len() == ROTOR_SLOTS
        &&& self.plugboard.wf()
    }

    /// Checks a configuration: exactly `ROTOR_SLOTS` rotors, rightmost first,
    /// each with a start; then the plug pairs. Stops at the first fault.
    pub fn new(
        plugs: Vec<(Letter, Letter)>,
        rotor_ids: Vec<RotorId>,
        rotor_starts: Vec<Letter>,
        reflector: ReflectorId,
    ) -> (r: Result<MachineState, EnigmaError>)
        ensures
            rotor_ids@.len() != ROTOR_SLOTS || rotor_starts@.len() != ROTOR_SLOTS ==> r
                == Err::<MachineState, EnigmaError>(EnigmaError::ConfigError),
            rotor_ids@.len() == ROTOR_SLOTS && rotor_starts@.len() == ROTOR_SLOTS ==> match r {
                Ok(s) => {
                    &&& pairs_ok(pair_positions(plugs@))
                    &&& s.wf()
                    &&& s.model().wf()
                    &&& s.model().ids == rotor_ids@
                    &&& s.model().offsets == rotor_starts@.map_values(|l: Letter| l@)
                    &&& s.model().reflector == reflector
                    &&& forall|x: nat| x < 26 ==> #[trigger] s.model().plugs[x as int] == plug_image(
                        pair_positions(plugs@),
                        x,
                    )
                },
                Err(e) => e == EnigmaError::ConfigError && !pairs_ok(pair_positions(plugs@)),
            },
    {
        if rotor_ids.len() != ROTOR_SLOTS || rotor_starts.len() != ROTOR_SLOTS {
            return Err(EnigmaError::ConfigError);
        }
        match Plugboard::new(&plugs) {
            Ok(plugboard) => {
                let s = MachineState { reflector, rotor_ids, rotor_starts, plugboard };
                assert forall|x: nat| x < 26 implies #[trigger] s.model().plugs[x as int]
                    == plug_image(pair_positions(plugs@), x) by {
                    assert(plugboard.spec_swap(x) == plug_image(pair_positions(plugs@), x));
                }
                Ok(s)
            },
            Err(e) => Err(e),
        }
    }
}

/// The machine itself: rotors (rightmost first) that turn as letters are
/// keyed, a reflector, and a plugboard.
#[derive(Debug)]
pub struct EnigmaMachine {
    rotors: Vec<Rotor>,
    reflector: ReflectorId,
    plugboard: Plugboard,
}

impl View for EnigmaMachine {
    type V = MachineModel;

    closed spec fn view(&self) -> MachineModel {
        MachineModel {
            ids: self.rotors@.map_values(|r: Rotor| r.id),
            offsets: self.rotors@.map_values(|r: Rotor| r.offset@),
            reflector: self.reflector,
            plugs: self.plugboard@,
        }
    }
}

/// Once a rotor stays put, no rotor to its left turns either.
proof fn lemma_turns_stop(ids: Seq<RotorId>, offs: Seq<nat>, j: nat, k: nat)
    requires
        j <= k,
        !turns(ids, offs, j),
    ensures
        !turns(ids, offs, k),
    decreases k - j,
{
    if j < k {
        lemma_turns_stop(ids, offs, j, (k - 1) as nat);
    }
}

/// The forward pass and the backward pass through the same rotors undo each
/// other.
proof fn lemma_pass_round_trip(ids: Seq<RotorId>, offs: Seq<nat>, k: nat, x: nat)
    requires
        k <= ids.len(),
        k <= offs.len(),
        forall|i: int| 0 <= i < offs.len() ==> #[trigger] offs[i] < 26,
        x < 26,
    ensures
        pass_forward(ids, offs, k, x) < 26,
        pass_backward(ids, offs, k, x) < 26,
        pass_backward(ids, offs, k, pass_forward(ids, offs, k, x)) == x,
        pass_forward(ids, offs, k, pass_backward(ids, offs, k, x)) == x,
    decreases k,
{
    if k > 0 {
        let j = (k - 1) as nat;
        lemma_pass_round_trip(ids, offs, j, x);
        let f = pass_forward(ids, offs, j, x);
        lemma_rotor_round_trip(ids[j as int], offs[j as int], f);
        lemma_rotor_round_trip(ids[j as int], offs[j as int], x);
        let b = rotor_backward(ids[j as int], offs[j as int], x);
        lemma_pass_round_trip(ids, offs, j, b);
    }
}

/// One more key press after `n` of them makes `n + 1`, so that keying
/// messages one after another adds up their lengths.
pub proof fn lemma_one_press(m: MachineModel, n: nat)
    ensures
        after_presses(after_presses(m, n), 1) == after_presses(m, n + 1),
{
    let o = steps(m.ids, m.offsets, n);
    assert(steps(m.ids, o, 0) == o);
    assert(steps(m.ids, o, 1) == step_offsets(m.ids, o));
}

impl EnigmaMachine {
    /// Every machine that exists has been built from a checked configuration.
    pub closed spec fn wf(&self) -> bool {
        &&& self@.ids.len() == ROTOR_SLOTS
        &&& self.plugboard.wf()
    }

    /// A machine set up as `state` describes.
    pub fn from_state(state: &MachineState) -> (r: EnigmaMachine)
        requires
            state.wf(),
        ensures
            r.wf(),
            r@ == state.model(),
    {
        let mut rotors: Vec<Rotor> = Vec::new();
        let mut i: usize = 0;
        while i < state.rotor_ids.len()
            invariant
                state.wf(),
                i <= state.rotor_ids.len(),
                rotors@.len() == i,
                forall|j: int| 0 <= j < i ==> (#[trigger] rotors@[j]).id == state.rotor_ids@[j]
                    && rotors@[j].offset@ == state.rotor_starts@[j]@,
            decreases state.rotor_ids.len() - i,
        {
            rotors.push(Rotor::new(state.rotor_ids[i], state.rotor_starts[i]));
            i = i + 1;
        }
        let r = EnigmaMachine { rotors, reflector: state.reflector, plugboard: state.plugboard };
        assert(r@.ids =~= state.model().ids);
        assert(r@.offsets =~= state.model().offsets);
        r
    }

    /// The current offset of each rotor, rightmost first.
    pub fn offsets(&self) -> (r: Vec<Letter>)
        ensures
            r@.map_values(|l: Letter| l@) == self@.offsets,
    {
        let mut out: Vec<Letter> = Vec::new();
        let mut i: usize = 0;
        while i < self.rotors.len()
            invariant
                i <= self.rotors.len(),
                out@.len() == i,
                forall|j: int| 0 <= j < i ==> (#[trigger] out@[j])@ == self.rotors@[j].offset@,
            decreases self.rotors.len() - i,
        {
            out.push(self.rotors[i].offset);
            i = i + 1;
        }
        assert(out@.map_values(|l: Letter| l@) =~= self@.offsets);
        out
    }

    /// Turns the rotors for one key press: the rightmost always, and each
    /// other one when its right neighbour has just landed on a notch.
    fn step_rotors(&mut self)
        requires
            old(self).wf(),
        ensures
            final(self).wf(),
            final(self)@ == old(self)@.with_offsets(step_offsets(old(self)@.ids, old(self)@.offsets)),
    {
        let ghost ids = self@.ids;
        let ghost offs = self@.offsets;
        let n = self.rotors.len();
        let mut carry = true;
        let mut j: usize = 0;
        while j < n && carry
            invariant
                self.wf(),
                self.rotors@.len() == n,
                n == ids.len(),
                j <= n,
                self@.ids == ids,
                self@.reflector == old(self)@.reflector,
                self@.plugs == old(self)@.plugs,
                offs.len() == n,
                carry == turns(ids, offs, j as nat),
                forall|i: int| 0 <= i < j ==> #[trigger] self@.offsets[i] == step_offsets(ids, offs)[i],
                forall|i: int| j <= i < n ==> #[trigger] self@.offsets[i] == offs[i],
            decreases n - j,
        {
            let ghost before = self.rotors@;
            let ghost prev = self@.offsets;
            let mut r = self.rotors[j];
            assert(prev[j as int] == offs[j as int]);
            assert(prev[j as int] == r.offset@);
            assert(r.id == ids[j as int]);
            assert(r.offset@ == offs[j as int]);
            carry = r.step();
            self.rotors.set(j, r);
            proof {
                assert(self.rotors@ == before.update(j as int, r));
                assert(self@.ids =~= ids);
                assert(self@.offsets[j as int] == step_offsets(ids, offs)[j as int]);
                assert forall|i: int| 0 <= i < n && i != j implies #[trigger] self@.offsets[i]
                    == prev[i] by {
                    assert(self.rotors@[i] == before[i]);
                }
            }
            j = j + 1;
        }
        proof {
            assert forall|i: int| j <= i < n implies #[trigger] step_offsets(ids, offs)[i]
                == offs[i] by {
                lemma_turns_stop(ids, offs, j as nat, i as nat);
            }
            assert(self@.offsets =~= step_offsets(ids, offs));
        }
    }

    /// Routes one letter with the rotors standing as they are.
    fn route_letter(&self, l: Letter) -> (r: Letter)
        requires
            self.wf(),
        ensures
            r@ == route(self@, l@),
    {
        let ghost ids = self@.ids;
        let ghost offs = self@.offsets;
        let n = self.rotors.len();
        let into = self.plugboard.swap(l);
        let mut x = into;
        let mut k: usize = 0;
        while k < n
            invariant
                n == self.rotors@.len(),
                ids == self@.ids,
                offs == self@.offsets,
                k <= n,
                x@ == pass_forward(ids, offs, k as nat, into@),
            decreases n - k,
        {
            x = self.rotors[k].forward(x);
            k = k + 1;
        }
        let back = reflect(self.reflector, x);
        let mut y = back;
        let mut k: usize = n;
        while k > 0
            invariant
                n == self.rotors@.len(),
                ids == self@.ids,
                offs == self@.offsets,
                k <= n,
                pass_backward(ids, offs, k as nat, y@) == pass_backward(ids, offs, n as nat, back@),
            decreases k,
        {
            y = self.rotors[k - 1].backward(y);
            k = k - 1;
        }
        self.plugboard.swap(y)
    }

    /// Keys one letter: the rotors step, then the letter is routed.
    pub fn press(&mut self, l: Letter) -> (r: Letter)
        requires
            old(self).wf(),
        ensures
            final(self).wf(),
            final(self)@ == after_presses(old(self)@, 1),
            r@ == route(final(self)@, l@),
    {
        proof {
            lemma_one_press(old(self)@, 0);
        }
        self.step_rotors();
        self.route_letter(l)
    }

    /// Enciphers a message letter by letter, the rotors stepping before each
    /// letter. Keying the result into a machine in the same starting state
    /// gives the message back.
    pub fn consume(&mut self, msg: &Message) -> (r: Message)
        requires
            old(self).wf(),
        ensures
            final(self).wf(),
            final(self)@ == after_presses(old(self)@, msg@.len()),
            r@ == encipher(old(self)@, msg@),
    {
        let ghost m0 = self@;
        let mut out: Vec<Letter> = Vec::new();
        let mut i: usize = 0;
        while i < msg.letters.len()
            invariant
                self.wf(),
                i <= msg.letters@.len(),
                self@ == after_presses(m0, i as nat),
                out@.len() == i,
                forall|j: int| 0 <= j < i ==> (#[trigger] out@[j])@ == encipher(m0, msg@)[j],
            decreases msg.letters.len() - i,
        {
            proof {
                lemma_one_press(m0, i as nat);
            }
            let c = self.press(msg.letters[i]);
            out.push(c);
            i = i + 1;
        }
        let r = Message { letters: out };
        assert(r@ =~= encipher(m0, msg@));
        r
    }
}

/// Key presses keep the offsets inside the alphabet, one per rotor.
proof fn lemma_steps_wf(m: MachineModel, n: nat)
    requires
        m.wf(),
    ensures
        after_presses(m, n).wf(),
    decreases n,
{
    if n > 0 {
        lemma_steps_wf(m, (n - 1) as nat);
    }
}

/// Keying a letter and then keying what came out, with the rotors standing
/// the same, gives the letter back.
proof fn lemma_route_involution(m: MachineModel, x: nat)
    requires
        m.wf(),
        x < 26,
    ensures
        route(m, x) < 26,
        route(m, route(m, x)) == x,
{
    let n = m.ids.len();
    lemma_reflector_involution(m.reflector);
    let refl = reflector_wiring(m.reflector);
    let into = m.plugs[x as int] as nat;
    lemma_pass_round_trip(m.ids, m.offsets, n, into);
    let there = pass_forward(m.ids, m.offsets, n, into);
    let back = refl[there as int] as nat;
    lemma_pass_round_trip(m.ids, m.offsets, n, back);
    let b = pass_backward(m.ids, m.offsets, n, back);
    let y = m.plugs[b as int] as nat;
    assert(m.plugs[y as int] == b);
    assert(refl[back as int] == there);
}

/// The rightmost rotor turns on every key press.
proof fn lemma_rightmost_turns(m: MachineModel, n: nat)
    requires
        m.wf(),
        m.ids.len() > 0,
    ensures
        after_presses(m, n).offsets[0] == (m.offsets[0] + n) % 26,
    decreases n,
{
    if n > 0 {
        lemma_rightmost_turns(m, (n - 1) as nat);
        lemma_steps_wf(m, (n - 1) as nat);
    }
}

/// After twenty-six key presses the rightmost rotor stands where it started.
pub proof fn lemma_rightmost_period(m: MachineModel)
    requires
        m.wf(),
        m.ids.len() > 0,
    ensures
        after_presses(m, 26).offsets[0] == m.offsets[0],
{
    lemma_rightmost_turns(m, 26);
}

/// Enciphering a message of letters on a machine set up as `s`, then
/// enciphering the result on another machine set up as `s`, gives the
/// message back.
pub proof fn lemma_self_inverse(s: &MachineState, msg: Seq<nat>)
    requires
        s.wf(),
        forall|i: int| 0 <= i < msg.len() ==> #[trigger] msg[i] < 26,
    ensures
        encipher(s.model(), encipher(s.model(), msg)) == msg,
{
    let m = s.model();
    assert(m.wf());
    let once = encipher(m, msg);
    assert forall|i: int| 0 <= i < msg.len() implies #[trigger] encipher(m, once)[i] == msg[i] by {
        lemma_steps_wf(m, (i + 1) as nat);
        lemma_route_involution(after_presses(m, (i + 1) as nat), msg[i]);
    }
    assert(encipher(m, once) =~= msg);
}

/// Two machines freshly set up from one configuration encipher any message
/// alike.
pub proof fn lemma_determinism(s: &MachineState, a: &EnigmaMachine, b: &EnigmaMachine, msg: Seq<nat>)
    requires
        s.wf(),
        a@ == s.model(),
        b@ == s.model(),
    ensures
        encipher(a@, msg) == encipher(b@, msg),
{
}

} // verus!
