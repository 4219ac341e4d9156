use vstd::prelude::*;
use vstd::string::*;

use crate::catalog::{
    ReflectorId,
    RotorId,
    lookup_reflector,
    lemma_reflector_name_injective,
    lemma_rotor_name_injective,
    lookup_rotor,
    names_reflector,
    names_rotor,
    reflector_name,
    rotor_name,
};
use crate::error::EnigmaError;
use crate::letter::{Letter, char_index, is_letter_char, lemma_letter_range};
use crate::machine::{EnigmaMachine, MachineModel, MachineState, ROTOR_SLOTS};
use crate::plugboard::{pair_positions, pairs_ok, plug_image};

verus! {

broadcast use lemma_letter_range;

/// The characters of a string, in order.
pub fn chars_of(s: &str) -> (r: Vec<char>)
    ensures
        r@ == s@,
{
    let n = s.unicode_len();
    let mut out: Vec<char> = Vec::new();
    let mut i: usize = 0;
    while i < n
        invariant
            n == s@.len(),
            i <= n,
            out@ == s@.take(i as int),
        decreases n - i,
    {
        out.push(s.get_char(i));
        i = i + 1;
        assert(out@ =~= s@.take(i as int));
    }
    assert(s@.take(n as int) =~= s@);
    out
}

/// The first position at or after `i` that holds a `:`, or the length.
pub open spec fn find_colon(t: Seq<char>, i: nat) -> nat
    decreases t.len() - i,
{
    if i >= t.len() {
        t.len()
    } else if t[i as int] == ':' {
        i
    } else {
        find_colon(t, i + 1)
    }
}

/// The rotor that a name denotes; only meaningful where one does.
pub open spec fn named_rotor(s: Seq<char>) -> RotorId {
    choose|id: RotorId| rotor_name(id) == s
}

/// The reflector that a name denotes; only meaningful where one does.
pub open spec fn named_reflector(s: Seq<char>) -> ReflectorId {
    choose|id: ReflectorId| reflector_name(id) == s
}

/// Reads a rotor token `ID` or `ID:LETTER`; the start defaults to `A`.
pub open spec fn rotor_token(t: Seq<char>) -> Result<(RotorId, nat), EnigmaError> {
    let p = find_colon(t, 0);
    let name = t.take(p as int);
    if !names_rotor(name) {
        Err(EnigmaError::UnknownRotorId)
    } else if p == t.len() {
        Ok((named_rotor(name), 0))
    } else if t.len() != p + 2 {
        Err(EnigmaError::ConfigError)
    } else if !is_letter_char(t[(p + 1) as int]) {
        Err(EnigmaError::InvalidLetter)
    } else {
        Ok((named_rotor(name), char_index(t[(p + 1) as int])))
    }
}

/// Reads a plug token: exactly two letters.
pub open spec fn plug_token(t: Seq<char>) -> Result<(nat, nat), EnigmaError> {
    if t.len() != 2 {
        Err(EnigmaError::ConfigError)
    } else if !is_letter_char(t[0]) || !is_letter_char(t[1]) {
        Err(EnigmaError::InvalidLetter)
    } else {
        Ok((char_index(t[0]), char_index(t[1])))
    }
}

/// Reads rotor tokens left to right, stopping at the first bad one.
pub open spec fn rotor_tokens(ts: Seq<Seq<char>>) -> Result<Seq<(RotorId, nat)>, EnigmaError>
    decreases ts.len(),
{
    if ts.len() == 0 {
        Ok(Seq::empty())
    } else {
        match rotor_tokens(ts.drop_last()) {
            Err(e) => Err(e),
            Ok(v) => match rotor_token(ts.last()) {
                Err(e) => Err(e),
                Ok(p) => Ok(v.push(p)),
            },
        }
    }
}

/// Reads plug tokens left to right, stopping at the first bad one.
pub open spec fn plug_tokens(ts: Seq<Seq<char>>) -> Result<Seq<(nat, nat)>, EnigmaError>
    decreases ts.len(),
{
    if ts.len() == 0 {
        Ok(Seq::empty())
    } else {
        match plug_tokens(ts.drop_last()) {
            Err(e) => Err(e),
            Ok(v) => match plug_token(ts.last()) {
                Err(e) => Err(e),
                Ok(p) => Ok(v.push(p)),
            },
        }
    }
}

/// The machine that a textual configuration describes, or the first fault in
/// it. The checks run in this order: the reflector name; the rotor tokens,
/// left to right; the number of rotors; the plug tokens, left to right; and
/// last, that no letter is in two plug pairs or paired with itself.
pub open spec fn configured(
    reflector: Seq<char>,
    rotors: Seq<Seq<char>>,
    plugs: Seq<Seq<char>>,
) -> Result<MachineModel, EnigmaError> {
    if !names_reflector(reflector) {
        Err(EnigmaError::UnknownReflectorId)
    } else {
        match rotor_tokens(rotors) {
            Err(e) => Err(e),
            Ok(rs) => if rs.len() != ROTOR_SLOTS {
                Err(EnigmaError::ConfigError)
            } else {
                match plug_tokens(plugs) {
                    Err(e) => Err(e),
                    Ok(ps) => if !pairs_ok(ps) {
                        Err(EnigmaError::ConfigError)
                    } else {
                        Ok(
                            MachineModel {
                                ids: rs.map_values(|p: (RotorId, nat)| p.0),
                                offsets: rs.map_values(|p: (RotorId, nat)| p.1),
                                reflector: named_reflector(reflector),
                                plugs: Seq::new(26, |x: int| plug_image(ps, x as nat) as u8),
                            },
                        )
                    },
                }
            },
        }
    }
}

/// The characters of each string of a list.
pub open spec fn token_chars(ts: Seq<String>) -> Seq<Seq<char>> {
    ts.map_values(|s: String| s@)
}

/// Reads one rotor token, `ID` or `ID:LETTER`.
pub fn parse_rotor_token(t: &Vec<char>) -> (r: Result<(RotorId, Letter), EnigmaError>)
    ensures
        match r {
            Ok(p) => rotor_token(t@) == Ok::<(RotorId, nat), EnigmaError>((p.0, p.1@)),
            Err(e) => rotor_token(t@) == Err::<(RotorId, nat), EnigmaError>(e),
        },
{
    let n = t.len();
    let mut p: usize = 0;
    while p < n && t[p] != ':'
        invariant
            n == t@.len(),
            p <= n,
            find_colon(t@, 0) == find_colon(t@, p as nat),
        decreases n - p,
    {
        p = p + 1;
    }
    let mut name: Vec<char> = Vec::new();
    let mut i: usize = 0;
    while i < p
        invariant
            p <= n,
            n == t@.len(),
            i <= p,
            name@ == t@.take(i as int),
        decreases p - i,
    {
        name.push(t[i]);
        i = i + 1;
        assert(name@ =~= t@.take(i as int));
    }
    let id = match lookup_rotor(&name) {
        Ok(id) => id,
        Err(e) => {
            return Err(e);
        },
    };
    proof {
        lemma_rotor_name_injective(id, named_rotor(name@));
    }
    if p == n {
        return Ok((id, Letter::from_index(0)));
    }
    if n != p + 2 {
        return Err(EnigmaError::ConfigError);
    }
    match Letter::from_char(t[p + 1]) {
        Ok(l) => Ok((id, l)),
        Err(e) => Err(e),
    }
}

/// Reads one plug token: exactly two letters.
pub fn parse_plug_token(t: &Vec<char>) -> (r: Result<(Letter, Letter), EnigmaError>)
    ensures
        match r {
            Ok(p) => plug_token(t@) == Ok::<(nat, nat), EnigmaError>((p.0@, p.1@)),
            Err(e) => plug_token(t@) == Err::<(nat, nat), EnigmaError>(e),
        },
{
    if t.len() != 2 {
        return Err(EnigmaError::ConfigError);
    }
    let a = Letter::from_char(t[0]);
    let b = Letter::from_char(t[1]);
    match (a, b) {
        (Ok(a), Ok(b)) => Ok((a, b)),
        _ => Err(EnigmaError::InvalidLetter),
    }
}

/// Once reading rotor tokens has failed on a prefix, the whole list fails
/// the same way.
proof fn lemma_rotor_tokens_prefix(ts: Seq<Seq<char>>, k: int)
    requires
        0 <= k <= ts.len(),
        rotor_tokens(ts.take(k)) is Err,
    ensures
        rotor_tokens(ts) == rotor_tokens(ts.take(k)),
    decreases ts.len() - k,
{
    if k < ts.len() {
        assert(ts.take(k + 1).drop_last() =~= ts.take(k));
        lemma_rotor_tokens_prefix(ts, k + 1);
    } else {
        assert(ts.take(k) =~= ts);
    }
}

/// Once reading plug tokens has failed on a prefix, the whole list fails the
/// same way.
proof fn lemma_plug_tokens_prefix(ts: Seq<Seq<char>>, k: int)
    requires
        0 <= k <= ts.len(),
        plug_tokens(ts.take(k)) is Err,
    ensures
        plug_tokens(ts) == plug_tokens(ts.take(k)),
    decreases ts.len() - k,
{
    if k < ts.len() {
        assert(ts.take(k + 1).drop_last() =~= ts.take(k));
        lemma_plug_tokens_prefix(ts, k + 1);
    } else {
        assert(ts.take(k) =~= ts);
    }
}

impl MachineState {
    /// Builds a configuration from its textual form: a reflector name, rotor
    /// tokens `ID` or `ID:LETTER` (rightmost rotor first), and two-letter plug
    /// tokens. Fails with the first fault, in the order that `configured`
    /// gives.
    pub fn from_tokens(reflector: &str, rotors: &Vec<String>, plugs: &Vec<String>) -> (r: Result<
        MachineState,
        EnigmaError,
    >)
        ensures
            match r {
                Ok(s) => s.wf() && configured(reflector@, token_chars(rotors@), token_chars(plugs@))
                    == Ok::<MachineModel, EnigmaError>(s.model()),
                Err(e) => configured(reflector@, token_chars(rotors@), token_chars(plugs@)) == Err::<
                    MachineModel,
                    EnigmaError,
                >(e),
            },
    {
        let ghost rt = token_chars(rotors@);
        let ghost pt = token_chars(plugs@);
        let rname = chars_of(reflector);
        let refl = match lookup_reflector(&rname) {
            Ok(id) => id,
            Err(e) => {
                return Err(e);
            },
        };
        proof {
            lemma_reflector_name_injective(refl, named_reflector(rname@));
            assert(names_reflector(reflector@));
        }
        let mut ids: Vec<RotorId> = Vec::new();
        let mut starts: Vec<Letter> = Vec::new();
        let mut i: usize = 0;
        while i < rotors.len()
            invariant
                rt == token_chars(rotors@),
                pt == token_chars(plugs@),
                names_reflector(reflector@),
                i <= rotors@.len(),
                ids@.len() == i,
                starts@.len() == i,
                rotor_tokens(rt.take(i as int)) matches Ok(v) && v.len() == i && forall|j: int|
                    0 <= j < i ==> #[trigger] v[j] == (ids@[j], starts@[j]@),
            decreases rotors.len() - i,
        {
            let t = chars_of(rotors[i].as_str());
            let ghost pre = rt.take(i as int);
            let ghost post = rt.take(i + 1);
            assert(post.drop_last() =~= pre);
            assert(post.last() == t@);
            match parse_rotor_token(&t) {
                Ok((id, l)) => {
                    ids.push(id);
                    starts.push(l);
                },
                Err(e) => {
                    proof {
                        assert(rotor_tokens(post) == Err::<Seq<(RotorId, nat)>, EnigmaError>(e));
                        lemma_rotor_tokens_prefix(rt, i + 1);
                    }
                    return Err(e);
                },
            }
            i = i + 1;
        }
        let ghost rs = rotor_tokens(rt)->Ok_0;
        assert(rt.take(rotors.len() as int) =~= rt);
        if ids.len() != ROTOR_SLOTS {
            return Err(EnigmaError::ConfigError);
        }
        let mut pairs: Vec<(Letter, Letter)> = Vec::new();
        let mut k: usize = 0;
        while k < plugs.len()
            invariant
                rt == token_chars(rotors@),
                pt == token_chars(plugs@),
                names_reflector(reflector@),
                rotor_tokens(rt) matches Ok(v) && v.len() == ROTOR_SLOTS,
                k <= plugs@.len(),
                pairs@.len() == k,
                plug_tokens(pt.take(k as int)) matches Ok(v) && v == pair_positions(pairs@),
            decreases plugs.len() - k,
        {
            let t = chars_of(plugs[k].as_str());
            let ghost pre = pt.take(k as int);
            let ghost post = pt.take(k + 1);
            assert(post.drop_last() =~= pre);
            assert(post.last() == t@);
            match parse_plug_token(&t) {
                Ok(p) => {
                    pairs.push(p);
                    assert(pair_positions(pairs@) =~= pair_positions(pairs@.drop_last()).push(
                        (p.0@, p.1@),
                    ));
                },
                Err(e) => {
                    proof {
                        assert(plug_tokens(post) == Err::<Seq<(nat, nat)>, EnigmaError>(e));
                        lemma_plug_tokens_prefix(pt, k + 1);
                    }
                    return Err(e);
                },
            }
            k = k + 1;
        }
        assert(pt.take(plugs.len() as int) =~= pt);
        let ghost ps = pair_positions(pairs@);
        let r = MachineState::new(pairs, ids, starts, refl);
        match r {
            Ok(s) => {
                assert(s.model().ids =~= rs.map_values(|p: (RotorId, nat)| p.0));
                assert(s.model().offsets =~= rs.map_values(|p: (RotorId, nat)| p.1));
                assert(s.model().plugs =~= Seq::new(26, |x: int| plug_image(ps, x as nat) as u8));
                Ok(s)
            },
            Err(e) => Err(e),
        }
    }
}

} // verus!
