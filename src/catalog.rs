use vstd::prelude::*;

use crate::error::EnigmaError;
use crate::letter::{Letter, lemma_letter_range};

verus! {

/// The rotors of the catalog, named by roman numerals.
#[derive(PartialEq, Eq, Structural, Clone, Copy, Debug)]
pub enum RotorId {
    I,
    II,
    III,
    IV,
    V,
    VI,
    VII,
    VIII,
}

/// The reflectors of the catalog, named by single letters.
#[derive(PartialEq, Eq, Structural, Clone, Copy, Debug)]
pub enum ReflectorId {
    A,
    B,
    C,
}

/// The identifier text of each rotor.
pub open spec fn rotor_name(id: RotorId) -> Seq<char> {
    match id {
        RotorId::I => seq!['I'],
        RotorId::II => seq!['I', 'I'],
        RotorId::III => seq!['I', 'I', 'I'],
        RotorId::IV => seq!['I', 'V'],
        RotorId::V => seq!['V'],
        RotorId::VI => seq!['V', 'I'],
        RotorId::VII => seq!['V', 'I', 'I'],
        RotorId::VIII => seq!['V', 'I', 'I', 'I'],
    }
}

/// The identifier text of each reflector.
pub open spec fn reflector_name(id: ReflectorId) -> Seq<char> {
    match id {
        ReflectorId::A => seq!['A'],
        ReflectorId::B => seq!['B'],
        ReflectorId::C => seq!['C'],
    }
}

/// Is `s` the name of some catalog rotor?
pub open spec fn names_rotor(s: Seq<char>) -> bool {
    exists|id: RotorId| rotor_name(id) == s
}

/// Is `s` the name of some catalog reflector?
pub open spec fn names_reflector(s: Seq<char>) -> bool {
    exists|id: ReflectorId| reflector_name(id) == s
}

/// Offsets at which a rotor, having just stepped onto them, carries a step to
/// its left neighbour. These are the positions one past each historical notch
/// letter (the turnover from `Q` to `R` on rotor I shows here as `R`).
pub open spec fn rotor_notch(id: RotorId, pos: nat) -> bool {
    match id {
        RotorId::I => pos == 17,
        RotorId::II => pos == 5,
        RotorId::III => pos == 22,
        RotorId::IV => pos == 10,
        RotorId::V => pos == 0,
        _ => pos == 0 || pos == 13,
    }
}

/// Does a rotor that has just stepped onto offset `pos` carry to its neighbour?
pub fn is_notch(id: RotorId, pos: u8) -> (r: bool)
    ensures
        r == rotor_notch(id, pos as nat),
{
    match id {
        RotorId::I => pos == 17,
        RotorId::II => pos == 5,
        RotorId::III => pos == 22,
        RotorId::IV => pos == 10,
        RotorId::V => pos == 0,
        _ => pos == 0 || pos == 13,
    }
}

/// No two rotors share a name.
pub proof fn lemma_rotor_name_injective(a: RotorId, b: RotorId)
    requires
        rotor_name(a) == rotor_name(b),
    ensures
        a == b,
{
    let (x, y) = (rotor_name(a), rotor_name(b));
    assert(x.len() == y.len() && x[0] == y[0]);
    if x.len() > 1 {
        assert(x[1] == y[1]);
    }
    if x.len() > 2 {
        assert(x[2] == y[2]);
    }
}

/// No two reflectors share a name.
pub proof fn lemma_reflector_name_injective(a: ReflectorId, b: ReflectorId)
    requires
        reflector_name(a) == reflector_name(b),
    ensures
        a == b,
{
    assert(seq!['A'][0] == 'A' && seq!['B'][0] == 'B' && seq!['C'][0] == 'C');
    assert(reflector_name(a)[0] == reflector_name(b)[0]);
}

/// Looks a rotor up by its roman-numeral name.
pub fn lookup_rotor(s: &Vec<char>) -> (r: Result<RotorId, EnigmaError>)
    ensures
        match r {
            Ok(id) => rotor_name(id) == s@,
            Err(e) => e == EnigmaError::UnknownRotorId && !names_rotor(s@),
        },
{
    let n = s.len();
    let r = if n == 1 && s[0] == 'I' {
        Ok(RotorId::I)
    } else if n == 1 && s[0] == 'V' {
        Ok(RotorId::V)
    } else if n == 2 && s[0] == 'I' && s[1] == 'I' {
        Ok(RotorId::II)
    } else if n == 2 && s[0] == 'I' && s[1] == 'V' {
        Ok(RotorId::IV)
    } else if n == 2 && s[0] == 'V' && s[1] == 'I' {
        Ok(RotorId::VI)
    } else if n == 3 && s[0] == 'I' && s[1] == 'I' && s[2] == 'I' {
        Ok(RotorId::III)
    } else if n == 3 && s[0] == 'V' && s[1] == 'I' && s[2] == 'I' {
        Ok(RotorId::VII)
    } else if n == 4 && s[0] == 'V' && s[1] == 'I' && s[2] == 'I' && s[3] == 'I' {
        Ok(RotorId::VIII)
    } else {
        Err(EnigmaError::UnknownRotorId)
    };
    proof {
        match r {
            Ok(id) => {
                assert(rotor_name(id) =~= s@);
            },
            Err(_) => {
                assert forall|id: RotorId| rotor_name(id) != s@ by {
                    if rotor_name(id) == s@ {
                        assert(rotor_name(id).len() == s@.len());
                        assert(rotor_name(id)[0] == s@[0]);
                        if s@.len() > 1 {
                            assert(rotor_name(id)[1] == s@[1]);
                        }
                        if s@.len() > 2 {
                            assert(rotor_name(id)[2] == s@[2]);
                        }
                        if s@.len() > 3 {
                            assert(rotor_name(id)[3] == s@[3]);
                        }
                    }
                }
            },
        }
    }
    r
}

/// Looks a reflector up by its one-letter name.
pub fn lookup_reflector(s: &Vec<char>) -> (r: Result<ReflectorId, EnigmaError>)
    ensures
        match r {
            Ok(id) => reflector_name(id) == s@,
            Err(e) => e == EnigmaError::UnknownReflectorId && !names_reflector(s@),
        },
{
    let r = if s.len() == 1 && s[0] == 'A' {
        Ok(ReflectorId::A)
    } else if s.len() == 1 && s[0] == 'B' {
        Ok(ReflectorId::B)
    } else if s.len() == 1 && s[0] == 'C' {
        Ok(ReflectorId::C)
    } else {
        Err(EnigmaError::UnknownReflectorId)
    };
    proof {
        match r {
            Ok(id) => {
                assert(reflector_name(id) =~= s@);
            },
            Err(_) => {
                assert forall|id: ReflectorId| reflector_name(id) != s@ by {
                    if reflector_name(id) == s@ {
                        assert(reflector_name(id)[0] == s@[0]);
                    }
                }
            },
        }
    }
    r
}

/// Forward wiring of each catalog rotor: contact `i` is wired to `rotor_wiring(id)[i]`.
pub open spec fn rotor_wiring(id: RotorId) -> Seq<u8> {
    match id {
        RotorId::I => seq![4u8, 10, 12, 5, 11, 6, 3, 16, 21, 25, 13, 19, 14, 22, 24, 7, 23, 20, 18, 15, 0, 8, 1, 17, 2, 9],
        RotorId::II => seq![0u8, 9, 3, 10, 18, 8, 17, 20, 23, 1, 11, 7, 22, 19, 12, 2, 16, 6, 25, 13, 15, 24, 5, 21, 14, 4],
        RotorId::III => seq![1u8, 3, 5, 7, 9, 11, 2, 15, 17, 19, 23, 21, 25, 13, 24, 4, 8, 22, 6, 0, 10, 12, 20, 18, 16, 14],
        RotorId::IV => seq![4u8, 18, 14, 21, 15, 25, 9, 0, 24, 16, 20, 8, 17, 7, 23, 11, 13, 5, 19, 6, 10, 3, 2, 12, 22, 1],
        RotorId::V => seq![21u8, 25, 1, 17, 6, 8, 19, 24, 20, 15, 18, 3, 13, 7, 11, 23, 0, 22, 12, 9, 16, 14, 5, 4, 2, 10],
        RotorId::VI => seq![9u8, 15, 6, 21, 14, 20, 12, 5, 24, 16, 1, 4, 13, 7, 25, 17, 3, 10, 0, 18, 23, 11, 8, 2, 19, 22],
        RotorId::VII => seq![13u8, 25, 9, 7, 6, 17, 2, 23, 12, 24, 18, 22, 1, 14, 20, 5, 0, 8, 21, 11, 15, 4, 10, 16, 3, 19],
        RotorId::VIII => seq![5u8, 10, 16, 7, 19, 11, 23, 14, 2, 1, 9, 18, 15, 3, 25, 17, 0, 12, 4, 22, 13, 8, 20, 24, 6, 21],
    }
}

/// Inverse wiring of each catalog rotor, kept beside the forward table.
pub open spec fn rotor_inverse(id: RotorId) -> Seq<u8> {
    match id {
        RotorId::I => seq![20u8, 22, 24, 6, 0, 3, 5, 15, 21, 25, 1, 4, 2, 10, 12, 19, 7, 23, 18, 11, 17, 8, 13, 16, 14, 9],
        RotorId::II => seq![0u8, 9, 15, 2, 25, 22, 17, 11, 5, 1, 3, 10, 14, 19, 24, 20, 16, 6, 4, 13, 7, 23, 12, 8, 21, 18],
        RotorId::III => seq![19u8, 0, 6, 1, 15, 2, 18, 3, 16, 4, 20, 5, 21, 13, 25, 7, 24, 8, 23, 9, 22, 11, 17, 10, 14, 12],
        RotorId::IV => seq![7u8, 25, 22, 21, 0, 17, 19, 13, 11, 6, 20, 15, 23, 16, 2, 4, 9, 12, 1, 18, 10, 3, 24, 14, 8, 5],
        RotorId::V => seq![16u8, 2, 24, 11, 23, 22, 4, 13, 5, 19, 25, 14, 18, 12, 21, 9, 20, 3, 10, 6, 8, 0, 17, 15, 7, 1],
        RotorId::VI => seq![18u8, 10, 23, 16, 11, 7, 2, 13, 22, 0, 17, 21, 6, 12, 4, 1, 9, 15, 19, 24, 5, 3, 25, 20, 8, 14],
        RotorId::VII => seq![16u8, 12, 6, 24, 21, 15, 4, 3, 17, 2, 22, 19, 8, 0, 13, 20, 23, 5, 10, 25, 14, 18, 11, 7, 9, 1],
        RotorId::VIII => seq![16u8, 9, 8, 13, 18, 0, 24, 3, 21, 10, 1, 5, 17, 20, 7, 12, 2, 15, 11, 4, 22, 25, 19, 6, 23, 14],
    }
}

/// Wiring of each catalog reflector.
pub open spec fn reflector_wiring(id: ReflectorId) -> Seq<u8> {
    match id {
        ReflectorId::A => seq![4u8, 9, 12, 25, 0, 11, 24, 23, 21, 1, 22, 5, 2, 17, 16, 20, 14, 13, 19, 18, 15, 8, 10, 7, 6, 3],
        ReflectorId::B => seq![24u8, 17, 20, 7, 16, 18, 11, 3, 15, 23, 13, 6, 14, 10, 12, 8, 4, 1, 5, 25, 2, 22, 21, 9, 0, 19],
        ReflectorId::C => seq![5u8, 21, 15, 9, 8, 0, 14, 24, 4, 3, 17, 25, 23, 22, 6, 2, 19, 10, 20, 16, 18, 1, 13, 12, 7, 11],
    }
}

/// The forward wiring table of a rotor.
pub fn rotor_table(id: RotorId) -> (r: [u8; 26])
    ensures
        r@ == rotor_wiring(id),
{
    let t: [u8; 26] = match id {
        RotorId::I => [4, 10, 12, 5, 11, 6, 3, 16, 21, 25, 13, 19, 14, 22, 24, 7, 23, 20, 18, 15, 0, 8, 1, 17, 2, 9],
        RotorId::II => [0, 9, 3, 10, 18, 8, 17, 20, 23, 1, 11, 7, 22, 19, 12, 2, 16, 6, 25, 13, 15, 24, 5, 21, 14, 4],
        RotorId::III => [1, 3, 5, 7, 9, 11, 2, 15, 17, 19, 23, 21, 25, 13, 24, 4, 8, 22, 6, 0, 10, 12, 20, 18, 16, 14],
        RotorId::IV => [4, 18, 14, 21, 15, 25, 9, 0, 24, 16, 20, 8, 17, 7, 23, 11, 13, 5, 19, 6, 10, 3, 2, 12, 22, 1],
        RotorId::V => [21, 25, 1, 17, 6, 8, 19, 24, 20, 15, 18, 3, 13, 7, 11, 23, 0, 22, 12, 9, 16, 14, 5, 4, 2, 10],
        RotorId::VI => [9, 15, 6, 21, 14, 20, 12, 5, 24, 16, 1, 4, 13, 7, 25, 17, 3, 10, 0, 18, 23, 11, 8, 2, 19, 22],
        RotorId::VII => [13, 25, 9, 7, 6, 17, 2, 23, 12, 24, 18, 22, 1, 14, 20, 5, 0, 8, 21, 11, 15, 4, 10, 16, 3, 19],
        RotorId::VIII => [5, 10, 16, 7, 19, 11, 23, 14, 2, 1, 9, 18, 15, 3, 25, 17, 0, 12, 4, 22, 13, 8, 20, 24, 6, 21],
    };
    proof {
        assert(t@ =~= rotor_wiring(id));
    }
    t
}

/// The inverse wiring table of a rotor.
pub fn rotor_inverse_table(id: RotorId) -> (r: [u8; 26])
    ensures
        r@ == rotor_inverse(id),
{
    let t: [u8; 26] = match id {
        RotorId::I => [20, 22, 24, 6, 0, 3, 5, 15, 21, 25, 1, 4, 2, 10, 12, 19, 7, 23, 18, 11, 17, 8, 13, 16, 14, 9],
        RotorId::II => [0, 9, 15, 2, 25, 22, 17, 11, 5, 1, 3, 10, 14, 19, 24, 20, 16, 6, 4, 13, 7, 23, 12, 8, 21, 18],
        RotorId::III => [19, 0, 6, 1, 15, 2, 18, 3, 16, 4, 20, 5, 21, 13, 25, 7, 24, 8, 23, 9, 22, 11, 17, 10, 14, 12],
        RotorId::IV => [7, 25, 22, 21, 0, 17, 19, 13, 11, 6, 20, 15, 23, 16, 2, 4, 9, 12, 1, 18, 10, 3, 24, 14, 8, 5],
        RotorId::V => [16, 2, 24, 11, 23, 22, 4, 13, 5, 19, 25, 14, 18, 12, 21, 9, 20, 3, 10, 6, 8, 0, 17, 15, 7, 1],
        RotorId::VI => [18, 10, 23, 16, 11, 7, 2, 13, 22, 0, 17, 21, 6, 12, 4, 1, 9, 15, 19, 24, 5, 3, 25, 20, 8, 14],
        RotorId::VII => [16, 12, 6, 24, 21, 15, 4, 3, 17, 2, 22, 19, 8, 0, 13, 20, 23, 5, 10, 25, 14, 18, 11, 7, 9, 1],
        RotorId::VIII => [16, 9, 8, 13, 18, 0, 24, 3, 21, 10, 1, 5, 17, 20, 7, 12, 2, 15, 11, 4, 22, 25, 19, 6, 23, 14],
    };
    proof {
        assert(t@ =~= rotor_inverse(id));
    }
    t
}

/// The wiring table of a reflector.
pub fn reflector_table(id: ReflectorId) -> (r: [u8; 26])
    ensures
        r@ == reflector_wiring(id),
{
    let t: [u8; 26] = match id {
        ReflectorId::A => [4, 9, 12, 25, 0, 11, 24, 23, 21, 1, 22, 5, 2, 17, 16, 20, 14, 13, 19, 18, 15, 8, 10, 7, 6, 3],
        ReflectorId::B => [24, 17, 20, 7, 16, 18, 11, 3, 15, 23, 13, 6, 14, 10, 12, 8, 4, 1, 5, 25, 2, 22, 21, 9, 0, 19],
        ReflectorId::C => [5, 21, 15, 9, 8, 0, 14, 24, 4, 3, 17, 25, 23, 22, 6, 2, 19, 10, 20, 16, 18, 1, 13, 12, 7, 11],
    };
    proof {
        assert(t@ =~= reflector_wiring(id));
    }
    t
}

/// Is `w` a permutation of `0..26` whose inverse is `v`?
pub open spec fn inverse_tables(w: Seq<u8>, v: Seq<u8>) -> bool {
    &&& w.len() == 26
    &&& v.len() == 26
    &&& forall|i: int| 0 <= i < 26 ==> #[trigger] w[i] < 26 && v[w[i] as int] == i
    &&& forall|i: int| 0 <= i < 26 ==> #[trigger] v[i] < 26 && w[v[i] as int] == i
}

/// Is `w` an involution of `0..26` that moves every letter?
pub open spec fn fixed_point_free_involution(w: Seq<u8>) -> bool {
    &&& w.len() == 26
    &&& forall|i: int| 0 <= i < 26 ==> #[trigger] w[i] < 26 && w[w[i] as int] == i && w[i] != i
}

proof fn lemma_small_cases(i: int)
    requires
        0 <= i < 26,
    ensures
        i == 0 || i == 1 || i == 2 || i == 3 || i == 4 || i == 5 || i == 6 || i == 7 || i == 8
            || i == 9 || i == 10 || i == 11 || i == 12 || i == 13 || i == 14 || i == 15 || i == 16
            || i == 17 || i == 18 || i == 19 || i == 20 || i == 21 || i == 22 || i == 23 || i == 24
            || i == 25,
{
}

/// The inverse table of every catalog rotor is the inverse of its wiring.
pub proof fn lemma_rotor_inverse(id: RotorId)
    ensures
        inverse_tables(rotor_wiring(id), rotor_inverse(id)),
{
    match id {
        RotorId::I => lemma_tables_inverse(rotor_wiring(id), rotor_inverse(id)),
        RotorId::II => lemma_tables_inverse(rotor_wiring(id), rotor_inverse(id)),
        RotorId::III => lemma_tables_inverse(rotor_wiring(id), rotor_inverse(id)),
        RotorId::IV => lemma_tables_inverse(rotor_wiring(id), rotor_inverse(id)),
        RotorId::V => lemma_tables_inverse(rotor_wiring(id), rotor_inverse(id)),
        RotorId::VI => lemma_tables_inverse(rotor_wiring(id), rotor_inverse(id)),
        RotorId::VII => lemma_tables_inverse(rotor_wiring(id), rotor_inverse(id)),
        RotorId::VIII => lemma_tables_inverse(rotor_wiring(id), rotor_inverse(id)),
    }
}

/// Checks, contact by contact, that two tables are inverse.
proof fn lemma_tables_inverse(w: Seq<u8>, v: Seq<u8>)
    requires
        w.len() == 26,
        v.len() == 26,
        w[0] < 26 && v[w[0] as int] == 0 && v[0] < 26 && w[v[0] as int] == 0,
        w[1] < 26 && v[w[1] as int] == 1 && v[1] < 26 && w[v[1] as int] == 1,
        w[2] < 26 && v[w[2] as int] == 2 && v[2] < 26 && w[v[2] as int] == 2,
        w[3] < 26 && v[w[3] as int] == 3 && v[3] < 26 && w[v[3] as int] == 3,
        w[4] < 26 && v[w[4] as int] == 4 && v[4] < 26 && w[v[4] as int] == 4,
        w[5] < 26 && v[w[5] as int] == 5 && v[5] < 26 && w[v[5] as int] == 5,
        w[6] < 26 && v[w[6] as int] == 6 && v[6] < 26 && w[v[6] as int] == 6,
        w[7] < 26 && v[w[7] as int] == 7 && v[7] < 26 && w[v[7] as int] == 7,
        w[8] < 26 && v[w[8] as int] == 8 && v[8] < 26 && w[v[8] as int] == 8,
        w[9] < 26 && v[w[9] as int] == 9 && v[9] < 26 && w[v[9] as int] == 9,
        w[10] < 26 && v[w[10] as int] == 10 && v[10] < 26 && w[v[10] as int] == 10,
        w[11] < 26 && v[w[11] as int] == 11 && v[11] < 26 && w[v[11] as int] == 11,
        w[12] < 26 && v[w[12] as int] == 12 && v[12] < 26 && w[v[12] as int] == 12,
        w[13] < 26 && v[w[13] as int] == 13 && v[13] < 26 && w[v[13] as int] == 13,
        w[14] < 26 && v[w[14] as int] == 14 && v[14] < 26 && w[v[14] as int] == 14,
        w[15] < 26 && v[w[15] as int] == 15 && v[15] < 26 && w[v[15] as int] == 15,
        w[16] < 26 && v[w[16] as int] == 16 && v[16] < 26 && w[v[16] as int] == 16,
        w[17] < 26 && v[w[17] as int] == 17 && v[17] < 26 && w[v[17] as int] == 17,
        w[18] < 26 && v[w[18] as int] == 18 && v[18] < 26 && w[v[18] as int] == 18,
        w[19] < 26 && v[w[19] as int] == 19 && v[19] < 26 && w[v[19] as int] == 19,
        w[20] < 26 && v[w[20] as int] == 20 && v[20] < 26 && w[v[20] as int] == 20,
        w[21] < 26 && v[w[21] as int] == 21 && v[21] < 26 && w[v[21] as int] == 21,
        w[22] < 26 && v[w[22] as int] == 22 && v[22] < 26 && w[v[22] as int] == 22,
        w[23] < 26 && v[w[23] as int] == 23 && v[23] < 26 && w[v[23] as int] == 23,
        w[24] < 26 && v[w[24] as int] == 24 && v[24] < 26 && w[v[24] as int] == 24,
        w[25] < 26 && v[w[25] as int] == 25 && v[25] < 26 && w[v[25] as int] == 25,
    ensures
        inverse_tables(w, v),
{
    assert forall|i: int| 0 <= i < 26 implies #[trigger] w[i] < 26 && v[w[i] as int] == i by {
        lemma_small_cases(i);
    }
    assert forall|i: int| 0 <= i < 26 implies #[trigger] v[i] < 26 && w[v[i] as int] == i by {
        lemma_small_cases(i);
    }
}

/// Every catalog reflector maps each letter to another letter, and pairs them.
pub proof fn lemma_reflector_involution(id: ReflectorId)
    ensures
        fixed_point_free_involution(reflector_wiring(id)),
{
    let w = reflector_wiring(id);
    assert forall|i: int| 0 <= i < 26 implies #[trigger] w[i] < 26 && w[w[i] as int] == i && w[i]
        != i by {
        lemma_small_cases(i);
    }
}

/// Sends a letter through a reflector. No letter comes back as itself.
pub fn reflect(id: ReflectorId, l: Letter) -> (r: Letter)
    ensures
        r@ == reflector_wiring(id)[l@ as int],
        r@ != l@,
{
    let t = reflector_table(id);
    proof {
        broadcast use lemma_letter_range;

        lemma_reflector_involution(id);
    }
    Letter::from_index(t[l.index() as usize])
}

} // verus!
