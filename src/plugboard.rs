use vstd::prelude::*;

use crate::error::EnigmaError;
use crate::letter::{Letter, lemma_letter_range};

verus! {

broadcast use lemma_letter_range;

/// The letter positions of a list of plug pairs.
pub open spec fn pair_positions(pairs: Seq<(Letter, Letter)>) -> Seq<(nat, nat)> {
    pairs.map_values(|p: (Letter, Letter)| (p.0@, p.1@))
}

/// Does some pair of `ps` name the letter `x`?
pub open spec fn mentions(ps: Seq<(nat, nat)>, x: nat) -> bool {
    exists|i: int| 0 <= i < ps.len() && pair_has(#[trigger] ps[i], x)
}

/// Is `x` one of the two letters of the pair `p`?
pub open spec fn pair_has(p: (nat, nat), x: nat) -> bool {
    p.0 == x || p.1 == x
}

/// Each pair joins two different letters, and no letter is in two pairs.
pub open spec fn pairs_ok(ps: Seq<(nat, nat)>) -> bool
    decreases ps.len(),
{
    if ps.len() == 0 {
        true
    } else {
        let last = ps.last();
        let rest = ps.drop_last();
        &&& pairs_ok(rest)
        &&& last.0 != last.1
        &&& !mentions(rest, last.0)
        &&& !mentions(rest, last.1)
    }
}

/// Where the plugboard wired by `ps` sends the letter `x`.
pub open spec fn plug_image(ps: Seq<(nat, nat)>, x: nat) -> nat
    decreases ps.len(),
{
    if ps.len() == 0 {
        x
    } else {
        let last = ps.last();
        if last.0 == x {
            last.1
        } else if last.1 == x {
            last.0
        } else {
            plug_image(ps.drop_last(), x)
        }
    }
}

/// Is `m` a table over `0..26` that undoes itself?
pub open spec fn is_involution(m: Seq<u8>) -> bool {
    &&& m.len() == 26
    &&& forall|i: int| 0 <= i < 26 ==> #[trigger] m[i] < 26 && m[m[i] as int] == i
}

/// Letter swaps made by plug cables; a letter without a cable is left alone.
#[derive(Clone, Copy, Debug)]
pub struct Plugboard {
    map: [u8; 26],
}

impl View for Plugboard {
    type V = Seq<u8>;

    closed spec fn view(&self) -> Seq<u8> {
        self.map@
    }
}

/// With pairs that overlap nowhere, a letter is named by a pair exactly when
/// the pairs move it.
proof fn lemma_mentions_moved(ps: Seq<(nat, nat)>, x: nat)
    requires
        pairs_ok(ps),
    ensures
        mentions(ps, x) <==> plug_image(ps, x) != x,
    decreases ps.len(),
{
    if ps.len() > 0 {
        let rest = ps.drop_last();
        lemma_mentions_moved(rest, x);
        if mentions(ps, x) && ps.last().0 != x && ps.last().1 != x {
            let i = choose|i: int| 0 <= i < ps.len() && pair_has(#[trigger] ps[i], x);
            assert(i != ps.len() - 1);
            assert(rest[i] == ps[i]);
        }
        if mentions(rest, x) {
            let i = choose|i: int| 0 <= i < rest.len() && pair_has(#[trigger] rest[i], x);
            assert(rest[i] == ps[i]);
        }
        if ps.last().0 == x || ps.last().1 == x {
            assert(pair_has(ps[ps.len() - 1], x));
        }
    }
}

impl Plugboard {
    /// The board is a self-undoing table over the alphabet.
    pub open spec fn wf(&self) -> bool {
        is_involution(self@)
    }

    /// Where the board sends the letter at position `x`.
    pub open spec fn spec_swap(&self, x: nat) -> nat {
        self@[x as int] as nat
    }

    /// Wires a board from letter pairs. Fails with `ConfigError` where a pair
    /// joins a letter to itself or a letter is in two pairs.
    pub fn new(pairs: &Vec<(Letter, Letter)>) -> (r: Result<Plugboard, EnigmaError>)
        ensures
            match r {
                Ok(p) => {
                    &&& pairs_ok(pair_positions(pairs@))
                    &&& p.wf()
                    &&& forall|x: nat| x < 26 ==> #[trigger] p.spec_swap(x) == plug_image(
                        pair_positions(pairs@),
                        x,
                    )
                },
                Err(e) => e == EnigmaError::ConfigError && !pairs_ok(pair_positions(pairs@)),
            },
    {
        let ghost ps = pair_positions(pairs@);
        let mut map: [u8; 26] = [
            0, 1, 2, 3, 4, 5, 6, 7, 8, 9, 10, 11, 12, 13, 14, 15, 16, 17, 18, 19, 20, 21, 22, 23,
            24, 25,
        ];
        assert forall|x: nat| x < 26 implies #[trigger] map@[x as int] == plug_image(ps.take(0), x) by {
            assert(ps.take(0).len() == 0);
        }
        let mut k: usize = 0;
        while k < pairs.len()
            invariant
                k <= pairs.len(),
                ps == pair_positions(pairs@),
                pairs_ok(ps.take(k as int)),
                is_involution(map@),
                forall|x: nat| x < 26 ==> #[trigger] map@[x as int] == plug_image(ps.take(k as int), x),
            decreases pairs.len() - k,
        {
            let (a, b) = pairs[k];
            let ai = a.index();
            let bi = b.index();
            let ghost pre = ps.take(k as int);
            let ghost post = ps.take(k + 1);
            assert(post.drop_last() =~= pre);
            assert(post.last() == (ai as nat, bi as nat));
            proof {
                lemma_mentions_moved(pre, ai as nat);
                lemma_mentions_moved(pre, bi as nat);
            }
            if ai == bi || map[ai as usize] != ai || map[bi as usize] != bi {
                proof {
                    lemma_not_ok_extends(ps, k as int + 1);
                }
                return Err(EnigmaError::ConfigError);
            }
            map[ai as usize] = bi;
            map[bi as usize] = ai;
            assert forall|x: nat| x < 26 implies #[trigger] map@[x as int] == plug_image(post, x) by {}
            k = k + 1;
        }
        assert(ps.take(pairs.len() as int) =~= ps);
        Ok(Plugboard { map })
    }

    /// Sends a letter through the board.
    pub fn swap(&self, l: Letter) -> (r: Letter)
        requires
            self.wf(),
        ensures
            r@ == self.spec_swap(l@),
    {
        Letter::from_index(self.map[l.index() as usize])
    }
}

/// A list of pairs that goes wrong in a prefix stays wrong.
proof fn lemma_not_ok_extends(ps: Seq<(nat, nat)>, k: int)
    requires
        0 <= k <= ps.len(),
        !pairs_ok(ps.take(k)),
    ensures
        !pairs_ok(ps),
    decreases ps.len() - k,
{
    if k < ps.len() {
        assert(ps.take(k + 1).drop_last() =~= ps.take(k));
        lemma_not_ok_extends(ps, k + 1);
    } else {
        assert(ps.take(k) =~= ps);
    }
}

/// Sending a letter through the board twice gives the letter back.
pub proof fn lemma_swap_involution(p: Plugboard, x: nat)
    requires
        p.wf(),
        x < 26,
    ensures
        p.spec_swap(p.spec_swap(x)) == x,
{
}

} // verus!
