//! Players and their scores.

use vstd::prelude::*;

verus! {

/// How hard a player wants the game to be.
pub enum Difficulty {
    Easy,
    Normal,
    Hard(&'static str),
}

/// Under which name a player is shown.
pub enum Visibility {
    Public,
    Anonym,
}

/// A player and the points they have scored, round by round.
pub struct Player<'same> {
    pub name: &'same str,
    pub nickname: &'same str,
    pub score: Vec<i32>,
    pub age: u8,
    pub difficulty: &'same Difficulty,
}

/// The sum of all the points in `score`.
pub open spec fn total(score: Seq<i32>) -> int
    decreases score.len(),
{
    if score.len() == 0 {
        0
    } else {
        total(score.drop_last()) + score.last()
    }
}

/// Whether the points in `score` can be added up one after the other, from
/// the first to the last, without ever leaving the range of `i32`.
pub open spec fn adds_up(score: Seq<i32>) -> bool {
    forall|k: int|
        0 <= k <= score.len() ==> i32::MIN <= #[trigger] total(score.take(k)) <= i32::MAX
}

impl<'same> Player<'same> {
    /// The player as shown to others: the nickname where the player is
    /// public and the name where the player is anonymous, with the sum of
    /// all points scored.
    pub fn get_player(&self, anonymity: Visibility) -> (shown: Result<
        (&'same str, i32),
        &'same str,
    >)
        requires
            adds_up(self.score@),
        ensures
            shown is Ok,
            shown->Ok_0.1 == total(self.score@),
            anonymity is Public ==> shown->Ok_0.0 == self.nickname,
            anonymity is Anonym ==> shown->Ok_0.0 == self.name,
    {
        let mut overall_score: i32 = 0;
        let count = self.score.len();
        let mut k: usize = 0;
        assert(self.score@.take(0) =~= Seq::empty());
        while k < count
            invariant
                k <= count,
                count == self.score@.len(),
                adds_up(self.score@),
                overall_score == total(self.score@.take(k as int)),
            decreases count - k,
        {
            assert(self.score@.take(k + 1).drop_last() =~= self.score@.take(k as int));
            assert(i32::MIN <= total(self.score@.take(k + 1)) <= i32::MAX);
            overall_score += self.score[k];
            k += 1;
        }
        assert(self.score@.take(count as int) =~= self.score@);
        match anonymity {
            Visibility::Public => Ok((self.nickname, overall_score)),
            Visibility::Anonym => Ok((self.name, overall_score)),
        }
    }
}

} // verus!
