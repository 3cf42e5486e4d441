//! The order of the seven skillsets of a chart by their scores.

use vstd::prelude::*;
use crate::wrapper::{SkillsetScores, Ssr};

verus! {

/// The seven skillsets, in their canonical order.
#[derive(Debug, Clone, Copy, PartialEq, Eq, Structural)]
pub enum Skillset {
    Stream,
    Jumpstream,
    Handstream,
    Stamina,
    Jackspeed,
    Chordjack,
    Technical,
}

impl Skillset {
    /// The place of the skillset in the canonical order.
    pub open spec fn place(self) -> int {
        match self {
            Skillset::Stream => 0,
            Skillset::Jumpstream => 1,
            Skillset::Handstream => 2,
            Skillset::Stamina => 3,
            Skillset::Jackspeed => 4,
            Skillset::Chordjack => 5,
            Skillset::Technical => 6,
        }
    }

    /// The name of the skillset, as text.
    pub open spec fn name_text(self) -> Seq<char> {
        match self {
            Skillset::Stream => "stream"@,
            Skillset::Jumpstream => "jumpstream"@,
            Skillset::Handstream => "handstream"@,
            Skillset::Stamina => "stamina"@,
            Skillset::Jackspeed => "jackspeed"@,
            Skillset::Chordjack => "chordjack"@,
            Skillset::Technical => "technical"@,
        }
    }

    /// The name of the skillset.
    pub fn name(self) -> (r: &'static str)
        ensures
            r@ == self.name_text(),
    {
        match self {
            Skillset::Stream => "stream",
            Skillset::Jumpstream => "jumpstream",
            Skillset::Handstream => "handstream",
            Skillset::Stamina => "stamina",
            Skillset::Jackspeed => "jackspeed",
            Skillset::Chordjack => "chordjack",
            Skillset::Technical => "technical",
        }
    }
}

/// The seven skillsets in their canonical order.
pub open spec fn canonical() -> Seq<Skillset> {
    seq![
        Skillset::Stream,
        Skillset::Jumpstream,
        Skillset::Handstream,
        Skillset::Stamina,
        Skillset::Jackspeed,
        Skillset::Chordjack,
        Skillset::Technical,
    ]
}

impl SkillsetScores {
    /// The score of one skillset.
    pub open spec fn score_of(self, skillset: Skillset) -> i64 {
        match skillset {
            Skillset::Stream => self.stream,
            Skillset::Jumpstream => self.jumpstream,
            Skillset::Handstream => self.handstream,
            Skillset::Stamina => self.stamina,
            Skillset::Jackspeed => self.jackspeed,
            Skillset::Chordjack => self.chordjack,
            Skillset::Technical => self.technical,
        }
    }

    /// Gives the score of one skillset.
    pub fn score(&self, skillset: Skillset) -> (r: i64)
        ensures
            r == self.score_of(skillset),
    {
        match skillset {
            Skillset::Stream => self.stream,
            Skillset::Jumpstream => self.jumpstream,
            Skillset::Handstream => self.handstream,
            Skillset::Stamina => self.stamina,
            Skillset::Jackspeed => self.jackspeed,
            Skillset::Chordjack => self.chordjack,
            Skillset::Technical => self.technical,
        }
    }
}

/// `a` comes before `b` in the order by scores: its score is higher, or it
/// is as high and `a` is the earlier one in the canonical order.
pub open spec fn outranks(scores: SkillsetScores, a: Skillset, b: Skillset) -> bool {
    scores.score_of(a) > scores.score_of(b) || (scores.score_of(a) == scores.score_of(b)
        && a.place() < b.place())
}

/// `order` holds the seven skillsets by descending score, those of equal
/// score in their canonical order.
pub open spec fn is_ranking(scores: SkillsetScores, order: Seq<Skillset>) -> bool {
    &&& order.len() == 7
    &&& forall|i: int, j: int| 0 <= i < j < 7 ==> outranks(scores, order[i], order[j])
}

/// Orders the seven skillsets by descending score, those of equal score in
/// their canonical order.
pub fn ranking(scores: &SkillsetScores) -> (order: [Skillset; 7])
    ensures
        is_ranking(*scores, order@),
{
    let mut order: [Skillset; 7] = [
        Skillset::Stream,
        Skillset::Jumpstream,
        Skillset::Handstream,
        Skillset::Stamina,
        Skillset::Jackspeed,
        Skillset::Chordjack,
        Skillset::Technical,
    ];
    assert(order@ =~= canonical());
    let mut i: usize = 1;
    while i < 7
        invariant
            1 <= i <= 7,
            forall|a: int, b: int| 0 <= a < b < i ==> outranks(*scores, order@[a], order@[b]),
            forall|k: int| 0 <= k < i ==> order@[k].place() < i,
            forall|k: int| i <= k < 7 ==> order@[k] == canonical()[k],
        decreases 7 - i,
    {
        let mut j: usize = i;
        while j > 0 && scores.score(order[j]) > scores.score(order[j - 1])
            invariant
                0 <= j <= i < 7,
                order@[j as int].place() == i,
                forall|k: int| 0 <= k <= i && k != j ==> order@[k].place() < i,
                forall|k: int| i < k < 7 ==> order@[k] == canonical()[k],
                forall|a: int, b: int|
                    0 <= a < b <= i && a != j && b != j ==> outranks(*scores, order@[a], order@[b]),
                forall|b: int| j < b <= i ==> outranks(*scores, order@[j as int], order@[b]),
            decreases j,
        {
            let moved = order[j];
            let passed = order[j - 1];
            order[j] = passed;
            order[j - 1] = moved;
            j -= 1;
        }
        proof {
            assert forall|a: int, b: int| 0 <= a < b <= i implies outranks(
                *scores,
                order@[a],
                order@[b],
            ) by {
                if b == j {
                    assert(order@[j - 1].place() < i);
                    assert(outranks(*scores, order@[j - 1], order@[j as int]));
                    if a < j - 1 {
                        assert(outranks(*scores, order@[a], order@[j - 1]));
                    }
                }
            }
        }
        i += 1;
    }
    order
}

/// How many names `calculate_highest_patterns` gives for `number`: as many as
/// asked for, but at most the seven there are, and none for a negative
/// `number`.
pub open spec fn shown_count(number: i8) -> int {
    if number < 0 {
        0
    } else if number > 7 {
        7
    } else {
        number as int
    }
}

/// `names` are the names of the first skillsets by descending score, as many
/// as `number` asks for.
pub open spec fn are_highest_patterns(
    names: Seq<String>,
    scores: SkillsetScores,
    number: i8,
) -> bool {
    exists|order: Seq<Skillset>|
        {
            &&& #[trigger] is_ranking(scores, order)
            &&& names.len() == shown_count(number)
            &&& forall|i: int|
                0 <= i < names.len() ==> (#[trigger] names[i])@ == order[i].name_text()
        }
}

/// The names of the highest-scored skillsets, the highest first; skillsets of
/// equal score come in their canonical order. At most `number` names are
/// given, never more than seven, and none for a negative `number`.
pub fn calculate_highest_patterns(skillset: &SkillsetScores, number: i8) -> (r: Vec<String>)
    ensures
        are_highest_patterns(r@, *skillset, number),
{
    let order = ranking(skillset);
    let count: usize = if number < 0 {
        0
    } else if number > 7 {
        7
    } else {
        number as usize
    };
    let mut top_patterns: Vec<String> = Vec::new();
    let mut i: usize = 0;
    while i < count
        invariant
            i <= count <= 7,
            top_patterns@.len() == i,
            forall|k: int| 0 <= k < i ==> (#[trigger] top_patterns@[k])@ == order@[k].name_text(),
        decreases count - i,
    {
        top_patterns.push(order[i].name().to_owned());
        i += 1;
    }
    assert(is_ranking(*skillset, order@));
    top_patterns
}

/// The names of the highest-scored skillsets of scores as the engine gives
/// them.
pub fn calculate_highest_patterns_from_ssr(ssr: &Ssr, number: i8) -> (r: Vec<String>)
    ensures
        are_highest_patterns(r@, ssr.scores(), number),
{
    let skillset = SkillsetScores::from(*ssr);
    calculate_highest_patterns(&skillset, number)
}

/// A ranking holds every skillset.
pub proof fn lemma_ranking_holds_all(scores: SkillsetScores, order: Seq<Skillset>, s: Skillset)
    requires
        is_ranking(scores, order),
    ensures
        exists|i: int| 0 <= i < 7 && order[i] == s,
{
    assert forall|i: int, j: int| 0 <= i < j < 7 implies order[i].place() != order[j].place() by {
        assert(outranks(scores, order[i], order[j]));
    }
    let at0 = order[0].place();
    let at1 = order[1].place();
    let at2 = order[2].place();
    let at3 = order[3].place();
    let at4 = order[4].place();
    let at5 = order[5].place();
    let at6 = order[6].place();
    assert(at0 == s.place() || at1 == s.place() || at2 == s.place() || at3 == s.place() || at4
        == s.place() || at5 == s.place() || at6 == s.place());
}

/// The scores determine the ranking.
pub proof fn lemma_ranking_unique(scores: SkillsetScores, a: Seq<Skillset>, b: Seq<Skillset>)
    requires
        is_ranking(scores, a),
        is_ranking(scores, b),
    ensures
        a == b,
{
    lemma_same_up_to(scores, a, b, 7);
    assert(a =~= b);
}

/// Two rankings agree in their first `n` places.
proof fn lemma_same_up_to(scores: SkillsetScores, a: Seq<Skillset>, b: Seq<Skillset>, n: int)
    requires
        is_ranking(scores, a),
        is_ranking(scores, b),
        0 <= n <= 7,
    ensures
        forall|i: int| 0 <= i < n ==> a[i] == b[i],
    decreases n,
{
    if n > 0 {
        lemma_same_up_to(scores, a, b, n - 1);
        let k = n - 1;
        let s = a[k];
        let t = b[k];
        lemma_ranking_holds_all(scores, b, s);
        let j = choose|j: int| 0 <= j < 7 && b[j] == s;
        lemma_ranking_holds_all(scores, a, t);
        let p = choose|p: int| 0 <= p < 7 && a[p] == t;
        if j < k {
            assert(a[j] == b[j]);
            assert(outranks(scores, a[j], a[k]));
        } else if j > k {
            assert(outranks(scores, b[k], b[j]));
            if p < k {
                assert(a[p] == b[p]);
                assert(outranks(scores, b[p], b[k]));
            } else if p > k {
                assert(outranks(scores, a[k], a[p]));
            }
        }
    }
}

} // verus!
