//! Seasons, quests and the cross-game experience that players earn in them.
use vstd::prelude::*;

verus! {

/// Marker type naming the seasons-and-quests application.
pub struct ArcadeNexusAbi;

/// The game that a quest or an action belongs to.
#[derive(Clone, Copy, Debug, PartialEq, Eq, Structural)]
pub enum QuestCategory {
    Prediction,
    Meme,
    Typing,
    Life,
    Mixed,
    Other,
}

/// A season, during which experience is tracked. Times are in seconds.
#[derive(Clone, Debug)]
pub struct Season {
    pub id: u64,
    pub title: String,
    pub description: String,
    pub start_time: i64,
    pub end_time: i64,
    pub active: bool,
    pub theme: Option<String>,
}

/// A player's experience in one season, in total and per game.
#[derive(Clone, Debug)]
pub struct PlayerSeasonStats {
    pub owner: String,
    pub season_id: u64,
    pub total_xp: u64,
    pub prediction_score: u64,
    pub meme_score: u64,
    pub typing_score: u64,
    pub life_score: u64,
    pub completed_quests: u32,
    pub rank_snapshot: Option<u32>,
}

/// A quest that awards experience when completed.
#[derive(Clone, Debug)]
pub struct Quest {
    pub id: u64,
    pub season_id: u64,
    pub title: String,
    pub description: String,
    pub category: QuestCategory,
    pub reward_xp: u64,
    pub requirements_text: String,
    pub created_by: String,
    pub active: bool,
    pub ai_suggested: bool,
    pub created_at: u64,
}

/// Whether a player has completed a quest.
#[derive(Clone, Debug)]
pub struct QuestProgress {
    pub quest_id: u64,
    pub owner: String,
    pub completed: bool,
    pub completed_at: Option<i64>,
}

/// A player's aggregated standing in a season.
#[derive(Clone, Debug)]
pub struct ArcadeSkillIndex {
    pub owner: String,
    pub season_id: u64,
    pub total_xp: u64,
    pub overall_score: u64,
    pub rank_hint: Option<String>,
}

/// The rank name that a total of experience earns.
pub open spec fn rank_hint_of(total_xp: u64) -> Seq<char> {
    if total_xp >= 10000 {
        seq!['L', 'e', 'g', 'e', 'n', 'd', 'a', 'r', 'y']
    } else if total_xp >= 5000 {
        seq!['G', 'o', 'l', 'd']
    } else if total_xp >= 1000 {
        seq!['S', 'i', 'l', 'v', 'e', 'r']
    } else {
        seq!['B', 'r', 'o', 'n', 'z', 'e']
    }
}

/// The rank name for `total_xp`: Bronze, then Silver from 1000, Gold from
/// 5000 and Legendary from 10000.
pub fn calculate_rank_hint(total_xp: u64) -> (r: String)
    ensures
        r@ == rank_hint_of(total_xp),
{
    let r = if total_xp >= 10000 {
        String::from_str("Legendary")
    } else if total_xp >= 5000 {
        String::from_str("Gold")
    } else if total_xp >= 1000 {
        String::from_str("Silver")
    } else {
        String::from_str("Bronze")
    };
    proof {
        reveal_strlit("Legendary");
        reveal_strlit("Gold");
        reveal_strlit("Silver");
        reveal_strlit("Bronze");
        assert(r@ =~= rank_hint_of(total_xp));
    }
    r
}

/// The score of a category that has one of its own.
pub open spec fn category_score(s: PlayerSeasonStats, c: QuestCategory) -> Option<u64> {
    match c {
        QuestCategory::Prediction => Some(s.prediction_score),
        QuestCategory::Meme => Some(s.meme_score),
        QuestCategory::Typing => Some(s.typing_score),
        QuestCategory::Life => Some(s.life_score),
        _ => None,
    }
}

impl PlayerSeasonStats {
    /// Adds `points` to the total and to the score of `category`; mixed
    /// and other points count towards the total only.
    pub fn add_points(&mut self, category: QuestCategory, points: u64)
        requires
            old(self).total_xp + points <= u64::MAX,
            category_score(*old(self), category) matches Some(v) ==> v + points <= u64::MAX,
        ensures
            final(self).total_xp == old(self).total_xp + points,
            category_score(*old(self), category) matches Some(v) ==> category_score(
                *final(self),
                category,
            ) == Some((v + points) as u64),
            forall|c: QuestCategory|
                c != category ==> #[trigger] category_score(*final(self), c) == category_score(
                    *old(self),
                    c,
                ),
            final(self).owner == old(self).owner,
            final(self).season_id == old(self).season_id,
            final(self).completed_quests == old(self).completed_quests,
            final(self).rank_snapshot == old(self).rank_snapshot,
    {
        self.total_xp = self.total_xp + points;
        match category {
            QuestCategory::Prediction => self.prediction_score = self.prediction_score + points,
            QuestCategory::Meme => self.meme_score = self.meme_score + points,
            QuestCategory::Typing => self.typing_score = self.typing_score + points,
            QuestCategory::Life => self.life_score = self.life_score + points,
            QuestCategory::Mixed | QuestCategory::Other => {},
        }
    }

    /// Credits a completed quest: its reward counts as points of the
    /// quest's category, and the count of completed quests grows by one.
    pub fn award_quest(&mut self, quest: &Quest)
        requires
            old(self).total_xp + quest.reward_xp <= u64::MAX,
            category_score(*old(self), quest.category) matches Some(v) ==> v + quest.reward_xp
                <= u64::MAX,
            old(self).completed_quests < u32::MAX,
        ensures
            final(self).total_xp == old(self).total_xp + quest.reward_xp,
            category_score(*old(self), quest.category) matches Some(v) ==> category_score(
                *final(self),
                quest.category,
            ) == Some((v + quest.reward_xp) as u64),
            forall|c: QuestCategory|
                c != quest.category ==> #[trigger] category_score(*final(self), c)
                    == category_score(*old(self), c),
            final(self).completed_quests == old(self).completed_quests + 1,
            final(self).owner == old(self).owner,
            final(self).season_id == old(self).season_id,
            final(self).rank_snapshot == old(self).rank_snapshot,
    {
        self.add_points(quest.category, quest.reward_xp);
        let ghost mid = *self;
        self.completed_quests = self.completed_quests + 1;
        assert forall|c: QuestCategory| #[trigger]
            category_score(*self, c) == category_score(mid, c) by {}
    }

    /// The player's skill index: the total plus every per-game score, and
    /// the rank name that the total earns.
    pub fn skill_index(&self) -> (r: ArcadeSkillIndex)
        requires
            self.total_xp + self.prediction_score + self.meme_score + self.typing_score
                + self.life_score <= u64::MAX,
        ensures
            r.owner@ == self.owner@,
            r.season_id == self.season_id,
            r.total_xp == self.total_xp,
            r.overall_score == self.total_xp + self.prediction_score + self.meme_score
                + self.typing_score + self.life_score,
            r.rank_hint is Some && r.rank_hint->Some_0@ == rank_hint_of(self.total_xp),
    {
        ArcadeSkillIndex {
            owner: self.owner.clone(),
            season_id: self.season_id,
            total_xp: self.total_xp,
            overall_score: self.total_xp + self.prediction_score + self.meme_score
                + self.typing_score + self.life_score,
            rank_hint: Some(calculate_rank_hint(self.total_xp)),
        }
    }
}

} // verus!
