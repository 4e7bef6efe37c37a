use arcade_markets::nexus::{calculate_rank_hint, PlayerSeasonStats, Quest, QuestCategory};

fn stats() -> PlayerSeasonStats {
    PlayerSeasonStats {
        owner: "pat".to_string(),
        season_id: 1,
        total_xp: 0,
        prediction_score: 0,
        meme_score: 0,
        typing_score: 0,
        life_score: 0,
        completed_quests: 0,
        rank_snapshot: None,
    }
}

#[test]
fn rank_hints_by_threshold() {
    assert_eq!(calculate_rank_hint(0), "Bronze");
    assert_eq!(calculate_rank_hint(999), "Bronze");
    assert_eq!(calculate_rank_hint(1000), "Silver");
    assert_eq!(calculate_rank_hint(4999), "Silver");
    assert_eq!(calculate_rank_hint(5000), "Gold");
    assert_eq!(calculate_rank_hint(10000), "Legendary");
    assert_eq!(calculate_rank_hint(u64::MAX), "Legendary");
}

#[test]
fn points_go_to_total_and_category() {
    let mut s = stats();
    s.add_points(QuestCategory::Typing, 40);
    s.add_points(QuestCategory::Life, 2);
    s.add_points(QuestCategory::Mixed, 5);
    assert_eq!(s.total_xp, 47);
    assert_eq!(s.typing_score, 40);
    assert_eq!(s.life_score, 2);
    assert_eq!(s.prediction_score, 0);
    assert_eq!(s.meme_score, 0);
}

#[test]
fn completed_quest_awards_its_category() {
    let quest = Quest {
        id: 1,
        season_id: 1,
        title: "Win a round".to_string(),
        description: String::new(),
        category: QuestCategory::Prediction,
        reward_xp: 250,
        requirements_text: String::new(),
        created_by: "admin".to_string(),
        active: true,
        ai_suggested: false,
        created_at: 0,
    };
    let mut s = stats();
    s.award_quest(&quest);
    s.award_quest(&quest);
    assert_eq!(s.total_xp, 500);
    assert_eq!(s.prediction_score, 500);
    assert_eq!(s.completed_quests, 2);
    assert_eq!(s.typing_score, 0);
}

#[test]
fn skill_index_sums_scores_and_ranks_total() {
    let mut s = stats();
    s.add_points(QuestCategory::Meme, 700);
    s.add_points(QuestCategory::Other, 400);
    let idx = s.skill_index();
    assert_eq!(idx.owner, "pat");
    assert_eq!(idx.total_xp, 1100);
    assert_eq!(idx.overall_score, 1800);
    assert_eq!(idx.rank_hint.as_deref(), Some("Silver"));
}
