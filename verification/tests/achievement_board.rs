use wtf_cli::achievement_board::{
    board_score, card_cell, card_grid, card_order, BoardAchievement, BoardScore, CardGrid, Tier, TieredTrack,
};

fn ach(points: u32, is_secret: bool, is_unlocked: bool) -> BoardAchievement {
    BoardAchievement { points, is_secret, is_unlocked }
}

#[test]
fn the_board_counts_unlocked_and_shown_achievements() {
    let achievements = vec![ach(10, false, true), ach(20, false, false), ach(50, true, false), ach(30, true, true)];
    let tracks = vec![TieredTrack {
        tiers: vec![Tier { threshold: 5, points: 5 }, Tier { threshold: 20, points: 15 }],
        count: 7,
    }];
    assert_eq!(
        board_score(&achievements, &tracks),
        BoardScore { unlocked: 2, total: 4, score: 45, max_score: 80 }
    );
}

#[test]
fn unlocked_cards_come_first_and_locked_secrets_stay_hidden() {
    let achievements = vec![ach(1, false, false), ach(1, false, true), ach(1, true, false), ach(1, true, true), ach(1, false, false)];
    assert_eq!(card_order(&achievements), vec![1, 3, 0, 4]);
}

#[test]
fn cards_fill_columns_and_scroll_by_pages() {
    assert_eq!(card_grid(80, 20, 30, 0), CardGrid { columns: 2, per_column: 3, start: 0, end: 6 });
    assert_eq!(card_grid(80, 20, 30, 100), CardGrid { columns: 2, per_column: 3, start: 24, end: 30 });
    assert_eq!(card_grid(10, 3, 2, 1), CardGrid { columns: 1, per_column: 1, start: 1, end: 2 });
    assert_eq!(card_grid(80, 20, 4, 3), CardGrid { columns: 2, per_column: 3, start: 0, end: 4 });
    assert_eq!(card_cell(4, 3), (1, 1));
}
