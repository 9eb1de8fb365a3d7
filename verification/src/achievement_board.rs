use vstd::prelude::*;

verus! {

// The Achievements tab: the score it shows, the order of its cards, and how
// the cards are laid out in columns.

/// An achievement as the board counts it.
#[derive(Debug, Clone, Copy, PartialEq, Eq, Structural)]
pub struct BoardAchievement {
    pub points: u32,
    pub is_secret: bool,
    pub is_unlocked: bool,
}

/// One tier of a tiered achievement: reached at `threshold`, worth `points`.
#[derive(Debug, Clone, Copy, PartialEq, Eq, Structural)]
pub struct Tier {
    pub threshold: u64,
    pub points: u32,
}

/// A tiered achievement: its tiers, and the progress count it has reached.
pub struct TieredTrack {
    pub tiers: Vec<Tier>,
    pub count: u64,
}

/// Whether the board shows an achievement: secret ones only once unlocked.
pub open spec fn shown(a: BoardAchievement) -> bool {
    !a.is_secret || a.is_unlocked
}

/// The points and the number of the unlocked achievements (`unlocked`), or
/// of the shown ones.
pub open spec fn tally(s: Seq<BoardAchievement>, unlocked: bool) -> (int, int)
    decreases s.len(),
{
    if s.len() == 0 {
        (0, 0)
    } else {
        let rest = tally(s.drop_last(), unlocked);
        let a = s.last();
        if (unlocked && a.is_unlocked) || (!unlocked && shown(a)) {
            (rest.0 + a.points as int, rest.1 + 1)
        } else {
            rest
        }
    }
}

/// Points of the tiers reached at `count` (all of them when `all`).
pub open spec fn tier_points(tiers: Seq<Tier>, count: u64, all: bool) -> int
    decreases tiers.len(),
{
    if tiers.len() == 0 {
        0
    } else {
        tier_points(tiers.drop_last(), count, all) + if all || count >= tiers.last().threshold {
            tiers.last().points as int
        } else {
            0
        }
    }
}

/// Points of the tiered achievements: reached tiers, or all tiers when `all`.
pub open spec fn tracks_points(tracks: Seq<TieredTrack>, all: bool) -> int
    decreases tracks.len(),
{
    if tracks.len() == 0 {
        0
    } else {
        tracks_points(tracks.drop_last(), all) + tier_points(tracks.last().tiers@, tracks.last().count, all)
    }
}

proof fn lemma_tally_bounds(s: Seq<BoardAchievement>, unlocked: bool)
    ensures
        tally(s, unlocked).0 >= 0,
        0 <= tally(s, unlocked).1 <= s.len(),
    decreases s.len(),
{
    if s.len() > 0 {
        lemma_tally_bounds(s.drop_last(), unlocked);
    }
}

proof fn lemma_tally_prefix(s: Seq<BoardAchievement>, unlocked: bool, i: int)
    requires
        0 <= i <= s.len(),
    ensures
        tally(s.take(i), unlocked).0 <= tally(s, unlocked).0,
    decreases s.len() - i,
{
    if i < s.len() {
        lemma_tally_prefix(s, unlocked, i + 1);
        assert(s.take(i + 1).drop_last() =~= s.take(i));
    } else {
        assert(s.take(i) =~= s);
    }
}

proof fn lemma_tier_nonneg(tiers: Seq<Tier>, count: u64, all: bool)
    ensures
        tier_points(tiers, count, all) >= 0,
    decreases tiers.len(),
{
    if tiers.len() > 0 {
        lemma_tier_nonneg(tiers.drop_last(), count, all);
    }
}

proof fn lemma_tier_prefix(tiers: Seq<Tier>, count: u64, all: bool, i: int)
    requires
        0 <= i <= tiers.len(),
    ensures
        tier_points(tiers.take(i), count, all) <= tier_points(tiers, count, all),
    decreases tiers.len() - i,
{
    if i < tiers.len() {
        lemma_tier_prefix(tiers, count, all, i + 1);
        assert(tiers.take(i + 1).drop_last() =~= tiers.take(i));
    } else {
        assert(tiers.take(i) =~= tiers);
    }
}

proof fn lemma_tracks_nonneg(tracks: Seq<TieredTrack>, all: bool)
    ensures
        tracks_points(tracks, all) >= 0,
    decreases tracks.len(),
{
    if tracks.len() > 0 {
        lemma_tracks_nonneg(tracks.drop_last(), all);
        lemma_tier_nonneg(tracks.last().tiers@, tracks.last().count, all);
    }
}

proof fn lemma_tracks_prefix(tracks: Seq<TieredTrack>, all: bool, i: int)
    requires
        0 <= i < tracks.len(),
    ensures
        tracks_points(tracks.take(i), all) + tier_points(tracks[i].tiers@, tracks[i].count, all) <= tracks_points(tracks, all),
    decreases tracks.len() - i,
{
    assert(tracks.take(i + 1).drop_last() =~= tracks.take(i));
    assert(tracks.take(i + 1).last() == tracks[i]);
    if i + 1 < tracks.len() {
        lemma_tracks_prefix(tracks, all, i + 1);
        lemma_tier_nonneg(tracks[i + 1].tiers@, tracks[i + 1].count, all);
    } else {
        assert(tracks.take(i + 1) =~= tracks);
    }
}

fn tally_exec(s: &[BoardAchievement], unlocked: bool) -> (r: (u64, usize))
    requires
        tally(s@, unlocked).0 <= u32::MAX,
    ensures
        r.0 == tally(s@, unlocked).0,
        r.1 == tally(s@, unlocked).1,
{
    let mut total: u64 = 0;
    let mut n: usize = 0;
    let mut i: usize = 0;
    while i < s.len()
        invariant
            0 <= i <= s@.len(),
            tally(s@, unlocked).0 <= u32::MAX,
            total == tally(s@.take(i as int), unlocked).0,
            n == tally(s@.take(i as int), unlocked).1,
        decreases s@.len() - i,
    {
        proof {
            lemma_tally_prefix(s@, unlocked, i + 1);
            lemma_tally_bounds(s@.take(i + 1), unlocked);
            lemma_tally_bounds(s@.take(i as int), unlocked);
            assert(s@.take(i + 1).drop_last() =~= s@.take(i as int));
            assert(s@.take(i + 1).last() == s@[i as int]);
        }
        let a = s[i];
        if (unlocked && a.is_unlocked) || (!unlocked && (!a.is_secret || a.is_unlocked)) {
            total = total + a.points as u64;
            n = n + 1;
        }
        i = i + 1;
    }
    assert(s@.take(s@.len() as int) =~= s@);
    (total, n)
}

fn sum_tiers(tiers: &[Tier], count: u64, all: bool) -> (r: u64)
    requires
        tier_points(tiers@, count, all) <= u32::MAX,
    ensures
        r == tier_points(tiers@, count, all),
{
    let mut total: u64 = 0;
    let mut i: usize = 0;
    while i < tiers.len()
        invariant
            0 <= i <= tiers@.len(),
            tier_points(tiers@, count, all) <= u32::MAX,
            total == tier_points(tiers@.take(i as int), count, all),
        decreases tiers@.len() - i,
    {
        proof {
            lemma_tier_prefix(tiers@, count, all, i + 1);
            lemma_tier_nonneg(tiers@.take(i as int), count, all);
            assert(tiers@.take(i + 1).drop_last() =~= tiers@.take(i as int));
            assert(tiers@.take(i + 1).last() == tiers@[i as int]);
        }
        let t = tiers[i];
        if all || count >= t.threshold {
            total = total + t.points as u64;
        }
        i = i + 1;
    }
    assert(tiers@.take(tiers@.len() as int) =~= tiers@);
    total
}

fn sum_tracks(tracks: &[TieredTrack], all: bool) -> (r: u64)
    requires
        tracks_points(tracks@, all) <= u32::MAX,
    ensures
        r == tracks_points(tracks@, all),
{
    let mut total: u64 = 0;
    let mut i: usize = 0;
    while i < tracks.len()
        invariant
            0 <= i <= tracks@.len(),
            tracks_points(tracks@, all) <= u32::MAX,
            total == tracks_points(tracks@.take(i as int), all),
        decreases tracks@.len() - i,
    {
        proof {
            lemma_tracks_prefix(tracks@, all, i as int);
            lemma_tracks_nonneg(tracks@.take(i as int), all);
            lemma_tier_nonneg(tracks@[i as int].tiers@, tracks@[i as int].count, all);
            assert(tracks@.take(i + 1).drop_last() =~= tracks@.take(i as int));
            assert(tracks@.take(i + 1).last() == tracks@[i as int]);
        }
        let t = &tracks[i];
        let p = sum_tiers(t.tiers.as_slice(), t.count, all);
        total = total + p;
        i = i + 1;
    }
    assert(tracks@.take(tracks@.len() as int) =~= tracks@);
    total
}

/// The board's header: achievements unlocked out of those counted, and points
/// earned out of those available.
#[derive(Debug, Clone, Copy, PartialEq, Eq, Structural)]
pub struct BoardScore {
    pub unlocked: usize,
    pub total: usize,
    pub score: u64,
    pub max_score: u64,
}

/// Scores the board: unlocked achievements out of the shown ones and the
/// tiered tracks; points of unlocked achievements and reached tiers, out of
/// the points of shown achievements and of every tier.
pub fn board_score(achievements: &[BoardAchievement], tracks: &[TieredTrack]) -> (s: BoardScore)
    requires
        tally(achievements@, false).0 + tracks_points(tracks@, true) <= u32::MAX,
        achievements@.len() + tracks@.len() <= usize::MAX,
    ensures
        s.unlocked == tally(achievements@, true).1,
        s.total == tally(achievements@, false).1 + tracks@.len(),
        s.score == tally(achievements@, true).0 + tracks_points(tracks@, false),
        s.max_score == tally(achievements@, false).0 + tracks_points(tracks@, true),
{
    proof {
        lemma_unlocked_within_shown(achievements@);
        lemma_reached_within_all(tracks@);
        lemma_tracks_nonneg(tracks@, false);
        lemma_tracks_nonneg(tracks@, true);
        lemma_tally_bounds(achievements@, true);
        lemma_tally_bounds(achievements@, false);
    }
    let (earned, unlocked) = tally_exec(achievements, true);
    let (available, shown_count) = tally_exec(achievements, false);
    let reached = sum_tracks(tracks, false);
    let all_tiers = sum_tracks(tracks, true);
    BoardScore { unlocked, total: shown_count + tracks.len(), score: earned + reached, max_score: available + all_tiers }
}

proof fn lemma_unlocked_within_shown(s: Seq<BoardAchievement>)
    ensures
        tally(s, true).0 <= tally(s, false).0,
    decreases s.len(),
{
    if s.len() > 0 {
        lemma_unlocked_within_shown(s.drop_last());
    }
}

proof fn lemma_reached_within_all(tracks: Seq<TieredTrack>)
    ensures
        tracks_points(tracks, false) <= tracks_points(tracks, true),
    decreases tracks.len(),
{
    if tracks.len() > 0 {
        lemma_reached_within_all(tracks.drop_last());
        lemma_tiers_reached_within_all(tracks.last().tiers@, tracks.last().count);
    }
}

proof fn lemma_tiers_reached_within_all(tiers: Seq<Tier>, count: u64)
    ensures
        tier_points(tiers, count, false) <= tier_points(tiers, count, true),
    decreases tiers.len(),
{
    if tiers.len() > 0 {
        lemma_tiers_reached_within_all(tiers.drop_last(), count);
    }
}

/// The flat achievements' cards, by position: the shown unlocked ones first,
/// then the shown locked ones, each group in its own order.
pub open spec fn spec_card_order(s: Seq<BoardAchievement>, n: int, unlocked: bool) -> Seq<usize>
    decreases n,
{
    if n <= 0 {
        Seq::empty()
    } else {
        let rest = spec_card_order(s, n - 1, unlocked);
        if shown(s[n - 1]) && s[n - 1].is_unlocked == unlocked {
            rest.push((n - 1) as usize)
        } else {
            rest
        }
    }
}

fn cards_with(s: &[BoardAchievement], unlocked: bool, out: &mut Vec<usize>)
    ensures
        final(out)@ == old(out)@ + spec_card_order(s@, s@.len() as int, unlocked),
{
    let ghost start = out@;
    let mut i: usize = 0;
    while i < s.len()
        invariant
            0 <= i <= s@.len(),
            out@ == start + spec_card_order(s@, i as int, unlocked),
        decreases s@.len() - i,
    {
        let a = s[i];
        if (!a.is_secret || a.is_unlocked) && a.is_unlocked == unlocked {
            out.push(i);
            assert(out@ =~= start + spec_card_order(s@, i + 1, unlocked));
        }
        i = i + 1;
    }
}

/// The order of the flat achievements' cards: shown unlocked ones first,
/// then shown locked ones; secret locked ones are left out.
pub fn card_order(achievements: &[BoardAchievement]) -> (order: Vec<usize>)
    ensures
        order@ == spec_card_order(achievements@, achievements@.len() as int, true) + spec_card_order(
            achievements@,
            achievements@.len() as int,
            false,
        ),
{
    let mut order: Vec<usize> = Vec::new();
    cards_with(achievements, true, &mut order);
    cards_with(achievements, false, &mut order);
    assert(order@ =~= spec_card_order(achievements@, achievements@.len() as int, true) + spec_card_order(
        achievements@,
        achievements@.len() as int,
        false,
    ));
    order
}

/// Width of a card's column, in cells.
pub const CARD_WIDTH: u16 = 37;
/// Height of a card, in lines.
pub const CARD_HEIGHT: u16 = 6;

/// How the cards fill the area: columns, cards per column, and the cards
/// `[start, end)` shown.
#[derive(Debug, Clone, Copy, PartialEq, Eq, Structural)]
pub struct CardGrid {
    pub columns: usize,
    pub per_column: usize,
    pub start: usize,
    pub end: usize,
}

/// The grid for an area of `width` by `height` cells holding `cards` cards,
/// scrolled by `scroll`: as many 37-cell columns and 6-line rows as fit (one
/// at least), the scroll kept to where a full page still shows.
pub open spec fn spec_card_grid(width: u16, height: u16, cards: usize, scroll: usize) -> CardGrid {
    let columns = if width / 37 > 1 { (width / 37) as usize } else { 1 };
    let per_column = if height / 6 > 1 { (height / 6) as usize } else { 1 };
    let visible = (per_column * columns) as int;
    let max_scroll: int = if cards > visible { cards - visible } else { 0 };
    let start: int = if scroll < max_scroll { scroll as int } else { max_scroll };
    let end: int = if start + visible < cards { start + visible } else { cards as int };
    CardGrid { columns, per_column, start: start as usize, end: end as usize }
}

/// Lays the cards out.
pub fn card_grid(width: u16, height: u16, cards: usize, scroll: usize) -> (g: CardGrid)
    ensures
        g == spec_card_grid(width, height, cards, scroll),
        g.start <= g.end <= cards,
{
    let columns: usize = if width / CARD_WIDTH > 1 { (width / CARD_WIDTH) as usize } else { 1 };
    let per_column: usize = if height / CARD_HEIGHT > 1 { (height / CARD_HEIGHT) as usize } else { 1 };
    assert(per_column * columns <= 10923 * 1771) by (nonlinear_arith)
        requires
            per_column <= 10923,
            columns <= 1771,
    ;
    let visible = per_column * columns;
    let max_scroll = if cards > visible { cards - visible } else { 0 };
    let start = if scroll < max_scroll { scroll } else { max_scroll };
    let end = if start < cards && cards - start > visible { start + visible } else { cards };
    CardGrid { columns, per_column, start, end }
}

/// Where the card at `index` of those shown goes: its column and its row,
/// filling each column before the next.
pub fn card_cell(index: usize, per_column: usize) -> (cell: (usize, usize))
    requires
        per_column > 0,
    ensures
        cell.0 == index / per_column,
        cell.1 == index % per_column,
{
    (index / per_column, index % per_column)
}

/// A page is never longer than the grid holds, and it is full whenever
/// there are cards enough.
pub proof fn law_card_page_is_full(width: u16, height: u16, cards: usize, scroll: usize)
    ensures
        ({
            let g = spec_card_grid(width, height, cards, scroll);
            &&& g.end - g.start <= g.per_column * g.columns
            &&& (cards >= g.per_column * g.columns ==> g.end - g.start == g.per_column * g.columns)
        }),
{
    let g = spec_card_grid(width, height, cards, scroll);
    assert(g.per_column * g.columns >= 1) by (nonlinear_arith)
        requires
            g.per_column >= 1,
            g.columns >= 1,
    ;
}

} // verus!
