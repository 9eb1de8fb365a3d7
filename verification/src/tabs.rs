use vstd::prelude::*;
use crate::keys::Key;

verus! {

/// The dashboard tabs.
#[derive(Debug, Clone, Copy, PartialEq, Eq, Structural)]
pub enum Tab {
    Sprints,
    Meetings,
    Worklogs,
    GitHub,
    History,
    Achievements,
    Settings,
}

/// The tabs shown, in display order: the six fixed tabs, then Achievements
/// when the user has unlocked any achievement.
pub open spec fn spec_available_tabs(has_achievements: bool) -> Seq<Tab> {
    let base = seq![Tab::Sprints, Tab::Meetings, Tab::Worklogs, Tab::GitHub, Tab::History, Tab::Settings];
    if has_achievements { base.push(Tab::Achievements) } else { base }
}

/// Position of `t` among `tabs`, or 0 when it is not there.
pub open spec fn position_or_first(tabs: Seq<Tab>, t: Tab) -> int {
    if tabs.contains(t) { choose|i: int| 0 <= i < tabs.len() && tabs[i] == t } else { 0 }
}

/// The tab after `t`, wrapping around; a tab that is not shown counts as the first one.
pub open spec fn spec_next(t: Tab, has_achievements: bool) -> Tab {
    let tabs = spec_available_tabs(has_achievements);
    tabs[(position_or_first(tabs, t) + 1) % (tabs.len() as int)]
}

/// The tab before `t`, wrapping around; a tab that is not shown counts as the first one.
pub open spec fn spec_previous(t: Tab, has_achievements: bool) -> Tab {
    let tabs = spec_available_tabs(has_achievements);
    let i = position_or_first(tabs, t);
    if i == 0 { tabs[tabs.len() - 1] } else { tabs[i - 1] }
}

proof fn lemma_available_tabs_distinct(has_achievements: bool)
    ensures
        spec_available_tabs(has_achievements).no_duplicates(),
        spec_available_tabs(has_achievements).len() == if has_achievements { 7int } else { 6int },
{
    let tabs = spec_available_tabs(has_achievements);
    assert forall|i: int, j: int| 0 <= i < tabs.len() && 0 <= j < tabs.len() && i != j implies tabs[i] != tabs[j] by {
    }
}

proof fn lemma_position_of_index(tabs: Seq<Tab>, i: int)
    requires
        tabs.no_duplicates(),
        0 <= i < tabs.len(),
    ensures
        position_or_first(tabs, tabs[i]) == i,
{
    assert(tabs.contains(tabs[i]));
    let j = choose|j: int| 0 <= j < tabs.len() && tabs[j] == tabs[i];
    assert(tabs[j] == tabs[i]);
}

/// Stepping forward then back, or back then forward, returns to the same tab,
/// for every tab that is shown.
pub proof fn law_next_previous_inverse(t: Tab, has_achievements: bool)
    requires
        spec_available_tabs(has_achievements).contains(t),
    ensures
        spec_previous(spec_next(t, has_achievements), has_achievements) == t,
        spec_next(spec_previous(t, has_achievements), has_achievements) == t,
{
    let tabs = spec_available_tabs(has_achievements);
    lemma_available_tabs_distinct(has_achievements);
    let i = choose|i: int| 0 <= i < tabs.len() && tabs[i] == t;
    lemma_position_of_index(tabs, i);
    let n = (i + 1) % (tabs.len() as int);
    lemma_position_of_index(tabs, n);
    let p = if i == 0 { tabs.len() - 1 } else { i - 1 };
    lemma_position_of_index(tabs, p);
}

/// Stepping forward through the shown tabs visits a different tab each time:
/// the next tab of a shown tab is never the tab itself.
pub proof fn law_next_moves(t: Tab, has_achievements: bool)
    requires
        spec_available_tabs(has_achievements).contains(t),
    ensures
        spec_next(t, has_achievements) != t,
        spec_available_tabs(has_achievements).contains(spec_next(t, has_achievements)),
{
    let tabs = spec_available_tabs(has_achievements);
    lemma_available_tabs_distinct(has_achievements);
    let i = choose|i: int| 0 <= i < tabs.len() && tabs[i] == t;
    lemma_position_of_index(tabs, i);
}

/// The tab reached from `t` by stepping forward `k` times.
pub open spec fn next_times(t: Tab, has_achievements: bool, k: nat) -> Tab
    decreases k,
{
    if k == 0 { t } else { spec_next(next_times(t, has_achievements, (k - 1) as nat), has_achievements) }
}

/// The tab reached from `t` by stepping back `k` times.
pub open spec fn previous_times(t: Tab, has_achievements: bool, k: nat) -> Tab
    decreases k,
{
    if k == 0 { t } else { spec_previous(previous_times(t, has_achievements, (k - 1) as nat), has_achievements) }
}

proof fn lemma_steps(t: Tab, has_achievements: bool, k: nat)
    requires
        spec_available_tabs(has_achievements).contains(t),
    ensures
        ({
            let tabs = spec_available_tabs(has_achievements);
            let n = tabs.len() as int;
            let i = position_or_first(tabs, t);
            &&& next_times(t, has_achievements, k) == tabs[(i + k) % n]
            &&& previous_times(t, has_achievements, k) == tabs[(i - k) % n]
        }),
    decreases k,
{
    let tabs = spec_available_tabs(has_achievements);
    lemma_available_tabs_distinct(has_achievements);
    let n = tabs.len() as int;
    let i0 = choose|i: int| 0 <= i < tabs.len() && tabs[i] == t;
    lemma_position_of_index(tabs, i0);
    let i = position_or_first(tabs, t);
    if k > 0 {
        lemma_steps(t, has_achievements, (k - 1) as nat);
        let a = (i + k - 1) % n;
        lemma_position_of_index(tabs, a);
        vstd::arithmetic::div_mod::lemma_add_mod_noop(i + k - 1, 1, n);
        vstd::arithmetic::div_mod::lemma_small_mod(1, n as nat);
        let b = (i - (k - 1)) % n;
        lemma_position_of_index(tabs, b);
        vstd::arithmetic::div_mod::lemma_sub_mod_noop(i - (k - 1), 1, n);
        if b == 0 {
            vstd::arithmetic::div_mod::lemma_mod_sub_multiples_vanish(n - 1, n);
            vstd::arithmetic::div_mod::lemma_small_mod((n - 1) as nat, n as nat);
            assert((0int - 1) % n == n - 1);
        } else {
            vstd::arithmetic::div_mod::lemma_small_mod((b - 1) as nat, n as nat);
        }
    } else {
        vstd::arithmetic::div_mod::lemma_small_mod(i as nat, n as nat);
    }
}

/// Stepping forward as many times as there are shown tabs, or back as many
/// times, returns to the tab started from; each single step stays among
/// the shown tabs.
pub proof fn law_tab_cycle(t: Tab, has_achievements: bool)
    requires
        spec_available_tabs(has_achievements).contains(t),
    ensures
        next_times(t, has_achievements, spec_available_tabs(has_achievements).len()) == t,
        previous_times(t, has_achievements, spec_available_tabs(has_achievements).len()) == t,
        spec_available_tabs(has_achievements).contains(spec_next(t, has_achievements)),
        spec_available_tabs(has_achievements).contains(spec_previous(t, has_achievements)),
{
    let tabs = spec_available_tabs(has_achievements);
    let n = tabs.len() as int;
    lemma_available_tabs_distinct(has_achievements);
    let i0 = choose|i: int| 0 <= i < tabs.len() && tabs[i] == t;
    lemma_position_of_index(tabs, i0);
    lemma_steps(t, has_achievements, tabs.len());
    vstd::arithmetic::div_mod::lemma_mod_add_multiples_vanish(i0, n);
    vstd::arithmetic::div_mod::lemma_mod_sub_multiples_vanish(i0, n);
    vstd::arithmetic::div_mod::lemma_small_mod(i0 as nat, n as nat);
    assert(i0 + n == n + i0);
    assert(i0 - n == -n + i0);
    law_next_moves(t, has_achievements);
    let p = if i0 == 0 { n - 1 } else { i0 - 1 };
    assert(spec_previous(t, has_achievements) == tabs[p]);
}

impl Tab {
    /// All available tabs (conditional on whether achievements are shown).
    pub fn available_tabs(has_achievements: bool) -> (tabs: Vec<Tab>)
        ensures
            tabs@ == spec_available_tabs(has_achievements),
    {
        let mut tabs = vec![
            Tab::Sprints,
            Tab::Meetings,
            Tab::Worklogs,
            Tab::GitHub,
            Tab::History,
            Tab::Settings,
        ];
        if has_achievements {
            tabs.push(Tab::Achievements);
        }
        tabs
    }

    fn position_in(self, tabs: &Vec<Tab>) -> (i: usize)
        requires
            tabs@.no_duplicates(),
            tabs@.len() > 0,
        ensures
            i == position_or_first(tabs@, self),
            i < tabs@.len(),
    {
        let mut i: usize = 0;
        while i < tabs.len()
            invariant
                0 <= i <= tabs@.len(),
                tabs@.no_duplicates(),
                forall|j: int| 0 <= j < i ==> tabs@[j] != self,
            decreases tabs@.len() - i,
        {
            if tabs[i] == self {
                proof {
                    lemma_position_of_index(tabs@, i as int);
                }
                return i;
            }
            i = i + 1;
        }
        0
    }

    /// The tab after this one, wrapping around to the first.
    pub fn next(self, has_achievements: bool) -> (t: Tab)
        ensures
            t == spec_next(self, has_achievements),
    {
        let tabs = Self::available_tabs(has_achievements);
        proof {
            lemma_available_tabs_distinct(has_achievements);
        }
        let current_index = self.position_in(&tabs);
        let next_index = (current_index + 1) % tabs.len();
        tabs[next_index]
    }

    /// The tab before this one, wrapping around to the last.
    pub fn previous(self, has_achievements: bool) -> (t: Tab)
        ensures
            t == spec_previous(self, has_achievements),
    {
        let tabs = Self::available_tabs(has_achievements);
        proof {
            lemma_available_tabs_distinct(has_achievements);
        }
        let current_index = self.position_in(&tabs);
        let prev_index = if current_index == 0 {
            tabs.len() - 1
        } else {
            current_index - 1
        };
        tabs[prev_index]
    }
}

/// The title a tab shows in the tab bar.
pub open spec fn spec_tab_title(t: Tab) -> Seq<char> {
    match t {
        Tab::Sprints => "Sprints"@,
        Tab::Meetings => "Meetings"@,
        Tab::Worklogs => "Worklogs"@,
        Tab::GitHub => "GitHub"@,
        Tab::History => "History"@,
        Tab::Achievements => "Achievements"@,
        Tab::Settings => "Settings"@,
    }
}

/// The digit that selects a tab.
pub open spec fn spec_tab_digit(t: Tab) -> char {
    match t {
        Tab::Sprints => '1',
        Tab::Meetings => '2',
        Tab::Worklogs => '3',
        Tab::GitHub => '4',
        Tab::History => '5',
        Tab::Settings => '6',
        Tab::Achievements => '7',
    }
}

impl Tab {
    /// The tab's title.
    pub fn title(self) -> (s: &'static str)
        ensures
            s@ == spec_tab_title(self),
    {
        match self {
            Tab::Sprints => "Sprints",
            Tab::Meetings => "Meetings",
            Tab::Worklogs => "Worklogs",
            Tab::GitHub => "GitHub",
            Tab::History => "History",
            Tab::Achievements => "Achievements",
            Tab::Settings => "Settings",
        }
    }

    /// The digit key that selects the tab.
    pub fn digit(self) -> (c: char)
        ensures
            c == spec_tab_digit(self),
    {
        match self {
            Tab::Sprints => '1',
            Tab::Meetings => '2',
            Tab::Worklogs => '3',
            Tab::GitHub => '4',
            Tab::History => '5',
            Tab::Settings => '6',
            Tab::Achievements => '7',
        }
    }
}

/// The tab bar: each available tab, in order, marked when it is the current one.
pub fn tab_bar(current: Tab, has_achievements: bool) -> (entries: Vec<(Tab, bool)>)
    ensures
        entries@.len() == spec_available_tabs(has_achievements).len(),
        forall|i: int|
            0 <= i < entries@.len() ==> (#[trigger] entries@[i]).0 == spec_available_tabs(has_achievements)[i]
                && entries@[i].1 == (entries@[i].0 == current),
{
    let tabs = Tab::available_tabs(has_achievements);
    let mut entries: Vec<(Tab, bool)> = Vec::new();
    let mut i: usize = 0;
    while i < tabs.len()
        invariant
            i <= tabs@.len(),
            tabs@ == spec_available_tabs(has_achievements),
            entries@.len() == i,
            forall|k: int| 0 <= k < i ==> (#[trigger] entries@[k]).0 == tabs@[k] && entries@[k].1 == (entries@[k].0 == current),
        decreases tabs@.len() - i,
    {
        let t = tabs[i];
        entries.push((t, t == current));
        i = i + 1;
    }
    entries
}

/// A digit key selects the tab that shows that digit in the tab bar.
pub proof fn law_digit_selects_its_tab(t: Tab, has_achievements: bool)
    requires
        spec_available_tabs(has_achievements).contains(t),
    ensures
        crate::dashboard::digit_tab(Key::Char(spec_tab_digit(t)), has_achievements) == Some(t),
{
    if t == Tab::Achievements {
        assert(has_achievements) by {
            if !has_achievements {
                let k = choose|k: int| 0 <= k < spec_available_tabs(false).len() && spec_available_tabs(false)[k] == t;
            }
        }
    }
}

} // verus!
