use vstd::prelude::*;

verus! {

/// A key press, as far as the dashboard's list handling cares about it.
#[derive(Debug, Clone, Copy, PartialEq, Eq, Structural)]
pub enum Key {
    Up,
    Down,
    Left,
    Right,
    Home,
    End,
    PageUp,
    PageDown,
    Enter,
    Esc,
    Backspace,
    Delete,
    Tab,
    BackTab,
    Char(char),
    Other,
}

/// Keys that move a list selection one line up: the arrow and vi's `k`.
pub open spec fn is_up_key(key: Key) -> bool {
    key == Key::Up || key == Key::Char('k')
}

/// Keys that move a list selection one line down: the arrow and vi's `j`.
pub open spec fn is_down_key(key: Key) -> bool {
    key == Key::Down || key == Key::Char('j')
}

/// Whether `key` is one that list navigation handles.
pub open spec fn is_navigation_key(key: Key) -> bool {
    is_up_key(key) || is_down_key(key) || key == Key::Home || key == Key::End
}

/// Where a list selection at `index` goes on `key`, in a list whose last index is `max_index`.
pub open spec fn spec_navigate(key: Key, index: usize, max_index: usize) -> usize {
    if is_up_key(key) {
        if index > 0 { (index - 1) as usize } else { index }
    } else if is_down_key(key) {
        if index < max_index { (index + 1) as usize } else { index }
    } else if key == Key::Home {
        0
    } else if key == Key::End {
        max_index
    } else {
        index
    }
}

/// Generic navigation for list-based tabs: moves `selected_index` and says
/// whether the key was a navigation key.
pub fn handle_list_navigation(key: Key, selected_index: &mut usize, max_index: usize) -> (handled: bool)
    ensures
        handled == is_navigation_key(key),
        *final(selected_index) == spec_navigate(key, *old(selected_index), max_index),
{
    match key {
        Key::Up | Key::Char('k') => {
            if *selected_index > 0 {
                *selected_index = *selected_index - 1;
            }
            true
        },
        Key::Down | Key::Char('j') => {
            if *selected_index < max_index {
                *selected_index = *selected_index + 1;
            }
            true
        },
        Key::Home => {
            *selected_index = 0;
            true
        },
        Key::End => {
            *selected_index = max_index;
            true
        },
        _ => false,
    }
}

/// Navigation never leaves the list: a selection within `0..=max_index` stays there.
pub proof fn law_navigation_stays_in_bounds(key: Key, index: usize, max_index: usize)
    requires
        index <= max_index,
    ensures
        spec_navigate(key, index, max_index) <= max_index,
{
}

/// A step up undone by a step down lands on the starting line, and a step
/// down undone by a step up too, wherever the first step actually moved.
pub proof fn law_up_down_round_trip(index: usize, max_index: usize)
    requires
        index <= max_index,
    ensures
        0 < index ==> spec_navigate(Key::Down, spec_navigate(Key::Up, index, max_index), max_index) == index,
        index < max_index ==> spec_navigate(Key::Up, spec_navigate(Key::Down, index, max_index), max_index) == index,
{
}

/// Where the achievements list's scroll offset goes on `key`, when `shown_count` entries are listed.
pub open spec fn spec_scroll(key: Key, offset: usize, shown_count: usize) -> usize {
    if key == Key::Left || key == Key::PageUp {
        if offset > 0 { (offset - 1) as usize } else { 0 }
    } else if key == Key::Right || key == Key::PageDown {
        if offset + 1 < shown_count { (offset + 1) as usize } else { offset }
    } else if key == Key::Home {
        0
    } else if key == Key::End {
        if shown_count > 0 { (shown_count - 1) as usize } else { 0 }
    } else {
        offset
    }
}

/// Scrolls the achievements list: left/page-up go back one entry, right/page-down
/// go forward one while an entry is left, home and end jump to the ends.
pub fn scroll_achievements(key: Key, offset: usize, shown_count: usize) -> (new_offset: usize)
    ensures
        new_offset == spec_scroll(key, offset, shown_count),
{
    match key {
        Key::Left | Key::PageUp => offset.saturating_sub(1),
        Key::Right | Key::PageDown => {
            if shown_count > 0 && offset < shown_count - 1 {
                offset + 1
            } else {
                offset
            }
        },
        Key::Home => 0,
        Key::End => shown_count.saturating_sub(1),
        _ => offset,
    }
}

/// Scrolling keeps the offset on a listed entry.
pub proof fn law_scroll_stays_in_bounds(key: Key, offset: usize, shown_count: usize)
    requires
        offset < shown_count,
    ensures
        spec_scroll(key, offset, shown_count) < shown_count,
{
}

/// One entry of the achievements list, as the list needs to know it.
#[derive(Debug, Clone, Copy, PartialEq, Eq, Structural)]
pub struct AchievementEntry {
    pub is_secret: bool,
    pub is_unlocked: bool,
}

/// Whether an achievement appears in the list: secret ones only once unlocked.
pub open spec fn is_shown(entry: AchievementEntry) -> bool {
    !entry.is_secret || entry.is_unlocked
}

/// Number of listed entries: every shown plain achievement, then each tiered track.
pub open spec fn spec_shown_count(entries: Seq<AchievementEntry>, tiered_count: nat) -> nat {
    entries.filter(|e: AchievementEntry| is_shown(e)).len() + tiered_count
}

/// Counts the achievements shown in the list: all non-secret ones, the unlocked
/// secret ones, and every tiered track.
pub fn shown_achievements_count(entries: &[AchievementEntry], tiered_count: usize) -> (count: usize)
    requires
        entries@.len() + tiered_count <= usize::MAX,
    ensures
        count == spec_shown_count(entries@, tiered_count as nat),
{
    let mut flat: usize = 0;
    let mut i: usize = 0;
    while i < entries.len()
        invariant
            0 <= i <= entries@.len(),
            flat == entries@.take(i as int).filter(|e: AchievementEntry| is_shown(e)).len(),
            flat <= i,
        decreases entries@.len() - i,
    {
        proof {
            reveal_with_fuel(Seq::filter, 1);
            assert(entries@.take(i as int + 1).drop_last() =~= entries@.take(i as int));
        }
        if !entries[i].is_secret || entries[i].is_unlocked {
            flat = flat + 1;
        }
        i = i + 1;
    }
    proof {
        assert(entries@.take(entries@.len() as int) =~= entries@);
    }
    flat + tiered_count
}

} // verus!

verus! {

/// What `char::to_lowercase` yields for `c`, as a string.
pub uninterp spec fn char_lowercase(c: char) -> Seq<char>;

/// Calls `char::to_lowercase` and collects the yielded characters.
/// Claimed: the result is `char_lowercase(c)`; for an ASCII letter `A`..`Z` it is
/// the matching `a`..`z`, and any other ASCII character maps to itself, as the
/// standard library documents for characters without a lowercase mapping.
#[verifier::external_body]
fn lowercase_char(c: char) -> (s: String)
    ensures
        s@ == char_lowercase(c),
        ('A' <= c && c <= 'Z') ==> s@ == seq![((c as u32) + 32) as char],
        ((c as u32) < 128 && !('A' <= c && c <= 'Z')) ==> s@ == seq![c],
{
    c.to_lowercase().to_string()
}

/// The token a key contributes to the secret-sequence buffer: arrows by name,
/// characters lowercased, nothing for other keys.
pub open spec fn spec_key_token(key: Key) -> Option<Seq<char>> {
    match key {
        Key::Up => Some("up"@),
        Key::Down => Some("down"@),
        Key::Left => Some("left"@),
        Key::Right => Some("right"@),
        Key::Char(c) => Some(char_lowercase(c)),
        _ => None,
    }
}

/// Converts a key to the token recorded for secret sequences.
pub fn key_token(key: Key) -> (token: Option<String>)
    ensures
        match token {
            Some(t) => spec_key_token(key) == Some(t@),
            None => spec_key_token(key) is None,
        },
{
    broadcast use vstd::string::group_string_axioms;
    match key {
        Key::Up => Some("up".to_string()),
        Key::Down => Some("down".to_string()),
        Key::Left => Some("left".to_string()),
        Key::Right => Some("right".to_string()),
        Key::Char(c) => Some(lowercase_char(c)),
        _ => None,
    }
}

/// How many recent keys the secret-sequence buffer keeps.
pub const KEY_BUFFER_CAPACITY: usize = 20;

/// The buffer after recording `key`: appended, and the oldest key dropped
/// once more than the capacity are held.
pub open spec fn spec_track(buffer: Seq<Seq<char>>, key: Seq<char>) -> Seq<Seq<char>> {
    let pushed = buffer.push(key);
    if pushed.len() > KEY_BUFFER_CAPACITY { pushed.drop_first() } else { pushed }
}

/// Whether the most recent keys of `buffer` are exactly `sequence`.
pub open spec fn ends_with(buffer: Seq<Seq<char>>, sequence: Seq<Seq<char>>) -> bool {
    buffer.len() >= sequence.len()
        && buffer.subrange(buffer.len() - sequence.len(), buffer.len() as int) == sequence
}

/// The character views of a sequence of strings.
pub open spec fn views_of(keys: Seq<String>) -> Seq<Seq<char>> {
    keys.map_values(|k: String| k@)
}

/// The most recent key tokens, used to detect secret key sequences.
pub struct KeySequenceBuffer {
    keys: Vec<String>,
}

impl KeySequenceBuffer {
    /// The recorded tokens, oldest first.
    pub closed spec fn view(&self) -> Seq<Seq<char>> {
        self.keys@.map_values(|k: String| k@)
    }

    /// An empty buffer.
    pub fn new() -> (buffer: Self)
        ensures
            buffer.view() == Seq::<Seq<char>>::empty(),
    {
        let buffer = KeySequenceBuffer { keys: Vec::new() };
        assert(buffer.view() =~= Seq::<Seq<char>>::empty());
        buffer
    }

    /// Number of tokens held.
    pub fn len(&self) -> (n: usize)
        ensures
            n == self.view().len(),
    {
        self.keys.len()
    }

    /// Records a token, keeping only the most recent ones.
    pub fn track_key_str(&mut self, key: String)
        ensures
            final(self).view() == spec_track(old(self).view(), key@),
    {
        let ghost k = key@;
        self.keys.push(key);
        if self.keys.len() > KEY_BUFFER_CAPACITY {
            self.keys.remove(0);
        }
        proof {
            let pushed = old(self).view().push(k);
            if pushed.len() > KEY_BUFFER_CAPACITY {
                assert(self.view() =~= pushed.drop_first());
            } else {
                assert(self.view() =~= pushed);
            }
        }
    }

    /// Records the token of `key`, if it has one.
    pub fn track_key(&mut self, key: Key)
        ensures
            match spec_key_token(key) {
                Some(t) => final(self).view() == spec_track(old(self).view(), t),
                None => final(self).view() == old(self).view(),
            },
    {
        match key_token(key) {
            Some(t) => self.track_key_str(t),
            None => {},
        }
    }

    /// Forgets every recorded token.
    pub fn clear(&mut self)
        ensures
            final(self).view() == Seq::<Seq<char>>::empty(),
    {
        self.keys.clear();
        assert(self.view() =~= Seq::<Seq<char>>::empty());
    }

    /// Whether the last keys pressed are exactly `sequence`.
    pub fn matches_sequence(&self, sequence: &[String]) -> (matched: bool)
        ensures
            matched == ends_with(self.view(), views_of(sequence@)),
    {
        let n = self.keys.len();
        let m = sequence.len();
        let ghost buf = self.view();
        let ghost seq_view = sequence@.map_values(|k: String| k@);
        if n < m {
            return false;
        }
        let start = n - m;
        let mut i: usize = 0;
        while i < m
            invariant
                n == self.keys@.len(),
                m == sequence@.len(),
                start == n - m,
                0 <= i <= m,
                buf == self.view(),
                seq_view == sequence@.map_values(|k: String| k@),
                forall|j: int| 0 <= j < i ==> buf[start + j] == seq_view[j],
            decreases m - i,
        {
            if self.keys[start + i] != sequence[i] {
                assert(buf.subrange(start as int, n as int)[i as int] != seq_view[i as int]);
                return false;
            }
            i = i + 1;
        }
        assert(buf.subrange(start as int, n as int) =~= seq_view);
        true
    }

    /// Index of the first of `sequences` that the last keys pressed complete.
    pub fn first_matching_sequence(&self, sequences: &[Vec<String>]) -> (found: Option<usize>)
        ensures
            match found {
                Some(i) => i < sequences@.len()
                    && ends_with(self.view(), views_of(sequences@[i as int]@))
                    && forall|j: int| 0 <= j < i ==> !ends_with(self.view(), views_of(#[trigger] sequences@[j]@)),
                None => forall|j: int| 0 <= j < sequences@.len() ==> !ends_with(self.view(), views_of(#[trigger] sequences@[j]@)),
            },
    {
        let mut i: usize = 0;
        while i < sequences.len()
            invariant
                0 <= i <= sequences@.len(),
                forall|j: int| 0 <= j < i ==> !ends_with(self.view(), views_of(#[trigger] sequences@[j]@)),
            decreases sequences@.len() - i,
        {
            if self.matches_sequence(sequences[i].as_slice()) {
                return Some(i);
            }
            i = i + 1;
        }
        None
    }
}

/// The buffer never holds more than its capacity, and the key just recorded is always the newest.
pub proof fn law_track_bounded(buffer: Seq<Seq<char>>, key: Seq<char>)
    requires
        buffer.len() <= KEY_BUFFER_CAPACITY,
    ensures
        spec_track(buffer, key).len() <= KEY_BUFFER_CAPACITY,
        spec_track(buffer, key).last() == key,
        ends_with(spec_track(buffer, key), seq![key]),
{
    let t = spec_track(buffer, key);
    assert(t.subrange(t.len() - 1, t.len() as int) =~= seq![key]);
}

/// Recording the keys of a sequence one after another completes that sequence,
/// provided it is no longer than the buffer.
pub proof fn law_track_completes_sequence(buffer: Seq<Seq<char>>, keys: Seq<Seq<char>>)
    requires
        keys.len() <= KEY_BUFFER_CAPACITY,
    ensures
        ends_with(track_all(buffer, keys), keys),
    decreases keys.len(),
{
    if keys.len() == 0 {
        let t = track_all(buffer, keys);
        assert(t.subrange(t.len() as int, t.len() as int) =~= keys);
    } else {
        let init = keys.drop_last();
        law_track_completes_sequence(buffer, init);
        let before = track_all(buffer, init);
        let t = track_all(buffer, keys);
        assert(keys.drop_last() == init);
        assert(t == spec_track(before, keys.last()));
        let pushed = before.push(keys.last());
        assert(pushed.subrange(pushed.len() - keys.len(), pushed.len() as int) =~= keys) by {
            assert(before.subrange(before.len() - init.len(), before.len() as int) == init);
            assert forall|j: int| 0 <= j < keys.len() implies
                pushed.subrange(pushed.len() - keys.len(), pushed.len() as int)[j] == keys[j] by {
                if j < init.len() {
                    assert(before.subrange(before.len() - init.len(), before.len() as int)[j] == init[j]);
                }
            }
        }
        if pushed.len() > KEY_BUFFER_CAPACITY {
            assert(t.subrange(t.len() - keys.len(), t.len() as int) =~= keys) by {
                assert forall|j: int| 0 <= j < keys.len() implies
                    t.subrange(t.len() - keys.len(), t.len() as int)[j] == keys[j] by {
                    assert(t.subrange(t.len() - keys.len(), t.len() as int)[j]
                        == pushed.subrange(pushed.len() - keys.len(), pushed.len() as int)[j]);
                }
            }
        }
    }
}

/// The buffer after recording every key of `keys` in order.
pub open spec fn track_all(buffer: Seq<Seq<char>>, keys: Seq<Seq<char>>) -> Seq<Seq<char>>
    decreases keys.len(),
{
    if keys.len() == 0 { buffer } else { spec_track(track_all(buffer, keys.drop_last()), keys.last()) }
}

} // verus!
