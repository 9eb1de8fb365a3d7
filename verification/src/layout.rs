use vstd::prelude::*;
use vstd::utf8::encode_utf8;
use crate::meetings::is_ascii_letter;
use crate::text::{char_is_whitespace, chars_of, is_whitespace_char, occurs_at, occurs_at_exec, string_from_chars, views};

verus! {

/// The length of `s` in bytes, UTF-8 encoded (what `str::len` gives).
pub open spec fn byte_len(s: Seq<char>) -> int {
    encode_utf8(s).len() as int
}

/// Bytes of the UTF-8 encoding of `c`.
pub open spec fn utf8_width(c: char) -> int {
    let u = c as u32;
    if u <= 0x7f { 1 } else if u <= 0x7ff { 2 } else if u <= 0xffff { 3 } else { 4 }
}

proof fn lemma_encode_step(s: Seq<char>)
    requires
        s.len() > 0,
    ensures
        byte_len(s) == utf8_width(s[0]) + byte_len(s.drop_first()),
{
    let u = s[0] as u32;
    vstd::utf8::char_is_scalar(s[0]);
    assert(encode_utf8(s) == vstd::utf8::encode_scalar(u) + encode_utf8(s.drop_first()));
    assert(vstd::utf8::encode_scalar(u).len() == utf8_width(s[0]));
}

/// The UTF-8 length of `s`, in bytes.
pub fn byte_length(s: &[char]) -> (n: u128)
    ensures
        n == byte_len(s@),
        n <= 4 * s@.len(),
{
    let mut n: u128 = 0;
    let mut i: usize = 0;
    assert(s@.skip(0) == s@);
    while i < s.len()
        invariant
            i <= s@.len(),
            n <= 4 * i,
            n + byte_len(s@.skip(i as int)) == byte_len(s@),
        decreases s@.len() - i,
    {
        proof {
            lemma_encode_step(s@.skip(i as int));
            assert(s@.skip(i as int).drop_first() == s@.skip(i as int + 1));
        }
        let u = s[i] as u32;
        let w: u128 = if u <= 0x7f { 1 } else if u <= 0x7ff { 2 } else if u <= 0xffff { 3 } else { 4 };
        n = n + w;
        i = i + 1;
    }
    proof {
        assert(s@.skip(s@.len() as int) == Seq::<char>::empty());
    }
    n
}

/// The words of `s`: its maximal runs of non-whitespace characters, in
/// order (what `str::split_whitespace` yields).
pub open spec fn words(s: Seq<char>) -> Seq<Seq<char>>
    decreases s.len(),
{
    if s.len() == 0 {
        Seq::empty()
    } else {
        let w = words(s.drop_last());
        let c = s.last();
        if is_whitespace_char(c) {
            w
        } else if s.len() >= 2 && !is_whitespace_char(s[s.len() - 2]) {
            w.update(w.len() - 1, w.last().push(c))
        } else {
            w.push(seq![c])
        }
    }
}

/// The words of the text.
pub fn split_words(text: &str) -> (ws: Vec<String>)
    ensures
        views(ws@) == words(text@),
{
    let chars = chars_of(text);
    let mut done: Vec<String> = Vec::new();
    let mut cur: Vec<char> = Vec::new();
    let mut i: usize = 0;
    while i < chars.len()
        invariant
            i <= chars@.len(),
            chars@ == text@,
            words(chars@.take(i as int)) == if cur@.len() > 0 {
                views(done@).push(cur@)
            } else {
                views(done@)
            },
            cur@.len() > 0 <==> (i > 0 && !is_whitespace_char(chars@[i - 1])),
        decreases chars@.len() - i,
    {
        let c = chars[i];
        let ghost prefix = chars@.take(i as int + 1);
        proof {
            assert(prefix.drop_last() == chars@.take(i as int));
            assert(prefix.last() == c);
        }
        if char_is_whitespace(c) {
            if cur.len() > 0 {
                let ghost before = done@;
                done.push(string_from_chars(cur.as_slice()));
                proof {
                    assert(views(done@) == views(before).push(cur@));
                }
                cur = Vec::new();
            }
        } else {
            let ghost old_cur = cur@;
            cur.push(c);
            proof {
                if old_cur.len() > 0 {
                    assert(prefix[prefix.len() - 2] == chars@[i - 1]);
                    let w = words(chars@.take(i as int));
                    assert(w == views(done@).push(old_cur));
                    assert(w.update(w.len() - 1, w.last().push(c)) == views(done@).push(cur@));
                } else {
                    if i > 0 {
                        assert(prefix[prefix.len() - 2] == chars@[i - 1]);
                    }
                    assert(cur@ == seq![c]);
                }
            }
        }
        i = i + 1;
    }
    proof {
        assert(chars@.take(chars@.len() as int) == chars@);
    }
    if cur.len() > 0 {
        let ghost before = done@;
        done.push(string_from_chars(cur.as_slice()));
        proof {
            assert(views(done@) == views(before).push(cur@));
        }
    }
    done
}

/// The lines being filled and the current line, after placing `ws` greedily
/// into lines of at most `max_width` bytes.
pub open spec fn wrap_state(ws: Seq<Seq<char>>, max_width: int) -> (Seq<Seq<char>>, Seq<char>)
    decreases ws.len(),
{
    if ws.len() == 0 {
        (Seq::empty(), Seq::empty())
    } else {
        let (lines, cur) = wrap_state(ws.drop_last(), max_width);
        let w = ws.last();
        if cur.len() == 0 {
            (lines, w)
        } else if byte_len(cur) + 1 + byte_len(w) <= max_width {
            (lines, cur + seq![' '] + w)
        } else {
            (lines.push(cur), w)
        }
    }
}

/// The text's words laid out in lines of at most `max_width` bytes, a word
/// that alone is longer standing on a line of its own.
pub open spec fn spec_wrap_text(text: Seq<char>, max_width: int) -> Seq<Seq<char>> {
    let (lines, cur) = wrap_state(words(text), max_width);
    if cur.len() > 0 { lines.push(cur) } else { lines }
}

/// Every word is non-empty.
proof fn lemma_words_nonempty(s: Seq<char>)
    ensures
        forall|k: int| 0 <= k < words(s).len() ==> (#[trigger] words(s)[k]).len() > 0,
        s.len() > 0 && !is_whitespace_char(s.last()) ==> words(s).len() > 0,
    decreases s.len(),
{
    if s.len() > 0 {
        let w = words(s.drop_last());
        lemma_words_nonempty(s.drop_last());
        if s.len() >= 2 {
            assert(s.drop_last().last() == s[s.len() - 2]);
        }
        assert forall|k: int| 0 <= k < words(s).len() implies (#[trigger] words(s)[k]).len() > 0 by {
            if k < w.len() {
                assert(w[k].len() > 0);
            }
        }
    }
}

/// Wraps text to lines of at most `max_width` bytes.
pub fn wrap_text(text: &str, max_width: usize) -> (lines: Vec<String>)
    ensures
        views(lines@) == spec_wrap_text(text@, max_width as int),
{
    let ws = split_words(text);
    proof {
        lemma_words_nonempty(text@);
    }
    let mut lines: Vec<String> = Vec::new();
    let mut current = String::new();
    let mut i: usize = 0;
    while i < ws.len()
        invariant
            i <= ws@.len(),
            views(ws@) == words(text@),
            forall|k: int| 0 <= k < words(text@).len() ==> (#[trigger] words(text@)[k]).len() > 0,
            (views(lines@), current@) == wrap_state(views(ws@).take(i as int), max_width as int),
        decreases ws@.len() - i,
    {
        let ghost prefix = views(ws@).take(i as int + 1);
        proof {
            assert(prefix.drop_last() == views(ws@).take(i as int));
            assert(prefix.last() == ws@[i as int]@);
        }
        let word = &ws[i];
        let current_chars = chars_of(current.as_str());
        let word_chars = chars_of(word.as_str());
        let current_bytes = byte_length(current_chars.as_slice());
        let word_bytes = byte_length(word_chars.as_slice());
        let current_len = current_chars.len();
        let word_len = word_chars.len();
        assert(current_bytes <= 4 * current_len && word_bytes <= 4 * word_len);
        if current.as_str().is_empty() {
            current = word.clone();
        } else if current_bytes + 1 + word_bytes <= max_width as u128 {
            let mut chars = chars_of(current.as_str());
            chars.push(' ');
            let word_chars = chars_of(word.as_str());
            let mut k: usize = 0;
            let ghost base = chars@;
            while k < word_chars.len()
                invariant
                    k <= word_chars@.len(),
                    chars@ == base + word_chars@.take(k as int),
                decreases word_chars@.len() - k,
            {
                chars.push(word_chars[k]);
                proof {
                    assert(word_chars@.take(k as int + 1) == word_chars@.take(k as int).push(word_chars@[k as int]));
                }
                k = k + 1;
            }
            proof {
                assert(word_chars@.take(word_chars@.len() as int) == word_chars@);
                assert(chars@ == current@ + seq![' '] + word@);
            }
            current = string_from_chars(chars.as_slice());
        } else {
            let ghost before = lines@;
            let ghost cur = current@;
            lines.push(current);
            proof {
                assert(views(lines@) == views(before).push(cur));
            }
            current = word.clone();
        }
        i = i + 1;
    }
    proof {
        assert(views(ws@).take(ws@.len() as int) == views(ws@));
    }
    if !current.as_str().is_empty() {
        let ghost before = lines@;
        let ghost cur = current@;
        lines.push(current);
        proof {
            assert(views(lines@) == views(before).push(cur));
        }
    }
    lines
}

proof fn lemma_encode_concat(a: Seq<char>, b: Seq<char>)
    ensures
        encode_utf8(a + b) == encode_utf8(a) + encode_utf8(b),
    decreases a.len(),
{
    if a.len() == 0 {
        assert(a + b =~= b);
        assert(encode_utf8(a) + encode_utf8(b) =~= encode_utf8(b));
    } else {
        lemma_encode_concat(a.drop_first(), b);
        assert((a + b).drop_first() =~= a.drop_first() + b);
        assert((a + b)[0] == a[0]);
        assert(encode_utf8(a + b) =~= encode_utf8(a) + encode_utf8(b));
    }
}

proof fn lemma_byte_len_take_step(s: Seq<char>, k: int)
    requires
        0 <= k < s.len(),
    ensures
        byte_len(s.take(k + 1)) == byte_len(s.take(k)) + utf8_width(s[k]),
{
    assert(s.take(k + 1) =~= s.take(k) + seq![s[k]]);
    lemma_encode_concat(s.take(k), seq![s[k]]);
    lemma_encode_step(seq![s[k]]);
    assert(seq![s[k]].drop_first() =~= Seq::<char>::empty());
}

proof fn lemma_byte_len_take_monotonic(s: Seq<char>, i: int, j: int)
    requires
        0 <= i <= j <= s.len(),
    ensures
        byte_len(s.take(i)) + (j - i) <= byte_len(s.take(j)),
    decreases j - i,
{
    if i < j {
        lemma_byte_len_take_monotonic(s, i, j - 1);
        lemma_byte_len_take_step(s, j - 1);
    }
}

/// `line` with `w` appended after a space, or `w` alone on an empty line.
pub open spec fn join_word(line: Seq<char>, w: Seq<char>) -> Seq<char> {
    if line.len() == 0 { w } else { line + seq![' '] + w }
}

/// Fills `line` greedily with the words from index `i` on while the line
/// stays within `width` bytes: the line, and the index of the first word left out.
pub open spec fn fill(ws: Seq<Seq<char>>, i: int, line: Seq<char>, width: int) -> (Seq<char>, int)
    decreases ws.len() - i,
{
    if i < 0 || i >= ws.len() {
        (line, i)
    } else if byte_len(join_word(line, ws[i])) <= width {
        fill(ws, i + 1, join_word(line, ws[i]), width)
    } else {
        (line, i)
    }
}

/// The longest prefix of `word` that fits in `n` bytes.
pub open spec fn prefix_within(word: Seq<char>, n: int) -> Seq<char>
    decreases word.len(),
{
    if word.len() == 0 || utf8_width(word[0]) > n {
        Seq::empty()
    } else {
        seq![word[0]] + prefix_within(word.drop_first(), n - utf8_width(word[0]))
    }
}

/// `width - 3`, or 0 when `width` is below 3: room left before an ellipsis.
pub open spec fn room_before_ellipsis(width: int) -> int {
    if width >= 3 { width - 3 } else { 0 }
}

/// The two lines of a description laid out in `width` bytes: the first line
/// filled greedily with words; then, if the rest fits on the second line,
/// the second line holds it, and a full stop ends the text where room is
/// left and none is there; if it does not fit, the second line holds the
/// words that fit in `width - 3` bytes (or, when none does, the longest
/// prefix of the next word that does) followed by `...`, so that it stays
/// within the width.
pub open spec fn spec_two_lines(text: Seq<char>, width: int) -> (Seq<char>, Seq<char>) {
    let ws = words(text);
    let (l1, i1) = fill(ws, 0, Seq::empty(), width);
    let (l2, i2) = fill(ws, i1, Seq::empty(), width);
    if i2 < ws.len() {
        let (m2, j2) = fill(ws, i1, Seq::empty(), room_before_ellipsis(width));
        if m2.len() == 0 {
            (l1, prefix_within(ws[i1], room_before_ellipsis(width)) + "..."@)
        } else {
            (l1, m2 + "..."@)
        }
    } else if l2.len() > 0 && byte_len(l2) < width {
        (l1, if l2.last() == '.' { l2 } else { l2.push('.') })
    } else if l1.len() > 0 && l2.len() == 0 && byte_len(l1) < width && l1.last() != '.' {
        (l1.push('.'), l2)
    } else {
        (l1, l2)
    }
}

proof fn lemma_prefix_within_fits(word: Seq<char>, n: int)
    requires
        n >= 0,
    ensures
        byte_len(prefix_within(word, n)) <= n,
        prefix_within(word, n).len() <= word.len(),
    decreases word.len(),
{
    if word.len() > 0 && utf8_width(word[0]) <= n {
        lemma_prefix_within_fits(word.drop_first(), n - utf8_width(word[0]));
        let p = prefix_within(word, n);
        assert(p.len() > 0);
        lemma_encode_step(p);
        assert(p[0] == word[0]);
        assert(p.drop_first() =~= prefix_within(word.drop_first(), n - utf8_width(word[0])));
    } else {
        assert(encode_utf8(Seq::<char>::empty()) =~= Seq::<u8>::empty());
    }
}

proof fn lemma_fill_fits(ws: Seq<Seq<char>>, i: int, line: Seq<char>, width: int)
    requires
        byte_len(line) <= width,
    ensures
        byte_len(fill(ws, i, line, width).0) <= width,
    decreases ws.len() - i,
{
    if 0 <= i < ws.len() && byte_len(join_word(line, ws[i])) <= width {
        lemma_fill_fits(ws, i + 1, join_word(line, ws[i]), width);
    }
}

proof fn lemma_byte_len_concat(a: Seq<char>, b: Seq<char>)
    ensures
        byte_len(a + b) == byte_len(a) + byte_len(b),
{
    lemma_encode_concat(a, b);
}

proof fn lemma_byte_len_push(a: Seq<char>, c: char)
    requires
        c == '.',
    ensures
        byte_len(a.push(c)) == byte_len(a) + 1,
{
    assert(a.push(c) =~= a + seq![c]);
    lemma_encode_concat(a, seq![c]);
    lemma_encode_step(seq![c]);
    assert(seq![c].drop_first() =~= Seq::<char>::empty());
    assert(encode_utf8(Seq::<char>::empty()) =~= Seq::<u8>::empty());
}

/// The first line fits in the width; the second does too, once the width
/// has room for an ellipsis.
proof fn lemma_two_lines_fit(text: Seq<char>, width: int)
    requires
        width >= 0,
    ensures
        byte_len(spec_two_lines(text, width).0) <= width,
        width >= 3 ==> byte_len(spec_two_lines(text, width).1) <= width,
{
    reveal_strlit("...");
    let ws = words(text);
    assert(encode_utf8(Seq::<char>::empty()) =~= Seq::<u8>::empty());
    let (l1, i1) = fill(ws, 0, Seq::empty(), width);
    let (l2, i2) = fill(ws, i1, Seq::empty(), width);
    lemma_fill_fits(ws, 0, Seq::empty(), width);
    lemma_fill_fits(ws, i1, Seq::empty(), width);
    let room = room_before_ellipsis(width);
    assert(byte_len("..."@) == 3) by {
        let d = "..."@;
        lemma_encode_step(d);
        lemma_encode_step(d.drop_first());
        lemma_encode_step(d.drop_first().drop_first());
        assert(d.drop_first().drop_first().drop_first() =~= Seq::<char>::empty());
    }
    if i2 < ws.len() {
        let (m2, j2) = fill(ws, i1, Seq::empty(), room);
        lemma_fill_fits(ws, i1, Seq::empty(), room);
        lemma_byte_len_concat(m2, "..."@);
        lemma_prefix_within_fits(ws[i1], room);
        lemma_byte_len_concat(prefix_within(ws[i1], room), "..."@);
    } else if l2.len() > 0 && byte_len(l2) < width {
        lemma_byte_len_push(l2, '.');
    } else if l1.len() > 0 && l2.len() == 0 && byte_len(l1) < width && l1.last() != '.' {
        lemma_byte_len_push(l1, '.');
    }
}

/// The words `ws` joined by single spaces.
pub open spec fn join_all(ws: Seq<Seq<char>>) -> Seq<char>
    decreases ws.len(),
{
    if ws.len() == 0 {
        Seq::empty()
    } else {
        join_word(join_all(ws.drop_last()), ws.last())
    }
}

proof fn lemma_fill_joins(ws: Seq<Seq<char>>, s0: int, i: int, width: int)
    requires
        0 <= s0 <= i <= ws.len(),
    ensures
        i <= fill(ws, i, join_all(ws.subrange(s0, i)), width).1 <= ws.len(),
        fill(ws, i, join_all(ws.subrange(s0, i)), width).0 == join_all(
            ws.subrange(s0, fill(ws, i, join_all(ws.subrange(s0, i)), width).1),
        ),
    decreases ws.len() - i,
{
    let line = join_all(ws.subrange(s0, i));
    if i < ws.len() && byte_len(join_word(line, ws[i])) <= width {
        assert(ws.subrange(s0, i + 1).drop_last() =~= ws.subrange(s0, i));
        assert(ws.subrange(s0, i + 1).last() == ws[i]);
        lemma_fill_joins(ws, s0, i + 1, width);
    }
}

/// Whether every word of the text finds room on the two lines, with no ellipsis.
pub open spec fn fits_on_two_lines(text: Seq<char>, width: int) -> bool {
    let ws = words(text);
    let (l1, i1) = fill(ws, 0, Seq::empty(), width);
    fill(ws, i1, Seq::empty(), width).1 == ws.len()
}

/// When the text fits on the two lines, no word is lost: the first line is
/// the first words joined by spaces, the second line the remaining ones, each
/// line perhaps followed by one full stop.
pub proof fn law_two_lines_keep_every_word(text: Seq<char>, width: int)
    requires
        fits_on_two_lines(text, width),
    ensures
        ({
            let ws = words(text);
            let i1 = fill(ws, 0, Seq::empty(), width).1;
            let (a, b) = spec_two_lines(text, width);
            &&& 0 <= i1 <= ws.len()
            &&& (a == join_all(ws.take(i1)) || a == join_all(ws.take(i1)).push('.'))
            &&& (b == join_all(ws.skip(i1)) || b == join_all(ws.skip(i1)).push('.'))
        }),
{
    let ws = words(text);
    assert(ws.subrange(0, 0) =~= Seq::<Seq<char>>::empty());
    lemma_fill_joins(ws, 0, 0, width);
    let i1 = fill(ws, 0, Seq::empty(), width).1;
    assert(ws.subrange(0, i1) =~= ws.take(i1));
    assert(ws.subrange(i1, i1) =~= Seq::<Seq<char>>::empty());
    lemma_fill_joins(ws, i1, i1, width);
    assert(ws.subrange(i1, ws.len() as int) =~= ws.skip(i1));
}

/// Appends the characters of `tail` to `chars`.
fn append_chars(chars: &mut Vec<char>, tail: &Vec<char>)
    ensures
        final(chars)@ == old(chars)@ + tail@,
{
    let mut k: usize = 0;
    while k < tail.len()
        invariant
            k <= tail@.len(),
            chars@ == old(chars)@ + tail@.take(k as int),
        decreases tail@.len() - k,
    {
        chars.push(tail[k]);
        proof {
            assert(tail@.take(k as int + 1) == tail@.take(k as int).push(tail@[k as int]));
        }
        k = k + 1;
    }
    proof {
        assert(tail@.take(tail@.len() as int) == tail@);
    }
}

/// `line` and `word` joined as `join_word` says.
fn join_line(line: &Vec<char>, word: &Vec<char>) -> (j: Vec<char>)
    ensures
        j@ == join_word(line@, word@),
{
    if line.len() == 0 {
        word.clone()
    } else {
        let mut j = line.clone();
        j.push(' ');
        append_chars(&mut j, word);
        j
    }
}

proof fn lemma_fill_bounds(ws: Seq<Seq<char>>, i: int, line: Seq<char>, width: int)
    requires
        0 <= i <= ws.len(),
    ensures
        i <= fill(ws, i, line, width).1 <= ws.len(),
    decreases ws.len() - i,
{
    if i < ws.len() && byte_len(join_word(line, ws[i])) <= width {
        lemma_fill_bounds(ws, i + 1, join_word(line, ws[i]), width);
    }
}

/// Fills a line from word `start` on.
fn fill_line(ws: &Vec<Vec<char>>, start: usize, width: usize) -> (r: (Vec<char>, usize))
    requires
        start <= ws@.len(),
    ensures
        (r.0@, r.1 as int) == fill(ws@.map_values(|w: Vec<char>| w@), start as int, Seq::empty(), width as int),
{
    let ghost wv = ws@.map_values(|w: Vec<char>| w@);
    let mut line: Vec<char> = Vec::new();
    let mut i = start;
    let mut stop = false;
    while !stop && i < ws.len()
        invariant
            start <= i <= ws@.len(),
            wv == ws@.map_values(|w: Vec<char>| w@),
            fill(wv, start as int, Seq::empty(), width as int) == if stop {
                (line@, i as int)
            } else {
                fill(wv, i as int, line@, width as int)
            },
        decreases ws@.len() - i + if stop { 0int } else { 1int },
    {
        let test = join_line(&line, &ws[i]);
        assert(wv[i as int] == ws@[i as int]@);
        if byte_length(test.as_slice()) <= width as u128 {
            line = test;
            i = i + 1;
        } else {
            stop = true;
        }
    }
    (line, i)
}

/// The longest prefix of `word` that fits in `n` bytes.
fn fitting_prefix(word: &Vec<char>, n: usize) -> (p: Vec<char>)
    ensures
        p@ == prefix_within(word@, n as int),
{
    let mut out: Vec<char> = Vec::new();
    let mut left = n;
    let mut k: usize = 0;
    assert(word@.skip(0) =~= word@);
    while k < word.len()
        invariant
            k <= word@.len(),
            left <= n,
            prefix_within(word@, n as int) == out@ + prefix_within(word@.skip(k as int), left as int),
        decreases word@.len() - k,
    {
        let u = word[k] as u32;
        let w: usize = if u <= 0x7f { 1 } else if u <= 0x7ff { 2 } else if u <= 0xffff { 3 } else { 4 };
        assert(word@.skip(k as int)[0] == word@[k as int]);
        if w > left {
            assert(prefix_within(word@.skip(k as int), left as int) =~= Seq::<char>::empty());
            assert(out@ + Seq::<char>::empty() =~= out@);
            return out;
        }
        let ghost rest = prefix_within(word@.skip(k as int + 1), (left - w) as int);
        assert(word@.skip(k as int).drop_first() =~= word@.skip(k as int + 1));
        assert(prefix_within(word@.skip(k as int), left as int) == seq![word@[k as int]] + rest);
        let ghost before = out@;
        out.push(word[k]);
        assert(out@ + rest =~= before + (seq![word@[k as int]] + rest));
        left = left - w;
        k = k + 1;
    }
    assert(word@.skip(k as int) =~= Seq::<char>::empty());
    assert(out@ + Seq::<char>::empty() =~= out@);
    out
}

/// Lays a description out on two lines of `width` bytes.
pub fn wrap_text_two_lines(text: &str, width: usize) -> (lines: (String, String))
    ensures
        (lines.0@, lines.1@) == spec_two_lines(text@, width as int),
        byte_len(lines.0@) <= width,
        width >= 3 ==> byte_len(lines.1@) <= width,
{
    let word_strings = split_words(text);
    let mut ws: Vec<Vec<char>> = Vec::new();
    let mut j: usize = 0;
    while j < word_strings.len()
        invariant
            j <= word_strings@.len(),
            ws@.len() == j,
            forall|k: int| 0 <= k < j ==> (#[trigger] ws@[k])@ == word_strings@[k]@,
        decreases word_strings@.len() - j,
    {
        ws.push(chars_of(word_strings[j].as_str()));
        j = j + 1;
    }
    let ghost wv = ws@.map_values(|w: Vec<char>| w@);
    assert(wv =~= words(text@)) by {
        assert(views(word_strings@) == words(text@));
    }
    let (line1, i1) = fill_line(&ws, 0, width);
    proof {
        lemma_fill_bounds(wv, 0, Seq::empty(), width as int);
    }
    let (line2, i2) = fill_line(&ws, i1, width);
    proof {
        lemma_fill_bounds(wv, i1 as int, Seq::empty(), width as int);
    }
    let dots = "...";
    proof {
        reveal_strlit("...");
    }
    if i2 < ws.len() {
        let room = if width >= 3 { width - 3 } else { 0 };
        let (short, _) = fill_line(&ws, i1, room);
        let mut second = if short.len() == 0 {
            assert(wv[i1 as int] == ws@[i1 as int]@);
            fitting_prefix(&ws[i1], room)
        } else {
            short
        };
        let dot_chars = chars_of(dots);
        append_chars(&mut second, &dot_chars);
        proof {
            lemma_two_lines_fit(text@, width as int);
        }
        return (string_from_chars(line1.as_slice()), string_from_chars(second.as_slice()));
    }
    let mut first = line1;
    let mut second = line2;
    if second.len() > 0 && byte_length(second.as_slice()) < width as u128 {
        if second[second.len() - 1] != '.' {
            second.push('.');
        }
    } else if first.len() > 0 && second.len() == 0 && byte_length(first.as_slice()) < width as u128
        && first[first.len() - 1] != '.' {
        first.push('.');
    }
    proof {
        lemma_two_lines_fit(text@, width as int);
    }
    (string_from_chars(first.as_slice()), string_from_chars(second.as_slice()))
}

/// `s` from position `p` on, with every occurrence of `pat` replaced by
/// `rep`, occurrences taken left to right without overlap (as `str::replace`).
pub open spec fn replace_from(s: Seq<char>, p: int, pat: Seq<char>, rep: Seq<char>) -> Seq<char>
    decreases s.len() - p,
{
    if p < 0 || p >= s.len() || pat.len() == 0 {
        s.skip(p)
    } else if occurs_at(s, pat, p) {
        rep + replace_from(s, p + pat.len(), pat, rep)
    } else {
        seq![s[p]] + replace_from(s, p + 1, pat, rep)
    }
}

/// `s` with every occurrence of `pat` replaced by `rep`.
pub open spec fn replace_all(s: Seq<char>, pat: Seq<char>, rep: Seq<char>) -> Seq<char> {
    replace_from(s, 0, pat, rep)
}

/// Replaces every occurrence of `pat` (not empty) in `s` by `rep`.
pub fn replace_chars(s: &Vec<char>, pat: &Vec<char>, rep: &Vec<char>) -> (r: Vec<char>)
    requires
        pat@.len() > 0,
    ensures
        r@ == replace_all(s@, pat@, rep@),
{
    let mut out: Vec<char> = Vec::new();
    let mut i: usize = 0;
    while i < s.len()
        invariant
            i <= s@.len(),
            pat@.len() > 0,
            out@ + replace_from(s@, i as int, pat@, rep@) == replace_all(s@, pat@, rep@),
        decreases s@.len() - i,
    {
        if pat.len() <= s.len() - i && occurs_at_exec(s.as_slice(), pat.as_slice(), i) {
            let ghost before = out@;
            append_chars(&mut out, rep);
            proof {
                assert(before + replace_from(s@, i as int, pat@, rep@) == out@ + replace_from(
                    s@,
                    i + pat@.len(),
                    pat@,
                    rep@,
                ));
            }
            i = i + pat.len();
        } else {
            let ghost before = out@;
            out.push(s[i]);
            proof {
                assert(before + replace_from(s@, i as int, pat@, rep@) =~= out@ + replace_from(
                    s@,
                    i + 1,
                    pat@,
                    rep@,
                ));
            }
            i = i + 1;
        }
    }
    proof {
        assert(replace_from(s@, i as int, pat@, rep@) =~= Seq::<char>::empty());
        assert(out@ + Seq::<char>::empty() =~= out@);
    }
    out
}

/// The end of the run of ASCII letters of `s` that starts at `q`.
pub open spec fn letters_end(s: Seq<char>, q: int) -> int
    decreases s.len() - q,
{
    if 0 <= q < s.len() && is_ascii_letter(s[q]) { letters_end(s, q + 1) } else { q }
}

/// The first `>` of `s` at or after `r`, or -1.
pub open spec fn gt_from(s: Seq<char>, r: int) -> int
    decreases s.len() - r,
{
    if r < 0 || r >= s.len() {
        -1
    } else if s[r] == '>' {
        r
    } else {
        gt_from(s, r + 1)
    }
}

/// Where an HTML tag starting at `p` ends (exclusive), or `p` when none
/// starts there: `<`, an optional `/`, one or more ASCII letters, then
/// anything up to the first `>` (the pattern `<(/?)([a-zA-Z]+)[^>]*>`).
pub open spec fn tag_end(s: Seq<char>, p: int) -> int {
    if 0 <= p < s.len() && s[p] == '<' {
        let q = if p + 1 < s.len() && s[p + 1] == '/' { p + 2 } else { p + 1 };
        let r = letters_end(s, q);
        if r > q && gt_from(s, r) >= 0 { gt_from(s, r) + 1 } else { p }
    } else {
        p
    }
}

/// Where the name of a tag starting at `p` begins: after `<` and an optional `/`.
pub open spec fn tag_name_start(s: Seq<char>, p: int) -> int {
    if p + 1 < s.len() && s[p + 1] == '/' { p + 2 } else { p + 1 }
}

/// The name of the tag starting at `p`.
pub open spec fn tag_name(s: Seq<char>, p: int) -> Seq<char> {
    s.subrange(tag_name_start(s, p), letters_end(s, tag_name_start(s, p)))
}

/// `name` (ASCII letters) is `word` (lower-case ASCII letters), ignoring case.
pub open spec fn name_is(name: Seq<char>, word: Seq<char>) -> bool {
    name.len() == word.len() && forall|i: int|
        0 <= i < name.len() ==> (name[i] as u32 == #[trigger] word[i] as u32 || name[i] as u32 + 32 == word[i] as u32)
}

/// The formatting tags the dashboard renders (bold, italic, underline), in any case.
pub open spec fn is_formatting_tag(name: Seq<char>) -> bool {
    name_is(name, "b"@) || name_is(name, "strong"@) || name_is(name, "i"@) || name_is(name, "em"@) || name_is(name, "u"@)
}

/// `s` from position `p` on, without its unsupported HTML tags: formatting
/// tags are kept as written, every other tag is removed.
pub open spec fn strip_from(s: Seq<char>, p: int) -> Seq<char>
    decreases s.len() - p,
{
    if p < 0 || p >= s.len() {
        Seq::empty()
    } else if tag_end(s, p) > p {
        proof {
            lemma_tag_end_bounds(s, p);
        }
        if is_formatting_tag(tag_name(s, p)) {
            s.subrange(p, tag_end(s, p)) + strip_from(s, tag_end(s, p))
        } else {
            strip_from(s, tag_end(s, p))
        }
    } else {
        seq![s[p]] + strip_from(s, p + 1)
    }
}

/// `s` without its unsupported HTML tags, its formatting tags kept.
pub open spec fn strip_tags(s: Seq<char>) -> Seq<char> {
    strip_from(s, 0)
}

/// A formatting tag is kept as written and any other tag is removed, while
/// the text around them is kept.
pub proof fn law_formatting_tags_kept(s: Seq<char>, p: int)
    requires
        0 <= p < s.len(),
        tag_end(s, p) > p,
    ensures
        is_formatting_tag(tag_name(s, p)) ==> strip_from(s, p) == s.subrange(p, tag_end(s, p)) + strip_from(s, tag_end(s, p)),
        !is_formatting_tag(tag_name(s, p)) ==> strip_from(s, p) == strip_from(s, tag_end(s, p)),
{
}

pub proof fn lemma_letters_end_bounds(s: Seq<char>, q: int)
    requires
        0 <= q <= s.len(),
    ensures
        q <= letters_end(s, q) <= s.len(),
    decreases s.len() - q,
{
    if q < s.len() && is_ascii_letter(s[q]) {
        lemma_letters_end_bounds(s, q + 1);
    }
}

pub proof fn lemma_gt_from_bounds(s: Seq<char>, r: int)
    requires
        0 <= r,
    ensures
        gt_from(s, r) == -1 || (r <= gt_from(s, r) < s.len()),
    decreases s.len() - r,
{
    if r < s.len() && s[r] != '>' {
        lemma_gt_from_bounds(s, r + 1);
    }
}

pub proof fn lemma_tag_end_bounds(s: Seq<char>, p: int)
    requires
        0 <= p < s.len(),
    ensures
        p <= tag_end(s, p) <= s.len(),
{
    if s[p] == '<' {
        let q = if p + 1 < s.len() && s[p + 1] == '/' { p + 2 } else { p + 1 };
        lemma_letters_end_bounds(s, q);
        let r = letters_end(s, q);
        lemma_gt_from_bounds(s, r);
    }
}

/// Where a tag starting at `p` ends, or `p`.
fn tag_end_at(s: &Vec<char>, p: usize) -> (e: usize)
    requires
        p < s@.len(),
    ensures
        e == tag_end(s@, p as int),
        p <= e <= s@.len(),
{
    if s[p] != '<' {
        return p;
    }
    let n = s.len();
    let q = if p + 1 < n && s[p + 1] == '/' { p + 2 } else { p + 1 };
    proof {
        lemma_letters_end_bounds(s@, q as int);
    }
    let mut r = q;
    while r < s.len() && (('a' <= s[r] && s[r] <= 'z') || ('A' <= s[r] && s[r] <= 'Z'))
        invariant
            q <= r <= s@.len(),
            letters_end(s@, q as int) == letters_end(s@, r as int),
        decreases s@.len() - r,
    {
        r = r + 1;
    }
    if r == q {
        return p;
    }
    proof {
        lemma_gt_from_bounds(s@, r as int);
    }
    let mut g = r;
    while g < s.len() && s[g] != '>'
        invariant
            r <= g <= s@.len(),
            gt_from(s@, r as int) == gt_from(s@, g as int),
        decreases s@.len() - g,
    {
        g = g + 1;
    }
    if g < s.len() {
        g + 1
    } else {
        p
    }
}

/// Whether `s[q..r]` is `word` (lower-case ASCII letters), ignoring case.
fn name_matches(s: &Vec<char>, q: usize, r: usize, word: &str) -> (b: bool)
    requires
        q <= r <= s@.len(),
    ensures
        b == name_is(s@.subrange(q as int, r as int), word@),
{
    let w = chars_of(word);
    if r - q != w.len() {
        return false;
    }
    let ghost name = s@.subrange(q as int, r as int);
    let mut k: usize = 0;
    while k < w.len()
        invariant
            0 <= k <= w@.len(),
            w@ == word@,
            r - q == w@.len(),
            q <= r <= s@.len(),
            name == s@.subrange(q as int, r as int),
            forall|i: int| 0 <= i < k ==> (name[i] as u32 == #[trigger] w@[i] as u32 || name[i] as u32 + 32 == w@[i] as u32),
        decreases w@.len() - k,
    {
        let c = s[q + k] as u32;
        let d = w[k] as u32;
        assert(name[k as int] == s@[q + k]);
        if !(c == d || c as u64 + 32 == d as u64) {
            return false;
        }
        k = k + 1;
    }
    true
}

/// Removes the unsupported HTML tags of `s`, keeping its formatting tags.
pub fn strip_unsupported_tags(s: &Vec<char>) -> (r: Vec<char>)
    ensures
        r@ == strip_tags(s@),
{
    proof {
        reveal_strlit("b");
        reveal_strlit("strong");
        reveal_strlit("i");
        reveal_strlit("em");
        reveal_strlit("u");
    }
    let mut out: Vec<char> = Vec::new();
    let mut i: usize = 0;
    while i < s.len()
        invariant
            i <= s@.len(),
            out@ + strip_from(s@, i as int) == strip_tags(s@),
        decreases s@.len() - i,
    {
        let e = tag_end_at(s, i);
        if e > i {
            let q = if i + 1 < s.len() && s[i + 1] == '/' { i + 2 } else { i + 1 };
            proof {
                lemma_letters_end_bounds(s@, q as int);
            }
            let mut r = q;
            while r < s.len() && (('a' <= s[r] && s[r] <= 'z') || ('A' <= s[r] && s[r] <= 'Z'))
                invariant
                    q <= r <= s@.len(),
                    letters_end(s@, q as int) == letters_end(s@, r as int),
                decreases s@.len() - r,
            {
                r = r + 1;
            }
            let keep = name_matches(s, q, r, "b") || name_matches(s, q, r, "strong") || name_matches(s, q, r, "i")
                || name_matches(s, q, r, "em") || name_matches(s, q, r, "u");
            if keep {
                let ghost before = out@;
                let mut k = i;
                while k < e
                    invariant
                        i <= k <= e <= s@.len(),
                        out@ == before + s@.subrange(i as int, k as int),
                    decreases e - k,
                {
                    out.push(s[k]);
                    assert(s@.subrange(i as int, k + 1) =~= s@.subrange(i as int, k as int).push(s@[k as int]));
                    k = k + 1;
                }
                assert(before + strip_from(s@, i as int) =~= out@ + strip_from(s@, e as int));
            }
            i = e;
        } else {
            let ghost before = out@;
            out.push(s[i]);
            proof {
                assert(before + strip_from(s@, i as int) =~= out@ + strip_from(s@, i + 1));
            }
            i = i + 1;
        }
    }
    proof {
        assert(out@ + Seq::<char>::empty() =~= out@);
    }
    out
}

/// The HTML entity and line-break replacements applied, in order, before tags are stripped.
pub open spec fn spec_replace_entities(s: Seq<char>) -> Seq<char> {
    let s1 = replace_all(s, "&nbsp;"@, " "@);
    let s2 = replace_all(s1, "&lt;"@, "<"@);
    let s3 = replace_all(s2, "&gt;"@, ">"@);
    let s4 = replace_all(s3, "&amp;"@, "&"@);
    let s5 = replace_all(s4, "&quot;"@, "\""@);
    let s6 = replace_all(s5, "&#39;"@, "'"@);
    let s7 = replace_all(s6, "<br>"@, "\n"@);
    let s8 = replace_all(s7, "<br/>"@, "\n"@);
    replace_all(s8, "<br />"@, "\n"@)
}

/// No `<` and no `&` in `s`: text with neither tags nor entities.
pub open spec fn plain_text(s: Seq<char>) -> bool {
    forall|i: int| 0 <= i < s.len() ==> s[i] != '<' && s[i] != '&'
}

/// Replacing from `p` on changes nothing where `pat` occurs nowhere from `p` on.
proof fn lemma_replace_without_occurrence(s: Seq<char>, p: int, pat: Seq<char>, rep: Seq<char>)
    requires
        0 <= p <= s.len(),
        forall|i: int| p <= i < s.len() ==> !occurs_at(s, pat, i),
    ensures
        replace_from(s, p, pat, rep) == s.skip(p),
    decreases s.len() - p,
{
    if p < s.len() && pat.len() > 0 {
        lemma_replace_without_occurrence(s, p + 1, pat, rep);
        assert(seq![s[p]] + s.skip(p + 1) =~= s.skip(p));
    }
}

/// A pattern cannot occur where its first character is missing.
proof fn lemma_no_occurrence_without_first(s: Seq<char>, pat: Seq<char>, i: int)
    requires
        pat.len() > 0,
        0 <= i < s.len(),
        s[i] != pat[0],
    ensures
        !occurs_at(s, pat, i),
{
    if occurs_at(s, pat, i) {
        assert(s.subrange(i, i + pat.len())[0] == s[i]);
    }
}

/// Text without the first character of `pat` is left as it is by replacing `pat`.
proof fn lemma_replace_missing_first(s: Seq<char>, pat: Seq<char>, rep: Seq<char>)
    requires
        pat.len() > 0,
        forall|i: int| 0 <= i < s.len() ==> s[i] != pat[0],
    ensures
        replace_all(s, pat, rep) == s,
{
    assert forall|i: int| 0 <= i < s.len() implies !occurs_at(s, pat, i) by {
        lemma_no_occurrence_without_first(s, pat, i);
    }
    lemma_replace_without_occurrence(s, 0, pat, rep);
    assert(s.skip(0) =~= s);
}

/// In `a + t + b`, with `a` and `b` plain and `t` one of the line-break
/// tags, a line-break tag `pat` occurs only at the start of `t`, and only
/// when it is `t`.
proof fn lemma_break_occurrences(a: Seq<char>, b: Seq<char>, t: Seq<char>, pat: Seq<char>, i: int)
    requires
        plain_text(a),
        plain_text(b),
        t == "<br>"@ || t == "<br/>"@ || t == "<br />"@,
        pat == "<br>"@ || pat == "<br/>"@ || pat == "<br />"@,
        0 <= i < (a + t + b).len(),
        occurs_at(a + t + b, pat, i),
    ensures
        i == a.len(),
        pat == t,
{
    reveal_strlit("<br>");
    reveal_strlit("<br/>");
    reveal_strlit("<br />");
    let s = a + t + b;
    assert(s.subrange(i, i + pat.len())[0] == s[i]);
    if i < a.len() {
        assert(s[i] == a[i]);
    } else if i >= a.len() + t.len() {
        assert(s[i] == b[i - a.len() - t.len()]);
    } else {
        assert(s[i] == t[i - a.len()]);
    }
    assert(i == a.len());
    assert(s.subrange(i, i + pat.len())[3] == s[i + 3]);
    assert(s[i + 3] == t[3]);
    if pat.len() <= t.len() {
        assert(s.subrange(i, i + pat.len()) =~= t.subrange(0, pat.len() as int));
    } else {
        assert(s.subrange(i, i + t.len()) =~= t);
    }
}

/// Replacing line-break tag `pat` by a newline in `a + t + b` turns `t` into
/// a newline where it is `pat`, and changes nothing otherwise.
proof fn lemma_break_step(a: Seq<char>, b: Seq<char>, t: Seq<char>, pat: Seq<char>)
    requires
        plain_text(a),
        plain_text(b),
        t == "<br>"@ || t == "<br/>"@ || t == "<br />"@,
        pat == "<br>"@ || pat == "<br/>"@ || pat == "<br />"@,
    ensures
        replace_all(a + t + b, pat, "\n"@) == if pat == t { a + "\n"@ + b } else { a + t + b },
{
    reveal_strlit("<br>");
    reveal_strlit("<br/>");
    reveal_strlit("<br />");
    let s = a + t + b;
    if pat == t {
        assert forall|i: int| a.len() + t.len() <= i < s.len() implies !occurs_at(s, pat, i) by {
            if occurs_at(s, pat, i) {
                lemma_break_occurrences(a, b, t, pat, i);
            }
        }
        lemma_replace_without_occurrence(s, (a.len() + t.len()) as int, pat, "\n"@);
        assert(s.skip((a.len() + t.len()) as int) =~= b);
        assert(s.subrange(a.len() as int, (a.len() + pat.len()) as int) =~= t);
        lemma_replace_prefix(s, a, pat, b);
    } else {
        assert forall|i: int| 0 <= i < s.len() implies !occurs_at(s, pat, i) by {
            if occurs_at(s, pat, i) {
                lemma_break_occurrences(a, b, t, pat, i);
            }
        }
        lemma_replace_without_occurrence(s, 0, pat, "\n"@);
        assert(s.skip(0) =~= s);
    }
}

/// Before the one occurrence of `pat` in `a + pat + b`, replacing copies `a`.
proof fn lemma_replace_prefix(s: Seq<char>, a: Seq<char>, pat: Seq<char>, b: Seq<char>)
    requires
        s == a + pat + b,
        pat.len() > 0,
        forall|i: int| 0 <= i < a.len() ==> a[i] != pat[0],
        replace_from(s, (a.len() + pat.len()) as int, pat, "\n"@) == b,
    ensures
        replace_all(s, pat, "\n"@) == a + "\n"@ + b,
{
    lemma_replace_prefix_from(s, a, pat, b, a.len() as int);
    assert(a.skip(0) =~= a);
}

proof fn lemma_replace_prefix_from(s: Seq<char>, a: Seq<char>, pat: Seq<char>, b: Seq<char>, p: int)
    requires
        s == a + pat + b,
        pat.len() > 0,
        forall|i: int| 0 <= i < a.len() ==> a[i] != pat[0],
        replace_from(s, (a.len() + pat.len()) as int, pat, "\n"@) == b,
        0 <= p <= a.len(),
    ensures
        replace_from(s, a.len() - p, pat, "\n"@) == a.skip(a.len() - p) + "\n"@ + b,
    decreases p,
{
    let q = a.len() - p;
    if p == 0 {
        assert(s.subrange(q, q + pat.len()) =~= pat);
        assert(a.skip(q) =~= Seq::<char>::empty());
    } else {
        lemma_replace_prefix_from(s, a, pat, b, p - 1);
        assert(s[q] == a[q]);
        lemma_no_occurrence_without_first(s, pat, q);
        assert(seq![s[q]] + a.skip(q + 1) =~= a.skip(q));
    }
}

/// Text without `<` keeps every character when its tags are stripped.
proof fn lemma_strip_without_tags(s: Seq<char>, p: int)
    requires
        0 <= p <= s.len(),
        forall|i: int| 0 <= i < s.len() ==> s[i] != '<',
    ensures
        strip_from(s, p) == s.skip(p),
    decreases s.len() - p,
{
    if p < s.len() {
        lemma_strip_without_tags(s, p + 1);
        assert(seq![s[p]] + s.skip(p + 1) =~= s.skip(p));
    } else {
        assert(s.skip(p) =~= Seq::<char>::empty());
    }
}

/// A line break written `<br>`, `<br/>` or `<br />` between two runs of
/// plain text becomes a newline when a description is cleaned, and the text
/// on both sides is kept as it is.
pub proof fn law_line_breaks_become_newlines(a: Seq<char>, b: Seq<char>, t: Seq<char>)
    requires
        plain_text(a),
        plain_text(b),
        t == "<br>"@ || t == "<br/>"@ || t == "<br />"@,
    ensures
        strip_tags(spec_replace_entities(a + t + b)) == a + "\n"@ + b,
{
    reveal_strlit("&nbsp;");
    reveal_strlit("&lt;");
    reveal_strlit("&gt;");
    reveal_strlit("&amp;");
    reveal_strlit("&quot;");
    reveal_strlit("&#39;");
    reveal_strlit("<br>");
    reveal_strlit("<br/>");
    reveal_strlit("<br />");
    reveal_strlit("\n");
    let s = a + t + b;
    assert forall|i: int| 0 <= i < s.len() implies s[i] != '&' by {
        if i < a.len() {
            assert(s[i] == a[i]);
        } else if i >= a.len() + t.len() {
            assert(s[i] == b[i - a.len() - t.len()]);
        } else {
            assert(s[i] == t[i - a.len()]);
        }
    }
    lemma_replace_missing_first(s, "&nbsp;"@, " "@);
    lemma_replace_missing_first(s, "&lt;"@, "<"@);
    lemma_replace_missing_first(s, "&gt;"@, ">"@);
    lemma_replace_missing_first(s, "&amp;"@, "&"@);
    lemma_replace_missing_first(s, "&quot;"@, "\""@);
    lemma_replace_missing_first(s, "&#39;"@, "'"@);
    let joined = a + "\n"@ + b;
    assert forall|i: int| 0 <= i < joined.len() implies joined[i] != '<' by {
        if i < a.len() {
            assert(joined[i] == a[i]);
        } else if i > a.len() {
            assert(joined[i] == b[i - a.len() - 1]);
        }
    }
    let s7 = replace_all(s, "<br>"@, "\n"@);
    lemma_break_step(a, b, t, "<br>"@);
    let s8 = replace_all(s7, "<br/>"@, "\n"@);
    if t == "<br>"@ {
        lemma_replace_missing_first(joined, "<br/>"@, "\n"@);
    } else {
        lemma_break_step(a, b, t, "<br/>"@);
    }
    if t == "<br />"@ {
        lemma_break_step(a, b, t, "<br />"@);
    } else {
        lemma_replace_missing_first(joined, "<br />"@, "\n"@);
    }
    assert(spec_replace_entities(s) == joined);
    lemma_strip_without_tags(joined, 0);
    assert(joined.skip(0) =~= joined);
}

/// Applies one replacement to a character vector.
fn replace_step(s: Vec<char>, pat: &str, rep: &str) -> (r: Vec<char>)
    requires
        pat@.len() > 0,
    ensures
        r@ == replace_all(s@, pat@, rep@),
{
    let p = chars_of(pat);
    let q = chars_of(rep);
    replace_chars(&s, &p, &q)
}

/// Meeting description text for display: HTML entities decoded, line
/// breaks turned into newlines, then the unsupported HTML tags removed; the
/// formatting tags (`b`, `strong`, `i`, `em`, `u`, in any case) are kept.
pub fn clean_and_strip_html(text: &str) -> (cleaned: String)
    ensures
        cleaned@ == strip_tags(spec_replace_entities(text@)),
{
    proof {
        reveal_strlit("&nbsp;");
        reveal_strlit("&lt;");
        reveal_strlit("&gt;");
        reveal_strlit("&amp;");
        reveal_strlit("&quot;");
        reveal_strlit("&#39;");
        reveal_strlit("<br>");
        reveal_strlit("<br/>");
        reveal_strlit("<br />");
    }
    let s = chars_of(text);
    let s = replace_step(s, "&nbsp;", " ");
    let s = replace_step(s, "&lt;", "<");
    let s = replace_step(s, "&gt;", ">");
    let s = replace_step(s, "&amp;", "&");
    let s = replace_step(s, "&quot;", "\"");
    let s = replace_step(s, "&#39;", "'");
    let s = replace_step(s, "<br>", "\n");
    let s = replace_step(s, "<br/>", "\n");
    let s = replace_step(s, "<br />", "\n");
    let stripped = strip_unsupported_tags(&s);
    string_from_chars(stripped.as_slice())
}

/// `s` has a character boundary `b` bytes in.
pub open spec fn boundary_at(s: Seq<char>, b: int) -> bool {
    exists|k: int| 0 <= k <= s.len() && #[trigger] byte_len(s.take(k)) == b
}

/// The characters of `s` that fill its first `b` bytes (at a boundary).
pub open spec fn prefix_bytes(s: Seq<char>, b: int) -> Seq<char> {
    s.take(choose|k: int| 0 <= k <= s.len() && #[trigger] byte_len(s.take(k)) == b)
}

/// `s` shortened for display: past `limit` bytes, its first `keep` bytes
/// and `...`; else unchanged.
pub open spec fn spec_shorten(s: Seq<char>, limit: int, keep: int) -> Seq<char> {
    if byte_len(s) > limit {
        prefix_bytes(s, keep) + "..."@
    } else {
        s
    }
}

proof fn lemma_boundary_unique(s: Seq<char>, k1: int, k2: int)
    requires
        0 <= k1 <= s.len(),
        0 <= k2 <= s.len(),
        byte_len(s.take(k1)) == byte_len(s.take(k2)),
    ensures
        k1 == k2,
{
    if k1 < k2 {
        lemma_byte_len_take_monotonic(s, k1, k2);
    } else if k2 < k1 {
        lemma_byte_len_take_monotonic(s, k2, k1);
    }
}

/// The characters filling the first `b` bytes of `s`, where `b` is a boundary.
fn take_bytes(s: &Vec<char>, b: usize) -> (p: Vec<char>)
    requires
        boundary_at(s@, b as int),
    ensures
        p@ == prefix_bytes(s@, b as int),
{
    let ghost k0 = choose|k: int| 0 <= k <= s@.len() && #[trigger] byte_len(s@.take(k)) == b;
    assert(s.len() == s@.len());
    let mut acc: usize = 0;
    let mut k: usize = 0;
    let mut out: Vec<char> = Vec::new();
    assert(s@.take(0) =~= Seq::<char>::empty());
    while acc < b
        invariant
            0 <= k <= k0 <= s@.len(),
            s@.len() <= usize::MAX,
            byte_len(s@.take(k0)) == b,
            acc == byte_len(s@.take(k as int)),
            acc <= b,
            out@ == s@.take(k as int),
        decreases k0 - k,
    {
        assert(k < k0);
        proof {
            lemma_byte_len_take_step(s@, k as int);
            lemma_byte_len_take_monotonic(s@, k + 1, k0);
        }
        let u = s[k] as u32;
        let w: usize = if u <= 0x7f { 1 } else if u <= 0x7ff { 2 } else if u <= 0xffff { 3 } else { 4 };
        out.push(s[k]);
        assert(s@.take(k + 1) =~= s@.take(k as int).push(s@[k as int]));
        acc = acc + w;
        k = k + 1;
    }
    proof {
        lemma_boundary_unique(s@, k as int, k0);
    }
    out
}

/// `s` shortened for display: past `limit` bytes (UTF-8), its first `keep`
/// bytes and `...`. The cut must fall between characters.
pub fn shorten(s: &str, limit: usize, keep: usize) -> (t: String)
    requires
        byte_len(s@) > limit ==> boundary_at(s@, keep as int),
    ensures
        t@ == spec_shorten(s@, limit as int, keep as int),
{
    let chars = chars_of(s);
    let n = byte_length(chars.as_slice());
    if n > limit as u128 {
        let mut p = take_bytes(&chars, keep);
        p.push('.');
        p.push('.');
        p.push('.');
        proof {
            reveal_strlit("...");
        }
        assert(p@ =~= prefix_bytes(s@, keep as int) + "..."@);
        string_from_chars(p.as_slice())
    } else {
        string_from_chars(chars.as_slice())
    }
}

/// The first `b` bytes of `s`, cut between characters (as an id is shown by its first bytes).
pub fn first_bytes(s: &str, b: usize) -> (t: String)
    requires
        boundary_at(s@, b as int),
    ensures
        t@ == prefix_bytes(s@, b as int),
{
    let chars = chars_of(s);
    let p = take_bytes(&chars, b);
    string_from_chars(p.as_slice())
}

} // verus!
