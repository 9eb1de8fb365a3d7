use vstd::prelude::*;

verus! {

/// The characters of `s`, in order.
pub fn chars_of(s: &str) -> (v: Vec<char>)
    ensures
        v@ == s@,
{
    broadcast use vstd::string::group_string_axioms;
    let mut v: Vec<char> = Vec::new();
    for c in it: s.chars()
        invariant
            v@ == it.seq().take(it.index() as int),
    {
        v.push(c);
    }
    assert(v@ =~= s@);
    v
}

} // verus!

verus! {

/// Collects characters into a `String` (`FromIterator<char> for String`).
/// Claimed: the string holds exactly `chars`, in order.
#[verifier::external_body]
pub(crate) fn string_from_chars(chars: &[char]) -> (s: String)
    ensures
        s@ == chars@,
{
    chars.iter().collect()
}

/// The character views of a sequence of strings.
pub open spec fn views(v: Seq<String>) -> Seq<Seq<char>> {
    v.map_values(|s: String| s@)
}

/// Whether two character slices are equal.
pub fn chars_equal(a: &[char], b: &[char]) -> (eq: bool)
    ensures
        eq == (a@ == b@),
{
    if a.len() != b.len() {
        return false;
    }
    let mut i: usize = 0;
    while i < a.len()
        invariant
            0 <= i <= a@.len(),
            a@.len() == b@.len(),
            forall|j: int| 0 <= j < i ==> a@[j] == b@[j],
        decreases a@.len() - i,
    {
        if a[i] != b[i] {
            return false;
        }
        i = i + 1;
    }
    assert(a@ =~= b@);
    true
}

/// Whether two strings hold the same characters.
pub fn str_equal(a: &str, b: &str) -> (eq: bool)
    ensures
        eq == (a@ == b@),
{
    let av = chars_of(a);
    let bv = chars_of(b);
    chars_equal(av.as_slice(), bv.as_slice())
}

/// Lexicographic order of character sequences by code point, the order of
/// Rust's `String` comparison.
pub open spec fn lex_lt(a: Seq<char>, b: Seq<char>) -> bool
    decreases a.len(),
{
    if b.len() == 0 {
        false
    } else if a.len() == 0 {
        true
    } else if (a[0] as u32) < (b[0] as u32) {
        true
    } else if a[0] == b[0] {
        lex_lt(a.drop_first(), b.drop_first())
    } else {
        false
    }
}

pub proof fn lemma_lex_irreflexive(a: Seq<char>)
    ensures
        !lex_lt(a, a),
    decreases a.len(),
{
    if a.len() > 0 {
        lemma_lex_irreflexive(a.drop_first());
    }
}

pub proof fn lemma_lex_asymmetric(a: Seq<char>, b: Seq<char>)
    ensures
        !(lex_lt(a, b) && lex_lt(b, a)),
    decreases a.len(),
{
    if a.len() > 0 && b.len() > 0 && a[0] == b[0] {
        lemma_lex_asymmetric(a.drop_first(), b.drop_first());
    }
}

pub proof fn lemma_lex_total(a: Seq<char>, b: Seq<char>)
    ensures
        a != b ==> (lex_lt(a, b) || lex_lt(b, a)),
    decreases a.len(),
{
    if a.len() > 0 && b.len() > 0 {
        if a[0] == b[0] {
            lemma_lex_total(a.drop_first(), b.drop_first());
            if a.drop_first() == b.drop_first() {
                assert(a =~= seq![a[0]] + a.drop_first());
                assert(b =~= seq![b[0]] + b.drop_first());
            }
        } else {
            let ua = a[0] as u32;
            let ub = b[0] as u32;
            vstd::utf8::char_u32_cast(a[0], ua);
            vstd::utf8::char_u32_cast(b[0], ub);
            assert(ua != ub);
        }
    } else if a.len() == 0 && b.len() == 0 {
        assert(a =~= b);
    }
}

pub proof fn lemma_lex_transitive(a: Seq<char>, b: Seq<char>, c: Seq<char>)
    requires
        lex_lt(a, b),
        lex_lt(b, c),
    ensures
        lex_lt(a, c),
    decreases a.len(),
{
    if a.len() > 0 && b.len() > 0 && c.len() > 0 && a[0] == b[0] && b[0] == c[0] {
        lemma_lex_transitive(a.drop_first(), b.drop_first(), c.drop_first());
    }
}

/// Whether `a` sorts before `b`.
pub fn chars_less(a: &[char], b: &[char]) -> (lt: bool)
    ensures
        lt == lex_lt(a@, b@),
{
    let mut i: usize = 0;
    assert(a@.skip(0) =~= a@);
    assert(b@.skip(0) =~= b@);
    while i < a.len() && i < b.len()
        invariant
            0 <= i <= a@.len(),
            i <= b@.len(),
            forall|j: int| 0 <= j < i ==> a@[j] == b@[j],
            lex_lt(a@, b@) == lex_lt(a@.skip(i as int), b@.skip(i as int)),
        decreases a@.len() - i,
    {
        if a[i] != b[i] {
            assert(a@.skip(i as int)[0] == a@[i as int]);
            assert(b@.skip(i as int)[0] == b@[i as int]);
            return (a[i] as u32) < (b[i] as u32);
        }
        assert(a@.skip(i as int).drop_first() =~= a@.skip(i as int + 1));
        assert(b@.skip(i as int).drop_first() =~= b@.skip(i as int + 1));
        i = i + 1;
    }
    i < b.len()
}

/// Strictly increasing in lexicographic order (so also free of duplicates).
pub open spec fn strictly_sorted(s: Seq<Seq<char>>) -> bool {
    forall|i: int, j: int| 0 <= i < j < s.len() ==> lex_lt(#[trigger] s[i], #[trigger] s[j])
}

/// Inserts `item` into the sorted, duplicate-free `set` unless it is already there.
pub fn insert_sorted(set: &mut Vec<String>, item: String)
    requires
        strictly_sorted(views(old(set)@)),
    ensures
        strictly_sorted(views(final(set)@)),
        forall|k: Seq<char>| views(final(set)@).contains(k) <==> (views(old(set)@).contains(k) || k == item@),
{
    let ghost old_views = views(set@);
    let item_chars = chars_of(item.as_str());
    let mut i: usize = 0;
    let mut stop = false;
    while i < set.len() && !stop
        invariant
            0 <= i <= set@.len(),
            views(set@) == old_views,
            strictly_sorted(old_views),
            item_chars@ == item@,
            forall|j: int| 0 <= j < i ==> lex_lt(#[trigger] old_views[j], item@),
            stop ==> i < set@.len() && !lex_lt(old_views[i as int], item@),
        decreases set@.len() - i + if stop { 0int } else { 1int },
    {
        let cur = chars_of(set[i].as_str());
        assert(old_views[i as int] == set@[i as int]@);
        if !chars_less(cur.as_slice(), item_chars.as_slice()) {
            stop = true;
        } else {
            i = i + 1;
        }
    }
    if stop {
        let cur = chars_of(set[i].as_str());
        assert(old_views[i as int] == set@[i as int]@);
        if chars_equal(cur.as_slice(), item_chars.as_slice()) {
            assert(old_views.contains(item@));
            return;
        }
        proof {
            lemma_lex_total(old_views[i as int], item@);
        }
    }
    let ghost before = set@;
    set.insert(i, item);
    proof {
        let nv = views(set@);
        assert(nv =~= old_views.insert(i as int, item@));
        assert forall|a: int, b: int| 0 <= a < b < nv.len() implies lex_lt(#[trigger] nv[a], #[trigger] nv[b]) by {
            if b < i {
            } else if a < i && b == i {
            } else if a < i && b > i {
                lemma_lex_transitive(nv[a], item@, old_views[i as int]);
                if b - 1 > i {
                    lemma_lex_transitive(nv[a], old_views[i as int], old_views[b - 1]);
                }
            } else if a == i {
                if b - 1 > i {
                    lemma_lex_transitive(item@, old_views[i as int], old_views[b - 1]);
                }
            } else {
            }
        }
        assert forall|k: Seq<char>| nv.contains(k) <==> (old_views.contains(k) || k == item@) by {
            if nv.contains(k) {
                let p = choose|p: int| 0 <= p < nv.len() && nv[p] == k;
                if p < i {
                    assert(old_views[p] == k);
                } else if p > i {
                    assert(old_views[p - 1] == k);
                }
            }
            if old_views.contains(k) {
                let p = choose|p: int| 0 <= p < old_views.len() && old_views[p] == k;
                if p < i {
                    assert(nv[p] == k);
                } else {
                    assert(nv[p + 1] == k);
                }
            }
            if k == item@ {
                assert(nv[i as int] == k);
            }
        }
    }
}

} // verus!

verus! {

/// The pieces of `s` between occurrences of `sep` (as `str::split` yields
/// them, empty pieces included).
pub open spec fn split_pieces(s: Seq<char>, sep: char) -> Seq<Seq<char>>
    decreases s.len(),
{
    if s.len() == 0 {
        seq![Seq::<char>::empty()]
    } else {
        let p = split_pieces(s.drop_last(), sep);
        if s.last() == sep {
            p.push(Seq::<char>::empty())
        } else {
            p.update(p.len() - 1, p.last().push(s.last()))
        }
    }
}

proof fn lemma_split_pieces_nonempty(s: Seq<char>, sep: char)
    ensures
        split_pieces(s, sep).len() >= 1,
    decreases s.len(),
{
    if s.len() > 0 {
        lemma_split_pieces_nonempty(s.drop_last(), sep);
    }
}

/// Splits `s` at every `sep`.
pub fn split_chars(s: &[char], sep: char) -> (pieces: Vec<Vec<char>>)
    ensures
        pieces@.len() == split_pieces(s@, sep).len(),
        forall|i: int| 0 <= i < pieces@.len() ==> (#[trigger] pieces@[i])@ == split_pieces(s@, sep)[i],
{
    let mut pieces: Vec<Vec<char>> = Vec::new();
    let mut current: Vec<char> = Vec::new();
    let mut i: usize = 0;
    proof {
        assert(s@.take(0) =~= Seq::<char>::empty());
    }
    while i < s.len()
        invariant
            0 <= i <= s@.len(),
            pieces@.len() + 1 == split_pieces(s@.take(i as int), sep).len(),
            forall|j: int| 0 <= j < pieces@.len() ==> (#[trigger] pieces@[j])@ == split_pieces(s@.take(i as int), sep)[j],
            current@ == split_pieces(s@.take(i as int), sep).last(),
        decreases s@.len() - i,
    {
        proof {
            assert(s@.take(i as int + 1).drop_last() =~= s@.take(i as int));
            lemma_split_pieces_nonempty(s@.take(i as int), sep);
        }
        if s[i] == sep {
            let done = current;
            pieces.push(done);
            current = Vec::new();
        } else {
            current.push(s[i]);
        }
        i = i + 1;
    }
    proof {
        assert(s@.take(s@.len() as int) =~= s@);
        lemma_split_pieces_nonempty(s@, sep);
    }
    pieces.push(current);
    proof {
        assert forall|j: int| 0 <= j < pieces@.len() implies (#[trigger] pieces@[j])@ == split_pieces(s@, sep)[j] by {
        }
    }
    pieces
}

/// `list` joined with `sep` between consecutive items.
pub open spec fn seq_join(list: Seq<Seq<char>>, sep: Seq<char>) -> Seq<char>
    decreases list.len(),
{
    if list.len() == 0 {
        Seq::empty()
    } else if list.len() == 1 {
        list[0]
    } else {
        seq_join(list.drop_last(), sep) + sep + list.last()
    }
}

/// Joins the strings of `list` with `sep` between consecutive items.
pub fn join_strings(list: &[String], sep: &str) -> (joined: String)
    ensures
        joined@ == seq_join(views(list@), sep@),
{
    let sep_chars = chars_of(sep);
    let mut out: Vec<char> = Vec::new();
    let mut i: usize = 0;
    while i < list.len()
        invariant
            0 <= i <= list@.len(),
            sep_chars@ == sep@,
            out@ == seq_join(views(list@).take(i as int), sep@),
        decreases list@.len() - i,
    {
        proof {
            assert(views(list@).take(i as int + 1).drop_last() =~= views(list@).take(i as int));
            assert(views(list@).take(i as int + 1).last() == list@[i as int]@);
        }
        if i > 0 {
            out.extend_from_slice(sep_chars.as_slice());
        }
        let item = chars_of(list[i].as_str());
        out.extend_from_slice(item.as_slice());
        proof {
            if i == 0 {
                assert(views(list@).take(1) =~= seq![list@[0]@]);
                assert(out@ =~= list@[0]@);
            }
        }
        i = i + 1;
    }
    proof {
        assert(views(list@).take(list@.len() as int) =~= views(list@));
    }
    string_from_chars(out.as_slice())
}

/// Whether `s` begins with `prefix`.
pub open spec fn has_prefix(s: Seq<char>, prefix: Seq<char>) -> bool {
    prefix.len() <= s.len() && s.take(prefix.len() as int) == prefix
}

/// Whether `s` starts with `prefix`.
pub fn starts_with(s: &str, prefix: &str) -> (b: bool)
    ensures
        b == has_prefix(s@, prefix@),
{
    let sv = chars_of(s);
    let pv = chars_of(prefix);
    if pv.len() > sv.len() {
        return false;
    }
    let mut i: usize = 0;
    while i < pv.len()
        invariant
            0 <= i <= pv@.len(),
            pv@.len() <= sv@.len(),
            sv@ == s@,
            pv@ == prefix@,
            forall|j: int| 0 <= j < i ==> sv@[j] == pv@[j],
        decreases pv@.len() - i,
    {
        if sv[i] != pv[i] {
            assert(sv@.take(pv@.len() as int)[i as int] != pv@[i as int]);
            return false;
        }
        i = i + 1;
    }
    assert(sv@.take(pv@.len() as int) =~= pv@);
    true
}

/// Whether `needle` occurs in `s` at position `at`.
pub open spec fn occurs_at(s: Seq<char>, needle: Seq<char>, at: int) -> bool {
    0 <= at && at + needle.len() <= s.len() && s.subrange(at, at + needle.len()) == needle
}

/// Whether `needle` occurs somewhere in `s`.
pub open spec fn contains_seq(s: Seq<char>, needle: Seq<char>) -> bool {
    exists|at: int| #[trigger] occurs_at(s, needle, at)
}

pub(crate) fn occurs_at_exec(s: &[char], needle: &[char], at: usize) -> (b: bool)
    requires
        at + needle@.len() <= s@.len(),
    ensures
        b == occurs_at(s@, needle@, at as int),
{
    let n = s.len();
    let mut i: usize = 0;
    while i < needle.len()
        invariant
            0 <= i <= needle@.len(),
            n == s@.len(),
            at + needle@.len() <= s@.len(),
            forall|j: int| 0 <= j < i ==> s@[at + j] == needle@[j],
        decreases needle@.len() - i,
    {
        if s[at + i] != needle[i] {
            assert(s@.subrange(at as int, at + needle@.len())[i as int] != needle@[i as int]);
            return false;
        }
        i = i + 1;
    }
    assert(s@.subrange(at as int, at + needle@.len()) =~= needle@);
    true
}

/// Whether `needle` occurs somewhere in `s`.
pub fn contains_str(s: &str, needle: &str) -> (b: bool)
    ensures
        b == contains_seq(s@, needle@),
{
    let sv = chars_of(s);
    let nv = chars_of(needle);
    if nv.len() > sv.len() {
        assert forall|at: int| !#[trigger] occurs_at(s@, needle@, at) by {}
        return false;
    }
    let last = sv.len() - nv.len();
    let mut at: usize = 0;
    let mut done = false;
    while !done
        invariant
            nv@.len() <= sv@.len(),
            last == sv@.len() - nv@.len(),
            at <= last,
            sv@ == s@,
            nv@ == needle@,
            forall|p: int| 0 <= p < at ==> !#[trigger] occurs_at(s@, needle@, p),
            done ==> at == last && !occurs_at(s@, needle@, last as int),
        decreases last - at + if done { 0int } else { 1int },
    {
        if occurs_at_exec(sv.as_slice(), nv.as_slice(), at) {
            return true;
        }
        if at == last {
            done = true;
        } else {
            at = at + 1;
        }
    }
    assert forall|p: int| !#[trigger] occurs_at(s@, needle@, p) by {}
    false
}

} // verus!

verus! {

/// `s` cut to `max_len` characters: unchanged when it fits, else its first
/// `max_len - keep_back` characters (none when that is negative) followed by `marker`.
pub open spec fn spec_truncate(s: Seq<char>, max_len: int, keep_back: int, marker: Seq<char>) -> Seq<char> {
    if s.len() <= max_len {
        s
    } else {
        s.take(if max_len >= keep_back { max_len - keep_back } else { 0 }) + marker
    }
}

fn truncate_with(s: &str, max_len: usize, keep_back: usize, marker: &[char]) -> (t: String)
    ensures
        t@ == spec_truncate(s@, max_len as int, keep_back as int, marker@),
{
    let chars = chars_of(s);
    if chars.len() <= max_len {
        return string_from_chars(chars.as_slice());
    }
    let keep = max_len.saturating_sub(keep_back);
    let mut out: Vec<char> = Vec::new();
    let mut i: usize = 0;
    while i < keep
        invariant
            0 <= i <= keep,
            keep < chars@.len(),
            out@ == chars@.take(i as int),
        decreases keep - i,
    {
        out.push(chars[i]);
        assert(chars@.take(i as int + 1) =~= chars@.take(i as int).push(chars@[i as int]));
        i = i + 1;
    }
    out.extend_from_slice(marker);
    string_from_chars(out.as_slice())
}

/// Shortens `s` to at most `max_len` characters, ending a shortened string with `…`.
pub fn truncate_string(s: &str, max_len: usize) -> (t: String)
    ensures
        t@ == spec_truncate(s@, max_len as int, 1, seq!['…']),
{
    let marker: [char; 1] = ['…'];
    assert(marker@ =~= seq!['…']);
    truncate_with(s, max_len, 1, &marker)
}

/// Shortens `text` to at most `max_len` characters, ending a shortened string with `...`.
pub fn truncate_text(text: &str, max_len: usize) -> (t: String)
    ensures
        t@ == spec_truncate(text@, max_len as int, 3, seq!['.', '.', '.']),
{
    let marker: [char; 3] = ['.', '.', '.'];
    assert(marker@ =~= seq!['.', '.', '.']);
    truncate_with(text, max_len, 3, &marker)
}

/// A truncated string never exceeds its limit, provided the limit leaves room for the marker.
pub proof fn law_truncate_fits(s: Seq<char>, max_len: int, keep_back: int, marker: Seq<char>)
    requires
        marker.len() == keep_back,
        keep_back <= max_len,
    ensures
        spec_truncate(s, max_len, keep_back, marker).len() <= max_len,
        s.len() <= max_len ==> spec_truncate(s, max_len, keep_back, marker) == s,
{
}

/// What the repository column shows: `-` for none, else the repositories
/// joined with `, `, truncated to the width (at least 12).
pub open spec fn spec_repo_summary(repos: Seq<Seq<char>>, max_len: int) -> Seq<char> {
    let width = if max_len > 12 { max_len } else { 12 };
    if repos.len() == 0 {
        seq!['-']
    } else if repos.len() == 1 {
        spec_truncate(repos[0], width, 3, seq!['.', '.', '.'])
    } else {
        spec_truncate(seq_join(repos, seq![',', ' ']), width, 3, seq!['.', '.', '.'])
    }
}

/// Summarises a list of repositories for display.
pub fn format_repo_summary(repos: &[String], max_len: usize) -> (summary: String)
    ensures
        summary@ == spec_repo_summary(views(repos@), max_len as int),
{
    let width = if max_len > 12 { max_len } else { 12 };
    if repos.len() == 0 {
        let dash: [char; 1] = ['-'];
        assert(dash@ =~= seq!['-']);
        string_from_chars(&dash)
    } else if repos.len() == 1 {
        truncate_text(repos[0].as_str(), width)
    } else {
        let sep: [char; 2] = [',', ' '];
        let sep_string = string_from_chars(&sep);
        assert(sep@ =~= seq![',', ' ']);
        let joined = join_strings(repos, sep_string.as_str());
        truncate_text(joined.as_str(), width)
    }
}

} // verus!

verus! {

/// The Unicode White_Space property, which `char::is_whitespace` tests:
/// tab to carriage return, space, next line, no-break space, ogham space
/// mark, the en quad to hair space range, the line and paragraph
/// separators, the narrow no-break and medium mathematical spaces, and the
/// ideographic space.
pub open spec fn is_whitespace_char(c: char) -> bool {
    let u = c as u32;
    (0x09 <= u && u <= 0x0d) || u == 0x20 || u == 0x85 || u == 0xa0 || u == 0x1680
        || (0x2000 <= u && u <= 0x200a) || u == 0x2028 || u == 0x2029 || u == 0x202f
        || u == 0x205f || u == 0x3000
}

/// Whether `c` is whitespace.
pub fn char_is_whitespace(c: char) -> (b: bool)
    ensures
        b == is_whitespace_char(c),
{
    let u = c as u32;
    (0x09 <= u && u <= 0x0d) || u == 0x20 || u == 0x85 || u == 0xa0 || u == 0x1680
        || (0x2000 <= u && u <= 0x200a) || u == 0x2028 || u == 0x2029 || u == 0x202f
        || u == 0x205f || u == 0x3000
}

/// Every character of `s` is whitespace (so `str::trim` leaves nothing).
pub open spec fn all_whitespace(s: Seq<char>) -> bool {
    forall|i: int| 0 <= i < s.len() ==> is_whitespace_char(#[trigger] s[i])
}

/// Whether `s` is empty once trimmed.
pub fn is_blank(s: &[char]) -> (b: bool)
    ensures
        b == all_whitespace(s@),
{
    let mut i: usize = 0;
    while i < s.len()
        invariant
            0 <= i <= s@.len(),
            forall|j: int| 0 <= j < i ==> is_whitespace_char(#[trigger] s@[j]),
        decreases s@.len() - i,
    {
        if !char_is_whitespace(s[i]) {
            return false;
        }
        i = i + 1;
    }
    true
}

} // verus!

verus! {

/// What `str::to_lowercase` gives for `s`.
pub uninterp spec fn str_lowercase(s: Seq<char>) -> Seq<char>;

/// Calls `str::to_lowercase`. Claimed: the result is `str_lowercase(s)`, a
/// function of the characters of `s` alone.
#[verifier::external_body]
pub(crate) fn lowercase_str(s: &str) -> (r: String)
    ensures
        r@ == str_lowercase(s@),
{
    s.to_lowercase()
}

/// What `str::to_uppercase` gives for `s`.
pub uninterp spec fn str_uppercase(s: Seq<char>) -> Seq<char>;

/// Calls `str::to_uppercase`. Claimed: the result is `str_uppercase(s)`, a
/// function of the characters of `s` alone.
#[verifier::external_body]
pub(crate) fn uppercase_str(s: &str) -> (r: String)
    ensures
        r@ == str_uppercase(s@),
{
    s.to_uppercase()
}

/// `s` with every leading `c` removed (as `str::trim_start_matches` with a character does).
pub open spec fn trim_leading(s: Seq<char>, c: char) -> Seq<char>
    decreases s.len(),
{
    if s.len() > 0 && s[0] == c { trim_leading(s.drop_first(), c) } else { s }
}

/// Removes every leading `c` from `s`.
pub fn trim_start_char(s: &str, c: char) -> (t: String)
    ensures
        t@ == trim_leading(s@, c),
{
    let chars = chars_of(s);
    let mut start: usize = 0;
    assert(chars@.skip(0) =~= chars@);
    while start < chars.len() && chars[start] == c
        invariant
            0 <= start <= chars@.len(),
            trim_leading(s@, c) == trim_leading(chars@.skip(start as int), c),
            chars@ == s@,
        decreases chars@.len() - start,
    {
        assert(chars@.skip(start as int).drop_first() =~= chars@.skip(start as int + 1));
        start = start + 1;
    }
    let mut out: Vec<char> = Vec::new();
    let mut i: usize = start;
    while i < chars.len()
        invariant
            start <= i <= chars@.len(),
            out@ == chars@.subrange(start as int, i as int),
        decreases chars@.len() - i,
    {
        out.push(chars[i]);
        assert(chars@.subrange(start as int, i + 1) =~= chars@.subrange(start as int, i as int).push(chars@[i as int]));
        i = i + 1;
    }
    assert(out@ =~= chars@.skip(start as int));
    string_from_chars(out.as_slice())
}

} // verus!

verus! {

/// The character of decimal digit `d` (0 to 9).
pub open spec fn digit_char(d: nat) -> char {
    if d == 0 { '0' } else if d == 1 { '1' } else if d == 2 { '2' } else if d == 3 { '3' } else if d == 4 {
        '4'
    } else if d == 5 { '5' } else if d == 6 { '6' } else if d == 7 { '7' } else if d == 8 { '8' } else { '9' }
}

/// The character of digit `d`.
fn digit_char_exec(d: u64) -> (c: char)
    requires
        d < 10,
    ensures
        c == digit_char(d as nat),
{
    match d {
        0 => '0',
        1 => '1',
        2 => '2',
        3 => '3',
        4 => '4',
        5 => '5',
        6 => '6',
        7 => '7',
        8 => '8',
        _ => '9',
    }
}

/// The decimal notation of `n`, without leading zeros.
pub open spec fn decimal(n: nat) -> Seq<char>
    decreases n,
{
    if n < 10 {
        seq![digit_char(n)]
    } else {
        decimal(n / 10).push(digit_char(n % 10))
    }
}

/// Appends the decimal notation of `n` to `out`.
pub fn push_decimal(out: &mut Vec<char>, n: u64)
    ensures
        final(out)@ == old(out)@ + decimal(n as nat),
    decreases n,
{
    if n >= 10 {
        push_decimal(out, n / 10);
    }
    let c = digit_char_exec(n % 10);
    out.push(c);
    proof {
        assert(c == digit_char((n % 10) as nat));
        if n >= 10 {
            assert(decimal(n as nat) == decimal((n / 10) as nat).push(digit_char((n % 10) as nat)));
        }
        assert(final(out)@ =~= old(out)@ + decimal(n as nat));
    }
}

/// The decimal notation of `n`.
pub fn decimal_string(n: u64) -> (s: String)
    ensures
        s@ == decimal(n as nat),
{
    let mut chars: Vec<char> = Vec::new();
    push_decimal(&mut chars, n);
    assert(chars@ =~= decimal(n as nat));
    string_from_chars(chars.as_slice())
}

} // verus!
