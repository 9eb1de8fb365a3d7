use vstd::prelude::*;
use crate::layout::{clean_and_strip_html, spec_replace_entities, strip_tags};
use crate::text::{chars_of, decimal, decimal_string, string_from_chars, views};

verus! {

// Meeting descriptions carry Jira links written as
// `JIRA[<a href="URL">TEXT</a>]`. A description is cut into its plain text
// and those links.

/// The first position at or after `k` where `s` holds `c`; `s.len()` where none does.
pub open spec fn find_from(s: Seq<char>, k: int, c: char) -> int
    decreases s.len() - k,
{
    if k >= s.len() {
        s.len() as int
    } else if s[k] == c {
        k
    } else {
        find_from(s, k + 1, c)
    }
}

pub proof fn lemma_find_from(s: Seq<char>, k: int, c: char)
    requires
        0 <= k,
    ensures
        k <= find_from(s, k, c) <= s.len() || (k > s.len() && find_from(s, k, c) == s.len()),
        find_from(s, k, c) < s.len() ==> s[find_from(s, k, c)] == c,
        forall|j: int| k <= j < find_from(s, k, c) ==> s[j] != c,
    decreases s.len() - k,
{
    if k < s.len() && s[k] != c {
        lemma_find_from(s, k + 1, c);
    }
}

/// Where `c` first occurs from `k` on, when it occurs at `p` and not between `k` and `p`.
pub proof fn lemma_find_from_at(s: Seq<char>, k: int, c: char, p: int)
    requires
        0 <= k <= p < s.len(),
        s[p] == c,
        forall|j: int| k <= j < p ==> s[j] != c,
    ensures
        find_from(s, k, c) == p,
    decreases p - k,
{
    if k < p {
        lemma_find_from_at(s, k + 1, c, p);
    }
}

/// What opens a link.
pub open spec fn link_open() -> Seq<char> {
    "JIRA[<a href=\""@
}

/// What closes a link.
pub open spec fn link_close() -> Seq<char> {
    "</a>]"@
}

/// A link starting at `p`: the positions where its address starts and ends,
/// where its text starts and ends, and where the link ends. The address is
/// one or more characters other than `"`, the text one or more other than `<`.
pub open spec fn link_at(s: Seq<char>, p: int) -> Option<(int, int, int, int, int)> {
    let u0 = p + 14;
    if 0 <= p && u0 <= s.len() && s.subrange(p, u0) == link_open() {
        let u1 = find_from(s, u0, '"');
        if u1 > u0 && u1 < s.len() && s.len() - u1 >= 2 && s[u1 + 1] == '>' {
            let t0 = u1 + 2;
            let t1 = find_from(s, t0, '<');
            if t1 > t0 && t1 + 5 <= s.len() && s.subrange(t1, t1 + 5) == link_close() {
                Some((u0, u1, t0, t1, t1 + 5))
            } else {
                None
            }
        } else {
            None
        }
    } else {
        None
    }
}

/// Text as shown: entities decoded, unsupported tags removed, formatting tags kept.
pub open spec fn cleaned(text: Seq<char>) -> Seq<char> {
    strip_tags(spec_replace_entities(text))
}

/// The plain text between positions `a` and `b` as a segment, if there is any.
pub open spec fn text_piece(s: Seq<char>, a: int, b: int) -> Seq<(Seq<char>, Option<Seq<char>>)> {
    if a < b {
        seq![(cleaned(s.subrange(a, b)), None)]
    } else {
        Seq::empty()
    }
}

/// The segments of `s` from search position `i` on, the plain text pending
/// since position `last`: each link found (leftmost first, then after it),
/// preceded by the text before it.
pub open spec fn segments_from(s: Seq<char>, i: int, last: int) -> Seq<(Seq<char>, Option<Seq<char>>)>
    decreases s.len() - i,
{
    if i >= s.len() || i < 0 {
        text_piece(s, last, s.len() as int)
    } else {
        match link_at(s, i) {
            Some((u0, u1, t0, t1, e)) => text_piece(s, last, i) + seq![
                (s.subrange(t0, t1), Some(s.subrange(u0, u1))),
            ] + segments_from(s, e, e),
            None => segments_from(s, i + 1, last),
        }
    }
}

/// The description cut into text (cleaned as `cleaned` says) and links (text
/// and address); a description without links is one plain segment.
pub open spec fn spec_parse_description(s: Seq<char>) -> Seq<(Seq<char>, Option<Seq<char>>)> {
    let segs = segments_from(s, 0, 0);
    if segs.len() == 0 {
        seq![(cleaned(s), None)]
    } else {
        segs
    }
}

pub open spec fn segment_views(v: Seq<(String, Option<String>)>) -> Seq<(Seq<char>, Option<Seq<char>>)> {
    v.map_values(
        |p: (String, Option<String>)|
            (
                p.0@,
                match p.1 {
                    Some(u) => Some(u@),
                    None => None,
                },
            ),
    )
}

fn matches_at(s: &Vec<char>, p: usize, word: &str) -> (b: bool)
    requires
        p <= s@.len(),
    ensures
        b == (p + word@.len() <= s@.len() && s@.subrange(p as int, p + word@.len()) == word@),
{
    let w = chars_of(word);
    if w.len() > s.len() - p {
        return false;
    }
    let mut k: usize = 0;
    while k < w.len()
        invariant
            0 <= k <= w@.len(),
            p + w@.len() <= s@.len(),
            s@.len() <= usize::MAX,
            w@ == word@,
            forall|j: int| 0 <= j < k ==> s@[p + j] == w@[j],
        decreases w@.len() - k,
    {
        if s[p + k] != w[k] {
            assert(s@.subrange(p as int, p + w@.len())[k as int] != w@[k as int]);
            return false;
        }
        k = k + 1;
    }
    assert(s@.subrange(p as int, p + w@.len()) =~= w@);
    true
}

fn find_char(s: &Vec<char>, k: usize, c: char) -> (r: usize)
    requires
        k <= s@.len(),
    ensures
        r == find_from(s@, k as int, c),
{
    let mut j = k;
    while j < s.len() && s[j] != c
        invariant
            k <= j <= s@.len(),
            find_from(s@, k as int, c) == find_from(s@, j as int, c),
        decreases s@.len() - j,
    {
        j = j + 1;
    }
    j
}

fn link_at_exec(s: &Vec<char>, p: usize) -> (r: Option<(usize, usize, usize, usize, usize)>)
    requires
        p < s@.len(),
    ensures
        match r {
            Some((u0, u1, t0, t1, e)) => link_at(s@, p as int) == Some(
                (u0 as int, u1 as int, t0 as int, t1 as int, e as int),
            ),
            None => link_at(s@, p as int) is None,
        },
{
    proof {
        reveal_strlit("JIRA[<a href=\"");
        reveal_strlit("</a>]");
        assert("JIRA[<a href=\""@.len() == 14);
    }
    let n = s.len();
    if !matches_at(s, p, "JIRA[<a href=\"") {
        return None;
    }
    assert(p + 14 <= n);
    let u0 = p + 14;
    let u1 = find_char(s, u0, '"');
    proof {
        lemma_find_from(s@, u0 as int, '"');
    }
    if u1 > u0 && u1 < s.len() && s.len() - u1 >= 2 && s[u1 + 1] == '>' {
        let t0 = u1 + 2;
        let t1 = find_char(s, t0, '<');
        proof {
            lemma_find_from(s@, t0 as int, '<');
        }
        if t1 > t0 && matches_at(s, t1, "</a>]") {
            return Some((u0, u1, t0, t1, t1 + 5));
        }
    }
    None
}

fn push_text(out: &mut Vec<(String, Option<String>)>, s: &Vec<char>, a: usize, b: usize)
    requires
        a <= s@.len(),
        b <= s@.len(),
    ensures
        segment_views(final(out)@) == segment_views(old(out)@) + text_piece(s@, a as int, b as int),
{
    let ghost before = segment_views(out@);
    if a < b {
        let piece = string_from_chars(&s.as_slice()[a..b]);
        let text = clean_and_strip_html(piece.as_str());
        out.push((text, None));
        assert(segment_views(out@) =~= before + text_piece(s@, a as int, b as int));
    } else {
        assert(segment_views(out@) =~= before + text_piece(s@, a as int, b as int));
    }
}

/// Cuts a meeting description into text (cleaned as `cleaned` says) and Jira links
/// `JIRA[<a href="URL">TEXT</a>]`, kept as (text, address).
pub fn parse_description(desc: &str) -> (parsed: Vec<(String, Option<String>)>)
    ensures
        segment_views(parsed@) == spec_parse_description(desc@),
{
    let s = chars_of(desc);
    let mut out: Vec<(String, Option<String>)> = Vec::new();
    let mut i: usize = 0;
    let mut last: usize = 0;
    assert(segment_views(out@) =~= Seq::<(Seq<char>, Option<Seq<char>>)>::empty());
    while i < s.len()
        invariant
            s@ == desc@,
            0 <= last <= i <= s@.len(),
            segment_views(out@) + segments_from(s@, i as int, last as int) == segments_from(s@, 0, 0),
        decreases s@.len() - i,
    {
        match link_at_exec(&s, i) {
            Some((u0, u1, t0, t1, e)) => {
                let ghost before = segment_views(out@);
                let ghost rest = segments_from(s@, e as int, e as int);
                push_text(&mut out, &s, last, i);
                let url = string_from_chars(&s.as_slice()[u0..u1]);
                let text = string_from_chars(&s.as_slice()[t0..t1]);
                out.push((text, Some(url)));
                proof {
                    assert(segment_views(out@) =~= before + text_piece(s@, last as int, i as int) + seq![
                        (s@.subrange(t0 as int, t1 as int), Some(s@.subrange(u0 as int, u1 as int))),
                    ]);
                    assert(segment_views(out@) + rest =~= before + segments_from(s@, i as int, last as int));
                }
                i = e;
                last = e;
            },
            None => {
                i = i + 1;
            },
        }
    }
    let ghost before = segment_views(out@);
    push_text(&mut out, &s, last, s.len());
    if out.len() == 0 {
        out.push((clean_and_strip_html(desc), None));
        assert(segment_views(out@) =~= seq![(cleaned(desc@), None::<Seq<char>>)]);
    }
    out
}

/// The rows of a description's text in the meeting details: its first
/// eight wrapped lines, indented by two spaces, and a note where more were cut.
pub open spec fn spec_description_rows(wrapped: Seq<Seq<char>>) -> Seq<Seq<char>> {
    let shown = if wrapped.len() < 8 { wrapped.len() as int } else { 8 };
    let rows = Seq::new(shown as nat, |i: int| "  "@ + wrapped[i]);
    if wrapped.len() > 8 { rows.push("  ... (truncated)"@) } else { rows }
}

/// The rows shown for a description's wrapped lines.
pub fn description_rows(wrapped: &[String]) -> (rows: Vec<String>)
    ensures
        views(rows@) == spec_description_rows(views(wrapped@)),
{
    let shown: usize = if wrapped.len() < 8 { wrapped.len() } else { 8 };
    let mut rows: Vec<String> = Vec::new();
    let mut i: usize = 0;
    while i < shown
        invariant
            shown <= wrapped@.len(),
            shown == (if wrapped@.len() < 8 { wrapped@.len() as int } else { 8 }),
            0 <= i <= shown,
            rows@.len() == i,
            forall|j: int| 0 <= j < i ==> (#[trigger] rows@[j])@ == "  "@ + wrapped@[j]@,
        decreases shown - i,
    {
        let mut row = "  ".to_string();
        row.append(wrapped[i].as_str());
        rows.push(row);
        i = i + 1;
    }
    if wrapped.len() > 8 {
        rows.push("  ... (truncated)".to_string());
    }
    assert(views(rows@) =~= spec_description_rows(views(wrapped@)));
    rows
}

/// The links among a parsed description's segments, as (text, address), in order.
pub open spec fn links_of(segments: Seq<(Seq<char>, Option<Seq<char>>)>) -> Seq<(Seq<char>, Seq<char>)>
    decreases segments.len(),
{
    if segments.len() == 0 {
        Seq::empty()
    } else {
        let rest = links_of(segments.drop_last());
        match segments.last().1 {
            Some(u) => rest.push((segments.last().0, u)),
            None => rest,
        }
    }
}

/// The rows listing a description's links: the text and, below it, the
/// address of each of the first three, then how many more there are, if any.
pub open spec fn spec_link_rows(segments: Seq<(Seq<char>, Option<Seq<char>>)>) -> Seq<Seq<char>> {
    let links = links_of(segments);
    let shown = if links.len() < 3 { links.len() as int } else { 3 };
    let rows = Seq::new(
        (2 * shown) as nat,
        |i: int| if i % 2 == 0 { "    "@ + links[i / 2].0 } else { "    → "@ + links[i / 2].1 },
    );
    if links.len() > 3 {
        rows.push("    ... ("@ + decimal((links.len() - 3) as nat) + " more links)"@)
    } else {
        rows
    }
}

/// The rows listing the links of a parsed description.
pub fn link_rows(segments: &[(String, Option<String>)]) -> (rows: Vec<String>)
    ensures
        views(rows@) == spec_link_rows(segment_views(segments@)),
{
    let ghost sv = segment_views(segments@);
    let mut links: Vec<(String, String)> = Vec::new();
    let mut i: usize = 0;
    while i < segments.len()
        invariant
            0 <= i <= segments@.len(),
            sv == segment_views(segments@),
            links@.len() == links_of(sv.take(i as int)).len(),
            forall|j: int| 0 <= j < links@.len() ==> ((#[trigger] links@[j]).0@, links@[j].1@) == links_of(
                sv.take(i as int),
            )[j],
        decreases segments@.len() - i,
    {
        assert(sv.take(i + 1).drop_last() =~= sv.take(i as int));
        assert(sv.take(i + 1).last() == sv[i as int]);
        match &segments[i].1 {
            Some(u) => {
                links.push((segments[i].0.clone(), u.clone()));
            },
            None => {},
        }
        i = i + 1;
    }
    assert(sv.take(segments@.len() as int) =~= sv);
    let ghost lv = links_of(sv);
    let n = links.len();
    let shown: usize = if n < 3 { n } else { 3 };
    let mut rows: Vec<String> = Vec::new();
    let mut k: usize = 0;
    while k < shown
        invariant
            n == links@.len() == lv.len(),
            forall|j: int| 0 <= j < n ==> ((#[trigger] links@[j]).0@, links@[j].1@) == lv[j],
            shown == (if n < 3 { n as int } else { 3 }),
            0 <= k <= shown,
            rows@.len() == 2 * k,
            forall|j: int| 0 <= j < 2 * k ==> (#[trigger] rows@[j])@ == (if j % 2 == 0 { "    "@ + lv[j / 2].0 } else {
                "    → "@ + lv[j / 2].1
            }),
        decreases shown - k,
    {
        let mut text_row = "    ".to_string();
        text_row.append(links[k].0.as_str());
        let mut url_row = "    → ".to_string();
        url_row.append(links[k].1.as_str());
        rows.push(text_row);
        rows.push(url_row);
        proof {
            assert((2 * k) / 2 == k && (2 * k) % 2 == 0);
            assert((2 * k + 1) / 2 == k && (2 * k + 1) % 2 == 1);
        }
        k = k + 1;
    }
    if n > 3 {
        let mut more = "    ... (".to_string();
        more.append(decimal_string((n - 3) as u64).as_str());
        more.append(" more links)");
        rows.push(more);
    }
    assert(views(rows@) =~= spec_link_rows(sv));
    rows
}

/// The name shown for an attendee: the display name, else the email, else `Unknown`.
pub open spec fn spec_attendee_name(display_name: Option<Seq<char>>, email: Option<Seq<char>>) -> Seq<char> {
    match display_name {
        Some(n) => n,
        None => match email {
            Some(e) => e,
            None => "Unknown"@,
        },
    }
}

pub open spec fn attendee_views(a: Seq<(Option<String>, Option<String>)>) -> Seq<(Option<Seq<char>>, Option<Seq<char>>)> {
    a.map_values(
        |p: (Option<String>, Option<String>)|
            (
                match p.0 {
                    Some(n) => Some(n@),
                    None => None,
                },
                match p.1 {
                    Some(e) => Some(e@),
                    None => None,
                },
            ),
    )
}

/// The rows listing a meeting's attendees, each given by display name and
/// email: a bullet for each of the first ten, then how many more there are.
pub open spec fn spec_attendee_rows(attendees: Seq<(Option<Seq<char>>, Option<Seq<char>>)>) -> Seq<Seq<char>> {
    let shown = if attendees.len() < 10 { attendees.len() as int } else { 10 };
    let rows = Seq::new(shown as nat, |i: int| "  • "@ + spec_attendee_name(attendees[i].0, attendees[i].1));
    if attendees.len() > 10 {
        rows.push("  ... ("@ + decimal((attendees.len() - 10) as nat) + " more)"@)
    } else {
        rows
    }
}

/// The rows listing a meeting's attendees.
pub fn attendee_rows(attendees: &[(Option<String>, Option<String>)]) -> (rows: Vec<String>)
    ensures
        views(rows@) == spec_attendee_rows(attendee_views(attendees@)),
{
    let ghost av = attendee_views(attendees@);
    let shown: usize = if attendees.len() < 10 { attendees.len() } else { 10 };
    let mut rows: Vec<String> = Vec::new();
    let mut i: usize = 0;
    while i < shown
        invariant
            av == attendee_views(attendees@),
            shown == (if attendees@.len() < 10 { attendees@.len() as int } else { 10 }),
            0 <= i <= shown,
            rows@.len() == i,
            forall|j: int| 0 <= j < i ==> (#[trigger] rows@[j])@ == "  • "@ + spec_attendee_name(av[j].0, av[j].1),
        decreases shown - i,
    {
        let mut row = "  • ".to_string();
        match &attendees[i].0 {
            Some(name) => row.append(name.as_str()),
            None => match &attendees[i].1 {
                Some(email) => row.append(email.as_str()),
                None => row.append("Unknown"),
            },
        }
        rows.push(row);
        i = i + 1;
    }
    if attendees.len() > 10 {
        let mut more = "  ... (".to_string();
        more.append(decimal_string((attendees.len() - 10) as u64).as_str());
        more.append(" more)");
        rows.push(more);
    }
    assert(views(rows@) =~= spec_attendee_rows(av));
    rows
}

} // verus!
