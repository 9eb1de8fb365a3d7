use vstd::prelude::*;
use crate::search::{IssueEntry, IssueSelectionState};
use crate::text::{
    chars_less, chars_of, insert_sorted, lemma_lex_asymmetric, lemma_lex_irreflexive, lemma_lex_total,
    lemma_lex_transitive, lex_lt, str_equal, str_uppercase, strictly_sorted, uppercase_str, views,
};

verus! {

// Finding the Jira issue a meeting is about, from the keys that its title and
// description mention. The keys are found with the `regex` crate: the
// patterns read Unicode digits and word boundaries.

#[verifier::external_type_specification]
#[verifier::external_body]
pub struct ExRegexError(regex::Error);

/// What the `regex` crate finds: `None` where `pattern` does not compile;
/// else, for each successive non-overlapping match of `pattern` in
/// `haystack`, the text of capture group 1 (`None` where it took no part).
pub uninterp spec fn regex_group_one(pattern: Seq<char>, haystack: Seq<char>) -> Option<Seq<Option<Seq<char>>>>;

pub open spec fn opt_views(v: Seq<Option<String>>) -> Seq<Option<Seq<char>>> {
    v.map_values(|o: Option<String>| match o {
        Some(s) => Some(s@),
        None => None,
    })
}

/// Calls `regex::Regex::new(pattern)` and, on success, `captures_iter(haystack)`,
/// keeping of each match `Captures::get(1)` as text. Claimed: the error
/// comes exactly where `regex_group_one` is `None`, and the list is
/// `regex_group_one(pattern, haystack)` otherwise.
#[verifier::external_body]
fn group_one_matches(pattern: &str, haystack: &str) -> (r: Result<Vec<Option<String>>, regex::Error>)
    ensures
        match r {
            Ok(v) => regex_group_one(pattern@, haystack@) == Some(opt_views(v@)),
            Err(_) => regex_group_one(pattern@, haystack@) is None,
        },
{
    match regex::Regex::new(pattern) {
        Ok(re) => Ok(re.captures_iter(haystack).map(|c| c.get(1).map(|m| m.as_str().to_string())).collect()),
        Err(e) => Err(e),
    }
}

/// The group-1 texts that `pattern` finds in `haystack`; none where the pattern does not compile.
pub open spec fn found(pattern: Seq<char>, haystack: Seq<char>) -> Seq<Option<Seq<char>>> {
    match regex_group_one(pattern, haystack) {
        Some(ms) => ms,
        None => Seq::empty(),
    }
}

/// The pattern of an issue key mentioned in a meeting: a letter, then
/// letters or digits, a dash and digits, as a whole word, in any case.
pub open spec fn mention_pattern() -> Seq<char> {
    "(?i)\\b([A-Z][A-Z0-9]+-\\d+)\\b"@
}

/// The pattern of an issue key written as in `PROJ-12`.
pub open spec fn key_pattern() -> Seq<char> {
    "([A-Z]+-\\d+)"@
}

/// `k` is the upper-case form of one of the texts in `ms`.
pub open spec fn upper_found(ms: Seq<Option<Seq<char>>>, k: Seq<char>) -> bool {
    exists|i: int| 0 <= i < ms.len() && (#[trigger] ms[i]) is Some && str_uppercase(ms[i]->0) == k
}

/// `k` is an issue key mentioned in the title or the description, upper-cased.
pub open spec fn mentions_key(title: Option<Seq<char>>, description: Option<Seq<char>>, k: Seq<char>) -> bool {
    (title matches Some(t) && upper_found(found(mention_pattern(), t), k)) || (description matches Some(d)
        && upper_found(found(mention_pattern(), d), k))
}

pub open spec fn opt_view(o: Option<String>) -> Option<Seq<char>> {
    match o {
        Some(s) => Some(s@),
        None => None,
    }
}

fn add_mentions(keys: &mut Vec<String>, pattern: &str, text: &str)
    requires
        strictly_sorted(views(old(keys)@)),
    ensures
        strictly_sorted(views(final(keys)@)),
        forall|k: Seq<char>| #[trigger] views(final(keys)@).contains(k) <==> (views(old(keys)@).contains(k)
            || upper_found(found(pattern@, text@), k)),
{
    let ghost start = views(keys@);
    match group_one_matches(pattern, text) {
        Ok(v) => {
            let ghost ms = opt_views(v@);
            let mut i: usize = 0;
            while i < v.len()
                invariant
                    0 <= i <= v@.len(),
                    ms == opt_views(v@),
                    found(pattern@, text@) == ms,
                    strictly_sorted(views(keys@)),
                    forall|k: Seq<char>| #[trigger] views(keys@).contains(k) <==> (start.contains(k)
                        || upper_found(ms.take(i as int), k)),
                decreases v@.len() - i,
            {
                let ghost before = views(keys@);
                assert(ms.take(i + 1)[i as int] == ms[i as int]);
                match &v[i] {
                    Some(m) => {
                        let up = uppercase_str(m.as_str());
                        assert(ms[i as int] == Some(m@));
                        assert(ms.take(i + 1)[i as int] is Some && str_uppercase(ms.take(i + 1)[i as int]->0) == up@);
                        insert_sorted(keys, up);
                    },
                    None => {
                        assert(ms[i as int] is None);
                    },
                }
                proof {
                    assert forall|k: Seq<char>| #[trigger] views(keys@).contains(k) <==> (start.contains(k)
                        || upper_found(ms.take(i + 1), k)) by {
                        if upper_found(ms.take(i as int), k) {
                            let j = choose|j: int| 0 <= j < ms.take(i as int).len() && (#[trigger] ms.take(i as int)[j]) is Some
                                && str_uppercase(ms.take(i as int)[j]->0) == k;
                            assert(ms.take(i + 1)[j] == ms.take(i as int)[j]);
                        }
                        if upper_found(ms.take(i + 1), k) {
                            let j = choose|j: int| 0 <= j < ms.take(i + 1).len() && (#[trigger] ms.take(i + 1)[j]) is Some
                                && str_uppercase(ms.take(i + 1)[j]->0) == k;
                            if j < i {
                                assert(ms.take(i as int)[j] == ms.take(i + 1)[j]);
                            }
                        }
                    }
                }
                i = i + 1;
            }
            proof {
                assert(ms.take(v@.len() as int) =~= ms);
            }
        },
        Err(_) => {},
    }
}

/// The issue keys that a meeting's title and description mention, upper-cased,
/// sorted and without repeats.
pub fn potential_issue_keys(title: &Option<String>, description: &Option<String>) -> (keys: Vec<String>)
    ensures
        strictly_sorted(views(keys@)),
        forall|k: Seq<char>| #[trigger] views(keys@).contains(k) <==> mentions_key(opt_view(*title), opt_view(*description), k),
{
    let pattern = "(?i)\\b([A-Z][A-Z0-9]+-\\d+)\\b";
    let mut keys: Vec<String> = Vec::new();
    assert(views(keys@) =~= Seq::<Seq<char>>::empty());
    match title {
        Some(t) => add_mentions(&mut keys, pattern, t.as_str()),
        None => {},
    }
    match description {
        Some(d) => add_mentions(&mut keys, pattern, d.as_str()),
        None => {},
    }
    keys
}

/// The text searched for a key to link a meeting to: title, a space, description.
pub open spec fn link_text(title: Option<Seq<char>>, description: Option<Seq<char>>) -> Seq<char> {
    (match title {
        Some(t) => t,
        None => Seq::empty(),
    }) + " "@ + (match description {
        Some(d) => d,
        None => Seq::empty(),
    })
}

/// The key that a meeting's text names first, if it is among `known`.
pub open spec fn spec_auto_link_key(title: Option<Seq<char>>, description: Option<Seq<char>>, known: Seq<Seq<char>>) -> Option<
    Seq<char>,
> {
    let ms = found(key_pattern(), link_text(title, description));
    if ms.len() > 0 && ms[0] is Some && known.contains(ms[0]->0) {
        Some(ms[0]->0)
    } else {
        None
    }
}

fn known_key(known: &[String], key: &str) -> (b: bool)
    ensures
        b == views(known@).contains(key@),
{
    let mut i: usize = 0;
    while i < known.len()
        invariant
            0 <= i <= known@.len(),
            forall|j: int| 0 <= j < i ==> (#[trigger] known@[j])@ != key@,
        decreases known@.len() - i,
    {
        if str_equal(known[i].as_str(), key) {
            assert(views(known@)[i as int] == key@);
            return true;
        }
        i = i + 1;
    }
    proof {
        if views(known@).contains(key@) {
            let j = choose|j: int| 0 <= j < views(known@).len() && views(known@)[j] == key@;
            assert(known@[j]@ == key@);
        }
    }
    false
}

/// The issue an unlinked meeting is linked to without asking: the first key
/// its title or description names, where that issue is known.
pub fn auto_link_key(title: &Option<String>, description: &Option<String>, known: &[String]) -> (key: Option<String>)
    ensures
        opt_view(key) == spec_auto_link_key(opt_view(*title), opt_view(*description), views(known@)),
{
    let mut text = String::new();
    match title {
        Some(t) => text.append(t.as_str()),
        None => {},
    }
    text.append(" ");
    match description {
        Some(d) => text.append(d.as_str()),
        None => {},
    }
    proof {
        reveal_strlit(" ");
        assert(text@ =~= link_text(opt_view(*title), opt_view(*description)));
    }
    let pattern = "([A-Z]+-\\d+)";
    match group_one_matches(pattern, text.as_str()) {
        Ok(v) => {
            if v.len() > 0 {
                match &v[0] {
                    Some(k) => {
                        if known_key(known, k.as_str()) {
                            return Some(k.clone());
                        }
                    },
                    None => {},
                }
            }
            None
        },
        Err(_) => None,
    }
}

/// A meeting as auto-linking reads it.
pub struct MeetingText {
    pub jira_link: Option<String>,
    pub title: Option<String>,
    pub description: Option<String>,
}

/// The link that auto-linking gives meeting `m`: none for a linked meeting.
pub open spec fn spec_auto_link(m: MeetingText, known: Seq<Seq<char>>) -> Option<Seq<char>> {
    if m.jira_link is Some {
        None
    } else {
        spec_auto_link_key(opt_view(m.title), opt_view(m.description), known)
    }
}

/// Auto-links meetings: for each meeting, the issue it gets, if any. Only
/// unlinked meetings get one.
pub fn auto_link_meetings(meetings: &[MeetingText], known: &[String]) -> (links: Vec<Option<String>>)
    ensures
        links@.len() == meetings@.len(),
        forall|i: int| 0 <= i < meetings@.len() ==> opt_view(#[trigger] links@[i]) == spec_auto_link(meetings@[i], views(known@)),
{
    let mut links: Vec<Option<String>> = Vec::new();
    let mut i: usize = 0;
    while i < meetings.len()
        invariant
            0 <= i <= meetings@.len(),
            links@.len() == i,
            forall|j: int| 0 <= j < i ==> opt_view(#[trigger] links@[j]) == spec_auto_link(meetings@[j], views(known@)),
        decreases meetings@.len() - i,
    {
        let m = &meetings[i];
        let link = if m.jira_link.is_some() {
            None
        } else {
            auto_link_key(&m.title, &m.description, known)
        };
        links.push(link);
        i = i + 1;
    }
    links
}

/// How many of the meetings' links point at issue `key`.
pub open spec fn usage(links: Seq<Option<Seq<char>>>, key: Seq<char>) -> nat
    decreases links.len(),
{
    if links.len() == 0 {
        0
    } else {
        usage(links.drop_last(), key) + if links.last() == Some(key) {
            1nat
        } else {
            0nat
        }
    }
}

proof fn lemma_usage_bounded(links: Seq<Option<Seq<char>>>, key: Seq<char>)
    ensures
        usage(links, key) <= links.len(),
    decreases links.len(),
{
    if links.len() > 0 {
        lemma_usage_bounded(links.drop_last(), key);
    }
}

fn usage_count(links: &[Option<String>], key: &str) -> (n: usize)
    ensures
        n == usage(opt_views(links@), key@),
{
    let ghost all = opt_views(links@);
    let mut n: usize = 0;
    let mut i: usize = 0;
    while i < links.len()
        invariant
            0 <= i <= links@.len(),
            all == opt_views(links@),
            n == usage(all.take(i as int), key@),
            n <= i,
        decreases links@.len() - i,
    {
        assert(all.take(i + 1).drop_last() =~= all.take(i as int));
        assert(all.take(i + 1).last() == all[i as int]);
        match &links[i] {
            Some(l) => {
                if str_equal(l.as_str(), key) {
                    n = n + 1;
                }
            },
            None => {},
        }
        i = i + 1;
    }
    assert(all.take(links@.len() as int) =~= all);
    n
}

/// Whether issue key `a` may come before issue key `b` when the user picks an
/// issue for a meeting: keys the meeting mentions (`found`) first, then the
/// keys more meetings are linked to, then by key.
pub open spec fn listed_before(found: Seq<Seq<char>>, links: Seq<Option<Seq<char>>>, a: Seq<char>, b: Seq<char>) -> bool {
    let ea = found.contains(a);
    let eb = found.contains(b);
    if ea != eb {
        ea
    } else {
        let ca = usage(links, a);
        let cb = usage(links, b);
        if ca != cb {
            ca > cb
        } else {
            !lex_lt(b, a)
        }
    }
}

pub proof fn lemma_listed_before_total(found: Seq<Seq<char>>, links: Seq<Option<Seq<char>>>, a: Seq<char>, b: Seq<char>)
    ensures
        listed_before(found, links, a, b) || listed_before(found, links, b, a),
{
    lemma_lex_asymmetric(a, b);
}

pub proof fn lemma_listed_before_transitive(
    found: Seq<Seq<char>>,
    links: Seq<Option<Seq<char>>>,
    a: Seq<char>,
    b: Seq<char>,
    c: Seq<char>,
)
    requires
        listed_before(found, links, a, b),
        listed_before(found, links, b, c),
    ensures
        listed_before(found, links, a, c),
{
    if found.contains(a) == found.contains(b) && found.contains(b) == found.contains(c) && usage(links, a) == usage(
        links,
        b,
    ) && usage(links, b) == usage(links, c) {
        lemma_lex_total(a, b);
        lemma_lex_total(b, c);
        if a != b && b != c {
            lemma_lex_transitive(a, b, c);
            lemma_lex_asymmetric(a, c);
        } else if a == b {
        } else {
        }
    }
}

/// The issues are listed in the picking order.
pub open spec fn listed_in_order(found: Seq<Seq<char>>, links: Seq<Option<Seq<char>>>, issues: Seq<IssueEntry>) -> bool {
    forall|i: int, j: int|
        0 <= i < j < issues.len() ==> listed_before(found, links, #[trigger] issues[i].key@, #[trigger] issues[j].key@)
}

fn before_exec(ea: bool, ca: usize, ka: &str, eb: bool, cb: usize, kb: &str) -> (r: bool)
    ensures
        r == (if ea != eb {
            ea
        } else if ca != cb {
            ca > cb
        } else {
            !lex_lt(kb@, ka@)
        }),
{
    if ea != eb {
        ea
    } else if ca != cb {
        ca > cb
    } else {
        let a = chars_of(ka);
        let b = chars_of(kb);
        !chars_less(b.as_slice(), a.as_slice())
    }
}

/// Orders the issues offered for linking a meeting: those whose keys are in
/// `found` first, then the issues more meetings are linked to, then by key.
pub fn order_issues_for_linking(issues: Vec<IssueEntry>, found: &[String], links: &[Option<String>]) -> (ordered: Vec<
    IssueEntry,
>)
    ensures
        ordered@.to_multiset() == issues@.to_multiset(),
        listed_in_order(views(found@), opt_views(links@), ordered@),
{
    broadcast use vstd::seq_lib::group_to_multiset_ensures;
    broadcast use vstd::multiset::group_multiset_axioms;

    let ghost fv = views(found@);
    let ghost lv = opt_views(links@);
    let ghost orig = issues@;
    let mut rest = issues;
    let mut out: Vec<IssueEntry> = Vec::new();
    let mut ranks: Vec<(bool, usize)> = Vec::new();
    assert(orig.to_multiset() =~= rest@.to_multiset().add(out@.to_multiset()));
    while rest.len() > 0
        invariant
            fv == views(found@),
            lv == opt_views(links@),
            orig.to_multiset() == rest@.to_multiset().add(out@.to_multiset()),
            ranks@.len() == out@.len(),
            forall|k: int| 0 <= k < out@.len() ==> (#[trigger] ranks@[k]).0 == fv.contains(out@[k].key@) && ranks@[k].1
                == usage(lv, out@[k].key@),
            listed_in_order(fv, lv, out@),
        decreases rest@.len(),
    {
        let ghost rest_before = rest@;
        let x = rest.remove(0);
        proof {
            vstd::seq_lib::to_multiset_remove(rest_before, 0);
            assert(rest_before.contains(rest_before[0]));
            vstd::seq_lib::to_multiset_contains(rest_before, rest_before[0]);
        }
        let ex = known_key(found, x.key.as_str());
        let cx = usage_count(links, x.key.as_str());
        let mut j: usize = 0;
        while j < out.len()
            invariant_except_break
                0 <= j <= out@.len(),
                forall|k: int| 0 <= k < j ==> listed_before(fv, lv, (#[trigger] out@[k]).key@, x.key@),
            invariant
                ranks@.len() == out@.len(),
                forall|k: int| 0 <= k < out@.len() ==> (#[trigger] ranks@[k]).0 == fv.contains(out@[k].key@) && ranks@[k].1
                    == usage(lv, out@[k].key@),
                ex == fv.contains(x.key@),
                cx == usage(lv, x.key@),
            ensures
                0 <= j <= out@.len(),
                forall|k: int| 0 <= k < j ==> listed_before(fv, lv, (#[trigger] out@[k]).key@, x.key@),
                j < out@.len() ==> !listed_before(fv, lv, out@[j as int].key@, x.key@),
            decreases out@.len() - j,
        {
            let r = ranks[j];
            assert(r == ranks@[j as int]);
            if !before_exec(r.0, r.1, out[j].key.as_str(), ex, cx, x.key.as_str()) {
                break;
            }
            j = j + 1;
        }
        let ghost out_before = out@;
        out.insert(j, x);
        ranks.insert(j, (ex, cx));
        proof {
            let xk = out@[j as int].key@;
            assert forall|a: int, b: int| 0 <= a < b < out@.len() implies listed_before(
                fv,
                lv,
                #[trigger] out@[a].key@,
                #[trigger] out@[b].key@,
            ) by {
                if a < j && b == j {
                } else if a == j && b > j {
                    lemma_listed_before_total(fv, lv, out_before[j as int].key@, xk);
                    if b - 1 > j {
                        lemma_listed_before_transitive(fv, lv, xk, out_before[j as int].key@, out_before[b - 1].key@);
                    }
                } else if a < j && b > j {
                    assert(out@[a] == out_before[a]);
                    assert(out@[b] == out_before[b - 1]);
                } else if b < j {
                    assert(out@[a] == out_before[a]);
                    assert(out@[b] == out_before[b]);
                } else {
                    assert(out@[a] == out_before[a - 1]);
                    assert(out@[b] == out_before[b - 1]);
                }
            }
            assert forall|k: int| 0 <= k < out@.len() implies (#[trigger] ranks@[k]).0 == fv.contains(out@[k].key@)
                && ranks@[k].1 == usage(lv, out@[k].key@) by {
                if k < j {
                    assert(out@[k] == out_before[k]);
                } else if k > j {
                    assert(out@[k] == out_before[k - 1]);
                }
            }
            vstd::seq_lib::to_multiset_insert(out_before, j as int, x);
            assert(orig.to_multiset() =~= rest@.to_multiset().add(out@.to_multiset()));
        }
    }
    out
}

/// What linking a meeting asks for.
pub enum MeetingLinkStep {
    /// The meeting mentions one key, a known issue: link to it.
    AutoLink(String),
    /// There is no issue to choose from.
    NoIssues,
    /// Let the user choose; `found` lists the keys the meeting mentions.
    Choose { found: Vec<String>, selection: IssueSelectionState },
}

/// `k` is the one key the meeting mentions.
pub open spec fn sole_mention(title: Option<Seq<char>>, description: Option<Seq<char>>, k: Seq<char>) -> bool {
    mentions_key(title, description, k) && forall|k2: Seq<char>| #[trigger] mentions_key(title, description, k2) ==> k2 == k
}

/// Decides how meeting `meeting_id` gets linked: straight to the one known
/// issue it mentions, else by a choice among `all_issues`, ordered for the
/// meeting (see `order_issues_for_linking`) with the first one selected;
/// `links` are the links of all meetings.
pub fn plan_meeting_link(
    meeting_id: String,
    title: &Option<String>,
    description: &Option<String>,
    known: &[String],
    all_issues: Vec<IssueEntry>,
    links: &[Option<String>],
) -> (step: MeetingLinkStep)
    ensures
        step matches MeetingLinkStep::AutoLink(k) ==> sole_mention(opt_view(*title), opt_view(*description), k@) && views(
            known@,
        ).contains(k@),
        step is AutoLink <== (exists|k: Seq<char>| sole_mention(opt_view(*title), opt_view(*description), k) && views(known@).contains(k)),
        step is NoIssues <==> !(step is AutoLink) && all_issues@.len() == 0,
        step matches MeetingLinkStep::Choose { found, selection } ==> (
            strictly_sorted(views(found@))
            && (forall|k: Seq<char>| #[trigger] views(found@).contains(k) <==> mentions_key(opt_view(*title), opt_view(*description), k))
            && selection.meeting_id@ == meeting_id@
            && selection.all_issues@.to_multiset() == all_issues@.to_multiset()
            && listed_in_order(views(found@), opt_views(links@), selection.all_issues@)
            && selection.selected_issue_index == 0
            && selection.search_query@.len() == 0
        ),
{
    let found = potential_issue_keys(title, description);
    let ghost t = opt_view(*title);
    let ghost d = opt_view(*description);
    if found.len() == 1 {
        assert(views(found@)[0] == found@[0]@);
        assert(views(found@).contains(found@[0]@));
        if known_key(known, found[0].as_str()) {
            proof {
                assert forall|k2: Seq<char>| #[trigger] mentions_key(t, d, k2) implies k2 == found@[0]@ by {
                    assert(views(found@).contains(k2));
                }
            }
            return MeetingLinkStep::AutoLink(found[0].clone());
        }
        proof {
            assert forall|k: Seq<char>| sole_mention(t, d, k) implies !views(known@).contains(k) by {
                assert(views(found@).contains(k));
            }
        }
    } else {
        proof {
            assert forall|k: Seq<char>| !sole_mention(t, d, k) by {
                if sole_mention(t, d, k) {
                    assert(views(found@).contains(k));
                    if found@.len() >= 2 {
                        assert(views(found@)[0] != views(found@)[1]) by {
                            lemma_lex_irreflexive(views(found@)[0]);
                        }
                        assert(views(found@).contains(views(found@)[0]));
                        assert(views(found@).contains(views(found@)[1]));
                        assert(mentions_key(t, d, views(found@)[0]));
                        assert(mentions_key(t, d, views(found@)[1]));
                    }
                }
            }
        }
    }
    if all_issues.len() == 0 {
        return MeetingLinkStep::NoIssues;
    }
    let ordered = order_issues_for_linking(all_issues, found.as_slice(), links);
    MeetingLinkStep::Choose {
        found,
        selection: IssueSelectionState {
            meeting_id,
            all_issues: ordered,
            selected_issue_index: 0,
            search_query: String::new(),
        },
    }
}

} // verus!
