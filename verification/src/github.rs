use vstd::prelude::*;
use crate::text::{
    chars_of, insert_sorted, split_chars, split_pieces, str_equal, string_from_chars, strictly_sorted,
    views,
};

verus! {

/// A GitHub work session: consecutive activity on a repository.
#[derive(Debug)]
pub struct GitHubSession {
    pub id: String,
    /// Start and end, in seconds since the Unix epoch.
    pub start_time: i64,
    pub end_time: i64,
    pub duration_seconds: i64,
    pub repo: String,
    pub description: String,
    /// Jira issue keys mentioned by the session, comma-separated.
    pub jira_issues: String,
    pub event_ids: String,
    /// Day of the session (day number, see `calendar`).
    pub date: i32,
}

/// A GitHub activity event.
#[derive(Debug)]
pub struct GitHubEvent {
    pub id: String,
    pub event_type: String,
    pub repo: String,
    /// Seconds since the Unix epoch.
    pub timestamp: i64,
    pub description: String,
    /// Jira issue keys mentioned by the event, comma-separated.
    pub jira_issues: String,
    pub date: i32,
}

/// The issue keys a comma-separated list names: its non-empty pieces, in order.
pub open spec fn spec_issue_keys(list: Seq<char>) -> Seq<Seq<char>> {
    split_pieces(list, ',').filter(|k: Seq<char>| k.len() > 0)
}

/// Splits a comma-separated issue list into its non-empty keys.
pub fn split_issue_keys(list: &str) -> (keys: Vec<String>)
    ensures
        views(keys@) == spec_issue_keys(list@),
{
    let chars = chars_of(list);
    let pieces = split_chars(chars.as_slice(), ',');
    let ghost all = split_pieces(list@, ',');
    let ghost keep = |k: Seq<char>| k.len() > 0;
    let mut keys: Vec<String> = Vec::new();
    let mut i: usize = 0;
    while i < pieces.len()
        invariant
            0 <= i <= pieces@.len(),
            pieces@.len() == all.len(),
            forall|j: int| 0 <= j < pieces@.len() ==> (#[trigger] pieces@[j])@ == all[j],
            views(keys@) == all.take(i as int).filter(keep),
            keep == (|k: Seq<char>| k.len() > 0),
        decreases pieces@.len() - i,
    {
        proof {
            reveal_with_fuel(Seq::filter, 1);
            assert(all.take(i as int + 1).drop_last() =~= all.take(i as int));
            assert(all.take(i as int + 1).last() == pieces@[i as int]@);
        }
        if pieces[i].len() > 0 {
            let key = string_from_chars(pieces[i].as_slice());
            let ghost before = keys@;
            keys.push(key);
            assert(views(keys@) =~= views(before).push(pieces@[i as int]@));
        }
        i = i + 1;
    }
    proof {
        assert(all.take(all.len() as int) =~= all);
    }
    keys
}

impl GitHubSession {
    /// The Jira issue keys this session mentions.
    pub fn get_jira_issues(&self) -> (keys: Vec<String>)
        ensures
            views(keys@) == spec_issue_keys(self.jira_issues@),
    {
        split_issue_keys(self.jira_issues.as_str())
    }
}

impl GitHubEvent {
    /// The Jira issue keys this event mentions.
    pub fn get_jira_issues(&self) -> (keys: Vec<String>)
        ensures
            views(keys@) == spec_issue_keys(self.jira_issues@),
    {
        split_issue_keys(self.jira_issues.as_str())
    }
}

/// `k` is named by some session or some event.
pub open spec fn is_detected_key(sessions: Seq<GitHubSession>, events: Seq<GitHubEvent>, k: Seq<char>) -> bool {
    (exists|i: int| 0 <= i < sessions.len() && spec_issue_keys((#[trigger] sessions[i]).jira_issues@).contains(k))
        || (exists|i: int| 0 <= i < events.len() && spec_issue_keys((#[trigger] events[i]).jira_issues@).contains(k))
}

fn insert_all_sorted(set: &mut Vec<String>, keys: Vec<String>)
    requires
        strictly_sorted(views(old(set)@)),
    ensures
        strictly_sorted(views(final(set)@)),
        forall|k: Seq<char>| views(final(set)@).contains(k) <==> (views(old(set)@).contains(k) || views(keys@).contains(k)),
{
    let ghost start = views(set@);
    let ghost kv = views(keys@);
    let mut keys = keys;
    let ghost all_keys = keys@;
    let mut i: usize = 0;
    let n = keys.len();
    while i < n
        invariant
            n == all_keys.len(),
            0 <= i <= n,
            keys@.len() == n,
            forall|j: int| i <= j < n ==> keys@[j] == all_keys[j],
            kv == views(all_keys),
            strictly_sorted(views(set@)),
            forall|k: Seq<char>| #[trigger] views(set@).contains(k) <==> (start.contains(k) || views(all_keys.take(i as int)).contains(k)),
        decreases n - i,
    {
        let key = keys[i].clone();
        let ghost before = views(set@);
        insert_sorted(set, key);
        proof {
            let prev = views(all_keys.take(i as int));
            let next = views(all_keys.take(i as int + 1));
            assert(next =~= prev.push(all_keys[i as int]@));
            assert forall|k: Seq<char>| views(set@).contains(k) <==> (start.contains(k) || next.contains(k)) by {
                if next.contains(k) && k != all_keys[i as int]@ {
                    let p = choose|p: int| 0 <= p < next.len() && #[trigger] next[p] == k;
                    assert(prev[p] == k);
                }
                if prev.contains(k) {
                    let p = choose|p: int| 0 <= p < prev.len() && #[trigger] prev[p] == k;
                    assert(next[p] == k);
                }
                if k == all_keys[i as int]@ {
                    assert(next[i as int] == k);
                }
                assert(before.contains(k) <==> (start.contains(k) || prev.contains(k)));
            }
        }
        i = i + 1;
    }
    proof {
        assert(all_keys.take(n as int) =~= all_keys);
    }
}

/// Every Jira issue key that the sessions and events mention, each once, in ascending order.
pub fn collect_detected_github_issue_keys(sessions: &[GitHubSession], events: &[GitHubEvent]) -> (keys: Vec<String>)
    ensures
        strictly_sorted(views(keys@)),
        forall|k: Seq<char>| views(keys@).contains(k) <==> is_detected_key(sessions@, events@, k),
{
    let mut keys: Vec<String> = Vec::new();
    let mut i: usize = 0;
    while i < sessions.len()
        invariant
            0 <= i <= sessions@.len(),
            strictly_sorted(views(keys@)),
            forall|k: Seq<char>| views(keys@).contains(k) <==>
                (exists|j: int| 0 <= j < i && spec_issue_keys((#[trigger] sessions@[j]).jira_issues@).contains(k)),
        decreases sessions@.len() - i,
    {
        let found = sessions[i].get_jira_issues();
        let ghost before = views(keys@);
        let ghost fv = views(found@);
        insert_all_sorted(&mut keys, found);
        proof {
            assert forall|k: Seq<char>| views(keys@).contains(k) <==>
                (exists|j: int| 0 <= j < i + 1 && spec_issue_keys((#[trigger] sessions@[j]).jira_issues@).contains(k)) by {
                assert(before.contains(k) <==>
                    (exists|j: int| 0 <= j < i && spec_issue_keys((#[trigger] sessions@[j]).jira_issues@).contains(k)));
                if exists|j: int| 0 <= j < i + 1 && spec_issue_keys((#[trigger] sessions@[j]).jira_issues@).contains(k) {
                    let j = choose|j: int| 0 <= j < i + 1 && spec_issue_keys((#[trigger] sessions@[j]).jira_issues@).contains(k);
                    if j == i {
                        assert(fv.contains(k));
                    }
                }
                if fv.contains(k) {
                    assert(spec_issue_keys(sessions@[i as int].jira_issues@).contains(k));
                }
            }
        }
        i = i + 1;
    }
    let mut e: usize = 0;
    while e < events.len()
        invariant
            0 <= e <= events@.len(),
            strictly_sorted(views(keys@)),
            forall|k: Seq<char>| views(keys@).contains(k) <==>
                ((exists|j: int| 0 <= j < sessions@.len() && spec_issue_keys((#[trigger] sessions@[j]).jira_issues@).contains(k))
                || (exists|j: int| 0 <= j < e && spec_issue_keys((#[trigger] events@[j]).jira_issues@).contains(k))),
        decreases events@.len() - e,
    {
        let found = events[e].get_jira_issues();
        let ghost before = views(keys@);
        let ghost fv = views(found@);
        insert_all_sorted(&mut keys, found);
        proof {
            assert forall|k: Seq<char>| views(keys@).contains(k) <==>
                ((exists|j: int| 0 <= j < sessions@.len() && spec_issue_keys((#[trigger] sessions@[j]).jira_issues@).contains(k))
                || (exists|j: int| 0 <= j < e + 1 && spec_issue_keys((#[trigger] events@[j]).jira_issues@).contains(k))) by {
                assert(before.contains(k) <==>
                    ((exists|j: int| 0 <= j < sessions@.len() && spec_issue_keys((#[trigger] sessions@[j]).jira_issues@).contains(k))
                    || (exists|j: int| 0 <= j < e && spec_issue_keys((#[trigger] events@[j]).jira_issues@).contains(k))));
                if exists|j: int| 0 <= j < e + 1 && spec_issue_keys((#[trigger] events@[j]).jira_issues@).contains(k) {
                    let j = choose|j: int| 0 <= j < e + 1 && spec_issue_keys((#[trigger] events@[j]).jira_issues@).contains(k);
                    if j == e {
                        assert(fv.contains(k));
                    }
                }
                if fv.contains(k) {
                    assert(spec_issue_keys(events@[e as int].jira_issues@).contains(k));
                }
            }
        }
        e = e + 1;
    }
    keys
}

} // verus!

verus! {

/// How a detected Jira issue key was resolved.
#[derive(Debug, Clone, Copy, PartialEq, Eq, Structural)]
pub enum GitHubIssueValidation {
    /// Known from the local issue cache.
    Cached,
    /// Found by asking Jira.
    Remote,
    /// Unknown to Jira.
    Missing,
}

/// The validation recorded for key `k`: that of its first entry, if any.
pub open spec fn spec_lookup(validations: Seq<(String, GitHubIssueValidation)>, k: Seq<char>) -> Option<GitHubIssueValidation>
    decreases validations.len(),
{
    if validations.len() == 0 {
        None
    } else if validations[0].0@ == k {
        Some(validations[0].1)
    } else {
        spec_lookup(validations.drop_first(), k)
    }
}

/// No key occurs twice among the recorded validations, as in a map keyed by
/// issue key.
pub open spec fn distinct_keys(validations: Seq<(String, GitHubIssueValidation)>) -> bool {
    forall|a: int, b: int|
        #![trigger validations[a], validations[b]]
        0 <= a < b < validations.len() ==> validations[a].0@ != validations[b].0@
}

/// Where no key occurs twice, looking up the key of any entry gives that
/// entry's validation.
pub proof fn law_lookup_finds_each_entry(validations: Seq<(String, GitHubIssueValidation)>, i: int)
    requires
        distinct_keys(validations),
        0 <= i < validations.len(),
    ensures
        spec_lookup(validations, validations[i].0@) == Some(validations[i].1),
    decreases i,
{
    if i > 0 {
        let rest = validations.drop_first();
        assert(rest[i - 1] == validations[i]);
        assert(validations[0].0@ != validations[i].0@);
        assert forall|a: int, b: int| 0 <= a < b < rest.len() implies rest[a].0@ != rest[b].0@ by {
            assert(rest[a] == validations[a + 1]);
            assert(rest[b] == validations[b + 1]);
        }
        law_lookup_finds_each_entry(rest, i - 1);
    }
}

/// A key is usable unless it is known to be missing from Jira.
pub open spec fn key_usable(validations: Seq<(String, GitHubIssueValidation)>, k: Seq<char>) -> bool {
    spec_lookup(validations, k) != Some(GitHubIssueValidation::Missing)
}

/// Looks up the validation recorded for `key`.
pub fn lookup_validation(validations: &[(String, GitHubIssueValidation)], key: &str) -> (v: Option<GitHubIssueValidation>)
    ensures
        v == spec_lookup(validations@, key@),
{
    let mut i: usize = 0;
    assert(validations@.skip(0) =~= validations@);
    while i < validations.len()
        invariant
            0 <= i <= validations@.len(),
            spec_lookup(validations@, key@) == spec_lookup(validations@.skip(i as int), key@),
        decreases validations@.len() - i,
    {
        assert(validations@.skip(i as int)[0] == validations@[i as int]);
        if str_equal(validations[i].0.as_str(), key) {
            return Some(validations[i].1);
        }
        assert(validations@.skip(i as int).drop_first() =~= validations@.skip(i as int + 1));
        i = i + 1;
    }
    None
}

/// A session is worth showing when it names no issue, or names at least one usable issue.
pub open spec fn session_usable(session: GitHubSession, validations: Seq<(String, GitHubIssueValidation)>) -> bool {
    let keys = spec_issue_keys(session.jira_issues@);
    keys.len() == 0 || exists|i: int| 0 <= i < keys.len() && key_usable(validations, #[trigger] keys[i])
}

/// A field-by-field copy of a session.
pub fn copy_session(s: &GitHubSession) -> (c: GitHubSession)
    ensures
        c == *s,
{
    GitHubSession {
        id: s.id.clone(),
        start_time: s.start_time,
        end_time: s.end_time,
        duration_seconds: s.duration_seconds,
        repo: s.repo.clone(),
        description: s.description.clone(),
        jira_issues: s.jira_issues.clone(),
        event_ids: s.event_ids.clone(),
        date: s.date,
    }
}

fn any_key_usable(keys: &Vec<String>, validations: &[(String, GitHubIssueValidation)]) -> (b: bool)
    ensures
        b == exists|i: int| 0 <= i < keys@.len() && key_usable(validations@, #[trigger] views(keys@)[i]),
{
    let mut i: usize = 0;
    while i < keys.len()
        invariant
            0 <= i <= keys@.len(),
            forall|j: int| 0 <= j < i ==> !key_usable(validations@, #[trigger] views(keys@)[j]),
        decreases keys@.len() - i,
    {
        let v = lookup_validation(validations, keys[i].as_str());
        match v {
            Some(GitHubIssueValidation::Missing) => {},
            _ => {
                assert(key_usable(validations@, views(keys@)[i as int]));
                return true;
            },
        }
        i = i + 1;
    }
    false
}

/// Keeps the sessions that name no issue or at least one issue not known to be missing, in order.
pub fn filter_github_sessions_with_usable_issues(
    github_sessions: Vec<GitHubSession>,
    validations: &[(String, GitHubIssueValidation)],
) -> (kept: Vec<GitHubSession>)
    ensures
        kept@ == github_sessions@.filter(|s: GitHubSession| session_usable(s, validations@)),
{
    let ghost keep = |s: GitHubSession| session_usable(s, validations@);
    let mut kept: Vec<GitHubSession> = Vec::new();
    let mut i: usize = 0;
    while i < github_sessions.len()
        invariant
            0 <= i <= github_sessions@.len(),
            kept@ == github_sessions@.take(i as int).filter(keep),
            keep == (|s: GitHubSession| session_usable(s, validations@)),
        decreases github_sessions@.len() - i,
    {
        proof {
            reveal_with_fuel(Seq::filter, 1);
            assert(github_sessions@.take(i as int + 1).drop_last() =~= github_sessions@.take(i as int));
        }
        let keys = github_sessions[i].get_jira_issues();
        let usable = keys.len() == 0 || any_key_usable(&keys, validations);
        proof {
            let sk = spec_issue_keys(github_sessions@[i as int].jira_issues@);
            assert(views(keys@) == sk);
            assert(views(keys@).len() == keys@.len());
        }
        if usable {
            kept.push(copy_session(&github_sessions[i]));
        }
        i = i + 1;
    }
    proof {
        assert(github_sessions@.take(github_sessions@.len() as int) =~= github_sessions@);
    }
    kept
}

/// The issue keys of `session` that are not known to be missing from Jira, in order.
pub fn valid_github_issues_for_session(
    session: &GitHubSession,
    validations: &[(String, GitHubIssueValidation)],
) -> (keys: Vec<String>)
    ensures
        views(keys@) == spec_issue_keys(session.jira_issues@).filter(|k: Seq<char>| key_usable(validations@, k)),
{
    let all = session.get_jira_issues();
    let ghost av = views(all@);
    let ghost keep = |k: Seq<char>| key_usable(validations@, k);
    let mut keys: Vec<String> = Vec::new();
    let mut i: usize = 0;
    while i < all.len()
        invariant
            0 <= i <= all@.len(),
            av == views(all@),
            views(keys@) == av.take(i as int).filter(keep),
            keep == (|k: Seq<char>| key_usable(validations@, k)),
        decreases all@.len() - i,
    {
        proof {
            reveal_with_fuel(Seq::filter, 1);
            assert(av.take(i as int + 1).drop_last() =~= av.take(i as int));
            assert(av.take(i as int + 1).last() == all@[i as int]@);
        }
        let v = lookup_validation(validations, all[i].as_str());
        let missing = match v {
            Some(GitHubIssueValidation::Missing) => true,
            _ => false,
        };
        if !missing {
            let ghost before = keys@;
            keys.push(all[i].clone());
            assert(views(keys@) =~= views(before).push(all@[i as int]@));
        }
        i = i + 1;
    }
    proof {
        assert(av.take(av.len() as int) =~= av);
    }
    keys
}

/// Splits detected keys into those the local issue cache already knows
/// (validated as `Cached`) and those that must be looked up in Jira, both in order.
pub fn partition_detected_keys(keys: &[String], known: &[String]) -> (parts: (Vec<(String, GitHubIssueValidation)>, Vec<String>))
    ensures
        parts.0@.len() == keys@.filter(|k: String| views(known@).contains(k@)).len(),
        forall|i: int| 0 <= i < parts.0@.len() ==> (#[trigger] parts.0@[i]).1 == GitHubIssueValidation::Cached
            && parts.0@[i].0 == keys@.filter(|k: String| views(known@).contains(k@))[i],
        parts.1@ == keys@.filter(|k: String| !views(known@).contains(k@)),
{
    let ghost is_known = |k: String| views(known@).contains(k@);
    let ghost not_known = |k: String| !views(known@).contains(k@);
    let mut cached: Vec<(String, GitHubIssueValidation)> = Vec::new();
    let mut missing: Vec<String> = Vec::new();
    let mut i: usize = 0;
    while i < keys.len()
        invariant
            0 <= i <= keys@.len(),
            is_known == (|k: String| views(known@).contains(k@)),
            not_known == (|k: String| !views(known@).contains(k@)),
            cached@.len() == keys@.take(i as int).filter(is_known).len(),
            forall|j: int| 0 <= j < cached@.len() ==> (#[trigger] cached@[j]).1 == GitHubIssueValidation::Cached
                && cached@[j].0 == keys@.take(i as int).filter(is_known)[j],
            missing@ == keys@.take(i as int).filter(not_known),
        decreases keys@.len() - i,
    {
        proof {
            reveal_with_fuel(Seq::filter, 1);
            assert(keys@.take(i as int + 1).drop_last() =~= keys@.take(i as int));
        }
        let mut found = false;
        let mut j: usize = 0;
        while j < known.len()
            invariant
                0 <= j <= known@.len(),
                i < keys@.len(),
                found == exists|p: int| 0 <= p < j && known@[p]@ == keys@[i as int]@,
            decreases known@.len() - j,
        {
            if str_equal(known[j].as_str(), keys[i].as_str()) {
                found = true;
            }
            j = j + 1;
        }
        proof {
            if found {
                let p = choose|p: int| 0 <= p < known@.len() && known@[p]@ == keys@[i as int]@;
                assert(views(known@)[p] == keys@[i as int]@);
            }
            if views(known@).contains(keys@[i as int]@) {
                let p = choose|p: int| 0 <= p < views(known@).len() && views(known@)[p] == keys@[i as int]@;
                assert(known@[p]@ == keys@[i as int]@);
            }
        }
        if found {
            cached.push((keys[i].clone(), GitHubIssueValidation::Cached));
        } else {
            missing.push(keys[i].clone());
        }
        i = i + 1;
    }
    proof {
        assert(keys@.take(keys@.len() as int) =~= keys@);
    }
    (cached, missing)
}

/// The validation of a key looked up in Jira: `Remote` when Jira found it, else `Missing`.
pub fn fetched_validation(found: bool) -> (v: GitHubIssueValidation)
    ensures
        v == if found { GitHubIssueValidation::Remote } else { GitHubIssueValidation::Missing },
{
    if found { GitHubIssueValidation::Remote } else { GitHubIssueValidation::Missing }
}

/// The validation of a key looked up in Jira, from the key of the issue
/// Jira returned, if any.
pub open spec fn validation_of(found: Option<String>) -> GitHubIssueValidation {
    if found is Some { GitHubIssueValidation::Remote } else { GitHubIssueValidation::Missing }
}

/// `o` is the key `k`.
pub open spec fn found_as(o: Option<String>, k: Seq<char>) -> bool {
    match o {
        Some(f) => f@ == k,
        None => false,
    }
}

/// `k` is the key of one of the issues that Jira returned.
pub open spec fn fetched_key(fetched: Seq<Option<String>>, k: Seq<char>) -> bool {
    exists|i: int| 0 <= i < fetched.len() && found_as(#[trigger] fetched[i], k)
}

fn cache_contains(cache: &Vec<String>, key: &str) -> (b: bool)
    ensures
        b == views(cache@).contains(key@),
{
    let mut i: usize = 0;
    while i < cache.len()
        invariant
            0 <= i <= cache@.len(),
            forall|j: int| 0 <= j < i ==> (#[trigger] cache@[j])@ != key@,
        decreases cache@.len() - i,
    {
        if str_equal(cache[i].as_str(), key) {
            assert(views(cache@)[i as int] == key@);
            return true;
        }
        i = i + 1;
    }
    proof {
        if views(cache@).contains(key@) {
            let j = choose|j: int| 0 <= j < views(cache@).len() && views(cache@)[j] == key@;
            assert(cache@[j]@ == key@);
        }
    }
    false
}

/// Records what Jira answered for the keys the cache did not know:
/// `fetched[i]` is the key of the issue found for `missing[i]`, if Jira found
/// one. Each key gets its validation, appended in order, and each issue found
/// joins the issue cache (held as its keys, once each).
pub fn record_lookups(
    validations: &mut Vec<(String, GitHubIssueValidation)>,
    cache: &mut Vec<String>,
    missing: &[String],
    fetched: &[Option<String>],
)
    requires
        fetched@.len() == missing@.len(),
    ensures
        final(validations)@.len() == old(validations)@.len() + missing@.len(),
        forall|i: int| 0 <= i < old(validations)@.len() ==> #[trigger] final(validations)@[i] == old(validations)@[i],
        forall|i: int|
            0 <= i < missing@.len() ==> (#[trigger] final(validations)@[old(validations)@.len() + i]).0@ == missing@[i]@
                && final(validations)@[old(validations)@.len() + i].1 == validation_of(fetched@[i]),
        forall|k: Seq<char>|
            #[trigger] views(final(cache)@).contains(k) <==> (views(old(cache)@).contains(k) || fetched_key(fetched@, k)),
        views(old(cache)@).no_duplicates() ==> views(final(cache)@).no_duplicates(),
        (distinct_keys(old(validations)@) && views(missing@).no_duplicates() && (forall|a: int, b: int|
            0 <= a < old(validations)@.len() && 0 <= b < missing@.len() ==> (#[trigger] old(validations)@[a]).0@
                != (#[trigger] missing@[b])@)) ==> distinct_keys(final(validations)@),
{
    let ghost v0 = validations@;
    let ghost c0 = views(cache@);
    let mut i: usize = 0;
    while i < missing.len()
        invariant
            0 <= i <= missing@.len(),
            fetched@.len() == missing@.len(),
            validations@.len() == v0.len() + i,
            forall|j: int| 0 <= j < v0.len() ==> #[trigger] validations@[j] == v0[j],
            forall|j: int|
                0 <= j < i ==> (#[trigger] validations@[v0.len() + j]).0@ == missing@[j]@ && validations@[v0.len() + j].1
                    == validation_of(fetched@[j]),
            forall|k: Seq<char>|
                #[trigger] views(cache@).contains(k) <==> (c0.contains(k) || fetched_key(fetched@.take(i as int), k)),
            c0.no_duplicates() ==> views(cache@).no_duplicates(),
        decreases missing@.len() - i,
    {
        let v = match &fetched[i] {
            Some(_) => GitHubIssueValidation::Remote,
            None => GitHubIssueValidation::Missing,
        };
        let ghost before_v = validations@;
        validations.push((missing[i].clone(), v));
        assert(validations@[v0.len() + i as int] == (missing@[i as int], v));
        assert forall|j: int| 0 <= j < i implies (#[trigger] validations@[v0.len() + j]).0@ == missing@[j]@
            && validations@[v0.len() + j].1 == validation_of(fetched@[j]) by {
            assert(validations@[v0.len() + j] == before_v[v0.len() + j]);
        }
        let ghost before_c = views(cache@);
        match &fetched[i] {
            Some(f) => {
                if !cache_contains(cache, f.as_str()) {
                    cache.push(f.clone());
                    assert(views(cache@) =~= before_c.push(f@));
                }
                assert(views(cache@).contains(f@)) by {
                    if before_c.contains(f@) {
                        let j = choose|j: int| 0 <= j < before_c.len() && before_c[j] == f@;
                        assert(views(cache@)[j] == f@);
                    } else {
                        assert(views(cache@)[before_c.len() as int] == f@);
                    }
                }
            },
            None => {},
        }
        proof {
            assert forall|k: Seq<char>| #[trigger] views(cache@).contains(k) <==> (c0.contains(k) || fetched_key(fetched@.take(i + 1), k)) by {
                if fetched_key(fetched@.take(i as int), k) {
                    let j = choose|j: int| 0 <= j < fetched@.take(i as int).len() && found_as(#[trigger] fetched@.take(i as int)[j], k);
                    assert(fetched@.take(i + 1)[j] == fetched@.take(i as int)[j]);
                }
                if fetched_key(fetched@.take(i + 1), k) {
                    let j = choose|j: int| 0 <= j < fetched@.take(i + 1).len() && found_as(#[trigger] fetched@.take(i + 1)[j], k);
                    if j < i {
                        assert(fetched@.take(i as int)[j] == fetched@.take(i + 1)[j]);
                    } else {
                        assert(fetched@.take(i + 1)[j] == fetched@[i as int]);
                    }
                }
                if found_as(fetched@[i as int], k) {
                    assert(fetched@.take(i + 1)[i as int] == fetched@[i as int]);
                }
                if views(cache@).contains(k) && !before_c.contains(k) {
                    assert(fetched@[i as int] is Some);
                    let f = fetched@[i as int]->0;
                    assert(views(cache@) =~= before_c.push(f@));
                    let j = choose|j: int| 0 <= j < views(cache@).len() && views(cache@)[j] == k;
                    assert(j == before_c.len());
                    assert(fetched@.take(i + 1)[i as int] == fetched@[i as int]);
                }
                if before_c.contains(k) {
                    let j = choose|j: int| 0 <= j < before_c.len() && before_c[j] == k;
                    assert(views(cache@)[j] == k);
                }
            }
            if c0.no_duplicates() {
                assert(views(cache@).no_duplicates());
            }
        }
        i = i + 1;
    }
    proof {
        assert(fetched@.take(fetched@.len() as int) =~= fetched@);
        if distinct_keys(v0) && views(missing@).no_duplicates() && (forall|a: int, b: int|
            0 <= a < v0.len() && 0 <= b < missing@.len() ==> (#[trigger] v0[a]).0@ != (#[trigger] missing@[b])@) {
            assert forall|a: int, b: int| 0 <= a < b < validations@.len() implies validations@[a].0@
                != validations@[b].0@ by {
                if b < v0.len() {
                    assert(validations@[a] == v0[a]);
                    assert(validations@[b] == v0[b]);
                } else if a < v0.len() {
                    assert(validations@[a] == v0[a]);
                    assert(validations@[v0.len() + (b - v0.len())].0@ == missing@[b - v0.len()]@);
                } else {
                    assert(validations@[v0.len() + (a - v0.len())].0@ == missing@[a - v0.len()]@);
                    assert(validations@[v0.len() + (b - v0.len())].0@ == missing@[b - v0.len()]@);
                    assert(views(missing@)[a - v0.len()] == missing@[a - v0.len()]@);
                    assert(views(missing@)[b - v0.len()] == missing@[b - v0.len()]@);
                }
            }
        }
    }
}

/// Keeping only some of a list of keys that holds no key twice still holds
/// no key twice.
proof fn lemma_filter_keeps_keys_distinct(s: Seq<String>, p: spec_fn(String) -> bool)
    requires
        views(s).no_duplicates(),
    ensures
        views(s.filter(p)).no_duplicates(),
    decreases s.len(),
{
    reveal(Seq::filter);
    if s.len() > 0 {
        let rest = s.drop_last();
        let last = s.last();
        assert(s =~= rest.push(last));
        assert forall|i: int, j: int| 0 <= i < views(rest).len() && 0 <= j < views(rest).len() && i != j
            implies views(rest)[i] != views(rest)[j] by {
            assert(views(rest)[i] == views(s)[i]);
            assert(views(rest)[j] == views(s)[j]);
        }
        lemma_filter_keeps_keys_distinct(rest, p);
        rest.lemma_filter_push(last, p);
        if p(last) {
            let f = rest.filter(p);
            assert forall|i: int| 0 <= i < f.len() implies f[i]@ != last@ by {
                assert(f.contains(f[i]));
                rest.lemma_filter_contains_rev(p, f[i]);
                let j = choose|j: int| 0 <= j < rest.len() && rest[j] == f[i];
                assert(views(s)[j] == f[i]@);
                assert(views(s)[s.len() - 1] == last@);
            }
            assert forall|i: int, j: int| 0 <= i < views(f.push(last)).len() && 0 <= j < views(f.push(last)).len()
                && i != j implies views(f.push(last))[i] != views(f.push(last))[j] by {
                if i < f.len() && j < f.len() {
                    assert(views(f.push(last))[i] == views(f)[i]);
                    assert(views(f.push(last))[j] == views(f)[j]);
                } else if i < f.len() {
                    assert(views(f.push(last))[i] == f[i]@);
                    assert(views(f.push(last))[j] == last@);
                } else {
                    assert(views(f.push(last))[j] == f[j]@);
                    assert(views(f.push(last))[i] == last@);
                }
            }
        }
    }
}

/// Resolves the issue keys detected in GitHub activity: the keys the issue
/// cache `cache` knows are `Cached`, in order; then, in order, those it did
/// not know, each `Remote` or `Missing` as Jira answered (`fetched[i]` being
/// the key of the issue found for the `i`-th unknown key), and every issue
/// found joins the cache.
pub fn resolve_validations(keys: &[String], cache: &mut Vec<String>, fetched: &[Option<String>]) -> (validations: Vec<
    (String, GitHubIssueValidation),
>)
    requires
        fetched@.len() == keys@.filter(|k: String| !views(old(cache)@).contains(k@)).len(),
    ensures
        ({
            let known = keys@.filter(|k: String| views(old(cache)@).contains(k@));
            let unknown = keys@.filter(|k: String| !views(old(cache)@).contains(k@));
            &&& validations@.len() == known.len() + unknown.len()
            &&& forall|i: int| 0 <= i < known.len() ==> (#[trigger] validations@[i]).0 == known[i]
                && validations@[i].1 == GitHubIssueValidation::Cached
            &&& forall|i: int| 0 <= i < unknown.len() ==> (#[trigger] validations@[known.len() + i]).0@ == unknown[i]@
                && validations@[known.len() + i].1 == validation_of(fetched@[i])
            &&& forall|k: Seq<char>| #[trigger] views(final(cache)@).contains(k) <==> (views(old(cache)@).contains(k)
                || fetched_key(fetched@, k))
        }),
        views(keys@).no_duplicates() ==> distinct_keys(validations@),
{
    let ghost c0 = views(cache@);
    let ghost is_known = |k: String| c0.contains(k@);
    let ghost not_known = |k: String| !c0.contains(k@);
    let (mut validations, missing) = partition_detected_keys(keys, cache.as_slice());
    proof {
        if views(keys@).no_duplicates() {
            assert(keys@.filter(|k: String| views(cache@).contains(k@)) == keys@.filter(is_known));
            assert(missing@ == keys@.filter(not_known));
            lemma_filter_keeps_keys_distinct(keys@, is_known);
            lemma_filter_keeps_keys_distinct(keys@, not_known);
            let known = keys@.filter(is_known);
            assert forall|a: int, b: int| 0 <= a < b < validations@.len() implies validations@[a].0@
                != validations@[b].0@ by {
                assert(views(known)[a] == known[a]@);
                assert(views(known)[b] == known[b]@);
            }
            assert forall|a: int, b: int| 0 <= a < validations@.len() && 0 <= b < missing@.len() implies
                (#[trigger] validations@[a]).0@ != (#[trigger] missing@[b])@ by {
                keys@.lemma_filter_pred(is_known, a);
                keys@.lemma_filter_pred(not_known, b);
            }
        }
    }
    record_lookups(&mut validations, cache, missing.as_slice(), fetched);
    validations
}

} // verus!

verus! {

/// `s` with every trailing repetition of `suffix` removed (as `str::trim_end_matches` does).
pub open spec fn trim_suffix_all(s: Seq<char>, suffix: Seq<char>) -> Seq<char>
    decreases s.len(),
{
    if suffix.len() > 0 && s.len() >= suffix.len() && s.subrange(s.len() - suffix.len(), s.len() as int) == suffix {
        trim_suffix_all(s.subrange(0, s.len() - suffix.len()), suffix)
    } else {
        s
    }
}

/// The display name of a GitHub event type.
pub open spec fn spec_activity_name(event_type: Seq<char>) -> Seq<char> {
    if event_type == "PullRequestReviewEvent"@ || event_type == "PullRequestReviewCommentEvent"@ {
        "PR review"@
    } else if event_type == "PullRequestEvent"@ {
        "Pull request"@
    } else if event_type == "PushEvent"@ {
        "Push"@
    } else if event_type == "IssuesEvent"@ {
        "Issue"@
    } else if event_type == "IssueCommentEvent"@ {
        "Issue comment"@
    } else {
        trim_suffix_all(event_type, "Event"@)
    }
}

fn trim_trailing_event(event_type: &str) -> (s: String)
    ensures
        s@ == trim_suffix_all(event_type@, "Event"@),
{
    let chars = chars_of(event_type);
    let suffix = chars_of("Event");
    proof {
        reveal_strlit("Event");
    }
    let n = suffix.len();
    let mut end: usize = chars.len();
    assert(chars@.take(chars@.len() as int) =~= chars@);
    let mut done = false;
    while !done
        invariant
            end <= chars@.len(),
            suffix@ == "Event"@,
            n == 5,
            suffix@.len() == n,
            trim_suffix_all(event_type@, "Event"@) == if done { chars@.take(end as int) } else {
                trim_suffix_all(chars@.take(end as int), "Event"@)
            },
            chars@ == event_type@,
        decreases end + if done { 0int } else { 1int },
    {
        let mut matches = end >= n;
        if matches {
            let mut k: usize = 0;
            while k < n
                invariant
                    0 <= k <= n,
                    n == 5,
                    n <= end <= chars@.len(),
                    suffix@.len() == n,
                    matches == forall|j: int| 0 <= j < k ==> chars@[end - n + j] == suffix@[j],
                decreases n - k,
            {
                if chars[end - n + k] != suffix[k] {
                    matches = false;
                }
                k = k + 1;
            }
        }
        let ghost cur = chars@.take(end as int);
        if matches {
            assert(cur.subrange(cur.len() - 5, cur.len() as int) =~= suffix@);
            assert(cur.subrange(0, cur.len() - 5) =~= chars@.take(end - 5));
            end = end - n;
        } else {
            if end >= n {
                assert(!(cur.subrange(cur.len() - 5, cur.len() as int) =~= suffix@));
            }
            done = true;
        }
    }
    let mut out: Vec<char> = Vec::new();
    let mut i: usize = 0;
    while i < end
        invariant
            0 <= i <= end,
            end <= chars@.len(),
            out@ == chars@.take(i as int),
        decreases end - i,
    {
        out.push(chars[i]);
        assert(chars@.take(i as int + 1) =~= chars@.take(i as int).push(chars@[i as int]));
        i = i + 1;
    }
    string_from_chars(out.as_slice())
}

/// Names a GitHub event type for the activity list.
pub fn normalized_activity_name(event_type: &str) -> (name: String)
    ensures
        name@ == spec_activity_name(event_type@),
{
    broadcast use vstd::string::group_string_axioms;
    if str_equal(event_type, "PullRequestReviewEvent") || str_equal(event_type, "PullRequestReviewCommentEvent") {
        "PR review".to_string()
    } else if str_equal(event_type, "PullRequestEvent") {
        "Pull request".to_string()
    } else if str_equal(event_type, "PushEvent") {
        "Push".to_string()
    } else if str_equal(event_type, "IssuesEvent") {
        "Issue".to_string()
    } else if str_equal(event_type, "IssueCommentEvent") {
        "Issue comment".to_string()
    } else {
        trim_trailing_event(event_type)
    }
}

/// A run of consecutive events of one kind on the same issues.
pub struct ActivityGroup {
    pub activity_name: String,
    pub start_time: i64,
    pub end_time: i64,
    pub issue_keys: Vec<String>,
    pub count: usize,
}

/// What an activity group shows.
pub struct ActivityGroupView {
    pub activity_name: Seq<char>,
    pub start_time: i64,
    pub end_time: i64,
    pub issue_keys: Seq<Seq<char>>,
    pub count: nat,
}

impl ActivityGroup {
    pub open spec fn view(&self) -> ActivityGroupView {
        ActivityGroupView {
            activity_name: self.activity_name@,
            start_time: self.start_time,
            end_time: self.end_time,
            issue_keys: views(self.issue_keys@),
            count: self.count as nat,
        }
    }
}

/// The groups of `events`, taken in order: an event joins the last group
/// when it has the same activity name and the same issue keys (extending
/// the group's end time), and otherwise starts a new group.
pub open spec fn spec_group_events(events: Seq<GitHubEvent>) -> Seq<ActivityGroupView>
    decreases events.len(),
{
    if events.len() == 0 {
        Seq::empty()
    } else {
        let groups = spec_group_events(events.drop_last());
        let e = events.last();
        let name = spec_activity_name(e.event_type@);
        let keys = spec_issue_keys(e.jira_issues@);
        if groups.len() > 0 && groups.last().activity_name == name && groups.last().issue_keys == keys {
            groups.update(
                groups.len() - 1,
                ActivityGroupView { end_time: e.timestamp, count: groups.last().count + 1, ..groups.last() },
            )
        } else {
            groups.push(ActivityGroupView { activity_name: name, start_time: e.timestamp, end_time: e.timestamp, issue_keys: keys, count: 1 })
        }
    }
}

/// A GitHub review, or a comment made in one.
pub open spec fn is_review_event_type(event_type: Seq<char>) -> bool {
    event_type == "PullRequestReviewEvent"@ || event_type == "PullRequestReviewCommentEvent"@
}

/// Both kinds of review event are named `PR review`, so an event of either
/// kind that follows one of either kind on the same issues joins its group:
/// the list keeps its number of groups, and the last group counts one more
/// event and ends at the new one.
pub proof fn law_review_events_share_a_group(events: Seq<GitHubEvent>, x: GitHubEvent, y: GitHubEvent)
    requires
        is_review_event_type(x.event_type@),
        is_review_event_type(y.event_type@),
        y.jira_issues@ == x.jira_issues@,
    ensures
        ({
            let before = spec_group_events(events.push(x));
            let after = spec_group_events(events.push(x).push(y));
            &&& before.len() > 0
            &&& after.len() == before.len()
            &&& after.last().activity_name == "PR review"@
            &&& after.last().count == before.last().count + 1
            &&& after.last().start_time == before.last().start_time
            &&& after.last().end_time == y.timestamp
            &&& after.drop_last() == before.drop_last()
        }),
{
    assert(events.push(x).drop_last() =~= events);
    assert(events.push(x).push(y).drop_last() =~= events.push(x));
    let before = spec_group_events(events.push(x));
    assert(before.last().activity_name == spec_activity_name(x.event_type@));
    assert(before.last().issue_keys == spec_issue_keys(x.jira_issues@));
    let after = spec_group_events(events.push(x).push(y));
    assert(after.drop_last() =~= before.drop_last());
}

proof fn lemma_group_counts_bounded(events: Seq<GitHubEvent>)
    ensures
        forall|i: int| 0 <= i < spec_group_events(events).len() ==> (#[trigger] spec_group_events(events)[i]).count <= events.len(),
    decreases events.len(),
{
    if events.len() > 0 {
        lemma_group_counts_bounded(events.drop_last());
        let g = spec_group_events(events.drop_last());
        if g.len() > 0 {
            assert(g[g.len() - 1].count <= events.len() - 1);
        }
    }
}

fn string_seqs_equal(a: &Vec<String>, b: &Vec<String>) -> (eq: bool)
    ensures
        eq == (views(a@) == views(b@)),
{
    if a.len() != b.len() {
        assert(views(a@).len() != views(b@).len());
        return false;
    }
    let mut i: usize = 0;
    while i < a.len()
        invariant
            0 <= i <= a@.len(),
            a@.len() == b@.len(),
            forall|j: int| 0 <= j < i ==> a@[j]@ == b@[j]@,
        decreases a@.len() - i,
    {
        if a[i] != b[i] {
            assert(views(a@)[i as int] != views(b@)[i as int]);
            return false;
        }
        i = i + 1;
    }
    assert(views(a@) =~= views(b@));
    true
}

/// Groups consecutive events of the same kind on the same issues.
pub fn group_activity_events(events: &[GitHubEvent]) -> (groups: Vec<ActivityGroup>)
    ensures
        groups@.len() == spec_group_events(events@).len(),
        forall|i: int| 0 <= i < groups@.len() ==> (#[trigger] groups@[i]).view() == spec_group_events(events@)[i],
{
    let mut groups: Vec<ActivityGroup> = Vec::new();
    let mut i: usize = 0;
    while i < events.len()
        invariant
            0 <= i <= events@.len(),
            groups@.len() == spec_group_events(events@.take(i as int)).len(),
            forall|j: int| 0 <= j < groups@.len() ==> (#[trigger] groups@[j]).view() == spec_group_events(events@.take(i as int))[j],
        decreases events@.len() - i,
    {
        proof {
            assert(events@.take(i as int + 1).drop_last() =~= events@.take(i as int));
            lemma_group_counts_bounded(events@.take(i as int));
        }
        let issue_keys = events[i].get_jira_issues();
        let activity_name = normalized_activity_name(events[i].event_type.as_str());
        let ghost before = spec_group_events(events@.take(i as int));
        let n = groups.len();
        let mut joined = false;
        if n > 0 {
            let same_name = str_equal(groups[n - 1].activity_name.as_str(), activity_name.as_str());
            let same_keys = string_seqs_equal(&groups[n - 1].issue_keys, &issue_keys);
            if same_name && same_keys {
                assert(groups@[n - 1].view() == before.last());
                let mut last = groups.pop().unwrap();
                last.end_time = events[i].timestamp;
                last.count = last.count + 1;
                groups.push(last);
                joined = true;
            }
        }
        if !joined {
            groups.push(ActivityGroup {
                activity_name,
                start_time: events[i].timestamp,
                end_time: events[i].timestamp,
                issue_keys,
                count: 1,
            });
        }
        proof {
            let after = spec_group_events(events@.take(i as int + 1));
            assert(groups@.len() == after.len());
            assert forall|j: int| 0 <= j < groups@.len() implies (#[trigger] groups@[j]).view() == after[j] by {
                if j < groups@.len() - 1 {
                    assert(groups@[j].view() == before[j]);
                }
            }
        }
        i = i + 1;
    }
    proof {
        assert(events@.take(events@.len() as int) =~= events@);
    }
    groups
}

/// The repositories a session touched: those of its events, each once and in
/// ascending order, or the session's own repository when it has no events.
pub fn collect_session_repos(session: &GitHubSession, activity_events: &[GitHubEvent]) -> (repos: Vec<String>)
    ensures
        activity_events@.len() == 0 ==> views(repos@) == seq![session.repo@],
        activity_events@.len() > 0 ==> strictly_sorted(views(repos@))
            && forall|k: Seq<char>| views(repos@).contains(k)
                <==> exists|i: int| 0 <= i < activity_events@.len() && (#[trigger] activity_events@[i]).repo@ == k,
{
    let mut repos: Vec<String> = Vec::new();
    let mut i: usize = 0;
    while i < activity_events.len()
        invariant
            0 <= i <= activity_events@.len(),
            strictly_sorted(views(repos@)),
            forall|k: Seq<char>| #[trigger] views(repos@).contains(k)
                <==> exists|j: int| 0 <= j < i && (#[trigger] activity_events@[j]).repo@ == k,
            i > 0 ==> repos@.len() > 0,
            i == 0 ==> repos@.len() == 0,
        decreases activity_events@.len() - i,
    {
        let ghost before = views(repos@);
        insert_sorted(&mut repos, activity_events[i].repo.clone());
        proof {
            assert forall|k: Seq<char>| #[trigger] views(repos@).contains(k)
                <==> exists|j: int| 0 <= j < i + 1 && (#[trigger] activity_events@[j]).repo@ == k by {
                assert(before.contains(k) <==> exists|j: int| 0 <= j < i && (#[trigger] activity_events@[j]).repo@ == k);
            }
            assert(views(repos@).contains(activity_events@[i as int].repo@));
        }
        i = i + 1;
    }
    if repos.len() == 0 {
        repos.push(session.repo.clone());
        assert(views(repos@) =~= seq![session.repo@]);
    }
    repos
}

} // verus!
