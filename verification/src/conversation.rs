//! How stored conversations are read: which messages a query shows, which
//! match a search, and how a conversation is labelled.

use vstd::prelude::*;

use crate::context::{contains_text, keys_view, same_key, str_contains, MessageInfo};
use crate::identity::{encode_npub, npub_encode};

verus! {

/// How many messages to fetch: all recent ones (up to 10 000) when a time
/// window is given, else just `limit`.
pub fn message_fetch_limit(limit: usize, before: Option<u64>, after: Option<u64>) -> (n: usize)
    ensures
        n == if before is Some || after is Some {
            10_000
        } else {
            limit
        },
{
    if before.is_some() || after.is_some() {
        10_000
    } else {
        limit
    }
}

/// Whether a message lies strictly inside the time window.
pub open spec fn in_window(m: MessageInfo, before: Option<u64>, after: Option<u64>) -> bool {
    &&& (before matches Some(b) ==> m.created_at < b)
    &&& (after matches Some(a) ==> m.created_at > a)
}

/// The messages inside the window, in their order.
pub open spec fn window_spec(s: Seq<MessageInfo>, before: Option<u64>, after: Option<u64>) -> Seq<
    MessageInfo,
>
    decreases s.len(),
{
    if s.len() == 0 {
        s
    } else if in_window(s.last(), before, after) {
        window_spec(s.drop_last(), before, after).push(s.last())
    } else {
        window_spec(s.drop_last(), before, after)
    }
}

/// The first `limit` elements (all of them when there are fewer).
pub open spec fn first_n<A>(s: Seq<A>, limit: nat) -> Seq<A> {
    if s.len() <= limit {
        s
    } else {
        s.take(limit as int)
    }
}

/// Keep the messages inside the time window, then at most `limit` of them.
pub fn select_messages(messages: Vec<MessageInfo>, before: Option<u64>, after: Option<u64>, limit: usize) -> (r: Vec<MessageInfo>)
    ensures
        r@ == first_n(window_spec(messages@, before, after), limit as nat),
{
    let ghost all = messages@;
    let mut rest = messages;
    let mut kept: Vec<MessageInfo> = Vec::new();
    let n = rest.len();
    let mut k: usize = 0;
    assert(all.take(0) =~= Seq::<MessageInfo>::empty());
    assert(all.skip(0) =~= all);
    while k < n
        invariant
            n == all.len(),
            k <= n,
            rest@ == all.skip(k as int),
            kept@ == window_spec(all.take(k as int), before, after),
        decreases n - k,
    {
        let m = rest.remove(0);
        proof {
            assert(all.take(k + 1).drop_last() =~= all.take(k as int));
            assert(all.take(k + 1).last() == m);
            assert(rest@ =~= all.skip(k + 1));
        }
        let inside = match before {
            Some(b) => m.created_at < b,
            None => true,
        } && match after {
            Some(a) => m.created_at > a,
            None => true,
        };
        if inside {
            kept.push(m);
        }
        k = k + 1;
    }
    assert(all.take(n as int) =~= all);
    kept.truncate(limit);
    kept
}

/// The lower-case form of a text, as `str::to_lowercase` gives it (Unicode
/// `Lowercase` mapping).
pub uninterp spec fn to_lower(s: Seq<char>) -> Seq<char>;

/// `str::to_lowercase`.
#[verifier::external_body]
fn lowercase(s: &str) -> (r: String)
    ensures
        r@ == to_lower(s@),
{
    s.to_lowercase()
}

/// A message matches a query when its lower-cased content contains the
/// lower-cased query.
pub open spec fn matches_query(m: MessageInfo, query: Seq<char>) -> bool {
    contains_text(to_lower(m.content@), to_lower(query))
}

/// The messages that match a query, in their order.
pub open spec fn search_spec(s: Seq<MessageInfo>, query: Seq<char>) -> Seq<MessageInfo>
    decreases s.len(),
{
    if s.len() == 0 {
        s
    } else if matches_query(s.last(), query) {
        search_spec(s.drop_last(), query).push(s.last())
    } else {
        search_spec(s.drop_last(), query)
    }
}

/// Case-insensitive substring search over messages: the first `limit`
/// matches, in order.
pub fn search_messages(messages: Vec<MessageInfo>, query: &str, limit: usize) -> (r: Vec<MessageInfo>)
    ensures
        r@ == first_n(search_spec(messages@, query@), limit as nat),
{
    let q = lowercase(query);
    let ghost all = messages@;
    let mut rest = messages;
    let mut hits: Vec<MessageInfo> = Vec::new();
    let n = rest.len();
    let mut k: usize = 0;
    assert(all.take(0) =~= Seq::<MessageInfo>::empty());
    assert(all.skip(0) =~= all);
    while k < n
        invariant
            n == all.len(),
            k <= n,
            q@ == to_lower(query@),
            rest@ == all.skip(k as int),
            hits@ == search_spec(all.take(k as int), query@),
        decreases n - k,
    {
        let m = rest.remove(0);
        proof {
            assert(all.take(k + 1).drop_last() =~= all.take(k as int));
            assert(all.take(k + 1).last() == m);
            assert(rest@ =~= all.skip(k + 1));
        }
        let content = lowercase(m.content.as_str());
        if str_contains(content.as_str(), q.as_str()) {
            hits.push(m);
        }
        k = k + 1;
    }
    assert(all.take(n as int) =~= all);
    hits.truncate(limit);
    hits
}

/// The name a group is shown under: its own, or `<Direct Message>` when it
/// has none.
pub open spec fn display_name_spec(name: Seq<char>) -> Seq<char> {
    if name.len() == 0 {
        "<Direct Message>"@
    } else {
        name
    }
}

/// The name a group is shown under.
pub fn display_name(name: &str) -> (r: String)
    ensures
        r@ == display_name_spec(name@),
{
    if name.unicode_len() == 0 {
        String::from_str("<Direct Message>")
    } else {
        String::from_str(name)
    }
}

/// The first member that is not us.
pub open spec fn first_other(members: Seq<Seq<u8>>, ours: Seq<u8>, i: int) -> bool {
    &&& 0 <= i < members.len()
    &&& members[i] != ours
    &&& forall|j: int| 0 <= j < i ==> members[j] == ours
}

/// The label of a conversation in a list: a named group by its name; a
/// direct message by the npub of the other member (`<DM with npub..>`), or
/// `<Direct Message>` when the members are unknown or are all us.
pub fn conversation_label(name: &str, members: Option<Vec<[u8; 32]>>, ours: &[u8; 32]) -> (r: String)
    ensures
        name@.len() > 0 ==> r@ == name@,
        name@.len() == 0 ==> match members {
            Some(ms) => (exists|i: int| #[trigger] first_other(keys_view(ms@), ours@, i) && r@ == "<DM with "@
                + npub_encode(ms@[i]@) + ">"@) || ((forall|j: int|
                0 <= j < ms@.len() ==> ms@[j]@ == ours@) && r@ == "<Direct Message>"@),
            None => r@ == "<Direct Message>"@,
        },
{
    if name.unicode_len() > 0 {
        return String::from_str(name);
    }
    match members {
        None => String::from_str("<Direct Message>"),
        Some(ms) => {
            let mut i: usize = 0;
            while i < ms.len()
                invariant
                    name@.len() == 0,
                    members == Some(ms),
                    i <= ms@.len(),
                    forall|j: int| 0 <= j < i ==> ms@[j]@ == ours@,
                decreases ms@.len() - i,
            {
                if !same_key(&ms[i], ours) {
                    let npub = encode_npub(&ms[i]);
                    let mut label = String::from_str("<DM with ");
                    label.append(npub.as_str());
                    label.append(">");
                    assert(first_other(keys_view(ms@), ours@, i as int)) by {
                        assert forall|j: int| 0 <= j < i implies keys_view(ms@)[j] == ours@ by {
                            assert(keys_view(ms@)[j] == ms@[j]@);
                        }
                    }
                    assert(label@ == "<DM with "@ + npub_encode(ms@[i as int]@) + ">"@);
                    return label;
                }
                i = i + 1;
            }
            String::from_str("<Direct Message>")
        },
    }
}

/// The label of a conversation in the list of recent conversations: as
/// `conversation_label`, but a direct message shows only the first 20
/// characters of the other member's npub.
pub fn short_conversation_label(name: &str, members: Option<Vec<[u8; 32]>>, ours: &[u8; 32]) -> (r: String)
    ensures
        name@.len() > 0 ==> r@ == name@,
        name@.len() == 0 ==> match members {
            Some(ms) => (exists|i: int| #[trigger] first_other(keys_view(ms@), ours@, i) && r@ == "<DM with "@
                + first_n(npub_encode(ms@[i]@), 20) + ">"@) || ((forall|j: int|
                0 <= j < ms@.len() ==> ms@[j]@ == ours@) && r@ == "<Direct Message>"@),
            None => r@ == "<Direct Message>"@,
        },
{
    if name.unicode_len() > 0 {
        return String::from_str(name);
    }
    match members {
        None => String::from_str("<Direct Message>"),
        Some(ms) => {
            let mut i: usize = 0;
            while i < ms.len()
                invariant
                    name@.len() == 0,
                    members == Some(ms),
                    i <= ms@.len(),
                    forall|j: int| 0 <= j < i ==> ms@[j]@ == ours@,
                decreases ms@.len() - i,
            {
                if !same_key(&ms[i], ours) {
                    let npub = encode_npub(&ms[i]);
                    let short = leading_chars(npub.as_str(), 20);
                    let mut label = String::from_str("<DM with ");
                    label.append(short.as_str());
                    label.append(">");
                    assert(first_other(keys_view(ms@), ours@, i as int)) by {
                        assert forall|j: int| 0 <= j < i implies keys_view(ms@)[j] == ours@ by {
                            assert(keys_view(ms@)[j] == ms@[j]@);
                        }
                    }
                    assert(label@ == "<DM with "@ + first_n(npub_encode(ms@[i as int]@), 20) + ">"@);
                    return label;
                }
                i = i + 1;
            }
            String::from_str("<Direct Message>")
        },
    }
}

/// The first `n` characters of a text (all of it when it is shorter).
pub fn leading_chars(text: &str, n: usize) -> (r: String)
    ensures
        r@ == first_n(text@, n as nat),
{
    let len = text.unicode_len();
    let end = if n < len {
        n
    } else {
        len
    };
    let r = String::from_str(text.substring_char(0, end));
    assert(first_n(text@, n as nat) =~= text@.subrange(0, end as int));
    r
}

/// The preview of a message in the conversation list: its first sixty
/// characters, with an ellipsis when its text is longer than sixty bytes.
pub fn message_preview(content: &str) -> (r: String)
    ensures
        r@ == first_n(content@, 60) + if content.len() > 60 {
            "\u{2026}"@
        } else {
            ""@
        },
{
    let mut r = leading_chars(content, 60);
    if content.len() > 60 {
        r.append("\u{2026}");
    } else {
        proof {
            reveal_strlit("");
        }
        assert(r@ + ""@ =~= r@);
    }
    r
}

/// Whether conversation `a` is listed before `b`: more recent last message
/// first, and in the order given when equally recent.
pub open spec fn listed_before(last: Seq<u64>, a: usize, b: usize) -> bool {
    last[a as int] > last[b as int] || (last[a as int] == last[b as int] && a < b)
}

/// The order in which conversations are listed, given the time of each one's
/// last message: every index once, most recent first, ties in the order given.
pub fn recent_first(last: &Vec<u64>) -> (order: Vec<usize>)
    ensures
        order@.len() == last@.len(),
        forall|i: int| 0 <= i < order@.len() ==> order@[i] < last@.len(),
        forall|m: usize| m < last@.len() ==> #[trigger] order@.contains(m),
        forall|i: int, j: int|
            0 <= i < j < order@.len() ==> listed_before(last@, #[trigger] order@[i], #[trigger] order@[j]),
{
    let mut order: Vec<usize> = Vec::new();
    let n = last.len();
    let mut k: usize = 0;
    while k < n
        invariant
            n == last@.len(),
            k <= n,
            order@.len() == k,
            forall|i: int| 0 <= i < order@.len() ==> order@[i] < k,
            forall|m: usize| m < k ==> #[trigger] order@.contains(m),
            forall|i: int, j: int|
                0 <= i < j < order@.len() ==> listed_before(last@, #[trigger] order@[i], #[trigger] order@[j]),
        decreases n - k,
    {
        let mut p: usize = 0;
        while p < order.len() && last[order[p]] >= last[k]
            invariant
                n == last@.len(),
                k < n,
                p <= order@.len(),
                forall|i: int| 0 <= i < order@.len() ==> order@[i] < k,
                forall|j: int| 0 <= j < p ==> last@[order@[j] as int] >= last@[k as int],
            decreases order@.len() - p,
        {
            p = p + 1;
        }
        let ghost before = order@;
        order.insert(p, k);
        proof {
            assert(order@ =~= before.insert(p as int, k));
            assert forall|i: int, j: int| 0 <= i < j < order@.len() implies listed_before(
                last@,
                #[trigger] order@[i],
                #[trigger] order@[j],
            ) by {
                if j < p {
                    assert(order@[i] == before[i] && order@[j] == before[j]);
                } else if j == p {
                    assert(order@[i] == before[i]);
                } else if i == p {
                    assert(order@[j] == before[j - 1]);
                    assert(last@[before[p as int] as int] < last@[k as int]);
                    if j - 1 > p {
                        assert(listed_before(last@, before[p as int], before[j - 1]));
                    }
                } else if i < p {
                    assert(order@[i] == before[i] && order@[j] == before[j - 1]);
                } else {
                    assert(order@[i] == before[i - 1] && order@[j] == before[j - 1]);
                }
            }
            assert forall|m: usize| m < k + 1 implies #[trigger] order@.contains(m) by {
                if m == k {
                    assert(order@[p as int] == k);
                } else {
                    assert(before.contains(m));
                    let t = choose|t: int| 0 <= t < before.len() && before[t] == m;
                    if t < p {
                        assert(order@[t] == m);
                    } else {
                        assert(order@[t + 1] == m);
                    }
                }
            }
        }
        k = k + 1;
    }
    order
}

proof fn lemma_window_members(s: Seq<MessageInfo>, before: Option<u64>, after: Option<u64>)
    ensures
        window_spec(s, before, after).len() <= s.len(),
        forall|k: int|
            0 <= k < window_spec(s, before, after).len() ==> in_window(
                #[trigger] window_spec(s, before, after)[k],
                before,
                after,
            ) && s.contains(window_spec(s, before, after)[k]),
    decreases s.len(),
{
    if s.len() > 0 {
        let init = s.drop_last();
        lemma_window_members(init, before, after);
        let w = window_spec(init, before, after);
        assert forall|k: int| 0 <= k < window_spec(s, before, after).len() implies in_window(
            #[trigger] window_spec(s, before, after)[k],
            before,
            after,
        ) && s.contains(window_spec(s, before, after)[k]) by {
            if k < w.len() {
                assert(window_spec(s, before, after)[k] == w[k]);
                let t = choose|t: int| 0 <= t < init.len() && init[t] == w[k];
                assert(s[t] == w[k]);
            } else {
                assert(window_spec(s, before, after)[k] == s.last());
                assert(s[s.len() - 1] == s.last());
            }
        }
    }
}

proof fn lemma_first_n_members<A>(s: Seq<A>, limit: nat)
    ensures
        first_n(s, limit).len() <= limit,
        first_n(s, limit).len() <= s.len(),
        forall|k: int| 0 <= k < first_n(s, limit).len() ==> #[trigger] first_n(s, limit)[k] == s[k],
{
}

/// A conversation view shows at most `limit` messages, each one of the
/// conversation's and inside the requested time window.
pub proof fn law_selection_within_window(
    s: Seq<MessageInfo>,
    before: Option<u64>,
    after: Option<u64>,
    limit: nat,
)
    ensures
        first_n(window_spec(s, before, after), limit).len() <= limit,
        forall|k: int|
            0 <= k < first_n(window_spec(s, before, after), limit).len() ==> in_window(
                #[trigger] first_n(window_spec(s, before, after), limit)[k],
                before,
                after,
            ) && s.contains(first_n(window_spec(s, before, after), limit)[k]),
{
    lemma_window_members(s, before, after);
    lemma_first_n_members(window_spec(s, before, after), limit);
    assert forall|k: int| 0 <= k < first_n(window_spec(s, before, after), limit).len() implies in_window(
        #[trigger] first_n(window_spec(s, before, after), limit)[k],
        before,
        after,
    ) && s.contains(first_n(window_spec(s, before, after), limit)[k]) by {
        assert(first_n(window_spec(s, before, after), limit)[k] == window_spec(s, before, after)[k]);
    }
}

proof fn lemma_search_members(s: Seq<MessageInfo>, query: Seq<char>)
    ensures
        forall|k: int|
            0 <= k < search_spec(s, query).len() ==> matches_query(
                #[trigger] search_spec(s, query)[k],
                query,
            ) && s.contains(search_spec(s, query)[k]),
    decreases s.len(),
{
    if s.len() > 0 {
        let init = s.drop_last();
        lemma_search_members(init, query);
        let w = search_spec(init, query);
        assert forall|k: int| 0 <= k < search_spec(s, query).len() implies matches_query(
            #[trigger] search_spec(s, query)[k],
            query,
        ) && s.contains(search_spec(s, query)[k]) by {
            if k < w.len() {
                assert(search_spec(s, query)[k] == w[k]);
                let t = choose|t: int| 0 <= t < init.len() && init[t] == w[k];
                assert(s[t] == w[k]);
            } else {
                assert(search_spec(s, query)[k] == s.last());
                assert(s[s.len() - 1] == s.last());
            }
        }
    }
}

/// A search returns at most `limit` messages, each one of the searched
/// messages and containing the query, ignoring case.
pub proof fn law_search_hits_match(s: Seq<MessageInfo>, query: Seq<char>, limit: nat)
    ensures
        first_n(search_spec(s, query), limit).len() <= limit,
        forall|k: int|
            0 <= k < first_n(search_spec(s, query), limit).len() ==> matches_query(
                #[trigger] first_n(search_spec(s, query), limit)[k],
                query,
            ) && s.contains(first_n(search_spec(s, query), limit)[k]),
{
    lemma_search_members(s, query);
    lemma_first_n_members(search_spec(s, query), limit);
    assert forall|k: int| 0 <= k < first_n(search_spec(s, query), limit).len() implies matches_query(
        #[trigger] first_n(search_spec(s, query), limit)[k],
        query,
    ) && s.contains(first_n(search_spec(s, query), limit)[k]) by {
        assert(first_n(search_spec(s, query), limit)[k] == search_spec(s, query)[k]);
    }
}

} // verus!
