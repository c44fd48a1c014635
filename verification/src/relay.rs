//! Relay bookkeeping: the default relays, which relay URLs are usable, how
//! relay lists are merged, and the per-relay report of a publication.

use vstd::prelude::*;

use crate::{default_relay_list, string_views};

verus! {

/// Default relay list inherited from the White Noise messenger.
pub const DEFAULT_RELAYS: [&'static str; 3] = ["wss://nos.lol", "wss://relay.primal.net", "wss://relay.damus.io"];

/// Whether `nostr::RelayUrl::parse` accepts a text: a URL with a single
/// `://` whose scheme is `ws` or `wss`.
pub uninterp spec fn relay_url_accepted(url: Seq<char>) -> bool;

/// The text of the URL that `nostr::RelayUrl::parse` makes of an accepted
/// text, without a trailing slash (`as_str_without_trailing_slash`: the
/// normalised URL, by which relays are told apart).
pub uninterp spec fn relay_url_text(url: Seq<char>) -> Seq<char>;

/// `nostr::RelayUrl::parse`; the URL, with its text, when it is accepted.
#[verifier::external_body]
fn parse_relay_url(url: &str) -> (r: Option<(nostr::RelayUrl, String)>)
    ensures
        r is Some <==> relay_url_accepted(url@),
        r matches Some(p) ==> p.1@ == relay_url_text(url@),
{
    match nostr::RelayUrl::parse(url) {
        Ok(u) => {
            let text = u.as_str_without_trailing_slash().to_string();
            Some((u, text))
        },
        Err(_) => None,
    }
}

/// How many of the texts are accepted relay URLs.
pub open spec fn accepted_count(urls: Seq<Seq<char>>) -> nat
    decreases urls.len(),
{
    if urls.len() == 0 {
        0
    } else {
        accepted_count(urls.drop_last()) + if relay_url_accepted(urls.last()) {
            1nat
        } else {
            0nat
        }
    }
}

/// The relay URLs among the texts, in their order (texts that are no relay
/// URL are left out).
pub fn relay_urls(urls: &Vec<String>) -> (r: Vec<nostr::RelayUrl>)
    ensures
        r@.len() == accepted_count(string_views(urls@)),
{
    let ghost uv = string_views(urls@);
    let mut r: Vec<nostr::RelayUrl> = Vec::new();
    let mut i: usize = 0;
    while i < urls.len()
        invariant
            uv == string_views(urls@),
            i <= urls@.len(),
            r@.len() == accepted_count(uv.take(i as int)),
        decreases urls@.len() - i,
    {
        proof {
            assert(uv.take(i + 1).drop_last() =~= uv.take(i as int));
            assert(uv.take(i + 1).last() == urls@[i as int]@);
        }
        match parse_relay_url(urls[i].as_str()) {
            Some((u, _)) => r.push(u),
            None => {},
        }
        i = i + 1;
    }
    assert(uv.take(urls@.len() as int) =~= uv);
    r
}

/// The default relays as relay URLs.
pub fn default_relay_urls() -> (r: Vec<nostr::RelayUrl>)
    ensures
        r@.len() == accepted_count(default_relay_list()),
{
    relay_urls(&default_relay_strings())
}

/// The default relays as owned strings.
pub fn default_relay_strings() -> (r: Vec<String>)
    ensures
        string_views(r@) == default_relay_list(),
{
    crate::Config::default_relays()
}

/// For each relay, whether it is a usable relay URL (and so is added to the
/// pool before publishing).
pub fn usable_relays(relays: &Vec<String>) -> (r: Vec<bool>)
    ensures
        r@.len() == relays@.len(),
        forall|i: int| 0 <= i < r@.len() ==> r@[i] == relay_url_accepted(#[trigger] relays@[i]@),
{
    let mut r: Vec<bool> = Vec::new();
    let mut i: usize = 0;
    while i < relays.len()
        invariant
            i <= relays@.len(),
            r@.len() == i,
            forall|j: int| 0 <= j < i ==> r@[j] == relay_url_accepted(#[trigger] relays@[j]@),
        decreases relays@.len() - i,
    {
        r.push(parse_relay_url(relays[i].as_str()).is_some());
        i = i + 1;
    }
    r
}

/// A relay and whether the publication to it succeeded.
pub open spec fn entry_view(e: (String, bool)) -> (Seq<char>, bool) {
    (e.0@, e.1)
}

/// Whether the publication reached relay `url`: it was added to the pool
/// (`rejected` is false), it is a relay URL, and the relay acknowledged the
/// event (its URL text is among `acked`).
pub open spec fn relay_reached(url: Seq<char>, rejected: bool, acked: Seq<Seq<char>>) -> bool {
    !rejected && relay_url_accepted(url) && acked.contains(relay_url_text(url))
}

/// The per-relay report of `publish_event`: one entry per relay, in order,
/// with that relay's own outcome. `rejected[i]` tells whether relay `i` could
/// not be added to the pool; `acked` holds the URL text of each relay that
/// acknowledged the event (none when sending failed as a whole).
pub fn publish_report(relays: &Vec<String>, rejected: &Vec<bool>, acked: &Vec<String>) -> (r: Vec<
    (String, bool),
>)
    requires
        rejected@.len() == relays@.len(),
    ensures
        r@.len() == relays@.len(),
        forall|i: int|
            0 <= i < relays@.len() ==> entry_view(#[trigger] r@[i]) == (
                relays@[i]@,
                relay_reached(relays@[i]@, rejected@[i], string_views(acked@)),
            ),
{
    let mut r: Vec<(String, bool)> = Vec::new();
    let mut i: usize = 0;
    while i < relays.len()
        invariant
            rejected@.len() == relays@.len(),
            i <= relays@.len(),
            r@.len() == i,
            forall|k: int|
                0 <= k < i ==> entry_view(#[trigger] r@[k]) == (
                    relays@[k]@,
                    relay_reached(relays@[k]@, rejected@[k], string_views(acked@)),
                ),
        decreases relays@.len() - i,
    {
        let ok = if rejected[i] {
            false
        } else {
            match parse_relay_url(relays[i].as_str()) {
                Some((_, text)) => list_contains(acked, &text),
                None => false,
            }
        };
        r.push((relays[i].clone(), ok));
        i = i + 1;
    }
    r
}

/// How many relays of a report accepted the publication.
pub open spec fn count_ok_spec(report: Seq<(String, bool)>) -> nat
    decreases report.len(),
{
    if report.len() == 0 {
        0
    } else {
        count_ok_spec(report.drop_last()) + if report.last().1 {
            1nat
        } else {
            0nat
        }
    }
}

/// How many relays of a report accepted the publication.
pub fn count_ok(report: &Vec<(String, bool)>) -> (n: usize)
    ensures
        n == count_ok_spec(report@),
{
    let mut n: usize = 0;
    let mut i: usize = 0;
    while i < report.len()
        invariant
            i <= report@.len(),
            n == count_ok_spec(report@.take(i as int)),
            n <= i,
        decreases report@.len() - i,
    {
        assert(report@.take(i + 1).drop_last() =~= report@.take(i as int));
        if report[i].1 {
            n = n + 1;
        }
        i = i + 1;
    }
    assert(report@.take(report@.len() as int) =~= report@);
    n
}

/// `base` followed by each relay of `extra` that is not in the list yet, in
/// order (each one is checked against the list as it has grown so far).
pub open spec fn merge_relays_spec(base: Seq<Seq<char>>, extra: Seq<Seq<char>>) -> Seq<Seq<char>>
    decreases extra.len(),
{
    if extra.len() == 0 {
        base
    } else {
        let m = merge_relays_spec(base, extra.drop_last());
        if m.contains(extra.last()) {
            m
        } else {
            m.push(extra.last())
        }
    }
}

fn list_contains(list: &Vec<String>, s: &String) -> (b: bool)
    ensures
        b == string_views(list@).contains(s@),
{
    let mut i: usize = 0;
    while i < list.len()
        invariant
            i <= list@.len(),
            forall|j: int| 0 <= j < i ==> list@[j]@ != s@,
        decreases list@.len() - i,
    {
        if list[i] == *s {
            assert(string_views(list@)[i as int] == s@);
            return true;
        }
        i = i + 1;
    }
    proof {
        if string_views(list@).contains(s@) {
            let k = choose|k: int| 0 <= k < list@.len() && string_views(list@)[k] == s@;
            assert(list@[k]@ == s@);
        }
    }
    false
}

/// Append to `base` each relay of `extra` that it does not hold yet.
pub fn merge_relays(base: Vec<String>, extra: &Vec<String>) -> (r: Vec<String>)
    ensures
        string_views(r@) == merge_relays_spec(string_views(base@), string_views(extra@)),
{
    let mut r = base;
    let mut i: usize = 0;
    let ghost b = string_views(r@);
    assert(string_views(extra@).take(0) =~= Seq::<Seq<char>>::empty());
    while i < extra.len()
        invariant
            i <= extra@.len(),
            string_views(r@) == merge_relays_spec(b, string_views(extra@).take(i as int)),
        decreases extra@.len() - i,
    {
        assert(string_views(extra@).take(i + 1).drop_last() =~= string_views(extra@).take(
            i as int,
        ));
        if !list_contains(&r, &extra[i]) {
            let ghost before = r@;
            r.push(extra[i].clone());
            assert(string_views(r@) =~= string_views(before).push(extra@[i as int]@));
        }
        i = i + 1;
    }
    assert(string_views(extra@).take(extra@.len() as int) =~= string_views(extra@));
    r
}

/// The relays a welcome is sent to: the recipient's inbox relays, or the
/// default relays when they have published none.
pub fn welcome_relays(inbox: Vec<String>) -> (r: Vec<String>)
    ensures
        inbox@.len() == 0 ==> string_views(r@) == default_relay_list(),
        inbox@.len() > 0 ==> r@ == inbox@,
{
    if inbox.len() == 0 {
        default_relay_strings()
    } else {
        inbox
    }
}

/// Every relay but `url`.
pub open spec fn other_relay(url: Seq<char>) -> spec_fn(Seq<char>) -> bool {
    |r: Seq<char>| r != url
}

/// The inbox relay list with `url` added at the end; `None` when it is on
/// the list already.
pub fn with_relay(list: Vec<String>, url: &str) -> (r: Option<Vec<String>>)
    ensures
        r is None <==> string_views(list@).contains(url@),
        r matches Some(v) ==> string_views(v@) == string_views(list@).push(url@),
{
    let u = String::from_str(url);
    if list_contains(&list, &u) {
        None
    } else {
        let mut v = list;
        let ghost before = v@;
        v.push(u);
        assert(string_views(v@) =~= string_views(before).push(url@));
        Some(v)
    }
}

/// The inbox relay list without `url`; `None` when it was not on the list.
pub fn without_relay(list: &Vec<String>, url: &str) -> (r: Option<Vec<String>>)
    ensures
        r is None <==> !string_views(list@).contains(url@),
        r matches Some(v) ==> string_views(v@) == string_views(list@).filter(other_relay(url@)),
{
    let ghost lv = string_views(list@);
    let u = String::from_str(url);
    let mut v: Vec<String> = Vec::new();
    let mut removed = false;
    let mut i: usize = 0;
    while i < list.len()
        invariant
            lv == string_views(list@),
            u@ == url@,
            i <= list@.len(),
            string_views(v@) == lv.take(i as int).filter(other_relay(url@)),
            removed <==> lv.take(i as int).contains(url@),
        decreases list@.len() - i,
    {
        let ghost s1 = lv.take(i + 1);
        proof {
            assert(s1.drop_last() =~= lv.take(i as int));
            assert(s1.last() == list@[i as int]@);
            reveal_with_fuel(Seq::<_>::filter, 1);
        }
        if list[i] == u {
            removed = true;
            assert(s1.contains(url@)) by {
                assert(s1[i as int] == url@);
            }
        } else {
            let ghost before = v@;
            v.push(list[i].clone());
            assert(string_views(v@) =~= string_views(before).push(list@[i as int]@));
        }
        proof {
            if s1.contains(url@) && !lv.take(i as int).contains(url@) {
                let t = choose|t: int| 0 <= t < s1.len() && s1[t] == url@;
                if t < i {
                    assert(lv.take(i as int)[t] == url@);
                }
            }
            if lv.take(i as int).contains(url@) {
                let t = choose|t: int| 0 <= t < i && lv.take(i as int)[t] == url@;
                assert(s1[t] == url@);
            }
        }
        i = i + 1;
    }
    assert(lv.take(list@.len() as int) =~= lv);
    if removed {
        Some(v)
    } else {
        None
    }
}

/// The items whose mark is set, in their order.
pub open spec fn marked<T>(items: Seq<T>, keep: Seq<bool>) -> Seq<T>
    decreases items.len(),
{
    if items.len() == 0 {
        seq![]
    } else if keep[items.len() - 1] {
        marked(items.drop_last(), keep.take(items.len() - 1)).push(items.last())
    } else {
        marked(items.drop_last(), keep.take(items.len() - 1))
    }
}

/// Keep the items whose mark is set (`keep[i]` for `items[i]`).
pub fn retain_marked<T>(items: Vec<T>, keep: &Vec<bool>) -> (r: Vec<T>)
    requires
        keep@.len() == items@.len(),
    ensures
        r@ == marked(items@, keep@),
{
    let ghost all = items@;
    let mut rest = items;
    let mut kept: Vec<T> = Vec::new();
    let n = rest.len();
    let mut k: usize = 0;
    assert(all.skip(0) =~= all);
    assert(marked(all.take(0), keep@.take(0)) =~= seq![]);
    while k < n
        invariant
            n == all.len(),
            keep@.len() == n,
            k <= n,
            rest@ == all.skip(k as int),
            kept@ == marked(all.take(k as int), keep@.take(k as int)),
        decreases n - k,
    {
        let x = rest.remove(0);
        proof {
            assert(all.take(k + 1).drop_last() =~= all.take(k as int));
            assert(keep@.take(k + 1).take(k as int) =~= keep@.take(k as int));
            assert(all.take(k + 1).last() == x);
            assert(rest@ =~= all.skip(k + 1));
        }
        if keep[k] {
            kept.push(x);
        }
        k = k + 1;
    }
    assert(all.take(n as int) =~= all);
    assert(keep@.take(n as int) =~= keep@);
    kept
}

proof fn lemma_filter_absent(s: Seq<Seq<char>>, url: Seq<char>)
    requires
        !s.contains(url),
    ensures
        s.filter(other_relay(url)) == s,
    decreases s.len(),
{
    reveal_with_fuel(Seq::<_>::filter, 1);
    if s.len() == 0 {
        assert(s.filter(other_relay(url)) =~= s);
    } else {
        assert(!s.drop_last().contains(url)) by {
            if s.drop_last().contains(url) {
                let t = choose|t: int| 0 <= t < s.drop_last().len() && s.drop_last()[t] == url;
                assert(s[t] == url);
            }
        }
        assert(s[s.len() - 1] != url);
        lemma_filter_absent(s.drop_last(), url);
        assert(s.drop_last().push(s.last()) =~= s);
    }
}

/// Adding a relay that is not on the inbox list and then removing it gives
/// the list back unchanged.
pub proof fn law_add_then_remove_relay(list: Seq<Seq<char>>, url: Seq<char>)
    requires
        !list.contains(url),
    ensures
        list.push(url).filter(other_relay(url)) == list,
{
    reveal_with_fuel(Seq::<_>::filter, 1);
    assert(list.push(url).drop_last() =~= list);
    lemma_filter_absent(list, url);
}

/// The count a publication reports as successful never exceeds the number
/// of relays reported on (one entry per relay: the `N/M` of its summary has
/// `N <= M`).
pub proof fn law_report_count_bounded(report: Seq<(String, bool)>)
    ensures
        count_ok_spec(report) <= report.len(),
    decreases report.len(),
{
    if report.len() > 0 {
        law_report_count_bounded(report.drop_last());
    }
}

/// Merging relay lists loses none of them: every relay of either list is in
/// the merged list.
pub proof fn law_merge_keeps_all_relays(base: Seq<Seq<char>>, extra: Seq<Seq<char>>)
    ensures
        forall|r: Seq<char>| base.contains(r) ==> #[trigger] merge_relays_spec(base, extra).contains(r),
        forall|r: Seq<char>| extra.contains(r) ==> #[trigger] merge_relays_spec(base, extra).contains(r),
    decreases extra.len(),
{
    if extra.len() > 0 {
        let init = extra.drop_last();
        law_merge_keeps_all_relays(base, init);
        let m = merge_relays_spec(base, init);
        assert forall|r: Seq<char>| m.contains(r) implies #[trigger] merge_relays_spec(
            base,
            extra,
        ).contains(r) by {
            if !m.contains(extra.last()) {
                let t = choose|t: int| 0 <= t < m.len() && m[t] == r;
                assert(m.push(extra.last())[t] == r);
            }
        }
        assert forall|r: Seq<char>| extra.contains(r) implies #[trigger] merge_relays_spec(
            base,
            extra,
        ).contains(r) by {
            let t = choose|t: int| 0 <= t < extra.len() && extra[t] == r;
            if t < extra.len() - 1 {
                assert(init[t] == r);
                assert(m.contains(r));
            } else if !m.contains(extra.last()) {
                assert(m.push(extra.last())[m.len() as int] == r);
            }
        }
    }
}

} // verus!
