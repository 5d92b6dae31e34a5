//! Rate limits as the Codex app-server reports them, flattened into observations.
use crate::by_key::{by_key, observations_come_in_the_order_of_their_keys, placed, sort_by_key};
use crate::percent::{
    a_full_limit_has_all_of_it_left, epsilon, none_used, usage_shows_in_the_bits, Percent,
    HUNDRED_BITS,
};
use crate::text::{
    decimal, is_numeral, numbers_are_written_as_numerals, precedes, push_decimal,
};
use crate::text_map::TextMap;
use vstd::prelude::*;
use vstd::string::StringExecFns;

verus! {

/// One usage window of one limit, flattened into a single observation.
#[derive(Debug, Clone)]
pub struct Observation {
    pub limit_id: String,
    /// `primary` or `secondary`: which window slot this came from.
    pub slot: &'static str,
    /// Server-provided name when present, else inferred from the duration.
    pub label: String,
    pub used_percent: Percent,
    pub window_duration_mins: Option<u64>,
    pub resets_at: Option<i64>,
}

/// What an observation says.
pub struct ObservationView {
    pub limit_id: Seq<char>,
    pub slot: Seq<char>,
    pub label: Seq<char>,
    pub used_percent: Percent,
    pub window_duration_mins: Option<u64>,
    pub resets_at: Option<i64>,
}

impl View for Observation {
    type V = ObservationView;

    open spec fn view(&self) -> ObservationView {
        ObservationView {
            limit_id: self.limit_id@,
            slot: self.slot@,
            label: self.label@,
            used_percent: self.used_percent,
            window_duration_mins: self.window_duration_mins,
            resets_at: self.resets_at,
        }
    }
}

impl ObservationView {
    /// The key under which the observed window is tracked.
    pub open spec fn key(self) -> Seq<char> {
        self.limit_id + "::"@ + self.slot
    }

    /// A limit is full when nothing of it has been consumed.
    pub open spec fn is_full(self) -> bool {
        self.used_percent@.at_most(epsilon())
    }
}

impl Observation {
    /// Stable key for state tracking: survives renames and unknown IDs.
    pub fn key(&self) -> (r: String)
        ensures
            r@ == self@.key(),
    {
        let mut key: String = self.limit_id.clone();
        key.append("::");
        key.append(self.slot);
        key
    }

    /// What is left of the limit: 100 less what is used, clamped to the range from 0 to 100.
    pub fn remaining_percent(&self) -> (r: Percent)
        ensures
            self.used_percent.leaves(r),
            self@.is_full() ==> r.bits == HUNDRED_BITS,
    {
        let rest: Percent = self.used_percent.remaining();
        proof {
            if self@.is_full() {
                a_full_limit_has_all_of_it_left(self.used_percent, rest);
            }
        }
        rest
    }

    /// A limit is "full" when nothing of it has been consumed.
    pub fn is_full(&self) -> (r: bool)
        ensures
            r == self@.is_full(),
            r == self.used_percent.bits_at_most_epsilon(),
    {
        self.used_percent.at_most_epsilon()
    }
}

/// What each of the observations says.
pub open spec fn views(observations: Seq<Observation>) -> Seq<ObservationView> {
    Seq::new(observations.len(), |i: int| observations[i]@)
}

/// A usage window of a limit, as the server reports it.
#[derive(Debug, Clone, Copy, PartialEq, Eq)]
pub struct Window {
    pub used_percent: Option<Percent>,
    pub window_duration_mins: Option<u64>,
    pub resets_at: Option<i64>,
}

/// A limit with its windows, as the server reports it.
#[derive(Debug, Clone)]
pub struct Limit {
    pub limit_id: Option<String>,
    pub limit_name: Option<String>,
    pub primary: Option<Window>,
    pub secondary: Option<Window>,
}

/// The server's answer to a request for the rate limits.
#[derive(Debug)]
pub struct RateLimitsResult {
    pub rate_limits: Option<Limit>,
    pub rate_limits_by_limit_id: TextMap<Limit>,
}

/// The name of a window that lasts so many minutes.
pub open spec fn window_name(mins: Option<u64>) -> Seq<char> {
    match mins {
        None => "unknown-window"@,
        Some(m) => if m == 0 {
            "instant"@
        } else if m <= 90 {
            decimal(m as nat) + "m"@
        } else if m < 1440 {
            if m % 60 == 0 {
                decimal(m as nat / 60) + "h"@
            } else {
                decimal(m as nat / 60) + "h"@ + decimal(m as nat % 60) + "m"@
            }
        } else if m == 1440 {
            "daily"@
        } else if m == 10080 {
            "weekly"@
        } else if 40320 <= m <= 44640 {
            "monthly"@
        } else if m % 1440 == 0 {
            decimal(m as nat / 1440) + "d"@
        } else {
            decimal(m as nat / 60) + "h"@
        },
    }
}

/// Infer a human name from the window duration when the server sends none.
pub fn infer_name(mins: Option<u64>) -> (r: String)
    ensures
        r@ == window_name(mins),
{
    let m: u64 = match mins {
        Some(m) => m,
        None => return "unknown-window".to_string(),
    };
    if m == 0 {
        return "instant".to_string();
    }
    if m == 1440 {
        return "daily".to_string();
    }
    if m == 10080 {
        return "weekly".to_string();
    }
    if 40320 <= m && m <= 44640 {
        return "monthly".to_string();
    }
    let mut name: String = String::new();
    proof {
        assert forall|s: Seq<char>| #[trigger] (Seq::<char>::empty() + s) == s by {
            assert(Seq::<char>::empty() + s =~= s);
        }
    }
    if m <= 90 {
        push_decimal(&mut name, m);
        name.append("m");
    } else if m < 1440 && m % 60 != 0 {
        push_decimal(&mut name, m / 60);
        name.append("h");
        push_decimal(&mut name, m % 60);
        name.append("m");
    } else if m >= 1440 && m % 1440 == 0 {
        push_decimal(&mut name, m / 1440);
        name.append("d");
    } else {
        push_decimal(&mut name, m / 60);
        name.append("h");
    }
    name
}

/// The id under which a limit is tracked: its own where it has one, else the one it was listed by.
pub open spec fn tracked_id(id: Seq<char>, limit: Limit) -> Seq<char> {
    match limit.limit_id {
        Some(own) => own@,
        None => id,
    }
}

/// The observation that a window slot of a limit gives. A window with no usage figure tells
/// nothing and gives none.
pub open spec fn observed(
    id: Seq<char>,
    limit: Limit,
    slot: Seq<char>,
    window: Option<Window>,
) -> Seq<ObservationView> {
    match window {
        Some(Window { used_percent: Some(used_percent), window_duration_mins, resets_at }) => seq![
            ObservationView {
                limit_id: tracked_id(id, limit),
                slot,
                label: match limit.limit_name {
                    Some(name) if name@.len() > 0 => name@,
                    _ => window_name(window_duration_mins),
                },
                used_percent,
                window_duration_mins,
                resets_at,
            },
        ],
        _ => Seq::empty(),
    }
}

/// The observations that a limit gives, the primary window first.
pub open spec fn flattened(id: Seq<char>, limit: Limit) -> Seq<ObservationView> {
    observed(id, limit, "primary"@, limit.primary) + observed(
        id,
        limit,
        "secondary"@,
        limit.secondary,
    )
}

/// Appends the observation that a window slot gives, if it gives one.
fn observe(
    id: &str,
    limit: &Limit,
    slot: &'static str,
    window: &Option<Window>,
    out: &mut Vec<Observation>,
)
    ensures
        views(final(out)@) == views(old(out)@) + observed(id@, *limit, slot@, *window),
{
    let w: Window = match window {
        Some(w) => *w,
        None => {
            assert(views(out@) =~= views(out@) + Seq::<ObservationView>::empty());
            return;
        },
    };
    let used_percent: Percent = match w.used_percent {
        Some(p) => p,
        None => {
            assert(views(out@) =~= views(out@) + Seq::<ObservationView>::empty());
            return;
        },
    };
    let limit_id: String = match &limit.limit_id {
        Some(own) => own.clone(),
        None => id.to_string(),
    };
    let label: String = match &limit.limit_name {
        Some(name) => if !name.as_str().is_empty() {
            name.clone()
        } else {
            infer_name(w.window_duration_mins)
        },
        None => infer_name(w.window_duration_mins),
    };
    out.push(
        Observation {
            limit_id,
            slot,
            label,
            used_percent,
            window_duration_mins: w.window_duration_mins,
            resets_at: w.resets_at,
        },
    );
    assert(views(out@) =~= views(old(out)@) + observed(id@, *limit, slot@, *window));
}

/// Appends the observations that a limit gives.
pub fn flatten(id: &str, limit: &Limit, out: &mut Vec<Observation>)
    ensures
        views(final(out)@) == views(old(out)@) + flattened(id@, *limit),
{
    observe(id, limit, "primary", &limit.primary, out);
    observe(id, limit, "secondary", &limit.secondary, out);
    assert(views(out@) =~= views(old(out)@) + flattened(id@, *limit));
}

/// The observations of all listed limits, in the order in which the limits are listed.
pub open spec fn collected(entries: Seq<(String, Limit)>) -> Seq<ObservationView>
    decreases entries.len(),
{
    if entries.len() == 0 {
        Seq::empty()
    } else {
        collected(entries.drop_last()) + flattened(entries.last().0@, entries.last().1)
    }
}

/// The observations that an answer gives. Older servers only fill the singular field, so that one
/// counts where the listed limits give none.
pub open spec fn usable(answer: RateLimitsResult) -> Seq<ObservationView> {
    let listed = collected(answer.rate_limits_by_limit_id.listing());
    match answer.rate_limits {
        Some(limit) if listed.len() == 0 => flattened("codex"@, limit),
        _ => listed,
    }
}

/// What is read from an answer: its observations in the order of their keys, or the error that says
/// why there are none.
pub open spec fn read_from(answer: Result<RateLimitsResult, String>) -> Result<
    Seq<ObservationView>,
    Seq<char>,
> {
    match answer {
        Err(cause) => Err("unexpected account/rateLimits/read shape: "@ + cause@),
        Ok(answer) => if usable(answer).len() == 0 {
            Err("app-server returned no usable rate-limit windows"@)
        } else {
            Ok(by_key(usable(answer)))
        },
    }
}

/// The observations of a server's answer, in the order of their keys.
///
/// An answer that could not be read comes as the text of the error.
pub fn read_rate_limits(answer: Result<RateLimitsResult, String>) -> (r: Result<
    Vec<Observation>,
    String,
>)
    ensures
        match answer {
            Err(cause) => r matches Err(e) && e@
                == "unexpected account/rateLimits/read shape: "@ + cause@,
            Ok(answer) => if usable(answer).len() == 0 {
                r matches Err(e) && e@ == "app-server returned no usable rate-limit windows"@
            } else {
                r matches Ok(observations) && views(observations@) == by_key(usable(answer))
            },
        },
        match read_from(answer) {
            Ok(read) => r matches Ok(observations) && views(observations@) == read,
            Err(why) => r matches Err(e) && e@ == why,
        },
{
    let answer: RateLimitsResult = match answer {
        Ok(answer) => answer,
        Err(cause) => {
            let mut e: String = "unexpected account/rateLimits/read shape: ".to_string();
            e.append(cause.as_str());
            return Err(e);
        },
    };
    let listed: &Vec<(String, Limit)> = answer.rate_limits_by_limit_id.entries();
    let mut observations: Vec<Observation> = Vec::new();
    let mut i: usize = 0;
    assert(views(observations@) =~= Seq::empty());
    while i < listed.len()
        invariant
            i <= listed@.len(),
            views(observations@) == collected(listed@.take(i as int)),
        decreases listed@.len() - i,
    {
        flatten(listed[i].0.as_str(), &listed[i].1, &mut observations);
        proof {
            assert(listed@.take(i + 1).drop_last() =~= listed@.take(i as int));
        }
        i = i + 1;
    }
    assert(listed@.take(i as int) =~= listed@);
    assert(views(observations@).len() == observations@.len());
    if observations.len() == 0 {
        match &answer.rate_limits {
            Some(limit) => {
                flatten("codex", limit, &mut observations);
                assert(views(observations@) =~= flattened("codex"@, *limit));
            },
            None => {},
        }
    }
    assert(views(observations@).len() == observations@.len());
    if observations.len() == 0 {
        return Err("app-server returned no usable rate-limit windows".to_string());
    }
    Ok(sort_by_key(observations))
}

/// Two windows are tracked under the same key only if they are the same slot of the same limit.
pub proof fn keys_identify_windows(a: ObservationView, b: ObservationView)
    requires
        a.slot == "primary"@ || a.slot == "secondary"@,
        b.slot == "primary"@ || b.slot == "secondary"@,
    ensures
        a.key() == b.key() <==> a.limit_id == b.limit_id && a.slot == b.slot,
{
    reveal_strlit("primary");
    reveal_strlit("secondary");
    reveal_strlit("::");
    if a.key() == b.key() {
        let key = a.key();
        assert(key[key.len() - 4] == a.slot[a.slot.len() - 4]);
        assert(key[key.len() - 4] == b.slot[b.slot.len() - 4]);
        assert(a.slot.len() == b.slot.len());
        assert(a.slot =~= b.slot);
        assert(a.limit_id =~= key.take(a.limit_id.len() as int));
        assert(b.limit_id =~= key.take(b.limit_id.len() as int));
    }
}

/// A window keeps its key when the server renames its limit, and when the window's length or next
/// reset changes: the key depends on the ids and the slot alone.
pub proof fn keys_survive_renames(
    id: Seq<char>,
    limit: Limit,
    renamed: Limit,
    slot: Seq<char>,
    window: Option<Window>,
    changed: Option<Window>,
)
    requires
        tracked_id(id, renamed) == tracked_id(id, limit),
        observed(id, limit, slot, window).len() == 1,
        observed(id, renamed, slot, changed).len() == 1,
    ensures
        observed(id, limit, slot, window)[0].key() == observed(id, renamed, slot, changed)[0].key(),
{
}

/// Sorting drops nothing and adds nothing.
proof fn lemma_by_key_contains(observations: Seq<ObservationView>, o: ObservationView)
    ensures
        by_key(observations).contains(o) <==> observations.contains(o),
    decreases observations.len(),
{
    if observations.len() > 0 {
        let rest = observations.drop_first();
        lemma_by_key_contains(rest, o);
        lemma_placed_contains(by_key(rest), observations[0], o);
        assert(observations =~= seq![observations[0]] + rest);
        lemma_joined_contains(seq![observations[0]], rest, o);
        lemma_single_contains(observations[0], o);
    }
}

/// Placing an observation adds it and drops nothing.
proof fn lemma_placed_contains(
    sorted: Seq<ObservationView>,
    first: ObservationView,
    o: ObservationView,
)
    ensures
        placed(sorted, first).contains(o) <==> sorted.contains(o) || o == first,
    decreases sorted.len(),
{
    if sorted.len() > 0 && precedes(sorted[0].key(), first.key()) {
        let rest = sorted.drop_first();
        lemma_placed_contains(rest, first, o);
        lemma_joined_contains(seq![sorted[0]], placed(rest, first), o);
        lemma_joined_contains(seq![sorted[0]], rest, o);
        assert(sorted =~= seq![sorted[0]] + rest);
    } else {
        lemma_joined_contains(seq![first], sorted, o);
        lemma_single_contains(first, o);
    }
}

/// A list of one holds that one.
proof fn lemma_single_contains(only: ObservationView, o: ObservationView)
    ensures
        seq![only].contains(o) <==> o == only,
{
    assert(seq![only][0] == only);
}

/// Two lists joined hold what either holds.
proof fn lemma_joined_contains(
    a: Seq<ObservationView>,
    b: Seq<ObservationView>,
    o: ObservationView,
)
    ensures
        (a + b).contains(o) <==> a.contains(o) || b.contains(o),
{
    if a.contains(o) {
        let i = choose|i: int| 0 <= i < a.len() && a[i] == o;
        assert((a + b)[i] == o);
    }
    if b.contains(o) {
        let i = choose|i: int| 0 <= i < b.len() && b[i] == o;
        assert((a + b)[a.len() + i] == o);
    }
}

/// What the listed limits give together is what each of them gives.
proof fn lemma_collected_contains(entries: Seq<(String, Limit)>, o: ObservationView)
    ensures
        collected(entries).contains(o) <==> exists|i: int|
            0 <= i < entries.len() && (#[trigger] flattened(entries[i].0@, entries[i].1)).contains(
                o,
            ),
    decreases entries.len(),
{
    if entries.len() > 0 {
        let rest = entries.drop_last();
        let last = entries.last();
        lemma_collected_contains(rest, o);
        lemma_joined_contains(collected(rest), flattened(last.0@, last.1), o);
        if collected(rest).contains(o) {
            let i = choose|i: int|
                0 <= i < rest.len() && (#[trigger] flattened(rest[i].0@, rest[i].1)).contains(o);
            assert(flattened(entries[i].0@, entries[i].1).contains(o));
        }
        if exists|i: int|
            0 <= i < entries.len() && (#[trigger] flattened(entries[i].0@, entries[i].1)).contains(
                o,
            ) {
            let i = choose|i: int|
                0 <= i < entries.len() && (#[trigger] flattened(
                    entries[i].0@,
                    entries[i].1,
                )).contains(o);
            if i < rest.len() {
                assert(flattened(rest[i].0@, rest[i].1).contains(o));
            }
        }
    }
}

/// Every limit that the server lists is tracked, whatever its id: each window of it that has a
/// usage figure is among the observations; and where the listed limits give any, nothing else is.
pub proof fn every_reported_window_is_observed(answer: RateLimitsResult, o: ObservationView)
    ensures
        ({
            let listed = answer.rate_limits_by_limit_id.listing();
            let reported = exists|i: int|
                0 <= i < listed.len() && (#[trigger] flattened(
                    listed[i].0@,
                    listed[i].1,
                )).contains(o);
            &&& reported ==> by_key(usable(answer)).contains(o)
            &&& by_key(usable(answer)).contains(o) && collected(listed).len() > 0 ==> reported
        }),
{
    let listed = answer.rate_limits_by_limit_id.listing();
    lemma_collected_contains(listed, o);
    lemma_by_key_contains(usable(answer), o);
}

/// A list of views shows each observation in its place, field by field, and its key is its limit and
/// its slot.
pub proof fn views_show_the_fields(observations: Seq<Observation>)
    ensures
        views(observations).len() == observations.len(),
        forall|i: int|
            0 <= i < observations.len() ==> {
                let (o, v) = (observations[i], #[trigger] views(observations)[i]);
                &&& v.limit_id == o.limit_id@
                &&& v.slot == o.slot@
                &&& v.label == o.label@
                &&& v.used_percent == o.used_percent
                &&& v.window_duration_mins == o.window_duration_mins
                &&& v.resets_at == o.resets_at
                &&& v.key() == o.limit_id@ + "::"@ + o.slot@
            },
{
}

/// A limit is full exactly if its usage is a number no greater than two to the power of minus 52.
pub proof fn full_is_none_used(o: ObservationView)
    ensures
        o.is_full() <==> none_used(o.used_percent@),
{
    usage_shows_in_the_bits(o.used_percent);
}

/// The name of a window tells how long it is. Up to 90 minutes it gives the minutes, and below a day
/// the hours and the minutes that are left over, if any; from then on the days where they come out
/// even, and else the whole hours. A day, a week and a month have names of their own.
pub proof fn names_tell_the_length(mins: Option<u64>) -> (numerals: (Seq<char>, Seq<char>))
    ensures
        ({
            let (a, b) = numerals;
            let name = window_name(mins);
            &&& mins is None ==> name == "unknown-window"@
            &&& mins matches Some(m) ==> {
                &&& m == 0 ==> name == "instant"@
                &&& 1 <= m <= 90 ==> is_numeral(a, m as nat) && name == a + "m"@
                &&& 91 <= m <= 1439 ==> {
                    &&& is_numeral(a, m as nat / 60)
                    &&& m as nat % 60 == 0 ==> name == a + "h"@
                    &&& m as nat % 60 != 0 ==> is_numeral(b, m as nat % 60) && name == a + "h"@ + b
                        + "m"@
                }
                &&& m == 1440 ==> name == "daily"@
                &&& m == 10080 ==> name == "weekly"@
                &&& 40320 <= m <= 44640 ==> name == "monthly"@
                &&& m > 1440 && m != 10080 && !(40320 <= m <= 44640) ==> {
                    &&& m as nat % 1440 == 0 ==> is_numeral(a, m as nat / 1440) && name == a
                        + "d"@
                    &&& m as nat % 1440 != 0 ==> is_numeral(a, m as nat / 60) && name == a + "h"@
                }
            }
        }),
{
    match mins {
        None => (Seq::empty(), Seq::empty()),
        Some(m) => {
            let m = m as nat;
            numbers_are_written_as_numerals(m);
            numbers_are_written_as_numerals(m / 60);
            numbers_are_written_as_numerals(m % 60);
            numbers_are_written_as_numerals(m / 1440);
            if m <= 90 {
                (decimal(m), Seq::empty())
            } else if m < 1440 {
                (decimal(m / 60), decimal(m % 60))
            } else if m % 1440 == 0 {
                (decimal(m / 1440), Seq::empty())
            } else {
                (decimal(m / 60), Seq::empty())
            }
        },
    }
}

/// Whether a window has a usage figure.
pub open spec fn has_usage(window: Option<Window>) -> bool {
    window matches Some(w) && w.used_percent is Some
}

/// Whether an observation tells of a limit that is listed under an id: its slot names one of the two
/// windows of the limit, and usage, length and next reset are those of that window. The limit goes by
/// its own id where it has one, and the window by the limit's name where that is not empty.
pub open spec fn tells_of(o: ObservationView, id: Seq<char>, limit: Limit) -> bool {
    let window = if o.slot == "primary"@ {
        limit.primary
    } else {
        limit.secondary
    };
    &&& o.slot == "primary"@ || o.slot == "secondary"@
    &&& window is Some
    &&& window->0.used_percent == Some(o.used_percent)
    &&& window->0.window_duration_mins == o.window_duration_mins
    &&& window->0.resets_at == o.resets_at
    &&& limit.limit_id is Some ==> o.limit_id == limit.limit_id->0@
    &&& limit.limit_id is None ==> o.limit_id == id
    &&& limit.limit_name is Some && limit.limit_name->0@.len() > 0 ==> o.label
        == limit.limit_name->0@
    &&& limit.limit_name is None || limit.limit_name->0@.len() == 0 ==> o.label == window_name(
        o.window_duration_mins,
    )
}

/// A limit gives one observation for each of its two windows that has a usage figure, the primary one
/// first, and none besides; each tells of its own window.
pub proof fn each_window_is_observed_by_its_own_figures(
    id: Seq<char>,
    limit: Limit,
    o: ObservationView,
)
    ensures
        flattened(id, limit).contains(o) <==> tells_of(o, id, limit),
        flattened(id, limit).len() == (if has_usage(limit.primary) {
            1int
        } else {
            0int
        }) + (if has_usage(limit.secondary) {
            1int
        } else {
            0int
        }),
        has_usage(limit.primary) ==> {
            let first = flattened(id, limit)[0];
            &&& tells_of(first, id, limit)
            &&& first.slot == "primary"@
            &&& first.used_percent == limit.primary->0.used_percent->0
            &&& first.window_duration_mins == limit.primary->0.window_duration_mins
            &&& first.resets_at == limit.primary->0.resets_at
        },
        has_usage(limit.secondary) ==> {
            let last = flattened(id, limit).last();
            &&& tells_of(last, id, limit)
            &&& last.slot == "secondary"@
            &&& last.used_percent == limit.secondary->0.used_percent->0
            &&& last.window_duration_mins == limit.secondary->0.window_duration_mins
            &&& last.resets_at == limit.secondary->0.resets_at
        },
{
    reveal_strlit("primary");
    reveal_strlit("secondary");
    assert("primary"@.len() != "secondary"@.len());
    let a = observed(id, limit, "primary"@, limit.primary);
    let b = observed(id, limit, "secondary"@, limit.secondary);
    lemma_joined_contains(a, b, o);
    if a.len() > 0 {
        assert(a =~= seq![a[0]]);
        lemma_single_contains(a[0], o);
    }
    if b.len() > 0 {
        assert(b =~= seq![b[0]]);
        lemma_single_contains(b[0], o);
    }
}

/// The two windows of a limit are observed independently: what is observed of one slot stays the same
/// whatever becomes of the other window.
pub proof fn the_other_window_makes_no_difference(
    id: Seq<char>,
    limit: Limit,
    other: Option<Window>,
    o: ObservationView,
)
    ensures
        o.slot == "primary"@ ==> (flattened(id, limit).contains(o) <==> flattened(
            id,
            Limit { secondary: other, ..limit },
        ).contains(o)),
        o.slot == "secondary"@ ==> (flattened(id, limit).contains(o) <==> flattened(
            id,
            Limit { primary: other, ..limit },
        ).contains(o)),
{
    reveal_strlit("primary");
    reveal_strlit("secondary");
    assert("primary"@.len() != "secondary"@.len());
    each_window_is_observed_by_its_own_figures(id, limit, o);
    each_window_is_observed_by_its_own_figures(id, Limit { secondary: other, ..limit }, o);
    each_window_is_observed_by_its_own_figures(id, Limit { primary: other, ..limit }, o);
}

/// The limits are taken in the order in which they are listed, each on its own.
pub proof fn limits_are_taken_in_turn(first: Seq<(String, Limit)>, second: Seq<(String, Limit)>)
    ensures
        collected(first + second) == collected(first) + collected(second),
        first.len() == 1 ==> collected(first) == flattened(first[0].0@, first[0].1),
        first.len() == 0 ==> collected(first).len() == 0,
    decreases second.len(),
{
    if second.len() == 0 {
        assert(first + second =~= first);
        assert(collected(first) + collected(second) =~= collected(first));
    } else {
        let rest = second.drop_last();
        limits_are_taken_in_turn(first, rest);
        assert((first + second).drop_last() =~= first + rest);
        assert((first + second).last() == second.last());
        let last = flattened(second.last().0@, second.last().1);
        assert((collected(first) + collected(rest)) + last =~= collected(first) + (collected(rest)
            + last));
    }
    if first.len() == 1 {
        reveal_with_fuel(collected, 2);
        assert(first.drop_last() =~= Seq::empty());
        assert(Seq::<ObservationView>::empty() + flattened(first[0].0@, first[0].1) =~= flattened(
            first[0].0@,
            first[0].1,
        ));
    }
}

/// The listed limits give observations exactly if one of their windows has a usage figure.
proof fn lemma_collected_some(entries: Seq<(String, Limit)>)
    ensures
        collected(entries).len() > 0 <==> exists|i: int|
            0 <= i < entries.len() && (has_usage((#[trigger] entries[i]).1.primary) || has_usage(
                entries[i].1.secondary,
            )),
    decreases entries.len(),
{
    if entries.len() > 0 {
        let (rest, last) = (entries.drop_last(), entries.last());
        lemma_collected_some(rest);
        assert(collected(entries).len() == collected(rest).len() + flattened(
            last.0@,
            last.1,
        ).len());
        if collected(rest).len() > 0 {
            let i = choose|i: int|
                0 <= i < rest.len() && (has_usage((#[trigger] rest[i]).1.primary) || has_usage(
                    rest[i].1.secondary,
                ));
            assert(entries[i] == rest[i]);
        }
        if flattened(last.0@, last.1).len() > 0 {
            assert(entries[entries.len() - 1] == last);
        }
        if exists|i: int|
            0 <= i < entries.len() && (has_usage((#[trigger] entries[i]).1.primary) || has_usage(
                entries[i].1.secondary,
            )) {
            let i = choose|i: int|
                0 <= i < entries.len() && (has_usage((#[trigger] entries[i]).1.primary)
                    || has_usage(entries[i].1.secondary));
            if i < rest.len() {
                assert(rest[i] == entries[i]);
            }
        }
    }
}

/// What an answer gives: an observation of every listed window that has a usage figure, and of none
/// besides. Only where no listed window has one, the singular limit stands in, under the id `codex`
/// unless it has its own; and where that has none either, the answer gives nothing.
pub proof fn an_answer_is_observed_in_full(answer: RateLimitsResult, o: ObservationView)
    ensures
        ({
            let listed = answer.rate_limits_by_limit_id.listing();
            let found = by_key(usable(answer));
            let any = exists|i: int|
                0 <= i < listed.len() && (has_usage((#[trigger] listed[i]).1.primary) || has_usage(
                    listed[i].1.secondary,
                ));
            &&& any ==> (found.contains(o) <==> exists|i: int|
                0 <= i < listed.len() && tells_of(o, (#[trigger] listed[i]).0@, listed[i].1))
            &&& !any ==> (found.contains(o) <==> answer.rate_limits is Some && tells_of(
                o,
                "codex"@,
                answer.rate_limits->0,
            ))
            &&& usable(answer).len() == 0 <==> !any && (answer.rate_limits matches Some(limit)
                ==> !has_usage(limit.primary) && !has_usage(limit.secondary))
            &&& any ==> usable(answer) == collected(listed)
            &&& !any && answer.rate_limits is Some ==> usable(answer) == flattened(
                "codex"@,
                answer.rate_limits->0,
            )
            &&& found.len() == usable(answer).len()
        }),
{
    let listed = answer.rate_limits_by_limit_id.listing();
    lemma_collected_some(listed);
    lemma_collected_contains(listed, o);
    lemma_by_key_contains(usable(answer), o);
    assert forall|i: int| 0 <= i < listed.len() implies (#[trigger] flattened(
        listed[i].0@,
        listed[i].1,
    )).contains(o) == tells_of(o, listed[i].0@, listed[i].1) by {
        each_window_is_observed_by_its_own_figures(listed[i].0@, listed[i].1, o);
    }
    if exists|i: int| 0 <= i < listed.len() && tells_of(o, (#[trigger] listed[i]).0@, listed[i].1) {
        let i = choose|i: int|
            0 <= i < listed.len() && tells_of(o, (#[trigger] listed[i]).0@, listed[i].1);
        assert(flattened(listed[i].0@, listed[i].1).contains(o));
    }
    let from = observations_come_in_the_order_of_their_keys(usable(answer));
    match answer.rate_limits {
        Some(limit) => {
            each_window_is_observed_by_its_own_figures("codex"@, limit, o);
        },
        None => {},
    }
}

/// What is read from an answer that could be parsed: an observation of every listed window with a usage
/// figure, or of those of the singular limit where no listed window has one, in the order of their
/// keys. It is an error if no window at all has one. An answer that could not be parsed gives its own
/// error.
pub proof fn an_answer_is_read_in_full(
    answer: Result<RateLimitsResult, String>,
    o: ObservationView,
)
    ensures
        answer matches Err(cause) ==> read_from(answer) == Err::<Seq<ObservationView>, Seq<char>>(
            "unexpected account/rateLimits/read shape: "@ + cause@,
        ),
        answer matches Ok(parts) ==> {
            let listed = parts.rate_limits_by_limit_id.listing();
            let any = exists|i: int|
                0 <= i < listed.len() && (has_usage((#[trigger] listed[i]).1.primary) || has_usage(
                    listed[i].1.secondary,
                ));
            let alone = parts.rate_limits is Some && (has_usage(parts.rate_limits->0.primary)
                || has_usage(parts.rate_limits->0.secondary));
            &&& !any && !alone ==> read_from(answer) == Err::<Seq<ObservationView>, Seq<char>>(
                "app-server returned no usable rate-limit windows"@,
            )
            &&& any || alone ==> (read_from(answer) matches Ok(found) && {
                &&& any ==> (found.contains(o) <==> exists|i: int|
                    0 <= i < listed.len() && tells_of(o, (#[trigger] listed[i]).0@, listed[i].1))
                &&& !any ==> (found.contains(o) <==> tells_of(o, "codex"@, parts.rate_limits->0))
                &&& any ==> found.len() == collected(listed).len()
                &&& !any ==> found.len() == (if has_usage(parts.rate_limits->0.primary) {
                    1int
                } else {
                    0int
                }) + (if has_usage(parts.rate_limits->0.secondary) {
                    1int
                } else {
                    0int
                })
                &&& forall|i: int, j: int|
                    0 <= i < j < found.len() ==> !precedes(
                        (#[trigger] found[j]).limit_id + "::"@ + found[j].slot,
                        (#[trigger] found[i]).limit_id + "::"@ + found[i].slot,
                    )
            })
        },
{
    if let Ok(parts) = answer {
        an_answer_is_observed_in_full(parts, o);
        let from = observations_come_in_the_order_of_their_keys(usable(parts));
    }
}

} // verus!
