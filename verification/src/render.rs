//! The text of an event, as it is written at teardown.
//!
//! An event becomes one line: the key, for a cascade event the cause, the
//! value, and the map of everything captured with the event, the counters
//! written as decimal numbers. The map is written as Rust writes a map for
//! debugging: in braces, the entries in key order, keys and values in
//! quotes.
use crate::event::{EventType, EventView};
use crate::key_map::KeyMap;
use crate::model::{printed, EngineView};
use crate::order::{in_order, lemma_in_order, lemma_take_next};
use vstd::prelude::*;

verus! {

/// The character for the digit `d`.
pub open spec fn digit_char(d: int) -> char {
    if d == 0 {
        '0'
    } else if d == 1 {
        '1'
    } else if d == 2 {
        '2'
    } else if d == 3 {
        '3'
    } else if d == 4 {
        '4'
    } else if d == 5 {
        '5'
    } else if d == 6 {
        '6'
    } else if d == 7 {
        '7'
    } else if d == 8 {
        '8'
    } else {
        '9'
    }
}

/// The number `n` in decimal digits.
pub open spec fn decimal_text(n: nat) -> Seq<char>
    decreases n,
{
    if n < 10 {
        seq![digit_char(n as int)]
    } else {
        decimal_text(n / 10).push(digit_char((n % 10) as int))
    }
}

/// What Rust's `{:?}` writes for the text `text`: the text in double
/// quotes, with the characters escaped that cannot stand there as they are.
pub uninterp spec fn debug_text(text: Seq<char>) -> Seq<char>;

/// The map of everything captured with an event: the counters, their counts
/// in decimal, and the labels. Under a key that is both, the label stands.
pub open spec fn captured(dependencies: Map<Seq<char>, u64>, labels: Map<Seq<char>, Seq<char>>) -> Map<
    Seq<char>,
    Seq<char>,
> {
    dependencies.map_values(|count: u64| decimal_text(count as nat)).union_prefer_right(labels)
}

/// One entry of a map.
pub open spec fn entry_text(key: Seq<char>, value: Seq<char>) -> Seq<char> {
    debug_text(key) + seq![':', ' '] + debug_text(value)
}

/// The entries of `map` under `keys`, with a comma and a blank between one
/// and the next.
pub open spec fn entries_text(keys: Seq<Seq<char>>, map: Map<Seq<char>, Seq<char>>) -> Seq<char>
    decreases keys.len(),
{
    if keys.len() == 0 {
        Seq::empty()
    } else if keys.len() == 1 {
        entry_text(keys[0], map[keys[0]])
    } else {
        entries_text(keys.drop_last(), map) + seq![',', ' '] + entry_text(keys.last(), map[keys.last()])
    }
}

/// A map in braces, its entries in key order.
pub open spec fn map_text(map: Map<Seq<char>, Seq<char>>) -> Seq<char> {
    seq!['{'] + entries_text(in_order(map.dom()), map) + seq!['}']
}

/// The key of an event and, for a cascade event, its cause.
pub open spec fn heading_text(e: EventView) -> Seq<char> {
    match e {
        EventView::MetricChange { metric, .. } => metric,
        EventView::LabelChange { label, .. } => label,
        EventView::CascadeMetricChange { cause, metric, .. } => metric + " (caused by "@ + cause + seq![')'],
        EventView::CascadeLabelChange { cause, label, .. } => label + " (caused by "@ + cause + seq![')'],
    }
}

/// The value that an event records: a count in decimal, or the text of a
/// label.
pub open spec fn value_text(e: EventView) -> Seq<char> {
    match e {
        EventView::MetricChange { count, .. } => decimal_text(count as nat),
        EventView::LabelChange { value, .. } => value,
        EventView::CascadeMetricChange { count, .. } => decimal_text(count as nat),
        EventView::CascadeLabelChange { value, .. } => value,
    }
}

/// The line of an event, with the line feed that ends it.
pub open spec fn line_text(e: EventView) -> Seq<char> {
    heading_text(e) + seq![':', ' '] + value_text(e) + seq![' ', ':', ':', ' '] + map_text(
        captured(e.dependencies(), e.labels()),
    ) + seq!['\n']
}

/// What is written at teardown: the lines of the events that are printed,
/// in the order of the log.
pub open spec fn flush_lines(s: EngineView) -> Seq<Seq<char>> {
    s.events.filter(|e: EventView| printed(s, e)).map_values(|e: EventView| line_text(e))
}

/// The digit `d` as text.
fn digit(d: u64) -> (r: &'static str)
    requires
        d < 10,
    ensures
        r@ == seq![digit_char(d as int)],
{
    proof {
        reveal_strlit("0");
        reveal_strlit("1");
        reveal_strlit("2");
        reveal_strlit("3");
        reveal_strlit("4");
        reveal_strlit("5");
        reveal_strlit("6");
        reveal_strlit("7");
        reveal_strlit("8");
        reveal_strlit("9");
    }
    let r = if d == 0 {
        "0"
    } else if d == 1 {
        "1"
    } else if d == 2 {
        "2"
    } else if d == 3 {
        "3"
    } else if d == 4 {
        "4"
    } else if d == 5 {
        "5"
    } else if d == 6 {
        "6"
    } else if d == 7 {
        "7"
    } else if d == 8 {
        "8"
    } else {
        "9"
    };
    assert(r@ =~= seq![digit_char(d as int)]);
    r
}

/// Writes `n` in decimal digits.
pub fn decimal(n: u64) -> (r: String)
    ensures
        r@ == decimal_text(n as nat),
    decreases n,
{
    if n < 10 {
        digit(n).to_owned()
    } else {
        let mut r = decimal(n / 10);
        r.append(digit(n % 10));
        r
    }
}

/// Writes `text` as `{:?}` does, by `<str as core::fmt::Debug>::fmt`.
///
/// Not proved: that what comes back is the debug form of `text`. The form
/// depends on the text alone.
#[verifier::external_body]
fn debug(text: &str) -> (r: String)
    ensures
        r@ == debug_text(text@),
{
    format!("{:?}", text)
}

/// Writes a map in braces, its entries in key order.
pub fn map_string(map: &KeyMap<String>) -> (r: String)
    ensures
        r@ == map_text(map@),
{
    let mut r = "{".to_owned();
    let n = map.len();
    let ghost keys = in_order(map@.dom());
    proof {
        reveal_strlit("{");
        reveal_strlit("}");
        reveal_strlit(", ");
        reveal_strlit(": ");
        lemma_in_order(map@.dom());
        assert(keys.take(0) =~= Seq::empty());
        assert(r@ =~= seq!['{'] + entries_text(keys.take(0), map@));
    }
    let mut i: usize = 0;
    while i < n
        invariant
            i <= n,
            n == map@.len(),
            map@.dom().finite(),
            keys == in_order(map@.dom()),
            keys.len() == n,
            r@ == seq!['{'] + entries_text(keys.take(i as int), map@),
            ", "@ == seq![',', ' '],
            ": "@ == seq![':', ' '],
        decreases n - i,
    {
        if i > 0 {
            r.append(", ");
        }
        let key = debug(map.key_at(i));
        r.append(key.as_str());
        r.append(": ");
        let value = debug(map.value_at(i).as_str());
        r.append(value.as_str());
        proof {
            lemma_take_next(keys, i as int);
            let k = keys[i as int];
            let done = entries_text(keys.take(i as int), map@);
            if i == 0 {
                assert(done =~= Seq::empty());
                assert(keys.take(1)[0] == k);
                assert(r@ =~= seq!['{'] + entry_text(k, map@[k]));
            } else {
                assert(r@ =~= seq!['{'] + (done + seq![',', ' '] + entry_text(k, map@[k])));
            }
        }
        i += 1;
    }
    proof {
        assert(keys.take(n as int) =~= keys);
    }
    r.append("}");
    r
}

/// The map of everything captured with an event: the counters, their counts
/// in decimal, and the labels.
pub fn captured_map(dependencies: &KeyMap<u64>, labels: &KeyMap<String>) -> (r: KeyMap<String>)
    ensures
        r@ == captured(dependencies@, labels@),
{
    let mut all_deps: KeyMap<String> = KeyMap::new();
    let n = dependencies.len();
    let ghost keys = in_order(dependencies@.dom());
    let ghost texts = dependencies@.map_values(|count: u64| decimal_text(count as nat));
    proof {
        lemma_in_order(dependencies@.dom());
        assert(keys.take(0) =~= Seq::empty());
        assert(all_deps@ =~= texts.restrict(Set::new(|k: Seq<char>| keys.take(0).contains(k))));
    }
    let mut i: usize = 0;
    while i < n
        invariant
            i <= n,
            n == dependencies@.len(),
            dependencies@.dom().finite(),
            keys == in_order(dependencies@.dom()),
            keys.len() == n,
            keys.to_set() == dependencies@.dom(),
            texts == dependencies@.map_values(|count: u64| decimal_text(count as nat)),
            all_deps@ == texts.restrict(Set::new(|k: Seq<char>| keys.take(i as int).contains(k))),
        decreases n - i,
    {
        let k = dependencies.key_at(i);
        let v = dependencies.value_at(i);
        all_deps.insert(k.to_owned(), decimal(*v));
        proof {
            lemma_take_next(keys, i as int);
            assert(all_deps@ =~= texts.restrict(Set::new(|k: Seq<char>| keys.take(i + 1).contains(k))));
        }
        i += 1;
    }
    proof {
        assert(keys.take(n as int) =~= keys);
        assert forall|q: Seq<char>| dependencies@.dom().contains(q) implies keys.contains(q) by {
            assert(keys.to_set().contains(q));
        }
        assert(texts.restrict(Set::new(|k: Seq<char>| keys.contains(k))) =~= texts);
    }
    all_deps.extend_from(labels);
    all_deps
}

impl EventType {
    /// The line that is written for the event at teardown, with the line
    /// feed that ends it.
    pub fn line(&self) -> (r: String)
        ensures
            r@ == line_text(self@),
    {
        proof {
            reveal_strlit(")");
            reveal_strlit(": ");
            reveal_strlit(" :: ");
            reveal_strlit("\n");
        }
        let mut r = String::new();
        let map = match self {
            EventType::MetricChange { metric, count, dependencies, labels } => {
                r.append(metric.as_str());
                r.append(": ");
                r.append(decimal(*count).as_str());
                captured_map(dependencies, labels)
            },
            EventType::LabelChange { label, value, dependencies, labels } => {
                r.append(label.as_str());
                r.append(": ");
                r.append(value.as_str());
                captured_map(dependencies, labels)
            },
            EventType::CascadeMetricChange { cause, metric, count, dependencies, labels } => {
                r.append(metric.as_str());
                r.append(" (caused by ");
                r.append(cause.as_str());
                r.append(")");
                r.append(": ");
                r.append(decimal(*count).as_str());
                captured_map(dependencies, labels)
            },
            EventType::CascadeLabelChange { cause, label, value, dependencies, labels } => {
                r.append(label.as_str());
                r.append(" (caused by ");
                r.append(cause.as_str());
                r.append(")");
                r.append(": ");
                r.append(value.as_str());
                captured_map(dependencies, labels)
            },
        };
        assert(r@ =~= heading_text(self@) + seq![':', ' '] + value_text(self@));
        r.append(" :: ");
        r.append(map_string(&map).as_str());
        r.append("\n");
        assert(r@ =~= line_text(self@));
        r
    }
}

} // verus!
