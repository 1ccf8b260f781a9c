//! The event store: one event for each identity key, the later of two events
//! with one key in place of the earlier.

use crate::extraction::{Event, EventView};
use crate::number::{
    all_digits, decimal, decimal_digits, lemma_decimal_begins, lemma_decimal_digits, push_decimal,
};
use crate::string_map::{lemma_pairs_map_value, pairs_map, StringMap};
use vstd::prelude::*;

verus! {

/// A store of events.
pub trait EventManager {
    /// The events in the store, each under its key.
    spec fn stored(&self) -> Map<Seq<char>, EventView>;

    /// The key under which the store holds `event`.
    spec fn key_of(&self, event: EventView) -> Seq<char>;

    /// Puts `event` into the store, in place of the event that it held under
    /// the same key, if there was one; the other events stay.
    fn new_event(&mut self, event: Event)
        ensures
            final(self).stored() == old(self).stored().insert(old(self).key_of(event@), event@),
            forall|other: EventView| final(self).key_of(other) == old(self).key_of(other),
    ;
}

/// A store of events in memory, written to and read from one file as a list
/// of events.
pub struct JSEventManager {
    pub data_file: String,
    pub cached_events: StringMap<Event>,
    /// The name of the text field that holds an event's title.
    pub title_field: String,
}

/// What tells one event from another: the day on which it takes place, and
/// its title.
#[derive(Debug, Clone, PartialEq, Eq, Hash)]
pub struct EventKey {
    pub year: i32,
    pub month: u32,
    pub day: u32,
    pub title: String,
}

/// The text of a key: year, month and day in base ten, then the title, with
/// `-` between them.
pub open spec fn key_text(year: int, month: int, day: int, title: Seq<char>) -> Seq<char> {
    decimal(year) + seq!['-'] + decimal(month) + seq!['-'] + decimal(day) + seq!['-'] + title
}

/// The title of `event`: the value of the text field named `title_field`,
/// or the empty text where the event has no such field.
pub open spec fn title_of(event: EventView, title_field: Seq<char>) -> Seq<char> {
    if event.text.contains_key(title_field) {
        event.text[title_field]
    } else {
        Seq::empty()
    }
}

/// The identity key of `event`.
pub open spec fn identity_key(event: EventView, title_field: Seq<char>) -> Seq<char> {
    key_text(
        event.date_time.year as int,
        event.date_time.month as int,
        event.date_time.day as int,
        title_of(event, title_field),
    )
}

/// The events of a list as mathematical values.
pub open spec fn views(events: Seq<Event>) -> Seq<EventView> {
    Seq::new(events.len(), |i: int| events[i]@)
}

/// A map of events with each event as a mathematical value.
pub open spec fn events_of(m: Map<Seq<char>, Event>) -> Map<Seq<char>, EventView> {
    Map::new(|key: Seq<char>| m.contains_key(key), |key: Seq<char>| m[key]@)
}

/// The store that results from putting the events of `events` one after the
/// other into `stored`, each under its identity key.
pub open spec fn loaded(
    stored: Map<Seq<char>, EventView>,
    events: Seq<EventView>,
    title_field: Seq<char>,
) -> Map<Seq<char>, EventView>
    decreases events.len(),
{
    if events.len() == 0 {
        stored
    } else {
        loaded(stored, events.drop_last(), title_field).insert(
            identity_key(events.last(), title_field),
            events.last(),
        )
    }
}

impl EventKey {
    /// The key of `event`, with the title taken from the field `title_field`.
    pub fn of(event: &Event, title_field: &str) -> (key: EventKey)
        ensures
            key.year == event.date_time.year,
            key.month == event.date_time.month,
            key.day == event.date_time.day,
            key.title@ == title_of(event@, title_field@),
    {
        let title = match event.text.get(title_field) {
            Some(title) => title.clone(),
            None => String::new(),
        };
        EventKey {
            year: event.date_time.year,
            month: event.date_time.month,
            day: event.date_time.day,
            title,
        }
    }

    /// The text of the key.
    pub fn to_string(&self) -> (text: String)
        ensures
            text@ == key_text(self.year as int, self.month as int, self.day as int, self.title@),
    {
        let mut text = String::new();
        push_decimal(&mut text, self.year as i64);
        text.push('-');
        push_decimal(&mut text, self.month as i64);
        text.push('-');
        push_decimal(&mut text, self.day as i64);
        text.push('-');
        text.append(self.title.as_str());
        assert(text@ =~= key_text(
            self.year as int,
            self.month as int,
            self.day as int,
            self.title@,
        ));
        text
    }
}

impl View for JSEventManager {
    type V = Map<Seq<char>, EventView>;

    open spec fn view(&self) -> Map<Seq<char>, EventView> {
        events_of(self.cached_events@)
    }
}

impl JSEventManager {
    /// Each event stands under its own identity key.
    pub open spec fn well_formed(&self) -> bool {
        forall|key: Seq<char>| #[trigger]
            self.cached_events@.contains_key(key) ==> key == identity_key(
                self.cached_events@[key]@,
                self.title_field@,
            )
    }

    /// The events of the store, in the ascending order of their keys.
    pub open spec fn events(&self) -> Seq<EventView> {
        Seq::new(
            self.cached_events.pairs().len(),
            |i: int| self.cached_events.pairs()[i].1@,
        )
    }

    /// An empty store for the file `data_file`, with the title of an event
    /// in its field `Title`.
    pub fn new(data_file: String) -> (store: Self)
        ensures
            store.data_file == data_file,
            store.title_field@ == "Title"@,
            store@ == Map::<Seq<char>, EventView>::empty(),
            store.well_formed(),
    {
        let store = JSEventManager {
            data_file,
            cached_events: StringMap::new(),
            title_field: "Title".to_owned(),
        };
        assert(store@ =~= Map::<Seq<char>, EventView>::empty());
        store
    }

    /// An empty store for the file `data_file`, with the title of an event
    /// in its field `title_field`.
    pub fn with_title_field(data_file: String, title_field: String) -> (store: Self)
        ensures
            store.data_file == data_file,
            store.title_field == title_field,
            store@ == Map::<Seq<char>, EventView>::empty(),
            store.well_formed(),
    {
        let store = JSEventManager { data_file, cached_events: StringMap::new(), title_field };
        assert(store@ =~= Map::<Seq<char>, EventView>::empty());
        store
    }

    /// Puts `event` into `self.cached_events` under its identity key.
    fn put(&mut self, event: Event)
        ensures
            final(self)@ == old(self)@.insert(identity_key(event@, old(self).title_field@), event@),
            final(self).data_file == old(self).data_file,
            final(self).title_field == old(self).title_field,
            old(self).well_formed() ==> final(self).well_formed(),
    {
        let key = EventKey::of(&event, self.title_field.as_str()).to_string();
        let ghost before = self.cached_events@;
        self.cached_events.insert(key, event);
        assert(self@ =~= events_of(before).insert(key@, event@));
    }

    /// Takes the store from what was read from the file. Where there was a
    /// file, the store holds the events read from it, each under its
    /// identity key, and of two with one key the later. Where there was
    /// none, the store stays as it is.
    pub fn load_events(&mut self, persisted: Option<Vec<Event>>)
        ensures
            final(self)@ == match persisted {
                Some(events) => loaded(Map::empty(), views(events@), old(self).title_field@),
                None => old(self)@,
            },
            final(self).data_file == old(self).data_file,
            final(self).title_field == old(self).title_field,
            persisted is Some || old(self).well_formed() ==> final(self).well_formed(),
    {
        if let Some(events) = persisted {
            self.cached_events = StringMap::new();
            assert(self@ =~= Map::<Seq<char>, EventView>::empty());
            let ghost title = self.title_field@;
            let mut i: usize = 0;
            assert(views(events@).take(0) =~= Seq::<EventView>::empty());
            while i < events.len()
                invariant
                    i <= events.len(),
                    self.title_field@ == title,
                    self.title_field == old(self).title_field,
                    self.data_file == old(self).data_file,
                    self.well_formed(),
                    self@ == loaded(Map::empty(), views(events@).take(i as int), title),
                decreases events.len() - i,
            {
                assert(views(events@).take(i + 1).drop_last() =~= views(events@).take(i as int));
                assert(views(events@).take(i + 1).last() == events@[i as int]@);
                self.put(events[i].clone());
                i += 1;
            }
            assert(views(events@).take(i as int) =~= views(events@));
        }
    }

    /// The events to write to the file: each event of the store once, in the
    /// ascending order of the keys.
    pub fn save_events(&self) -> (events: Vec<Event>)
        ensures
            views(events@) == self.events(),
    {
        let mut events: Vec<Event> = Vec::new();
        let mut i: usize = 0;
        while i < self.cached_events.len()
            invariant
                i <= self.cached_events.pairs().len(),
                events.len() == i,
                forall|j: int|
                    0 <= j < i ==> (#[trigger] events[j])@ == self.cached_events.pairs()[j].1@,
            decreases self.cached_events.pairs().len() - i,
        {
            events.push(self.cached_events.value_at(i).clone());
            i += 1;
        }
        assert(views(events@) =~= self.events());
        events
    }
}

impl EventManager for JSEventManager {
    open spec fn stored(&self) -> Map<Seq<char>, EventView> {
        self@
    }

    open spec fn key_of(&self, event: EventView) -> Seq<char> {
        identity_key(event, self.title_field@)
    }

    fn new_event(&mut self, event: Event)
        ensures
            final(self).data_file == old(self).data_file,
            final(self).title_field == old(self).title_field,
            old(self).well_formed() ==> final(self).well_formed(),
    {
        self.put(event);
    }
}

/// Of two events with one identity key that are put into a store one after
/// the other, the store holds the second under that key, and holds
/// everything else as if the first had never been put.
pub proof fn lemma_second_event_stays(
    stored: Map<Seq<char>, EventView>,
    first: EventView,
    second: EventView,
    title_field: Seq<char>,
)
    requires
        identity_key(first, title_field) == identity_key(second, title_field),
    ensures
        stored.insert(identity_key(first, title_field), first).insert(
            identity_key(second, title_field),
            second,
        ) == stored.insert(identity_key(second, title_field), second),
        stored.insert(identity_key(first, title_field), first).insert(
            identity_key(second, title_field),
            second,
        )[identity_key(first, title_field)] == second,
{
    let key = identity_key(first, title_field);
    assert(stored.insert(key, first).insert(key, second) =~= stored.insert(key, second));
}

/// Two texts that each begin with a run of digits and a `-` are equal only
/// where the runs are equal and what follows the `-` is equal.
proof fn lemma_digits_then_dash(a: Seq<char>, after_a: Seq<char>, b: Seq<char>, after_b: Seq<char>)
    requires
        all_digits(a),
        all_digits(b),
        a + seq!['-'] + after_a == b + seq!['-'] + after_b,
    ensures
        a == b,
        after_a == after_b,
    decreases a.len(),
{
    let left = a + seq!['-'] + after_a;
    let right = b + seq!['-'] + after_b;
    if a.len() == 0 {
        assert(left[0] == '-');
        if b.len() > 0 {
            assert(right[0] == b[0]);
        }
        assert(a =~= b);
        assert(after_a =~= left.skip(1));
        assert(after_b =~= right.skip(1));
    } else {
        assert(left[0] == a[0]);
        if b.len() == 0 {
            assert(right[0] == '-');
        }
        assert(right[0] == b[0]);
        assert(left.drop_first() =~= a.drop_first() + seq!['-'] + after_a);
        assert(right.drop_first() =~= b.drop_first() + seq!['-'] + after_b);
        lemma_digits_then_dash(a.drop_first(), after_a, b.drop_first(), after_b);
        assert(a =~= seq![a[0]] + a.drop_first());
        assert(b =~= seq![b[0]] + b.drop_first());
    }
}

/// Two texts that each begin with a written number and a `-` are equal only
/// where the numbers are equal and what follows the `-` is equal.
proof fn lemma_number_then_dash(a: int, after_a: Seq<char>, b: int, after_b: Seq<char>)
    requires
        decimal(a) + seq!['-'] + after_a == decimal(b) + seq!['-'] + after_b,
    ensures
        a == b,
        after_a == after_b,
{
    let left = decimal(a) + seq!['-'] + after_a;
    let right = decimal(b) + seq!['-'] + after_b;
    lemma_decimal_begins(a);
    lemma_decimal_begins(b);
    assert(left[0] == decimal(a)[0]);
    assert(right[0] == decimal(b)[0]);
    if a < 0 {
        let digits_a = decimal_digits((-a) as nat);
        let digits_b = decimal_digits((-b) as nat);
        lemma_decimal_digits((-a) as nat);
        lemma_decimal_digits((-b) as nat);
        assert(left.skip(1) =~= digits_a + seq!['-'] + after_a);
        assert(right.skip(1) =~= digits_b + seq!['-'] + after_b);
        lemma_digits_then_dash(digits_a, after_a, digits_b, after_b);
    } else {
        lemma_decimal_digits(a as nat);
        lemma_decimal_digits(b as nat);
        lemma_digits_then_dash(
            decimal_digits(a as nat),
            after_a,
            decimal_digits(b as nat),
            after_b,
        );
    }
}

/// A key's text tells its year, month, day and title: two keys with one
/// text are the same key.
pub proof fn lemma_key_text_injective(
    year: int,
    month: int,
    day: int,
    title: Seq<char>,
    other_year: int,
    other_month: int,
    other_day: int,
    other_title: Seq<char>,
)
    requires
        key_text(year, month, day, title) == key_text(
            other_year,
            other_month,
            other_day,
            other_title,
        ),
    ensures
        year == other_year,
        month == other_month,
        day == other_day,
        title == other_title,
{
    let dash = seq!['-'];
    let from_day = decimal(day) + dash + title;
    let from_month = decimal(month) + dash + from_day;
    let other_from_day = decimal(other_day) + dash + other_title;
    let other_from_month = decimal(other_month) + dash + other_from_day;
    assert(key_text(year, month, day, title) =~= decimal(year) + dash + from_month);
    assert(key_text(other_year, other_month, other_day, other_title) =~= decimal(other_year) + dash
        + other_from_month);
    lemma_number_then_dash(year, from_month, other_year, other_from_month);
    lemma_number_then_dash(month, from_day, other_month, other_from_day);
    lemma_number_then_dash(day, title, other_day, other_title);
}

/// Two events have one identity key only where they are on the same day and
/// have the same title.
pub proof fn lemma_identity_key_injective(
    event: EventView,
    other: EventView,
    title_field: Seq<char>,
)
    requires
        identity_key(event, title_field) == identity_key(other, title_field),
    ensures
        event.date_time.year == other.date_time.year,
        event.date_time.month == other.date_time.month,
        event.date_time.day == other.date_time.day,
        title_of(event, title_field) == title_of(other, title_field),
{
    lemma_key_text_injective(
        event.date_time.year as int,
        event.date_time.month as int,
        event.date_time.day as int,
        title_of(event, title_field),
        other.date_time.year as int,
        other.date_time.month as int,
        other.date_time.day as int,
        title_of(other, title_field),
    );
}

/// Loading the pairs of a well-formed store, in their order, gives the map
/// of those pairs.
proof fn lemma_loaded_pairs(pairs: Seq<(Seq<char>, Event)>, title_field: Seq<char>)
    requires
        forall|i: int|
            0 <= i < pairs.len() ==> (#[trigger] pairs[i]).0 == identity_key(
                pairs[i].1@,
                title_field,
            ),
    ensures
        loaded(
            Map::empty(),
            views(pairs.map_values(|pair: (Seq<char>, Event)| pair.1)),
            title_field,
        ) == events_of(pairs_map(pairs)),
    decreases pairs.len(),
{
    let events = views(pairs.map_values(|pair: (Seq<char>, Event)| pair.1));
    if pairs.len() == 0 {
        assert(events_of(pairs_map(pairs)) =~= Map::<Seq<char>, EventView>::empty());
    } else {
        let before = pairs.drop_last();
        lemma_loaded_pairs(before, title_field);
        assert(views(before.map_values(|pair: (Seq<char>, Event)| pair.1)) =~= events.drop_last());
        assert(events.last() == pairs.last().1@);
        assert(events_of(pairs_map(before).insert(pairs.last().0, pairs.last().1)) =~= events_of(
            pairs_map(before),
        ).insert(pairs.last().0, pairs.last().1@));
    }
}

/// What `save_events` hands out, `load_events` takes back: loading the
/// events of a well-formed store, in the order in which they are saved,
/// gives the store again.
pub proof fn lemma_save_then_load(store: JSEventManager)
    requires
        store.cached_events.well_formed(),
        store.well_formed(),
    ensures
        loaded(Map::empty(), store.events(), store.title_field@) == store@,
{
    let pairs = store.cached_events.pairs();
    assert forall|i: int| 0 <= i < pairs.len() implies (#[trigger] pairs[i]).0 == identity_key(
        pairs[i].1@,
        store.title_field@,
    ) by {
        lemma_pairs_map_value(pairs, i);
        assert(store.cached_events@.contains_key(pairs[i].0));
    }
    lemma_loaded_pairs(pairs, store.title_field@);
    assert(store.events() =~= views(pairs.map_values(|pair: (Seq<char>, Event)| pair.1)));
}

} // verus!
