//! The two commands: to list the stored events by day, and to refresh the
//! store from a batch of messages.

use crate::config::{Config, EmailTemplate};
use crate::email::Email;
use crate::events::{identity_key, views, EventManager, JSEventManager};
use crate::extraction::{match_all_templates, selected_event, DateTime, Event, EventView};
use vstd::prelude::*;
use vstd::seq_lib::to_multiset_insert;

verus! {

/// `a` is on an earlier day than `b`. The time of day plays no part.
pub open spec fn earlier(a: DateTime, b: DateTime) -> bool {
    ||| a.year < b.year
    ||| a.year == b.year && a.month < b.month
    ||| a.year == b.year && a.month == b.month && a.day < b.day
}

/// No event of the list is on an earlier day than one that stands before it.
pub open spec fn ordered_by_day(events: Seq<EventView>) -> bool {
    forall|i: int, j: int|
        0 <= i < j < events.len() ==> !earlier(
            (#[trigger] events[j]).date_time,
            (#[trigger] events[i]).date_time,
        )
}

/// Tests `earlier`.
fn is_earlier(a: &DateTime, b: &DateTime) -> (r: bool)
    ensures
        r == earlier(*a, *b),
{
    a.year < b.year || (a.year == b.year && a.month < b.month) || (a.year == b.year && a.month
        == b.month && a.day < b.day)
}

/// The events of the store, ordered by day: by year, then month, then day.
pub fn list(store: &JSEventManager) -> (events: Vec<Event>)
    ensures
        ordered_by_day(views(events@)),
        views(events@).to_multiset() == store.events().to_multiset(),
{
    let stored = store.save_events();
    let mut events: Vec<Event> = Vec::new();
    let mut i: usize = 0;
    assert(views(stored@).take(0) =~= Seq::<EventView>::empty());
    assert(views(events@) =~= Seq::<EventView>::empty());
    while i < stored.len()
        invariant
            i <= stored.len(),
            ordered_by_day(views(events@)),
            views(events@).to_multiset() == views(stored@).take(i as int).to_multiset(),
        decreases stored.len() - i,
    {
        let event = stored[i].clone();
        // the place of the first event on a later day
        let mut p: usize = 0;
        while p < events.len() && !is_earlier(&event.date_time, &events[p].date_time)
            invariant
                p <= events.len(),
                forall|j: int|
                    0 <= j < p ==> !earlier(event.date_time, (#[trigger] events@[j]).date_time),
            decreases events.len() - p,
        {
            p += 1;
        }
        let ghost before = views(events@);
        events.insert(p, event);
        proof {
            let after = views(events@);
            assert(after =~= before.insert(p as int, event@));
            to_multiset_insert(before, p as int, event@);
            assert(views(stored@).take(i + 1) =~= views(stored@).take(i as int).push(event@));
            vstd::seq_lib::to_multiset_build(views(stored@).take(i as int), event@);
            assert forall|a: int, b: int| 0 <= a < b < after.len() implies !earlier(
                (#[trigger] after[b]).date_time,
                (#[trigger] after[a]).date_time,
            ) by {
                if b < p {
                    assert(!earlier(before[b].date_time, before[a].date_time));
                } else if b == p {
                    assert(after[a] == before[a]);
                } else if a < p {
                    assert(after[b] == before[b - 1]);
                    assert(after[a] == before[a]);
                    if a < b - 1 {
                        assert(!earlier(before[b - 1].date_time, before[a].date_time));
                    }
                } else if a == p {
                    assert(after[b] == before[b - 1]);
                    if p < b - 1 {
                        assert(!earlier(before[b - 1].date_time, before[p as int].date_time));
                    }
                } else {
                    assert(after[a] == before[a - 1]);
                    assert(after[b] == before[b - 1]);
                    assert(!earlier(before[b - 1].date_time, before[a - 1].date_time));
                }
            }
        }
        i += 1;
    }
    assert(views(stored@).take(i as int) =~= views(stored@));
    events
}

/// The store that results from `stored` when each message of `messages`
/// that is there is read with `templates`, and each event that is read is put
/// into the store under its identity key, one after the other.
pub open spec fn refreshed(
    stored: Map<Seq<char>, EventView>,
    messages: Seq<Option<Email>>,
    templates: Seq<EmailTemplate>,
    title_field: Seq<char>,
) -> Map<Seq<char>, EventView>
    decreases messages.len(),
{
    if messages.len() == 0 {
        stored
    } else {
        let before = refreshed(stored, messages.drop_last(), templates, title_field);
        match messages.last() {
            Some(message) => match selected_event(message, templates) {
                Some(event) => before.insert(identity_key(event, title_field), event),
                None => before,
            },
            None => before,
        }
    }
}

/// Reads each message that is there with the templates of `config` and puts
/// the events into the store. A message from which no template reads an
/// event leaves the store as it is.
pub fn refresh(store: &mut JSEventManager, messages: &Vec<Option<Email>>, config: &Config)
    requires
        config.well_formed(),
    ensures
        final(store)@ == refreshed(
            old(store)@,
            messages@,
            config.email_templates@,
            old(store).title_field@,
        ),
        final(store).data_file == old(store).data_file,
        final(store).title_field == old(store).title_field,
        old(store).well_formed() ==> final(store).well_formed(),
{
    let mut i: usize = 0;
    assert(messages@.take(0) =~= Seq::<Option<Email>>::empty());
    while i < messages.len()
        invariant
            i <= messages.len(),
            config.well_formed(),
            store@ == refreshed(
                old(store)@,
                messages@.take(i as int),
                config.email_templates@,
                old(store).title_field@,
            ),
            store.data_file == old(store).data_file,
            store.title_field == old(store).title_field,
            old(store).well_formed() ==> store.well_formed(),
        decreases messages.len() - i,
    {
        assert(messages@.take(i + 1).drop_last() =~= messages@.take(i as int));
        assert(messages@.take(i + 1).last() == messages@[i as int]);
        if let Some(message) = &messages[i] {
            if let Some(event) = match_all_templates(message, config) {
                store.new_event(event);
            }
        }
        i += 1;
    }
    assert(messages@.take(i as int) =~= messages@);
}

/// `refresh`, after a test of the configuration: where one of its patterns
/// is no regular expression, nothing is read and the store stays as it is.
pub fn refresh_checked(
    store: &mut JSEventManager,
    messages: &Vec<Option<Email>>,
    config: &Config,
) -> (done: bool)
    ensures
        done == config.well_formed(),
        final(store)@ == if done {
            refreshed(old(store)@, messages@, config.email_templates@, old(store).title_field@)
        } else {
            old(store)@
        },
        final(store).data_file == old(store).data_file,
        final(store).title_field == old(store).title_field,
        old(store).well_formed() ==> final(store).well_formed(),
{
    if config.check() {
        refresh(store, messages, config);
        true
    } else {
        false
    }
}

} // verus!
