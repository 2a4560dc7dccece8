//! Things sorted by the room they belong to.

use crate::raw::RawJson;
use crate::text::{compare_text, Relation};
use vstd::prelude::*;

verus! {

use crate::text::{lemma_text_order_asymmetric, lemma_text_order_transitive, text_before};

/// A room, by its id, with events of it.
pub type RoomEvents = (String, Vec<RawJson>);

/// `ids` are in strictly ascending order, so none occurs twice.
pub open spec fn in_order(ids: Seq<Seq<char>>) -> bool {
    forall|i: int, j: int| 0 <= i < j < ids.len() ==> text_before(#[trigger] ids[i], #[trigger] ids[j])
}

/// What room ids stand for.
pub open spec fn id_views(ids: Seq<String>) -> Seq<Seq<char>> {
    ids.map_values(|id: String| id@)
}

/// The ids of rooms.
pub open spec fn room_ids(rooms: Seq<RoomEvents>) -> Seq<Seq<char>> {
    rooms.map_values(|room: RoomEvents| room.0@)
}

/// `by_room` with more events of a room after those that it has.
pub open spec fn with_events(
    by_room: Map<Seq<char>, Seq<RawJson>>,
    id: Seq<char>,
    events: Seq<RawJson>,
) -> Map<Seq<char>, Seq<RawJson>> {
    by_room.insert(
        id,
        if by_room.contains_key(id) {
            by_room[id] + events
        } else {
            events
        },
    )
}

/// The events of each room that is listed, in the order of the list.
pub open spec fn events_by_room(rooms: Seq<RoomEvents>) -> Map<Seq<char>, Seq<RawJson>>
    decreases rooms.len(),
{
    if rooms.len() == 0 {
        Map::empty()
    } else {
        with_events(events_by_room(rooms.drop_last()), rooms.last().0@, rooms.last().1@)
    }
}

/// Where in `ids` a room stands, or else before which it belongs.
fn locate(ids: &Vec<String>, id: &str) -> (found: Result<usize, usize>)
    requires
        in_order(id_views(ids@)),
    ensures
        match found {
            Ok(i) => i < ids@.len() && ids@[i as int]@ == id@,
            Err(i) => {
                &&& i <= ids@.len()
                &&& forall|j: int| 0 <= j < i ==> text_before(#[trigger] ids@[j]@, id@)
                &&& forall|j: int| i <= j < ids@.len() ==> text_before(id@, #[trigger] ids@[j]@)
            },
        },
{
    let mut low: usize = 0;
    let mut high: usize = ids.len();
    while low < high
        invariant
            in_order(id_views(ids@)),
            low <= high <= ids@.len(),
            forall|j: int| 0 <= j < low ==> text_before(#[trigger] ids@[j]@, id@),
            forall|j: int| high <= j < ids@.len() ==> text_before(id@, #[trigger] ids@[j]@),
        decreases high - low,
    {
        let middle: usize = low + (high - low) / 2;
        let ghost pivot = ids@[middle as int]@;
        let ghost views = id_views(ids@);
        match compare_text(ids[middle].as_str(), id) {
            Relation::Same => {
                return Ok(middle);
            },
            Relation::Before => {
                proof {
                    assert forall|j: int| 0 <= j < middle + 1 implies text_before(
                        #[trigger] ids@[j]@,
                        id@,
                    ) by {
                        if j < middle {
                            assert(text_before(views[j], views[middle as int]));
                            lemma_text_order_transitive(ids@[j]@, pivot, id@);
                        }
                    }
                }
                low = middle + 1;
            },
            Relation::After => {
                proof {
                    assert forall|j: int| middle <= j < ids@.len() implies text_before(
                        id@,
                        #[trigger] ids@[j]@,
                    ) by {
                        if j > middle {
                            assert(text_before(views[middle as int], views[j]));
                            lemma_text_order_transitive(id@, pivot, ids@[j]@);
                        }
                    }
                }
                high = middle;
            },
        }
    }
    Err(low)
}

/// An id put where it belongs leaves the ids in order.
proof fn lemma_insert_keeps_order(ids: Seq<String>, i: int, id: String)
    requires
        in_order(id_views(ids)),
        0 <= i <= ids.len(),
        forall|j: int| 0 <= j < i ==> text_before(#[trigger] ids[j]@, id@),
        forall|j: int| i <= j < ids.len() ==> text_before(id@, #[trigger] ids[j]@),
    ensures
        in_order(id_views(ids.insert(i, id))),
{
    let before = id_views(ids);
    let after = id_views(ids.insert(i, id));
    assert forall|a: int, b: int| 0 <= a < b < after.len() implies text_before(
        #[trigger] after[a],
        #[trigger] after[b],
    ) by {
        let ids_after = ids.insert(i, id);
        if a != i {
            assert(ids_after[a] == ids[if a < i { a } else { a - 1 }]);
            assert(after[a] == before[if a < i { a } else { a - 1 }]);
        }
        if b != i {
            assert(ids_after[b] == ids[if b < i { b } else { b - 1 }]);
            assert(after[b] == before[if b < i { b } else { b - 1 }]);
        }
    }
}

/// The given room ids, each once, in order.
pub fn distinct_rooms(ids: Vec<String>) -> (distinct: Vec<String>)
    ensures
        in_order(id_views(distinct@)),
        forall|id: Seq<char>| #[trigger]
            id_views(distinct@).contains(id) <==> id_views(ids@).contains(id),
{
    let mut distinct: Vec<String> = Vec::new();
    let ghost all = ids@;
    for id in iter: ids
        invariant
            iter.seq() == all,
            in_order(id_views(distinct@)),
            forall|i: int|
                0 <= i < iter.index() ==> id_views(distinct@).contains(#[trigger] all[i]@),
            forall|j: int|
                0 <= j < distinct@.len() ==> id_views(all).contains(#[trigger] distinct@[j]@),
    {
        let ghost before = distinct@;
        let ghost k = iter.index() as int;
        assert(id_views(all)[k] == id@);
        match locate(&distinct, id.as_str()) {
            Ok(i) => {
                assert(id_views(distinct@)[i as int] == id@);
            },
            Err(i) => {
                let ghost text = id@;
                proof {
                    lemma_insert_keeps_order(before, i as int, id);
                }
                distinct.insert(i, id);
                proof {
                    let after = distinct@;
                    assert(id_views(after)[i as int] == text);
                    assert forall|n: int| 0 <= n < k + 1 implies id_views(after).contains(
                        #[trigger] all[n]@,
                    ) by {
                        if n < k {
                            let j = choose|j: int|
                                0 <= j < before.len() && id_views(before)[j] == all[n]@;
                            assert(id_views(after)[if j < i { j } else { j + 1 }] == all[n]@);
                        }
                    }
                    assert forall|j: int| 0 <= j < after.len() implies id_views(all).contains(
                        #[trigger] after[j]@,
                    ) by {
                        if j != i {
                            assert(after[j] == before[if j < i { j } else { j - 1 }]);
                        }
                    }
                }
            },
        }
    }
    proof {
        assert forall|id: Seq<char>| #[trigger]
            id_views(distinct@).contains(id) <==> id_views(all).contains(id) by {
            if id_views(distinct@).contains(id) {
                let j = choose|j: int| 0 <= j < distinct@.len() && id_views(distinct@)[j] == id;
                assert(distinct@[j]@ == id);
            }
            if id_views(all).contains(id) {
                let n = choose|n: int| 0 <= n < all.len() && id_views(all)[n] == id;
                assert(all[n]@ == id);
            }
        }
    }
    distinct
}

/// `ids` and `events`, side by side, are the rooms of `by_room` and their
/// events.
spec fn holds(
    ids: Seq<String>,
    events: Seq<Vec<RawJson>>,
    by_room: Map<Seq<char>, Seq<RawJson>>,
) -> bool {
    &&& in_order(id_views(ids))
    &&& ids.len() == events.len()
    &&& forall|i: int|
        0 <= i < ids.len() ==> by_room.contains_key(#[trigger] ids[i]@) && by_room[ids[i]@]
            == events[i]@
    &&& forall|id: Seq<char>| #[trigger]
        by_room.contains_key(id) ==> exists|i: int| 0 <= i < ids.len() && #[trigger] ids[i]@ == id
}

/// No room stands in two places.
proof fn lemma_places_are_distinct(ids: Seq<String>, i: int, j: int)
    requires
        in_order(id_views(ids)),
        0 <= i < ids.len(),
        0 <= j < ids.len(),
        ids[i]@ == ids[j]@,
    ensures
        i == j,
{
    let views = id_views(ids);
    if i < j {
        assert(text_before(views[i], views[j]));
        lemma_text_order_asymmetric(views[i], views[j]);
    } else if j < i {
        assert(text_before(views[j], views[i]));
        lemma_text_order_asymmetric(views[j], views[i]);
    }
}

/// Add events of a room to the two columns.
fn add_events(
    ids: &mut Vec<String>,
    events: &mut Vec<Vec<RawJson>>,
    room: RoomEvents,
    Ghost(by_room): Ghost<Map<Seq<char>, Seq<RawJson>>>,
)
    requires
        holds(old(ids)@, old(events)@, by_room),
    ensures
        holds(final(ids)@, final(events)@, with_events(by_room, room.0@, room.1@)),
{
    let ghost target = with_events(by_room, room.0@, room.1@);
    let ghost ids_before = ids@;
    let ghost events_before = events@;
    let (id, more) = room;
    let ghost key = id@;
    match locate(ids, id.as_str()) {
        Ok(i) => {
            let mut more = more;
            let mut all = events.remove(i);
            all.append(&mut more);
            events.insert(i, all);
            proof {
                assert(events@ =~= events_before.update(i as int, events@[i as int]));
                assert(events@[i as int]@ =~= events_before[i as int]@ + room.1@);
                assert forall|j: int| 0 <= j < ids@.len() implies target.contains_key(
                    #[trigger] ids@[j]@,
                ) && target[ids@[j]@] == events@[j]@ by {
                    if j != i {
                        if ids@[j]@ == key {
                            lemma_places_are_distinct(ids@, i as int, j);
                        }
                    }
                }
                assert forall|k: Seq<char>| #[trigger] target.contains_key(k) implies exists|j: int|
                    0 <= j < ids@.len() && #[trigger] ids@[j]@ == k by {
                    if k == key {
                        assert(ids@[i as int]@ == k);
                    } else {
                        assert(by_room.contains_key(k));
                    }
                }
            }
        },
        Err(i) => {
            proof {
                lemma_insert_keeps_order(ids_before, i as int, id);
                if by_room.contains_key(key) {
                    let j = choose|j: int| 0 <= j < ids_before.len() && #[trigger] ids_before[j]@ == key;
                    if j < i {
                        lemma_text_order_asymmetric(ids_before[j]@, key);
                    } else {
                        lemma_text_order_asymmetric(key, ids_before[j]@);
                    }
                }
            }
            ids.insert(i, id);
            events.insert(i, more);
            proof {
                assert forall|j: int| 0 <= j < ids@.len() implies target.contains_key(
                    #[trigger] ids@[j]@,
                ) && target[ids@[j]@] == events@[j]@ by {
                    if j != i {
                        let n = if j < i { j } else { j - 1 };
                        assert(ids@[j] == ids_before[n]);
                        assert(events@[j] == events_before[n]);
                    }
                }
                assert forall|k: Seq<char>| #[trigger] target.contains_key(k) implies exists|j: int|
                    0 <= j < ids@.len() && #[trigger] ids@[j]@ == k by {
                    if k == key {
                        assert(ids@[i as int]@ == k);
                    } else {
                        assert(by_room.contains_key(k));
                        let j = choose|j: int| 0 <= j < ids_before.len() && #[trigger] ids_before[j]@ == k;
                        assert(ids@[if j < i { j } else { j + 1 }]@ == k);
                    }
                }
            }
        },
    }
}

/// The columns stand for a list of rooms in which each occurs once.
proof fn lemma_columns_as_rooms(
    rooms: Seq<RoomEvents>,
    ids: Seq<String>,
    events: Seq<Vec<RawJson>>,
    by_room: Map<Seq<char>, Seq<RawJson>>,
)
    requires
        holds(ids, events, by_room),
        rooms.len() == ids.len(),
        forall|i: int|
            0 <= i < rooms.len() ==> (#[trigger] rooms[i]).0@ == ids[i]@ && rooms[i].1 == events[i],
    ensures
        events_by_room(rooms) == by_room,
        in_order(room_ids(rooms)),
    decreases rooms.len(),
{
    assert(room_ids(rooms) =~= id_views(ids));
    if rooms.len() == 0 {
        assert(by_room =~= Map::empty());
    } else {
        let n = rooms.len() - 1;
        let last = ids[n]@;
        let others = by_room.remove(last);
        let init = ids.drop_last();
        assert(in_order(id_views(init))) by {
            assert(id_views(init) =~= id_views(ids).drop_last());
        }
        assert forall|i: int| 0 <= i < init.len() implies others.contains_key(#[trigger] init[i]@)
            && others[init[i]@] == events.drop_last()[i]@ by {
            assert(init[i] == ids[i]);
            if ids[i]@ == last {
                lemma_places_are_distinct(ids, i, n);
            }
        }
        assert forall|id: Seq<char>| #[trigger] others.contains_key(id) implies exists|i: int|
            0 <= i < init.len() && #[trigger] init[i]@ == id by {
            assert(by_room.contains_key(id));
            let i = choose|i: int| 0 <= i < ids.len() && #[trigger] ids[i]@ == id;
            assert(init[i]@ == id);
        }
        assert forall|i: int| 0 <= i < rooms.drop_last().len() implies (#[trigger] rooms.drop_last()[i]).0@
            == init[i]@ && rooms.drop_last()[i].1 == events.drop_last()[i] by {
            assert(rooms.drop_last()[i] == rooms[i]);
        }
        lemma_columns_as_rooms(rooms.drop_last(), init, events.drop_last(), others);
        assert(rooms.last() == rooms[n]);
        assert(by_room.contains_key(ids[n]@));
        assert(events_by_room(rooms) =~= by_room);
    }
}

/// Gather, per room and in the order of the room ids, the events of both lists:
/// first those of `section`, then those of `timelines`.
pub fn gather_by_room(section: Vec<RoomEvents>, timelines: Vec<RoomEvents>) -> (rooms: Vec<
    RoomEvents,
>)
    ensures
        in_order(room_ids(rooms@)),
        events_by_room(rooms@) == events_by_room(section@ + timelines@),
{
    let mut lists = section;
    let mut timelines = timelines;
    let ghost all = section@ + timelines@;
    lists.append(&mut timelines);
    let mut ids: Vec<String> = Vec::new();
    let mut events: Vec<Vec<RawJson>> = Vec::new();
    for room in iter: lists
        invariant
            iter.seq() == all,
            holds(ids@, events@, events_by_room(all.take(iter.index() as int))),
    {
        let ghost i = iter.index() as int;
        let ghost before = events_by_room(all.take(i));
        proof {
            assert(all.take(i + 1).drop_last() =~= all.take(i));
            assert(all.take(i + 1).last() == room);
        }
        add_events(&mut ids, &mut events, room, Ghost(before));
    }
    let mut rooms: Vec<RoomEvents> = Vec::new();
    let ghost columns = events@;
    let mut i: usize = 0;
    for room_events in iter: events
        invariant
            iter.seq() == columns,
            i == iter.index(),
            ids@.len() == columns.len(),
            rooms@.len() == i,
            forall|j: int|
                0 <= j < rooms@.len() ==> (#[trigger] rooms@[j]).0@ == ids@[j]@ && rooms@[j].1
                    == columns[j],
    {
        rooms.push((ids[i].clone(), room_events));
        assert(i < ids.len());
        i = i + 1;
    }
    proof {
        assert(all.take(all.len() as int) =~= all);
        lemma_columns_as_rooms(rooms@, ids@, columns, events_by_room(all));
    }
    rooms
}

/// Ids in order come each before all that follow, and none comes twice.
pub proof fn law_rooms_come_in_order(ids: Seq<String>, i: int, j: int)
    requires
        in_order(id_views(ids)),
        0 <= i < j < ids.len(),
    ensures
        text_before(ids[i]@, ids[j]@),
        ids[i]@ != ids[j]@,
{
    assert(id_views(ids)[i] == ids[i]@);
    assert(id_views(ids)[j] == ids[j]@);
    lemma_text_order_asymmetric(ids[i]@, ids[j]@);
}

/// A room is among the listed ids exactly if one of them is its id.
pub proof fn law_listed_rooms_are_those_named(ids: Seq<String>, id: Seq<char>)
    ensures
        id_views(ids).contains(id) <==> exists|i: int|
            0 <= i < ids.len() && #[trigger] ids[i]@ == id,
{
    if id_views(ids).contains(id) {
        let i = choose|i: int| 0 <= i < ids.len() && id_views(ids)[i] == id;
        assert(ids[i]@ == id);
    }
    if exists|i: int| 0 <= i < ids.len() && #[trigger] ids[i]@ == id {
        let i = choose|i: int| 0 <= i < ids.len() && #[trigger] ids[i]@ == id;
        assert(id_views(ids)[i] == id);
    }
}

/// One more list of events for a room adds those events after the ones that the
/// room has, and leaves every other room as it was.
pub proof fn law_more_events_come_after(rooms: Seq<RoomEvents>, more: RoomEvents, other: Seq<char>)
    ensures
        ({
            let before = events_by_room(rooms);
            let after = events_by_room(rooms.push(more));
            &&& after.contains_key(more.0@)
            &&& before.contains_key(more.0@) ==> after[more.0@] == before[more.0@] + more.1@
            &&& !before.contains_key(more.0@) ==> after[more.0@] == more.1@
            &&& other != more.0@ ==> (after.contains_key(other) <==> before.contains_key(other))
            &&& other != more.0@ && before.contains_key(other) ==> after[other] == before[other]
        }),
        !events_by_room(Seq::<RoomEvents>::empty()).contains_key(other),
{
    assert(rooms.push(more).drop_last() =~= rooms);
}

/// The events that a list has for a room that it names once, or none.
proof fn lemma_events_of_distinct_rooms(rooms: Seq<RoomEvents>, id: Seq<char>)
    requires
        forall|i: int, j: int| 0 <= i < j < rooms.len() ==> (#[trigger] rooms[i]).0@ != (
        #[trigger] rooms[j]).0@,
    ensures
        events_by_room(rooms).contains_key(id) <==> exists|i: int|
            0 <= i < rooms.len() && (#[trigger] rooms[i]).0@ == id,
        forall|i: int|
            0 <= i < rooms.len() && (#[trigger] rooms[i]).0@ == id ==> events_by_room(rooms)[id]
                == rooms[i].1@,
    decreases rooms.len(),
{
    if rooms.len() > 0 {
        let init = rooms.drop_last();
        let n = rooms.len() - 1;
        assert forall|i: int, j: int| 0 <= i < j < init.len() implies (#[trigger] init[i]).0@ != (
        #[trigger] init[j]).0@ by {
            assert(init[i] == rooms[i]);
            assert(init[j] == rooms[j]);
        }
        lemma_events_of_distinct_rooms(init, id);
        assert(rooms[n] == rooms.last());
        if events_by_room(init).contains_key(id) {
            let i = choose|i: int| 0 <= i < init.len() && (#[trigger] init[i]).0@ == id;
            assert(rooms[i] == init[i]);
            assert(rooms[i].0@ != rooms[n].0@);
        }
        assert forall|i: int| 0 <= i < rooms.len() && (#[trigger] rooms[i]).0@ == id implies events_by_room(
            rooms,
        )[id] == rooms[i].1@ by {
            if i < n {
                assert(init[i] == rooms[i]);
            }
        }
        if exists|i: int| 0 <= i < rooms.len() && (#[trigger] rooms[i]).0@ == id {
            let i = choose|i: int| 0 <= i < rooms.len() && (#[trigger] rooms[i]).0@ == id;
            if i < n {
                assert(init[i] == rooms[i]);
            }
        }
    }
}

/// Gathering `more` lists onto `rooms`.
proof fn lemma_events_of_both(rooms: Seq<RoomEvents>, more: Seq<RoomEvents>, id: Seq<char>)
    ensures
        ({
            let both = events_by_room(rooms + more);
            let (one, two) = (events_by_room(rooms), events_by_room(more));
            &&& both.contains_key(id) <==> one.contains_key(id) || two.contains_key(id)
            &&& both.contains_key(id) ==> both[id] == (if one.contains_key(id) {
                one[id]
            } else {
                Seq::empty()
            }) + (if two.contains_key(id) {
                two[id]
            } else {
                Seq::empty()
            })
        }),
    decreases more.len(),
{
    if more.len() == 0 {
        assert(rooms + more =~= rooms);
        if events_by_room(rooms).contains_key(id) {
            assert(events_by_room(rooms)[id] + Seq::<RawJson>::empty() =~= events_by_room(rooms)[id]);
        }
    } else {
        let init = more.drop_last();
        lemma_events_of_both(rooms, init, id);
        assert((rooms + more).drop_last() =~= rooms + init);
        assert((rooms + more).last() == more.last());
        let both = events_by_room(rooms + more);
        if both.contains_key(id) {
            let (one, two) = (events_by_room(rooms), events_by_room(more));
            assert(both[id] =~= (if one.contains_key(id) {
                one[id]
            } else {
                Seq::empty()
            }) + (if two.contains_key(id) {
                two[id]
            } else {
                Seq::empty()
            }));
        }
    }
}

/// What is gathered is, for each room that either list names and for no other, the
/// events that the section has for it followed by those of its timeline.
pub proof fn law_gathered_events_are_those_of_both_lists(
    section: Seq<RoomEvents>,
    timelines: Seq<RoomEvents>,
    gathered: Seq<RoomEvents>,
    i: int,
    id: Seq<char>,
)
    requires
        forall|a: int, b: int| 0 <= a < b < section.len() ==> (#[trigger] section[a]).0@ != (
        #[trigger] section[b]).0@,
        forall|a: int, b: int| 0 <= a < b < timelines.len() ==> (#[trigger] timelines[a]).0@ != (
        #[trigger] timelines[b]).0@,
        in_order(room_ids(gathered)),
        events_by_room(gathered) == events_by_room(section + timelines),
    ensures
        (exists|n: int| 0 <= n < gathered.len() && (#[trigger] gathered[n]).0@ == id) <==> {
            ||| exists|a: int| 0 <= a < section.len() && (#[trigger] section[a]).0@ == id
            ||| exists|b: int| 0 <= b < timelines.len() && (#[trigger] timelines[b]).0@ == id
        },
        forall|a: int, b: int|
            0 <= i < gathered.len() && 0 <= a < section.len() && 0 <= b < timelines.len() && (
            #[trigger] section[a]).0@ == gathered[i].0@ && (#[trigger] timelines[b]).0@
                == gathered[i].0@ ==> gathered[i].1@ == section[a].1@ + timelines[b].1@,
        forall|a: int|
            0 <= i < gathered.len() && 0 <= a < section.len() && (#[trigger] section[a]).0@
                == gathered[i].0@ && (forall|b: int|
                0 <= b < timelines.len() ==> (#[trigger] timelines[b]).0@ != gathered[i].0@)
                ==> gathered[i].1@ == section[a].1@,
        forall|b: int|
            0 <= i < gathered.len() && 0 <= b < timelines.len() && (#[trigger] timelines[b]).0@
                == gathered[i].0@ && (forall|a: int|
                0 <= a < section.len() ==> (#[trigger] section[a]).0@ != gathered[i].0@)
                ==> gathered[i].1@ == timelines[b].1@,
        forall|a: int, b: int|
            0 <= a < b < gathered.len() ==> text_before(
                (#[trigger] gathered[a]).0@,
                (#[trigger] gathered[b]).0@,
            ),
{
    assert forall|a: int, b: int| 0 <= a < b < gathered.len() implies text_before(
        (#[trigger] gathered[a]).0@,
        (#[trigger] gathered[b]).0@,
    ) && gathered[a].0@ != gathered[b].0@ by {
        let ids = room_ids(gathered);
        assert(ids[a] == gathered[a].0@ && ids[b] == gathered[b].0@);
        lemma_text_order_asymmetric(ids[a], ids[b]);
    }
    lemma_events_of_distinct_rooms(gathered, id);
    lemma_events_of_distinct_rooms(section, id);
    lemma_events_of_distinct_rooms(timelines, id);
    lemma_events_of_both(section, timelines, id);
    if 0 <= i < gathered.len() {
        let name = gathered[i].0@;
        lemma_events_of_distinct_rooms(gathered, name);
        lemma_events_of_distinct_rooms(section, name);
        lemma_events_of_distinct_rooms(timelines, name);
        lemma_events_of_both(section, timelines, name);
        assert(events_by_room(gathered).contains_key(name));
        let (one, two) = (events_by_room(section), events_by_room(timelines));
        if one.contains_key(name) && !two.contains_key(name) {
            assert(one[name] + Seq::<RawJson>::empty() =~= one[name]);
        }
        if !one.contains_key(name) && two.contains_key(name) {
            assert(Seq::<RawJson>::empty() + two[name] =~= two[name]);
        }
    }
}

} // verus!
