//! The decimal units of a count of bytes, each known by its place: 0 for bytes, 1
//! for kilobytes, and so on up to 8 for yottabytes.

use vstd::prelude::*;

verus! {

/// How many bytes the unit at the given place holds, but for the bytes themselves,
/// which stand at zero: a thousand to the power of the place.
pub open spec fn unit_value(place: u8) -> int {
    if place == 0 {
        0
    } else if place == 1 {
        1_000
    } else if place == 2 {
        1_000_000
    } else if place == 3 {
        1_000_000_000
    } else if place == 4 {
        1_000_000_000_000
    } else if place == 5 {
        1_000_000_000_000_000
    } else if place == 6 {
        1_000_000_000_000_000_000
    } else if place == 7 {
        1_000_000_000_000_000_000_000
    } else {
        1_000_000_000_000_000_000_000_000
    }
}

/// The value against which the units are measured before any of them was looked
/// at: the greatest count.
pub open spec fn no_unit() -> int {
    i128::MAX as int
}

/// The distance between two counts.
pub open spec fn distance(a: int, b: int) -> int {
    if a < b {
        b - a
    } else {
        a - b
    }
}

/// Whether the greatest count is at least as near to `count` as any unit is, so
/// that no unit is chosen.
pub open spec fn none_is_near(count: int) -> bool {
    distance(count, unit_value(8)) >= distance(count, no_unit())
}

/// The place of the unit whose value is nearest to `count`, which is not negative;
/// of two that are equally near, the lesser one.
pub open spec fn nearest_place(count: int) -> u8 {
    if count <= 500 {
        0
    } else if count <= 500_500 {
        1
    } else if count <= 500_500_000 {
        2
    } else if count <= 500_500_000_000 {
        3
    } else if count <= 500_500_000_000_000 {
        4
    } else if count <= 500_500_000_000_000_000 {
        5
    } else if count <= 500_500_000_000_000_000_000 {
        6
    } else if count <= 500_500_000_000_000_000_000_000 {
        7
    } else {
        8
    }
}

/// The units by their places, each with its value, in a `hashbrown::HashMap`.
#[verifier::external_body]
pub struct UnitTable {
    map: hashbrown::HashMap<u8, i128>,
}

/// The places that the table holds, each with its value.
pub uninterp spec fn table_entries(table: UnitTable) -> Map<u8, i128>;

/// `hashbrown::HashMap::new`: a map without entries.
#[verifier::external_body]
fn empty_table() -> (table: UnitTable)
    ensures
        table_entries(table).dom() == Set::<u8>::empty(),
{
    UnitTable { map: hashbrown::HashMap::new() }
}

/// `hashbrown::HashMap::insert`: the key has the given value afterwards, and the
/// other keys are as before.
#[verifier::external_body]
fn table_insert(table: &mut UnitTable, place: u8, value: i128)
    ensures
        table_entries(*final(table)) == table_entries(*old(table)).insert(place, value),
{
    table.map.insert(place, value);
}

/// `hashbrown::HashMap::contains_key`: whether the map has the key.
#[verifier::external_body]
fn table_contains(table: &UnitTable, place: u8) -> (b: bool)
    ensures
        b == table_entries(*table).contains_key(place),
{
    table.map.contains_key(&place)
}

/// `hashbrown::HashMap::index`: the value of a key that the map has.
#[verifier::external_body]
fn table_value(table: &UnitTable, place: u8) -> (value: i128)
    requires
        table_entries(*table).contains_key(place),
    ensures
        value == table_entries(*table)[place],
{
    table.map[&place]
}

/// The table of the nine units.
pub fn unit_table() -> (table: UnitTable)
    ensures
        forall|place: u8| table_entries(table).contains_key(place) == (place <= 8),
        forall|place: u8| place <= 8 ==> table_entries(table)[place] == unit_value(place),
{
    let mut table = empty_table();
    table_insert(&mut table, 0, 0);
    table_insert(&mut table, 1, 1_000);
    table_insert(&mut table, 2, 1_000_000);
    table_insert(&mut table, 3, 1_000_000_000);
    table_insert(&mut table, 4, 1_000_000_000_000);
    table_insert(&mut table, 5, 1_000_000_000_000_000);
    table_insert(&mut table, 6, 1_000_000_000_000_000_000);
    table_insert(&mut table, 7, 1_000_000_000_000_000_000_000);
    table_insert(&mut table, 8, 1_000_000_000_000_000_000_000_000);
    table
}

/// The value nearest to `count` among those of the units at the given places, looked
/// at in their order, and the place of its unit: the greatest count and no place
/// before any unit was looked at; a place above 8 names no unit and is passed
/// over; and a unit takes the place of what is held only if it is nearer, so that of
/// two that are equally near the one looked at first stays.
pub open spec fn nearest_among(places: Seq<u8>, count: int) -> (int, Option<u8>)
    decreases places.len(),
{
    if places.len() == 0 {
        (no_unit(), None)
    } else {
        let held = nearest_among(places.drop_last(), count);
        let place = places.last();
        if place <= 8 && distance(count, unit_value(place)) < distance(count, held.0) {
            (unit_value(place), Some(place))
        } else {
            held
        }
    }
}

/// What is found among the places is the nearest of their units: it is one of
/// them, nearer than the greatest count and at least as near as any other, and
/// every unit looked at before it is further away. Nothing is found only where
/// no unit is nearer than the greatest count.
pub proof fn lemma_nearest_among(places: Seq<u8>, count: int)
    ensures
        match nearest_among(places, count).1 {
            Some(found) => {
                &&& found <= 8
                &&& nearest_among(places, count).0 == unit_value(found)
                &&& distance(count, unit_value(found)) < distance(count, no_unit())
                &&& forall|i: int|
                    0 <= i < places.len() && places[i] <= 8 ==> distance(count, unit_value(found))
                        <= distance(count, unit_value(#[trigger] places[i]))
                &&& exists|at: int|
                    0 <= at < places.len() && #[trigger] places[at] == found && forall|i: int|
                        0 <= i < at && places[i] <= 8 ==> distance(count, unit_value(found))
                            < distance(count, unit_value(#[trigger] places[i]))
            },
            None => {
                &&& nearest_among(places, count).0 == no_unit()
                &&& forall|i: int|
                    0 <= i < places.len() && places[i] <= 8 ==> distance(count, no_unit())
                        <= distance(count, unit_value(#[trigger] places[i]))
            },
        },
    decreases places.len(),
{
    if places.len() > 0 {
        let before = places.drop_last();
        lemma_nearest_among(before, count);
        let held = nearest_among(before, count);
        let place = places.last();
        assert forall|i: int| 0 <= i < before.len() implies before[i] == places[i] by {}
        if place <= 8 && distance(count, unit_value(place)) < distance(count, held.0) {
            let at = places.len() - 1;
            assert(places[at] == place);
        } else {
            match held.1 {
                Some(found) => {
                    let at = choose|at: int|
                        0 <= at < before.len() && #[trigger] before[at] == found && forall|i: int|
                            0 <= i < at && before[i] <= 8 ==> distance(count, unit_value(found))
                                < distance(count, unit_value(#[trigger] before[i]));
                    assert(places[at] == found);
                },
                None => {},
            }
        }
    }
}

/// The nine places, from bytes up.
pub open spec fn every_place() -> Seq<u8> {
    seq![0u8, 1u8, 2u8, 3u8, 4u8, 5u8, 6u8, 7u8, 8u8]
}

/// Among the first `n` of the nine places, the nearest unit to a count is the one
/// at `nearest_place` if that is among them and the last of them if it is not,
/// unless the greatest count is nearer.
proof fn lemma_nearest_of_first(count: int, n: nat)
    requires
        0 <= count <= no_unit(),
        n <= 9,
    ensures
        ({
            let r = nearest_among(every_place().subrange(0, n as int), count);
            &&& r.1.is_none() ==> r.0 == no_unit() && (n == 0 || 2 * count >= no_unit() + unit_value(
                (n - 1) as u8,
            ))
            &&& r.1 matches Some(place) ==> n >= 1 && r.0 == unit_value(place) && place == if nearest_place(
                count,
            ) < n {
                nearest_place(count)
            } else {
                (n - 1) as u8
            } && !none_is_near(count)
        }),
    decreases n,
{
    if n > 0 {
        lemma_nearest_of_first(count, (n - 1) as nat);
        let places = every_place().subrange(0, n as int);
        assert(places.drop_last() =~= every_place().subrange(0, n - 1));
        assert(places.last() == (n - 1) as u8);
    }
}

/// Among all nine places, the nearest unit to a count is the one at
/// `nearest_place`, unless the greatest count is nearer.
pub proof fn lemma_nearest_of_all(count: int)
    requires
        0 <= count <= no_unit(),
    ensures
        nearest_among(every_place(), count) == if none_is_near(count) {
            (no_unit(), None::<u8>)
        } else {
            (unit_value(nearest_place(count)), Some(nearest_place(count)))
        },
{
    lemma_nearest_of_first(count, 9);
    assert(every_place().subrange(0, 9) =~= every_place());
}

/// The value nearest to `count`, which is not negative, among those of the units
/// at the given places, looked at in their order, and the place of its unit, if
/// any unit is nearer than the greatest count is.
pub fn nearest_unit(places: &Vec<u8>, count: i128) -> (r: (i128, Option<u8>))
    requires
        count >= 0,
    ensures
        (r.0 as int, r.1) == nearest_among(places@, count as int),
{
    let table = unit_table();
    let mut closest_value = i128::MAX;
    let mut closest: Option<u8> = None;
    let mut index: usize = 0;
    proof {
        assert(places@.subrange(0, 0) =~= Seq::<u8>::empty());
    }
    while index < places.len()
        invariant
            count >= 0,
            index <= places@.len(),
            forall|place: u8| table_entries(table).contains_key(place) == (place <= 8),
            forall|place: u8| place <= 8 ==> table_entries(table)[place] == unit_value(place),
            (closest_value as int, closest) == nearest_among(
                places@.subrange(0, index as int),
                count as int,
            ),
            0 <= closest_value,
        decreases places@.len() - index,
    {
        let unit = places[index];
        proof {
            let before = places@.subrange(0, index as int);
            let after = places@.subrange(0, index + 1);
            assert(after.drop_last() =~= before);
            assert(after.last() == unit);
        }
        if table_contains(&table, unit) {
            let value = table_value(&table, unit);
            assert(unit <= 8);
            assert(value == unit_value(unit));
            let to_value = if count < value {
                value - count
            } else {
                count - value
            };
            let to_closest = if count < closest_value {
                closest_value - count
            } else {
                count - closest_value
            };
            if to_value < to_closest {
                closest_value = value;
                closest = Some(unit);
            }
        }
        index = index + 1;
    }
    proof {
        assert(places@.subrange(0, places@.len() as int) =~= places@);
    }
    (closest_value, closest)
}

} // verus!
