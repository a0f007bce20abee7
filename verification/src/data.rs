//! The wheel description read from a configuration file.

use vstd::prelude::*;

verus! {

/// An angle in degrees, kept as the exact fraction `num / den`.
///
/// Segment bounds are fractions of a full turn, so a fraction keeps them
/// exact where a float would round.
#[derive(Clone, Copy, Debug, PartialEq, Eq, Structural)]
pub struct Degrees {
    pub num: u128,
    pub den: u64,
}

impl Default for Degrees {
    /// Zero degrees.
    fn default() -> (d: Degrees)
        ensures
            d.num == 0,
            d.den == 1,
    {
        Degrees::zero()
    }
}

impl Degrees {
    /// The angle of zero degrees.
    pub fn zero() -> (d: Degrees)
        ensures
            d.num == 0,
            d.den == 1,
    {
        Degrees { num: 0, den: 1 }
    }
}

/// One segment of a wheel.
#[derive(Debug, Default, PartialEq)]
pub struct WheelItem {
    pub id: i64,
    pub name: String,
    /// The bit pattern of the item's probability, carried unchanged; no rule
    /// of the wheel reads it.
    pub probability_bits: u64,
    /// The wheel to load once this item was chosen; `-1` for none.
    pub next_wheel_id: i32,
    /// Where the segment starts on the wheel.
    pub from: Degrees,
    /// Where the segment ends on the wheel.
    pub to: Degrees,
}

/// The plain-value model of a [`WheelItem`].
pub struct WheelItemView {
    pub id: i64,
    pub name: Seq<char>,
    pub probability_bits: u64,
    pub next_wheel_id: i32,
    pub from: Degrees,
    pub to: Degrees,
}

impl View for WheelItem {
    type V = WheelItemView;

    open spec fn view(&self) -> WheelItemView {
        WheelItemView {
            id: self.id,
            name: self.name@,
            probability_bits: self.probability_bits,
            next_wheel_id: self.next_wheel_id,
            from: self.from,
            to: self.to,
        }
    }
}

impl Clone for WheelItem {
    fn clone(&self) -> (res: Self)
        ensures
            res == *self,
    {
        WheelItem {
            id: self.id,
            name: self.name.clone(),
            probability_bits: self.probability_bits,
            next_wheel_id: self.next_wheel_id,
            from: self.from,
            to: self.to,
        }
    }
}

/// The views of a sequence of items.
pub open spec fn items_view(items: Seq<WheelItem>) -> Seq<WheelItemView> {
    items.map_values(|item: WheelItem| item@)
}

/// A copy of a list of items, item by item.
pub fn clone_items(items: &Vec<WheelItem>) -> (res: Vec<WheelItem>)
    ensures
        res@ == items@,
{
    let mut res: Vec<WheelItem> = Vec::new();
    for i in 0..items.len()
        invariant
            res@ == items@.take(i as int),
    {
        res.push(items[i].clone());
        assert(res@ =~= items@.take(i + 1));
    }
    assert(items@.take(items.len() as int) =~= items@);
    res
}

/// One wheel of the configuration: its name, its id and its segments.
#[derive(Debug, Default, Clone, PartialEq)]
pub struct WheelChoice {
    pub name: String,
    pub id: i32,
    pub results: Vec<WheelItem>,
}

/// The whole configuration: every wheel that can be shown.
#[derive(Debug, Default, Clone, PartialEq)]
pub struct Root {
    pub wheels: Vec<WheelChoice>,
}

/// The index of the first wheel in `wheels` whose id is `id`, if any.
pub open spec fn first_wheel_with_id(wheels: Seq<WheelChoice>, id: i32) -> Option<int>
    decreases wheels.len(),
{
    if wheels.len() == 0 {
        None
    } else if wheels[0].id == id {
        Some(0)
    } else {
        match first_wheel_with_id(wheels.drop_first(), id) {
            Some(k) => Some(k + 1),
            None => None,
        }
    }
}

/// The first wheel with an id, found by position.
///
/// `first_wheel_with_id` finds a wheel exactly when some wheel of the list has
/// the id; what it finds has that id, and no wheel before it has.
pub proof fn lemma_first_wheel_found(wheels: Seq<WheelChoice>, id: i32)
    ensures
        first_wheel_with_id(wheels, id) is None <==> forall|j: int|
            0 <= j < wheels.len() ==> #[trigger] wheels[j].id != id,
        first_wheel_with_id(wheels, id) matches Some(k) ==> {
            &&& 0 <= k < wheels.len()
            &&& wheels[k].id == id
            &&& forall|j: int| 0 <= j < k ==> #[trigger] wheels[j].id != id
        },
    decreases wheels.len(),
{
    if wheels.len() > 0 && wheels[0].id != id {
        let rest = wheels.drop_first();
        lemma_first_wheel_found(rest, id);
        assert forall|j: int| 0 < j < wheels.len() implies #[trigger] wheels[j] == rest[j - 1] by {}
        if first_wheel_with_id(rest, id) is None {
            assert forall|j: int| 0 <= j < wheels.len() implies #[trigger] wheels[j].id != id by {
                if j > 0 {
                    assert(rest[j - 1].id != id);
                }
            }
        } else {
            let k = first_wheel_with_id(rest, id)->0;
            assert forall|j: int| 0 <= j < k + 1 implies #[trigger] wheels[j].id != id by {
                if j > 0 {
                    assert(rest[j - 1].id != id);
                }
            }
            assert(wheels[k + 1] == rest[k]);
        }
    }
}

impl Root {
    /// The position of the first wheel with the given id.
    pub fn find_wheel(&self, id: i32) -> (res: Option<usize>)
        ensures
            res matches Some(k) ==> first_wheel_with_id(self.wheels@, id) == Some(k as int),
            res is None ==> first_wheel_with_id(self.wheels@, id) is None,
            res matches Some(k) ==> k < self.wheels@.len(),
            res matches Some(k) ==> self.wheels@[k as int].id == id && forall|j: int|
                0 <= j < k ==> #[trigger] self.wheels@[j].id != id,
            res is None ==> forall|j: int|
                0 <= j < self.wheels@.len() ==> #[trigger] self.wheels@[j].id != id,
    {
        let n = self.wheels.len();
        let mut i: usize = 0;
        assert(self.wheels@.skip(0) =~= self.wheels@);
        while i < n
            invariant
                n == self.wheels@.len(),
                i <= n,
                first_wheel_with_id(self.wheels@, id) == (match first_wheel_with_id(
                    self.wheels@.skip(i as int),
                    id,
                ) {
                    Some(k) => Some(k + i),
                    None => None,
                }),
                forall|j: int| 0 <= j < i ==> #[trigger] self.wheels@[j].id != id,
            decreases n - i,
        {
            assert(self.wheels@.skip(i as int).drop_first() =~= self.wheels@.skip(i + 1));
            if self.wheels[i].id == id {
                return Some(i);
            }
            i += 1;
        }
        None
    }
}

} // verus!
