//! The wheel: loading wheels, cutting them into segments, spinning, and
//! moving on to the next wheel.

use rand::RngExt;
use vstd::prelude::*;
use vstd::string::*;

use crate::data::{
    clone_items, first_wheel_with_id, items_view, lemma_first_wheel_found, Root, WheelItem,
};
use crate::segments::{
    chosen_item, is_laid_out, last_holding, lay_out, lay_out_items, lemma_lay_out_settles,
    lemma_spin_lands, FULL_TURN,
};

verus! {

/// How far the wheel turns beyond the stop position: ten turns, twice.
pub const EXTRA_ROTATION: i32 = 7200;

/// The id that marks "no next wheel".
pub const NO_WHEEL: i32 = -1;

/// A spin that was started: where it stops and the rotation, in degrees, to
/// animate the wheel to.
#[derive(Clone, Copy, Debug, PartialEq, Eq, Structural)]
pub struct Spin {
    pub reward_pos: i32,
    pub target_rotation: i32,
}

/// The wheel's state.
pub struct Wheel {
    /// A spin is under way.
    pub is_spin: bool,
    pub line_width: i32,
    pub outer_radius: i64,
    pub inner_radius: i64,
    /// The wheel to load next; `-1` for none.
    pub next_wheel_id: i32,
    /// Every wheel of the loaded configuration.
    pub possible_wheels: Option<Root>,
    /// The segments of the wheel on show.
    pub items: Vec<WheelItem>,
}

/// Draws a whole number in `0..bound`.
///
/// Calls `rand::rng().random_range(0..bound)`. Its documentation promises a
/// value inside the range, and it panics only on an empty range; which value
/// comes is chance, so no more is stated.
#[verifier::external_body]
fn random_below(bound: i32) -> (r: i32)
    requires
        bound > 0,
    ensures
        0 <= r < bound,
{
    rand::rng().random_range(0..bound)
}

/// The wheel with every field as given except `items`.
pub open spec fn same_but_items(a: Wheel, b: Wheel) -> bool {
    &&& a.is_spin == b.is_spin
    &&& a.line_width == b.line_width
    &&& a.outer_radius == b.outer_radius
    &&& a.inner_radius == b.inner_radius
    &&& a.next_wheel_id == b.next_wheel_id
    &&& a.possible_wheels == b.possible_wheels
}

impl Wheel {
    /// An idle wheel with no configuration, no segments and no next wheel.
    pub fn new() -> (w: Wheel)
        ensures
            !w.is_spin,
            w.line_width == 4,
            w.outer_radius == 256,
            w.inner_radius == 64,
            w.next_wheel_id == NO_WHEEL,
            w.possible_wheels is None,
            w.items@.len() == 0,
    {
        Wheel {
            is_spin: false,
            line_width: 4,
            outer_radius: 256,
            inner_radius: 64,
            next_wheel_id: NO_WHEEL,
            possible_wheels: None,
            items: Vec::new(),
        }
    }

    /// Cuts the wheel on show into equal segments, one per item, in order.
    pub fn setup_labels(&mut self)
        ensures
            same_but_items(*final(self), *old(self)),
            items_view(final(self).items@) == lay_out(items_view(old(self).items@)),
            is_laid_out(items_view(final(self).items@)),
            final(self).items@.len() == old(self).items@.len(),
            forall|k: int|
                #![trigger final(self).items@[k]]
                0 <= k < old(self).items@.len() ==> final(self).items@[k].name == old(self).items@[k].name
                    && final(self).items@[k].id == old(self).items@[k].id && final(self).items@[k].next_wheel_id
                    == old(self).items@[k].next_wheel_id && final(self).items@[k].probability_bits
                    == old(self).items@[k].probability_bits,
    {
        let updated = lay_out_items(&self.items);
        self.items = updated;
        proof {
            lemma_lay_out_settles(items_view(old(self).items@));
        }
    }

    /// Takes in a loaded configuration and shows its first wheel.
    pub fn on_btn_load_file(&mut self, root: Root)
        requires
            root.wheels@.len() > 0,
        ensures
            final(self).possible_wheels == Some(root),
            items_view(final(self).items@) == lay_out(items_view(root.wheels@[0].results@)),
            is_laid_out(items_view(final(self).items@)),
            final(self).items@.len() == root.wheels@[0].results@.len(),
            forall|k: int|
                #![trigger final(self).items@[k]]
                0 <= k < root.wheels@[0].results@.len() ==> final(self).items@[k].name == root.wheels@[0].results@[k].name
                    && final(self).items@[k].id == root.wheels@[0].results@[k].id && final(self).items@[k].next_wheel_id
                    == root.wheels@[0].results@[k].next_wheel_id && final(self).items@[k].probability_bits
                    == root.wheels@[0].results@[k].probability_bits,
            final(self).is_spin == old(self).is_spin,
            final(self).next_wheel_id == old(self).next_wheel_id,
            final(self).line_width == old(self).line_width,
            final(self).outer_radius == old(self).outer_radius,
            final(self).inner_radius == old(self).inner_radius,
    {
        let first = clone_items(&root.wheels[0].results);
        self.possible_wheels = Some(root);
        self.items = first;
        self.setup_labels();
    }

    /// Starts a spin that stops at `reward_pos` degrees, unless one is under
    /// way.
    pub fn start_spin(&mut self, reward_pos: i32) -> (spin: Option<Spin>)
        requires
            reward_pos <= i32::MAX - EXTRA_ROTATION,
        ensures
            old(self).is_spin ==> spin is None && *final(self) == *old(self),
            !old(self).is_spin ==> {
                &&& spin == Some(
                    Spin { reward_pos, target_rotation: (reward_pos + EXTRA_ROTATION) as i32 },
                )
                &&& final(self).is_spin
                &&& final(self).items == old(self).items
                &&& final(self).next_wheel_id == old(self).next_wheel_id
                &&& final(self).possible_wheels == old(self).possible_wheels
                &&& final(self).line_width == old(self).line_width
                &&& final(self).outer_radius == old(self).outer_radius
                &&& final(self).inner_radius == old(self).inner_radius
            },
    {
        if self.is_spin {
            None
        } else {
            self.is_spin = true;
            Some(Spin { reward_pos, target_rotation: reward_pos + EXTRA_ROTATION })
        }
    }

    /// Starts a spin at a random stop position in `0..360` degrees, unless
    /// one is under way.
    pub fn on_btn_spin_wheel(&mut self) -> (spin: Option<Spin>)
        ensures
            old(self).is_spin ==> spin is None && *final(self) == *old(self),
            !old(self).is_spin ==> {
                &&& (spin matches Some(s) && 0 <= s.reward_pos < 360 && s.target_rotation
                    == s.reward_pos + EXTRA_ROTATION
                    && (is_laid_out(items_view(final(self).items@)) && final(self).items@.len() > 0
                    ==> last_holding(items_view(final(self).items@), s.reward_pos as int) is Some))
                &&& final(self).is_spin
                &&& final(self).items == old(self).items
                &&& final(self).next_wheel_id == old(self).next_wheel_id
                &&& final(self).possible_wheels == old(self).possible_wheels
                &&& final(self).line_width == old(self).line_width
                &&& final(self).outer_radius == old(self).outer_radius
                &&& final(self).inner_radius == old(self).inner_radius
            },
    {
        if self.is_spin {
            None
        } else {
            let reward_pos = random_below(FULL_TURN as i32);
            let spin = self.start_spin(reward_pos);
            proof {
                if is_laid_out(items_view(self.items@)) && self.items@.len() > 0 {
                    lemma_drawn_spin_lands(*self, reward_pos as int);
                }
            }
            spin
        }
    }

    /// The index of the item a spin stopping at `reward_pos` degrees lands
    /// on: the last one whose segment covers it.
    pub fn chosen_item(&self, reward_pos: i32) -> (res: Option<usize>)
        ensures
            res matches Some(k) ==> last_holding(items_view(self.items@), reward_pos as int)
                == Some(k as int),
            res is None ==> last_holding(items_view(self.items@), reward_pos as int) is None,
            res matches Some(k) ==> k < self.items@.len(),
    {
        chosen_item(&self.items, reward_pos)
    }

    /// Ends the spin that stopped at `reward_pos` degrees: returns the name
    /// of the item it landed on and remembers that item's next wheel.
    pub fn end_spin(&mut self, reward_pos: i32) -> (reward: String)
        requires
            last_holding(items_view(old(self).items@), reward_pos as int) is Some,
        ensures
            ({
                let k = last_holding(items_view(old(self).items@), reward_pos as int)->0;
                &&& reward@ == old(self).items@[k].name@
                &&& final(self).next_wheel_id == old(self).items@[k].next_wheel_id
            }),
            !final(self).is_spin,
            final(self).items == old(self).items,
            final(self).possible_wheels == old(self).possible_wheels,
            final(self).line_width == old(self).line_width,
            final(self).outer_radius == old(self).outer_radius,
            final(self).inner_radius == old(self).inner_radius,
    {
        self.is_spin = false;
        let k = chosen_item(&self.items, reward_pos).unwrap();
        let reward = self.items[k].name.clone();
        self.next_wheel_id = self.items[k].next_wheel_id;
        reward
    }

    /// Shows the wheel chosen by the last spin. Where there is none, nothing
    /// changes and `"END"` is returned, to be announced.
    pub fn on_load_next_wheel(&mut self) -> (end: Option<String>)
        requires
            old(self).next_wheel_id != NO_WHEEL ==> (old(self).possible_wheels matches Some(root)
                && first_wheel_with_id(root.wheels@, old(self).next_wheel_id) is Some),
        ensures
            old(self).next_wheel_id == NO_WHEEL ==> (end matches Some(s) && s@ == "END"@
                && *final(self) == *old(self)),
            old(self).next_wheel_id != NO_WHEEL ==> {
                let root = old(self).possible_wheels->0;
                let k = first_wheel_with_id(root.wheels@, old(self).next_wheel_id)->0;
                &&& end is None
                &&& root.wheels@[k].id == old(self).next_wheel_id
                &&& forall|j: int| 0 <= j < k ==> #[trigger] root.wheels@[j].id != old(self).next_wheel_id
                &&& same_but_items(*final(self), *old(self))
                &&& items_view(final(self).items@) == lay_out(
                    items_view(root.wheels@[k].results@),
                )
                &&& is_laid_out(items_view(final(self).items@))
                &&& final(self).items@.len() == root.wheels@[k].results@.len()
                &&& forall|j: int|
                    #![trigger final(self).items@[j]]
                    0 <= j < root.wheels@[k].results@.len() ==> final(self).items@[j].name
                        == root.wheels@[k].results@[j].name && final(self).items@[j].id
                        == root.wheels@[k].results@[j].id && final(self).items@[j].next_wheel_id
                        == root.wheels@[k].results@[j].next_wheel_id
                        && final(self).items@[j].probability_bits
                        == root.wheels@[k].results@[j].probability_bits
            },
    {
        if self.next_wheel_id != NO_WHEEL {
            proof {
                lemma_first_wheel_found(self.possible_wheels->0.wheels@, self.next_wheel_id);
            }
            let next = match &self.possible_wheels {
                Some(root) => {
                    let k = root.find_wheel(self.next_wheel_id).unwrap();
                    clone_items(&root.wheels[k].results)
                },
                None => Vec::new(),
            };
            self.items = next;
            self.setup_labels();
            None
        } else {
            Some(String::from_str("END"))
        }
    }

    /// How many dividing lines to draw between segments: one per item once
    /// there are two or more.
    pub fn separator_count(&self) -> (count: usize)
        ensures
            count == (if self.items@.len() >= 2 {
                self.items@.len()
            } else {
                0
            }),
    {
        if self.items.len() >= 2 {
            self.items.len()
        } else {
            0
        }
    }
}

/// A started spin can always be ended.
///
/// Loading a configuration, cutting a wheel into segments and moving on to
/// the next wheel all leave the wheel laid out. On a laid-out wheel of
/// `n > 0` items, a stop drawn in `0..360` degrees lands on item
/// `floor(reward_pos * n / 360)`, so `end_spin` accepts it. Between the start
/// of a spin and its end, `start_spin` and `on_btn_spin_wheel` refuse a second
/// spin and change nothing; `end_spin` makes the wheel idle again. A wheel
/// with no items has no segment to land on: the spin cannot be ended there.
pub proof fn lemma_drawn_spin_lands(w: Wheel, reward_pos: int)
    requires
        is_laid_out(items_view(w.items@)),
        w.items@.len() > 0,
        0 <= reward_pos < 360,
    ensures
        last_holding(items_view(w.items@), reward_pos) == Some(
            reward_pos * w.items@.len() / 360,
        ),
{
    let items = items_view(w.items@);
    let n = items.len() as int;
    assert(items.len() == w.items@.len());
    assert(w.items@.len() == w.items.len());
    assert(reward_pos * n < 360 * n) by (nonlinear_arith)
        requires
            0 <= reward_pos < 360,
            n > 0,
    ;
    lemma_spin_lands(items, reward_pos);
}

} // verus!
