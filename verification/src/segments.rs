//! How a wheel is cut into segments, and which segment a spin lands on.

use vstd::prelude::*;

use crate::data::{items_view, Degrees, WheelItem, WheelItemView};

verus! {

/// Degrees in a full turn.
pub const FULL_TURN: u128 = 360;

/// `r` degrees lies at or after the angle `a`, compared as fractions.
pub open spec fn at_or_after(a: Degrees, r: int) -> bool {
    a.num <= r * a.den
}

/// `r` degrees lies at or before the angle `a`, compared as fractions.
pub open spec fn at_or_before(a: Degrees, r: int) -> bool {
    r * a.den <= a.num
}

/// The segment of `item` covers `r` degrees, both ends included.
pub open spec fn segment_holds(item: WheelItemView, r: int) -> bool {
    at_or_after(item.from, r) && at_or_before(item.to, r)
}

/// The index of the last segment that covers `r` degrees, if any.
pub open spec fn last_holding(items: Seq<WheelItemView>, r: int) -> Option<int>
    decreases items.len(),
{
    if items.len() == 0 {
        None
    } else if segment_holds(items.last(), r) {
        Some(items.len() - 1)
    } else {
        last_holding(items.drop_last(), r)
    }
}

/// The angle `360 * k / n` degrees.
pub open spec fn turn_fraction(k: int, n: int) -> Degrees {
    Degrees { num: (360 * k) as u128, den: n as u64 }
}

/// Item `i` of `n` items, given the segment from `i / n` to `(i + 1) / n` of a
/// full turn.
pub open spec fn laid_out_item(item: WheelItemView, i: int, n: int) -> WheelItemView {
    WheelItemView {
        id: item.id,
        name: item.name,
        probability_bits: item.probability_bits,
        next_wheel_id: item.next_wheel_id,
        from: turn_fraction(i, n),
        to: turn_fraction(i + 1, n),
    }
}

/// The items cut into equal segments in their order, the first starting at
/// zero degrees, the last ending at a full turn.
///
/// The bounds are the exact fractions `360 * i / n`. An engine that computes
/// them in `f32` rounds some of them slightly up or down (with three items the
/// second segment starts a hair above 120 degrees there), so at a bound shared
/// by two segments a float computation may choose the earlier segment where
/// this one chooses the later.
pub open spec fn lay_out(items: Seq<WheelItemView>) -> Seq<WheelItemView> {
    Seq::new(items.len(), |i: int| laid_out_item(items[i], i, items.len() as int))
}

/// The items already carry the segments that [`lay_out`] gives them.
pub open spec fn is_laid_out(items: Seq<WheelItemView>) -> bool {
    lay_out(items) == items
}

/// Laying out items that were laid out changes nothing.
pub proof fn lemma_lay_out_settles(items: Seq<WheelItemView>)
    ensures
        is_laid_out(lay_out(items)),
{
    assert(lay_out(lay_out(items)) =~= lay_out(items));
}

/// `a.num <= r * a.den`.
fn reaches(a: Degrees, r: i32) -> (b: bool)
    ensures
        b == at_or_after(a, r as int),
{
    if r < 0 {
        proof {
            if a.den > 0 {
                assert(r * a.den < 0) by (nonlinear_arith)
                    requires
                        r < 0,
                        a.den > 0,
                ;
            }
        }
        a.num == 0 && a.den == 0
    } else {
        let rr = r as u128;
        let dd = a.den as u128;
        assert(rr * dd <= 0x8000_0000u128 * 0x1_0000_0000_0000_0000u128) by (nonlinear_arith)
            requires
                rr < 0x8000_0000,
                dd < 0x1_0000_0000_0000_0000,
        ;
        a.num <= rr * dd
    }
}

/// `r * a.den <= a.num`.
fn within(a: Degrees, r: i32) -> (b: bool)
    ensures
        b == at_or_before(a, r as int),
{
    if r < 0 {
        assert(r * a.den <= 0) by (nonlinear_arith)
            requires
                r < 0,
                a.den >= 0,
        ;
        true
    } else {
        let rr = r as u128;
        let dd = a.den as u128;
        assert(rr * dd <= 0x8000_0000u128 * 0x1_0000_0000_0000_0000u128) by (nonlinear_arith)
            requires
                rr < 0x8000_0000,
                dd < 0x1_0000_0000_0000_0000,
        ;
        rr * dd <= a.num
    }
}

/// Whether the segment of `item` covers `reward_pos` degrees.
pub fn covers(item: &WheelItem, reward_pos: i32) -> (b: bool)
    ensures
        b == segment_holds(item@, reward_pos as int),
{
    reaches(item.from, reward_pos) && within(item.to, reward_pos)
}

proof fn lemma_last_holding_push(items: Seq<WheelItemView>, item: WheelItemView, r: int)
    ensures
        last_holding(items.push(item), r) == (if segment_holds(item, r) {
            Some(items.len() as int)
        } else {
            last_holding(items, r)
        }),
{
    assert(items.push(item).drop_last() =~= items);
}

/// The index of the last item whose segment covers `reward_pos` degrees.
///
/// Segments are compared as exact fractions; at a bound shared by two
/// segments both cover the position and the later one is chosen, where a
/// float comparison against rounded bounds may choose the earlier.
pub fn chosen_item(items: &Vec<WheelItem>, reward_pos: i32) -> (res: Option<usize>)
    ensures
        res matches Some(k) ==> last_holding(items_view(items@), reward_pos as int) == Some(
            k as int,
        ),
        res is None ==> last_holding(items_view(items@), reward_pos as int) is None,
        res matches Some(k) ==> k < items@.len(),
{
    let mut chosen: Option<usize> = None;
    for i in 0..items.len()
        invariant
            chosen matches Some(k) ==> last_holding(
                items_view(items@.take(i as int)),
                reward_pos as int,
            ) == Some(k as int),
            chosen is None ==> last_holding(items_view(items@.take(i as int)), reward_pos as int)
                is None,
            chosen matches Some(k) ==> k < i,
    {
        proof {
            assert(items_view(items@.take(i + 1)) =~= items_view(items@.take(i as int)).push(
                items@[i as int]@,
            ));
            lemma_last_holding_push(
                items_view(items@.take(i as int)),
                items@[i as int]@,
                reward_pos as int,
            );
        }
        if covers(&items[i], reward_pos) {
            chosen = Some(i);
        }
    }
    assert(items@.take(items.len() as int) =~= items@);
    chosen
}

/// The items with their segments recomputed: item `i` of `n` spans from
/// `360 * i / n` to `360 * (i + 1) / n` degrees; all else is kept.
pub fn lay_out_items(items: &Vec<WheelItem>) -> (res: Vec<WheelItem>)
    ensures
        items_view(res@) == lay_out(items_view(items@)),
        res@.len() == items@.len(),
        forall|k: int|
            #![trigger res@[k]]
            0 <= k < items@.len() ==> res@[k].name == items@[k].name && res@[k].id
                == items@[k].id && res@[k].probability_bits == items@[k].probability_bits
                && res@[k].next_wheel_id == items@[k].next_wheel_id && res@[k].from.num == 360 * k
                && res@[k].to.num == 360 * (k + 1) && res@[k].from.den == items@.len()
                && res@[k].to.den == items@.len(),
{
    let n = items.len();
    let den = n as u64;
    let mut res: Vec<WheelItem> = Vec::new();
    let mut i: usize = 0;
    while i < n
        invariant
            i <= n,
            n == items@.len(),
            den == n,
            res@.len() == i,
            forall|j: int|
                0 <= j < i ==> #[trigger] res@[j]@ == laid_out_item(items@[j]@, j, n as int),
            forall|j: int|
                0 <= j < i ==> {
                    &&& #[trigger] res@[j].name == items@[j].name
                    &&& res@[j].from.num == 360 * j
                    &&& res@[j].to.num == 360 * (j + 1)
                    &&& res@[j].from.den == n
                    &&& res@[j].to.den == n
                },
        decreases n - i,
    {
        let item = &items[i];
        let start = (i as u128) * FULL_TURN;
        let end = ((i as u128) + 1) * FULL_TURN;
        let name = item.name.clone();
        let laid = WheelItem {
            id: item.id,
            name,
            probability_bits: item.probability_bits,
            next_wheel_id: item.next_wheel_id,
            from: Degrees { num: start, den },
            to: Degrees { num: end, den },
        };
        assert(laid.name == items@[i as int].name);
        let ghost before = res@;
        res.push(laid);
        assert forall|j: int| 0 <= j < i + 1 implies {
            &&& #[trigger] res@[j].name == items@[j].name
            &&& res@[j].from.num == 360 * j
            &&& res@[j].to.num == 360 * (j + 1)
            &&& res@[j].from.den == n
            &&& res@[j].to.den == n
        } by {
            if j < i {
                assert(res@[j] == before[j]);
            }
        }
        i += 1;
    }
    assert(items_view(res@) =~= lay_out(items_view(items@)));
    assert forall|k: int| #![trigger res@[k]] 0 <= k < items@.len() implies res@[k].name == items@[k].name
        && res@[k].id == items@[k].id && res@[k].probability_bits == items@[k].probability_bits
        && res@[k].next_wheel_id == items@[k].next_wheel_id && res@[k].from.num == 360 * k
        && res@[k].to.num == 360 * (k + 1) && res@[k].from.den == items@.len() && res@[k].to.den
        == items@.len() by {
        assert(items_view(res@)[k] == res@[k]@);
        assert(lay_out(items_view(items@))[k] == laid_out_item(items@[k]@, k, n as int));
    }
    res
}

/// Laying out keeps each item in its place with everything but its bounds:
/// item `i` keeps its id, name, probability and next wheel, and spans from
/// `360 * i / n` to `360 * (i + 1) / n` degrees.
pub proof fn lemma_lay_out_keeps_items(items: Seq<WheelItemView>)
    requires
        items.len() <= u64::MAX,
    ensures
        lay_out(items).len() == items.len(),
        forall|i: int|
            #![trigger lay_out(items)[i]]
            0 <= i < items.len() ==> {
                &&& lay_out(items)[i].name == items[i].name
                &&& lay_out(items)[i].id == items[i].id
                &&& lay_out(items)[i].probability_bits == items[i].probability_bits
                &&& lay_out(items)[i].next_wheel_id == items[i].next_wheel_id
                &&& lay_out(items)[i].from.num == 360 * i
                &&& lay_out(items)[i].to.num == 360 * (i + 1)
                &&& lay_out(items)[i].from.den == items.len()
                &&& lay_out(items)[i].to.den == items.len()
            },
{
    let n = items.len() as int;
    assert forall|i: int| #![trigger lay_out(items)[i]] 0 <= i < n implies {
        &&& lay_out(items)[i].name == items[i].name
        &&& lay_out(items)[i].id == items[i].id
        &&& lay_out(items)[i].probability_bits == items[i].probability_bits
        &&& lay_out(items)[i].next_wheel_id == items[i].next_wheel_id
        &&& lay_out(items)[i].from.num == 360 * i
        &&& lay_out(items)[i].to.num == 360 * (i + 1)
        &&& lay_out(items)[i].from.den == n
        &&& lay_out(items)[i].to.den == n
    } by {
        assert((360 * i) as u128 == 360 * i);
        assert((360 * (i + 1)) as u128 == 360 * (i + 1));
        assert(n as u64 == n);
    }
}

proof fn lemma_last_holding_is(items: Seq<WheelItemView>, q: int, r: int)
    requires
        0 <= q < items.len(),
        segment_holds(items[q], r),
        forall|j: int| q < j < items.len() ==> !segment_holds(#[trigger] items[j], r),
    ensures
        last_holding(items, r) == Some(q),
    decreases items.len(),
{
    if q < items.len() - 1 {
        assert(!segment_holds(items[items.len() - 1], r));
        lemma_last_holding_is(items.drop_last(), q, r);
    }
}

/// The segment under the pointer.
///
/// Once the `n > 0` items of a wheel are laid out, a spin that ends at `r`
/// degrees, `0 <= r <= 360`, lands on item `floor(r * n / 360)`; at a full
/// turn it lands on the last item. Where two segments meet, the later one is
/// chosen.
pub proof fn lemma_spin_lands(items: Seq<WheelItemView>, r: int)
    requires
        0 < items.len() <= u64::MAX,
        0 <= r <= 360,
    ensures
        last_holding(lay_out(items), r) == Some(
            if r * items.len() / 360 < items.len() {
                r * items.len() / 360
            } else {
                items.len() - 1
            },
        ),
{
    let n = items.len() as int;
    let s = lay_out(items);
    let x = r * n;
    assert(0 <= x <= 360 * n) by (nonlinear_arith)
        requires
            x == r * n,
            0 <= r <= 360,
            n > 0,
    ;
    let q = if x / 360 < n {
        x / 360
    } else {
        n - 1
    };
    assert forall|j: int| 0 <= j < n implies #[trigger] segment_holds(s[j], r) == (360 * j <= x
        && x <= 360 * (j + 1)) by {
        assert(s[j].from == turn_fraction(j, n));
        assert(s[j].to == turn_fraction(j + 1, n));
        assert((360 * j) as u128 == 360 * j);
        assert((360 * (j + 1)) as u128 == 360 * (j + 1));
        assert(n as u64 == n);
    }
    assert(segment_holds(s[q], r));
    assert forall|j: int| q < j < s.len() implies !segment_holds(#[trigger] s[j], r) by {}
    lemma_last_holding_is(s, q, r);
}

/// The laid-out segments tile the full turn: the first starts at zero
/// degrees, each ends where the next starts, the last ends at 360 degrees,
/// and all have the same width.
pub proof fn lemma_segments_tile(items: Seq<WheelItemView>)
    requires
        0 < items.len() <= u64::MAX,
    ensures
        lay_out(items).len() == items.len(),
        lay_out(items)[0].from.num == 0,
        lay_out(items)[items.len() - 1].to.num == 360 * items.len(),
        lay_out(items)[items.len() - 1].to.den == items.len(),
        forall|i: int|
            0 <= i < items.len() - 1 ==> #[trigger] lay_out(items)[i].to == lay_out(items)[i
                + 1].from,
        forall|i: int|
            0 <= i < items.len() ==> #[trigger] lay_out(items)[i].to.num - lay_out(items)[i].from.num
                == 360 && lay_out(items)[i].from.den == items.len() && lay_out(items)[i].to.den
                == items.len(),
{
    let n = items.len() as int;
    assert forall|i: int| 0 <= i < n implies #[trigger] lay_out(items)[i].to.num - lay_out(
        items,
    )[i].from.num == 360 && lay_out(items)[i].from.den == n && lay_out(items)[i].to.den == n by {
        assert((360 * i) as u128 == 360 * i);
        assert((360 * (i + 1)) as u128 == 360 * (i + 1));
    }
    assert((360 * n) as u128 == 360 * n);
}

} // verus!
