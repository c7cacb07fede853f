//! The grid as of a point in time, as far as the stored rows still tell:
//! the pixels whose last write is not later than that time.

use vstd::prelude::*;
use crate::store::ReducerContext;
use crate::table::{distinct_keys, holds_key, Row};
use crate::types::{Pixel, Timestamp};

verus! {

/// `row` was last written at or before `target`.
pub open spec fn written_by(row: Pixel, target: Timestamp) -> bool {
    row.timestamp.micros <= target.micros
}

/// A pixel as the projection shows it: its position and its colour.
pub open spec fn shown(row: Pixel) -> (u32, String) {
    (row.position, row.color)
}

/// The rows of `rows` written at or before `target`, in their order, each as
/// position and colour.
pub open spec fn visible_at(rows: Seq<Pixel>, target: Timestamp) -> Seq<(u32, String)>
    decreases rows.len(),
{
    if rows.len() == 0 {
        Seq::empty()
    } else if written_by(rows.last(), target) {
        visible_at(rows.drop_last(), target).push(shown(rows.last()))
    } else {
        visible_at(rows.drop_last(), target)
    }
}

/// `pair` shows a row of `rows` that was written at or before `target`.
pub open spec fn shows_row_of(rows: Seq<Pixel>, target: Timestamp, pair: (u32, String)) -> bool {
    exists|j: int| 0 <= j < rows.len() && written_by(rows[j], target) && #[trigger] shown(rows[j]) == pair
}

/// `pair` shows the pixel that `pixels` holds at the pair's position, and
/// that pixel was written at or before `target`.
pub open spec fn shows_pixel_of(
    pixels: Map<u32, Pixel>,
    target: Timestamp,
    pair: (u32, String),
) -> bool {
    &&& pixels.contains_key(pair.0)
    &&& written_by(pixels[pair.0], target)
    &&& pixels[pair.0].color == pair.1
}

/// What the projection holds: rows written in time, all of them, and with
/// distinct keys no position twice.
pub proof fn lemma_visible_at(rows: Seq<Pixel>, target: Timestamp)
    ensures
        forall|i: int|
            0 <= i < visible_at(rows, target).len() ==> shows_row_of(
                rows,
                target,
                #[trigger] visible_at(rows, target)[i],
            ),
        forall|j: int|
            0 <= j < rows.len() && written_by(rows[j], target) ==> visible_at(
                rows,
                target,
            ).contains(#[trigger] shown(rows[j])),
        distinct_keys(rows) ==> forall|a: int, b: int|
            0 <= a < b < visible_at(rows, target).len() ==> (#[trigger] visible_at(
                rows,
                target,
            )[a]).0 != (#[trigger] visible_at(rows, target)[b]).0,
    decreases rows.len(),
{
    let all = visible_at(rows, target);
    if rows.len() > 0 {
        let init = rows.drop_last();
        let last = rows.last();
        let earlier = visible_at(init, target);
        lemma_visible_at(init, target);
        assert forall|i: int| 0 <= i < all.len() implies shows_row_of(
            rows,
            target,
            #[trigger] all[i],
        ) by {
            if i < earlier.len() {
                assert(shows_row_of(init, target, earlier[i]));
                let j = choose|j: int|
                    0 <= j < init.len() && written_by(init[j], target) && #[trigger] shown(init[j])
                        == earlier[i];
                assert(shown(rows[j]) == all[i]);
            } else {
                assert(shown(rows[rows.len() - 1]) == all[i]);
            }
        }
        assert forall|j: int| 0 <= j < rows.len() && written_by(rows[j], target) implies all.contains(
            #[trigger] shown(rows[j]),
        ) by {
            if j < init.len() {
                assert(init[j] == rows[j]);
                assert(earlier.contains(shown(init[j])));
                let i = choose|i: int| 0 <= i < earlier.len() && earlier[i] == shown(init[j]);
                assert(all[i] == shown(rows[j]));
            } else {
                assert(all[all.len() - 1] == shown(rows[j]));
            }
        }
        if distinct_keys(rows) {
            assert(distinct_keys(init)) by {
                assert forall|i: int, j: int| 0 <= i < j < init.len() implies #[trigger] init[i].key()
                    != #[trigger] init[j].key() by {
                    assert(rows[i].key() != rows[j].key());
                }
            }
            assert forall|a: int, b: int| 0 <= a < b < all.len() implies (#[trigger] all[a]).0 != (
            #[trigger] all[b]).0 by {
                if b < earlier.len() {
                    assert(earlier[a].0 != earlier[b].0);
                } else {
                    assert(shows_row_of(init, target, earlier[a]));
                    let j = choose|j: int|
                        0 <= j < init.len() && written_by(init[j], target) && #[trigger] shown(
                            init[j],
                        ) == earlier[a];
                    assert(rows[j].key() != rows[rows.len() - 1].key());
                }
            }
        }
    }
}

/// The pixels last written at or before `target_timestamp`, each with its
/// position and colour, in scan order. A cell that was painted before that
/// time and again after it is left out, and one that was painted twice
/// before it shows the later colour: the store keeps the last write only.
pub fn view_at_time(ctx: &ReducerContext, target_timestamp: Timestamp) -> (pixels: Vec<
    (u32, String),
>)
    ensures
        pixels@ == visible_at(ctx.db.pixel_scan(), target_timestamp),
        forall|i: int|
            0 <= i < pixels@.len() ==> shows_pixel_of(
                ctx.db@.pixel,
                target_timestamp,
                #[trigger] pixels@[i],
            ),
        forall|p: u32|
            ctx.db@.pixel.contains_key(p) && written_by(ctx.db@.pixel[p], target_timestamp)
                ==> pixels@.contains((p, #[trigger] ctx.db@.pixel[p].color)),
        forall|a: int, b: int|
            0 <= a < b < pixels@.len() ==> (#[trigger] pixels@[a]).0 != (#[trigger] pixels@[b]).0,
{
    let rows = ctx.db.pixel().scan();
    let mut pixels: Vec<(u32, String)> = Vec::new();
    let mut i: usize = 0;
    while i < rows.len()
        invariant
            i <= rows@.len(),
            pixels@ == visible_at(rows@.take(i as int), target_timestamp),
        decreases rows@.len() - i,
    {
        assert(rows@.take(i + 1).drop_last() == rows@.take(i as int));
        if rows[i].timestamp.not_after(&target_timestamp) {
            pixels.push((rows[i].position, rows[i].color.clone()));
        }
        i += 1;
    }
    proof {
        assert(rows@.take(rows@.len() as int) == rows@);
        lemma_visible_at(rows@, target_timestamp);
        let map = ctx.db@.pixel;
        assert forall|i: int| 0 <= i < pixels@.len() implies shows_pixel_of(
            map,
            target_timestamp,
            #[trigger] pixels@[i],
        ) by {
            assert(shows_row_of(rows@, target_timestamp, pixels@[i]));
            let j = choose|j: int|
                0 <= j < rows@.len() && written_by(rows@[j], target_timestamp) && #[trigger] shown(
                    rows@[j],
                ) == pixels@[i];
            assert(map.contains_key(rows@[j].key()) && map[rows@[j].key()] == rows@[j]);
        }
        assert forall|p: u32|
            map.contains_key(p) && written_by(map[p], target_timestamp) implies pixels@.contains(
            (p, #[trigger] map[p].color),
        ) by {
            assert(holds_key(rows@, p));
            let j = choose|j: int| 0 <= j < rows@.len() && #[trigger] rows@[j].key() == p;
            assert(map[rows@[j].key()] == rows@[j]);
            assert(pixels@.contains(shown(rows@[j])));
        }
    }
    pixels
}

} // verus!
