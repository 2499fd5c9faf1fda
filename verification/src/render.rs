//! Replaying a pin sequence against a canvas: the shared primitive behind
//! genetic fitness evaluation and final rendering.

use vstd::prelude::*;

use crate::canvas::{apply_points, floor_of, Canvas};
use crate::config::{circ_dist_exec, Config};
use crate::line_cache::ChordCache;
use crate::UNIT;

verus! {

/// The buffer after subtracting the line weight along every consecutive
/// chord of `s`: a pair below the minimum distance has no cached chord and
/// subtracts nothing.
pub open spec fn replay_spec(
    cache: ChordCache,
    vals: Seq<i64>,
    s: Seq<usize>,
    w: int,
    floor: int,
) -> Seq<i64>
    decreases s.len(),
{
    if s.len() <= 1 {
        vals
    } else {
        replay_spec(
            cache,
            apply_points(
                vals,
                cache.chord_or_empty(s[0] as int, s[1] as int),
                w,
                floor,
                cache.size as int,
            ),
            s.drop_first(),
            w,
            floor,
        )
    }
}

/// Subtracts the line weight along every consecutive chord of the sequence,
/// in order, under the configured clamp policy.
pub fn replay_sequence(
    canvas: &mut Canvas,
    line_sequence: &Vec<usize>,
    line_cache: &ChordCache,
    args: &Config,
)
    requires
        old(canvas).wf(),
        line_cache.wf(),
        line_cache.matches(*args, old(canvas).size as int),
        args.bounded(),
        forall|i: int|
            0 <= i < line_sequence@.len() ==> (#[trigger] line_sequence@[i]) < args.pin_count,
    ensures
        final(canvas).wf(),
        final(canvas).size == old(canvas).size,
        final(canvas).values() == replay_spec(
            *line_cache,
            old(canvas).values(),
            line_sequence@,
            args.line_weight as int,
            floor_of(args.clamp_policy),
        ),
{
    let m = line_sequence.len();
    if m == 0 {
        return ;
    }
    proof {
        assert(line_sequence@.skip(0) =~= line_sequence@);
    }
    let n = args.pin_count;
    let d = args.min_distance;
    let mut i: usize = 0;
    while i < m - 1
        invariant
            canvas.wf(),
            canvas.size == old(canvas).size,
            line_cache.wf(),
            line_cache.matches(*args, old(canvas).size as int),
            args.bounded(),
            n == args.pin_count,
            d == args.min_distance,
            m == line_sequence@.len(),
            m >= 1,
            i <= m - 1,
            forall|j: int|
                0 <= j < line_sequence@.len() ==> (#[trigger] line_sequence@[j]) < args.pin_count,
            replay_spec(
                *line_cache,
                old(canvas).values(),
                line_sequence@,
                args.line_weight as int,
                floor_of(args.clamp_policy),
            ) == replay_spec(
                *line_cache,
                canvas.values(),
                line_sequence@.skip(i as int),
                args.line_weight as int,
                floor_of(args.clamp_policy),
            ),
        decreases m - 1 - i,
    {
        let a = line_sequence[i];
        let b = line_sequence[i + 1];
        proof {
            assert(line_sequence@.skip(i as int)[0] == line_sequence@[i as int]);
            assert(line_sequence@.skip(i as int)[1] == line_sequence@[i as int + 1]);
            assert(line_sequence@.skip(i as int).drop_first() =~= line_sequence@.skip(
                i as int + 1,
            ));
        }
        if circ_dist_exec(a, b, n) >= d {
            let samples = line_cache.get(a, b);
            canvas.apply_chord(samples, args.line_weight, args.clamp_policy);
        } else {
            proof {
                assert(line_cache.chord_or_empty(a as int, b as int) == Seq::<
                    crate::coord::Pixel,
                >::empty());
                assert(apply_points(
                    canvas.values(),
                    Seq::<crate::coord::Pixel>::empty(),
                    args.line_weight as int,
                    floor_of(args.clamp_policy),
                    line_cache.size as int,
                ) == canvas.values());
            }
        }
        i = i + 1;
    }
    proof {
        assert(line_sequence@.skip(m as int - 1).len() == 1);
    }
}

/// Renders a pin sequence: starts from a fully white canvas of the cache's
/// size and subtracts the line weight along every consecutive chord.
pub fn draw_lines(line_sequence: &Vec<usize>, line_cache: &ChordCache, args: &Config) -> (canvas:
    Canvas)
    requires
        line_cache.wf(),
        line_cache.pins@.len() == args.pin_count,
        line_cache.min_distance == args.min_distance,
        args.bounded(),
        forall|i: int|
            0 <= i < line_sequence@.len() ==> (#[trigger] line_sequence@[i]) < args.pin_count,
    ensures
        canvas.wf(),
        canvas.size == line_cache.size,
        canvas.values() == replay_spec(
            *line_cache,
            Seq::new((line_cache.size * line_cache.size) as nat, |i: int| UNIT),
            line_sequence@,
            args.line_weight as int,
            floor_of(args.clamp_policy),
        ),
{
    let mut canvas = Canvas::new(line_cache.size, UNIT);
    replay_sequence(&mut canvas, line_sequence, line_cache, args);
    canvas
}

} // verus!
