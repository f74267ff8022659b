//! The sort effect engine: per row, collect the masked pixels left to right,
//! optionally replace some with generated pixels, stable-sort the collected
//! subsequence by an integer key, and write it back into the masked positions
//! of that row; unmasked positions pass through unchanged.  Rows are
//! independent of one another.

use vstd::prelude::*;

use crate::bitmap::{Bitmap, Mask, Pixel};
use crate::pixel::{sort_key, sort_key_spec, PixelSortKeyChoice};
use crate::pixel_generators::{generate_pixel, generated_pixel, PixelAddChoice};

verus! {

/// A point in monotonic wall-clock time; opaque to the verifier.
#[verifier::external_type_specification]
#[verifier::external_body]
pub struct ExInstant(std::time::Instant);

/// Relies on std::time::Instant::now: the current instant.  Nothing is
/// promised of the value; the elapsed time it leads to is informational only.
#[verifier::external_body]
fn instant_now() -> std::time::Instant {
    std::time::Instant::now()
}

/// Relies on std::time::Instant::elapsed: the time since `start`.  Nothing
/// is promised of the value.
#[verifier::external_body]
fn instant_elapsed(start: &std::time::Instant) -> std::time::Duration {
    start.elapsed()
}

/// The one failure of the engine: mask and bitmap dimensions differ.
#[derive(Clone, Copy, Debug, PartialEq, Eq, Structural)]
pub enum EffectError {
    DimensionMismatch,
}

/// The subsequence of `o` at the positions where `m` is 255, in order.
pub open spec fn masked_seq(o: Seq<Pixel>, m: Seq<u8>) -> Seq<Pixel>
    recommends
        o.len() == m.len(),
    decreases o.len(),
{
    if o.len() == 0 {
        Seq::empty()
    } else if m[o.len() - 1] == 255 {
        masked_seq(o.drop_last(), m.drop_last()).push(o.last())
    } else {
        masked_seq(o.drop_last(), m.drop_last())
    }
}

/// How many of the first `x` entries of `m` are 255.
pub open spec fn cnt_masked(m: Seq<u8>, x: int) -> int
    decreases x,
{
    if x <= 0 {
        0
    } else {
        cnt_masked(m, x - 1) + if m[x - 1] == 255 {
            1int
        } else {
            0int
        }
    }
}

/// Stable insertion of `p` into `s`: `p` goes after every element whose key
/// is at most `p`'s key.
pub open spec fn insert_stable(s: Seq<Pixel>, p: Pixel, c: PixelSortKeyChoice) -> Seq<Pixel>
    decreases s.len(),
{
    if s.len() == 0 {
        seq![p]
    } else if sort_key_spec(c, s.last()) <= sort_key_spec(c, p) {
        s.push(p)
    } else {
        insert_stable(s.drop_last(), p, c).push(s.last())
    }
}

/// The stable sort of `s` ascending by the key of the chosen metric: equal
/// keys keep their relative order.
pub open spec fn sort_by_key(s: Seq<Pixel>, c: PixelSortKeyChoice) -> Seq<Pixel>
    decreases s.len(),
{
    if s.len() == 0 {
        Seq::empty()
    } else {
        insert_stable(sort_by_key(s.drop_last(), c), s.last(), c)
    }
}

/// Ascending by key under the chosen metric.
pub open spec fn sorted_by_key(s: Seq<Pixel>, c: PixelSortKeyChoice) -> bool {
    forall|i: int, j: int|
        0 <= i <= j < s.len() ==> sort_key_spec(c, s[i]) <= sort_key_spec(c, s[j])
}

/// The row that results from writing the pixels of `s` into the masked
/// positions of `o` in order, leaving unmasked positions unchanged.
pub open spec fn fill_row(o: Seq<Pixel>, m: Seq<u8>, s: Seq<Pixel>) -> Seq<Pixel>
    recommends
        o.len() == m.len(),
        s.len() == cnt_masked(m, m.len() as int),
{
    Seq::new(
        o.len(),
        |x: int|
            if m[x] == 255 {
                s[cnt_masked(m, x)]
            } else {
                o[x]
            },
    )
}

/// What the injection step may turn the collected pixels `orig` into: the
/// same length, each pixel either kept or produced by the chosen generator;
/// with injection probability 0 nothing is replaced.
pub open spec fn valid_injection(
    orig: Seq<Pixel>,
    inj: Seq<Pixel>,
    c: PixelAddChoice,
    prob_num: u32,
) -> bool {
    &&& inj.len() == orig.len()
    &&& forall|i: int| 0 <= i < orig.len() ==> inj[i] == orig[i] || generated_pixel(c, inj[i])
    &&& (prob_num == 0 ==> inj == orig)
}

/// The per-row contract of the effect: the output row is the input row with
/// some valid injection of its masked subsequence stable-sorted back into the
/// masked positions.
pub open spec fn effect_row_ok(
    orig_row: Seq<Pixel>,
    mask_row: Seq<u8>,
    out_row: Seq<Pixel>,
    prob_num: u32,
    add: PixelAddChoice,
    key: PixelSortKeyChoice,
) -> bool {
    exists|inj: Seq<Pixel>|
        #[trigger] valid_injection(masked_seq(orig_row, mask_row), inj, add, prob_num)
            && out_row == fill_row(orig_row, mask_row, sort_by_key(inj, key))
}

/// The whole-bitmap contract of the effect: same dimensions, and every row
/// satisfies the per-row contract against its own input and mask row alone.
pub open spec fn effect_ok(
    image: Bitmap,
    mask: Mask,
    out: Bitmap,
    prob_num: u32,
    add: PixelAddChoice,
    key: PixelSortKeyChoice,
) -> bool {
    &&& out.width == image.width
    &&& out.height == image.height
    &&& out.wf()
    &&& forall|y: int|
        0 <= y < image.height ==> effect_row_ok(
            image.row(y),
            mask.row(y),
            #[trigger] out.row(y),
            prob_num,
            add,
            key,
        )
}

/// Inserting `p` at the position found by scanning from the right (all keys
/// strictly greater than `p`'s key lie at or after `idx`, and the element
/// just before `idx`, if any, has a key at most `p`'s) is exactly the stable
/// insertion.
proof fn lemma_insert_stable_at(s: Seq<Pixel>, p: Pixel, c: PixelSortKeyChoice, idx: int)
    requires
        0 <= idx <= s.len(),
        forall|j: int| idx <= j < s.len() ==> sort_key_spec(c, s[j]) > sort_key_spec(c, p),
        idx > 0 ==> sort_key_spec(c, s[idx - 1]) <= sort_key_spec(c, p),
    ensures
        insert_stable(s, p, c) == s.insert(idx, p),
    decreases s.len(),
{
    if s.len() == 0 {
        assert(s.insert(0, p) =~= seq![p]);
    } else if sort_key_spec(c, s.last()) <= sort_key_spec(c, p) {
        assert(idx == s.len());
        assert(s.insert(idx, p) =~= s.push(p));
    } else {
        assert(idx < s.len());
        lemma_insert_stable_at(s.drop_last(), p, c, idx);
        assert(s.drop_last().insert(idx, p).push(s.last()) =~= s.insert(idx, p));
    }
}

/// Sorts the pixels ascending by the key of the chosen metric with a stable
/// insertion sort, matching the `sort_by_key` specification exactly.
pub fn sort_pixels(input: Vec<Pixel>, c: &PixelSortKeyChoice) -> (out: Vec<Pixel>)
    ensures
        out@ == sort_by_key(input@, *c),
{
    let len = input.len();
    let mut out: Vec<Pixel> = Vec::new();
    let mut i: usize = 0;
    while i < len
        invariant
            i <= len,
            len == input@.len(),
            out@ == sort_by_key(input@.take(i as int), *c),
        decreases len - i,
    {
        let p = input[i];
        let k = sort_key(c, &p);
        let mut idx: usize = out.len();
        while idx > 0 && sort_key(c, &out[idx - 1]) > k
            invariant
                idx <= out@.len(),
                k as int == sort_key_spec(*c, p),
                forall|j: int|
                    idx <= j < out@.len() ==> sort_key_spec(*c, out@[j]) > sort_key_spec(*c, p),
            decreases idx,
        {
            idx -= 1;
        }
        proof {
            lemma_insert_stable_at(out@, p, *c, idx as int);
            assert(input@.take(i + 1).drop_last() =~= input@.take(i as int));
            assert(input@.take(i + 1).last() == p);
        }
        out.insert(idx, p);
        i += 1;
    }
    proof {
        assert(input@.take(len as int) =~= input@);
    }
    out
}

/// `cnt_masked` reads only the first `x` entries.
proof fn lemma_cnt_agree(m1: Seq<u8>, m2: Seq<u8>, x: int)
    requires
        forall|j: int| 0 <= j < x ==> m1[j] == m2[j],
    ensures
        cnt_masked(m1, x) == cnt_masked(m2, x),
    decreases x,
{
    if x > 0 {
        lemma_cnt_agree(m1, m2, x - 1);
    }
}

/// `cnt_masked` is monotone in the prefix length.
proof fn lemma_cnt_monotone(m: Seq<u8>, x1: int, x2: int)
    requires
        x1 <= x2,
    ensures
        cnt_masked(m, x1) <= cnt_masked(m, x2),
    decreases x2 - x1,
{
    if x1 < x2 {
        lemma_cnt_monotone(m, x1, x2 - 1);
    }
}

/// Extending the scanned prefix by one column appends the column's pixel to
/// the collected subsequence exactly when its mask value is 255.
proof fn lemma_masked_take_step(o: Seq<Pixel>, m: Seq<u8>, x: int)
    requires
        o.len() == m.len(),
        0 <= x < o.len(),
    ensures
        masked_seq(o.take(x + 1), m.take(x + 1)) == if m[x] == 255 {
            masked_seq(o.take(x), m.take(x)).push(o[x])
        } else {
            masked_seq(o.take(x), m.take(x))
        },
{
    assert(o.take(x + 1).drop_last() =~= o.take(x));
    assert(m.take(x + 1).drop_last() =~= m.take(x));
    assert(o.take(x + 1).last() == o[x]);
    assert(m.take(x + 1)[x] == m[x]);
}

/// The collected subsequence has one pixel per 255 entry of the mask row.
proof fn lemma_masked_len(o: Seq<Pixel>, m: Seq<u8>)
    requires
        o.len() == m.len(),
    ensures
        masked_seq(o, m).len() == cnt_masked(m, m.len() as int),
    decreases o.len(),
{
    if o.len() > 0 {
        lemma_masked_len(o.drop_last(), m.drop_last());
        lemma_cnt_agree(m.drop_last(), m, m.len() - 1);
    }
}

/// Bounds of the row-major slice of row `y` in a `w` x `h` grid.
proof fn lemma_grid_index(y: int, w: int, h: int)
    requires
        0 <= y < h,
        0 <= w,
    ensures
        0 <= y * w,
        y * w + w <= w * h,
        (y + 1) * w == y * w + w,
        w * h == h * w,
{
    assert(0 <= y * w && y * w + w <= w * h && (y + 1) * w == y * w + w && w * h == h * w)
        by (nonlinear_arith)
        requires
            0 <= y < h,
            0 <= w,
    ;
}

/// Stable insertion grows the sequence by one.
proof fn lemma_insert_stable_len(s: Seq<Pixel>, p: Pixel, c: PixelSortKeyChoice)
    ensures
        insert_stable(s, p, c).len() == s.len() + 1,
    decreases s.len(),
{
    if s.len() > 0 && !(sort_key_spec(c, s.last()) <= sort_key_spec(c, p)) {
        lemma_insert_stable_len(s.drop_last(), p, c);
    }
}

/// Sorting permutes: the length is unchanged.
proof fn lemma_sort_by_key_len(s: Seq<Pixel>, c: PixelSortKeyChoice)
    ensures
        sort_by_key(s, c).len() == s.len(),
    decreases s.len(),
{
    if s.len() > 0 {
        lemma_sort_by_key_len(s.drop_last(), c);
        lemma_insert_stable_len(sort_by_key(s.drop_last(), c), s.last(), c);
    }
}

/// Appending to a sequence leaves subranges of the original part unchanged.
proof fn lemma_append_subrange(s: Seq<Pixel>, t: Seq<Pixel>, a: int, b: int)
    requires
        0 <= a <= b <= s.len(),
    ensures
        (s + t).subrange(a, b) == s.subrange(a, b),
{
    assert((s + t).subrange(a, b) =~= s.subrange(a, b));
}

/// Relies on rand's thread-local generator and `Rng::gen_ratio`: true with
/// probability `prob_num / prob_den`; guaranteed false when `prob_num` is 0
/// and true when `prob_num` equals `prob_den` (and it panics outside
/// `0 < prob_den`, `prob_num <= prob_den`, hence the bounds).
#[verifier::external_body]
fn draw_ratio(prob_num: u32, prob_den: u32) -> (r: bool)
    requires
        0 < prob_den,
        prob_num <= prob_den,
    ensures
        prob_num == 0 ==> !r,
        prob_num == prob_den ==> r,
{
    let mut rng = rand::thread_rng();
    rand::Rng::gen_ratio(&mut rng, prob_num, prob_den)
}

/// Applies the sort effect.  Per row of the bitmap, independently: collect
/// the pixels at the row's masked positions in left-to-right order; replace
/// each collected pixel, with probability `prob_num / prob_den`, by one from
/// the chosen generator; stable-sort the result ascending by the chosen sort
/// key; and write it back into the masked positions, copying unmasked pixels
/// through unchanged.  Fails exactly when mask and bitmap dimensions differ.
pub fn process_sorting_effect(
    image: &Bitmap,
    mask: &Mask,
    prob_num: u32,
    prob_den: u32,
    pixel_add_choice: &PixelAddChoice,
    pixel_sort_choice: &PixelSortKeyChoice,
) -> (r: Result<(Bitmap, std::time::Duration), EffectError>)
    requires
        image.wf(),
        mask.wf(),
        prob_den > 0,
    ensures
        match r {
            Ok(out) => mask.width == image.width && mask.height == image.height && effect_ok(
                *image,
                *mask,
                out.0,
                prob_num,
                *pixel_add_choice,
                *pixel_sort_choice,
            ),
            Err(e) => (mask.width != image.width || mask.height != image.height) && e
                == EffectError::DimensionMismatch,
        },
{
    if image.width != mask.width || image.height != mask.height {
        return Err(EffectError::DimensionMismatch);
    }
    let w = image.width;
    let h = image.height;
    let len = image.data.len();
    let start = instant_now();
    let mut out_data: Vec<Pixel> = Vec::new();
    let mut y: usize = 0;
    while y < h
        invariant
            y <= h,
            w == image.width,
            h == image.height,
            len == image.data@.len(),
            image.wf(),
            mask.wf(),
            mask.width == w,
            mask.height == h,
            prob_den > 0,
            out_data@.len() == y * w,
            forall|r: int|
                0 <= r < y ==> effect_row_ok(
                    image.row(r),
                    mask.row(r),
                    #[trigger] out_data@.subrange(r * w, r * w + w),
                    prob_num,
                    *pixel_add_choice,
                    *pixel_sort_choice,
                ),
        decreases h - y,
    {
        let ghost orig_row = image.row(y as int);
        let ghost mrow = mask.row(y as int);
        proof {
            lemma_grid_index(y as int, w as int, h as int);
        }
        let base = y * w;

        // collect the masked pixels of row y, left to right
        let mut collected: Vec<Pixel> = Vec::new();
        let mut x: usize = 0;
        while x < w
            invariant
                x <= w,
                y < h,
                base == y * w,
                base + w <= len,
                len == image.data@.len(),
                len == mask.data@.len(),
                w == image.width,
                h == image.height,
                mask.width == w,
                mask.height == h,
                orig_row == image.row(y as int),
                mrow == mask.row(y as int),
                collected@ == masked_seq(orig_row.take(x as int), mrow.take(x as int)),
            decreases w - x,
        {
            let mv = mask.data[base + x];
            proof {
                assert(mrow[x as int] == mask.data@[base + x]);
                lemma_masked_take_step(orig_row, mrow, x as int);
            }
            if mv == 255 {
                collected.push(image.data[base + x]);
            }
            x += 1;
        }
        proof {
            assert(orig_row.take(w as int) =~= orig_row);
            assert(mrow.take(w as int) =~= mrow);
        }

        // injection: keep each pixel or replace it by a generated one
        let clen = collected.len();
        let mut injected: Vec<Pixel> = Vec::new();
        let mut i: usize = 0;
        while i < clen
            invariant
                i <= clen,
                clen == collected@.len(),
                injected@.len() == i,
                prob_den > 0,
                forall|j: int|
                    0 <= j < i ==> injected@[j] == collected@[j] || generated_pixel(
                        *pixel_add_choice,
                        injected@[j],
                    ),
                prob_num == 0 ==> injected@ == collected@.take(i as int),
            decreases clen - i,
        {
            let keep_original = if prob_num == 0 {
                true
            } else if prob_num >= prob_den {
                false
            } else {
                !draw_ratio(prob_num, prob_den)
            };
            if keep_original {
                injected.push(collected[i]);
            } else {
                injected.push(generate_pixel(pixel_add_choice));
            }
            proof {
                if prob_num == 0 {
                    assert(injected@ =~= collected@.take(i + 1));
                }
            }
            i += 1;
        }
        proof {
            if prob_num == 0 {
                assert(collected@.take(clen as int) =~= collected@);
            }
            assert(valid_injection(
                masked_seq(orig_row, mrow),
                injected@,
                *pixel_add_choice,
                prob_num,
            ));
        }
        let ghost inj = injected@;

        // stable sort by the chosen key
        let sorted = sort_pixels(injected, pixel_sort_choice);
        let slen = sorted.len();
        proof {
            lemma_sort_by_key_len(inj, *pixel_sort_choice);
            lemma_masked_len(orig_row, mrow);
            assert(mrow.len() == w);
            assert(sorted@.len() == cnt_masked(mrow, w as int));
        }

        // write the sorted pixels back into the masked positions
        let ghost filled = fill_row(orig_row, mrow, sorted@);
        let mut row_out: Vec<Pixel> = Vec::new();
        let mut j: usize = 0;
        let mut x2: usize = 0;
        while x2 < w
            invariant
                x2 <= w,
                y < h,
                base == y * w,
                base + w <= len,
                len == image.data@.len(),
                len == mask.data@.len(),
                w == image.width,
                h == image.height,
                mask.width == w,
                mask.height == h,
                orig_row == image.row(y as int),
                mrow == mask.row(y as int),
                filled == fill_row(orig_row, mrow, sorted@),
                slen == sorted@.len(),
                sorted@.len() == cnt_masked(mrow, w as int),
                j as int == cnt_masked(mrow, x2 as int),
                row_out@.len() == x2,
                forall|x3: int| 0 <= x3 < x2 ==> row_out@[x3] == filled[x3],
            decreases w - x2,
        {
            let mv = mask.data[base + x2];
            proof {
                assert(mrow[x2 as int] == mask.data@[base + x2]);
                lemma_cnt_monotone(mrow, x2 + 1, w as int);
                assert(cnt_masked(mrow, x2 + 1) == cnt_masked(mrow, x2 as int) + if mrow[
                    x2 as int
                ] == 255 {
                    1int
                } else {
                    0int
                });
            }
            if mv == 255 {
                row_out.push(sorted[j]);
                j += 1;
            } else {
                row_out.push(image.data[base + x2]);
            }
            x2 += 1;
        }
        proof {
            assert(row_out@ =~= filled);
        }

        let ghost pre = out_data@;
        let mut row_move = row_out;
        out_data.append(&mut row_move);
        proof {
            lemma_grid_index(y as int, w as int, h as int);
            assert(out_data@.subrange(y * w, y * w + w) =~= filled);
            assert forall|r: int| 0 <= r < y + 1 implies effect_row_ok(
                image.row(r),
                mask.row(r),
                #[trigger] out_data@.subrange(r * w, r * w + w),
                prob_num,
                *pixel_add_choice,
                *pixel_sort_choice,
            ) by {
                if r < y {
                    lemma_grid_index(r, w as int, h as int);
                    assert((r + 1) * (w as int) <= (y as int) * (w as int)) by (nonlinear_arith)
                        requires
                            r + 1 <= y as int,
                            0 <= w as int,
                    ;
                    lemma_append_subrange(pre, filled, r * w, r * w + w);
                    assert(out_data@.subrange(r * w, r * w + w) == pre.subrange(r * w, r * w + w));
                } else {
                    assert(valid_injection(
                        masked_seq(image.row(r), mask.row(r)),
                        inj,
                        *pixel_add_choice,
                        prob_num,
                    ));
                    assert(out_data@.subrange(r * w, r * w + w) == fill_row(
                        image.row(r),
                        mask.row(r),
                        sort_by_key(inj, *pixel_sort_choice),
                    ));
                }
            }
        }
        y += 1;
    }
    let duration = instant_elapsed(&start);
    let out = Bitmap { width: w, height: h, data: out_data };
    proof {
        assert(out.wf()) by {
            assert(out.data@.len() == h as int * w as int);
            assert(w as int * h as int == h as int * w as int) by (nonlinear_arith);
        }
        assert forall|y2: int| 0 <= y2 < image.height implies effect_row_ok(
            image.row(y2),
            mask.row(y2),
            #[trigger] out.row(y2),
            prob_num,
            *pixel_add_choice,
            *pixel_sort_choice,
        ) by {
            assert(out.row(y2) == out.data@.subrange(y2 * w, y2 * w + w));
        }
    }
    Ok((out, duration))
}

/// Stable insertion adds exactly one copy of the inserted pixel.
proof fn lemma_insert_stable_multiset(s: Seq<Pixel>, p: Pixel, c: PixelSortKeyChoice)
    ensures
        insert_stable(s, p, c).to_multiset() == s.to_multiset().insert(p),
    decreases s.len(),
{
    broadcast use vstd::seq_lib::group_to_multiset_ensures;

    if s.len() == 0 {
        assert(seq![p] =~= Seq::<Pixel>::empty().push(p));
        assert(insert_stable(s, p, c).to_multiset() =~= s.to_multiset().insert(p));
    } else if sort_key_spec(c, s.last()) <= sort_key_spec(c, p) {
        assert(insert_stable(s, p, c).to_multiset() =~= s.to_multiset().insert(p));
    } else {
        lemma_insert_stable_multiset(s.drop_last(), p, c);
        assert(s =~= s.drop_last().push(s.last()));
        assert(s.to_multiset() =~= s.drop_last().to_multiset().insert(s.last()));
        assert(insert_stable(s, p, c).to_multiset() =~= s.drop_last().to_multiset().insert(
            p,
        ).insert(s.last()));
        assert(s.drop_last().to_multiset().insert(p).insert(s.last())
            =~= s.drop_last().to_multiset().insert(s.last()).insert(p));
    }
}

/// Count preservation of the sort itself: sorting permutes, it never drops
/// or duplicates a pixel.
pub proof fn lemma_sort_by_key_multiset(s: Seq<Pixel>, c: PixelSortKeyChoice)
    ensures
        sort_by_key(s, c).to_multiset() == s.to_multiset(),
    decreases s.len(),
{
    broadcast use vstd::seq_lib::group_to_multiset_ensures;

    if s.len() > 0 {
        lemma_sort_by_key_multiset(s.drop_last(), c);
        lemma_insert_stable_multiset(sort_by_key(s.drop_last(), c), s.last(), c);
        assert(s =~= s.drop_last().push(s.last()));
        assert(s.to_multiset() =~= s.drop_last().to_multiset().insert(s.last()));
    }
}

/// Stable insertion into a key-sorted sequence keeps it key-sorted.
proof fn lemma_insert_stable_sorted(s: Seq<Pixel>, p: Pixel, c: PixelSortKeyChoice)
    requires
        sorted_by_key(s, c),
    ensures
        sorted_by_key(insert_stable(s, p, c), c),
    decreases s.len(),
{
    broadcast use vstd::seq_lib::group_to_multiset_ensures;
    broadcast use vstd::multiset::group_multiset_axioms;

    if s.len() == 0 {
    } else if sort_key_spec(c, s.last()) <= sort_key_spec(c, p) {
        let t = s.push(p);
        assert forall|i: int, j: int| 0 <= i <= j < t.len() implies sort_key_spec(c, t[i])
            <= sort_key_spec(c, t[j]) by {
            if j == t.len() - 1 && i < j {
                assert(sort_key_spec(c, s[i]) <= sort_key_spec(c, s[s.len() - 1]));
            }
        }
    } else {
        let dl = s.drop_last();
        assert(sorted_by_key(dl, c));
        lemma_insert_stable_sorted(dl, p, c);
        lemma_insert_stable_multiset(dl, p, c);
        let t0 = insert_stable(dl, p, c);
        let t = t0.push(s.last());
        assert forall|i: int| 0 <= i < t0.len() implies sort_key_spec(c, t0[i]) <= sort_key_spec(
            c,
            s.last(),
        ) by {
            let e = t0[i];
            assert(t0.contains(e));
            assert(t0.to_multiset().count(e) > 0);
            if e != p {
                assert(dl.to_multiset().count(e) > 0);
                assert(dl.contains(e));
                let j = choose|j: int| 0 <= j < dl.len() && dl[j] == e;
                assert(sort_key_spec(c, s[j]) <= sort_key_spec(c, s[s.len() - 1]));
            }
        }
        assert forall|i: int, j: int| 0 <= i <= j < t.len() implies sort_key_spec(c, t[i])
            <= sort_key_spec(c, t[j]) by {
            if j == t.len() - 1 && i < j {
                assert(sort_key_spec(c, t0[i]) <= sort_key_spec(c, s.last()));
            }
        }
    }
}

/// The sort's output is ascending by the chosen key.
pub proof fn lemma_sort_by_key_sorted(s: Seq<Pixel>, c: PixelSortKeyChoice)
    ensures
        sorted_by_key(sort_by_key(s, c), c),
    decreases s.len(),
{
    if s.len() > 0 {
        lemma_sort_by_key_sorted(s.drop_last(), c);
        lemma_insert_stable_sorted(sort_by_key(s.drop_last(), c), s.last(), c);
    }
}

/// Stable-sort tie behaviour: a sequence whose pixels all share one key
/// value is left in its original order by the sort.
pub proof fn lemma_stable_sort_ties(s: Seq<Pixel>, c: PixelSortKeyChoice)
    requires
        forall|i: int, j: int|
            0 <= i < s.len() && 0 <= j < s.len() ==> sort_key_spec(c, s[i]) == sort_key_spec(
                c,
                s[j],
            ),
    ensures
        sort_by_key(s, c) == s,
    decreases s.len(),
{
    if s.len() > 0 {
        lemma_stable_sort_ties(s.drop_last(), c);
        if s.len() == 1 {
            assert(sort_by_key(s, c) =~= s);
        } else {
            assert(s.drop_last().last() == s[s.len() - 2]);
            assert(sort_by_key(s, c) == s.drop_last().push(s.last()));
            assert(s.drop_last().push(s.last()) =~= s);
        }
    }
}

/// A mask row with no 255 entry collects nothing.
proof fn lemma_masked_empty(o: Seq<Pixel>, m: Seq<u8>)
    requires
        o.len() == m.len(),
        forall|j: int| 0 <= j < m.len() ==> m[j] != 255,
    ensures
        masked_seq(o, m) == Seq::<Pixel>::empty(),
    decreases o.len(),
{
    if o.len() > 0 {
        lemma_masked_empty(o.drop_last(), m.drop_last());
    }
}

/// The pixel collected for the `cnt_masked(m, x)`-th masked position is the
/// row's pixel at column `x`.
proof fn lemma_masked_index(o: Seq<Pixel>, m: Seq<u8>, x: int)
    requires
        o.len() == m.len(),
        0 <= x < m.len(),
        m[x] == 255,
    ensures
        0 <= cnt_masked(m, x) < masked_seq(o, m).len(),
        masked_seq(o, m)[cnt_masked(m, x)] == o[x],
    decreases o.len(),
{
    let n = o.len() - 1;
    let o2 = o.drop_last();
    let m2 = m.drop_last();
    lemma_cnt_monotone(m, 0, x);
    if x == n {
        lemma_masked_len(o2, m2);
        lemma_cnt_agree(m2, m, n);
    } else {
        lemma_masked_index(o2, m2, x);
        lemma_cnt_agree(m2, m, x);
    }
}

/// Writing a row's own collected pixels back into its masked positions
/// restores the row exactly.
proof fn lemma_fill_restore(o: Seq<Pixel>, m: Seq<u8>)
    requires
        o.len() == m.len(),
    ensures
        fill_row(o, m, masked_seq(o, m)) == o,
{
    assert forall|x: int| 0 <= x < o.len() implies fill_row(o, m, masked_seq(o, m))[x] == o[
        x
    ] by {
        if m[x] == 255 {
            lemma_masked_index(o, m, x);
        }
    }
    assert(fill_row(o, m, masked_seq(o, m)) =~= o);
}

/// Reading the masked positions of a filled row gives back exactly the
/// pixels that were written into them.
proof fn lemma_fill_extract(o: Seq<Pixel>, m: Seq<u8>, s: Seq<Pixel>)
    requires
        o.len() == m.len(),
        s.len() == cnt_masked(m, m.len() as int),
    ensures
        masked_seq(fill_row(o, m, s), m) == s,
    decreases o.len(),
{
    let f = fill_row(o, m, s);
    if o.len() == 0 {
        assert(s =~= Seq::<Pixel>::empty());
        assert(masked_seq(f, m) == Seq::<Pixel>::empty());
    } else {
        let n = o.len() - 1;
        let o2 = o.drop_last();
        let m2 = m.drop_last();
        let c2 = cnt_masked(m, n);
        lemma_cnt_agree(m2, m, n);
        lemma_cnt_monotone(m, 0, n);
        lemma_cnt_monotone(m, n, m.len() as int);
        let s2 = s.take(c2);
        lemma_fill_extract(o2, m2, s2);
        assert(f.drop_last() =~= fill_row(o2, m2, s2)) by {
            assert forall|x: int| 0 <= x < n implies f[x] == fill_row(o2, m2, s2)[x] by {
                lemma_cnt_agree(m2, m, x);
                if m[x] == 255 {
                    lemma_cnt_monotone(m, 0, x);
                    lemma_cnt_monotone(m, x + 1, n);
                }
            }
        }
        if m[n] == 255 {
            assert(cnt_masked(m, m.len() as int) == c2 + 1);
            assert(f[n] == s[c2]);
            assert(masked_seq(f, m) == masked_seq(f.drop_last(), m2).push(f.last()));
            assert(s2.push(s[c2]) =~= s);
        } else {
            assert(cnt_masked(m, m.len() as int) == c2);
            assert(masked_seq(f, m) == masked_seq(f.drop_last(), m2));
            assert(s2 =~= s);
        }
    }
}

/// Count preservation per row: the multiset of pixel values placed into the
/// masked positions of a row equals the multiset of (possibly injected)
/// pixel values collected from that row before sorting.
pub proof fn lemma_count_preservation(
    orig_row: Seq<Pixel>,
    mask_row: Seq<u8>,
    inj: Seq<Pixel>,
    key: PixelSortKeyChoice,
)
    requires
        orig_row.len() == mask_row.len(),
        inj.len() == masked_seq(orig_row, mask_row).len(),
    ensures
        masked_seq(fill_row(orig_row, mask_row, sort_by_key(inj, key)), mask_row).to_multiset()
            == inj.to_multiset(),
{
    lemma_masked_len(orig_row, mask_row);
    lemma_sort_by_key_len(inj, key);
    lemma_fill_extract(orig_row, mask_row, sort_by_key(inj, key));
    lemma_sort_by_key_multiset(inj, key);
}

/// Stable-sort tie behaviour at row level: when every masked pixel of a row
/// shares one key value, sorting the row changes nothing.
pub proof fn lemma_ties_row_identity(
    orig_row: Seq<Pixel>,
    mask_row: Seq<u8>,
    key: PixelSortKeyChoice,
)
    requires
        orig_row.len() == mask_row.len(),
        forall|i: int, j: int|
            0 <= i < masked_seq(orig_row, mask_row).len() && 0 <= j < masked_seq(
                orig_row,
                mask_row,
            ).len() ==> sort_key_spec(key, masked_seq(orig_row, mask_row)[i]) == sort_key_spec(
                key,
                masked_seq(orig_row, mask_row)[j],
            ),
    ensures
        fill_row(orig_row, mask_row, sort_by_key(masked_seq(orig_row, mask_row), key))
            == orig_row,
{
    lemma_stable_sort_ties(masked_seq(orig_row, mask_row), key);
    lemma_fill_restore(orig_row, mask_row);
}

/// Bitmaps of equal dimensions with equal rows hold equal data.
proof fn lemma_rows_equal_data(b1: Bitmap, b2: Bitmap)
    requires
        b1.wf(),
        b2.wf(),
        b1.width == b2.width,
        b1.height == b2.height,
        forall|y: int| 0 <= y < b1.height ==> b1.row(y) == b2.row(y),
    ensures
        b1.data@ == b2.data@,
{
    let w = b1.width as int;
    let h = b1.height as int;
    assert forall|i: int| 0 <= i < b1.data@.len() implies b1.data@[i] == b2.data@[i] by {
        assert(w > 0) by (nonlinear_arith)
            requires
                0 <= w,
                0 <= h,
                0 <= i < w * h,
        ;
        let y = i / w;
        let x = i % w;
        vstd::arithmetic::div_mod::lemma_fundamental_div_mod(i, w);
        vstd::arithmetic::div_mod::lemma_mod_bound(i, w);
        vstd::arithmetic::div_mod::lemma_div_pos_is_pos(i, w);
        assert(y < h) by (nonlinear_arith)
            requires
                i == w * y + x,
                0 <= x < w,
                i < w * h,
                0 <= y,
        ;
        lemma_grid_index(y, w, h);
        assert(b1.row(y)[x] == b1.data@[y * w + x]);
        assert(b2.row(y)[x] == b2.data@[y * w + x]);
        assert(i == y * w + x) by (nonlinear_arith)
            requires
                i == w * y + x,
        ;
    }
    assert(b1.data@ =~= b2.data@);
}

/// Unmasked identity: under an all-zero mask the effect returns the input
/// bitmap unchanged, for any injection policy and sort metric.
pub proof fn lemma_unmasked_identity(
    image: Bitmap,
    mask: Mask,
    out: Bitmap,
    prob_num: u32,
    add: PixelAddChoice,
    key: PixelSortKeyChoice,
)
    requires
        image.wf(),
        mask.wf(),
        mask.width == image.width,
        mask.height == image.height,
        forall|i: int| 0 <= i < mask.data@.len() ==> mask.data@[i] == 0,
        effect_ok(image, mask, out, prob_num, add, key),
    ensures
        out.data@ == image.data@,
{
    let w = image.width as int;
    let h = image.height as int;
    assert forall|y: int| 0 <= y < h implies out.row(y) == image.row(y) by {
        lemma_grid_index(y, w, h);
        let orig_row = image.row(y);
        let mrow = mask.row(y);
        assert(forall|j: int| 0 <= j < mrow.len() ==> mrow[j] != 255);
        lemma_masked_empty(orig_row, mrow);
        let inj = choose|inj: Seq<Pixel>|
            #[trigger] valid_injection(masked_seq(orig_row, mrow), inj, add, prob_num)
                && out.row(y) == fill_row(orig_row, mrow, sort_by_key(inj, key));
        assert(inj.len() == 0);
        assert(inj =~= Seq::<Pixel>::empty());
        assert(sort_by_key(inj, key) == Seq::<Pixel>::empty());
        assert(fill_row(orig_row, mrow, sort_by_key(inj, key)) =~= orig_row);
    }
    lemma_rows_equal_data(out, image);
}

/// Row locality: with injection probability 0, the output of row `y` depends
/// only on the input pixels and mask values of row `y` itself; two inputs
/// that agree on that row give the same output row.
pub proof fn lemma_row_locality(
    image1: Bitmap,
    mask1: Mask,
    out1: Bitmap,
    image2: Bitmap,
    mask2: Mask,
    out2: Bitmap,
    y: int,
    add: PixelAddChoice,
    key: PixelSortKeyChoice,
)
    requires
        effect_ok(image1, mask1, out1, 0, add, key),
        effect_ok(image2, mask2, out2, 0, add, key),
        0 <= y < image1.height,
        0 <= y < image2.height,
        image1.row(y) == image2.row(y),
        mask1.row(y) == mask2.row(y),
    ensures
        out1.row(y) == out2.row(y),
{
    let orig_row = image1.row(y);
    let mrow = mask1.row(y);
    let inj1 = choose|inj: Seq<Pixel>|
        #[trigger] valid_injection(masked_seq(orig_row, mrow), inj, add, 0u32)
            && out1.row(y) == fill_row(orig_row, mrow, sort_by_key(inj, key));
    let inj2 = choose|inj: Seq<Pixel>|
        #[trigger] valid_injection(masked_seq(orig_row, mrow), inj, add, 0u32)
            && out2.row(y) == fill_row(orig_row, mrow, sort_by_key(inj, key));
    assert(inj1 == masked_seq(orig_row, mrow));
    assert(inj2 == masked_seq(orig_row, mrow));
}

/// Determinism without injection: with probability 0 the effect's output is
/// a function of bitmap, mask and sort metric alone, so any two outputs that
/// satisfy the contract hold identical pixel data.
pub proof fn lemma_determinism(
    image: Bitmap,
    mask: Mask,
    out1: Bitmap,
    out2: Bitmap,
    add: PixelAddChoice,
    key: PixelSortKeyChoice,
)
    requires
        image.wf(),
        effect_ok(image, mask, out1, 0, add, key),
        effect_ok(image, mask, out2, 0, add, key),
    ensures
        out1.data@ == out2.data@,
{
    assert forall|y: int| 0 <= y < out1.height implies out1.row(y) == out2.row(y) by {
        lemma_row_locality(image, mask, out1, image, mask, out2, y, add, key);
    }
    lemma_rows_equal_data(out1, out2);
}

} // verus!
