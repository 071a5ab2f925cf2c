//! The box-average accumulator: sixteen packed RGB words in, their
//! channel-wise mean out.

use vstd::prelude::*;
use crate::color::unpack_rgb;

verus! {

/// How many samples one destination pixel is averaged from.
pub const SAMPLES_PER_AVERAGE: usize = 16;

/// Sum of the red bytes of a run of packed words.
pub open spec fn red_sum(samples: Seq<u32>) -> int
    decreases samples.len(),
{
    if samples.len() == 0 {
        0
    } else {
        red_sum(samples.drop_last()) + unpack_rgb(samples.last()).0
    }
}

/// Sum of the green bytes of a run of packed words.
pub open spec fn green_sum(samples: Seq<u32>) -> int
    decreases samples.len(),
{
    if samples.len() == 0 {
        0
    } else {
        green_sum(samples.drop_last()) + unpack_rgb(samples.last()).1
    }
}

/// Sum of the blue bytes of a run of packed words.
pub open spec fn blue_sum(samples: Seq<u32>) -> int
    decreases samples.len(),
{
    if samples.len() == 0 {
        0
    } else {
        blue_sum(samples.drop_last()) + unpack_rgb(samples.last()).2
    }
}

/// The channel-wise mean of sixteen packed words, rounded down. The divisor
/// is sixteen however many samples there are; with at most sixteen of them
/// each quotient fits a byte.
pub open spec fn box_average(samples: Seq<u32>) -> (u8, u8, u8) {
    (
        (red_sum(samples) / 16) as u8,
        (green_sum(samples) / 16) as u8,
        (blue_sum(samples) / 16) as u8,
    )
}

/// Each channel sum is at most 255 per sample.
pub proof fn lemma_channel_sums_bounded(samples: Seq<u32>)
    ensures
        0 <= red_sum(samples) <= 255 * samples.len(),
        0 <= green_sum(samples) <= 255 * samples.len(),
        0 <= blue_sum(samples) <= 255 * samples.len(),
    decreases samples.len(),
{
    if samples.len() > 0 {
        lemma_channel_sums_bounded(samples.drop_last());
    }
}

/// `n` copies of one packed word.
pub open spec fn repeated(word: u32, n: nat) -> Seq<u32> {
    Seq::new(n, |i: int| word)
}

/// The channel sums of `n` copies of one word are `n` times its channels.
pub proof fn lemma_channel_sums_of_constant(word: u32, n: nat)
    ensures
        red_sum(repeated(word, n)) == n * unpack_rgb(word).0,
        green_sum(repeated(word, n)) == n * unpack_rgb(word).1,
        blue_sum(repeated(word, n)) == n * unpack_rgb(word).2,
    decreases n,
{
    let (r, g, b) = unpack_rgb(word);
    if n == 0 {
        assert(n * r == 0 && n * g == 0 && n * b == 0) by (nonlinear_arith)
            requires
                n == 0,
        ;
    } else {
        let shorter = (n - 1) as nat;
        assert(repeated(word, n).drop_last() =~= repeated(word, shorter));
        assert(repeated(word, n).last() == word);
        lemma_channel_sums_of_constant(word, shorter);
        assert(red_sum(repeated(word, n)) == red_sum(repeated(word, shorter)) + r);
        assert(green_sum(repeated(word, n)) == green_sum(repeated(word, shorter)) + g);
        assert(blue_sum(repeated(word, n)) == blue_sum(repeated(word, shorter)) + b);
        assert(n * r == shorter * r + r && n * g == shorter * g + g && n * b == shorter * b + b)
            by (nonlinear_arith)
            requires
                shorter == n - 1,
        ;
    }
}

/// Averaging sixteen copies of one packed word gives back exactly the
/// colour of that word: nothing drifts.
pub proof fn lemma_box_average_of_constant(word: u32)
    ensures
        box_average(repeated(word, 16)) == unpack_rgb(word),
{
    lemma_channel_sums_of_constant(word, 16);
}

/// What adding one word does to a red, green or blue sum, for channel 0, 1
/// or 2.
spec fn channel_adder(channel: int) -> spec_fn(int, u32) -> int {
    |sum: int, word: u32|
        sum + (if channel == 0 {
            unpack_rgb(word).0
        } else if channel == 1 {
            unpack_rgb(word).1
        } else {
            unpack_rgb(word).2
        })
}

/// Each channel sum is a left fold of additions.
proof fn lemma_channel_sums_are_folds(samples: Seq<u32>)
    ensures
        red_sum(samples) == samples.fold_left(0int, channel_adder(0)),
        green_sum(samples) == samples.fold_left(0int, channel_adder(1)),
        blue_sum(samples) == samples.fold_left(0int, channel_adder(2)),
    decreases samples.len(),
{
    if samples.len() > 0 {
        lemma_channel_sums_are_folds(samples.drop_last());
    }
}

/// The order of the samples does not matter: two runs that hold the same
/// words, each as often in one as in the other, have the same channel sums
/// and so the same average.
pub proof fn lemma_box_average_ignores_order(a: Seq<u32>, b: Seq<u32>)
    requires
        a.to_multiset() == b.to_multiset(),
    ensures
        red_sum(a) == red_sum(b),
        green_sum(a) == green_sum(b),
        blue_sum(a) == blue_sum(b),
        box_average(a) == box_average(b),
{
    lemma_channel_sums_are_folds(a);
    lemma_channel_sums_are_folds(b);
    vstd::seq_lib::lemma_fold_left_permutation(a, b, channel_adder(0), 0int);
    vstd::seq_lib::lemma_fold_left_permutation(a, b, channel_adder(1), 0int);
    vstd::seq_lib::lemma_fold_left_permutation(a, b, channel_adder(2), 0int);
}

/// Two byte-wide sums that share one integer, sixteen bits apart, come apart
/// again after the division by sixteen; so does the green sum, held eight
/// bits up.
proof fn lemma_lanes_divide(r: int, g: int, b: int)
    requires
        0 <= r <= 4080,
        0 <= g <= 4080,
        0 <= b <= 4080,
    ensures
        ((0x1_0000 * r + b) / 16) % 0x100 == b / 16,
        (((0x1_0000 * r + b) / 16) / 0x1_0000) % 0x100 == r / 16,
        ((0x100 * g) / 16) / 0x100 == g / 16,
{
    let rb = (0x1_0000 * r + b) / 16;
    assert(rb == 0x1000 * r + b / 16);
    assert(rb == 0x1_0000 * (r / 16) + 0x1000 * (r % 16) + b / 16);
    assert(rb / 0x1_0000 == r / 16);
    assert(rb == 0x100 * (16 * r) + b / 16);
}

/// Running channel sums of up to sixteen packed RGB words. Red and blue
/// share one integer, sixteen bits apart; green has its own.
pub struct PixelAverage {
    avg_rb: u32,
    avg_g: u32,
    samples: Ghost<Seq<u32>>,
}

impl View for PixelAverage {
    type V = Seq<u32>;

    /// The words added so far, oldest first.
    closed spec fn view(&self) -> Seq<u32> {
        self.samples@
    }
}

impl PixelAverage {
    #[verifier::type_invariant]
    spec fn sums_agree(self) -> bool {
        &&& self.samples@.len() <= 16
        &&& self.avg_rb == 0x1_0000 * red_sum(self.samples@) + blue_sum(self.samples@)
        &&& self.avg_g == 0x100 * green_sum(self.samples@)
    }

    /// An accumulator that holds nothing yet.
    pub fn new() -> (acc: PixelAverage)
        ensures
            acc@ == Seq::<u32>::empty(),
    {
        PixelAverage { avg_rb: 0, avg_g: 0, samples: Ghost(Seq::empty()) }
    }

    /// Adds one packed word. The accumulator takes sixteen and no more.
    pub fn add(&mut self, rgb: u32)
        requires
            old(self)@.len() < 16,
        ensures
            final(self)@ == old(self)@.push(rgb),
    {
        proof {
            use_type_invariant(&*self);
            lemma_channel_sums_bounded(self.samples@);
        }
        let rb: u32 = rgb & 0x00FF00FF;
        let g: u32 = rgb & 0x0000FF00;
        assert(rb == 0x1_0000 * ((rgb as int / 0x1_0000) % 0x100) + rgb as int % 0x100 && g == 0x100
            * ((rgb as int / 0x100) % 0x100)) by (bit_vector)
            requires
                rb == rgb & 0x00FF00FF,
                g == rgb & 0x0000FF00,
        ;
        let ghost longer = self.samples@.push(rgb);
        assert(longer.drop_last() =~= self.samples@);
        *self = PixelAverage {
            avg_rb: self.avg_rb + rb,
            avg_g: self.avg_g + g,
            samples: Ghost(longer),
        };
    }

    /// The mean colour of what was added, each channel sum divided by
    /// sixteen.
    pub fn rgb(self) -> (c: (u8, u8, u8))
        ensures
            c == box_average(self@),
    {
        proof {
            use_type_invariant(&self);
            lemma_channel_sums_bounded(self.samples@);
            lemma_lanes_divide(
                red_sum(self.samples@),
                green_sum(self.samples@),
                blue_sum(self.samples@),
            );
        }
        let rb: u32 = self.avg_rb / 16;
        let g_wide: u32 = self.avg_g / 16;
        let g: u32 = g_wide >> 8;
        let b: u32 = rb & 0xff;
        let r: u32 = (rb >> 16) & 0xff;
        assert(g == g_wide / 0x100 && b == rb % 0x100 && r == (rb / 0x1_0000) % 0x100)
            by (bit_vector)
            requires
                g == g_wide >> 8,
                b == rb & 0xff,
                r == (rb >> 16) & 0xff,
        ;
        (r as u8, g as u8, b as u8)
    }
}

} // verus!
