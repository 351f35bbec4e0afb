use vstd::prelude::*;
use crate::kernel::{kernel_is_valid, total_weight, weight_prefix, Tap};
use crate::propagator::{Base, ErrorPropagator};

verus! {

/// The taps of the kernel named "floyd-steinberg".
pub open spec fn floyd_steinberg_taps() -> Seq<Tap> {
    seq![(1i8, 0i8, 7u8), (-1i8, 1i8, 5u8), (0i8, 1i8, 3u8), (1i8, 1i8, 1u8)]
}

/// The Floyd-Steinberg kernel. Spreads the whole error.
pub fn floyd_steinberg() -> (kernel: ErrorPropagator<Base>)
    ensures
        kernel.name@ == "floyd-steinberg"@,
        kernel.matrix@ == floyd_steinberg_taps(),
        kernel.portions == 16,
        kernel.palette_view() == Seq::<crate::pixel::RgbPixel>::empty(),
{
    let matrix: Vec<Tap> = vec![(1, 0, 7), (-1, 1, 5), (0, 1, 3), (1, 1, 1)];
    assert(matrix@ =~= floyd_steinberg_taps());
    ErrorPropagator::new("floyd-steinberg", matrix, 16)
}

/// The kernel named "floyd-steinberg" is valid, and its weights sum to 16 over a
/// divisor of 16.
pub proof fn lemma_floyd_steinberg_kernel()
    ensures
        kernel_is_valid(floyd_steinberg_taps(), 16),
        total_weight(floyd_steinberg_taps()) == 16,
{
    let taps = floyd_steinberg_taps();
    reveal_with_fuel(weight_prefix, 5);
    assert(taps.len() == 4);
}

/// The taps of the kernel named "jarvis-judice-ninke".
pub open spec fn jarvis_judice_ninke_taps() -> Seq<Tap> {
    seq![(1i8, 0i8, 7u8), (2i8, 0i8, 5u8), (-2i8, 1i8, 3u8), (-1i8, 1i8, 5u8), (0i8, 1i8, 7u8), (1i8, 1i8, 5u8), (2i8, 1i8, 3u8), (-2i8, 2i8, 1u8), (-1i8, 2i8, 3u8), (0i8, 2i8, 5u8), (1i8, 2i8, 3u8), (2i8, 2i8, 1u8)]
}

/// The Jarvis-Judice-Ninke kernel. Spreads the whole error.
pub fn jarvis_judice_ninke() -> (kernel: ErrorPropagator<Base>)
    ensures
        kernel.name@ == "jarvis-judice-ninke"@,
        kernel.matrix@ == jarvis_judice_ninke_taps(),
        kernel.portions == 48,
        kernel.palette_view() == Seq::<crate::pixel::RgbPixel>::empty(),
{
    let matrix: Vec<Tap> = vec![(1, 0, 7), (2, 0, 5), (-2, 1, 3), (-1, 1, 5), (0, 1, 7), (1, 1, 5), (2, 1, 3), (-2, 2, 1), (-1, 2, 3), (0, 2, 5), (1, 2, 3), (2, 2, 1)];
    assert(matrix@ =~= jarvis_judice_ninke_taps());
    ErrorPropagator::new("jarvis-judice-ninke", matrix, 48)
}

/// The kernel named "jarvis-judice-ninke" is valid, and its weights sum to 48 over a
/// divisor of 48.
pub proof fn lemma_jarvis_judice_ninke_kernel()
    ensures
        kernel_is_valid(jarvis_judice_ninke_taps(), 48),
        total_weight(jarvis_judice_ninke_taps()) == 48,
{
    let taps = jarvis_judice_ninke_taps();
    reveal_with_fuel(weight_prefix, 13);
    assert(taps.len() == 12);
}

/// The taps of the kernel named "atkinson".
pub open spec fn atkinson_taps() -> Seq<Tap> {
    seq![(1i8, 0i8, 1u8), (2i8, 0i8, 1u8), (-1i8, 1i8, 1u8), (0i8, 1i8, 1u8), (1i8, 1i8, 1u8), (0i8, 2i8, 1u8)]
}

/// The Atkinson kernel. Spreads six eighths of the error and discards the rest.
pub fn atkinson() -> (kernel: ErrorPropagator<Base>)
    ensures
        kernel.name@ == "atkinson"@,
        kernel.matrix@ == atkinson_taps(),
        kernel.portions == 8,
        kernel.palette_view() == Seq::<crate::pixel::RgbPixel>::empty(),
{
    let matrix: Vec<Tap> = vec![(1, 0, 1), (2, 0, 1), (-1, 1, 1), (0, 1, 1), (1, 1, 1), (0, 2, 1)];
    assert(matrix@ =~= atkinson_taps());
    ErrorPropagator::new("atkinson", matrix, 8)
}

/// The kernel named "atkinson" is valid, and its weights sum to 6 over a
/// divisor of 8.
pub proof fn lemma_atkinson_kernel()
    ensures
        kernel_is_valid(atkinson_taps(), 8),
        total_weight(atkinson_taps()) == 6,
{
    let taps = atkinson_taps();
    reveal_with_fuel(weight_prefix, 7);
    assert(taps.len() == 6);
}

/// The taps of the kernel named "burkes".
pub open spec fn burkes_taps() -> Seq<Tap> {
    seq![(1i8, 0i8, 8u8), (2i8, 0i8, 4u8), (-2i8, 1i8, 2u8), (-1i8, 1i8, 4u8), (0i8, 1i8, 8u8), (1i8, 1i8, 4u8), (2i8, 1i8, 2u8)]
}

/// The Burkes kernel. Spreads the whole error.
pub fn burkes() -> (kernel: ErrorPropagator<Base>)
    ensures
        kernel.name@ == "burkes"@,
        kernel.matrix@ == burkes_taps(),
        kernel.portions == 32,
        kernel.palette_view() == Seq::<crate::pixel::RgbPixel>::empty(),
{
    let matrix: Vec<Tap> = vec![(1, 0, 8), (2, 0, 4), (-2, 1, 2), (-1, 1, 4), (0, 1, 8), (1, 1, 4), (2, 1, 2)];
    assert(matrix@ =~= burkes_taps());
    ErrorPropagator::new("burkes", matrix, 32)
}

/// The kernel named "burkes" is valid, and its weights sum to 32 over a
/// divisor of 32.
pub proof fn lemma_burkes_kernel()
    ensures
        kernel_is_valid(burkes_taps(), 32),
        total_weight(burkes_taps()) == 32,
{
    let taps = burkes_taps();
    reveal_with_fuel(weight_prefix, 8);
    assert(taps.len() == 7);
}

/// The taps of the kernel named "stucki".
pub open spec fn stucki_taps() -> Seq<Tap> {
    seq![(1i8, 0i8, 8u8), (2i8, 0i8, 4u8), (-2i8, 1i8, 2u8), (-1i8, 1i8, 4u8), (0i8, 1i8, 8u8), (1i8, 1i8, 4u8), (2i8, 1i8, 2u8), (-2i8, 2i8, 1u8), (-1i8, 2i8, 2u8), (0i8, 2i8, 4u8), (1i8, 2i8, 2u8), (2i8, 2i8, 1u8)]
}

/// The Stucki kernel. Spreads the whole error.
pub fn stucki() -> (kernel: ErrorPropagator<Base>)
    ensures
        kernel.name@ == "stucki"@,
        kernel.matrix@ == stucki_taps(),
        kernel.portions == 42,
        kernel.palette_view() == Seq::<crate::pixel::RgbPixel>::empty(),
{
    let matrix: Vec<Tap> = vec![(1, 0, 8), (2, 0, 4), (-2, 1, 2), (-1, 1, 4), (0, 1, 8), (1, 1, 4), (2, 1, 2), (-2, 2, 1), (-1, 2, 2), (0, 2, 4), (1, 2, 2), (2, 2, 1)];
    assert(matrix@ =~= stucki_taps());
    ErrorPropagator::new("stucki", matrix, 42)
}

/// The kernel named "stucki" is valid, and its weights sum to 42 over a
/// divisor of 42.
pub proof fn lemma_stucki_kernel()
    ensures
        kernel_is_valid(stucki_taps(), 42),
        total_weight(stucki_taps()) == 42,
{
    let taps = stucki_taps();
    reveal_with_fuel(weight_prefix, 13);
    assert(taps.len() == 12);
}

/// The taps of the kernel named "sierra".
pub open spec fn sierra_taps() -> Seq<Tap> {
    seq![(1i8, 0i8, 5u8), (2i8, 0i8, 3u8), (-2i8, 1i8, 2u8), (-1i8, 1i8, 4u8), (0i8, 1i8, 5u8), (1i8, 1i8, 4u8), (2i8, 1i8, 2u8), (-1i8, 2i8, 2u8), (0i8, 2i8, 3u8), (1i8, 2i8, 2u8)]
}

/// The Sierra kernel. Spreads the whole error.
pub fn sierra() -> (kernel: ErrorPropagator<Base>)
    ensures
        kernel.name@ == "sierra"@,
        kernel.matrix@ == sierra_taps(),
        kernel.portions == 32,
        kernel.palette_view() == Seq::<crate::pixel::RgbPixel>::empty(),
{
    let matrix: Vec<Tap> = vec![(1, 0, 5), (2, 0, 3), (-2, 1, 2), (-1, 1, 4), (0, 1, 5), (1, 1, 4), (2, 1, 2), (-1, 2, 2), (0, 2, 3), (1, 2, 2)];
    assert(matrix@ =~= sierra_taps());
    ErrorPropagator::new("sierra", matrix, 32)
}

/// The kernel named "sierra" is valid, and its weights sum to 32 over a
/// divisor of 32.
pub proof fn lemma_sierra_kernel()
    ensures
        kernel_is_valid(sierra_taps(), 32),
        total_weight(sierra_taps()) == 32,
{
    let taps = sierra_taps();
    reveal_with_fuel(weight_prefix, 11);
    assert(taps.len() == 10);
}

/// The taps of the kernel named "sierra-two-row".
pub open spec fn sierra_two_row_taps() -> Seq<Tap> {
    seq![(1i8, 0i8, 4u8), (2i8, 0i8, 3u8), (-2i8, 1i8, 1u8), (-1i8, 1i8, 2u8), (0i8, 1i8, 3u8), (1i8, 1i8, 2u8), (2i8, 1i8, 1u8)]
}

/// The two-row Sierra kernel. Spreads the whole error.
pub fn sierra_two_row() -> (kernel: ErrorPropagator<Base>)
    ensures
        kernel.name@ == "sierra-two-row"@,
        kernel.matrix@ == sierra_two_row_taps(),
        kernel.portions == 16,
        kernel.palette_view() == Seq::<crate::pixel::RgbPixel>::empty(),
{
    let matrix: Vec<Tap> = vec![(1, 0, 4), (2, 0, 3), (-2, 1, 1), (-1, 1, 2), (0, 1, 3), (1, 1, 2), (2, 1, 1)];
    assert(matrix@ =~= sierra_two_row_taps());
    ErrorPropagator::new("sierra-two-row", matrix, 16)
}

/// The kernel named "sierra-two-row" is valid, and its weights sum to 16 over a
/// divisor of 16.
pub proof fn lemma_sierra_two_row_kernel()
    ensures
        kernel_is_valid(sierra_two_row_taps(), 16),
        total_weight(sierra_two_row_taps()) == 16,
{
    let taps = sierra_two_row_taps();
    reveal_with_fuel(weight_prefix, 8);
    assert(taps.len() == 7);
}

/// The taps of the kernel named "sierra-lite".
pub open spec fn sierra_lite_taps() -> Seq<Tap> {
    seq![(1i8, 0i8, 2u8), (-1i8, 1i8, 1u8), (0i8, 1i8, 1u8)]
}

/// The Sierra Lite kernel. Spreads the whole error.
pub fn sierra_lite() -> (kernel: ErrorPropagator<Base>)
    ensures
        kernel.name@ == "sierra-lite"@,
        kernel.matrix@ == sierra_lite_taps(),
        kernel.portions == 4,
        kernel.palette_view() == Seq::<crate::pixel::RgbPixel>::empty(),
{
    let matrix: Vec<Tap> = vec![(1, 0, 2), (-1, 1, 1), (0, 1, 1)];
    assert(matrix@ =~= sierra_lite_taps());
    ErrorPropagator::new("sierra-lite", matrix, 4)
}

/// The kernel named "sierra-lite" is valid, and its weights sum to 4 over a
/// divisor of 4.
pub proof fn lemma_sierra_lite_kernel()
    ensures
        kernel_is_valid(sierra_lite_taps(), 4),
        total_weight(sierra_lite_taps()) == 4,
{
    let taps = sierra_lite_taps();
    reveal_with_fuel(weight_prefix, 4);
    assert(taps.len() == 3);
}

/// The taps of the kernel named "basic".
pub open spec fn basic_taps() -> Seq<Tap> {
    seq![(1i8, 0i8, 1u8)]
}

/// The basic kernel: the whole error goes to the next pixel of the row.
pub fn basic() -> (kernel: ErrorPropagator<Base>)
    ensures
        kernel.name@ == "basic"@,
        kernel.matrix@ == basic_taps(),
        kernel.portions == 1,
        kernel.palette_view() == Seq::<crate::pixel::RgbPixel>::empty(),
{
    let matrix: Vec<Tap> = vec![(1, 0, 1)];
    assert(matrix@ =~= basic_taps());
    ErrorPropagator::new("basic", matrix, 1)
}

/// The kernel named "basic" is valid, and its weights sum to 1 over a
/// divisor of 1.
pub proof fn lemma_basic_kernel()
    ensures
        kernel_is_valid(basic_taps(), 1),
        total_weight(basic_taps()) == 1,
{
    let taps = basic_taps();
    reveal_with_fuel(weight_prefix, 2);
    assert(taps.len() == 1);
}

} // verus!
