use vstd::prelude::*;
use core::marker::PhantomData;
use crate::diffusion::{diffuse, is_diffusion_of};
use crate::error::DitherError;
use crate::image::RgbImage;
use crate::kernel::{diffusion_fits, Tap};
use crate::pixel::RgbPixel;
use crate::sealed::Sealed;

verus! {

/// The state every `ErrorPropagator` starts in. A propagator in this state
/// has no palette and cannot dither.
pub struct Base;

/// The state of an `ErrorPropagator` that has been given a palette and can
/// dither.
pub struct WithPalette;

impl Sealed for Base {

}

impl Sealed for WithPalette {

}

/// The states of an `ErrorPropagator`. The trait is sealed.
pub trait PropagatorState: Sealed {

}

impl PropagatorState for Base {

}

impl PropagatorState for WithPalette {

}

/// An error-propagation algorithm: a named diffusion kernel, and, once
/// configured, the palette it dithers to.
pub struct ErrorPropagator<S: PropagatorState> {
    /// The name of the algorithm.
    pub name: &'static str,
    /// The taps, as `(dx, dy, weight)`: the pixel at offset `(dx, dy)`
    /// receives `weight / portions` of the error.
    pub matrix: Vec<Tap>,
    /// The divisor. It need not equal the sum of the weights: a kernel may
    /// discard part of the error.
    pub portions: u16,
    /// The palette, once one was given.
    pub palette: Option<Vec<RgbPixel>>,
    /// The state marker.
    pub state: PhantomData<S>,
}

impl ErrorPropagator<Base> {
    pub fn new(name: &'static str, matrix: Vec<Tap>, portions: u16) -> (propagator: Self)
        ensures
            propagator.name == name,
            propagator.matrix == matrix,
            propagator.portions == portions,
            propagator.palette_view() == Seq::<RgbPixel>::empty(),
    {
        ErrorPropagator { name, matrix, portions, palette: None, state: PhantomData }
    }
}

impl<S: PropagatorState> ErrorPropagator<S> {
    /// The palette the propagator was configured with; empty when it has none.
    pub open spec fn palette_view(self) -> Seq<RgbPixel> {
        match self.palette {
            Some(palette) => palette@,
            None => Seq::empty(),
        }
    }

    /// The same kernel, configured with a palette.
    pub fn with_palette(&self, palette: Vec<RgbPixel>) -> (configured: ErrorPropagator<
        WithPalette,
    >)
        ensures
            configured.name == self.name,
            configured.matrix@ == self.matrix@,
            configured.portions == self.portions,
            configured.palette_view() == palette@,
    {
        let mut matrix: Vec<Tap> = Vec::new();
        let mut t: usize = 0;
        while t < self.matrix.len()
            invariant
                t <= self.matrix@.len(),
                matrix@ == self.matrix@.take(t as int),
            decreases self.matrix@.len() - t,
        {
            matrix.push(self.matrix[t]);
            t += 1;
            assert(matrix@ =~= self.matrix@.take(t as int));
        }
        assert(matrix@ =~= self.matrix@);
        ErrorPropagator {
            name: self.name,
            matrix,
            portions: self.portions,
            palette: Some(palette),
            state: PhantomData,
        }
    }
}

impl ErrorPropagator<WithPalette> {
    /// Dithers the image with this kernel and palette.
    pub fn affect(&self, image: RgbImage) -> (result: Result<RgbImage, DitherError>)
        requires
            diffusion_fits(self.matrix@, self.portions as int, image@.len()),
        ensures
            is_diffusion_of(
                result,
                image,
                self.matrix@,
                self.portions as int,
                self.palette_view(),
            ),
    {
        match &self.palette {
            Some(palette) => diffuse(&image, self.matrix.as_slice(), self.portions, palette.as_slice()),
            None => {
                let empty: Vec<RgbPixel> = Vec::new();
                diffuse(&image, self.matrix.as_slice(), self.portions, empty.as_slice())
            },
        }
    }
}

} // verus!
