//! The renderer interface and the matrix input events it consumes,
//! with one reference renderer.
//!
//! Concrete renderers are collaborators of the library: anything
//! implementing [`Effect`] can be registered with the cycler.  The
//! cycler calls at most one update at a time, strictly sequentially,
//! so implementations need no internal synchronization.

use vstd::prelude::*;

use crate::color::Color;
use crate::matrix::DeviceMatrixCustom;
use crate::razer::OpenRazerError;
use crate::rng::random_below;

verus! {

/// One key event mapped onto matrix coordinates.
#[derive(Debug, Clone, PartialEq, Eq, Structural)]
pub enum MatrixInput {
    Pressed { x: usize, y: usize },
    Released { x: usize, y: usize },
    Repeat { x: usize, y: usize },
}

impl MatrixInput {
    /// The column of the event.
    pub open spec fn spec_x(&self) -> usize {
        match self {
            MatrixInput::Pressed { x, .. } => *x,
            MatrixInput::Released { x, .. } => *x,
            MatrixInput::Repeat { x, .. } => *x,
        }
    }

    /// The row of the event.
    pub open spec fn spec_y(&self) -> usize {
        match self {
            MatrixInput::Pressed { y, .. } => *y,
            MatrixInput::Released { y, .. } => *y,
            MatrixInput::Repeat { y, .. } => *y,
        }
    }

    /// The column of the event.
    pub fn x(&self) -> (r: usize)
        ensures
            r == self.spec_x(),
    {
        match self {
            MatrixInput::Pressed { x, .. } => *x,
            MatrixInput::Released { x, .. } => *x,
            MatrixInput::Repeat { x, .. } => *x,
        }
    }

    /// The row of the event.
    pub fn y(&self) -> (r: usize)
        ensures
            r == self.spec_y(),
    {
        match self {
            MatrixInput::Pressed { y, .. } => *y,
            MatrixInput::Released { y, .. } => *y,
            MatrixInput::Repeat { y, .. } => *y,
        }
    }

    /// Column and row of the event.
    pub fn pos(&self) -> (r: (usize, usize))
        ensures
            r == (self.spec_x(), self.spec_y()),
    {
        (self.x(), self.y())
    }

    /// Builds the event for one key state value, as the event source
    /// reports it: 0 a release, 1 a press, 2 an autorepeat; any
    /// other value is no key event.
    pub fn from_event_value(x: usize, y: usize, value: i32) -> (r: Option<MatrixInput>)
        ensures
            value == 0 ==> r == Some(MatrixInput::Released { x, y }),
            value == 1 ==> r == Some(MatrixInput::Pressed { x, y }),
            value == 2 ==> r == Some(MatrixInput::Repeat { x, y }),
            !(value == 0 || value == 1 || value == 2) ==> r is None,
    {
        if value == 0 {
            Some(MatrixInput::Released { x, y })
        } else if value == 1 {
            Some(MatrixInput::Pressed { x, y })
        } else if value == 2 {
            Some(MatrixInput::Repeat { x, y })
        } else {
            None
        }
    }
}

/// A renderer: it names itself once, and each tick it repaints the
/// frame buffer from its own state and the tick's input events.
///
/// An update may fail and the cycler passes the failure on; it must
/// leave the grid well formed and its dimensions unchanged.
pub trait Effect {
    /// The stable name under which the renderer is registered.
    fn identifier(&self) -> String;

    /// One tick: repaint the grid.
    fn update<'a>(
        &mut self,
        matrix: &mut DeviceMatrixCustom<'a>,
        inputs: &[MatrixInput],
    ) -> (r: Result<(), OpenRazerError>)
        requires
            old(matrix).wf(),
        ensures
            final(matrix).wf(),
            final(matrix).width == old(matrix).width,
            final(matrix).height == old(matrix).height,
            final(matrix).manager == old(matrix).manager,
    ;
}

/// A color of full saturation and half lightness at a uniformly
/// random hue.
fn random_hue_color() -> (c: Color) {
    let hue = random_below(360000);
    Color::from_hsl(hue as u32, 1000, 500)
}

/// The reference renderer: it first paints every key a random hue,
/// then repaints each key an event touches with a fresh random hue.
#[derive(Debug)]
pub struct EffectRandom {
    initialized: bool,
}

impl EffectRandom {
    /// A renderer that has not painted yet.
    pub fn new() -> (r: EffectRandom) {
        EffectRandom { initialized: false }
    }
}

impl Effect for EffectRandom {
    fn identifier(&self) -> String {
        String::from_str("effect_random")
    }

    fn update<'a>(
        &mut self,
        matrix: &mut DeviceMatrixCustom<'a>,
        inputs: &[MatrixInput],
    ) -> Result<(), OpenRazerError> {
        if !self.initialized {
            let mut y: usize = 0;
            while y < matrix.height
                invariant
                    matrix.wf(),
                    matrix.width == old(matrix).width,
                    matrix.height == old(matrix).height,
                    matrix.manager == old(matrix).manager,
                decreases matrix.height - y,
            {
                let mut x: usize = 0;
                while x < matrix.width
                    invariant
                        matrix.wf(),
                        matrix.width == old(matrix).width,
                        matrix.height == old(matrix).height,
                        matrix.manager == old(matrix).manager,
                    decreases matrix.width - x,
                {
                    let _ = matrix.set(x, y, random_hue_color());
                    x = x + 1;
                }
                y = y + 1;
            }
            self.initialized = true;
        }
        let mut i: usize = 0;
        while i < inputs.len()
            invariant
                matrix.wf(),
                matrix.width == old(matrix).width,
                matrix.height == old(matrix).height,
                matrix.manager == old(matrix).manager,
            decreases inputs.len() - i,
        {
            let input = &inputs[i];
            let _ = matrix.set(input.x(), input.y(), random_hue_color());
            i = i + 1;
        }
        Ok(())
    }
}

} // verus!
