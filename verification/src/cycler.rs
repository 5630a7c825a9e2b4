//! The effect cycler: it owns the frame buffer, keeps the
//! registered renderers under unique identifiers, and dispatches
//! each tick to the selected one.
//!
//! Its selection is a state machine over "no selection" and
//! "selection = index": registration never changes the selection,
//! a failed select leaves it untouched, and a random cycle always
//! moves it when more than one renderer is registered.

use vstd::prelude::*;

use crate::effects::{Effect, MatrixInput};
use crate::matrix::DeviceMatrixCustom;
use crate::razer::OpenRazerError;
use crate::rng::random_below;
use crate::strutil::str_eq;

verus! {

/// The scheduler that decides which renderer owns the grid.
pub struct EffectCycler<'a, E: Effect> {
    matrix: DeviceMatrixCustom<'a>,
    effects: Vec<(String, E)>,
    selected: Option<usize>,
}

impl<'a, E: Effect> EffectCycler<'a, E> {
    /// The registered identifiers, in registration order.
    pub closed spec fn identifiers(&self) -> Seq<Seq<char>> {
        Seq::new(self.effects@.len(), |i: int| self.effects@[i].0@)
    }

    /// How many renderers are registered.
    pub open spec fn num_effects(&self) -> int {
        self.identifiers().len() as int
    }

    /// The selected index, if any.
    pub closed spec fn selected_index(&self) -> Option<int> {
        match self.selected {
            Some(i) => Some(i as int),
            None => None,
        }
    }

    /// The grid the renderers paint.
    pub closed spec fn spec_matrix(&self) -> DeviceMatrixCustom<'a> {
        self.matrix
    }

    /// Well-formed cycler: a well-formed grid, a selection that
    /// points at a registered renderer, and pairwise distinct
    /// identifiers.
    pub closed spec fn wf(&self) -> bool {
        &&& self.matrix.wf()
        &&& (match self.selected {
            Some(i) => i < self.effects.len(),
            None => true,
        })
        &&& (forall|i: int, j: int|
            0 <= i < j < self.identifiers().len() ==> self.identifiers()[i]
                != self.identifiers()[j])
    }

    /// The identifier of the selected renderer, if one is selected.
    pub open spec fn current_identifier_spec(&self) -> Option<Seq<char>> {
        match self.selected_index() {
            Some(i) => Some(self.identifiers()[i]),
            None => None,
        }
    }

    /// A cycler over the given grid, with no renderers and no
    /// selection.
    pub fn new(matrix: DeviceMatrixCustom<'a>) -> (r: EffectCycler<'a, E>)
        requires
            matrix.wf(),
        ensures
            r.wf(),
            r.num_effects() == 0,
            r.selected_index() is None,
            r.spec_matrix() == matrix,
    {
        let r = EffectCycler { matrix, effects: Vec::new(), selected: None };
        proof {
            assert(r.identifiers() =~= Seq::<Seq<char>>::empty());
        }
        r
    }

    /// Registers a renderer under its own identifier.  A renderer
    /// whose identifier is already registered is silently dropped;
    /// the selection never changes.
    pub fn add_effect(&mut self, effect: E)
        requires
            old(self).wf(),
        ensures
            final(self).wf(),
            final(self).selected_index() == old(self).selected_index(),
            final(self).spec_matrix() == old(self).spec_matrix(),
            final(self).identifiers() == old(self).identifiers()
                || (exists|idv: Seq<char>|
                    !old(self).identifiers().contains(idv)
                    && final(self).identifiers() == old(self).identifiers().push(idv)),
    {
        let id = effect.identifier();
        self.add_effect_with_identifier(id, effect);
    }

    /// Registers a renderer under the given identifier: appended
    /// when the identifier is new, silently dropped when it is
    /// taken; the selection never changes either way.
    pub fn add_effect_with_identifier(&mut self, identifier: String, effect: E)
        requires
            old(self).wf(),
        ensures
            final(self).wf(),
            final(self).selected_index() == old(self).selected_index(),
            final(self).spec_matrix() == old(self).spec_matrix(),
            old(self).identifiers().contains(identifier@) ==> *final(self) == *old(self),
            !old(self).identifiers().contains(identifier@) ==> final(self).identifiers() == old(
                self,
            ).identifiers().push(identifier@),
    {
        let id = identifier;
        let ghost idv = id@;
        let mut k: usize = 0;
        while k < self.effects.len()
            invariant
                *self == *old(self),
                old(self).wf(),
                k <= self.effects.len(),
                idv == id@,
                idv == identifier@,
                forall|j: int| 0 <= j < k ==> #[trigger] self.identifiers()[j] != idv,
            decreases self.effects.len() - k,
        {
            if str_eq(self.effects[k].0.as_str(), id.as_str()) {
                proof {
                    assert(self.identifiers()[k as int] == idv);
                    assert(self.identifiers().contains(idv));
                }
                return ;
            }
            proof {
                assert(self.identifiers()[k as int] != idv);
            }
            k = k + 1;
        }
        let ghost pre = *self;
        self.effects.push((id, effect));
        proof {
            assert(self.identifiers() =~= pre.identifiers().push(idv));
            assert(!pre.identifiers().contains(idv));
            assert forall|i: int, j: int|
                0 <= i < j < self.identifiers().len() implies self.identifiers()[i]
                != self.identifiers()[j] by {
                if j < pre.identifiers().len() {
                    assert(pre.identifiers()[i] != pre.identifiers()[j]);
                } else {
                    assert(self.identifiers()[j] == idv);
                    assert(self.identifiers()[i] == pre.identifiers()[i]);
                    assert(pre.identifiers().contains(pre.identifiers()[i]));
                }
            }
        }
    }

    /// Dispatches one tick to the selected renderer, passing the
    /// grid and the tick's input events, and passes its failure on.
    /// With no selection nothing runs and the tick fails with
    /// `NoActiveEffect`.
    pub fn update(&mut self, events: &[MatrixInput]) -> (r: Result<(), OpenRazerError>)
        requires
            old(self).wf(),
        ensures
            final(self).wf(),
            final(self).identifiers() == old(self).identifiers(),
            final(self).selected_index() == old(self).selected_index(),
            final(self).spec_matrix().width == old(self).spec_matrix().width,
            final(self).spec_matrix().height == old(self).spec_matrix().height,
            final(self).spec_matrix().manager == old(self).spec_matrix().manager,
            old(self).selected_index() is None ==> (r matches Err(
                OpenRazerError::NoActiveEffect,
            )) && *final(self) == *old(self),
    {
        match self.selected {
            None => Err(OpenRazerError::NoActiveEffect),
            Some(i) => {
                let ghost pre = *self;
                let pair = &mut self.effects[i];
                let res = pair.1.update(&mut self.matrix, events);
                proof {
                    assert(self.identifiers() =~= pre.identifiers());
                }
                res
            },
        }
    }

    /// Moves the selection to a uniformly random renderer.  With
    /// more than one registered and one selected, the new selection
    /// always differs from the old, so the active renderer — and
    /// with it the identifier — changes on every cycle when a
    /// choice exists; with exactly one registered, the selection
    /// lands on it and stays.
    pub fn next_effect(&mut self)
        requires
            old(self).wf(),
            old(self).num_effects() >= 1,
        ensures
            final(self).wf(),
            final(self).identifiers() == old(self).identifiers(),
            final(self).spec_matrix() == old(self).spec_matrix(),
            final(self).selected_index() matches Some(i) && 0 <= i < old(self).num_effects(),
            old(self).num_effects() == 1 ==> final(self).selected_index() == Some(0int),
            old(self).num_effects() > 1 && old(self).selected_index() is Some
                ==> final(self).selected_index() != old(self).selected_index()
                    && final(self).current_identifier_spec()
                        != old(self).current_identifier_spec(),
    {
        let n = self.effects.len();
        let next: usize = match self.selected {
            Some(cur) if n > 1 => {
                let draw = random_below(n - 1);
                if draw >= cur {
                    draw + 1
                } else {
                    draw
                }
            },
            _ => random_below(n),
        };
        let ghost pre = *self;
        self.selected = Some(next);
        proof {
            assert(self.identifiers() =~= pre.identifiers());
            if pre.num_effects() > 1 && pre.selected_index() is Some {
                let i = pre.selected_index()->0;
                let j = self.selected_index()->0;
                assert(i != j);
                if i < j {
                    assert(pre.identifiers()[i] != pre.identifiers()[j]);
                } else {
                    assert(pre.identifiers()[j] != pre.identifiers()[i]);
                }
            }
        }
    }

    /// Clears the selection: no renderer owns the grid.
    pub fn set_no_effect(&mut self)
        requires
            old(self).wf(),
        ensures
            final(self).wf(),
            final(self).identifiers() == old(self).identifiers(),
            final(self).spec_matrix() == old(self).spec_matrix(),
            final(self).selected_index() is None,
    {
        self.selected = None;
        proof {
            assert(self.identifiers() =~= old(self).identifiers());
        }
    }

    /// Selects the renderer with this identifier.  On a miss the
    /// whole state — the previous selection included — stays
    /// untouched and the call reports failure.
    pub fn set_effect(&mut self, effect_identifier: &str) -> (r: bool)
        requires
            old(self).wf(),
        ensures
            final(self).wf(),
            r == old(self).identifiers().contains(effect_identifier@),
            !r ==> *final(self) == *old(self),
            r ==> final(self).identifiers() == old(self).identifiers()
                && final(self).spec_matrix() == old(self).spec_matrix()
                && (final(self).selected_index() matches Some(i)
                    && 0 <= i < old(self).num_effects()
                    && old(self).identifiers()[i] == effect_identifier@
                    && (forall|j: int|
                        0 <= j < i ==> old(self).identifiers()[j] != effect_identifier@)),
    {
        let mut k: usize = 0;
        while k < self.effects.len()
            invariant
                *self == *old(self),
                old(self).wf(),
                k <= self.effects.len(),
                forall|j: int| 0 <= j < k ==> #[trigger] self.identifiers()[j]
                    != effect_identifier@,
            decreases self.effects.len() - k,
        {
            if str_eq(self.effects[k].0.as_str(), effect_identifier) {
                let ghost pre = *self;
                proof {
                    assert(pre.identifiers()[k as int] == effect_identifier@);
                    assert(pre.identifiers().contains(effect_identifier@));
                }
                self.selected = Some(k);
                proof {
                    assert(self.identifiers() =~= pre.identifiers());
                }
                return true;
            }
            proof {
                assert(self.identifiers()[k as int] != effect_identifier@);
            }
            k = k + 1;
        }
        proof {
            if self.identifiers().contains(effect_identifier@) {
                let w = choose|w: int|
                    0 <= w < self.identifiers().len() && self.identifiers()[w]
                        == effect_identifier@;
                assert(self.identifiers()[w] != effect_identifier@);
            }
        }
        false
    }

    /// The identifier of the selected renderer, or nothing.
    pub fn current_effect_identifier(&self) -> (r: Option<&str>)
        requires
            self.wf(),
        ensures
            match r {
                Some(s) => self.current_identifier_spec() == Some(s@),
                None => self.current_identifier_spec() is None,
            },
    {
        match self.selected {
            None => None,
            Some(i) => Some(self.effects[i].0.as_str()),
        }
    }

    /// A read-only view of the grid, for serializing the frame.
    pub fn matrix(&self) -> (r: &DeviceMatrixCustom<'a>)
        ensures
            *r == self.spec_matrix(),
    {
        &self.matrix
    }
}

} // verus!
