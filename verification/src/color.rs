//! The light-transport recursion, unrolled into a path.
//!
//! Following a ray means alternating between the scene, which says what the
//! ray met, and the rule below, which says whether to go on. The rule is kept
//! here; casting the ray and the colour arithmetic are the caller's.

use vstd::prelude::*;
use crate::scalar::Scalar;
use crate::vec3::{Color, Vec3};

verus! {

/// What happened to a ray.
#[derive(Clone, Copy, Debug)]
pub enum Bounce {
    /// It left the scene.
    Miss,
    /// It met a surface that does not scatter.
    Absorbed { emitted: Color },
    /// It met a surface that sends it on.
    Scattered { emitted: Color, attenuation: Color },
}

/// One scattering surface on a path: what it emits, and by what it scales the
/// light that comes from further along.
#[derive(Clone, Copy, Debug, PartialEq, Eq, Structural)]
pub struct Layer {
    pub emitted: Color,
    pub attenuation: Color,
}

/// The colour of a path, left unevaluated: `base` is the light at its end, and
/// each layer, from the last to the first, turns the light `c` behind it into
/// `emitted + attenuation * c`, componentwise.
pub struct Radiance {
    pub layers: Seq<Layer>,
    pub base: Color,
}

/// The pattern of `0.0001`: a ray is not taken to hit what lies nearer to its
/// origin than this, so that a scattered ray does not meet the surface it
/// leaves.
pub const NEAREST_BITS: u64 = 0x3f1a_36e2_eb1c_432d;

/// Black.
pub open spec fn spec_black() -> Color {
    Vec3 { x: Scalar { bits: 0 }, y: Scalar { bits: 0 }, z: Scalar { bits: 0 } }
}

/// The colour of the path whose bounces from the `k`-th on are given by
/// `path`, with `depth` bounces still allowed: black when none is left, the
/// background when the ray leaves the scene, what the surface emits when it
/// does not scatter, and otherwise one more layer over the rest of the path.
pub open spec fn radiance(path: spec_fn(int) -> Bounce, k: int, background: Color, depth: int) -> Radiance
    decreases depth,
{
    if depth <= 0 {
        Radiance { layers: Seq::empty(), base: spec_black() }
    } else {
        match path(k) {
            Bounce::Miss => Radiance { layers: Seq::empty(), base: background },
            Bounce::Absorbed { emitted } => Radiance { layers: Seq::empty(), base: emitted },
            Bounce::Scattered { emitted, attenuation } => {
                let rest = radiance(path, k + 1, background, depth - 1);
                Radiance {
                    layers: seq![Layer { emitted, attenuation }] + rest.layers,
                    base: rest.base,
                }
            },
        }
    }
}

/// A path in progress, as contracts see it.
pub struct PathView {
    pub background: Color,
    /// How many more bounces may be followed.
    pub depth: int,
    /// The scattering surfaces met so far, first to last.
    pub layers: Seq<Layer>,
    /// The light at the end of the path, once it has ended.
    pub base: Option<Color>,
}

impl PathView {
    /// The parameter range within which the ray now under way is to be
    /// intersected with the scene, from `0.0001` to infinity; none once the
    /// path has ended.
    pub open spec fn cast(self) -> Option<(Scalar, Scalar)> {
        if self.is_done() {
            None
        } else {
            Some(
                (Scalar { bits: NEAREST_BITS }, Scalar { bits: crate::scalar::INFINITY_BITS }),
            )
        }
    }

    /// Whether the path has ended, and the caller has no more rays to cast.
    pub open spec fn is_done(self) -> bool {
        self.base is Some || self.depth <= 0
    }

    /// The colour of the path once it has ended.
    pub open spec fn result(self) -> Radiance {
        Radiance {
            layers: self.layers,
            base: match self.base {
                Some(c) => c,
                None => spec_black(),
            },
        }
    }

    /// The path after the ray now under way came back with `bounce`. A path
    /// that has ended stays as it is.
    pub open spec fn record(self, bounce: Bounce) -> PathView {
        if self.is_done() {
            self
        } else {
            match bounce {
                Bounce::Miss => PathView { base: Some(self.background), ..self },
                Bounce::Absorbed { emitted } => PathView { base: Some(emitted), ..self },
                Bounce::Scattered { emitted, attenuation } => PathView {
                    depth: self.depth - 1,
                    layers: self.layers.push(Layer { emitted, attenuation }),
                    ..self
                },
            }
        }
    }

    /// The path after `steps` more rays have come back, the first with the
    /// `k`-th bounce of `path`.
    pub open spec fn run(self, path: spec_fn(int) -> Bounce, k: int, steps: nat) -> PathView
        decreases steps,
    {
        if steps == 0 || self.is_done() {
            self
        } else {
            self.record(path(k)).run(path, k + 1, (steps - 1) as nat)
        }
    }

    /// The colour that the path will have if its bounces from the `k`-th on
    /// are those of `path`.
    pub open spec fn outcome(self, path: spec_fn(int) -> Bounce, k: int) -> Radiance {
        match self.base {
            Some(c) => Radiance { layers: self.layers, base: c },
            None => {
                let rest = radiance(path, k, self.background, self.depth);
                Radiance { layers: self.layers + rest.layers, base: rest.base }
            },
        }
    }
}

/// A path in progress.
pub struct Path {
    pub background: Color,
    pub depth: i32,
    pub layers: Vec<Layer>,
    pub base: Option<Color>,
}

impl View for Path {
    type V = PathView;

    open spec fn view(&self) -> PathView {
        PathView {
            background: self.background,
            depth: self.depth as int,
            layers: self.layers@,
            base: self.base,
        }
    }
}

/// Begins the path of a camera ray: nothing met yet, `depth` bounces allowed.
/// With no bounce allowed the path has ended at once, in black.
pub fn ray_color(background: &Color, depth: i32) -> (path: Path)
    ensures
        path@ == (PathView {
            background: *background,
            depth: depth as int,
            layers: Seq::empty(),
            base: None,
        }),
        depth <= 0 ==> path@.is_done() && path@.result() == (Radiance {
            layers: Seq::empty(),
            base: spec_black(),
        }),
{
    Path { background: *background, depth, layers: Vec::new(), base: None }
}

impl Path {
    /// Whether the path has ended.
    pub fn is_done(&self) -> (b: bool)
        ensures
            b == self@.is_done(),
    {
        self.base.is_some() || self.depth <= 0
    }

    /// The range of parameters to intersect the next ray within, or `None`
    /// when the path has ended.
    pub fn cast(&self) -> (range: Option<(Scalar, Scalar)>)
        ensures
            range == self@.cast(),
    {
        if self.is_done() {
            None
        } else {
            Some((Scalar { bits: NEAREST_BITS }, Scalar::infinity()))
        }
    }

    /// Takes what the ray now under way came back with.
    pub fn record(&mut self, bounce: Bounce)
        ensures
            final(self)@ == old(self)@.record(bounce),
    {
        if self.base.is_some() || self.depth <= 0 {
            return ;
        }
        match bounce {
            Bounce::Miss => {
                self.base = Some(self.background);
            },
            Bounce::Absorbed { emitted } => {
                self.base = Some(emitted);
            },
            Bounce::Scattered { emitted, attenuation } => {
                self.layers.push(Layer { emitted, attenuation });
                self.depth = self.depth - 1;
            },
        }
    }

    /// The light at the end of the path: black while the path has not come
    /// to an end by a miss or an absorbing surface.
    pub fn base(&self) -> (c: Color)
        ensures
            c == self@.result().base,
    {
        match self.base {
            Some(c) => c,
            None => Vec3::zero(),
        }
    }
}

/// A path that has just begun will have the colour that the recursion from
/// the camera ray gives.
pub proof fn lemma_path_start(path: spec_fn(int) -> Bounce, background: Color, depth: int)
    ensures
        (PathView { background, depth, layers: Seq::empty(), base: None }).outcome(path, 0)
            == radiance(path, 0, background, depth),
{
    let rest = radiance(path, 0, background, depth);
    assert(Seq::<Layer>::empty() + rest.layers =~= rest.layers);
}

/// Recording the bounce that comes next leaves the colour of a path
/// unchanged, and a path that has ended has that colour as its result.
pub proof fn lemma_path_step(state: PathView, path: spec_fn(int) -> Bounce, k: int)
    ensures
        !state.is_done() ==> state.record(path(k)).outcome(path, k + 1) == state.outcome(path, k),
        state.is_done() ==> state.result() == state.outcome(path, k),
{
    if !state.is_done() {
        match path(k) {
            Bounce::Scattered { emitted, attenuation } => {
                let rest = radiance(path, k + 1, state.background, state.depth - 1);
                let layer = Layer { emitted, attenuation };
                assert(state.layers.push(layer) + rest.layers =~= state.layers + (seq![layer]
                    + rest.layers));
            },
            _ => {
                assert(state.layers + Seq::<Layer>::empty() =~= state.layers);
            },
        }
    } else if state.base is None {
        assert(state.layers + Seq::<Layer>::empty() =~= state.layers);
    }
}

/// With no bounce allowed, the colour is exactly black, whatever the ray and
/// the scene.
pub proof fn lemma_no_depth_is_black(path: spec_fn(int) -> Bounce, background: Color, depth: int)
    requires
        depth <= 0,
    ensures
        radiance(path, 0, background, depth) == (Radiance {
            layers: Seq::empty(),
            base: spec_black(),
        }),
{
}

/// In a scene where the camera ray meets nothing, the colour is exactly the
/// background.
pub proof fn lemma_empty_scene_is_background(
    path: spec_fn(int) -> Bounce,
    background: Color,
    depth: int,
)
    requires
        depth > 0,
        path(0) is Miss,
    ensures
        radiance(path, 0, background, depth) == (Radiance { layers: Seq::empty(), base: background }),
{
}

/// A path comes to an end within as many rays as it has depth, and then has
/// its colour as its result.
pub proof fn lemma_path_run(state: PathView, path: spec_fn(int) -> Bounce, k: int, steps: nat)
    requires
        state.is_done() || steps >= state.depth,
    ensures
        state.run(path, k, steps).is_done(),
        state.run(path, k, steps).result() == state.outcome(path, k),
    decreases steps,
{
    lemma_path_step(state, path, k);
    if steps > 0 && !state.is_done() {
        lemma_path_run(state.record(path(k)), path, k + 1, (steps - 1) as nat);
    }
}

/// Following a camera ray to the end of its path gives the colour of the
/// recursion: black without depth, the background on a miss, what is emitted
/// where nothing scatters, and otherwise what is emitted plus the attenuated
/// colour of the scattered ray, one level shallower.
pub proof fn lemma_path_finds_radiance(path: spec_fn(int) -> Bounce, background: Color, depth: int)
    ensures
        (PathView { background, depth, layers: Seq::empty(), base: None }).run(
            path,
            0,
            if depth > 0 {
                depth as nat
            } else {
                0
            },
        ).result() == radiance(path, 0, background, depth),
{
    let start = PathView { background, depth, layers: Seq::empty(), base: None };
    let steps: nat = if depth > 0 {
        depth as nat
    } else {
        0
    };
    lemma_path_start(path, background, depth);
    lemma_path_run(start, path, 0, steps);
}

} // verus!
