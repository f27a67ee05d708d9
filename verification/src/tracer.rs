//! The light path: how many bounces a ray may take, when it ends, and what
//! colour it brings back.
//!
//! The caller casts the ray that the path names against its scene and
//! reports what became of it; the path counts the bounces and, once it has
//! ended, folds the colours of the bounces into one.

use crate::types::{
    black_bits, color_add, color_bits, color_black, color_mul, lanes_product, lanes_sum, Color,
    Ray,
};
use vstd::prelude::*;

verus! {

/// What became of a ray that was cast.
pub enum Surface {
    /// It struck nothing.
    Missed,
    /// It struck a surface that sends no ray on.
    Absorbed { emitted: Color },
    /// It struck a surface that sends a ray on.
    Scattered { emitted: Color, attenuation: Color, scattered: Ray },
}

/// What a surface gave and how much of the further light it lets through.
pub struct Bounce {
    pub emitted: Color,
    pub attenuation: Color,
}

/// How a path ended, where it did not run out of bounces.
pub enum End {
    /// The last ray left the scene.
    Escaped,
    /// The last surface sent no ray on.
    Absorbed { emitted: Color },
}

/// A path as the contracts see it.
pub struct PathState {
    /// The ray to cast next.
    pub ray: Ray,
    /// The colour of a ray that leaves the scene.
    pub background: Color,
    /// The number of bounces that are left.
    pub depth: u32,
    /// The bounces taken, first to last.
    pub bounces: Seq<Bounce>,
    /// How the path ended, where a ray left the scene or a surface sent
    /// none on.
    pub end: Option<End>,
}

impl PathState {
    /// A path that starts with `ray` and may take `depth` bounces.
    pub open spec fn start(ray: Ray, background: Color, depth: u32) -> PathState {
        PathState { ray, background, depth, bounces: Seq::empty(), end: None }
    }

    /// The path has ended: a ray left the scene, a surface sent none on,
    /// or no bounce is left.
    pub open spec fn ended(self) -> bool {
        self.end is Some || self.depth == 0
    }

    /// The path after the report on its ray. A path that has ended stays
    /// as it is; a miss and an absorbing surface end it; a scattering
    /// surface adds a bounce and leaves one less to take.
    pub open spec fn after(self, surface: Surface) -> PathState {
        if self.ended() {
            self
        } else {
            match surface {
                Surface::Missed => PathState { end: Some(End::Escaped), ..self },
                Surface::Absorbed { emitted } => PathState {
                    end: Some(End::Absorbed { emitted }),
                    ..self
                },
                Surface::Scattered { emitted, attenuation, scattered } => PathState {
                    ray: scattered,
                    background: self.background,
                    depth: (self.depth - 1) as u32,
                    bounces: self.bounces.push(Bounce { emitted, attenuation }),
                    end: None,
                },
            }
        }
    }

    /// The lanes of the colour that the end of the path gives: black where
    /// the bounces ran out.
    pub open spec fn end_bits(self) -> Seq<u32> {
        match self.end {
            Some(End::Escaped) => color_bits(self.background),
            Some(End::Absorbed { emitted }) => color_bits(emitted),
            None => black_bits(),
        }
    }
}

/// The lanes of the colour that light of lanes `light` has after it came
/// back through the bounces, last bounce first: each adds what its surface
/// gave to what it lets through.
pub open spec fn shaded(bounces: Seq<Bounce>, light: Seq<u32>) -> Seq<u32>
    decreases bounces.len(),
{
    if bounces.len() == 0 {
        light
    } else {
        shaded(
            bounces.drop_last(),
            lanes_sum(
                color_bits(bounces.last().emitted),
                lanes_product(color_bits(bounces.last().attenuation), light),
            ),
        )
    }
}

/// The lanes of the colour of a ray by the recursive rule: black with no
/// bounce left; else the background for a miss, what the surface gave
/// where it sends no ray on, and else that plus what the surface lets
/// through of the colour of the scattered ray with one bounce less.
/// `world(n, ray)` is what becomes of `ray` as the `n`-th ray of the path.
pub open spec fn traced(
    ray: Ray,
    background: Color,
    depth: nat,
    nth: nat,
    world: spec_fn(nat, Ray) -> Surface,
) -> Seq<u32>
    decreases depth,
{
    if depth == 0 {
        black_bits()
    } else {
        match world(nth, ray) {
            Surface::Missed => color_bits(background),
            Surface::Absorbed { emitted } => color_bits(emitted),
            Surface::Scattered { emitted, attenuation, scattered } => lanes_sum(
                color_bits(emitted),
                lanes_product(
                    color_bits(attenuation),
                    traced(scattered, background, (depth - 1) as nat, nth + 1, world),
                ),
            ),
        }
    }
}

/// The path as it ends when every ray it names is cast against `world`.
pub open spec fn driven(state: PathState, world: spec_fn(nat, Ray) -> Surface) -> PathState
    decreases state.depth,
{
    if state.ended() {
        state
    } else {
        let next = state.after(world(state.bounces.len(), state.ray));
        if next.ended() {
            next
        } else {
            driven(next, world)
        }
    }
}

/// A path of the renderer.
pub struct Path {
    ray: Ray,
    background: Color,
    depth: u32,
    bounces: Vec<Bounce>,
    end: Option<End>,
}

impl View for Path {
    type V = PathState;

    closed spec fn view(&self) -> PathState {
        PathState {
            ray: self.ray,
            background: self.background,
            depth: self.depth,
            bounces: self.bounces@,
            end: self.end,
        }
    }
}

impl Path {
    /// A path that starts with `ray` and may take `depth` bounces. With no
    /// bounce to take it has ended at once.
    pub fn begin(ray: Ray, background: Color, depth: u32) -> (path: Path)
        ensures
            path@ == PathState::start(ray, background, depth),
    {
        Path { ray, background, depth, bounces: Vec::new(), end: None }
    }

    /// The ray to cast next; none once the path has ended.
    pub fn cast(&self) -> (ray: Option<Ray>)
        ensures
            ray == if self@.ended() {
                None
            } else {
                Some(self@.ray)
            },
    {
        if self.end.is_some() || self.depth == 0 {
            None
        } else {
            Some(self.ray)
        }
    }

    /// Takes the report on the ray that was cast.
    pub fn advance(&mut self, surface: Surface)
        ensures
            final(self)@ == old(self)@.after(surface),
    {
        if self.end.is_some() || self.depth == 0 {
            return ;
        }
        match surface {
            Surface::Missed => {
                self.end = Some(End::Escaped);
            },
            Surface::Absorbed { emitted } => {
                self.end = Some(End::Absorbed { emitted });
            },
            Surface::Scattered { emitted, attenuation, scattered } => {
                self.bounces.push(Bounce { emitted, attenuation });
                self.ray = scattered;
                self.depth = self.depth - 1;
            },
        }
    }

    /// The colour that the path brings back; none before it has ended.
    pub fn finish(self) -> (color: Option<Color>)
        ensures
            color is Some <==> self@.ended(),
            color matches Some(c) ==> color_bits(c) == shaded(self@.bounces, self@.end_bits()),
    {
        let mut light = match self.end {
            None => {
                if self.depth != 0 {
                    return None;
                }
                color_black()
            },
            Some(End::Escaped) => self.background,
            Some(End::Absorbed { emitted }) => emitted,
        };
        let mut k: usize = self.bounces.len();
        proof {
            assert(self.bounces@.take(k as int) =~= self.bounces@);
        }
        while k > 0
            invariant
                k <= self.bounces.len(),
                shaded(self.bounces@.take(k as int), color_bits(light)) == shaded(
                    self.bounces@,
                    self@.end_bits(),
                ),
            decreases k,
        {
            k -= 1;
            let through = color_mul(self.bounces[k].attenuation, light);
            light = color_add(self.bounces[k].emitted, through);
            proof {
                let upto = self.bounces@.take(k as int + 1);
                assert(upto.drop_last() =~= self.bounces@.take(k as int));
                assert(upto.last() == self.bounces@[k as int]);
            }
        }
        Some(light)
    }
}

/// Driving a path against a world gives the colour of the recursive rule.
pub proof fn lemma_driven_path_is_traced(
    ray: Ray,
    background: Color,
    depth: u32,
    world: spec_fn(nat, Ray) -> Surface,
)
    ensures
        ({
            let last = driven(PathState::start(ray, background, depth), world);
            last.ended() && shaded(last.bounces, last.end_bits()) == traced(
                ray,
                background,
                depth as nat,
                0,
                world,
            )
        }),
{
    let start = PathState::start(ray, background, depth);
    lemma_driven_from(start, world);
    assert(shaded(start.bounces, traced(ray, background, depth as nat, 0, world)) == traced(
        ray,
        background,
        depth as nat,
        0,
        world,
    ));
}

/// From any point of a path on, driving it gives what the recursive rule
/// gives for its ray, brought back through the bounces taken so far.
proof fn lemma_driven_from(state: PathState, world: spec_fn(nat, Ray) -> Surface)
    requires
        state.end is None,
    ensures
        driven(state, world).ended(),
        shaded(driven(state, world).bounces, driven(state, world).end_bits()) == shaded(
            state.bounces,
            traced(state.ray, state.background, state.depth as nat, state.bounces.len(), world),
        ),
    decreases state.depth,
{
    if state.depth > 0 {
        let surface = world(state.bounces.len(), state.ray);
        let next = state.after(surface);
        match surface {
            Surface::Scattered { emitted, attenuation, scattered } => {
                let inner = traced(
                    scattered,
                    state.background,
                    (state.depth - 1) as nat,
                    state.bounces.len() + 1,
                    world,
                );
                assert(next.bounces.drop_last() =~= state.bounces);
                assert(next.bounces.last() == Bounce { emitted, attenuation });
                assert(shaded(next.bounces, inner) == shaded(
                    state.bounces,
                    lanes_sum(color_bits(emitted), lanes_product(color_bits(attenuation), inner)),
                ));
                if !next.ended() {
                    lemma_driven_from(next, world);
                } else {
                    assert(inner == black_bits());
                }
            },
            _ => {},
        }
    }
}

/// A path with no bounce to take has ended before any ray is cast, and
/// brings back black, whatever the scene.
pub proof fn lemma_no_depth_is_black(
    ray: Ray,
    background: Color,
    world: spec_fn(nat, Ray) -> Surface,
)
    ensures
        traced(ray, background, 0, 0, world) == black_bits(),
        ({
            let start = PathState::start(ray, background, 0);
            start.ended() && shaded(start.bounces, start.end_bits()) == black_bits()
        }),
{
}

/// With a bounce to take, a ray that strikes nothing brings back the
/// background, and a ray that strikes a surface which sends none on brings
/// back what that surface gives: a scene of lights alone shows each light
/// in its own colour and the background beside it.
pub proof fn lemma_first_surface_decides(
    ray: Ray,
    background: Color,
    depth: u32,
    world: spec_fn(nat, Ray) -> Surface,
)
    requires
        depth > 0,
    ensures
        world(0, ray) is Missed ==> traced(ray, background, depth as nat, 0, world) == color_bits(
            background,
        ),
        world(0, ray) matches Surface::Absorbed { emitted } ==> traced(
            ray,
            background,
            depth as nat,
            0,
            world,
        ) == color_bits(emitted),
{
}

} // verus!
