//! What readers see of a session: the snapshot that is taken after each
//! iteration, and the C structures made from it. Measured numbers have the
//! type `T`.

use vstd::prelude::*;

use crate::capi::status::morphit_session_state;
use crate::js::SessionState;

verus! {

impl morphit_session_state {
    /// The C value of a session's state.
    pub fn from_session(s: SessionState) -> (out: morphit_session_state)
        ensures
            out == match s {
                SessionState::Running => morphit_session_state::MORPHIT_STATE_RUNNING,
                SessionState::Converged => morphit_session_state::MORPHIT_STATE_CONVERGED,
                SessionState::Completed => morphit_session_state::MORPHIT_STATE_COMPLETED,
                SessionState::Finalized => morphit_session_state::MORPHIT_STATE_FINALIZED,
            },
    {
        match s {
            SessionState::Running => morphit_session_state::MORPHIT_STATE_RUNNING,
            SessionState::Converged => morphit_session_state::MORPHIT_STATE_CONVERGED,
            SessionState::Completed => morphit_session_state::MORPHIT_STATE_COMPLETED,
            SessionState::Finalized => morphit_session_state::MORPHIT_STATE_FINALIZED,
        }
    }
}

/// One for true, zero for false.
pub open spec fn flag(b: bool) -> i32 {
    if b {
        1
    } else {
        0
    }
}

/// One for true, zero for false.
fn as_flag(b: bool) -> (out: i32)
    ensures
        out == flag(b),
{
    if b {
        1
    } else {
        0
    }
}

/// One iteration, as the optimizer reports it.
#[derive(Clone, Copy, Debug)]
pub struct StepInfo<T> {
    pub iteration: usize,
    pub total_loss: T,
    pub weighted_losses: [T; 12],
    pub raw_losses: [T; 12],
    pub position_grad_mag: T,
    pub radius_grad_mag: T,
    pub num_spheres: usize,
    pub projected: usize,
    /// Spheres that density control replaced, when it ran.
    pub density_control: Option<usize>,
    pub done: bool,
    pub converged: bool,
    pub seconds: T,
}

/// What one iteration did.
#[allow(non_camel_case_types)]
#[derive(Clone, Copy, Debug)]
pub struct morphit_step_info<T> {
    /// Zero-based index of the iteration that ran.
    pub iteration: u64,
    pub total_loss: T,
    /// `weight * value` per loss.
    pub weighted_losses: [T; 12],
    /// Unweighted value per loss.
    pub raw_losses: [T; 12],
    /// Mean per-sphere center-gradient norm before clipping.
    pub position_grad_mag: T,
    /// Raw-radius gradient norm before clipping.
    pub radius_grad_mag: T,
    pub num_spheres: usize,
    /// Centers projected back inside the mesh during this iteration.
    pub projected: usize,
    /// Nonzero if density control ran after this iteration.
    pub density_control_fired: i32,
    /// Spheres culled and reseeded by density control (0 if it did not run).
    pub density_control_replaced: usize,
    /// Nonzero when the session has no iterations left.
    pub done: i32,
    /// Nonzero when the convergence test stopped the run here.
    pub converged: i32,
    pub seconds: T,
}

impl<T: Copy> morphit_step_info<T> {
    /// The C structure of an iteration.
    pub fn from_step(s: &StepInfo<T>) -> (out: morphit_step_info<T>)
        ensures
            out == (morphit_step_info {
                iteration: s.iteration as u64,
                total_loss: s.total_loss,
                weighted_losses: s.weighted_losses,
                raw_losses: s.raw_losses,
                position_grad_mag: s.position_grad_mag,
                radius_grad_mag: s.radius_grad_mag,
                num_spheres: s.num_spheres,
                projected: s.projected,
                density_control_fired: flag(s.density_control is Some),
                density_control_replaced: match s.density_control {
                    Some(n) => n,
                    None => 0,
                },
                done: flag(s.done),
                converged: flag(s.converged),
                seconds: s.seconds,
            }),
    {
        morphit_step_info {
            iteration: s.iteration as u64,
            total_loss: s.total_loss,
            weighted_losses: s.weighted_losses,
            raw_losses: s.raw_losses,
            position_grad_mag: s.position_grad_mag,
            radius_grad_mag: s.radius_grad_mag,
            num_spheres: s.num_spheres,
            projected: s.projected,
            density_control_fired: as_flag(s.density_control.is_some()),
            density_control_replaced: match s.density_control {
                Some(n) => n,
                None => 0,
            },
            done: as_flag(s.done),
            converged: as_flag(s.converged),
            seconds: s.seconds,
        }
    }
}

/// Session progress, readable at any time from any thread.
#[allow(non_camel_case_types)]
#[derive(Clone, Copy, Debug)]
pub struct morphit_state_info<T> {
    pub state: morphit_session_state,
    /// Iterations run so far.
    pub iteration: u64,
    pub total_iterations: u64,
    pub num_spheres: usize,
    /// Loss of the last iteration (NaN before the first).
    pub total_loss: T,
    /// Nonzero while `morphit_run` is active.
    pub running: i32,
    pub density_control_passes: u64,
    /// Spheres removed by the final prune.
    pub pruned: usize,
    /// Seed that drove all sampling (drawn at random when the config had none).
    pub seed: u64,
}

/// A mesh, as the optimizer describes it.
#[derive(Clone, Copy, Debug)]
pub struct MeshFacts<T> {
    pub vertices: usize,
    pub faces: usize,
    pub volume: T,
    pub area: T,
    pub scale: T,
    pub bounds_min: [T; 3],
    pub bounds_max: [T; 3],
    pub center_mass: [T; 3],
    /// The inertia tensor, column by column.
    pub inertia: [[T; 3]; 3],
    pub winding_flipped: bool,
}

/// Mesh properties.
#[allow(non_camel_case_types)]
#[derive(Clone, Copy, Debug)]
pub struct morphit_mesh_info<T> {
    pub num_vertices: usize,
    pub num_faces: usize,
    pub volume: T,
    pub area: T,
    /// Length of the bounding-box diagonal.
    pub scale: T,
    pub bounds_min: [T; 3],
    pub bounds_max: [T; 3],
    pub center_mass: [T; 3],
    /// Inertia tensor about the center of mass at density 1, row-major.
    pub inertia: [T; 9],
    /// Nonzero if the input was wound inward and all faces were flipped.
    pub winding_flipped: i32,
}

/// The mesh's properties.
pub fn morphit_mesh_get_info<T: Copy>(m: &MeshFacts<T>) -> (out: morphit_mesh_info<T>)
    ensures
        out == (morphit_mesh_info {
            num_vertices: m.vertices,
            num_faces: m.faces,
            volume: m.volume,
            area: m.area,
            scale: m.scale,
            bounds_min: m.bounds_min,
            bounds_max: m.bounds_max,
            center_mass: m.center_mass,
            inertia: out.inertia,
            winding_flipped: flag(m.winding_flipped),
        }),
        forall|r: int, c: int|
            0 <= r < 3 && 0 <= c < 3 ==> out.inertia@[3 * r + c] == (#[trigger] m.inertia@[c]@[r]),
{
    let i = &m.inertia;
    let inertia = [
        i[0][0],
        i[1][0],
        i[2][0],
        i[0][1],
        i[1][1],
        i[2][1],
        i[0][2],
        i[1][2],
        i[2][2],
    ];
    morphit_mesh_info {
        num_vertices: m.vertices,
        num_faces: m.faces,
        volume: m.volume,
        area: m.area,
        scale: m.scale,
        bounds_min: m.bounds_min,
        bounds_max: m.bounds_max,
        center_mass: m.center_mass,
        inertia,
        winding_flipped: as_flag(m.winding_flipped),
    }
}

/// The triples, one after the other.
pub open spec fn flat<T>(v: Seq<[T; 3]>) -> Seq<T> {
    Seq::new(3 * v.len(), |i: int| v[i / 3]@[i % 3])
}

/// The triples, one after the other.
pub fn flatten<T: Copy>(v: &[[T; 3]]) -> (out: Vec<T>)
    ensures
        out@ == flat(v@),
{
    let mut out: Vec<T> = Vec::new();
    let mut i: usize = 0;
    assert(out@ =~= flat(v@.take(0)));
    while i < v.len()
        invariant
            i <= v@.len(),
            out@ == flat(v@.take(i as int)),
        decreases v@.len() - i,
    {
        let ghost seen = out@;
        let row = v[i];
        out.push(row[0]);
        out.push(row[1]);
        out.push(row[2]);
        proof {
            let next = v@.take(i + 1);
            assert(out@.len() == flat(next).len());
            assert forall|k: int| 0 <= k < out@.len() implies out@[k] == flat(next)[k] by {
                if k < 3 * i {
                    assert(out@[k] == seen[k]);
                    assert(k / 3 < i);
                    assert(next[k / 3] == v@.take(i as int)[k / 3]);
                } else {
                    assert(k / 3 == i);
                    assert(next[k / 3] == row);
                }
            }
            assert(out@ =~= flat(next));
        }
        i = i + 1;
    }
    assert(v@.take(i as int) =~= v@);
    out
}

/// Everything that readers need, copied out of the session after each
/// iteration.
#[derive(Debug)]
pub struct Snapshot<T> {
    pub centers: Vec<T>,
    pub radii: Vec<T>,
    pub masses: Vec<T>,
    pub state: SessionState,
    pub iteration: usize,
    pub total_iterations: usize,
    pub total_loss: T,
    pub last_step: Option<morphit_step_info<T>>,
    pub density_control_passes: usize,
    pub pruned: usize,
    pub seed: u64,
}

/// What a session tells of itself.
#[derive(Clone, Copy, Debug)]
pub struct Progress<T> {
    pub state: SessionState,
    pub iteration: usize,
    pub total_iterations: usize,
    pub last_step: Option<StepInfo<T>>,
    pub density_control_passes: usize,
    pub pruned: usize,
    pub seed: u64,
}

impl<T: Copy> Snapshot<T> {
    /// The snapshot of a session with these spheres; `no_loss` stands for the
    /// loss before the first iteration.
    pub fn of(
        centers: &[[T; 3]],
        radii: Vec<T>,
        masses: Vec<T>,
        p: &Progress<T>,
        no_loss: T,
    ) -> (out: Snapshot<T>)
        ensures
            out.centers@ == flat(centers@),
            out.radii == radii,
            out.masses == masses,
            out.state == p.state,
            out.iteration == p.iteration,
            out.total_iterations == p.total_iterations,
            out.density_control_passes == p.density_control_passes,
            out.pruned == p.pruned,
            out.seed == p.seed,
            match p.last_step {
                Some(s) => {
                    &&& out.total_loss == s.total_loss
                    &&& out.last_step matches Some(i) && i.iteration == s.iteration && i.total_loss
                        == s.total_loss && i.weighted_losses == s.weighted_losses && i.raw_losses
                        == s.raw_losses && i.position_grad_mag == s.position_grad_mag
                        && i.radius_grad_mag == s.radius_grad_mag && i.num_spheres == s.num_spheres
                        && i.projected == s.projected && i.density_control_fired == flag(
                        s.density_control is Some,
                    ) && i.density_control_replaced == (match s.density_control {
                        Some(n) => n,
                        None => 0,
                    }) && i.done == flag(s.done) && i.converged == flag(s.converged) && i.seconds
                        == s.seconds
                },
                None => out.total_loss == no_loss && out.last_step is None,
            },
    {
        let (total_loss, last_step) = match &p.last_step {
            Some(s) => (s.total_loss, Some(morphit_step_info::from_step(s))),
            None => (no_loss, None),
        };
        Snapshot {
            centers: flatten(centers),
            radii,
            masses,
            state: p.state,
            iteration: p.iteration,
            total_iterations: p.total_iterations,
            total_loss,
            last_step,
            density_control_passes: p.density_control_passes,
            pruned: p.pruned,
            seed: p.seed,
        }
    }

    /// Progress and status of the session, where `running` tells whether a run
    /// is active.
    pub fn morphit_state(&self, running: bool) -> (out: morphit_state_info<T>)
        ensures
            out.iteration == self.iteration,
            out.total_iterations == self.total_iterations,
            out.num_spheres == self.radii@.len(),
            out.total_loss == self.total_loss,
            out.running == flag(running),
            out.density_control_passes == self.density_control_passes,
            out.pruned == self.pruned,
            out.seed == self.seed,
            out.state == match self.state {
                SessionState::Running => morphit_session_state::MORPHIT_STATE_RUNNING,
                SessionState::Converged => morphit_session_state::MORPHIT_STATE_CONVERGED,
                SessionState::Completed => morphit_session_state::MORPHIT_STATE_COMPLETED,
                SessionState::Finalized => morphit_session_state::MORPHIT_STATE_FINALIZED,
            },
    {
        morphit_state_info {
            state: morphit_session_state::from_session(self.state),
            iteration: self.iteration as u64,
            total_iterations: self.total_iterations as u64,
            num_spheres: self.radii.len(),
            total_loss: self.total_loss,
            running: as_flag(running),
            density_control_passes: self.density_control_passes as u64,
            pruned: self.pruned,
            seed: self.seed,
        }
    }

    /// The current number of spheres.
    pub fn morphit_sphere_count(&self) -> (n: usize)
        ensures
            n == self.radii@.len(),
    {
        self.radii.len()
    }
}

/// The center of sphere `i` is at `3 i` in the flat list, and nothing else is.
pub proof fn flat_centers_are_the_centers<T>(v: Seq<[T; 3]>, i: int)
    requires
        0 <= i < v.len(),
    ensures
        flat(v).len() == 3 * v.len(),
        flat(v)[3 * i] == v[i]@[0],
        flat(v)[3 * i + 1] == v[i]@[1],
        flat(v)[3 * i + 2] == v[i]@[2],
{
}

/// A flag is one where it is set and zero where it is not.
pub proof fn flags_are_one_or_zero(b: bool)
    ensures
        flag(b) == 1 <==> b,
        flag(b) == 0 <==> !b,
{
}

} // verus!
