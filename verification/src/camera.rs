//! The camera over the canvas: its target, its motion, and what a pointer
//! picks.

use vstd::prelude::*;

use crate::scene::{Camera, Vec2};
use crate::single;

verus! {

/// The smallest zoom, 0.08.
pub const MIN_CAMERA_ZOOM: u32 = 0x3da3_d70a;

/// The largest zoom, 1024.
pub const MAX_CAMERA_ZOOM: u32 = 0x4480_0000;

impl Default for Camera {
    /// The origin at the zoom 1.
    fn default() -> (r: Camera)
        ensures
            r == (Camera { center: Vec2 { x: 0, y: 0 }, zoom: 0x3f80_0000 }),
    {
        Camera { center: Vec2 { x: 0, y: 0 }, zoom: 0x3f80_0000 }
    }
}

/// A zoom held within its limits; not-a-number stays what it is.
pub open spec fn held_zoom(zoom: u32) -> u32 {
    if single::less(zoom, MIN_CAMERA_ZOOM) {
        MIN_CAMERA_ZOOM
    } else if single::less(MAX_CAMERA_ZOOM, zoom) {
        MAX_CAMERA_ZOOM
    } else {
        zoom
    }
}

/// Holds a zoom within its limits.
pub fn hold_zoom(zoom: u32) -> (r: u32)
    ensures
        r == held_zoom(zoom),
{
    if single::is_less(zoom, MIN_CAMERA_ZOOM) {
        MIN_CAMERA_ZOOM
    } else if single::is_less(MAX_CAMERA_ZOOM, zoom) {
        MAX_CAMERA_ZOOM
    } else {
        zoom
    }
}

/// A held zoom is a positive number.
pub proof fn law_held_zoom_is_positive(zoom: u32)
    requires
        !single::nan(zoom),
    ensures
        single::finite(held_zoom(zoom)),
        single::less(0, held_zoom(zoom)),
        !single::less(held_zoom(zoom), MIN_CAMERA_ZOOM),
        !single::less(MAX_CAMERA_ZOOM, held_zoom(zoom)),
{
}

impl Camera {
    /// Whether a camera can be headed for: finite, and with a positive zoom.
    pub open spec fn proper(self) -> bool {
        self.center.finite() && single::finite(self.zoom) && single::less(0, self.zoom)
    }
}

/// The motion of a camera towards its target.
#[derive(Clone, Copy, Debug, PartialEq, Eq, Structural)]
pub struct CameraMotion {
    pub target: Camera,
    pub center_velocity: Vec2,
    pub log_zoom_velocity: u32,
    pub moving: bool,
}

/// A motion at rest.
pub open spec fn at_rest(camera: Camera) -> CameraMotion {
    CameraMotion {
        target: camera,
        center_velocity: Vec2 { x: 0, y: 0 },
        log_zoom_velocity: 0,
        moving: false,
    }
}

impl CameraMotion {
    /// The motion once it heads for another camera.
    pub open spec fn retargeted(self, camera: Camera) -> CameraMotion {
        if camera.proper() {
            CameraMotion { target: camera, moving: true, ..self }
        } else {
            self
        }
    }

    /// The motion and the camera before a step, and whether a step is left to
    /// compute.
    pub open spec fn begun(self, camera: Camera, reduce_motion: bool) -> (
        CameraMotion,
        Camera,
        bool,
    ) {
        if self.moving && reduce_motion {
            (at_rest(self.target), self.target, false)
        } else {
            (self, camera, self.moving)
        }
    }

    /// The motion and the camera after a step, and whether the motion goes on.
    pub open spec fn finished(
        self,
        computed: Camera,
        center_velocity: Vec2,
        log_zoom_velocity: u32,
        settled: bool,
    ) -> (CameraMotion, Camera, bool) {
        if !settled && computed.center.finite() && single::finite(computed.zoom) {
            (CameraMotion { center_velocity, log_zoom_velocity, ..self }, computed, true)
        } else {
            (at_rest(self.target), self.target, false)
        }
    }

    pub fn new(camera: Camera) -> (r: CameraMotion)
        ensures
            r == at_rest(camera),
    {
        CameraMotion {
            target: camera,
            center_velocity: Vec2::zero(),
            log_zoom_velocity: 0,
            moving: false,
        }
    }

    /// Heads for another camera, unless it is not proper; velocities stay.
    pub fn retarget(&mut self, camera: Camera)
        ensures
            *final(self) == old(self).retargeted(camera),
    {
        if !camera.center.is_finite() || !single::is_finite(camera.zoom) || !single::is_less(
            0,
            camera.zoom,
        ) {
            return ;
        }
        self.target = camera;
        self.moving = true;
    }

    /// Stops where the camera is.
    pub fn cancel_at(&mut self, camera: Camera)
        ensures
            *final(self) == at_rest(camera),
    {
        self.target = camera;
        self.center_velocity = Vec2::zero();
        self.log_zoom_velocity = 0;
        self.moving = false;
    }

    pub fn is_moving(&self) -> (r: bool)
        ensures
            r == self.moving,
    {
        self.moving
    }

    /// Starts a step. Without motion to show, the camera is put on its
    /// target; `true` asks for the step to be computed and finished.
    pub fn begin_step(&mut self, camera: &mut Camera, reduce_motion: bool) -> (r: bool)
        ensures
            (*final(self), *final(camera), r) == old(self).begun(*old(camera), reduce_motion),
    {
        if !self.moving {
            return false;
        }
        if reduce_motion {
            let target = self.target;
            *camera = target;
            self.cancel_at(target);
            return false;
        }
        true
    }

    /// Finishes a step with the computed camera and velocities; `settled`
    /// tells that it is near its target and slow. A settled camera, or one
    /// whose values are not finite, is put on its target.
    pub fn finish_step(
        &mut self,
        camera: &mut Camera,
        computed: Camera,
        center_velocity: Vec2,
        log_zoom_velocity: u32,
        settled: bool,
    ) -> (r: bool)
        ensures
            (*final(self), *final(camera), r) == old(self).finished(
                computed,
                center_velocity,
                log_zoom_velocity,
                settled,
            ),
    {
        if !settled && computed.center.is_finite() && single::is_finite(computed.zoom) {
            *camera = computed;
            self.center_velocity = center_velocity;
            self.log_zoom_velocity = log_zoom_velocity;
            true
        } else {
            let target = self.target;
            *camera = target;
            self.cancel_at(target);
            false
        }
    }
}

/// Whether `index` is the first of the nearest candidates.
pub open spec fn nearest(distances: Seq<Option<u32>>, index: int) -> bool {
    &&& 0 <= index < distances.len()
    &&& distances[index] is Some
    &&& forall|i: int|
        0 <= i < distances.len() && (#[trigger] distances[i]) is Some ==> single::total_place(
            distances[index]->0,
        ) <= single::total_place(distances[i]->0) && (i < index ==> single::total_place(
            distances[index]->0,
        ) < single::total_place(distances[i]->0))
}

/// Picks the first of the nearest candidates. A candidate has a distance; an
/// element that is out of reach has none.
pub fn pick_nearest(distances: &Vec<Option<u32>>) -> (r: Option<usize>)
    ensures
        r matches Some(index) ==> nearest(distances@, index as int),
        r is None <==> forall|i: int| 0 <= i < distances@.len() ==> (#[trigger] distances@[i]) is None,
{
    let mut best: Option<usize> = None;
    let mut i: usize = 0;
    while i < distances.len()
        invariant
            i <= distances.len(),
            best matches Some(index) ==> index < i && nearest(
                distances@.take(i as int),
                index as int,
            ),
            best is None <==> forall|k: int| 0 <= k < i ==> (#[trigger] distances@[k]) is None,
        decreases distances.len() - i,
    {
        let ghost before = distances@.take(i as int);
        let ghost after = distances@.take(i + 1);
        assert(forall|k: int| 0 <= k < i ==> before[k] == #[trigger] after[k]);
        if let Some(distance) = distances[i] {
            match best {
                None => {
                    best = Some(i);
                },
                Some(index) => {
                    assert(before[index as int] == distances@[index as int]);
                    let nearer = match distances[index] {
                        Some(known) => single::place_of(distance) < single::place_of(known),
                        None => false,
                    };
                    if nearer {
                        best = Some(i);
                    }
                },
            }
        }
        proof {
            if let Some(index) = best {
                assert forall|k: int|
                    0 <= k < after.len() && (#[trigger] after[k]) is Some implies single::total_place(
                    after[index as int]->0,
                ) <= single::total_place(after[k]->0) && (k < index ==> single::total_place(
                    after[index as int]->0,
                ) < single::total_place(after[k]->0)) by {
                    if k < i {
                        assert(before[k] == after[k]);
                        assert(distances@[k] == after[k]);
                    }
                }
            }
        }
        i = i + 1;
    }
    assert(distances@.take(distances@.len() as int) =~= distances@);
    best
}

} // verus!
