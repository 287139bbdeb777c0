//! What a refinement of the model may change and what it leaves alone.

use crate::absolute_pose::holds_id;
use crate::ascending::{ascending, insert_ascending, lists};
use crate::camera_selection::{bogus_cameras, bogus_registered_camera_indices};
use crate::config::{is_spelling, spells, MapperConfig};
use crate::generalized_frame::{
    frame_sensor, frame_sensor_id_for_image, sensor_from_rig, sensor_pose,
};
use crate::indices::{count_where, indices_where, lemma_count_positive};
use crate::registration_stats::{in_existing_unit, lookup, RegistrationStats, StatsView};
use crate::registration_units::{expand_images_to_registration_frames, expanded};
use crate::scalar::{Real32, Real64};
use crate::sorting::{ranks_all, sort_distinct, strictly_sorted, Ranked};
use crate::text::{lemma_trimmed_twice, trim, trimmed};
use crate::types::{
    CameraModel, Point3DView, Pose, Reconstruction, ReconstructionView, Rig, Rigid3, SensorId,
    SensorType,
};
use vstd::prelude::*;

verus! {

impl Ranked for u32 {
    open spec fn before(self, other: u32) -> bool {
        self < other
    }

    proof fn asymmetric(a: u32, b: u32) {
    }

    proof fn negatively_transitive(a: u32, b: u32, c: u32) {
    }

    fn precedes(&self, other: &u32) -> (b: bool) {
        *self < *other
    }
}

/// Types of sensors in order.
pub open spec fn type_rank(t: SensorType) -> (int, int) {
    match t {
        SensorType::Invalid => (0, 0),
        SensorType::Camera => (1, 0),
        SensorType::Imu => (2, 0),
        SensorType::Other(value) => (3, value as int),
    }
}

fn rank_of_type(t: SensorType) -> (rank: (i64, i64))
    ensures
        (rank.0 as int, rank.1 as int) == type_rank(t),
{
    match t {
        SensorType::Invalid => (0, 0),
        SensorType::Camera => (1, 0),
        SensorType::Imu => (2, 0),
        SensorType::Other(value) => (3, value as i64),
    }
}

impl Ranked for SensorId {
    /// Ascending by type, then by identifier.
    open spec fn before(self, other: SensorId) -> bool {
        let a = type_rank(self.sensor_type);
        let b = type_rank(other.sensor_type);
        if a.0 != b.0 {
            a.0 < b.0
        } else if a.1 != b.1 {
            a.1 < b.1
        } else {
            self.sensor_id < other.sensor_id
        }
    }

    proof fn asymmetric(a: SensorId, b: SensorId) {
    }

    proof fn negatively_transitive(a: SensorId, b: SensorId, c: SensorId) {
    }

    fn precedes(&self, other: &SensorId) -> (b: bool) {
        let a: (i64, i64) = rank_of_type(self.sensor_type);
        let b: (i64, i64) = rank_of_type(other.sensor_type);
        if a.0 != b.0 {
            a.0 < b.0
        } else if a.1 != b.1 {
            a.1 < b.1
        } else {
            self.sensor_id < other.sensor_id
        }
    }
}

/// Selects the cameras with identifiers from a list.
pub open spec fn has_listed_id(camera_ids: Seq<u32>, ids: Seq<u32>) -> spec_fn(int) -> bool {
    |i: int| ids.contains(camera_ids[i])
}

/// The cameras that the configuration keeps constant.
pub fn ba_constant_camera_indices(config: &MapperConfig, reconstruction: &Reconstruction) -> (cameras:
    Vec<usize>)
    ensures
        cameras@ == indices_where(
            reconstruction@.camera_ids.len(),
            has_listed_id(reconstruction@.camera_ids, config.ba_constant_camera_ids@),
        ),
{
    let mut cameras: Vec<usize> = Vec::new();
    for i in 0..reconstruction.camera_ids.len()
        invariant
            cameras@ == indices_where(
                i as nat,
                has_listed_id(reconstruction@.camera_ids, config.ba_constant_camera_ids@),
            ),
    {
        if holds_id(&config.ba_constant_camera_ids, reconstruction.camera_ids[i]) {
            cameras.push(i);
        }
    }
    cameras
}

pub open spec fn has_rig(rigs: Seq<Rig>, rig_id: u32) -> bool {
    exists|k: int| 0 <= k < rigs.len() && (#[trigger] rigs[k]).rig_id == rig_id
}

fn rig_exists(rigs: &Vec<Rig>, rig_id: u32) -> (b: bool)
    ensures
        b == has_rig(rigs@, rig_id),
{
    for k in 0..rigs.len()
        invariant
            forall|j: int| 0 <= j < k ==> (#[trigger] rigs@[j]).rig_id != rig_id,
    {
        if rigs[k].rig_id == rig_id {
            assert(rigs@[k as int].rig_id == rig_id);
            return true;
        }
    }
    false
}

/// The existing rigs that the configuration keeps constant, in order.
pub fn ba_constant_rig_ids(config: &MapperConfig, reconstruction: &Reconstruction) -> (rig_ids: Vec<
    u32,
>)
    ensures
        strictly_sorted(rig_ids@),
        forall|id: u32| #[trigger]
            rig_ids@.contains(id) <==> config.ba_constant_rig_ids@.contains(id) && has_rig(
                reconstruction@.rigs,
                id,
            ),
{
    let ghost wanted = config.ba_constant_rig_ids@;
    let mut available: Vec<u32> = Vec::new();
    for k in 0..config.ba_constant_rig_ids.len()
        invariant
            wanted == config.ba_constant_rig_ids@,
            forall|id: u32| #[trigger]
                available@.contains(id) <==> wanted.take(k as int).contains(id) && has_rig(
                    reconstruction@.rigs,
                    id,
                ),
    {
        let ghost before = available@;
        let id: u32 = config.ba_constant_rig_ids[k];
        let exists_rig: bool = rig_exists(&reconstruction.rigs, id);
        if exists_rig {
            available.push(id);
        }
        proof {
            let a = wanted.take(k as int);
            let b = wanted.take(k + 1);
            assert(b =~= a.push(id));
            lemma_pushed_contains(a, id);
            lemma_pushed_contains(before, id);
        }
    }
    assert(wanted.take(wanted.len() as int) =~= wanted);
    assert(ranks_all::<u32>());
    sort_distinct(available)
}

proof fn lemma_pushed_contains<T>(s: Seq<T>, x: T)
    ensures
        forall|y: T| #[trigger] s.push(x).contains(y) <==> s.contains(y) || y == x,
{
    assert forall|y: T| #[trigger] s.push(x).contains(y) <==> s.contains(y) || y == x by {
        if s.contains(y) {
            let j = choose|j: int| 0 <= j < s.len() && s[j] == y;
            assert(s.push(x)[j] == y);
        }
        assert(s.push(x)[s.len() as int] == x);
        if s.push(x).contains(y) && y != x {
            let j = choose|j: int| 0 <= j < s.push(x).len() && s.push(x)[j] == y;
            assert(s[j] == y);
        }
    }
}

/// Whether a rig lists a sensor that is not its reference.
pub open spec fn moves_with(rig: Rig, sensor: SensorId) -> bool {
    rig.ref_sensor_id != Some(sensor) && exists|j: int|
        0 <= j < rig.sensors@.len() && (#[trigger] rig.sensors@[j]).sensor_id == sensor
}

/// Whether one of the first `k` rigs has an identifier from a list and lists a
/// sensor that is not its reference.
pub open spec fn sensor_of_listed(
    rigs: Seq<Rig>,
    k: int,
    rig_ids: Seq<u32>,
    sensor: SensorId,
) -> bool {
    exists|i: int|
        0 <= i < k && rig_ids.contains((#[trigger] rigs[i]).rig_id) && moves_with(rigs[i], sensor)
}

/// The sensors of some rigs that are not their references, in order.
pub fn constant_sensor_from_rig_ids_for_rigs(
    reconstruction: &Reconstruction,
    rig_ids: &Vec<u32>,
) -> (sensors: Vec<SensorId>)
    ensures
        strictly_sorted(sensors@),
        forall|s: SensorId| #[trigger]
            sensors@.contains(s) <==> sensor_of_listed(
                reconstruction@.rigs,
                reconstruction@.rigs.len() as int,
                rig_ids@,
                s,
            ),
{
    let rigs = &reconstruction.rigs;
    let mut found: Vec<SensorId> = Vec::new();
    for i in 0..rigs.len()
        invariant
            forall|s: SensorId| #[trigger]
                found@.contains(s) <==> sensor_of_listed(rigs@, i as int, rig_ids@, s),
    {
        let ghost start = found@;
        let listed: bool = holds_id(rig_ids, rigs[i].rig_id);
        let sensors = &rigs[i].sensors;
        let reference: Option<SensorId> = rigs[i].ref_sensor_id;
        if listed {
            for j in 0..sensors.len()
                invariant
                    i < rigs@.len(),
                    sensors@ == rigs@[i as int].sensors@,
                    reference == rigs@[i as int].ref_sensor_id,
                    forall|s: SensorId| #[trigger]
                        found@.contains(s) <==> start.contains(s) || (reference != Some(s)
                            && exists|m: int|
                            0 <= m < j && (#[trigger] sensors@[m]).sensor_id == s),
            {
                let ghost before = found@;
                let id: SensorId = sensors[j].sensor_id;
                let is_reference: bool = match reference {
                    Some(r) => r == id,
                    None => false,
                };
                if !is_reference {
                    found.push(id);
                }
                proof {
                    lemma_pushed_contains(before, id);
                    assert forall|s: SensorId| #[trigger] found@.contains(s) <==> start.contains(s)
                        || (reference != Some(s) && exists|m: int|
                        0 <= m < j + 1 && (#[trigger] sensors@[m]).sensor_id == s) by {
                        assert(before.contains(s) <==> start.contains(s) || (reference != Some(s)
                            && exists|m: int|
                            0 <= m < j && (#[trigger] sensors@[m]).sensor_id == s));
                        if exists|m: int| 0 <= m < j && (#[trigger] sensors@[m]).sensor_id == s {
                            let m = choose|m: int|
                                0 <= m < j && (#[trigger] sensors@[m]).sensor_id == s;
                            assert(0 <= m < j + 1 && sensors@[m].sensor_id == s);
                        }
                        if s == id {
                            assert(sensors@[j as int].sensor_id == s);
                        }
                    }
                }
            }
        }
        proof {
            assert forall|s: SensorId| #[trigger] found@.contains(s) <==> sensor_of_listed(
                rigs@,
                i + 1,
                rig_ids@,
                s,
            ) by {
                assert(start.contains(s) <==> sensor_of_listed(rigs@, i as int, rig_ids@, s));
                if sensor_of_listed(rigs@, i as int, rig_ids@, s) {
                    let k = choose|k: int|
                        0 <= k < i && rig_ids@.contains((#[trigger] rigs@[k]).rig_id)
                            && moves_with(rigs@[k], s);
                    assert(0 <= k < i + 1 && rig_ids@.contains(rigs@[k].rig_id));
                }
                if listed && moves_with(rigs@[i as int], s) {
                    assert(rig_ids@.contains(rigs@[i as int].rig_id));
                }
            }
        }
    }
    assert(ranks_all::<SensorId>()) by {
        assert forall|a: SensorId, b: SensorId|
            !(#[trigger] a.before(b)) && !b.before(a) implies a == b by {
            assert(type_rank(a.sensor_type) == type_rank(b.sensor_type));
            assert(a.sensor_type == b.sensor_type);
        }
    }
    sort_distinct(found)
}

/// Whether a frame has an image in a list.
pub open spec fn frame_touched(r: ReconstructionView, images: Seq<usize>, frame: int) -> bool {
    exists|k: int|
        0 <= k < images.len() && r.frame_of((#[trigger] images[k]) as int) == Some(frame as usize)
}

/// Selects the frames of a rig that have an image in a list.
pub open spec fn local_frames_of(
    r: ReconstructionView,
    images: Seq<usize>,
    rig_id: u32,
) -> spec_fn(int) -> bool {
    |f: int| r.frames[f].rig_id == rig_id && frame_touched(r, images, f)
}

/// Whether a rig has frames among some images, but others elsewhere.
pub open spec fn rig_is_partial(
    r: ReconstructionView,
    stats: StatsView,
    images: Seq<usize>,
    rig_id: u32,
) -> bool {
    let local = count_where(r.frames.len(), local_frames_of(r, images, rig_id));
    0 < local < lookup(stats.frames_per_rig, rig_id)
}

fn touched_frames(reconstruction: &Reconstruction, images: &Vec<usize>) -> (touched: Vec<bool>)
    ensures
        touched@.len() == reconstruction@.frames.len(),
        forall|f: int|
            0 <= f < touched@.len() ==> #[trigger] touched@[f] == frame_touched(
                reconstruction@,
                images@,
                f,
            ),
{
    let ghost r = reconstruction@;
    let n: usize = reconstruction.frames.len();
    let mut touched: Vec<bool> = Vec::new();
    for f in 0..n
        invariant
            touched@.len() == f,
            forall|g: int| 0 <= g < f ==> !(#[trigger] touched@[g]),
    {
        touched.push(false);
    }
    for k in 0..images.len()
        invariant
            r == reconstruction@,
            n == r.frames.len(),
            touched@.len() == n,
            forall|f: int|
                0 <= f < n ==> (#[trigger] touched@[f] <==> exists|j: int|
                    0 <= j < k && r.frame_of((#[trigger] images@[j]) as int) == Some(f as usize)),
    {
        let ghost before = touched@;
        if let Some(frame) = reconstruction.frame_index_for_image(images[k]) {
            if frame < touched.len() {
                touched[frame] = true;
            }
        }
        proof {
            assert forall|f: int| 0 <= f < n implies (#[trigger] touched@[f] <==> exists|j: int|
                0 <= j < k + 1 && r.frame_of((#[trigger] images@[j]) as int) == Some(
                    f as usize,
                )) by {
                if before[f] {
                    let j = choose|j: int|
                        0 <= j < k && r.frame_of((#[trigger] images@[j]) as int) == Some(
                            f as usize,
                        );
                    assert(0 <= j < k + 1 && r.frame_of(images@[j] as int) == Some(f as usize));
                }
                if r.frame_of(images@[k as int] as int) == Some(f as usize) {
                    assert(touched@[f]);
                }
            }
        }
    }
    proof {
        assert forall|f: int| 0 <= f < n implies #[trigger] touched@[f] == frame_touched(
            r,
            images@,
            f,
        ) by {}
    }
    touched
}

/// The rigs of which only some frames are among a list of images, in order.
pub fn local_ba_partial_rig_ids(
    reconstruction: &Reconstruction,
    registration_stats: &RegistrationStats,
    variable_images: &Vec<usize>,
) -> (rig_ids: Vec<u32>)
    ensures
        strictly_sorted(rig_ids@),
        forall|id: u32| #[trigger]
            rig_ids@.contains(id) <==> rig_is_partial(
                reconstruction@,
                registration_stats@,
                variable_images@,
                id,
            ),
{
    let ghost r = reconstruction@;
    let ghost stats = registration_stats@;
    let touched: Vec<bool> = touched_frames(reconstruction, variable_images);
    let n: usize = reconstruction.frames.len();
    let mut partial: Vec<u32> = Vec::new();
    for f in 0..n
        invariant
            r == reconstruction@,
            stats == registration_stats@,
            n == r.frames.len(),
            n == touched@.len(),
            forall|g: int|
                0 <= g < n ==> #[trigger] touched@[g] == frame_touched(r, variable_images@, g),
            forall|i: int|
                0 <= i < partial@.len() ==> rig_is_partial(
                    r,
                    stats,
                    variable_images@,
                    #[trigger] partial@[i],
                ),
            forall|g: int|
                0 <= g < f && #[trigger] touched@[g] && rig_is_partial(
                    r,
                    stats,
                    variable_images@,
                    r.frames[g].rig_id,
                ) ==> partial@.contains(r.frames[g].rig_id),
    {
        let ghost before = partial@;
        if touched[f] {
            let rig_id: u32 = reconstruction.frames[f].rig_id;
            let ghost q = local_frames_of(r, variable_images@, rig_id);
            let mut local: usize = 0;
            for g in 0..n
                invariant
                    r == reconstruction@,
                    n == r.frames.len(),
                    n == touched@.len(),
                    q == local_frames_of(r, variable_images@, rig_id),
                    forall|g: int|
                        0 <= g < n ==> #[trigger] touched@[g] == frame_touched(
                            r,
                            variable_images@,
                            g,
                        ),
                    local == count_where(g as nat, q),
                    local <= g,
            {
                if touched[g] && reconstruction.frames[g].rig_id == rig_id {
                    local = local + 1;
                }
            }
            proof {
                assert(touched@[f as int]);
                assert(q(f as int));
                lemma_count_positive(n as nat, q);
            }
            if local < registration_stats.registered_frames_with_rig_id(rig_id) {
                partial.push(rig_id);
            }
            proof {
                lemma_pushed_contains(before, rig_id);
            }
        }
    }
    assert(ranks_all::<u32>());
    let list: Vec<u32> = sort_distinct(partial);
    proof {
        assert forall|id: u32| #[trigger] list@.contains(id) <==> rig_is_partial(
            r,
            stats,
            variable_images@,
            id,
        ) by {
            if partial@.contains(id) {
                let i = choose|i: int| 0 <= i < partial@.len() && partial@[i] == id;
                assert(rig_is_partial(r, stats, variable_images@, partial@[i]));
            }
            if rig_is_partial(r, stats, variable_images@, id) {
                let q = local_frames_of(r, variable_images@, id);
                let g = lemma_counted(n as nat, q);
                assert(touched@[g]);
            }
        }
    }
    list
}

/// A positive count comes from a selected index.
proof fn lemma_counted(n: nat, q: spec_fn(int) -> bool) -> (g: int)
    requires
        count_where(n, q) > 0,
    ensures
        0 <= g < n,
        q(g),
    decreases n,
{
    if q(n - 1) {
        n - 1
    } else {
        lemma_counted((n - 1) as nat, q)
    }
}

/// Whether a local refinement holds a rig together: the configuration keeps it
/// constant, or only a part of its frames is refined.
pub open spec fn rig_held(
    r: ReconstructionView,
    stats: StatsView,
    config: MapperConfig,
    images: Seq<usize>,
    i: int,
) -> bool {
    config.ba_constant_rig_ids@.contains(r.rigs[i].rig_id) || rig_is_partial(
        r,
        stats,
        images,
        r.rigs[i].rig_id,
    )
}

/// Whether a local refinement keeps a sensor in place.
pub open spec fn local_constant_sensor(
    r: ReconstructionView,
    stats: StatsView,
    config: MapperConfig,
    images: Seq<usize>,
    s: SensorId,
) -> bool {
    exists|i: int|
        0 <= i < r.rigs.len() && #[trigger] rig_held(r, stats, config, images, i) && moves_with(
            r.rigs[i],
            s,
        )
}

/// The sensors that a local refinement keeps in place, in order.
pub fn local_ba_constant_sensor_from_rig_ids(
    config: &MapperConfig,
    reconstruction: &Reconstruction,
    registration_stats: &RegistrationStats,
    variable_images: &Vec<usize>,
) -> (sensors: Vec<SensorId>)
    ensures
        strictly_sorted(sensors@),
        forall|s: SensorId| #[trigger]
            sensors@.contains(s) <==> local_constant_sensor(
                reconstruction@,
                registration_stats@,
                *config,
                variable_images@,
                s,
            ),
{
    let ghost r = reconstruction@;
    let mut rig_ids: Vec<u32> = local_ba_partial_rig_ids(
        reconstruction,
        registration_stats,
        variable_images,
    );
    let ghost partial = rig_ids@;
    for k in 0..config.ba_constant_rig_ids.len()
        invariant
            rig_ids@ == partial + config.ba_constant_rig_ids@.take(k as int),
    {
        rig_ids.push(config.ba_constant_rig_ids[k]);
        assert(rig_ids@ =~= partial + config.ba_constant_rig_ids@.take(k + 1));
    }
    proof {
        let fixed = config.ba_constant_rig_ids@;
        assert(rig_ids@ =~= partial + fixed);
        assert forall|id: u32| #[trigger] rig_ids@.contains(id) <==> partial.contains(id)
            || fixed.contains(id) by {
            if partial.contains(id) {
                let j = choose|j: int| 0 <= j < partial.len() && partial[j] == id;
                assert(rig_ids@[j] == id);
            }
            if fixed.contains(id) {
                let j = choose|j: int| 0 <= j < fixed.len() && fixed[j] == id;
                assert(rig_ids@[partial.len() + j] == id);
            }
        }
    }
    let sensors: Vec<SensorId> = constant_sensor_from_rig_ids_for_rigs(reconstruction, &rig_ids);
    proof {
        let rigs = r.rigs;
        let stats = registration_stats@;
        let images = variable_images@;
        assert forall|s: SensorId| #[trigger] sensors@.contains(s) <==> local_constant_sensor(
            r,
            stats,
            *config,
            images,
            s,
        ) by {
            if sensors@.contains(s) {
                let i = choose|i: int|
                    0 <= i < rigs.len() && rig_ids@.contains((#[trigger] rigs[i]).rig_id)
                        && moves_with(rigs[i], s);
                assert(partial.contains(rigs[i].rig_id) <==> rig_is_partial(
                    r,
                    stats,
                    images,
                    rigs[i].rig_id,
                ));
                assert(rig_held(r, stats, *config, images, i));
            }
            if local_constant_sensor(r, stats, *config, images, s) {
                let i = choose|i: int|
                    0 <= i < rigs.len() && #[trigger] rig_held(r, stats, *config, images, i)
                        && moves_with(rigs[i], s);
                assert(partial.contains(rigs[i].rig_id) <==> rig_is_partial(
                    r,
                    stats,
                    images,
                    rigs[i].rig_id,
                ));
                assert(rig_ids@.contains(rigs[i].rig_id));
                assert(sensor_of_listed(rigs, rigs.len() as int, rig_ids@, s));
            }
        }
    }
    sensors
}

/// Selects the images of a list that use a camera.
pub open spec fn uses_camera(
    r: ReconstructionView,
    images: Seq<usize>,
    camera: usize,
) -> spec_fn(int) -> bool {
    |k: int|
        images[k] < r.image_camera_indices.len() && r.image_camera_indices[images[k] as int]
            == camera
}

/// Whether some images use a camera, but others elsewhere do too.
pub open spec fn camera_is_partial(
    r: ReconstructionView,
    stats: StatsView,
    images: Seq<usize>,
    camera: usize,
) -> bool {
    let local = count_where(images.len(), uses_camera(r, images, camera));
    let id = if camera < r.camera_ids.len() {
        r.camera_ids[camera as int]
    } else {
        1
    };
    0 < local < lookup(stats.images_per_camera, id)
}

/// The cameras that a local refinement keeps constant: those that the
/// configuration does, and those that images outside of it use too.
pub open spec fn local_constant_cameras(
    r: ReconstructionView,
    stats: StatsView,
    config: MapperConfig,
    images: Seq<usize>,
) -> Set<usize> {
    Set::new(
        |c: usize|
            (c < r.camera_ids.len() && config.ba_constant_camera_ids@.contains(
                r.camera_ids[c as int],
            )) || camera_is_partial(r, stats, images, c),
    )
}

pub fn local_ba_constant_camera_indices(
    config: &MapperConfig,
    reconstruction: &Reconstruction,
    registration_stats: &RegistrationStats,
    variable_images: &Vec<usize>,
) -> (cameras: Vec<usize>)
    ensures
        lists(
            cameras@,
            local_constant_cameras(
                reconstruction@,
                registration_stats@,
                *config,
                variable_images@,
            ),
        ),
{
    let ghost r = reconstruction@;
    let ghost stats = registration_stats@;
    let ghost images = variable_images@;
    let ghost fixed = has_listed_id(r.camera_ids, config.ba_constant_camera_ids@);
    let known: usize = reconstruction.camera_ids.len();
    let mut cameras: Vec<usize> = ba_constant_camera_indices(config, reconstruction);
    let n: usize = variable_images.len();
    proof {
        crate::indices::lemma_indices_where(r.camera_ids.len(), fixed);
        assert forall|c: usize| #[trigger] cameras@.contains(c) <==> c < known && fixed(
            c as int,
        ) by {
            if c < known && fixed(c as int) {
                assert(cameras@.contains(c as int as usize));
            }
        }
    }
    for k in 0..n
        invariant
            r == reconstruction@,
            stats == registration_stats@,
            images == variable_images@,
            n == images.len(),
            known == r.camera_ids.len(),
            fixed == has_listed_id(r.camera_ids, config.ba_constant_camera_ids@),
            ascending(cameras@),
            forall|c: usize| #[trigger]
                cameras@.contains(c) ==> (c < known && fixed(c as int)) || camera_is_partial(
                    r,
                    stats,
                    images,
                    c,
                ),
            forall|c: usize| c < known && fixed(c as int) ==> #[trigger] cameras@.contains(c),
            forall|j: int|
                0 <= j < k && images[j] < r.image_camera_indices.len() && camera_is_partial(
                    r,
                    stats,
                    images,
                    r.image_camera_indices[(#[trigger] images[j]) as int],
                ) ==> cameras@.contains(r.image_camera_indices[images[j] as int]),
    {
        let image: usize = variable_images[k];
        if image < reconstruction.image_camera_indices.len() {
            let camera: usize = reconstruction.image_camera_indices[image];
            let ghost q = uses_camera(r, images, camera);
            let mut local: usize = 0;
            for j in 0..n
                invariant
                    r == reconstruction@,
                    images == variable_images@,
                    n == images.len(),
                    q == uses_camera(r, images, camera),
                    local == count_where(j as nat, q),
                    local <= j,
            {
                let other: usize = variable_images[j];
                if other < reconstruction.image_camera_indices.len()
                    && reconstruction.image_camera_indices[other] == camera {
                    local = local + 1;
                }
            }
            let id: u32 = if camera < reconstruction.camera_ids.len() {
                reconstruction.camera_ids[camera]
            } else {
                1
            };
            proof {
                assert(q(k as int));
                lemma_count_positive(n as nat, q);
            }
            if local < registration_stats.registered_images_with_camera_id(id) {
                assert(camera_is_partial(r, stats, images, camera));
                insert_ascending(&mut cameras, camera);
            } else {
                assert(!camera_is_partial(r, stats, images, camera));
            }
        }
    }
    proof {
        let set = local_constant_cameras(r, stats, *config, images);
        assert forall|c: usize| #[trigger] cameras@.contains(c) <==> set.contains(c) by {
            if camera_is_partial(r, stats, images, c) {
                let j = lemma_counted(n as nat, uses_camera(r, images, c));
                assert(cameras@.contains(r.image_camera_indices[images[j] as int]));
            }
            if c < known && fixed(c as int) {
                assert(cameras@.contains(c));
            }
        }
    }
    cameras
}

/// What fixes a refinement in space.
#[derive(Debug, Clone, Copy, PartialEq, Eq, Structural)]
pub enum BundleGauge {
    Default,
    TwoCamsFromWorld,
    ThreePoints,
}

/// How strongly a refinement counts large errors, with the scale of the loss.
#[derive(Clone, Copy, Debug, PartialEq, Eq, Structural)]
pub enum BundleLoss {
    Trivial,
    Huber(Real64),
    SoftL1(Real64),
    Cauchy(Real64),
}

/// The bits of one, the scale of a loss unless another one is asked for.
pub const DEFAULT_LOSS_SCALE: u64 = 0x3ff0_0000_0000_0000;

/// The bits of four, the scale of the Huber loss unless another one is asked for.
pub const DEFAULT_HUBER_SCALE: u64 = 0x4010_0000_0000_0000;

/// A scale asked for, where it is finite and above zero, and another one elsewhere.
pub open spec fn scale_or(scale: Option<Real64>, otherwise: Real64) -> Real64 {
    match scale {
        Some(scale) => if scale.positive() {
            scale
        } else {
            otherwise
        },
        None => otherwise,
    }
}

fn choose_scale(scale: Option<Real64>, otherwise: Real64) -> (chosen: Real64)
    ensures
        chosen == scale_or(scale, otherwise),
{
    match scale {
        Some(scale) => if scale.is_positive() {
            scale
        } else {
            otherwise
        },
        None => otherwise,
    }
}

/// The loss that a name stands for, whatever white space is around it. Any other
/// name, and none, is the Cauchy loss.
pub open spec fn loss_named(
    name: Option<Seq<char>>,
    scale: Option<Real64>,
    huber_scale: Option<Real64>,
) -> BundleLoss {
    let usual = scale_or(scale, Real64 { bits: DEFAULT_LOSS_SCALE });
    match name {
        Some(name) => if spells(trimmed(name), "trivial"@) {
            BundleLoss::Trivial
        } else if spells(trimmed(name), "huber"@) {
            BundleLoss::Huber(
                scale_or(scale, scale_or(huber_scale, Real64 { bits: DEFAULT_HUBER_SCALE })),
            )
        } else if spells(trimmed(name), "softl1"@) || spells(trimmed(name), "soft_l1"@) {
            BundleLoss::SoftL1(usual)
        } else {
            BundleLoss::Cauchy(usual)
        },
        None => BundleLoss::Cauchy(usual),
    }
}

/// The loss of a refinement, from its name up to the case of its letters and
/// the scale asked for. Without a scale the Huber loss takes a scale of its own:
/// the one asked for it, or four.
pub fn mapper_ba_loss_function(
    name: Option<&str>,
    scale: Option<Real64>,
    huber_scale: Option<Real64>,
) -> (loss: BundleLoss)
    ensures
        loss == loss_named(
            match name {
                Some(name) => Some(name@),
                None => None,
            },
            scale,
            huber_scale,
        ),
{
    let usual: Real64 = choose_scale(scale, Real64 { bits: DEFAULT_LOSS_SCALE });
    match name {
        Some(name) => {
            let name = trim(name);
            if is_spelling(name, "trivial") {
                BundleLoss::Trivial
            } else if is_spelling(name, "huber") {
                let wide: Real64 = choose_scale(huber_scale, Real64 { bits: DEFAULT_HUBER_SCALE });
                BundleLoss::Huber(choose_scale(scale, wide))
            } else if is_spelling(name, "softl1") || is_spelling(name, "soft_l1") {
                BundleLoss::SoftL1(usual)
            } else {
                BundleLoss::Cauchy(usual)
            }
        },
        None => BundleLoss::Cauchy(usual),
    }
}

/// The loss does not depend on the white space around its name, and the scale of
/// the Huber loss bears on no other loss.
pub proof fn law_loss_name_is_trimmed(
    name: Seq<char>,
    scale: Option<Real64>,
    first: Option<Real64>,
    second: Option<Real64>,
)
    ensures
        loss_named(Some(name), scale, first) == loss_named(Some(trimmed(name)), scale, first),
        !spells(trimmed(name), "huber"@) ==> loss_named(Some(name), scale, first) == loss_named(
            Some(name),
            scale,
            second,
        ),
{
    lemma_trimmed_twice(name);
}

/// A refinement: what it changes, what it leaves alone, and how it is fixed in
/// space.
#[derive(Debug, Clone)]
pub struct BundlePlan {
    pub iterations: usize,
    pub variable_images: Option<Vec<usize>>,
    pub constant_images: Vec<usize>,
    pub constant_cameras: Vec<usize>,
    pub constant_rigs: Vec<u32>,
    pub constant_sensor_from_rig: Vec<SensorId>,
    pub refine_focal_length: bool,
    pub refine_principal_point: bool,
    pub refine_extra_params: bool,
    pub point_ids: Option<Vec<usize>>,
    pub constant_point_ids: Option<Vec<usize>>,
    pub gauge: BundleGauge,
    pub gradient_tolerance: Real64,
    pub parameter_tolerance: Real64,
    pub max_linear_solver_iterations: usize,
}

/// The bits of one, the gradient at which a refinement of the whole model stops.
pub const GLOBAL_GRADIENT_TOLERANCE: u64 = 0x3ff0000000000000;

/// The bits of ten, the gradient at which a refinement around a new image stops.
pub const LOCAL_GRADIENT_TOLERANCE: u64 = 0x4024000000000000;

pub const MAX_LINEAR_SOLVER_ITERATIONS: usize = 100;

/// How the solver of a refinement stops.
pub open spec fn stops_at(plan: BundlePlan, gradient_tolerance: u64) -> bool {
    &&& plan.gradient_tolerance == (Real64 { bits: gradient_tolerance })
    &&& plan.parameter_tolerance == (Real64 { bits: 0 })
    &&& plan.max_linear_solver_iterations == MAX_LINEAR_SOLVER_ITERATIONS
}

/// What the configuration says of a refinement.
pub open spec fn follows_config(plan: BundlePlan, config: MapperConfig, rigs: Seq<Rig>) -> bool {
    &&& plan.refine_focal_length == config.ba_refine_focal_length
    &&& plan.refine_principal_point == config.ba_refine_principal_point
    &&& plan.refine_extra_params == config.ba_refine_extra_params
    &&& strictly_sorted(plan.constant_rigs@)
    &&& forall|id: u32| #[trigger]
        plan.constant_rigs@.contains(id) <==> config.ba_constant_rig_ids@.contains(id) && has_rig(
            rigs,
            id,
        )
}

/// A refinement of the whole model or a given part of it. Images that are kept
/// constant keep the rest of their frames constant.
pub fn mapper_ba_options(
    config: &MapperConfig,
    reconstruction: &Reconstruction,
    iterations: usize,
    variable_images: Option<Vec<usize>>,
    constant_images: &Vec<usize>,
    point_ids: Option<Vec<usize>>,
    constant_point_ids: Option<Vec<usize>>,
) -> (plan: BundlePlan)
    ensures
        plan.iterations == iterations,
        plan.variable_images == variable_images,
        lists(plan.constant_images@, expanded(reconstruction@, constant_images@)),
        plan.constant_cameras@ == indices_where(
            reconstruction@.camera_ids.len(),
            has_listed_id(reconstruction@.camera_ids, config.ba_constant_camera_ids@),
        ),
        follows_config(plan, *config, reconstruction@.rigs),
        strictly_sorted(plan.constant_sensor_from_rig@),
        forall|s: SensorId| #[trigger]
            plan.constant_sensor_from_rig@.contains(s) <==> sensor_of_listed(
                reconstruction@.rigs,
                reconstruction@.rigs.len() as int,
                plan.constant_rigs@,
                s,
            ),
        plan.point_ids == point_ids,
        plan.constant_point_ids == constant_point_ids,
        plan.gauge == BundleGauge::Default,
        stops_at(plan, GLOBAL_GRADIENT_TOLERANCE),
{
    let constant_rigs: Vec<u32> = ba_constant_rig_ids(config, reconstruction);
    let constant_sensor_from_rig: Vec<SensorId> = constant_sensor_from_rig_ids_for_rigs(
        reconstruction,
        &constant_rigs,
    );
    BundlePlan {
        iterations,
        variable_images,
        constant_images: expand_images_to_registration_frames(reconstruction, constant_images),
        constant_cameras: ba_constant_camera_indices(config, reconstruction),
        constant_rigs,
        constant_sensor_from_rig,
        refine_focal_length: config.ba_refine_focal_length,
        refine_principal_point: config.ba_refine_principal_point,
        refine_extra_params: config.ba_refine_extra_params,
        point_ids,
        constant_point_ids,
        gauge: BundleGauge::Default,
        gradient_tolerance: Real64 { bits: GLOBAL_GRADIENT_TOLERANCE },
        parameter_tolerance: Real64 { bits: 0 },
        max_linear_solver_iterations: MAX_LINEAR_SOLVER_ITERATIONS,
    }
}

/// The images that a local refinement keeps in place: those asked for and, if
/// existing frames are fixed, the ones that were there before, all with the
/// rest of their frames.
pub open spec fn local_constant_images(
    r: ReconstructionView,
    stats: StatsView,
    config: MapperConfig,
    images: Seq<usize>,
) -> Set<usize> {
    Set::new(
        |m: usize|
            expanded(r, images).contains(m) || (config.fix_existing_frames && exists|i: int| #[trigger]
                r.registered(i) && stats.existing.contains(r.unit_key(i as usize)) && r.same_unit(
                    i,
                    m as int,
                )),
    )
}

/// A refinement around a new image.
pub fn mapper_local_ba_options(
    config: &MapperConfig,
    reconstruction: &Reconstruction,
    registration_stats: &RegistrationStats,
    iterations: usize,
    variable_images: &Vec<usize>,
    constant_images: &Vec<usize>,
    point_ids: Option<Vec<usize>>,
    constant_point_ids: Option<Vec<usize>>,
) -> (plan: BundlePlan)
    ensures
        plan.iterations == iterations,
        plan.variable_images is Some,
        lists(
            plan.variable_images->0@,
            expanded(reconstruction@, variable_images@),
        ),
        lists(
            plan.constant_images@,
            local_constant_images(
                reconstruction@,
                registration_stats@,
                *config,
                constant_images@,
            ),
        ),
        lists(
            plan.constant_cameras@,
            local_constant_cameras(
                reconstruction@,
                registration_stats@,
                *config,
                plan.variable_images->0@,
            ),
        ),
        follows_config(plan, *config, reconstruction@.rigs),
        strictly_sorted(plan.constant_sensor_from_rig@),
        forall|s: SensorId| #[trigger]
            plan.constant_sensor_from_rig@.contains(s) <==> local_constant_sensor(
                reconstruction@,
                registration_stats@,
                *config,
                plan.variable_images->0@,
                s,
            ),
        plan.point_ids == point_ids,
        plan.constant_point_ids == constant_point_ids,
        plan.gauge == BundleGauge::ThreePoints,
        stops_at(plan, LOCAL_GRADIENT_TOLERANCE),
{
    let ghost r = reconstruction@;
    let variable: Vec<usize> = expand_images_to_registration_frames(
        reconstruction,
        variable_images,
    );
    let mut fixed: Vec<usize> = expand_images_to_registration_frames(
        reconstruction,
        constant_images,
    );
    let ghost asked = fixed@;
    let ghost q = in_existing_unit(r, registration_stats@.existing);
    let ghost mut old_ones: Seq<usize> = Seq::empty();
    if config.fix_existing_frames {
        let existing: Vec<usize> = registration_stats.existing_registered_images(reconstruction);
        proof {
            old_ones = existing@;
        }
        for k in 0..existing.len()
            invariant
                fixed@ == asked + existing@.take(k as int),
        {
            fixed.push(existing[k]);
            assert(fixed@ =~= asked + existing@.take(k + 1));
        }
        assert(fixed@ =~= asked + old_ones);
    }
    let num_poses: usize = reconstruction.poses.len();
    let constant: Vec<usize> = expand_images_to_registration_frames(reconstruction, &fixed);
    proof {
        assert(fixed@ =~= asked + old_ones);
        crate::indices::lemma_indices_where(r.poses.len(), q);
        let set = local_constant_images(r, registration_stats@, *config, constant_images@);
        assert forall|m: usize| #[trigger] constant@.contains(m) <==> set.contains(m) by {
            if constant@.contains(m) {
                assert(expanded(r, fixed@).contains(m));
                let k = choose|k: int|
                    0 <= k < fixed@.len() && r.same_unit(#[trigger] fixed@[k] as int, m as int);
                if k < asked.len() {
                    assert(asked.contains(asked[k]));
                    assert(expanded(r, constant_images@).contains(asked[k]));
                    let j = choose|j: int|
                        0 <= j < constant_images@.len() && r.same_unit(
                            #[trigger] constant_images@[j] as int,
                            asked[k] as int,
                        );
                    assert(r.same_unit(constant_images@[j] as int, m as int));
                } else {
                    let x = old_ones[k - asked.len()];
                    assert(old_ones.contains(x));
                    assert(q(x as int));
                    assert(r.registered(x as int));
                }
            }
            if expanded(r, constant_images@).contains(m) {
                assert(asked.contains(m));
                let k = choose|k: int| 0 <= k < asked.len() && asked[k] == m;
                assert(fixed@[k] == m);
                assert(r.same_unit(fixed@[k] as int, m as int));
                assert(expanded(r, fixed@).contains(m));
            }
            if config.fix_existing_frames && exists|i: int| #[trigger]
                r.registered(i) && registration_stats@.existing.contains(r.unit_key(i as usize))
                    && r.same_unit(i, m as int) {
                let i = choose|i: int| #[trigger]
                    r.registered(i) && registration_stats@.existing.contains(
                        r.unit_key(i as usize),
                    ) && r.same_unit(i, m as int);
                assert(num_poses == r.poses.len());
                assert(q(i));
                assert(old_ones.contains(i as usize));
                let k = choose|k: int| 0 <= k < old_ones.len() && old_ones[k] == i as usize;
                assert(fixed@[asked.len() + k] == i as usize);
                assert(r.same_unit(fixed@[asked.len() + k] as int, m as int));
                assert(expanded(r, fixed@).contains(m));
            }
        }
    }
    let constant_cameras: Vec<usize> = local_ba_constant_camera_indices(
        config,
        reconstruction,
        registration_stats,
        &variable,
    );
    let constant_sensor_from_rig: Vec<SensorId> = local_ba_constant_sensor_from_rig_ids(
        config,
        reconstruction,
        registration_stats,
        &variable,
    );
    BundlePlan {
        iterations,
        variable_images: Some(variable),
        constant_images: constant,
        constant_cameras,
        constant_rigs: ba_constant_rig_ids(config, reconstruction),
        constant_sensor_from_rig,
        refine_focal_length: config.ba_refine_focal_length,
        refine_principal_point: config.ba_refine_principal_point,
        refine_extra_params: config.ba_refine_extra_params,
        point_ids,
        constant_point_ids,
        gauge: BundleGauge::ThreePoints,
        gradient_tolerance: Real64 { bits: LOCAL_GRADIENT_TOLERANCE },
        parameter_tolerance: Real64 { bits: 0 },
        max_linear_solver_iterations: MAX_LINEAR_SOLVER_ITERATIONS,
    }
}

/// The part of a model that a refinement changes.
#[derive(Debug)]
pub struct BundleState {
    pub camera: CameraModel,
    pub cameras: Vec<CameraModel>,
    pub poses: Vec<Option<Pose>>,
    pub points: Vec<[Real32; 3]>,
}

pub open spec fn positions(points: Seq<Point3DView>) -> Seq<[Real32; 3]> {
    Seq::new(points.len(), |i: int| points[i].xyz)
}

/// Whether a state is that of a model.
pub open spec fn captures(state: BundleState, r: ReconstructionView) -> bool {
    &&& state.camera == r.camera
    &&& state.cameras@ == r.cameras
    &&& state.poses@ == r.poses
    &&& state.points@ == positions(r.points)
}

/// Keeps what a refinement may change. A model with implausible cameras is not
/// refined.
pub fn capture_bundle_state(reconstruction: &Reconstruction) -> (state: Option<BundleState>)
    ensures
        state is Some <==> bogus_cameras(reconstruction@).is_empty(),
        state matches Some(s) ==> captures(s, reconstruction@),
{
    let bogus: Vec<usize> = bogus_registered_camera_indices(reconstruction);
    if bogus.len() > 0 {
        assert(bogus@.contains(bogus@[0]));
        return None;
    }
    proof {
        assert forall|c: usize| !bogus_cameras(reconstruction@).contains(c) by {
            assert(!bogus@.contains(c));
        }
        assert(bogus_cameras(reconstruction@) =~= Set::empty());
    }
    let mut cameras: Vec<CameraModel> = Vec::new();
    for i in 0..reconstruction.cameras.len()
        invariant
            cameras@ == reconstruction@.cameras.take(i as int),
    {
        cameras.push(reconstruction.cameras[i]);
        assert(cameras@ =~= reconstruction@.cameras.take(i + 1));
    }
    assert(cameras@ =~= reconstruction@.cameras);
    let mut poses: Vec<Option<Pose>> = Vec::new();
    for i in 0..reconstruction.poses.len()
        invariant
            poses@ == reconstruction@.poses.take(i as int),
    {
        poses.push(reconstruction.poses[i]);
        assert(poses@ =~= reconstruction@.poses.take(i + 1));
    }
    assert(poses@ =~= reconstruction@.poses);
    let mut points: Vec<[Real32; 3]> = Vec::new();
    for i in 0..reconstruction.points.len()
        invariant
            points@ == positions(reconstruction@.points).take(i as int),
    {
        assert(reconstruction@.points[i as int] == reconstruction.points@[i as int]@);
        points.push(reconstruction.points[i].xyz);
        assert(points@ =~= positions(reconstruction@.points).take(i + 1));
    }
    assert(points@ =~= positions(reconstruction@.points));
    Some(BundleState { camera: reconstruction.camera, cameras, poses, points })
}

/// A model with a state put back.
pub open spec fn restored(r: ReconstructionView, state: BundleState) -> ReconstructionView {
    ReconstructionView {
        camera: state.camera,
        cameras: state.cameras@,
        poses: state.poses@,
        points: Seq::new(
            r.points.len(),
            |i: int|
                if i < state.points@.len() {
                    Point3DView { xyz: state.points@[i], ..r.points[i] }
                } else {
                    r.points[i]
                },
        ),
        ..r
    }
}

/// Puts a state back.
pub fn restore_ba_state(reconstruction: &mut Reconstruction, state: BundleState)
    requires
        state.cameras@.len() == old(reconstruction)@.cameras.len(),
        state.poses@.len() == old(reconstruction)@.poses.len(),
    ensures
        final(reconstruction)@ == restored(old(reconstruction)@, state),
{
    let ghost r = reconstruction@;
    let ghost goal = restored(r, state);
    reconstruction.camera = state.camera;
    let n: usize = if state.points.len() <= reconstruction.points.len() {
        state.points.len()
    } else {
        reconstruction.points.len()
    };
    for i in 0..n
        invariant
            goal == restored(r, state),
            n <= state.points@.len(),
            n <= r.points.len(),
            reconstruction@.points.len() == r.points.len(),
            reconstruction@ == (ReconstructionView {
                camera: state.camera,
                points: reconstruction@.points,
                ..r
            }),
            forall|j: int| 0 <= j < i ==> #[trigger] reconstruction@.points[j] == goal.points[j],
            forall|j: int|
                i <= j < r.points.len() ==> #[trigger] reconstruction@.points[j] == r.points[j],
    {
        let ghost before = reconstruction.points@;
        let ghost view = reconstruction@.points;
        reconstruction.points[i].xyz = state.points[i];
        proof {
            assert forall|j: int| 0 <= j < r.points.len() implies #[trigger] reconstruction@.points[j]
                == (if j == i {
                goal.points[j]
            } else {
                view[j]
            }) by {
                assert(view[j] == before[j]@);
                if j != i {
                    assert(reconstruction.points@[j] == before[j]);
                } else {
                    assert(reconstruction.points@[j]@ =~= goal.points[j]);
                }
            }
        }
    }
    reconstruction.cameras = state.cameras;
    reconstruction.poses = state.poses;
    assert(reconstruction@.points =~= goal.points);
}

/// Putting a state back undoes whatever a refinement did to it.
pub proof fn law_restore_undoes(
    r: ReconstructionView,
    changed: ReconstructionView,
    state: BundleState,
)
    requires
        captures(state, r),
        changed.points.len() == r.points.len(),
        changed == (ReconstructionView {
            camera: changed.camera,
            cameras: changed.cameras,
            poses: changed.poses,
            points: changed.points,
            ..r
        }),
        forall|i: int|
            0 <= i < r.points.len() ==> (#[trigger] changed.points[i]) == (Point3DView {
                xyz: changed.points[i].xyz,
                ..r.points[i]
            }),
    ensures
        restored(changed, state) == r,
{
    assert(restored(changed, state).points =~= r.points);
}

/// Whether the result of a refinement is kept: it is usable and left no
/// implausible camera.
pub fn bundle_result_kept(reconstruction: &Reconstruction, usable: bool) -> (b: bool)
    ensures
        b <==> usable && bogus_cameras(reconstruction@).is_empty(),
{
    if !usable {
        return false;
    }
    let bogus: Vec<usize> = bogus_registered_camera_indices(reconstruction);
    proof {
        if bogus@.len() > 0 {
            assert(bogus@.contains(bogus@[0]));
        } else {
            assert forall|c: usize| !bogus_cameras(reconstruction@).contains(c) by {
                assert(!bogus@.contains(c));
            }
            assert(bogus_cameras(reconstruction@) =~= Set::empty());
        }
    }
    bogus.len() == 0
}

/// An image that gives its frame a pose.
#[derive(Debug, Clone, Copy)]
pub struct FrameAnchor {
    pub image: usize,
    pub pose: Pose,
    pub sensor_from_rig: Option<Rigid3>,
}

/// The first registered image of a frame, if its sensor is known.
pub fn frame_anchor(reconstruction: &Reconstruction, frame_idx: usize) -> (anchor: Option<
    FrameAnchor,
>)
    ensures
        ({
            let r = reconstruction@;
            let images = r.images_of_frame(frame_idx);
            match anchor {
                Some(a) => frame_idx < r.frames.len() && exists|k: int| {
                    &&& 0 <= k < images.len()
                    &&& #[trigger] images[k] == a.image
                    &&& r.registered(images[k] as int)
                    &&& forall|j: int| 0 <= j < k ==> !r.registered((#[trigger] images[j]) as int)
                    &&& r.poses[images[k] as int] == Some(a.pose)
                    &&& frame_sensor(r, frame_idx, images[k]) is Some
                    &&& a.sensor_from_rig == sensor_pose(
                        r.rigs,
                        r.frames[frame_idx as int].rig_id,
                        frame_sensor(r, frame_idx, images[k])->0,
                        0,
                    )
                },
                None => frame_idx >= r.frames.len() || (forall|j: int|
                    0 <= j < images.len() ==> !r.registered((#[trigger] images[j]) as int)) || (
                exists|k: int| {
                    &&& 0 <= k < images.len()
                    &&& r.registered((#[trigger] images[k]) as int)
                    &&& forall|j: int| 0 <= j < k ==> !r.registered((#[trigger] images[j]) as int)
                    &&& frame_sensor(r, frame_idx, images[k]) is None
                }),
            }
        }),
{
    let ghost r = reconstruction@;
    if frame_idx >= reconstruction.frames.len() {
        return None;
    }
    let images: Vec<usize> = reconstruction.image_indices_for_frame_index(frame_idx);
    for k in 0..images.len()
        invariant
            r == reconstruction@,
            images@ == r.images_of_frame(frame_idx),
            frame_idx < r.frames.len(),
            forall|j: int| 0 <= j < k ==> !r.registered((#[trigger] images@[j]) as int),
    {
        let image: usize = images[k];
        if image < reconstruction.poses.len() {
            if let Some(pose) = reconstruction.poses[image] {
                assert(r.registered(images@[k as int] as int));
                match frame_sensor_id_for_image(reconstruction, frame_idx, image) {
                    Some(sensor) => {
                        let from_rig: Option<Rigid3> = sensor_from_rig(
                            reconstruction,
                            reconstruction.frames[frame_idx].rig_id,
                            sensor,
                        );
                        return Some(FrameAnchor { image, pose, sensor_from_rig: from_rig });
                    },
                    None => {
                        return None;
                    },
                }
            }
        }
    }
    None
}

} // verus!
