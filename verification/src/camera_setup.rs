//! Cameras, rigs and frames of the images to reconstruct.

use crate::seeding::{seed_reconstruction_from_reference, seeds, ReconstructionSeed};
use crate::text::{decimal, push_decimal};
use crate::types::{CameraModel, Frame, Reconstruction, ReconstructionView, Rig};
use vstd::prelude::*;
use vstd::string::StringExecFns;

verus! {

/// What is known of the images before they are registered.
#[derive(Debug, Clone)]
pub struct ReferenceCameraSetup {
    pub cameras: Vec<CameraModel>,
    pub camera_ids: Vec<u32>,
    pub camera_has_prior_focal_length: Vec<bool>,
    pub rigs: Vec<Rig>,
    pub frames: Vec<Frame>,
    pub image_ids: Vec<u32>,
    pub image_camera_indices: Vec<usize>,
    pub image_frame_indices: Vec<Option<usize>>,
    pub seed_reconstruction: Option<ReconstructionSeed>,
}

/// Why a setup cannot be made.
#[derive(Debug, Clone, Copy, PartialEq, Eq, Structural)]
pub enum SetupError {
    NoReferenceCameras,
    NoDatabaseCameras,
    UnsupportedDatabaseCamera(u32),
}

impl SetupError {
    pub open spec fn text(self) -> Seq<char> {
        match self {
            SetupError::NoReferenceCameras => "reference model has no cameras"@,
            SetupError::NoDatabaseCameras => "database cache has no cameras"@,
            SetupError::UnsupportedDatabaseCamera(camera_id) => "unsupported database camera_id="@
                + decimal(camera_id as nat),
        }
    }

    pub fn message(&self) -> (message: String)
        ensures
            message@ == self.text(),
    {
        match self {
            SetupError::NoReferenceCameras => String::from_str("reference model has no cameras"),
            SetupError::NoDatabaseCameras => String::from_str("database cache has no cameras"),
            SetupError::UnsupportedDatabaseCamera(camera_id) => {
                let mut message = String::from_str("unsupported database camera_id=");
                push_decimal(&mut message, *camera_id);
                message
            },
        }
    }
}

/// The setup of an attempt. Only the first attempt starts from the seed.
pub fn setup_for_reconstruction_attempt(
    setup: Option<ReferenceCameraSetup>,
    use_seed: bool,
) -> (attempt: Option<ReferenceCameraSetup>)
    ensures
        attempt == (match setup {
            Some(s) => Some(
                ReferenceCameraSetup {
                    seed_reconstruction: if use_seed {
                        s.seed_reconstruction
                    } else {
                        None
                    },
                    ..s
                },
            ),
            None => None,
        }),
{
    match setup {
        Some(mut setup) => {
            if !use_seed {
                setup.seed_reconstruction = None;
            }
            Some(setup)
        },
        None => None,
    }
}

/// The last position of an entry.
pub open spec fn last_index<T>(s: Seq<T>, x: T) -> Option<usize>
    decreases s.len(),
{
    if s.len() == 0 {
        None
    } else if s.last() == x {
        Some((s.len() - 1) as usize)
    } else {
        last_index(s.drop_last(), x)
    }
}

/// The last position at which an identifier stands.
pub fn last_index_of_id(ids: &Vec<u32>, id: u32) -> (index: Option<usize>)
    ensures
        index == last_index(ids@, id),
        index matches Some(i) ==> i < ids@.len() && ids@[i as int] == id,
{
    let mut k: usize = ids.len();
    assert(ids@.take(k as int) =~= ids@);
    while k > 0
        invariant
            k <= ids@.len(),
            last_index(ids@, id) == last_index(ids@.take(k as int), id),
        decreases k,
    {
        assert(ids@.take(k as int).drop_last() =~= ids@.take(k - 1));
        if ids[k - 1] == id {
            return Some(k - 1);
        }
        k = k - 1;
    }
    None
}

/// The contents of a list of names.
pub open spec fn names_view(names: Seq<String>) -> Seq<Seq<char>> {
    Seq::new(names.len(), |i: int| names[i]@)
}

/// The last position at which a name stands.
pub fn last_index_of_name(names: &Vec<String>, name: &String) -> (index: Option<usize>)
    ensures
        index == last_index(names_view(names@), name@),
        index matches Some(i) ==> i < names@.len() && names@[i as int]@ == name@,
{
    let ghost all = names_view(names@);
    let mut k: usize = names.len();
    assert(all.take(k as int) =~= all);
    while k > 0
        invariant
            all == names_view(names@),
            k <= names@.len(),
            last_index(all, name@) == last_index(all.take(k as int), name@),
        decreases k,
    {
        assert(all.take(k as int).drop_last() =~= all.take(k - 1));
        if names[k - 1].eq(name) {
            return Some(k - 1);
        }
        k = k - 1;
    }
    None
}

/// An image known by name, with its identifier, camera and frame.
#[derive(Debug, Clone)]
pub struct KnownImage {
    pub name: String,
    pub image_id: u32,
    pub camera_id: u32,
    pub frame_index: Option<usize>,
}

/// The names of some images.
pub open spec fn known_names(images: Seq<KnownImage>) -> Seq<Seq<char>> {
    Seq::new(images.len(), |i: int| images[i].name@)
}

/// The name of a file; empty if it has none.
pub open spec fn name_or_empty(name: Option<String>) -> Seq<char> {
    match name {
        Some(name) => name@,
        None => Seq::empty(),
    }
}

/// What is known of an image by its name: the last image of that name. An
/// unknown image gets the next number, the first camera and no frame, and so
/// does an unknown camera.
pub open spec fn image_assignment(
    images: Seq<KnownImage>,
    camera_ids: Seq<u32>,
    name: Seq<char>,
    position: int,
) -> (u32, usize, Option<usize>) {
    match last_index(known_names(images), name) {
        Some(k) => (
            images[k as int].image_id,
            match last_index(camera_ids, images[k as int].camera_id) {
                Some(camera) => camera,
                None => 0,
            },
            images[k as int].frame_index,
        ),
        None => ((position + 1) as u32, 0, None),
    }
}

/// Whether three tables hold what is known of the first `n` images.
pub open spec fn assigns_images(
    images: Seq<KnownImage>,
    camera_ids: Seq<u32>,
    file_names: Seq<Option<String>>,
    n: int,
    image_ids: Seq<u32>,
    image_camera_indices: Seq<usize>,
    image_frame_indices: Seq<Option<usize>>,
) -> bool {
    &&& image_ids.len() == n
    &&& image_camera_indices.len() == n
    &&& image_frame_indices.len() == n
    &&& forall|i: int|
        0 <= i < n ==> (
            #[trigger] image_ids[i],
            image_camera_indices[i],
            image_frame_indices[i],
        ) == image_assignment(images, camera_ids, name_or_empty(file_names[i]), i)
}

/// The last image of a name.
pub fn last_image_of_name(images: &Vec<KnownImage>, name: &Option<String>) -> (index: Option<usize>)
    ensures
        index == last_index(known_names(images@), name_or_empty(*name)),
        index matches Some(i) ==> i < images@.len() && images@[i as int].name@ == name_or_empty(
            *name,
        ),
{
    let ghost all = known_names(images@);
    let ghost wanted = name_or_empty(*name);
    let mut k: usize = images.len();
    assert(all.take(k as int) =~= all);
    while k > 0
        invariant
            all == known_names(images@),
            wanted == name_or_empty(*name),
            k <= images@.len(),
            last_index(all, wanted) == last_index(all.take(k as int), wanted),
        decreases k,
    {
        assert(all.take(k as int).drop_last() =~= all.take(k - 1));
        let same: bool = match name {
            Some(name) => images[k - 1].name.eq(name),
            None => images[k - 1].name.eq(&String::new()),
        };
        if same {
            assert(all.take(k as int).last() == wanted);
            return Some(k - 1);
        }
        assert(all.take(k as int).last() != wanted);
        k = k - 1;
    }
    None
}

fn assign_images(
    images: &Vec<KnownImage>,
    camera_ids: &Vec<u32>,
    file_names: &Vec<Option<String>>,
) -> (tables: (Vec<u32>, Vec<usize>, Vec<Option<usize>>))
    requires
        file_names@.len() <= u32::MAX,
    ensures
        assigns_images(
            images@,
            camera_ids@,
            file_names@,
            file_names@.len() as int,
            tables.0@,
            tables.1@,
            tables.2@,
        ),
{
    let mut image_ids: Vec<u32> = Vec::new();
    let mut camera_indices: Vec<usize> = Vec::new();
    let mut frame_indices: Vec<Option<usize>> = Vec::new();
    for i in 0..file_names.len()
        invariant
            file_names@.len() <= u32::MAX,
            assigns_images(
                images@,
                camera_ids@,
                file_names@,
                i as int,
                image_ids@,
                camera_indices@,
                frame_indices@,
            ),
    {
        match last_image_of_name(images, &file_names[i]) {
            Some(k) => {
                image_ids.push(images[k].image_id);
                camera_indices.push(
                    match last_index_of_id(camera_ids, images[k].camera_id) {
                        Some(camera) => camera,
                        None => 0,
                    },
                );
                frame_indices.push(images[k].frame_index);
            },
            None => {
                image_ids.push(i as u32 + 1);
                camera_indices.push(0);
                frame_indices.push(None);
            },
        }
    }
    (image_ids, camera_indices, frame_indices)
}

fn all_true(n: usize) -> (flags: Vec<bool>)
    ensures
        flags@ == Seq::new(n as nat, |i: int| true),
{
    let mut flags: Vec<bool> = Vec::new();
    for i in 0..n
        invariant
            flags@ == Seq::new(i as nat, |j: int| true),
    {
        flags.push(true);
        assert(flags@ =~= Seq::new((i + 1) as nat, |j: int| true));
    }
    flags
}

/// The frames of the images of a model, by image identifier.
pub open spec fn model_frame(model: ReconstructionView, image_id: u32) -> Option<usize> {
    let n = if model.image_ids.len() <= model.image_frame_indices.len() {
        model.image_ids.len()
    } else {
        model.image_frame_indices.len()
    };
    match last_index(model.image_ids.take(n as int), image_id) {
        Some(k) => model.image_frame_indices[k as int],
        None => None,
    }
}

pub fn frame_of_image_id(model: &Reconstruction, image_id: u32) -> (frame: Option<usize>)
    ensures
        frame == model_frame(model@, image_id),
{
    let n: usize = if model.image_ids.len() <= model.image_frame_indices.len() {
        model.image_ids.len()
    } else {
        model.image_frame_indices.len()
    };
    let ghost ids = model.image_ids@.take(n as int);
    let mut k: usize = n;
    assert(ids.take(k as int) =~= ids);
    while k > 0
        invariant
            n <= model.image_ids@.len(),
            n <= model.image_frame_indices@.len(),
            n == model.image_ids@.len() || n == model.image_frame_indices@.len(),
            ids == model.image_ids@.take(n as int),
            k <= n,
            last_index(ids, image_id) == last_index(ids.take(k as int), image_id),
        decreases k,
    {
        assert(ids.take(k as int).drop_last() =~= ids.take(k - 1));
        if model.image_ids[k - 1] == image_id {
            assert(ids.take(k as int).last() == image_id);
            return model.image_frame_indices[k - 1];
        }
        assert(ids.take(k as int).last() != image_id);
        k = k - 1;
    }
    None
}

/// An image of a reference model.
#[derive(Debug, Clone)]
pub struct ReferenceImage {
    pub name: String,
    pub image_id: u32,
    pub camera_id: u32,
}

/// The images of a reference model, with their frames where the whole model
/// could be read.
pub open spec fn reference_images(
    images: Seq<ReferenceImage>,
    model: Option<Reconstruction>,
) -> Seq<KnownImage> {
    Seq::new(
        images.len(),
        |i: int|
            KnownImage {
                name: images[i].name,
                image_id: images[i].image_id,
                camera_id: images[i].camera_id,
                frame_index: match model {
                    Some(m) => model_frame(m@, images[i].image_id),
                    None => None,
                },
            },
    )
}

/// The cameras of a list that pairs them with identifiers.
pub open spec fn listed_cameras(cameras: Seq<(u32, CameraModel)>) -> Seq<CameraModel> {
    Seq::new(cameras.len(), |i: int| cameras[i].1)
}

pub open spec fn listed_camera_ids(cameras: Seq<(u32, CameraModel)>) -> Seq<u32> {
    Seq::new(cameras.len(), |i: int| cameras[i].0)
}

/// Makes the setup from a reference model. Images are recognized by name.
pub fn reference_camera_setup(
    cameras_with_ids: &Vec<(u32, CameraModel)>,
    images: Vec<ReferenceImage>,
    model: Option<Reconstruction>,
    file_names: &Vec<Option<String>>,
) -> (setup: Result<ReferenceCameraSetup, SetupError>)
    requires
        file_names@.len() <= u32::MAX,
    ensures
        setup is Err <==> cameras_with_ids@.len() == 0,
        setup matches Err(error) ==> error == SetupError::NoReferenceCameras,
        setup matches Ok(s) ==> {
            &&& s.cameras@ == listed_cameras(cameras_with_ids@)
            &&& s.camera_ids@ == listed_camera_ids(cameras_with_ids@)
            &&& s.camera_has_prior_focal_length@ == Seq::new(
                cameras_with_ids@.len(),
                |i: int| true,
            )
            &&& assigns_images(
                reference_images(images@, model),
                s.camera_ids@,
                file_names@,
                file_names@.len() as int,
                s.image_ids@,
                s.image_camera_indices@,
                s.image_frame_indices@,
            )
            &&& match model {
                Some(m) => s.rigs@ == m@.rigs && s.frames@ == m@.frames && seeds(
                    m@,
                    file_names@,
                    s.seed_reconstruction,
                ),
                None => s.rigs@.len() == 0 && s.frames@.len() == 0
                    && s.seed_reconstruction is None,
            }
        },
{
    if cameras_with_ids.len() == 0 {
        return Err(SetupError::NoReferenceCameras);
    }
    let mut cameras: Vec<CameraModel> = Vec::new();
    let mut camera_ids: Vec<u32> = Vec::new();
    for i in 0..cameras_with_ids.len()
        invariant
            cameras@ == listed_cameras(cameras_with_ids@).take(i as int),
            camera_ids@ == listed_camera_ids(cameras_with_ids@).take(i as int),
    {
        cameras.push(cameras_with_ids[i].1);
        camera_ids.push(cameras_with_ids[i].0);
        assert(cameras@ =~= listed_cameras(cameras_with_ids@).take(i + 1));
        assert(camera_ids@ =~= listed_camera_ids(cameras_with_ids@).take(i + 1));
    }
    assert(cameras@ =~= listed_cameras(cameras_with_ids@));
    assert(camera_ids@ =~= listed_camera_ids(cameras_with_ids@));
    let ghost given = images@;
    let mut known: Vec<KnownImage> = Vec::new();
    let mut remaining: Vec<ReferenceImage> = images;
    while remaining.len() > 0
        invariant
            remaining@.len() + known@.len() == given.len(),
            remaining@ == given.take(remaining@.len() as int),
            known@ == reference_images(given, model).skip(remaining@.len() as int).reverse(),
        decreases remaining@.len(),
    {
        let ghost left = remaining@.len();
        match remaining.pop() {
            Some(image) => {
                let frame_index: Option<usize> = match &model {
                    Some(m) => frame_of_image_id(m, image.image_id),
                    None => None,
                };
                known.push(
                    KnownImage {
                        name: image.name,
                        image_id: image.image_id,
                        camera_id: image.camera_id,
                        frame_index,
                    },
                );
                proof {
                    assert(known@ =~= reference_images(given, model).skip(left - 1).reverse());
                    assert(remaining@ =~= given.take(left - 1));
                }
            },
            None => {},
        }
    }
    let mut ordered: Vec<KnownImage> = Vec::new();
    let ghost reversed = known@;
    let ghost goal = reference_images(given, model);
    proof {
        assert(goal.skip(0) =~= goal);
        assert(reversed == goal.reverse());
    }
    while known.len() > 0
        invariant
            known@ == reversed.take(known@.len() as int),
            reversed == goal.reverse(),
            known@.len() + ordered@.len() == goal.len(),
            ordered@ == goal.take(ordered@.len() as int),
        decreases known@.len(),
    {
        let ghost left = known@.len();
        match known.pop() {
            Some(image) => {
                ordered.push(image);
                proof {
                    assert(image == reversed[left - 1]);
                    assert(reversed[left - 1] == goal[goal.len() - left]);
                    assert(ordered@ =~= goal.take(ordered@.len() as int));
                    assert(known@ =~= reversed.take(left - 1));
                }
            },
            None => {},
        }
    }
    assert(ordered@ =~= goal);
    let tables = assign_images(&ordered, &camera_ids, file_names);
    let flags: Vec<bool> = all_true(cameras.len());
    let seed: Option<ReconstructionSeed> = match &model {
        Some(m) => seed_reconstruction_from_reference(m, file_names),
        None => None,
    };
    let (rigs, frames): (Vec<Rig>, Vec<Frame>) = match model {
        Some(m) => (m.rigs, m.frames),
        None => (Vec::new(), Vec::new()),
    };
    Ok(
        ReferenceCameraSetup {
            cameras,
            camera_ids,
            camera_has_prior_focal_length: flags,
            rigs,
            frames,
            image_ids: tables.0,
            image_camera_indices: tables.1,
            image_frame_indices: tables.2,
            seed_reconstruction: seed,
        },
    )
}

/// A camera of a database; `camera` is missing if its model is not supported.
#[derive(Debug, Clone, Copy)]
pub struct DatabaseCamera {
    pub camera_id: u32,
    pub camera: Option<CameraModel>,
    pub has_prior_focal_length: bool,
}

/// An image of a database.
#[derive(Debug, Clone)]
pub struct DatabaseImage {
    pub name: String,
    pub image_id: u32,
    pub camera_id: u32,
    pub frame_id: Option<u32>,
}

/// The identifiers of some frames.
pub open spec fn frame_ids(frames: Seq<Frame>) -> Seq<u32> {
    Seq::new(frames.len(), |i: int| frames[i].frame_id)
}

/// Whether known images are those of a database, with their frames looked up.
pub open spec fn are_database_images(
    known: Seq<KnownImage>,
    images: Seq<DatabaseImage>,
    frames: Seq<Frame>,
) -> bool {
    known.len() == images.len() && forall|i: int|
        0 <= i < images.len() ==> {
            let k = #[trigger] known[i];
            &&& k.name@ == images[i].name@
            &&& k.image_id == images[i].image_id
            &&& k.camera_id == images[i].camera_id
            &&& k.frame_index == (match images[i].frame_id {
                Some(id) => last_index(frame_ids(frames), id),
                None => None,
            })
        }
}

/// The first unsupported camera.
pub open spec fn first_unsupported(cameras: Seq<DatabaseCamera>, from: int) -> Option<u32>
    decreases cameras.len() - from,
{
    if from < 0 || from >= cameras.len() {
        None
    } else if cameras[from].camera is None {
        Some(cameras[from].camera_id)
    } else {
        first_unsupported(cameras, from + 1)
    }
}

fn index_of_frame_id(frames: &Vec<Frame>, id: u32) -> (index: Option<usize>)
    ensures
        index == last_index(frame_ids(frames@), id),
{
    let ghost all = frame_ids(frames@);
    let mut k: usize = frames.len();
    assert(all.take(k as int) =~= all);
    while k > 0
        invariant
            all == frame_ids(frames@),
            k <= frames@.len(),
            last_index(all, id) == last_index(all.take(k as int), id),
        decreases k,
    {
        assert(all.take(k as int).drop_last() =~= all.take(k - 1));
        if frames[k - 1].frame_id == id {
            assert(all.take(k as int).last() == id);
            return Some(k - 1);
        }
        assert(all.take(k as int).last() != id);
        k = k - 1;
    }
    None
}

/// Makes the setup from a database. Images are recognized by name.
pub fn database_camera_setup(
    cameras: &Vec<DatabaseCamera>,
    images: &Vec<DatabaseImage>,
    rigs: Vec<Rig>,
    frames: Vec<Frame>,
    file_names: &Vec<Option<String>>,
) -> (setup: Result<ReferenceCameraSetup, SetupError>)
    requires
        file_names@.len() <= u32::MAX,
    ensures
        match setup {
            Err(SetupError::NoDatabaseCameras) => cameras@.len() == 0,
            Err(SetupError::UnsupportedDatabaseCamera(id)) => cameras@.len() > 0
                && first_unsupported(cameras@, 0) == Some(id),
            Err(SetupError::NoReferenceCameras) => false,
            Ok(s) => {
                &&& cameras@.len() > 0
                &&& first_unsupported(cameras@, 0) is None
                &&& s.cameras@ == Seq::new(cameras@.len(), |i: int| cameras@[i].camera->0)
                &&& s.camera_ids@ == Seq::new(cameras@.len(), |i: int| cameras@[i].camera_id)
                &&& s.camera_has_prior_focal_length@ == Seq::new(
                    cameras@.len(),
                    |i: int| cameras@[i].has_prior_focal_length,
                )
                &&& s.rigs == rigs
                &&& s.frames == frames
                &&& s.seed_reconstruction is None
                &&& exists|known: Seq<KnownImage>|
                    are_database_images(known, images@, frames@) && #[trigger] assigns_images(
                        known,
                        s.camera_ids@,
                        file_names@,
                        file_names@.len() as int,
                        s.image_ids@,
                        s.image_camera_indices@,
                        s.image_frame_indices@,
                    )
            },
        },
{
    if cameras.len() == 0 {
        return Err(SetupError::NoDatabaseCameras);
    }
    let mut models: Vec<CameraModel> = Vec::new();
    let mut camera_ids: Vec<u32> = Vec::new();
    let mut flags: Vec<bool> = Vec::new();
    for i in 0..cameras.len()
        invariant
            cameras@.len() > 0,
            first_unsupported(cameras@, 0) == first_unsupported(cameras@, i as int),
            models@ == Seq::new(i as nat, |j: int| cameras@[j].camera->0),
            camera_ids@ == Seq::new(i as nat, |j: int| cameras@[j].camera_id),
            flags@ == Seq::new(i as nat, |j: int| cameras@[j].has_prior_focal_length),
    {
        match cameras[i].camera {
            Some(camera) => {
                models.push(camera);
                camera_ids.push(cameras[i].camera_id);
                flags.push(cameras[i].has_prior_focal_length);
            },
            None => {
                return Err(SetupError::UnsupportedDatabaseCamera(cameras[i].camera_id));
            },
        }
        assert(models@ =~= Seq::new((i + 1) as nat, |j: int| cameras@[j].camera->0));
        assert(camera_ids@ =~= Seq::new((i + 1) as nat, |j: int| cameras@[j].camera_id));
        assert(flags@ =~= Seq::new((i + 1) as nat, |j: int| cameras@[j].has_prior_focal_length));
    }
    let mut known: Vec<KnownImage> = Vec::new();
    for i in 0..images.len()
        invariant
            are_database_images(known@, images@.take(i as int), frames@),
    {
        let frame_index: Option<usize> = match images[i].frame_id {
            Some(id) => index_of_frame_id(&frames, id),
            None => None,
        };
        let ghost before = known@;
        known.push(
            KnownImage {
                name: images[i].name.clone(),
                image_id: images[i].image_id,
                camera_id: images[i].camera_id,
                frame_index,
            },
        );
        proof {
            assert forall|j: int| 0 <= j < i + 1 implies {
                let k = #[trigger] known@[j];
                let image = images@.take(i + 1)[j];
                &&& k.name@ == image.name@
                &&& k.image_id == image.image_id
                &&& k.camera_id == image.camera_id
                &&& k.frame_index == (match image.frame_id {
                    Some(id) => last_index(frame_ids(frames@), id),
                    None => None,
                })
            } by {
                if j < i {
                    assert(known@[j] == before[j]);
                    assert(images@.take(i as int)[j] == images@[j]);
                }
            }
        }
    }
    assert(images@.take(images@.len() as int) =~= images@);
    let tables = assign_images(&known, &camera_ids, file_names);
    let ghost listed = known@;
    let setup = ReferenceCameraSetup {
        cameras: models,
        camera_ids,
        camera_has_prior_focal_length: flags,
        rigs,
        frames,
        image_ids: tables.0,
        image_camera_indices: tables.1,
        image_frame_indices: tables.2,
        seed_reconstruction: None,
    };
    proof {
        assert(first_unsupported(cameras@, 0) is None);
        assert(are_database_images(listed, images@, frames@));
        assert(assigns_images(
            listed,
            setup.camera_ids@,
            file_names@,
            file_names@.len() as int,
            setup.image_ids@,
            setup.image_camera_indices@,
            setup.image_frame_indices@,
        ));
    }
    Ok(setup)
}

/// Makes the setup that gives each image a camera of its own.
pub fn local_image_camera_setup(cameras: Vec<CameraModel>) -> (setup: ReferenceCameraSetup)
    requires
        cameras@.len() <= u32::MAX,
    ensures
        setup.cameras == cameras,
        setup.camera_ids@ == Seq::new(cameras@.len(), |i: int| (i + 1) as u32),
        setup.image_ids@ == setup.camera_ids@,
        setup.image_camera_indices@ == Seq::new(cameras@.len(), |i: int| i as usize),
        setup.image_frame_indices@ == Seq::new(cameras@.len(), |i: int| None::<usize>),
        setup.camera_has_prior_focal_length@ == Seq::new(cameras@.len(), |i: int| true),
        setup.rigs@.len() == 0,
        setup.frames@.len() == 0,
        setup.seed_reconstruction is None,
{
    let n: usize = cameras.len();
    let mut camera_ids: Vec<u32> = Vec::new();
    let mut image_ids: Vec<u32> = Vec::new();
    let mut camera_indices: Vec<usize> = Vec::new();
    let mut frame_indices: Vec<Option<usize>> = Vec::new();
    for i in 0..n
        invariant
            n <= u32::MAX,
            camera_ids@ == Seq::new(i as nat, |j: int| (j + 1) as u32),
            image_ids@ == camera_ids@,
            camera_indices@ == Seq::new(i as nat, |j: int| j as usize),
            frame_indices@ == Seq::new(i as nat, |j: int| None::<usize>),
    {
        camera_ids.push(i as u32 + 1);
        image_ids.push(i as u32 + 1);
        camera_indices.push(i);
        frame_indices.push(None);
        assert(camera_ids@ =~= Seq::new((i + 1) as nat, |j: int| (j + 1) as u32));
        assert(camera_indices@ =~= Seq::new((i + 1) as nat, |j: int| j as usize));
        assert(frame_indices@ =~= Seq::new((i + 1) as nat, |j: int| None::<usize>));
    }
    ReferenceCameraSetup {
        cameras,
        camera_ids,
        camera_has_prior_focal_length: all_true(n),
        rigs: Vec::new(),
        frames: Vec::new(),
        image_ids,
        image_camera_indices: camera_indices,
        image_frame_indices: frame_indices,
        seed_reconstruction: None,
    }
}

} // verus!
