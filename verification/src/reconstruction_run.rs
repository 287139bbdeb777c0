//! Decisions around a reconstruction: its inputs, its last refinement, its
//! outputs.

use crate::camera_setup::ReferenceCameraSetup;
use crate::config::{is_spelling, spells, MapperConfig};
use crate::global_ba::{registered_image_count, registered_images};
use crate::types::{
    table_view, CameraModel, ImageFrame, Point3DView, Pose, Reconstruction, ReconstructionView,
};
use vstd::prelude::*;

verus! {

/// Why there is no reconstruction.
#[derive(Debug, Clone, Copy, PartialEq, Eq, Structural)]
pub enum RunError {
    NotEnoughImages,
    DatabaseMissing,
    DatabaseRequired,
    NoVerifiedPairs,
    NoCameraSetup,
    NoModelKept,
}

impl RunError {
    pub open spec fn text(self) -> Seq<char> {
        match self {
            RunError::NotEnoughImages => "need at least two images"@,
            RunError::DatabaseMissing => "database path does not exist"@,
            RunError::DatabaseRequired =>
                "COLMAP-style reconstruction requires a database. Provide --database, place database.db next to the image root, or pass --local-matching for the experimental image-only fallback."@,
            RunError::NoVerifiedPairs => "no verified image pairs"@,
            RunError::NoCameraSetup =>
                "local matching database write requires per-image camera setup"@,
            RunError::NoModelKept => "incremental pipeline kept no reconstruction"@,
        }
    }

    pub fn message(&self) -> (message: &'static str)
        ensures
            message@ == self.text(),
    {
        match self {
            RunError::NotEnoughImages => "need at least two images",
            RunError::DatabaseMissing => "database path does not exist",
            RunError::DatabaseRequired =>
                "COLMAP-style reconstruction requires a database. Provide --database, place database.db next to the image root, or pass --local-matching for the experimental image-only fallback.",
            RunError::NoVerifiedPairs => "no verified image pairs",
            RunError::NoCameraSetup =>
                "local matching database write requires per-image camera setup",
            RunError::NoModelKept => "incremental pipeline kept no reconstruction",
        }
    }
}

/// Whether files with an extension are images.
pub open spec fn names_images(extension: Seq<char>) -> bool {
    spells(extension, "jpg"@) || spells(extension, "jpeg"@) || spells(extension, "png"@)
}

pub fn is_image_extension(extension: &str) -> (b: bool)
    ensures
        b == names_images(extension@),
{
    is_spelling(extension, "jpg") || is_spelling(extension, "jpeg") || is_spelling(extension, "png")
}

/// How many of the images that were found are taken.
pub fn num_images_taken(found: usize, config: &MapperConfig) -> (n: usize)
    ensures
        n == (match config.max_images {
            Some(most) => if most <= found {
                most
            } else {
                found
            },
            None => found,
        }),
{
    match config.max_images {
        Some(most) => if most <= found {
            most
        } else {
            found
        },
        None => found,
    }
}

pub fn check_image_count(num_images: usize) -> (result: Result<(), RunError>)
    ensures
        result == (if num_images < 2 {
            Err::<(), RunError>(RunError::NotEnoughImages)
        } else {
            Ok(())
        }),
{
    if num_images < 2 {
        Err(RunError::NotEnoughImages)
    } else {
        Ok(())
    }
}

/// Where the database is.
#[derive(Debug, Clone, Copy, PartialEq, Eq, Structural)]
pub enum DatabaseChoice {
    /// The configured one.
    Configured,
    /// One of the usual places.
    Candidate(usize),
    /// A new one next to the images.
    NewInInput,
    Nowhere,
}

/// The first candidate from position `from` on that exists.
pub open spec fn first_existing(exists_at: Seq<bool>, from: int) -> Option<usize>
    decreases exists_at.len() - from,
{
    if from < 0 || from >= exists_at.len() {
        None
    } else if exists_at[from] {
        Some(from as usize)
    } else {
        first_existing(exists_at, from + 1)
    }
}

/// Where the database is: as configured, else at the first usual place that has
/// one, else in a new file if one is to be written.
///
/// `configured_exists` tells of a configured database whether it is there.
pub open spec fn database_choice(
    configured_exists: Option<bool>,
    candidates: Seq<bool>,
    writes_local_matches: bool,
) -> Result<DatabaseChoice, RunError> {
    match configured_exists {
        Some(there) => if there || writes_local_matches {
            Ok(DatabaseChoice::Configured)
        } else {
            Err(RunError::DatabaseMissing)
        },
        None => match first_existing(candidates, 0) {
            Some(i) => Ok(DatabaseChoice::Candidate(i)),
            None => Ok(
                if writes_local_matches {
                    DatabaseChoice::NewInInput
                } else {
                    DatabaseChoice::Nowhere
                },
            ),
        },
    }
}

pub fn resolve_mapper_database(
    config: &MapperConfig,
    configured_exists: bool,
    candidates: &[bool],
) -> (choice: Result<DatabaseChoice, RunError>)
    ensures
        choice == database_choice(
            if config.database is Some {
                Some(configured_exists)
            } else {
                None
            },
            candidates@,
            config.write_database && config.local_matching,
        ),
{
    let writes: bool = config.write_database && config.local_matching;
    if config.database.is_some() {
        return if configured_exists || writes {
            Ok(DatabaseChoice::Configured)
        } else {
            Err(RunError::DatabaseMissing)
        };
    }
    let n: usize = candidates.len();
    let mut k: usize = 0;
    while k < n
        invariant
            n == candidates@.len(),
            k <= n,
            config.database is None,
            first_existing(candidates@, 0) == first_existing(candidates@, k as int),
        decreases n - k,
    {
        if candidates[k] {
            return Ok(DatabaseChoice::Candidate(k));
        }
        k = k + 1;
    }
    if writes {
        Ok(DatabaseChoice::NewInInput)
    } else {
        Ok(DatabaseChoice::Nowhere)
    }
}

/// Where cameras come from.
#[derive(Debug, Clone, Copy, PartialEq, Eq, Structural)]
pub enum SetupSource {
    Reference,
    Database,
    Images,
    Nowhere,
}

/// Where cameras come from: a reference model, else a database, else, without a
/// database, the images themselves.
pub fn setup_source(reference_usable: bool, database: Option<bool>) -> (source: SetupSource)
    ensures
        source == (if reference_usable {
            SetupSource::Reference
        } else {
            match database {
                Some(usable) => if usable {
                    SetupSource::Database
                } else {
                    SetupSource::Nowhere
                },
                None => SetupSource::Images,
            }
        }),
{
    if reference_usable {
        SetupSource::Reference
    } else {
        match database {
            Some(usable) => if usable {
                SetupSource::Database
            } else {
                SetupSource::Nowhere
            },
            None => SetupSource::Images,
        }
    }
}

/// The camera of images that no setup speaks of: the first one of the setup,
/// else a given one in the size of the images.
pub fn default_camera(
    setup: Option<&ReferenceCameraSetup>,
    fallback: CameraModel,
    frames: &[ImageFrame],
) -> (camera: CameraModel)
    requires
        frames@.len() > 0,
    ensures
        camera == (match setup {
            Some(s) => if s.cameras@.len() > 0 {
                s.cameras@[0]
            } else {
                fallback
            },
            None => CameraModel {
                width: frames@[0].width,
                height: frames@[0].height,
                ..fallback
            },
        }),
{
    match setup {
        Some(setup) => if setup.cameras.len() > 0 {
            setup.cameras[0]
        } else {
            fallback
        },
        None => CameraModel { width: frames[0].width, height: frames[0].height, ..fallback },
    }
}

/// Where pairs come from.
#[derive(Debug, Clone, Copy, PartialEq, Eq, Structural)]
pub enum PairSource {
    Database,
    LocalMatching,
}

/// Where pairs come from. Images are matched here only on request.
pub fn pair_source(database_loaded: bool, config: &MapperConfig) -> (source: Result<
    PairSource,
    RunError,
>)
    ensures
        source == (if database_loaded {
            Ok::<PairSource, RunError>(PairSource::Database)
        } else if config.local_matching {
            Ok(PairSource::LocalMatching)
        } else {
            Err(RunError::DatabaseRequired)
        }),
{
    if database_loaded {
        Ok(PairSource::Database)
    } else if config.local_matching {
        Ok(PairSource::LocalMatching)
    } else {
        Err(RunError::DatabaseRequired)
    }
}

pub fn check_pair_count(num_pairs: usize) -> (result: Result<(), RunError>)
    ensures
        result == (if num_pairs == 0 {
            Err::<(), RunError>(RunError::NoVerifiedPairs)
        } else {
            Ok(())
        }),
{
    if num_pairs == 0 {
        Err(RunError::NoVerifiedPairs)
    } else {
        Ok(())
    }
}

/// What is written to the database: the geometries of the pairs first, then the
/// local matches. The second write can fail when the first one is done.
#[derive(Debug, Clone, Copy, PartialEq, Eq)]
pub struct DatabaseWrites {
    pub two_view_geometries: bool,
    pub local_matches: Result<bool, RunError>,
}

/// What is written to the database. Local matches need the cameras of the
/// images.
pub fn database_writes(
    config: &MapperConfig,
    has_database: bool,
    has_setup: bool,
) -> (writes: DatabaseWrites)
    ensures
        writes.two_view_geometries == (config.write_two_view_geometries && has_database),
        writes.local_matches == (if !(config.write_database && config.local_matching
            && has_database) {
            Ok::<bool, RunError>(false)
        } else if has_setup {
            Ok(true)
        } else {
            Err(RunError::NoCameraSetup)
        }),
{
    DatabaseWrites {
        two_view_geometries: config.write_two_view_geometries && has_database,
        local_matches: if !(config.write_database && config.local_matching && has_database) {
            Ok(false)
        } else if has_setup {
            Ok(true)
        } else {
            Err(RunError::NoCameraSetup)
        },
    }
}

/// Whether poses are refined together at the end: on request, once every image
/// is registered.
pub fn pose_graph_applies(config: &MapperConfig, reconstruction: &Reconstruction) -> (b: bool)
    ensures
        b <==> config.pose_graph && forall|i: int|
            0 <= i < reconstruction@.poses.len() ==> #[trigger] reconstruction@.registered(i),
{
    config.pose_graph && !crate::mapping_attempt::any_unregistered(reconstruction)
}

/// A model of which only the poses are kept, replaced by others.
pub open spec fn rests_on_poses(
    r: ReconstructionView,
    before: ReconstructionView,
    frames: Seq<ImageFrame>,
    poses: Seq<Pose>,
) -> bool {
    r == (ReconstructionView {
        poses: Seq::new(poses.len(), |i: int| Some(poses[i])),
        observations: Seq::new(
            frames.len(),
            |i: int| Seq::new(frames[i].keypoints@.len(), |f: int| None::<usize>),
        ),
        point_ids: Seq::empty(),
        points: Seq::empty(),
        ..before
    })
}

/// Replaces the poses and drops the structure, which is then built anew.
pub fn restart_from_poses(
    reconstruction: &mut Reconstruction,
    frames: &[ImageFrame],
    poses: &Vec<Pose>,
)
    ensures
        rests_on_poses(final(reconstruction)@, old(reconstruction)@, frames@, poses@),
{
    let ghost before = reconstruction@;
    let mut new_poses: Vec<Option<Pose>> = Vec::new();
    for i in 0..poses.len()
        invariant
            new_poses@ == Seq::new(i as nat, |j: int| Some(poses@[j])),
    {
        new_poses.push(Some(poses[i]));
        assert(new_poses@ =~= Seq::new((i + 1) as nat, |j: int| Some(poses@[j])));
    }
    let mut table: Vec<Vec<Option<usize>>> = Vec::new();
    for i in 0..frames.len()
        invariant
            table_view(table@) == Seq::new(
                i as nat,
                |j: int| Seq::new(frames@[j].keypoints@.len(), |f: int| None::<usize>),
            ),
    {
        let width: usize = frames[i].keypoints.len();
        let mut row: Vec<Option<usize>> = Vec::new();
        for f in 0..width
            invariant
                row@ == Seq::new(f as nat, |g: int| None::<usize>),
        {
            row.push(None);
            assert(row@ =~= Seq::new((f + 1) as nat, |g: int| None::<usize>));
        }
        let ghost rows = table@;
        table.push(row);
        proof {
            assert(table_view(table@) =~= table_view(rows).push(row@));
            assert(table_view(table@) =~= Seq::new(
                (i + 1) as nat,
                |j: int| Seq::new(frames@[j].keypoints@.len(), |f: int| None::<usize>),
            ));
        }
    }
    reconstruction.poses = new_poses;
    reconstruction.observations = table;
    reconstruction.points = Vec::new();
    reconstruction.point_ids = Vec::new();
    assert(reconstruction@.points =~= Seq::<Point3DView>::empty());
    assert(reconstruction@.point_ids =~= Seq::<u64>::empty());
}

/// What a run amounts to.
#[derive(Debug, Clone, Copy, PartialEq, Eq, Structural)]
pub struct RunCounts {
    pub images: usize,
    pub registered_images: usize,
    pub points: usize,
    pub pairs: usize,
    pub models: usize,
}

/// Sums a run up. The first model counts; without one the run has failed.
pub fn run_counts(
    num_images: usize,
    num_pairs: usize,
    models: &Vec<Reconstruction>,
) -> (counts: Result<RunCounts, RunError>)
    ensures
        match counts {
            Err(error) => models@.len() == 0 && error == RunError::NoModelKept,
            Ok(c) => {
                &&& models@.len() > 0
                &&& c.images == num_images
                &&& c.registered_images == registered_images(models@[0]@)
                &&& c.points == models@[0]@.points.len()
                &&& c.pairs == num_pairs
                &&& c.models == models@.len()
            },
        },
{
    if models.len() == 0 {
        return Err(RunError::NoModelKept);
    }
    Ok(
        RunCounts {
            images: num_images,
            registered_images: registered_image_count(&models[0]),
            points: models[0].points.len(),
            pairs: num_pairs,
            models: models.len(),
        },
    )
}

/// The number under which a model is written; a single model goes without.
pub fn export_index(models: usize, model: usize) -> (index: Option<usize>)
    ensures
        index == (if models <= 1 {
            None
        } else {
            Some(model)
        }),
{
    if models <= 1 {
        None
    } else {
        Some(model)
    }
}

} // verus!
