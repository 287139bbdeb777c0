use rustsfm::observation_manager::{ImageStat, ObservationManager};
use rustsfm::pair_stats::{ImagePairStat, PairStats};
use rustsfm::scalar::{Real32, Real64};
use rustsfm::types::{
    CameraModel, ImageFrame, Keypoint, Match, PairGeometry, Point3D, Pose, Reconstruction,
    RelativeGeometry, TrackObservation,
};

fn single(x: f32) -> Real32 {
    Real32 { bits: x.to_bits() }
}

fn double(x: f64) -> Real64 {
    Real64 { bits: x.to_bits() }
}

fn pose(x: f32, y: f32, z: f32) -> Pose {
    Pose {
        qw: single(1.0),
        qx: single(0.0),
        qy: single(0.0),
        qz: single(0.0),
        tx: single(x),
        ty: single(y),
        tz: single(z),
    }
}

fn identity() -> Pose {
    pose(0.0, 0.0, 0.0)
}

fn pinhole(width: u32, height: u32, fx: f32, fy: f32, cx: f32, cy: f32) -> CameraModel {
    let mut params = [double(0.0); 12];
    for (slot, value) in params.iter_mut().zip([fx, fy, cx, cy]) {
        *slot = double(value as f64);
    }
    let ratio = fx / width.max(height) as f32;
    CameraModel {
        model_id: 1,
        width,
        height,
        params,
        num_params: 4,
        bogus: !(0.1..=10.0).contains(&ratio),
    }
}

fn keypoint(x: f32, y: f32, width: u32, height: u32) -> Keypoint {
    Keypoint {
        x: single(x),
        y: single(y),
        cell_x: ((x / width as f32) * 32.0).clamp(0.0, 31.0) as u8,
        cell_y: ((y / height as f32) * 32.0).clamp(0.0, 31.0) as u8,
    }
}

fn observation(image: usize, feature: usize) -> TrackObservation {
    TrackObservation { image, feature }
}

fn point(xyz: [f32; 3], track: &[(usize, usize)]) -> Point3D {
    Point3D {
        xyz: xyz.map(single),
        color: [0, 0, 0],
        error: single(0.0),
        track: track.iter().map(|&(image, feature)| observation(image, feature)).collect(),
    }
}

fn relative(translation: [f32; 3]) -> RelativeGeometry {
    let norm = translation.iter().map(|t| t * t).sum::<f32>().sqrt();
    let forward_motion = if norm <= f32::EPSILON || !norm.is_finite() {
        f32::INFINITY
    } else {
        (translation[2] / norm).abs()
    };
    RelativeGeometry {
        pose: pose(translation[0], translation[1], translation[2]),
        h_matrix: None,
        qvec: None,
        tvec: None,
        forward_motion: single(forward_motion),
    }
}

fn reconstruction(frames: &[ImageFrame]) -> Reconstruction {
    Reconstruction {
        camera: pinhole(100, 100, 50.0, 50.0, 50.0, 50.0),
        cameras: vec![pinhole(100, 100, 50.0, 50.0, 50.0, 50.0)],
        camera_ids: vec![1],
        rigs: Vec::new(),
        frames: Vec::new(),
        image_names: frames.iter().map(|frame| frame.name.clone()).collect(),
        image_ids: (0..frames.len()).map(|idx| idx as u32 + 1).collect(),
        image_camera_indices: vec![0; frames.len()],
        image_frame_indices: vec![None; frames.len()],
        poses: vec![None; frames.len()],
        observations: frames.iter().map(|frame| vec![None; frame.keypoints.len()]).collect(),
        keypoints: frames.iter().map(|frame| frame.keypoints.clone()).collect(),
        point_ids: Vec::new(),
        points: Vec::new(),
    }
}

fn pair(left: usize, right: usize, matches: &[(u32, u32)]) -> PairGeometry {
    PairGeometry {
        left,
        right,
        two_view_config: 2,
        f_matrix: None,
        e_matrix: None,
        forward: relative([0.0, 0.0, 0.0]),
        backward: relative([0.0, 0.0, 0.0]),
        matches: Vec::new(),
        inlier_matches: matches
            .iter()
            .map(|&(query_idx, train_idx)| Match { query_idx, train_idx, distance: single(0.0) })
            .collect(),
        inliers: matches.len(),
        triangulated: 0,
        mean_reprojection_error_px: single(0.0),
        rotation_deg: single(0.0),
        median_triangulation_angle_deg: single(0.0),
        pose_graph_only: false,
    }
}

fn frame(id: usize, width: u32, height: u32) -> ImageFrame {
    ImageFrame {
        id,
        name: format!("{id}.jpg"),
        width,
        height,
        keypoints: vec![keypoint(10.0, 10.0, width, height), keypoint(80.0, 80.0, width, height)],
        strong_feature_indices: Vec::new(),
        colors: vec![[0, 0, 0]; 2],
    }
}

#[test]
fn counts_visible_points_for_unregistered_images() {
    let frames = vec![frame(0, 100, 100), frame(1, 100, 100), frame(2, 100, 100)];
    let pairs = vec![pair(0, 1, &[(0, 0), (1, 1)]), pair(1, 2, &[(0, 0), (1, 1)])];
    let mut reconstruction = reconstruction(&frames);
    reconstruction.poses[0] = Some(identity());
    reconstruction.poses[1] = Some(identity());
    reconstruction.observations[0][0] = Some(0);
    reconstruction.observations[1][0] = Some(0);
    reconstruction.points.push(point([0.0, 0.0, 1.0], &[(0, 0), (1, 0)]));

    let manager = ObservationManager::new(&frames, &pairs, &reconstruction);

    assert_eq!(manager.num_observations(2), 2);
    assert_eq!(manager.num_visible_points3d(2), 1);
    assert!(manager.point3d_visibility_score(2) > 0);
}

#[test]
fn counts_triangulated_correspondences_per_pair() {
    let frames = vec![frame(0, 100, 100), frame(1, 100, 100)];
    let pairs = vec![pair(0, 1, &[(0, 0), (1, 1)])];
    let mut reconstruction = reconstruction(&frames);
    reconstruction.poses[0] = Some(identity());
    reconstruction.poses[1] = Some(identity());
    reconstruction.observations[0][0] = Some(3);
    reconstruction.observations[1][0] = Some(3);

    let manager = ObservationManager::new(&frames, &pairs, &reconstruction);

    let stat = manager.image_pairs().get(&(0, 1)).unwrap();
    assert_eq!(stat.num_total_corrs, 2);
    assert_eq!(stat.num_tri_corrs, 1);
}

#[test]
fn registered_images_propagate_visible_correspondences() {
    let frames = vec![frame(0, 100, 100), frame(1, 100, 100)];
    let pairs = vec![pair(0, 1, &[(0, 0), (1, 1)])];
    let mut reconstruction = reconstruction(&frames);
    reconstruction.poses[0] = Some(identity());

    let manager = ObservationManager::new(&frames, &pairs, &reconstruction);

    assert_eq!(manager.num_visible_correspondences(1), 2);
    assert_eq!(manager.num_visible_correspondences(0), 0);
}

#[test]
fn register_image_updates_visible_correspondence_stats() {
    let frames = vec![frame(0, 100, 100), frame(1, 100, 100)];
    let pairs = vec![pair(0, 1, &[(0, 0), (1, 1)])];
    let mut reconstruction = reconstruction(&frames);
    let mut manager = ObservationManager::new(&frames, &pairs, &reconstruction);

    assert!(manager.register_image(&frames, &pairs, &mut reconstruction, 0, identity()));

    assert!(reconstruction.poses[0].is_some());
    assert_eq!(manager.num_visible_correspondences(1), 2);
    assert_eq!(manager.num_visible_correspondences(0), 0);
}

#[test]
fn deregister_image_deletes_its_observations_and_refreshes_stats() {
    let frames = vec![frame(0, 100, 100), frame(1, 100, 100), frame(2, 100, 100)];
    let pairs = vec![pair(0, 1, &[(0, 0)]), pair(1, 2, &[(0, 0)])];
    let mut reconstruction = reconstruction(&frames);
    reconstruction.poses[0] = Some(identity());
    reconstruction.poses[1] = Some(identity());
    reconstruction.poses[2] = Some(identity());
    let mut manager = ObservationManager::new(&frames, &pairs, &reconstruction);
    manager
        .add_point3d(
            &frames,
            &pairs,
            &mut reconstruction,
            point([0.0, 0.0, 1.0], &[(0, 0), (1, 0), (2, 0)]),
        )
        .unwrap();

    assert!(manager.deregister_image(&frames, &pairs, &mut reconstruction, 0));

    assert!(reconstruction.poses[0].is_none());
    assert_eq!(reconstruction.points.len(), 1);
    assert_eq!(reconstruction.points[0].track.len(), 2);
    assert_eq!(reconstruction.observations[0][0], None);
    assert_eq!(reconstruction.observations[1][0], Some(0));
    assert_eq!(reconstruction.observations[2][0], Some(0));
    assert_eq!(manager.num_visible_correspondences(1), 1);
    assert_eq!(manager.num_visible_correspondences(0), 1);
}

#[test]
fn add_point3d_updates_pair_visibility_and_modified_state() {
    let frames = vec![frame(0, 100, 100), frame(1, 100, 100), frame(2, 100, 100)];
    let pairs = vec![pair(0, 1, &[(0, 0)]), pair(1, 2, &[(0, 0)])];
    let mut reconstruction = reconstruction(&frames);
    reconstruction.poses[0] = Some(identity());
    reconstruction.poses[1] = Some(identity());
    let mut manager = ObservationManager::new(&frames, &pairs, &reconstruction);

    let point_id = manager
        .add_point3d(
            &frames,
            &pairs,
            &mut reconstruction,
            point([0.0, 0.0, 1.0], &[(0, 0), (1, 0)]),
        )
        .unwrap();

    assert_eq!(point_id, 0);
    assert_eq!(reconstruction.observations[0][0], Some(0));
    assert_eq!(reconstruction.observations[1][0], Some(0));
    assert_eq!(manager.image_pairs().get(&(0, 1)).unwrap().num_tri_corrs, 1);
    assert_eq!(manager.num_visible_points3d(2), 1);
    assert_eq!(manager.num_correspondences_have_point3d(2, 0), 1);
    assert!(manager.point3d_visibility_score(2) > 0);
    assert!(manager.modified_point3d_ids().contains(&0));
}

#[test]
fn delete_observation_on_two_view_track_deletes_point3d() {
    let frames = vec![frame(0, 100, 100), frame(1, 100, 100)];
    let pairs = vec![pair(0, 1, &[(0, 0)])];
    let mut reconstruction = reconstruction(&frames);
    reconstruction.poses[0] = Some(identity());
    reconstruction.poses[1] = Some(identity());
    let mut manager = ObservationManager::new(&frames, &pairs, &reconstruction);
    manager
        .add_point3d(
            &frames,
            &pairs,
            &mut reconstruction,
            point([0.0, 0.0, 1.0], &[(0, 0), (1, 0)]),
        )
        .unwrap();

    assert!(manager.delete_observation(&frames, &pairs, &mut reconstruction, 0, 0));

    assert!(reconstruction.points.is_empty());
    assert!(reconstruction.point_ids.is_empty());
    assert_eq!(reconstruction.observations[0][0], None);
    assert_eq!(reconstruction.observations[1][0], None);
    assert_eq!(manager.image_pairs().get(&(0, 1)).unwrap().num_tri_corrs, 0);
}

#[test]
fn delete_observation_on_three_view_track_keeps_two_view_point() {
    let frames = vec![frame(0, 100, 100), frame(1, 100, 100), frame(2, 100, 100)];
    let pairs = vec![pair(0, 1, &[(0, 0)]), pair(1, 2, &[(0, 0)]), pair(0, 2, &[(0, 0)])];
    let mut reconstruction = reconstruction(&frames);
    reconstruction.poses[0] = Some(identity());
    reconstruction.poses[1] = Some(identity());
    reconstruction.poses[2] = Some(identity());
    let mut manager = ObservationManager::new(&frames, &pairs, &reconstruction);
    manager
        .add_point3d(
            &frames,
            &pairs,
            &mut reconstruction,
            point([0.0, 0.0, 1.0], &[(0, 0), (1, 0), (2, 0)]),
        )
        .unwrap();

    assert!(manager.delete_observation(&frames, &pairs, &mut reconstruction, 2, 0));

    assert_eq!(reconstruction.points.len(), 1);
    assert_eq!(reconstruction.points[0].track.len(), 2);
    assert_eq!(reconstruction.observations[2][0], None);
    assert_eq!(manager.image_pairs().get(&(0, 1)).unwrap().num_tri_corrs, 1);
    assert_eq!(manager.image_pairs().get(&(0, 2)).unwrap().num_tri_corrs, 0);
}

#[test]
fn merge_points3d_reassigns_tracks_and_pair_stats() {
    let frames =
        vec![frame(0, 100, 100), frame(1, 100, 100), frame(2, 100, 100), frame(3, 100, 100)];
    let pairs = vec![pair(0, 1, &[(0, 0)]), pair(1, 2, &[(0, 0)]), pair(2, 3, &[(0, 0)])];
    let mut reconstruction = reconstruction(&frames);
    for pose in &mut reconstruction.poses {
        *pose = Some(identity());
    }
    let mut manager = ObservationManager::new(&frames, &pairs, &reconstruction);
    let first = manager
        .add_point3d(
            &frames,
            &pairs,
            &mut reconstruction,
            point([0.0, 0.0, 1.0], &[(0, 0), (1, 0)]),
        )
        .unwrap();
    let second = manager
        .add_point3d(
            &frames,
            &pairs,
            &mut reconstruction,
            point([0.1, 0.0, 1.0], &[(2, 0), (3, 0)]),
        )
        .unwrap();

    let merged = manager
        .merge_points3d(
            &frames,
            &pairs,
            &mut reconstruction,
            first,
            second,
            point([0.05, 0.0, 1.0], &[(0, 0), (1, 0), (2, 0), (3, 0)]),
        )
        .unwrap();

    assert_eq!(merged, 0);
    assert_eq!(reconstruction.points.len(), 1);
    assert_eq!(reconstruction.points[0].track.len(), 4);
    assert_eq!(reconstruction.observations[2][0], Some(0));
    assert_eq!(reconstruction.observations[3][0], Some(0));
    assert_eq!(manager.image_pairs().get(&(1, 2)).unwrap().num_tri_corrs, 1);
    assert_eq!(manager.image_pairs().get(&(2, 3)).unwrap().num_tri_corrs, 1);
    assert!(manager.modified_point3d_ids().contains(&0));
}

#[test]
fn managers_start_empty() {
    let manager = ObservationManager::default();

    assert_eq!(manager.num_observations(0), 0);
    assert_eq!(manager.point3d_visibility_score(0), 0);
    assert!(manager.modified_point3d_ids().is_empty());
    assert_eq!(manager.image_pairs().get(&(0, 1)), None);
    assert_eq!(PairStats::default().get(&(0, 1)), None);
    let none = ImagePairStat { num_tri_corrs: 0, num_total_corrs: 0 };
    assert_eq!(ImagePairStat::default(), none);
    assert_eq!(ImageStat::default().num_correspondences, 0);
    assert_eq!(ImageStat::default().point3d_visibility_score, 0);
}

#[test]
fn cloned_managers_are_independent() {
    let frames = vec![frame(0, 100, 100), frame(1, 100, 100)];
    let pairs = vec![pair(0, 1, &[(0, 0), (1, 1)])];
    let mut reconstruction = reconstruction(&frames);
    reconstruction.poses[0] = Some(identity());
    let mut manager = ObservationManager::new(&frames, &pairs, &reconstruction);
    manager.mark_point3d_modified(4);

    let copy = manager.clone();
    manager.mark_point3d_modified(5);
    reconstruction.poses[0] = None;
    manager.rebuild(&frames, &pairs, &reconstruction);

    assert_eq!(copy.num_visible_correspondences(1), 2);
    assert_eq!(manager.num_visible_correspondences(1), 0);
    assert_eq!(copy.num_correspondences(0), 2);
    assert_eq!(copy.image_pairs().get(&(0, 1)).unwrap().num_total_corrs, 2);
    assert!(copy.modified_point3d_ids().contains(&4));
    assert!(!copy.modified_point3d_ids().contains(&5));
}
