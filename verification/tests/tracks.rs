use rustsfm::colors::{
    black_colors, extract_colors_for_all_registered_images, extract_colors_for_registration_unit,
    images_to_sample, registered_color_sum, ColorExtractionReport,
};
use rustsfm::config::MapperConfig;
use rustsfm::global_ba::{
    global_ba_gauge_images, should_run_global_ba, GlobalBaSchedule, GlobalRefinement,
    GlobalRefinementAction, GlobalRefinementEvent, RatioHits,
};
use rustsfm::initial_pair::TWO_VIEW_CALIBRATED;
use rustsfm::local_bundle::{
    local_neighborhood, point_indices_for_stable_point_ids, select_local_bundle, LocalBundleRound,
};
use rustsfm::observation_manager::ObservationManager;
use rustsfm::registration_stats::RegistrationStats;
use rustsfm::registration_units::registered_frame_count;
use rustsfm::scalar::{Real32, Real64};
use rustsfm::structureless::{
    accept_structureless_inliers, apply_structureless_decision,
    compatible_structureless_constraints, continuation_candidates,
    enough_structureless_correspondences, group_end, order_structureless_inliers,
    structureless_candidates, structureless_decision, structureless_min_num_inliers,
    structureless_pose_supported, structureless_support, structureless_track, ContinuationFit,
    CreationFit, StructurelessDecision, StructurelessInlier, StructurelessProblem,
    StructurelessReport, StructurelessSupport,
};
use rustsfm::track_filter::{ObservationCheck, ObservationOutcome, TrackFilter, TrackFit};
use rustsfm::types::{
    CameraModel, Frame, ImageFrame, Keypoint, Match, PairGeometry, Point3D, Pose, Reconstruction,
    RelativeGeometry, Rigid3, TrackObservation,
};

fn single(x: f32) -> Real32 {
    Real32 { bits: x.to_bits() }
}

fn double(x: f64) -> Real64 {
    Real64 { bits: x.to_bits() }
}

fn pose(x: f32, y: f32, z: f32) -> Pose {
    Pose {
        qw: single(1.0),
        qx: single(0.0),
        qy: single(0.0),
        qz: single(0.0),
        tx: single(x),
        ty: single(y),
        tz: single(z),
    }
}

fn identity() -> Pose {
    pose(0.0, 0.0, 0.0)
}

fn rigid(translation: [f64; 3]) -> Rigid3 {
    Rigid3 {
        qvec: [double(1.0), double(0.0), double(0.0), double(0.0)],
        tvec: translation.map(double),
    }
}

fn pinhole(width: u32, height: u32, fx: f32, fy: f32, cx: f32, cy: f32) -> CameraModel {
    let mut params = [double(0.0); 12];
    for (slot, value) in params.iter_mut().zip([fx, fy, cx, cy]) {
        *slot = double(value as f64);
    }
    let ratio = fx / width.max(height) as f32;
    CameraModel {
        model_id: 1,
        width,
        height,
        params,
        num_params: 4,
        bogus: !(0.1..=10.0).contains(&ratio),
    }
}

fn usual_camera() -> CameraModel {
    pinhole(100, 100, 50.0, 50.0, 50.0, 50.0)
}

fn keypoint(x: f32, y: f32, width: u32, height: u32) -> Keypoint {
    Keypoint {
        x: single(x),
        y: single(y),
        cell_x: ((x / width as f32) * 32.0).clamp(0.0, 31.0) as u8,
        cell_y: ((y / height as f32) * 32.0).clamp(0.0, 31.0) as u8,
    }
}

fn observation(image: usize, feature: usize) -> TrackObservation {
    TrackObservation { image, feature }
}

fn point(xyz: [f32; 3], track: &[(usize, usize)]) -> Point3D {
    Point3D {
        xyz: xyz.map(single),
        color: [0, 0, 0],
        error: single(0.0),
        track: track.iter().map(|&(image, feature)| observation(image, feature)).collect(),
    }
}

fn relative(translation: [f32; 3]) -> RelativeGeometry {
    let norm = translation.iter().map(|t| t * t).sum::<f32>().sqrt();
    let forward_motion = if norm <= f32::EPSILON || !norm.is_finite() {
        f32::INFINITY
    } else {
        (translation[2] / norm).abs()
    };
    RelativeGeometry {
        pose: pose(translation[0], translation[1], translation[2]),
        h_matrix: None,
        qvec: None,
        tvec: None,
        forward_motion: single(forward_motion),
    }
}

fn test_pair(
    left: usize,
    right: usize,
    inliers: usize,
    triangulated: usize,
    median_triangulation_angle_deg: f32,
    translation: [f32; 3],
) -> PairGeometry {
    PairGeometry {
        left,
        right,
        two_view_config: TWO_VIEW_CALIBRATED,
        f_matrix: None,
        e_matrix: None,
        forward: relative(translation),
        backward: relative(translation.map(|t| -t)),
        matches: Vec::new(),
        inlier_matches: Vec::new(),
        inliers,
        triangulated,
        mean_reprojection_error_px: single(1.0),
        rotation_deg: single(0.0),
        median_triangulation_angle_deg: single(median_triangulation_angle_deg),
        pose_graph_only: false,
    }
}

fn matched(query_idx: u32, train_idx: u32) -> Match {
    Match { query_idx, train_idx, distance: single(0.0) }
}

fn pair_with_inliers(left: usize, right: usize, matches: &[(u32, u32)]) -> PairGeometry {
    let mut pair = test_pair(left, right, matches.len(), 0, 1.0, [1.0, 0.0, 0.0]);
    pair.inlier_matches = matches.iter().map(|&(query, train)| matched(query, train)).collect();
    pair
}

fn minimal_frame(id: usize, name: &str) -> ImageFrame {
    ImageFrame {
        id,
        name: name.to_string(),
        width: 100,
        height: 100,
        keypoints: vec![keypoint(0.0, 0.0, 100, 100), keypoint(1.0, 1.0, 100, 100)],
        strong_feature_indices: Vec::new(),
        colors: vec![[0, 0, 0], [0, 0, 0]],
    }
}

fn minimal_frames(count: usize) -> Vec<ImageFrame> {
    (0..count).map(|idx| minimal_frame(idx, &format!("image_{idx}.jpg"))).collect()
}

fn structureless_frames(count: usize) -> Vec<ImageFrame> {
    (0..count)
        .map(|idx| {
            let mut frame = minimal_frame(idx, &format!("image_{idx}.jpg"));
            frame.keypoints = (0..64)
                .map(|feature| {
                    let col = (feature % 8) as f32;
                    let row = (feature / 8) as f32;
                    keypoint(10.0 + col * 8.0, 12.0 + row * 7.0, 100, 100)
                })
                .collect();
            frame.colors = vec![[0, 0, 0]; frame.keypoints.len()];
            frame
        })
        .collect()
}

fn test_reconstruction(frames: &[ImageFrame]) -> Reconstruction {
    Reconstruction {
        camera: usual_camera(),
        cameras: vec![usual_camera()],
        camera_ids: vec![1],
        rigs: Vec::new(),
        frames: Vec::new(),
        image_names: frames.iter().map(|frame| frame.name.clone()).collect(),
        image_ids: (0..frames.len()).map(|idx| idx as u32 + 1).collect(),
        image_camera_indices: vec![0; frames.len()],
        image_frame_indices: vec![None; frames.len()],
        poses: vec![None; frames.len()],
        observations: frames.iter().map(|frame| vec![None; frame.keypoints.len()]).collect(),
        keypoints: frames.iter().map(|frame| frame.keypoints.clone()).collect(),
        point_ids: Vec::new(),
        points: Vec::new(),
    }
}

fn register_all(reconstruction: &mut Reconstruction) {
    for pose in &mut reconstruction.poses {
        *pose = Some(identity());
    }
}

fn add_point(reconstruction: &mut Reconstruction, xyz: [f32; 3], track: &[(usize, usize)]) {
    let index = reconstruction.points.len();
    for &(image, feature) in track {
        reconstruction.observations[image][feature] = Some(index);
    }
    reconstruction.point_ids.push(index as u64 + 1);
    reconstruction.points.push(point(xyz, track));
}

fn bare_frame(frame_id: u32, rig_id: u32) -> Frame {
    Frame { frame_id, rig_id, rig_from_world: rigid([0.0, 0.0, 0.0]), data_ids: Vec::new() }
}

fn registration_stats(reconstruction: &Reconstruction) -> RegistrationStats {
    RegistrationStats::from_reconstruction(reconstruction)
}

#[test]
fn color_extraction_policy_controls_frame_color_sampling_like_colmap() {
    let mut frames = vec![minimal_frame(0, "a.jpg"), minimal_frame(1, "b.jpg")];
    frames[0].colors = vec![[10, 20, 30], [40, 50, 60]];
    frames[1].colors = vec![[70, 80, 90], [100, 110, 120]];

    assert!(images_to_sample(&frames, false).is_empty());
    assert_eq!(black_colors(&frames[0]), vec![[0, 0, 0], [0, 0, 0]]);
    assert_eq!(black_colors(&frames[1]), vec![[0, 0, 0], [0, 0, 0]]);

    frames[0].colors = vec![[1, 2, 3], [4, 5, 6]];
    assert!(images_to_sample(&frames, true).is_empty());
    assert_eq!(frames[0].colors, vec![[1, 2, 3], [4, 5, 6]]);
    frames[1].colors.pop();
    assert_eq!(images_to_sample(&frames, true), vec![1]);
}

#[test]
fn per_registration_color_extraction_only_updates_black_points_like_colmap() {
    let mut frames = vec![minimal_frame(0, "a.jpg"), minimal_frame(1, "b.jpg")];
    frames[0].colors = vec![[10, 20, 30], [40, 50, 60]];
    frames[1].colors = vec![[70, 80, 90], [100, 110, 120]];
    let mut reconstruction = test_reconstruction(&frames);
    register_all(&mut reconstruction);
    add_point(&mut reconstruction, [0.0, 0.0, 2.0], &[(0, 0), (1, 0)]);
    add_point(&mut reconstruction, [0.1, 0.0, 2.0], &[(0, 1)]);
    reconstruction.points[1].color = [9, 9, 9];

    let report = extract_colors_for_registration_unit(
        &frames,
        &mut reconstruction,
        0,
        &MapperConfig::default(),
    );

    assert_eq!(report, ColorExtractionReport { images: 1, updated_points: 1 });
    assert_eq!(reconstruction.points[0].color, [10, 20, 30]);
    assert_eq!(reconstruction.points[1].color, [9, 9, 9]);

    let report = extract_colors_for_registration_unit(
        &frames,
        &mut reconstruction,
        1,
        &MapperConfig { extract_colors: false, ..MapperConfig::default() },
    );
    assert_eq!(report, ColorExtractionReport { images: 0, updated_points: 0 });
    assert_eq!(reconstruction.points[0].color, [10, 20, 30]);
}

fn mean_colors(frames: &[ImageFrame], reconstruction: &Reconstruction) -> Vec<[u8; 3]> {
    (0..reconstruction.points.len())
        .map(|point| {
            let sum = registered_color_sum(frames, reconstruction, point);
            let count = sum.count.max(1) as f64;
            [sum.red, sum.green, sum.blue].map(|channel| (channel as f64 / count).round() as u8)
        })
        .collect()
}

#[test]
fn final_all_image_color_extraction_averages_registered_track_colors_like_colmap() {
    let mut frames = vec![minimal_frame(0, "a.jpg"), minimal_frame(1, "b.jpg")];
    frames[0].colors = vec![[10, 20, 30], [40, 50, 60]];
    frames[1].colors = vec![[70, 80, 90], [100, 110, 120]];
    let mut reconstruction = test_reconstruction(&frames);
    register_all(&mut reconstruction);
    add_point(&mut reconstruction, [0.0, 0.0, 2.0], &[(0, 0), (1, 0)]);
    add_point(&mut reconstruction, [0.1, 0.0, 2.0], &[(1, 1)]);
    reconstruction.points[0].color = [255, 0, 0];
    reconstruction.points[1].color = [9, 9, 9];
    let means = mean_colors(&frames, &reconstruction);

    let report = extract_colors_for_all_registered_images(
        &frames,
        &mut reconstruction,
        &MapperConfig::default(),
        &means,
    );

    assert_eq!(report, ColorExtractionReport { images: 2, updated_points: 2 });
    assert_eq!(reconstruction.points[0].color, [40, 50, 60]);
    assert_eq!(reconstruction.points[1].color, [100, 110, 120]);

    let report = extract_colors_for_all_registered_images(
        &frames,
        &mut reconstruction,
        &MapperConfig { extract_colors: false, ..MapperConfig::default() },
        &means,
    );
    assert_eq!(report, ColorExtractionReport { images: 0, updated_points: 0 });
}

#[test]
fn points_without_registered_images_turn_black() {
    let mut frames = vec![minimal_frame(0, "a.jpg"), minimal_frame(1, "b.jpg")];
    frames[0].colors = vec![[10, 20, 30], [40, 50, 60]];
    let mut reconstruction = test_reconstruction(&frames);
    reconstruction.poses[1] = Some(identity());
    add_point(&mut reconstruction, [0.0, 0.0, 2.0], &[(0, 0)]);
    reconstruction.points[0].color = [7, 7, 7];
    let means = mean_colors(&frames, &reconstruction);

    let report = extract_colors_for_all_registered_images(
        &frames,
        &mut reconstruction,
        &MapperConfig::default(),
        &means,
    );

    assert_eq!(report.updated_points, 1);
    assert_eq!(reconstruction.points[0].color, [0, 0, 0]);
}

fn one_feature_frames() -> Vec<ImageFrame> {
    let mut frames = vec![
        minimal_frame(0, "registered_a.jpg"),
        minimal_frame(1, "candidate.jpg"),
        minimal_frame(2, "registered_b.jpg"),
    ];
    for frame in &mut frames {
        frame.width = 200;
        frame.height = 160;
        frame.keypoints.truncate(1);
        frame.colors.truncate(1);
    }
    frames
}

fn candidate_inliers() -> Vec<StructurelessInlier> {
    [0, 2]
        .iter()
        .map(|&other| StructurelessInlier { image: 1, feature: 0, other, other_feature: 0 })
        .collect()
}

#[test]
fn structureless_tracks_continue_existing_point_after_registration() {
    let frames = one_feature_frames();
    let mut reconstruction = test_reconstruction(&frames);
    register_all(&mut reconstruction);
    add_point(&mut reconstruction, [0.0, 0.0, 3.0], &[(0, 0), (2, 0)]);
    let mut manager = ObservationManager::new(&frames, &[], &reconstruction);
    let list = order_structureless_inliers(&candidate_inliers(), &frames, &reconstruction);
    let end = group_end(&list, 0);

    assert_eq!(end, 2);
    let points = continuation_candidates(&reconstruction, &list, 0, end);
    assert_eq!(points, vec![0, 0]);
    let far = ContinuationFit { error: single(8.5), track_ok: true, refit: None };
    let near = ContinuationFit { error: single(8.0), track_ok: true, refit: None };
    let fits = [far, near];
    let config = MapperConfig::default();
    let decision = structureless_decision(&points, &fits, None, None, &config);
    let mut report = StructurelessReport { continued_observations: 0, created_points: 0 };
    apply_structureless_decision(
        &frames,
        &[],
        &mut reconstruction,
        &mut manager,
        1,
        0,
        decision,
        &mut report,
    );

    assert_eq!(report.continued_observations, 1);
    assert_eq!(report.created_points, 0);
    assert_eq!(reconstruction.observations[1][0], Some(0));
    assert!(reconstruction.points[0].track.contains(&observation(1, 0)));
}

#[test]
fn structureless_tracks_triangulate_new_point_from_inlier_group() {
    let frames = one_feature_frames();
    let mut reconstruction = test_reconstruction(&frames);
    register_all(&mut reconstruction);
    let mut manager = ObservationManager::new(&frames, &[], &reconstruction);
    let list = order_structureless_inliers(&candidate_inliers(), &frames, &reconstruction);
    let end = group_end(&list, 0);
    assert!(continuation_candidates(&reconstruction, &list, 0, end).is_empty());
    let track = structureless_track(&reconstruction, &list, 0, end).expect("track");
    assert_eq!(track.len(), 3);
    let xyz = [0.05, -0.02, 3.2].map(single);
    let created = CreationFit { xyz, error: single(0.0), track_ok: true };
    let config = MapperConfig::default();
    let decision = structureless_decision(&vec![], &[], Some(track), Some(created), &config);
    let mut report = StructurelessReport { continued_observations: 0, created_points: 0 };
    apply_structureless_decision(
        &frames,
        &[],
        &mut reconstruction,
        &mut manager,
        1,
        0,
        decision,
        &mut report,
    );

    assert_eq!(report.created_points, 1);
    assert_eq!(report.continued_observations, 0);
    assert_eq!(reconstruction.points.len(), 1);
    assert_eq!(reconstruction.points[0].track.len(), 3);
    assert_eq!(reconstruction.observations[1][0], Some(0));
    assert_eq!(reconstruction.points[0].xyz, xyz);
}

#[test]
fn structureless_groups_that_fit_nothing_are_skipped() {
    let frames = one_feature_frames();
    let mut reconstruction = test_reconstruction(&frames);
    register_all(&mut reconstruction);
    let mut manager = ObservationManager::new(&frames, &[], &reconstruction);
    let mut report = StructurelessReport { continued_observations: 0, created_points: 0 };
    let behind = ContinuationFit { error: single(1.0), track_ok: false, refit: None };
    let undefined = ContinuationFit { error: single(f32::NAN), track_ok: true, refit: None };
    let flat = CreationFit { xyz: [single(0.0); 3], error: single(0.0), track_ok: false };
    let config = MapperConfig::default();
    let unlimited = MapperConfig {
        max_reprojection_error_px: single(f32::NAN),
        ..MapperConfig::default()
    };
    let measured = ContinuationFit { error: single(1.0), track_ok: true, refit: None };
    let free = structureless_decision(&vec![0], &[measured], None, None, &unlimited);
    assert!(matches!(free, StructurelessDecision::Continue { point_id: 0, refit: None }));
    let fits = [behind, undefined];
    let track = Some(vec![observation(1, 0), observation(2, 0)]);
    let decision = structureless_decision(&vec![0, 0], &fits, track, Some(flat), &config);
    assert!(matches!(decision, StructurelessDecision::Skip));

    apply_structureless_decision(
        &frames,
        &[],
        &mut reconstruction,
        &mut manager,
        1,
        0,
        decision,
        &mut report,
    );

    assert_eq!(report, StructurelessReport { continued_observations: 0, created_points: 0 });
    assert!(reconstruction.points.is_empty());
}

#[test]
fn structureless_fallback_registers_candidate_without_points3d() {
    let frames = structureless_frames(4);
    let mut reconstruction = test_reconstruction(&frames);
    reconstruction.poses[0] = Some(identity());
    reconstruction.poses[2] = Some(identity());
    let matches: Vec<(u32, u32)> = (0..30).map(|idx| (idx, idx)).collect();
    let pairs = [pair_with_inliers(1, 0, &matches), pair_with_inliers(1, 2, &matches)];
    let config = MapperConfig { abs_pose_min_num_inliers: 20, ..MapperConfig::default() };

    let candidates = structureless_candidates(1, &frames, &pairs, &reconstruction);
    let chosen = compatible_structureless_constraints(
        &[Some(single(0.0)), Some(single(0.1))],
        single(1.0),
    );
    let support = structureless_support(&candidates, &chosen);

    assert_eq!(chosen, vec![0, 1]);
    assert_eq!(support, StructurelessSupport { matches: 60, neighbors: 2 });
    assert_eq!(structureless_min_num_inliers(&config), 40);
    assert!(support.is_enough(&config));
    assert!(structureless_pose_supported(60, 2, single(1.0), &config));
}

#[test]
fn poses_without_points_need_enough_inliers() {
    let config = MapperConfig { abs_pose_min_num_inliers: 1, ..MapperConfig::default() };
    let list: Vec<StructurelessInlier> = (0..3)
        .map(|k| StructurelessInlier { image: 0, feature: k, other: 1, other_feature: k })
        .collect();
    let mut problem = StructurelessProblem {
        world_images: vec![1],
        world_camera_idxs: vec![0; 3],
        correspondences: list.clone(),
    };

    assert!(enough_structureless_correspondences(&problem, &config));
    assert_eq!(
        accept_structureless_inliers(&list, 2, &[true, false, true], &config),
        Some(vec![list[0], list[2]])
    );
    assert_eq!(accept_structureless_inliers(&list, 1, &[true, false, true], &config), None);
    assert_eq!(accept_structureless_inliers(&list, 2, &[false, false, true], &config), None);
    assert_eq!(accept_structureless_inliers(&list, 3, &[true], &config), None);
    problem.correspondences.truncate(1);
    assert!(!enough_structureless_correspondences(&problem, &config));
    assert!(StructurelessSupport { matches: 2, neighbors: 2 }.is_enough(&config));
    assert!(!StructurelessSupport { matches: 1, neighbors: 2 }.is_enough(&config));
    assert!(!StructurelessSupport { matches: 2, neighbors: 1 }.is_enough(&config));
}

#[test]
fn structureless_fallback_requires_two_registered_neighbors() {
    let frames = structureless_frames(3);
    let mut reconstruction = test_reconstruction(&frames);
    reconstruction.poses[0] = Some(identity());
    let matches: Vec<(u32, u32)> = (0..40).map(|idx| (idx, idx)).collect();
    let pairs = [pair_with_inliers(1, 0, &matches)];
    let config = MapperConfig { abs_pose_min_num_inliers: 20, ..MapperConfig::default() };

    let candidates = structureless_candidates(1, &frames, &pairs, &reconstruction);
    let support = structureless_support(&candidates, &vec![0]);

    assert_eq!(support, StructurelessSupport { matches: 40, neighbors: 1 });
    assert!(!structureless_pose_supported(
        support.matches,
        support.neighbors,
        single(1.0),
        &config
    ));
}

#[test]
fn structureless_fallback_skips_bogus_registered_neighbor_camera() {
    let frames = structureless_frames(4);
    let mut reconstruction = test_reconstruction(&frames);
    reconstruction.cameras = vec![usual_camera(), pinhole(100, 100, 1.0, 1.0, 50.0, 50.0)];
    reconstruction.camera_ids = vec![1, 2];
    reconstruction.image_camera_indices = vec![0, 0, 1, 0];
    for image in [0, 2, 3] {
        reconstruction.poses[image] = Some(identity());
    }
    let matches: Vec<(u32, u32)> = (0..20).map(|idx| (idx, idx)).collect();
    let pairs: Vec<PairGeometry> =
        [0, 2, 3].iter().map(|&other| pair_with_inliers(1, other, &matches)).collect();

    let candidates = structureless_candidates(1, &frames, &pairs, &reconstruction);
    let others: Vec<usize> = candidates.iter().map(|candidate| candidate.other).collect();

    assert_eq!(others, vec![0, 3]);
    assert_eq!(structureless_support(&candidates, &vec![0, 1]).matches, 40);
}

fn run_filter(
    frames: &[ImageFrame],
    reconstruction: &mut Reconstruction,
    max_error: f32,
    min_track_length: usize,
    check: impl Fn(&TrackObservation) -> ObservationCheck,
    angle_ok: bool,
) -> usize {
    let mut manager = ObservationManager::new(frames, &[], reconstruction);
    let mut filter = TrackFilter::new();
    while filter.pending(reconstruction) {
        let checks: Vec<ObservationCheck> =
            reconstruction.points[filter.point_id].track.iter().map(&check).collect();
        let outcome = filter.judge_observations(
            frames,
            &[],
            reconstruction,
            &mut manager,
            &checks,
            single(max_error),
            min_track_length,
        );
        if outcome == ObservationOutcome::Kept {
            let fit =
                TrackFit { angle_ok, retriangulated: None, mean_error: Some(single(0.0)) };
            filter.judge_track(frames, &[], reconstruction, &mut manager, fit);
        }
    }
    filter.removed
}

fn good_observation(_: &TrackObservation) -> ObservationCheck {
    ObservationCheck { positive_depth: true, error: single(0.0) }
}

#[test]
fn track_filter_removes_negative_depth_observation_and_keeps_valid_track() {
    let frames = minimal_frames(3);
    let mut reconstruction = test_reconstruction(&frames);
    register_all(&mut reconstruction);
    add_point(&mut reconstruction, [0.0, 0.0, 2.0], &[(0, 0), (1, 0), (2, 0)]);
    reconstruction.point_ids = vec![7];

    let removed = run_filter(
        &frames,
        &mut reconstruction,
        1.0,
        2,
        |obs| ObservationCheck { positive_depth: obs.image != 1, error: single(0.0) },
        true,
    );

    assert_eq!(removed, 1);
    assert_eq!(reconstruction.points.len(), 1);
    assert_eq!(
        reconstruction.points[0].track.iter().map(|obs| obs.image).collect::<Vec<_>>(),
        vec![0, 2]
    );
    assert_eq!(reconstruction.observations[1][0], None);
    assert_eq!(reconstruction.point_ids, vec![7]);
}

#[test]
fn track_filter_removes_tracks_observed_by_bogus_camera() {
    let frames = minimal_frames(2);
    let mut reconstruction = test_reconstruction(&frames);
    reconstruction.cameras = vec![usual_camera(), pinhole(100, 100, 1.0, 1.0, 50.0, 50.0)];
    reconstruction.camera_ids = vec![1, 2];
    reconstruction.image_camera_indices = vec![0, 1];
    register_all(&mut reconstruction);
    add_point(&mut reconstruction, [0.0, 0.0, 2.0], &[(0, 0), (1, 0)]);

    let removed = run_filter(&frames, &mut reconstruction, 4.0, 2, good_observation, true);

    assert_eq!(removed, 2);
    assert!(reconstruction.points.is_empty());
    assert_eq!(reconstruction.observations[0][0], None);
    assert_eq!(reconstruction.observations[1][0], None);
}

#[test]
fn track_filter_removes_small_triangulation_angle_track() {
    let frames = minimal_frames(2);
    let mut reconstruction = test_reconstruction(&frames);
    register_all(&mut reconstruction);
    add_point(&mut reconstruction, [0.0, 0.0, 20.0], &[(0, 0), (1, 0)]);

    let removed = run_filter(&frames, &mut reconstruction, 1.0, 2, good_observation, false);

    assert_eq!(removed, 2);
    assert!(reconstruction.points.is_empty());
    assert_eq!(reconstruction.observations[0][0], None);
    assert_eq!(reconstruction.observations[1][0], None);
}

#[test]
fn track_filter_prunes_short_tracks_when_min_length_is_raised() {
    let frames = minimal_frames(2);
    let mut reconstruction = test_reconstruction(&frames);
    register_all(&mut reconstruction);
    add_point(&mut reconstruction, [0.0, 0.0, 2.0], &[(0, 0), (1, 0)]);

    let removed = run_filter(&frames, &mut reconstruction, 1.0, 3, good_observation, true);

    assert_eq!(removed, 2);
    assert!(reconstruction.points.is_empty());
}

#[test]
fn filtered_models_account_for_every_observation() {
    let frames = minimal_frames(4);
    let mut reconstruction = test_reconstruction(&frames);
    register_all(&mut reconstruction);
    reconstruction.poses[3] = None;
    add_point(&mut reconstruction, [0.0; 3], &[(0, 0), (1, 0), (2, 0), (3, 0)]);
    add_point(&mut reconstruction, [0.0; 3], &[(0, 1), (3, 1)]);
    add_point(&mut reconstruction, [0.0; 3], &[(1, 1), (2, 1)]);

    let removed = run_filter(&frames, &mut reconstruction, 1.0, 3, good_observation, true);

    let left: usize = reconstruction.points.iter().map(|point| point.track.len()).sum();
    assert_eq!(left, 3);
    assert_eq!(removed, 8 - left);
    assert!(reconstruction.points[0].track.iter().all(|obs| obs.image != 3));
    assert_eq!(run_filter(&frames, &mut reconstruction, 1.0, 3, good_observation, true), 0);
    assert_eq!(reconstruction.points[0].track.len(), 3);
}

#[test]
fn features_are_counted_once_among_groups() {
    let frames = minimal_frames(3);
    let mut reconstruction = test_reconstruction(&frames);
    register_all(&mut reconstruction);
    add_point(&mut reconstruction, [0.0; 3], &[(0, 0), (2, 1)]);
    let taken = reconstruction.observations.clone();
    let mut manager = ObservationManager::new(&frames, &[], &reconstruction);
    let mut report = StructurelessReport { continued_observations: 0, created_points: 0 };
    let decisions = [
        StructurelessDecision::Continue { point_id: 0, refit: None },
        StructurelessDecision::Continue { point_id: 0, refit: None },
        StructurelessDecision::Create {
            xyz: [single(1.0); 3],
            error: single(0.0),
            track: vec![observation(1, 0), observation(2, 0)],
        },
    ];
    for decision in decisions {
        apply_structureless_decision(
            &frames,
            &[],
            &mut reconstruction,
            &mut manager,
            1,
            0,
            decision,
            &mut report,
        );
    }
    let created = StructurelessDecision::Create {
        xyz: [single(1.0); 3],
        error: single(0.0),
        track: vec![observation(1, 1), observation(2, 0)],
    };
    apply_structureless_decision(
        &frames,
        &[],
        &mut reconstruction,
        &mut manager,
        1,
        1,
        created,
        &mut report,
    );

    assert_eq!(report.continued_observations, 1);
    assert_eq!(report.created_points, 1);
    assert_eq!(reconstruction.points.len(), 1 + report.created_points);
    for (row, before) in reconstruction.observations.iter().zip(&taken) {
        assert!(row.iter().zip(before).all(|(now, then)| then.is_none() || now == then));
    }
}

#[test]
fn track_filter_keeps_good_tracks() {
    let frames = minimal_frames(3);
    let mut reconstruction = test_reconstruction(&frames);
    register_all(&mut reconstruction);
    add_point(&mut reconstruction, [0.0, 0.0, 2.0], &[(0, 0), (1, 0)]);
    add_point(&mut reconstruction, [0.0, 0.0, 2.0], &[(1, 1), (2, 1)]);

    let removed = run_filter(&frames, &mut reconstruction, 1.0, 2, good_observation, true);

    assert_eq!(removed, 0);
    assert_eq!(reconstruction.points.len(), 2);
}

#[test]
fn local_bundle_selection_uses_shared_points_and_excludes_gauge_image() {
    let frames = minimal_frames(4);
    let mut reconstruction = test_reconstruction(&frames);
    register_all(&mut reconstruction);
    for index in 0..4 {
        reconstruction.points.push(point(
            [index as f32 * 0.1, 0.0, 2.0],
            &[(1, 0), (2, 0), (0, 0)],
        ));
        reconstruction.point_ids.push(index as u64 + 1);
    }
    reconstruction.points.push(point([1.0, 0.0, 2.0], &[(1, 1), (3, 1)]));
    reconstruction.point_ids.push(5);
    let long_track: Vec<(usize, usize)> =
        (0..16).map(|idx| (if idx == 0 { 1 } else { 2 }, 1)).collect();
    reconstruction.points.push(point([0.5, 0.0, 2.0], &long_track));
    reconstruction.points[5].error = single(1.0);
    reconstruction.point_ids.push(6);

    let neighborhood = local_neighborhood(&reconstruction, 1, 0, 2, 2).unwrap();
    let images: Vec<usize> =
        neighborhood.neighbors.iter().map(|neighbor| neighbor.image).collect();
    assert_eq!(images, vec![2, 3]);
    let selection = select_local_bundle(
        &reconstruction,
        neighborhood,
        1,
        0,
        2,
        2,
        &[Some(single(26.0)), Some(single(0.3))],
        &[LocalBundleRound { min_angle: single(6.0), min_shared: 2 }],
        15,
    )
    .unwrap();

    assert_eq!(selection.variable_images, vec![1, 2]);
    assert_eq!(selection.local_images, vec![2]);
    assert_eq!(selection.point_ids, vec![0, 1, 2, 3, 4]);
    assert_eq!(selection.constant_point_ids, vec![5]);
    assert_eq!(selection.stable_point_ids, vec![1, 2, 3, 4, 5, 6]);
    assert_eq!(
        point_indices_for_stable_point_ids(&reconstruction, &selection.stable_point_ids),
        vec![0, 1, 2, 3, 4, 5]
    );
}

fn ratio_hits(
    schedule: &GlobalBaSchedule,
    reconstruction: &Reconstruction,
    config: &MapperConfig,
) -> RatioHits {
    let images_ratio = f32::from_bits(config.global_ba_images_ratio.bits);
    let points_ratio = f32::from_bits(config.global_ba_points_ratio.bits);
    RatioHits {
        images: registered_frame_count(reconstruction) as f32
            >= schedule.prev_registered_frames as f32 * images_ratio,
        points: reconstruction.points.len() as f32 >= schedule.prev_points as f32 * points_ratio,
    }
}

fn global_ba_due(
    schedule: &GlobalBaSchedule,
    reconstruction: &Reconstruction,
    config: &MapperConfig,
) -> bool {
    let hits = ratio_hits(schedule, reconstruction, config);
    should_run_global_ba(schedule, reconstruction, config, hits)
}

#[test]
fn global_ba_schedule_triggers_on_image_or_point_growth() {
    let frames = minimal_frames(3);
    let mut reconstruction = test_reconstruction(&frames);
    reconstruction.poses[0] = Some(identity());
    reconstruction.poses[1] = Some(identity());
    add_point(&mut reconstruction, [0.0, 0.0, 2.0], &[(0, 0), (1, 0)]);
    let mut schedule = GlobalBaSchedule::new(&reconstruction);
    let config = MapperConfig {
        global_ba_images_freq: 999,
        global_ba_points_freq: 999,
        global_ba_images_ratio: single(1.1),
        global_ba_points_ratio: single(1.1),
        ..MapperConfig::default()
    };

    assert!(!global_ba_due(&schedule, &reconstruction, &config));

    reconstruction.poses[2] = Some(identity());
    add_point(&mut reconstruction, [0.1, 0.0, 2.0], &[(0, 1), (2, 1)]);

    assert!(global_ba_due(&schedule, &reconstruction, &config));

    schedule.mark(&reconstruction);
    assert!(!global_ba_due(&schedule, &reconstruction, &config));
}

#[test]
fn global_ba_schedule_counts_registered_frames_not_frame_images() {
    let frames = minimal_frames(3);
    let mut reconstruction = test_reconstruction(&frames);
    reconstruction.frames = vec![bare_frame(9, 3)];
    reconstruction.image_frame_indices[0] = Some(0);
    reconstruction.image_frame_indices[1] = Some(0);
    reconstruction.poses[0] = Some(identity());
    reconstruction.poses[1] = Some(identity());
    add_point(&mut reconstruction, [0.0, 0.0, 2.0], &[(0, 0), (1, 0)]);
    let schedule = GlobalBaSchedule::new(&reconstruction);
    let config = MapperConfig {
        global_ba_images_freq: 1,
        global_ba_points_freq: 999,
        global_ba_images_ratio: single(10.0),
        global_ba_points_ratio: single(10.0),
        ..MapperConfig::default()
    };

    assert!(!global_ba_due(&schedule, &reconstruction, &config));

    reconstruction.poses[2] = Some(identity());
    assert!(global_ba_due(&schedule, &reconstruction, &config));
}

#[test]
fn global_ba_gauge_images_use_registered_images_not_zero_index() {
    let frames = minimal_frames(4);
    let mut reconstruction = test_reconstruction(&frames);
    reconstruction.poses[2] = Some(identity());
    reconstruction.poses[3] = Some(identity());

    assert_eq!(global_ba_gauge_images(&reconstruction), vec![2, 3]);
}

#[test]
fn global_ba_gauge_images_use_distinct_registration_units() {
    let frames = minimal_frames(3);
    let mut reconstruction = test_reconstruction(&frames);
    reconstruction.frames = vec![bare_frame(9, 3)];
    reconstruction.image_frame_indices[0] = Some(0);
    reconstruction.image_frame_indices[1] = Some(0);
    register_all(&mut reconstruction);

    assert_eq!(global_ba_gauge_images(&reconstruction), vec![0, 2]);
}

#[test]
fn global_refinement_goes_on_until_little_changes() {
    let frames = minimal_frames(2);
    let mut reconstruction = test_reconstruction(&frames);
    register_all(&mut reconstruction);
    add_point(&mut reconstruction, [0.0, 0.0, 2.0], &[(0, 0), (1, 0)]);
    let config = MapperConfig {
        global_ba_max_refinements: 5,
        global_ba_max_refinement_change: single(0.0005),
        ..MapperConfig::default()
    };
    let stats = registration_stats(&reconstruction);

    let (mut refinement, action) = GlobalRefinement::start(&reconstruction, &config);
    assert!(matches!(action, GlobalRefinementAction::Prepare));
    let mut events = vec![
        GlobalRefinementEvent::Prepared,
        GlobalRefinementEvent::Adjusted,
        GlobalRefinementEvent::Postprocessed { changed: single(0.5) },
        GlobalRefinementEvent::Adjusted,
        GlobalRefinementEvent::Postprocessed { changed: single(0.0001) },
    ]
    .into_iter();
    let mut adjustments = 0;
    loop {
        let event = events.next().expect("a refinement of two rounds");
        match refinement.advance(event, &reconstruction, &config, &stats) {
            GlobalRefinementAction::Adjust { gauge_images, constant_images, observations } => {
                adjustments += 1;
                assert_eq!(gauge_images, vec![0, 1]);
                assert!(constant_images.is_empty());
                assert_eq!(observations, 2);
            }
            GlobalRefinementAction::Finish => break,
            _ => {}
        }
    }

    assert_eq!(adjustments, 2);
    assert!(refinement.attempted());
}

#[test]
fn global_refinement_needs_images_and_points() {
    let frames = minimal_frames(2);
    let reconstruction = test_reconstruction(&frames);

    let (refinement, action) =
        GlobalRefinement::start(&reconstruction, &MapperConfig::default());

    assert!(matches!(action, GlobalRefinementAction::Finish));
    assert!(refinement.finished);
    assert!(!refinement.attempted());
}
