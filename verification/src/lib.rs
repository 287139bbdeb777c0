//! Incremental structure-from-motion mapping: bookkeeping of observations and
//! tracks, selection of the images to register, bundle selection and the
//! controllers that drive a reconstruction from a seed pair to a full model.

pub mod absolute_pose;
pub mod ascending;
pub mod attempt_laws;
pub mod bundle_laws;
pub mod bundle_options;
pub mod camera_laws;
pub mod camera_selection;
pub mod camera_setup;
pub mod colors;
pub mod config;
pub mod count_laws;
pub mod database_keypoints;
pub mod database_records;
pub mod deregistration_laws;
pub mod disjoint_set;
pub mod edit_laws;
pub mod extension_laws;
pub mod filter_laws;
pub mod frame_filtering;
pub mod frame_laws;
pub mod generalized_frame;
pub mod global_ba;
pub mod indices;
pub mod initial_pair;
pub mod link_laws;
pub mod links;
pub mod local_bundle;
pub mod mapping_attempt;
pub mod model_laws;
pub mod next_image;
pub mod number_laws;
pub mod observation_laws;
pub mod observation_manager;
pub mod option_laws;
pub mod order_statistics;
pub mod pair_candidates;
pub mod pair_graph;
pub mod pair_ids;
pub mod pair_inversion;
pub mod pair_laws;
pub mod pair_stats;
pub mod pair_tracks;
pub mod pair_triangulation;
pub mod pipeline;
pub mod point_ids;
pub mod pose_laws;
pub mod queue_laws;
pub mod reconstruction_run;
pub mod registration_stats;
pub mod registration_units;
pub mod removal_laws;
pub mod run_laws;
pub mod scalar;
pub mod schedule_laws;
pub mod seed_laws;
pub mod seeding;
pub mod session;
mod sets;
pub mod setup_laws;
pub mod sorting;
pub mod statistic_laws;
pub mod structureless;
pub mod structureless_laws;
pub mod support_laws;
pub mod text;
pub mod track_edits;
pub mod track_filter;
pub mod track_laws;
pub mod translation_votes;
pub mod types;
pub mod visibility;
pub mod vote_laws;
