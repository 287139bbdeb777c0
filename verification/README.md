# rustsfm

Incremental structure-from-motion mapping with proofs.

- `src/` is the library: bookkeeping of observations and tracks, choice of the
  images to register, selection of bundles, and the controllers that take a
  reconstruction from a seed pair to a full model. Everything in it is verified
  with Verus. Numbers that come out of geometry enter it as encodings
  (`scalar.rs`); the library orders and compares them but does no arithmetic on
  them.
- `tests/` runs the library on concrete models.
- `app/` is ordinary Rust around the library: files, threads, environment
  variables and everything that computes with floating point. It measures what
  the library asks about and carries out what the library decides. Camera
  models, feature extraction, minimal solvers, bundle adjustment and storage are
  supplied by the program that uses it, through the traits in
  `app/services.rs`.

Where to start reading:

| What | Where |
| --- | --- |
| Data | `src/types.rs`, `src/config.rs` |
| Statistics of observations | `src/observation_manager.rs`, `src/observation_laws.rs`, `src/statistic_laws.rs`, `src/deregistration_laws.rs` |
| Edits of tracks | `src/track_edits.rs`, `src/track_filter.rs`, `src/filter_laws.rs` |
| Seeds and initial pairs | `src/seeding.rs`, `src/initial_pair.rs`, `src/session.rs` |
| Registration | `src/next_image.rs`, `src/absolute_pose.rs`, `src/generalized_frame.rs`, `src/structureless.rs`, `src/structureless_laws.rs` |
| Refinement | `src/local_bundle.rs`, `src/global_ba.rs`, `src/bundle_options.rs` |
| Controllers | `src/mapping_attempt.rs`, `src/pipeline.rs`, `src/reconstruction_run.rs` |

Laws that relate several functions are public proof functions whose names begin
with `law_`.
