//! The speculation-fence control plane.

pub mod access_arm;
pub mod access_log;
pub mod access_policy;
pub mod access_spine;
pub mod access_vis;
pub mod arm_table;
pub mod admission;
pub mod admit_deque;
pub mod bloom;
pub mod collateral;
pub mod dag;
pub mod boundary;
pub mod certificate;
pub mod busy_stall;
pub mod decision_field;
pub mod deque;
pub mod edge;
pub mod engagement;
pub mod flags;
pub mod inspector;
pub mod journal_effect;
pub mod resume;
pub mod tables;
