//! Verified core of the motion-vector tool chain: CSV encoding of motion
//! vectors, comparison of two motion-vector dumps, benchmark bookkeeping,
//! the text formats the publishing steps read and write, the report pages
//! and flame graphs they produce, and the layout of the motion-vector
//! videos.

pub mod text;
pub mod scan;
pub mod paths;
pub mod keyed;
pub mod benchmark;
pub mod key;
pub mod grouping;
pub mod mv_compare;
pub mod mv_diff;
pub mod motion_vector;
pub mod csv_read;
pub mod csv_laws;
pub mod averaging;
pub mod report_table;
pub mod runner;
pub mod speedup;
pub mod report_names;
pub mod topdown;
pub mod extract;
pub mod publish;
pub mod confluence;
pub mod flamegraph;
pub mod report_pages;
pub mod video_layout;
pub mod side_data;
