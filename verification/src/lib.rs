//! A virtual machine monitor for test microkernels, and the pipeline that tests it in a realm.

pub mod bytes;
pub mod cca_job;
pub mod cca_ram;
pub mod command;
pub mod device_tree;
pub mod gic;
pub mod guest_tests;
pub mod image;
pub mod io;
pub mod load;
pub mod memory;
pub mod options;
pub mod pipeline;
pub mod run;
pub mod serial;
pub mod sort;
pub mod targets;
pub mod text;
pub mod topology;
pub mod uefi_igvm;
