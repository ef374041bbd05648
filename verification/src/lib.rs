//! Host-side tooling for FAE executable images: the footer formats, the
//! image layout, and the helpers that build and inspect them.

pub mod common;
pub mod constants;
pub mod fae1;
pub mod fae_format;
pub mod elf;
pub mod text;
pub mod section_plan;
pub mod link_script;
pub mod gdbinit;
pub mod inspect;
pub mod read_cli;
pub mod build_cli;
pub mod build_args;
pub mod plan_round_trip;
pub mod plan_merge;
pub mod command_read_back;
pub mod build_image;
pub mod link_inputs;
pub mod relocation_report;
pub mod rust_app;
pub mod cstr_buf;
pub mod rt0;
pub mod allocator;
pub mod xipfs_ctx;
