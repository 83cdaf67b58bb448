//! Verified building blocks of an ARM64 Mach-O linker back end.
#![allow(unused_imports)]

pub mod aarch64;
pub mod atoms;
pub mod byte_order;
pub mod bytes;
pub mod chained_fixups;
pub mod compact_unwind;
pub mod eh_frame;
pub mod eh_frame_relocations;
pub mod eh_frame_writer;
pub mod export_list;
pub mod finalise_sizes;
pub mod fixup_collection;
pub mod fixup_table;
pub mod header_sizes;
pub mod headers;
pub mod image;
pub mod layout;
pub mod load_commands;
pub mod objc_references;
pub mod options;
pub mod output_section_id;
pub mod relocation_writer;
pub mod relocations;
pub mod section_copy;
pub mod sections;
pub mod segment;
pub mod signature;
pub mod sorting;
pub mod stub_library;
pub mod symbol_output;
pub mod symbols;
pub mod symtab;
pub mod synthetic;
pub mod tapi;
pub mod text;
pub mod unwind_records;
pub mod unwind_writer;
