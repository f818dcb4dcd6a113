pub mod file_name;
pub mod file_split;
pub mod packer;
