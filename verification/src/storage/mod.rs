pub mod file_cache;
