//! Verified core services of a UEFI DXE environment: a frame allocator, the
//! Global Coherency Domain (GCD) memory and I/O maps, a protocol database,
//! an event database, dependency-expression evaluation, device path helpers
//! and PE32 image loading.
pub mod frame_allocator;
pub mod gcd;
pub mod io_block;
pub mod io_gcd;
pub mod io_map;
pub mod memory_block;
pub mod memory_map;
pub mod pe32;
pub mod protocol_db;
pub mod depex;
pub mod device_path;
pub mod event;
pub mod fixed_size_block_allocator;
