# uefi_dxe

Core services of a UEFI DXE environment, written in Verus with their
behaviour stated in `requires`/`ensures` contracts and proved.

- `src/` — the verified library: the frame allocator, the GCD memory and I/O
  maps (`memory_block`, `memory_map`, `gcd`, `io_block`, `io_map`, `io_gcd`),
  the protocol database, the event database, dependency expressions, device
  paths, PE32 image loading and relocation, and the decisions of the pool and
  page allocators.
- `tests/` — tests of the library on concrete values.
- `app/` — ordinary Rust around the library: spin-locked services that speak
  `r_efi` types, the pool allocators that work on raw memory, and the sample
  driver entry point.

`goblin` parses PE headers, `scroll` reads little-endian values, `uuid` reads
GUIDs and `linked_list_allocator` rounds sizes; the library calls them through
small trusted functions whose contracts are stated next to them.
