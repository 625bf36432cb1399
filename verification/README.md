# vesper

A small RISC-V 64 kernel (QEMU `virt`, Sv39 paging, M-mode traps, a
round-robin kernel-thread scheduler, a VirtIO block driver and a Minix 3
file reader) whose logic is a library verified with Verus.

## Layout

- `src/` — the verified library.
  - `mm/allocator/page_frame.rs` — the byte-per-page first-fit allocator
    over a model of the heap's descriptor table and data pages.
  - `mm/paging/sv39/` — page-table entries, `map`, `v2p`, `id_map_range`
    and `unmap`, stated over the Sv39 walk (`translate`).
  - `boot/entry.rs` — the kernel's identity page table (`map_kernel`).
  - `arch/riscv64/` — `satp` encoding, trap decisions, the console echo.
  - `drivers/` — PLIC and UART register values, VirtIO bus probing, the
    block device bring-up as a state machine, and the virtqueue.
  - `fs/minix3/` — superblock, inodes, directory entries and the zone
    walk of a file read.
  - `exec/elf.rs` — ELF64 header and program-header decoding.
  - `process/` — the process table, scheduler and syscall dispatch.
- `tests/` — tests of the library on concrete values.
- `app/` — the kernel around the library: CSRs, MMIO, linker symbols, the
  trap entry, the console and the boot sequence. The library decides;
  `app/` performs the register accesses it asks for.
