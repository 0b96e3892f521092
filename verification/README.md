# osboot

The verified core of a small x86_64 UEFI bootloader and kernel.

- `src/memory.rs`: the physical frame allocator that walks the firmware memory
  map once, handing out 4 KiB frames of conventional memory above 2 MiB, with
  its laws (frames strictly increase, lie in free memory, exhaustion is final,
  and over a sorted map exactly the free frames above 2 MiB are handed out).
- `src/framebuffer.rs`: the framebuffer text console (glyph drawing, wrapping,
  clearing), specified byte by byte.
- `src/font.rs`: contracts for the `noto-sans-mono-bitmap` glyph lookups.
- `src/log_line.rs`: the `[LEVEL] [file:line] - message` log format.
- `src/params.rs`: the parameters handed from bootloader to kernel and the
  kernel's start-up checks.
- `app/`: firmware calls, the serial port, the global logger, page-table setup
  and the QEMU runner.
