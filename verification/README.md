# rozeos

A small x86_64 kernel that boots through Limine into a boot menu and runs
DOOM, with its logic written in Verus and proved.

## Layout

- `src/` is the verified library, every function with its contract:
  - `physical`: the bitmap frame allocator and the boot-time layout of its
    bitmap, with laws on allocation, freeing and the free count;
  - `keyboard`: the scancode ring buffer and the set 1 decoder;
  - `framebuffer`, `font`, `draw`: pixels, glyphs and display lists;
  - `console`: the text console with wrapping and scrolling;
  - `menu`, `screens`: the boot menu's decisions and its screens;
  - `doom`: the key mapping and frame blit of the DOOM bridge;
  - `serial`, `timer`, `image`: serial line encoding, PIT arithmetic, the
    boot image's MBR and WAD detection.
- `tests/` runs the library on concrete values.
- `app/` is the unverified shell: the kernel's hardware, boot protocol,
  interrupt and heap plumbing, and the host program that builds the boot
  image. It calls the library for every decision.
